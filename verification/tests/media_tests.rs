use soradyne_core::ffi::media::{media_kind, media_kind_of_lower, upload_media_kind, MediaKind};

#[test]
fn media_kind_follows_the_extension_in_any_case() {
    assert_eq!(media_kind("Movie.MP4", false, false), MediaKind::Video);
    assert_eq!(media_kind("photo.jpeg", false, false), MediaKind::Image);
    assert_eq!(media_kind("SONG.MP3", false, false), MediaKind::Audio);
    assert_eq!(media_kind("scan.TIF", false, false), MediaKind::Image);
}

#[test]
fn media_kind_falls_back_on_content_then_image() {
    assert_eq!(media_kind("clip.bin", true, false), MediaKind::Video);
    assert_eq!(media_kind("clip.bin", false, true), MediaKind::Audio);
    assert_eq!(media_kind("clip.bin", false, false), MediaKind::Image);
    assert_eq!(media_kind("photo.png", true, false), MediaKind::Video);
    assert_eq!(media_kind("photo.png", false, true), MediaKind::Image);
}

#[test]
fn lower_case_names_are_classified_directly() {
    assert_eq!(media_kind_of_lower("a.mkv", false, false), MediaKind::Video);
    assert_eq!(media_kind_of_lower("a.MKV", false, false), MediaKind::Image);
    assert_eq!(media_kind_of_lower("mp4", false, false), MediaKind::Image);
}

#[test]
fn uploads_are_recorded_by_extension() {
    assert_eq!(upload_media_kind("Trip.MOV"), MediaKind::Video);
    assert_eq!(upload_media_kind("song.flac"), MediaKind::Audio);
    assert_eq!(upload_media_kind("clip.mkv"), MediaKind::Image);
    assert_eq!(upload_media_kind("photo.jpg").name(), "image");
    assert_eq!(MediaKind::Video.name(), "video");
    assert_eq!(MediaKind::Audio.name(), "audio");
}
