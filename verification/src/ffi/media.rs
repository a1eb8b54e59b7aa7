//! Which kind of media a stored file is, from its file name and what its content
//! looked like, to choose how it is resized for display.

use vstd::prelude::*;

verus! {

/// The kinds of media a file is shown as.
#[derive(Clone, Copy, Debug, PartialEq, Eq, Structural)]
pub enum MediaKind {
    Video,
    Image,
    Audio,
}

/// `str::to_lowercase`: the lower-case form of a text, by the Unicode tables of std.
pub uninterp spec fn lowercase_spec(s: Seq<char>) -> Seq<char>;

/// `str::to_lowercase`; the result is named, not spelled out: the Unicode case mapping
/// it applies is not stated here.
#[verifier::external_body]
fn lowercase(s: &str) -> (r: String)
    ensures
        r@ == lowercase_spec(s@),
{
    s.to_lowercase()
}

/// `s` ends with `suffix`.
pub open spec fn has_suffix(s: Seq<char>, suffix: Seq<char>) -> bool {
    suffix.len() <= s.len() && s.skip(s.len() - suffix.len()) == suffix
}

/// A video file name (already in lower case).
pub open spec fn video_name(l: Seq<char>) -> bool {
    has_suffix(l, ".mp4"@) || has_suffix(l, ".mov"@) || has_suffix(l, ".avi"@) || has_suffix(l, ".mkv"@)
}

/// An image file name (already in lower case).
pub open spec fn image_name(l: Seq<char>) -> bool {
    has_suffix(l, ".jpg"@) || has_suffix(l, ".jpeg"@) || has_suffix(l, ".png"@) || has_suffix(l, ".gif"@)
        || has_suffix(l, ".bmp"@) || has_suffix(l, ".webp"@) || has_suffix(l, ".tiff"@) || has_suffix(
        l,
        ".tif"@,
    )
}

/// An audio file name (already in lower case).
pub open spec fn audio_name(l: Seq<char>) -> bool {
    has_suffix(l, ".mp3"@) || has_suffix(l, ".wav"@) || has_suffix(l, ".flac"@) || has_suffix(l, ".aac"@)
        || has_suffix(l, ".ogg"@)
}

/// The kind of a file whose lower-case name is `l`: video by name or content first,
/// then image by name, then audio by name or content; anything else is treated as an
/// image.
pub open spec fn media_kind_of(l: Seq<char>, video_content: bool, audio_content: bool) -> MediaKind {
    if video_name(l) || video_content {
        MediaKind::Video
    } else if image_name(l) {
        MediaKind::Image
    } else if audio_name(l) || audio_content {
        MediaKind::Audio
    } else {
        MediaKind::Image
    }
}

fn ends_with(s: &str, suffix: &str) -> (r: bool)
    ensures
        r == has_suffix(s@, suffix@),
{
    let n = s.unicode_len();
    let m = suffix.unicode_len();
    if m > n {
        return false;
    }
    let start = n - m;
    let mut i: usize = 0;
    while i < m
        invariant
            n == s@.len(),
            m == suffix@.len(),
            start == n - m,
            0 <= i <= m,
            forall|k: int| 0 <= k < i ==> s@[start + k] == suffix@[k],
        decreases m - i,
    {
        if s.get_char(start + i) != suffix.get_char(i) {
            assert(s@.skip(start as int)[i as int] != suffix@[i as int]);
            return false;
        }
        i = i + 1;
    }
    assert(s@.skip(start as int) =~= suffix@);
    true
}

/// The kind of media a file with the lower-case name `l` holds, given whether its
/// content was recognised as video and as audio.
pub fn media_kind_of_lower(l: &str, video_content: bool, audio_content: bool) -> (r: MediaKind)
    ensures
        r == media_kind_of(l@, video_content, audio_content),
{
    let video = ends_with(l, ".mp4") || ends_with(l, ".mov") || ends_with(l, ".avi") || ends_with(l, ".mkv");
    if video || video_content {
        return MediaKind::Video;
    }
    let image = ends_with(l, ".jpg") || ends_with(l, ".jpeg") || ends_with(l, ".png") || ends_with(l, ".gif")
        || ends_with(l, ".bmp") || ends_with(l, ".webp") || ends_with(l, ".tiff") || ends_with(l, ".tif");
    if image {
        return MediaKind::Image;
    }
    let audio = ends_with(l, ".mp3") || ends_with(l, ".wav") || ends_with(l, ".flac") || ends_with(l, ".aac")
        || ends_with(l, ".ogg");
    if audio || audio_content {
        MediaKind::Audio
    } else {
        MediaKind::Image
    }
}

/// The kind of media `filename` holds, given whether its content was recognised as
/// video and as audio. The name is compared in lower case.
pub fn media_kind(filename: &str, video_content: bool, audio_content: bool) -> (r: MediaKind)
    ensures
        r == media_kind_of(lowercase_spec(filename@), video_content, audio_content),
{
    let lower = lowercase(filename);
    media_kind_of_lower(lower.as_str(), video_content, audio_content)
}

/// The kind an uploaded file is recorded as, from its lower-case name `l`: video,
/// audio, or else image.
pub open spec fn upload_kind_of(l: Seq<char>) -> MediaKind {
    if has_suffix(l, ".mov"@) || has_suffix(l, ".mp4"@) || has_suffix(l, ".avi"@) {
        MediaKind::Video
    } else if has_suffix(l, ".mp3"@) || has_suffix(l, ".wav"@) || has_suffix(l, ".flac"@) {
        MediaKind::Audio
    } else {
        MediaKind::Image
    }
}

/// The kind an uploaded file with the lower-case name `l` is recorded as.
pub fn upload_media_kind_of_lower(l: &str) -> (r: MediaKind)
    ensures
        r == upload_kind_of(l@),
{
    if ends_with(l, ".mov") || ends_with(l, ".mp4") || ends_with(l, ".avi") {
        MediaKind::Video
    } else if ends_with(l, ".mp3") || ends_with(l, ".wav") || ends_with(l, ".flac") {
        MediaKind::Audio
    } else {
        MediaKind::Image
    }
}

/// The kind an uploaded file is recorded as, by its name compared in lower case.
pub fn upload_media_kind(filename: &str) -> (r: MediaKind)
    ensures
        r == upload_kind_of(lowercase_spec(filename@)),
{
    let lower = lowercase(filename);
    upload_media_kind_of_lower(lower.as_str())
}

/// The name a media kind is recorded under.
pub open spec fn kind_name(k: MediaKind) -> Seq<char> {
    match k {
        MediaKind::Video => "video"@,
        MediaKind::Image => "image"@,
        MediaKind::Audio => "audio"@,
    }
}

impl MediaKind {
    /// The name the kind is recorded under: `video`, `image` or `audio`.
    pub fn name(&self) -> (r: &'static str)
        ensures
            r@ == kind_name(*self),
    {
        match self {
            MediaKind::Video => "video",
            MediaKind::Image => "image",
            MediaKind::Audio => "audio",
        }
    }
}

/// `l` ends with the characters `e`.
proof fn lemma_suffix_literal(l: Seq<char>, lit: Seq<char>, e: Seq<char>)
    requires
        lit =~= e,
    ensures
        has_suffix(l, lit) == (e.len() <= l.len() && l.skip(l.len() - e.len()) =~= e),
{
}

/// Uploads are recorded by extension, compared in lower case: a name ending in `.mov`,
/// `.mp4` or `.avi` is video; otherwise one ending in `.mp3`, `.wav` or `.flac` is audio;
/// any other name is an image.
pub proof fn lemma_upload_kind_by_extension(l: Seq<char>)
    ensures
        ({
            let video = (4 <= l.len() && l.skip(l.len() - 4) =~= seq!['.', 'm', 'o', 'v']) || (4 <= l.len()
                && l.skip(l.len() - 4) =~= seq!['.', 'm', 'p', '4']) || (4 <= l.len() && l.skip(l.len() - 4)
                =~= seq!['.', 'a', 'v', 'i']);
            let audio = (4 <= l.len() && l.skip(l.len() - 4) =~= seq!['.', 'm', 'p', '3']) || (4 <= l.len()
                && l.skip(l.len() - 4) =~= seq!['.', 'w', 'a', 'v']) || (5 <= l.len() && l.skip(l.len() - 5)
                =~= seq!['.', 'f', 'l', 'a', 'c']);
            &&& video ==> upload_kind_of(l) == MediaKind::Video
            &&& !video && audio ==> upload_kind_of(l) == MediaKind::Audio
            &&& !video && !audio ==> upload_kind_of(l) == MediaKind::Image
        }),
{
    reveal_strlit(".mov");
    reveal_strlit(".mp4");
    reveal_strlit(".avi");
    reveal_strlit(".mp3");
    reveal_strlit(".wav");
    reveal_strlit(".flac");
    lemma_suffix_literal(l, ".mov"@, seq!['.', 'm', 'o', 'v']);
    lemma_suffix_literal(l, ".mp4"@, seq!['.', 'm', 'p', '4']);
    lemma_suffix_literal(l, ".avi"@, seq!['.', 'a', 'v', 'i']);
    lemma_suffix_literal(l, ".mp3"@, seq!['.', 'm', 'p', '3']);
    lemma_suffix_literal(l, ".wav"@, seq!['.', 'w', 'a', 'v']);
    lemma_suffix_literal(l, ".flac"@, seq!['.', 'f', 'l', 'a', 'c']);
}

/// Stored files are shown by kind, their names compared in lower case: video when the
/// name ends in `.mp4`, `.mov`, `.avi` or `.mkv` or the content looks like video; else an
/// image when the name ends in `.jpg`, `.jpeg`, `.png`, `.gif`, `.bmp`, `.webp`, `.tiff`
/// or `.tif`; else audio when it ends in `.mp3`, `.wav`, `.flac`, `.aac` or `.ogg` or
/// the content looks like audio; anything else is shown as an image.
pub proof fn lemma_media_kind_by_extension(l: Seq<char>, video_content: bool, audio_content: bool)
    ensures
        ({
            let video = (4 <= l.len() && l.skip(l.len() - 4) =~= seq!['.', 'm', 'p', '4'])
                || (4 <= l.len() && l.skip(l.len() - 4) =~= seq!['.', 'm', 'o', 'v'])
                || (4 <= l.len() && l.skip(l.len() - 4) =~= seq!['.', 'a', 'v', 'i'])
                || (4 <= l.len() && l.skip(l.len() - 4) =~= seq!['.', 'm', 'k', 'v']);
            let image = (4 <= l.len() && l.skip(l.len() - 4) =~= seq!['.', 'j', 'p', 'g'])
                || (5 <= l.len() && l.skip(l.len() - 5) =~= seq!['.', 'j', 'p', 'e', 'g'])
                || (4 <= l.len() && l.skip(l.len() - 4) =~= seq!['.', 'p', 'n', 'g'])
                || (4 <= l.len() && l.skip(l.len() - 4) =~= seq!['.', 'g', 'i', 'f'])
                || (4 <= l.len() && l.skip(l.len() - 4) =~= seq!['.', 'b', 'm', 'p'])
                || (5 <= l.len() && l.skip(l.len() - 5) =~= seq!['.', 'w', 'e', 'b', 'p'])
                || (5 <= l.len() && l.skip(l.len() - 5) =~= seq!['.', 't', 'i', 'f', 'f'])
                || (4 <= l.len() && l.skip(l.len() - 4) =~= seq!['.', 't', 'i', 'f']);
            let audio = (4 <= l.len() && l.skip(l.len() - 4) =~= seq!['.', 'm', 'p', '3'])
                || (4 <= l.len() && l.skip(l.len() - 4) =~= seq!['.', 'w', 'a', 'v'])
                || (5 <= l.len() && l.skip(l.len() - 5) =~= seq!['.', 'f', 'l', 'a', 'c'])
                || (4 <= l.len() && l.skip(l.len() - 4) =~= seq!['.', 'a', 'a', 'c'])
                || (4 <= l.len() && l.skip(l.len() - 4) =~= seq!['.', 'o', 'g', 'g']);
            &&& video || video_content ==> media_kind_of(l, video_content, audio_content) == MediaKind::Video
            &&& !(video || video_content) && image ==> media_kind_of(l, video_content, audio_content)
                == MediaKind::Image
            &&& !(video || video_content) && !image && (audio || audio_content) ==> media_kind_of(
                l,
                video_content,
                audio_content,
            ) == MediaKind::Audio
            &&& !(video || video_content) && !image && !(audio || audio_content) ==> media_kind_of(
                l,
                video_content,
                audio_content,
            ) == MediaKind::Image
        }),
{
    reveal_strlit(".mp4");
    reveal_strlit(".mov");
    reveal_strlit(".avi");
    reveal_strlit(".mkv");
    reveal_strlit(".jpg");
    reveal_strlit(".jpeg");
    reveal_strlit(".png");
    reveal_strlit(".gif");
    reveal_strlit(".bmp");
    reveal_strlit(".webp");
    reveal_strlit(".tiff");
    reveal_strlit(".tif");
    reveal_strlit(".mp3");
    reveal_strlit(".wav");
    reveal_strlit(".flac");
    reveal_strlit(".aac");
    reveal_strlit(".ogg");
    lemma_suffix_literal(l, ".mp4"@, seq!['.', 'm', 'p', '4']);
    lemma_suffix_literal(l, ".mov"@, seq!['.', 'm', 'o', 'v']);
    lemma_suffix_literal(l, ".avi"@, seq!['.', 'a', 'v', 'i']);
    lemma_suffix_literal(l, ".mkv"@, seq!['.', 'm', 'k', 'v']);
    lemma_suffix_literal(l, ".jpg"@, seq!['.', 'j', 'p', 'g']);
    lemma_suffix_literal(l, ".jpeg"@, seq!['.', 'j', 'p', 'e', 'g']);
    lemma_suffix_literal(l, ".png"@, seq!['.', 'p', 'n', 'g']);
    lemma_suffix_literal(l, ".gif"@, seq!['.', 'g', 'i', 'f']);
    lemma_suffix_literal(l, ".bmp"@, seq!['.', 'b', 'm', 'p']);
    lemma_suffix_literal(l, ".webp"@, seq!['.', 'w', 'e', 'b', 'p']);
    lemma_suffix_literal(l, ".tiff"@, seq!['.', 't', 'i', 'f', 'f']);
    lemma_suffix_literal(l, ".tif"@, seq!['.', 't', 'i', 'f']);
    lemma_suffix_literal(l, ".mp3"@, seq!['.', 'm', 'p', '3']);
    lemma_suffix_literal(l, ".wav"@, seq!['.', 'w', 'a', 'v']);
    lemma_suffix_literal(l, ".flac"@, seq!['.', 'f', 'l', 'a', 'c']);
    lemma_suffix_literal(l, ".aac"@, seq!['.', 'a', 'a', 'c']);
    lemma_suffix_literal(l, ".ogg"@, seq!['.', 'o', 'g', 'g']);
}

/// The kinds are recorded as `video`, `image` and `audio`.
pub proof fn lemma_kind_names()
    ensures
        kind_name(MediaKind::Video) == seq!['v', 'i', 'd', 'e', 'o'],
        kind_name(MediaKind::Image) == seq!['i', 'm', 'a', 'g', 'e'],
        kind_name(MediaKind::Audio) == seq!['a', 'u', 'd', 'i', 'o'],
{
    reveal_strlit("video");
    reveal_strlit("image");
    reveal_strlit("audio");
    assert("video"@ =~= seq!['v', 'i', 'd', 'e', 'o']);
    assert("image"@ =~= seq!['i', 'm', 'a', 'g', 'e']);
    assert("audio"@ =~= seq!['a', 'u', 'd', 'i', 'o']);
}

} // verus!
