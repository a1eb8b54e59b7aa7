//! Names of the per-party journal and outbound-queue files of a flow.

use vstd::prelude::*;

verus! {

/// Whether a character is alphanumeric in the Unicode sense (`char::is_alphanumeric`).
pub uninterp spec fn is_alphanumeric_spec(c: char) -> bool;

/// `char::is_alphanumeric`.
#[verifier::external_body]
fn is_alphanumeric(c: char) -> (r: bool)
    ensures
        r == is_alphanumeric_spec(c),
{
    c.is_alphanumeric()
}

/// `String::from_iter` over the characters: the string of exactly these characters.
#[verifier::external_body]
pub(crate) fn string_from_chars(chars: &Vec<char>) -> (r: String)
    ensures
        r@ == chars@,
{
    chars.iter().collect()
}

/// The character kept in a file name: itself if alphanumeric, '-' or '_', else '_'.
pub open spec fn filename_char(c: char) -> char {
    if is_alphanumeric_spec(c) || c == '-' || c == '_' {
        c
    } else {
        '_'
    }
}

/// A device id made safe for a file name: every other character becomes '_'.
pub fn device_id_to_filename(device_id: &str) -> (r: String)
    ensures
        r@ == device_id@.map_values(|c: char| filename_char(c)),
{
    let n = device_id.unicode_len();
    let mut out: Vec<char> = Vec::new();
    let mut i: usize = 0;
    while i < n
        invariant
            n == device_id@.len(),
            0 <= i <= n,
            out@ == device_id@.take(i as int).map_values(|c: char| filename_char(c)),
        decreases n - i,
    {
        let c = device_id.get_char(i);
        let kept = if is_alphanumeric(c) || c == '-' || c == '_' {
            c
        } else {
            '_'
        };
        out.push(kept);
        proof {
            assert(device_id@.take(i + 1) == device_id@.take(i as int).push(c));
            assert(out@ =~= device_id@.take(i + 1).map_values(|c: char| filename_char(c)));
        }
        i = i + 1;
    }
    assert(device_id@.take(n as int) =~= device_id@);
    string_from_chars(&out)
}

} // verus!
