use vstd::prelude::*;
use crate::paths::{join, join_path, asset_dir, asset_dir_of};

verus! {

/// Whether `c` has the Unicode `White_Space` property, as `char::is_whitespace`
/// tests it: U+0009 to U+000D, U+0020, U+0085, U+00A0, U+1680, U+2000 to
/// U+200A, U+2028, U+2029, U+202F, U+205F and U+3000.
pub open spec fn whitespace_of(c: char) -> bool {
    let n = c as u32;
    (0x9 <= n <= 0xd) || n == 0x20 || n == 0x85 || n == 0xa0 || n == 0x1680 || (0x2000 <= n
        <= 0x200a) || n == 0x2028 || n == 0x2029 || n == 0x202f || n == 0x205f || n == 0x3000
}

/// Whether `c` is white space.
pub fn char_is_whitespace(c: char) -> (r: bool)
    ensures
        r == whitespace_of(c),
{
    let n = c as u32;
    (0x9 <= n && n <= 0xd) || n == 0x20 || n == 0x85 || n == 0xa0 || n == 0x1680 || (0x2000 <= n
        && n <= 0x200a) || n == 0x2028 || n == 0x2029 || n == 0x202f || n == 0x205f || n == 0x3000
}

/// Why an image cannot be imported.
#[derive(Debug)]
pub enum ImportError {
    /// The source path is empty or only white space.
    EmptySource,
}

/// Whether every character of `s` is white space (so an empty `s` is blank).
pub fn is_blank(s: &str) -> (r: bool)
    ensures
        r == forall|i: int| 0 <= i < s@.len() ==> whitespace_of(#[trigger] s@[i]),
{
    let n = s.unicode_len();
    let mut i: usize = 0;
    while i < n
        invariant
            n == s@.len(),
            i <= n,
            forall|j: int| 0 <= j < i ==> whitespace_of(#[trigger] s@[j]),
        decreases n - i,
    {
        if !char_is_whitespace(s.get_char(i)) {
            return false;
        }
        i = i + 1;
    }
    true
}

/// Accepts an image source path unless it is blank.
pub fn check_image_source(source_path: &str) -> (r: Result<(), ImportError>)
    ensures
        r.is_err() <==> forall|i: int| 0 <= i < source_path@.len() ==> whitespace_of(
            #[trigger] source_path@[i],
        ),
{
    if is_blank(source_path) {
        Err(ImportError::EmptySource)
    } else {
        Ok(())
    }
}

/// Where an image named `file_name` is copied for a character:
/// `<project>/assets/characters/<character id>/<file name>`.
pub fn image_destination(project: &str, char_id: &str, file_name: &str) -> (r: String)
    ensures
        r@ == join(asset_dir_of(project@, char_id@), file_name@),
{
    let dir = asset_dir(project, char_id);
    join_path(dir.as_str(), file_name)
}

} // verus!
