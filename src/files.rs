use vstd::prelude::*;

use crate::names::chars_of;

verus! {

/// `c` in lower case, for ASCII letters; other characters stay as they are.
pub open spec fn ascii_lower(c: char) -> char {
    if 'A' <= c && c <= 'Z' {
        ((c as u32) + 32) as char
    } else {
        c
    }
}

/// The file name has the extension `png`, in any case: it ends in `.png` and
/// that dot does not start the name (`.png` alone has no extension).
pub open spec fn has_png_extension(file_name: Seq<char>) -> bool {
    let n = file_name.len() as int;
    &&& n >= 5
    &&& file_name[n - 4] == '.'
    &&& ascii_lower(file_name[n - 3]) == 'p'
    &&& ascii_lower(file_name[n - 2]) == 'n'
    &&& ascii_lower(file_name[n - 1]) == 'g'
}

fn is_ascii_letter_ignoring_case(c: char, lower: char) -> (r: bool)
    requires
        'a' <= lower && lower <= 'z',
    ensures
        r == (ascii_lower(c) == lower),
{
    if c == lower {
        return true;
    }
    if 'A' <= c && c <= 'Z' {
        let l = c as u32 + 32;
        return l == lower as u32;
    }
    false
}

/// Tells whether a directory entry with this file name is a PNG image.
pub fn is_png_file_name(file_name: &str) -> (r: bool)
    ensures
        r == has_png_extension(file_name@),
{
    let chars = chars_of(file_name);
    let n = chars.len();
    if n < 5 {
        return false;
    }
    chars[n - 4] == '.' && is_ascii_letter_ignoring_case(chars[n - 3], 'p')
        && is_ascii_letter_ignoring_case(chars[n - 2], 'n') && is_ascii_letter_ignoring_case(
        chars[n - 1],
        'g',
    )
}

/// An image is too large where a limit in KiB is set and its size (the
/// optimised size where the images are to be optimised, else the size before)
/// is above that many times 1024 bytes.
pub open spec fn breaches_size_limit(
    old_size: usize,
    new_size: usize,
    size_limit_kib: Option<usize>,
    optimize: bool,
) -> bool {
    match size_limit_kib {
        Some(limit) => (if optimize { new_size } else { old_size }) > limit * 1024,
        None => false,
    }
}

/// Tells whether an image breaches the size limit of a size check.
pub fn exceeds_size_limit(old_size: usize, new_size: usize, size_limit_kib: Option<usize>, optimize: bool) -> (r: bool)
    ensures
        r == breaches_size_limit(old_size, new_size, size_limit_kib, optimize),
{
    match size_limit_kib {
        Some(limit) => {
            let size = if optimize { new_size } else { old_size };
            (size as u128) > (limit as u128) * 1024
        },
        None => false,
    }
}

/// An image is listed by a size check where optimising shrinks it, or where it
/// breaches the size limit.
pub fn is_reported_by_size_check(old_size: usize, new_size: usize, size_limit_kib: Option<usize>, optimize: bool) -> (r: bool)
    ensures
        r == (old_size > new_size || breaches_size_limit(old_size, new_size, size_limit_kib, optimize)),
{
    old_size > new_size || exceeds_size_limit(old_size, new_size, size_limit_kib, optimize)
}

} // verus!
