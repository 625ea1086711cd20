use vstd::prelude::*;

use crate::names::{chars_of, contains_chars, contains_seq};

verus! {

/// A name names a path that starts at a root or at a drive: a leading `/` or
/// `\`, or a letter followed by `:`.
pub open spec fn is_rooted(name: Seq<char>) -> bool {
    ||| name.len() > 0 && (name[0] == '/' || name[0] == '\\')
    ||| name.len() > 1 && name[1] == ':' && (('a' <= name[0] && name[0] <= 'z') || ('A' <= name[0]
        && name[0] <= 'Z'))
}

/// A name that may be accepted: relative to both roots, with no `..` in it,
/// so that a copy under it stays inside the two directories.
pub open spec fn is_acceptable_name(name: Seq<char>) -> bool {
    !contains_seq(name, seq!['.', '.']) && !is_rooted(name)
}

/// Tells whether the name of an accepted pair may be used for a copy from the
/// right directory to the left one.
pub fn is_acceptable(name: &str) -> (r: bool)
    ensures
        r == is_acceptable_name(name@),
{
    let chars = chars_of(name);
    let dots: Vec<char> = vec!['.', '.'];
    assert(dots@ =~= seq!['.', '.']);
    if contains_chars(&chars, &dots) {
        return false;
    }
    let n = chars.len();
    if n > 0 && (chars[0] == '/' || chars[0] == '\\') {
        return false;
    }
    if n > 1 && chars[1] == ':' && (('a' <= chars[0] && chars[0] <= 'z') || ('A' <= chars[0]
        && chars[0] <= 'Z')) {
        return false;
    }
    true
}

/// Every name of a request may be used.
pub open spec fn accepts_all(names: Seq<Seq<char>>) -> bool {
    forall|i: int| 0 <= i < names.len() ==> is_acceptable_name(#[trigger] names[i])
}

/// Checks every accepted name before anything is copied: the request is
/// refused as a whole if any name contains `..` or starts at a root or a drive.
pub fn validate_accepted_names(names: &Vec<String>) -> (r: bool)
    ensures
        r == accepts_all(names.deep_view()),
{
    let ghost all = names.deep_view();
    assert(all.len() == names@.len());
    let mut i: usize = 0;
    while i < names.len()
        invariant
            0 <= i <= names@.len(),
            all == names.deep_view(),
            all.len() == names@.len(),
            forall|j: int| 0 <= j < i ==> is_acceptable_name(#[trigger] all[j]),
        decreases names@.len() - i,
    {
        assert(all[i as int] == names@[i as int]@);
        if !is_acceptable(names[i].as_str()) {
            return false;
        }
        i = i + 1;
    }
    true
}

/// One name that contains `..`, or that starts at a root or at a drive,
/// refuses the whole request, whatever the other names are: no copy is made
/// for any of them.
pub proof fn lemma_one_unsafe_name_refuses_all(names: Seq<Seq<char>>, i: int)
    requires
        0 <= i < names.len(),
        contains_seq(names[i], seq!['.', '.']) || is_rooted(names[i]),
    ensures
        !accepts_all(names),
{
    assert(!is_acceptable_name(names[i]));
}

} // verus!
