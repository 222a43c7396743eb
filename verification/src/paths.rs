//! Slash-separated paths as text.

use crate::text::cat2;
use vstd::prelude::*;

verus! {

/// `part` seen from `base`: an absolute `part` stands for itself, any other
/// is appended with exactly one separator between (none behind an empty
/// base or one that already ends in a separator).
pub open spec fn joined_path(base: Seq<char>, part: Seq<char>) -> Seq<char> {
    if part.len() > 0 && part[0] == '/' {
        part
    } else if base.len() == 0 || base.last() == '/' {
        base + part
    } else {
        base.push('/') + part
    }
}

/// `part` seen from `base`.
pub fn path_join(base: &str, part: &str) -> (r: String)
    ensures
        r@ == joined_path(base@, part@),
{
    let n = base.unicode_len();
    if part.unicode_len() > 0 && part.get_char(0) == '/' {
        part.to_owned()
    } else if n == 0 || base.get_char(n - 1) == '/' {
        cat2(base, part)
    } else {
        let mut out = base.to_owned();
        out.push('/');
        out.append(part);
        out
    }
}

/// A relative path is put behind the base with one separator between them, an
/// absolute one stands for itself, and nothing is put in front of a path that
/// is seen from nowhere.
pub proof fn paths_are_seen_from_their_base(base: Seq<char>, part: Seq<char>)
    ensures
        part.len() == 0 || part[0] != '/' ==> joined_path(base.push('/'), part) == base + seq!['/'] + part,
        base.len() > 0 && base.last() != '/' && (part.len() == 0 || part[0] != '/') ==> joined_path(base, part)
            == base + seq!['/'] + part,
        joined_path(base, seq!['/'] + part) == seq!['/'] + part,
        joined_path(Seq::empty(), part) == part,
{
    assert(base.push('/') =~= base + seq!['/']);
    assert((seq!['/'] + part)[0] == '/');
    assert(Seq::<char>::empty() + part =~= part);
}

} // verus!
