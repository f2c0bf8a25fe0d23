//! Short component type names: the last segment of a type's path, which is
//! the wire identifier of a component type.
use vstd::prelude::*;
use vstd::string::StrSliceExecFns;

verus! {

/// Whether the two characters just before position `end` of `s` are `::`.
pub open spec fn separator_ends_at(s: Seq<char>, end: int) -> bool {
    2 <= end <= s.len() && s[end - 2] == ':' && s[end - 1] == ':'
}

/// The largest `k <= end` at which a `::` ends, or `0` when none does.
pub open spec fn segment_start(s: Seq<char>, end: int) -> int
    decreases end,
{
    if end < 2 {
        0
    } else if separator_ends_at(s, end) {
        end
    } else {
        segment_start(s, end - 1)
    }
}

/// The last `::`-separated segment of a type path (the whole path when it
/// has no `::`).
pub open spec fn short_name_of(path: Seq<char>) -> Seq<char> {
    path.subrange(segment_start(path, path.len() as int), path.len() as int)
}

/// The short name of the type whose full path is `path`: what follows its
/// last `::`.
pub fn short_type_name(path: &str) -> (r: String)
    ensures
        r@ == short_name_of(path@),
{
    let n = path.unicode_len();
    let mut end: usize = n;
    let mut found = false;
    while end >= 2 && !found
        invariant
            end <= n,
            n == path@.len(),
            segment_start(path@, n as int) == segment_start(path@, end as int),
            found ==> separator_ends_at(path@, end as int),
        decreases end + (if found { 0int } else { 1int }),
    {
        if path.get_char(end - 2) == ':' && path.get_char(end - 1) == ':' {
            found = true;
        } else {
            end = end - 1;
        }
    }
    let start: usize = if found { end } else { 0 };
    assert(segment_start(path@, end as int) == start);
    path.substring_char(start, n).to_owned()
}

} // verus!
