//! Small utilities of the emission pass and the directive parser: sparse
//! writes into a growing byte buffer, and splitting an argument list at
//! top-level commas only.

use vstd::prelude::*;
use crate::text::{spec_trim, trim_bounds};

verus! {

/// `s` with `val` written at `idx`: in place when `idx` is inside the
/// sequence, otherwise extended with zero fill up to `idx`.
pub open spec fn spec_set_at(s: Seq<u8>, idx: int, val: u8) -> Seq<u8> {
    if idx < s.len() {
        s.update(idx, val)
    } else {
        s + Seq::new((idx - s.len()) as nat, |j: int| 0u8) + seq![val]
    }
}

/// Writes `val` at index `idx` of `v`, growing the vector with zero fill if
/// `idx` lies beyond its current length.
pub fn set_vec_at(v: &mut Vec<u8>, val: u8, idx: usize)
    ensures
        final(v)@ == spec_set_at(old(v)@, idx as int, val),
{
    let vlen = v.len();
    if idx < vlen {
        v.set(idx, val);
    } else {
        while v.len() < idx
            invariant
                old(v)@.len() <= v@.len() <= idx,
                v@ == old(v)@ + Seq::new((v@.len() - old(v)@.len()) as nat, |j: int| 0u8),
            decreases idx - v@.len(),
        {
            let ghost pre = v@;
            v.push(0);
            proof {
                assert(v@ =~= old(v)@ + Seq::new((v@.len() - old(v)@.len()) as nat, |j: int| 0u8));
            }
        }
        v.push(val);
        proof {
            assert(v@ =~= spec_set_at(old(v)@, idx as int, val));
        }
    }
}

/// Splits `s` at occurrences of `sep` that lie outside every parenthesis
/// pair, trimming each piece; the running result of the scan from `i` with
/// bracket depth `depth`, the current piece starting at `last`, and the
/// pieces `acc` already cut.
pub open spec fn split_groups_from(
    s: Seq<char>,
    sep: char,
    i: int,
    last: int,
    depth: int,
    acc: Seq<Seq<char>>,
) -> Seq<Seq<char>>
    decreases s.len() - i,
{
    if i >= s.len() {
        acc + seq![spec_trim(s.subrange(last, s.len() as int))]
    } else if s[i] == '(' {
        split_groups_from(s, sep, i + 1, last, depth + 1, acc)
    } else if s[i] == ')' {
        split_groups_from(s, sep, i + 1, last, depth - 1, acc)
    } else if s[i] == sep && depth == 0 {
        split_groups_from(s, sep, i + 1, i + 1, depth, acc + seq![spec_trim(s.subrange(last, i))])
    } else {
        split_groups_from(s, sep, i + 1, last, depth, acc)
    }
}

/// The pieces of `s` between top-level occurrences of `sep`, each trimmed;
/// always at least one piece.
pub open spec fn spec_split_groups(s: Seq<char>, sep: char) -> Seq<Seq<char>> {
    split_groups_from(s, sep, 0, 0, 0, Seq::empty())
}

/// Splits `s` on `sep` at bracket depth zero only, so that parenthesised
/// groups pass through whole; each piece is trimmed.
pub fn split_bracket_groups<'a>(s: &'a str, split: char) -> (r: Vec<&'a str>)
    ensures
        r.deep_view() == spec_split_groups(s@, split),
{
    let len = s.unicode_len();
    let mut ret: Vec<&'a str> = Vec::new();
    let mut last: usize = 0;
    let mut depth: i128 = 0;
    let mut i: usize = 0;
    proof {
        assert(ret.deep_view() =~= Seq::<Seq<char>>::empty());
    }
    while i < len
        invariant
            len == s@.len(),
            0 <= last <= i <= len,
            -(i as int) <= depth <= i as int,
            spec_split_groups(s@, split) == split_groups_from(
                s@,
                split,
                i as int,
                last as int,
                depth as int,
                ret.deep_view(),
            ),
        decreases len - i,
    {
        let c = s.get_char(i);
        if c == '(' {
            depth = depth + 1;
        } else if c == ')' {
            depth = depth - 1;
        } else if c == split && depth == 0 {
            let (a, b) = trim_bounds(s, last, i);
            let piece = s.substring_char(a, b);
            let ghost pre = ret.deep_view();
            ret.push(piece);
            proof {
                assert(ret.deep_view() =~= pre + seq![spec_trim(s@.subrange(last as int, i as int))]);
            }
            last = i + 1;
        }
        i += 1;
    }
    let (a, b) = trim_bounds(s, last, len);
    let piece = s.substring_char(a, b);
    let ghost pre = ret.deep_view();
    ret.push(piece);
    proof {
        assert(ret.deep_view() =~= pre + seq![spec_trim(s@.subrange(last as int, len as int))]);
    }
    ret
}

} // verus!
