//! Character- and string-level helpers shared by the tokeniser, the parser
//! and the macro system: whitespace tests, trimming, searching, splitting,
//! radix parsing and textual replacement, each proved against a spec-level
//! definition over `Seq<char>`.

use vstd::prelude::*;

verus! {

/// Whether `c` has the Unicode `White_Space` property, the test `str::trim`
/// and token splitting go by.
pub open spec fn is_ws(c: char) -> bool {
    c == ' ' || c == '\t' || c == '\n' || c == '\r' || c == '\u{b}' || c == '\u{c}'
        || c == '\u{85}' || c == '\u{a0}' || c == '\u{1680}' || c == '\u{2000}'
        || c == '\u{2001}' || c == '\u{2002}' || c == '\u{2003}' || c == '\u{2004}'
        || c == '\u{2005}' || c == '\u{2006}' || c == '\u{2007}' || c == '\u{2008}'
        || c == '\u{2009}' || c == '\u{200a}' || c == '\u{2028}' || c == '\u{2029}'
        || c == '\u{202f}' || c == '\u{205f}' || c == '\u{3000}'
}

/// Executable form of [`is_ws`].
pub fn is_whitespace_char(c: char) -> (r: bool)
    ensures
        r == is_ws(c),
{
    c == ' ' || c == '\t' || c == '\n' || c == '\r' || c == '\u{b}' || c == '\u{c}'
        || c == '\u{85}' || c == '\u{a0}' || c == '\u{1680}' || c == '\u{2000}'
        || c == '\u{2001}' || c == '\u{2002}' || c == '\u{2003}' || c == '\u{2004}'
        || c == '\u{2005}' || c == '\u{2006}' || c == '\u{2007}' || c == '\u{2008}'
        || c == '\u{2009}' || c == '\u{200a}' || c == '\u{2028}' || c == '\u{2029}'
        || c == '\u{202f}' || c == '\u{205f}' || c == '\u{3000}'
}

/// Character-wise equality of two string slices.
pub fn str_eq(a: &str, b: &str) -> (r: bool)
    ensures
        r == (a@ == b@),
{
    let alen = a.unicode_len();
    let blen = b.unicode_len();
    if alen != blen {
        assert(a@ != b@) by {
            assert(a@.len() != b@.len());
        }
        return false;
    }
    let mut i: usize = 0;
    while i < alen
        invariant
            alen == a@.len(),
            alen == b@.len(),
            0 <= i <= alen,
            forall|j: int| 0 <= j < i ==> a@[j] == b@[j],
        decreases alen - i,
    {
        if a.get_char(i) != b.get_char(i) {
            return false;
        }
        i += 1;
    }
    proof {
        assert(a@ =~= b@);
    }
    true
}

/// The smallest index at or after `from` where `c` occurs in `s`, if any.
pub open spec fn spec_find(s: Seq<char>, from: int, c: char) -> Option<int>
    decreases s.len() - from,
{
    if from < 0 || from >= s.len() {
        None
    } else if s[from] == c {
        Some(from)
    } else {
        spec_find(s, from + 1, c)
    }
}

/// Scans `s` from `from` for the first occurrence of `c`.
pub fn find_char_from(s: &str, from: usize, c: char) -> (r: Option<usize>)
    requires
        from <= s@.len(),
    ensures
        match r {
            Some(i) => from <= i < s@.len() && spec_find(s@, from as int, c) == Some(i as int),
            None => spec_find(s@, from as int, c) is None,
        },
{
    let len = s.unicode_len();
    let mut i: usize = from;
    while i < len
        invariant
            len == s@.len(),
            from <= i <= len,
            spec_find(s@, from as int, c) == spec_find(s@, i as int, c),
        decreases len - i,
    {
        if s.get_char(i) == c {
            return Some(i);
        }
        i += 1;
    }
    None
}

/// `s` with its leading whitespace characters removed.
pub open spec fn trim_front(s: Seq<char>) -> Seq<char>
    decreases s.len(),
{
    if s.len() > 0 && is_ws(s[0]) {
        trim_front(s.skip(1))
    } else {
        s
    }
}

/// `s` with its trailing whitespace characters removed.
pub open spec fn trim_back(s: Seq<char>) -> Seq<char>
    decreases s.len(),
{
    if s.len() > 0 && is_ws(s[s.len() - 1]) {
        trim_back(s.drop_last())
    } else {
        s
    }
}

/// `s` with whitespace removed from both ends, as `str::trim` leaves it.
pub open spec fn spec_trim(s: Seq<char>) -> Seq<char> {
    trim_back(trim_front(s))
}

/// The bounds of the trimmed middle of `s[from..to]`: the subrange they cut
/// out is exactly `spec_trim` of the range given.
pub fn trim_bounds(s: &str, from: usize, to: usize) -> (r: (usize, usize))
    requires
        from <= to <= s@.len(),
    ensures
        from <= r.0 <= r.1 <= to,
        s@.subrange(r.0 as int, r.1 as int) == spec_trim(s@.subrange(from as int, to as int)),
{
    let mut a: usize = from;
    while a < to && is_whitespace_char(s.get_char(a))
        invariant
            from <= a <= to <= s@.len(),
            trim_front(s@.subrange(from as int, to as int)) == trim_front(
                s@.subrange(a as int, to as int),
            ),
        decreases to - a,
    {
        proof {
            assert(s@.subrange(a as int, to as int).skip(1) =~= s@.subrange(a + 1, to as int));
        }
        a += 1;
    }
    proof {
        assert(trim_front(s@.subrange(from as int, to as int)) == s@.subrange(a as int, to as int));
    }
    let mut b: usize = to;
    while b > a && is_whitespace_char(s.get_char(b - 1))
        invariant
            from <= a <= b <= to <= s@.len(),
            trim_back(s@.subrange(a as int, to as int)) == trim_back(
                s@.subrange(a as int, b as int),
            ),
        decreases b,
    {
        proof {
            assert(s@.subrange(a as int, b as int).drop_last() =~= s@.subrange(a as int, b - 1));
        }
        b -= 1;
    }
    proof {
        assert(trim_back(s@.subrange(a as int, b as int)) == s@.subrange(a as int, b as int));
    }
    (a, b)
}

/// The numeric value of `c` as a digit (`0`–`9`, `a`–`z`, `A`–`Z`), or a
/// value no radix reaches for any other character.
pub open spec fn digit_val(c: char) -> int {
    if '0' <= c && c <= '9' {
        c as int - '0' as int
    } else if 'a' <= c && c <= 'z' {
        c as int - 'a' as int + 10
    } else if 'A' <= c && c <= 'Z' {
        c as int - 'A' as int + 10
    } else {
        99
    }
}

/// Whether every character of `s` is a digit of the given radix.
pub open spec fn digits_ok(s: Seq<char>, radix: int) -> bool {
    forall|i: int| 0 <= i < s.len() ==> digit_val(s[i]) < radix
}

/// The value of the digit string `s` in the given radix.
pub open spec fn digits_val(s: Seq<char>, radix: int) -> int
    decreases s.len(),
{
    if s.len() == 0 {
        0
    } else {
        digits_val(s.drop_last(), radix) * radix + digit_val(s.last())
    }
}

/// The value of an unsigned integer literal as `from_str_radix` reads it: an
/// optional sign, then at least one digit; a minus sign only for value zero;
/// `None` for an empty or invalid string or a value above `max`.
pub open spec fn spec_parse_uint(s: Seq<char>, radix: int, max: int) -> Option<int> {
    if s.len() == 0 {
        None
    } else {
        let neg = s[0] == '-';
        let ds = if s[0] == '+' || s[0] == '-' {
            s.skip(1)
        } else {
            s
        };
        if ds.len() == 0 || !digits_ok(ds, radix) {
            None
        } else if neg {
            if digits_val(ds, radix) == 0 {
                Some(0)
            } else {
                None
            }
        } else if digits_val(ds, radix) > max {
            None
        } else {
            Some(digits_val(ds, radix))
        }
    }
}

proof fn lemma_digits_val_nonneg(s: Seq<char>, radix: int)
    requires
        digits_ok(s, radix),
        radix >= 2,
    ensures
        digits_val(s, radix) >= 0,
    decreases s.len(),
{
    if s.len() > 0 {
        assert(digits_ok(s.drop_last(), radix));
        lemma_digits_val_nonneg(s.drop_last(), radix);
        assert(digit_val(s.last()) >= 0);
    }
}

proof fn lemma_digits_val_mono(s: Seq<char>, i: int, radix: int)
    requires
        digits_ok(s, radix),
        radix >= 2,
        0 <= i <= s.len(),
    ensures
        digits_val(s.take(i), radix) <= digits_val(s, radix),
    decreases s.len() - i,
{
    if i < s.len() {
        lemma_digits_val_mono(s, i + 1, radix);
        let t = s.take(i + 1);
        assert(t.drop_last() =~= s.take(i));
        assert(digits_ok(s.take(i), radix));
        lemma_digits_val_nonneg(s.take(i), radix);
        assert(digits_val(t, radix) == digits_val(s.take(i), radix) * radix + digit_val(t.last()));
        assert(digits_val(s.take(i), radix) * radix >= digits_val(s.take(i), radix)) by (
        nonlinear_arith)
            requires
                digits_val(s.take(i), radix) >= 0,
                radix >= 2,
        ;
    } else {
        assert(s.take(i) =~= s);
    }
}

/// The numeric value of `c` as an executable digit lookup.
fn digit_of(c: char) -> (r: u32)
    ensures
        r == digit_val(c),
        r <= 99,
{
    if '0' <= c && c <= '9' {
        (c as u32) - ('0' as u32)
    } else if 'a' <= c && c <= 'z' {
        (c as u32) - ('a' as u32) + 10
    } else if 'A' <= c && c <= 'Z' {
        (c as u32) - ('A' as u32) + 10
    } else {
        99
    }
}

/// Parses `s` as an unsigned integer of the given radix, no larger than
/// `max`, with `from_str_radix`'s treatment of signs.
pub fn parse_uint(s: &str, radix: u32, max: u32) -> (r: Option<u32>)
    requires
        2 <= radix <= 16,
        max <= 0xffff,
    ensures
        match r {
            Some(v) => spec_parse_uint(s@, radix as int, max as int) == Some(v as int),
            None => spec_parse_uint(s@, radix as int, max as int) is None,
        },
{
    let len = s.unicode_len();
    if len == 0 {
        return None;
    }
    let first = s.get_char(0);
    let neg = first == '-';
    let start: usize = if first == '+' || first == '-' {
        1
    } else {
        0
    };
    if start == len {
        return None;
    }
    let ghost ds = if first == '+' || first == '-' {
        s@.skip(1)
    } else {
        s@
    };
    proof {
        assert(ds =~= s@.subrange(start as int, len as int));
    }
    let mut v: u32 = 0;
    let mut i: usize = start;
    while i < len
        invariant
            len == s@.len(),
            0 < len,
            start < len,
            start <= i <= len,
            2 <= radix <= 16,
            max <= 0xffff,
            start == if s@[0] == '+' || s@[0] == '-' {
                1int
            } else {
                0int
            },
            neg == (s@[0] == '-'),
            ds == s@.subrange(start as int, len as int),
            ds == if s@[0] == '+' || s@[0] == '-' {
                s@.skip(1)
            } else {
                s@
            },
            digits_ok(ds.take(i - start), radix as int),
            v == digits_val(ds.take(i - start), radix as int),
            v <= max,
        decreases len - i,
    {
        let c = s.get_char(i);
        let d = digit_of(c);
        if d >= radix {
            proof {
                assert(ds[i - start] == s@[i as int]);
                assert(digit_val(ds[i - start]) >= radix);
                assert(!digits_ok(ds, radix as int));
            }
            return None;
        }
        proof {
            assert(v * radix + d < 0x200000) by (nonlinear_arith)
                requires
                    v <= 0xffff,
                    radix <= 16,
                    d <= 99,
            ;
        }
        let vv: u32 = v * radix + d;
        proof {
            let t = ds.take(i - start + 1);
            assert(t.drop_last() =~= ds.take(i - start));
            assert(t.last() == s@[i as int]);
            assert(vv == digits_val(t, radix as int));
        }
        if vv > max {
            // Every longer prefix is at least as large, so the full value
            // cannot fit either; whether a later character is even a valid
            // digit no longer matters.
            proof {
                if digits_ok(ds, radix as int) {
                    lemma_digits_val_mono(ds, i - start + 1, radix as int);
                }
            }
            return None;
        }
        v = vv;
        i += 1;
    }
    proof {
        assert(ds.take(i - start) =~= ds);
    }
    if neg {
        if v == 0 {
            Some(0)
        } else {
            None
        }
    } else {
        Some(v)
    }
}

/// `s` split at every occurrence of `sep`, pieces in order, separators
/// dropped; always at least one piece.
pub open spec fn spec_split_plain(s: Seq<char>, sep: char) -> Seq<Seq<char>>
    decreases s.len(),
    via spec_split_plain_dec
{
    match spec_find(s, 0, sep) {
        None => seq![s],
        Some(i) => seq![s.take(i)] + spec_split_plain(s.skip(i + 1), sep),
    }
}

#[via_fn]
proof fn spec_split_plain_dec(s: Seq<char>, sep: char) {
    if spec_find(s, 0, sep) is Some {
        lemma_find_in_range(s, 0, sep);
    }
}

/// A found occurrence lies inside the text, holds `c`, and nothing before
/// it does.
proof fn lemma_find_in_range(s: Seq<char>, from: int, c: char)
    requires
        0 <= from,
        spec_find(s, from, c) is Some,
    ensures
        from <= spec_find(s, from, c)->Some_0 < s.len(),
        s[spec_find(s, from, c)->Some_0] == c,
        forall|j: int| from <= j < spec_find(s, from, c)->Some_0 ==> s[j] != c,
    decreases s.len() - from,
{
    if from < s.len() && s[from] != c {
        lemma_find_in_range(s, from + 1, c);
    }
}

/// Splits `s` at every `sep` and trims each piece.
pub fn split_and_trim<'a>(s: &'a str, sep: char) -> (r: Vec<&'a str>)
    ensures
        r.deep_view() == spec_split_plain(s@, sep).map_values(|p: Seq<char>| spec_trim(p)),
{
    let len = s.unicode_len();
    let mut ret: Vec<&'a str> = Vec::new();
    let mut last: usize = 0;
    let mut i: usize = 0;
    let ghost target = spec_split_plain(s@, sep).map_values(|p: Seq<char>| spec_trim(p));
    proof {
        assert(s@.skip(0) =~= s@);
        assert(ret.deep_view() =~= Seq::<Seq<char>>::empty());
        assert(target =~= ret.deep_view() + spec_split_plain(s@.skip(0), sep).map_values(
            |p: Seq<char>| spec_trim(p),
        ));
    }
    while i < len
        invariant
            len == s@.len(),
            last <= i <= len,
            forall|j: int| last <= j < i ==> s@[j] != sep,
            target == ret.deep_view() + spec_split_plain(s@.skip(last as int), sep).map_values(
                |p: Seq<char>| spec_trim(p),
            ),
        decreases len - i,
    {
        if s.get_char(i) == sep {
            let (a, b) = trim_bounds(s, last, i);
            let piece = s.substring_char(a, b);
            let ghost pre = ret.deep_view();
            proof {
                let rest = s@.skip(last as int);
                lemma_find_step(rest, 0, i - last, sep);
                assert(rest.take(i - last) =~= s@.subrange(last as int, i as int));
                assert(rest.skip(i - last + 1) =~= s@.skip(i + 1));
                assert(spec_split_plain(rest, sep).map_values(|p: Seq<char>| spec_trim(p))
                    =~= seq![piece@] + spec_split_plain(s@.skip(i + 1), sep).map_values(
                    |p: Seq<char>| spec_trim(p),
                ));
            }
            ret.push(piece);
            proof {
                assert(ret.deep_view() =~= pre.push(piece@));
                assert(target =~= ret.deep_view() + spec_split_plain(s@.skip(i + 1), sep)
                    .map_values(|p: Seq<char>| spec_trim(p)));
            }
            last = i + 1;
        }
        i += 1;
    }
    let (a, b) = trim_bounds(s, last, len);
    let piece = s.substring_char(a, b);
    proof {
        let rest = s@.skip(last as int);
        assert(spec_find(rest, 0, sep) is None) by {
            lemma_find_none(rest, 0, sep);
        }
        assert(rest =~= s@.subrange(last as int, len as int));
        assert(spec_split_plain(rest, sep).map_values(|p: Seq<char>| spec_trim(p)) =~= seq![
            spec_trim(rest),
        ]);
    }
    let ghost pre = ret.deep_view();
    ret.push(piece);
    proof {
        assert(ret.deep_view() =~= pre.push(piece@));
        assert(ret.deep_view() =~= target);
    }
    ret
}

/// If the characters before `at` differ from `c` and `s[at] == c`, the first
/// occurrence is `at`.
proof fn lemma_find_step(s: Seq<char>, from: int, at: int, c: char)
    requires
        0 <= from <= at < s.len(),
        forall|j: int| from <= j < at ==> s[j] != c,
        s[at] == c,
    ensures
        spec_find(s, from, c) == Some(at),
    decreases at - from,
{
    if from < at {
        lemma_find_step(s, from + 1, at, c);
    }
}

/// If no character at or after `from` equals `c`, the search fails.
proof fn lemma_find_none(s: Seq<char>, from: int, c: char)
    requires
        0 <= from,
        forall|j: int| from <= j < s.len() ==> s[j] != c,
    ensures
        spec_find(s, from, c) is None,
    decreases s.len() - from,
{
    if from < s.len() {
        lemma_find_none(s, from + 1, c);
    }
}

/// `text` with every non-overlapping occurrence of `pat`, scanned left to
/// right, replaced by `rep` — what `str::replace` produces. An empty pattern
/// leaves the text unchanged.
pub open spec fn spec_replace(text: Seq<char>, pat: Seq<char>, rep: Seq<char>) -> Seq<char>
    decreases text.len(),
{
    if pat.len() == 0 || text.len() < pat.len() {
        text
    } else if text.take(pat.len() as int) == pat {
        rep + spec_replace(text.skip(pat.len() as int), pat, rep)
    } else {
        seq![text[0]] + spec_replace(text.skip(1), pat, rep)
    }
}

/// Whether `pat` occurs in `s` starting at index `at`.
fn match_at(s: &str, at: usize, pat: &str, plen: usize) -> (r: bool)
    requires
        plen == pat@.len(),
        at + plen <= s@.len() <= usize::MAX,
    ensures
        r == (s@.subrange(at as int, at + pat@.len()) == pat@),
{
    let mut j: usize = 0;
    while j < plen
        invariant
            plen == pat@.len(),
            at + plen <= s@.len() <= usize::MAX,
            0 <= j <= plen,
            forall|k: int| 0 <= k < j ==> s@[at + k] == pat@[k],
        decreases plen - j,
    {
        if s.get_char(at + j) != pat.get_char(j) {
            proof {
                assert(s@.subrange(at as int, at + plen)[j as int] != pat@[j as int]);
            }
            return false;
        }
        j += 1;
    }
    proof {
        assert(s@.subrange(at as int, at + plen) =~= pat@);
    }
    true
}

/// Replaces every non-overlapping occurrence of `pat` in `text` by `rep`,
/// scanning left to right.
pub fn replace_all(text: &str, pat: &str, rep: &str) -> (r: String)
    requires
        pat@.len() > 0,
    ensures
        r@ == spec_replace(text@, pat@, rep@),
{
    let len = text.unicode_len();
    let plen = pat.unicode_len();
    let mut out = String::new();
    let mut i: usize = 0;
    proof {
        assert(text@.skip(0) =~= text@);
    }
    while i < len
        invariant
            len == text@.len(),
            plen == pat@.len(),
            plen > 0,
            0 <= i <= len,
            spec_replace(text@, pat@, rep@) == out@ + spec_replace(
                text@.skip(i as int),
                pat@,
                rep@,
            ),
        decreases len - i,
    {
        let ghost rest = text@.skip(i as int);
        if plen <= len - i && match_at(text, i, pat, plen) {
            proof {
                assert(rest.take(plen as int) =~= text@.subrange(i as int, i + plen));
                assert(rest.skip(plen as int) =~= text@.skip(i + plen));
            }
            out.append(rep);
            i += plen;
        } else {
            proof {
                if plen <= len - i {
                    assert(rest.take(plen as int) =~= text@.subrange(i as int, i + plen));
                }
                assert(rest.skip(1) =~= text@.skip(i + 1));
                assert(rest[0] == text@[i as int]);
                assert(text@.subrange(i as int, i + 1) =~= seq![text@[i as int]]);
            }
            let piece = text.substring_char(i, i + 1);
            out.append(piece);
            i += 1;
        }
    }
    proof {
        assert(text@.skip(i as int) =~= Seq::<char>::empty());
        assert(out@ + Seq::<char>::empty() =~= out@);
    }
    out
}

} // verus!
