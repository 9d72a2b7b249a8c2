//! The opcode encoder: a pure map from a mnemonic-plus-mode-suffix string to
//! one encoded instruction byte.

use vstd::prelude::*;
use crate::errors::{AvcErr, ErrView};

verus! {

/// The fixed opcode tables, keyed by the first three characters of a
/// mnemonic. The result carries the base byte, whether mode suffixes apply
/// to this opcode, and whether the `k` (keep) suffix is allowed.
pub open spec fn base_op(c0: char, c1: char, c2: char) -> Option<(u8, bool, bool)> {
    match (c0, c1, c2) {
        // stack
        ('P', 'O', 'P') => Some((0x03u8, true, true)),
        ('S', 'W', 'P') => Some((0x04u8, true, true)),
        ('R', 'O', 'T') => Some((0x05u8, true, true)),
        ('D', 'U', 'P') => Some((0x06u8, true, true)),
        ('O', 'V', 'R') => Some((0x07u8, true, true)),
        // logic and jumps
        ('E', 'Q', 'U') => Some((0x08u8, true, true)),
        ('G', 'T', 'H') => Some((0x09u8, true, true)),
        ('J', 'M', 'P') => Some((0x0au8, true, true)),
        ('J', 'N', 'Z') => Some((0x0bu8, true, true)),
        ('J', 'S', 'R') => Some((0x0cu8, true, true)),
        ('S', 'T', 'H') => Some((0x0du8, true, true)),
        // memory
        ('L', 'D', 'Z') => Some((0x10u8, true, true)),
        ('S', 'T', 'Z') => Some((0x11u8, true, true)),
        ('L', 'D', 'R') => Some((0x12u8, true, true)),
        ('S', 'T', 'R') => Some((0x13u8, true, true)),
        ('L', 'D', 'A') => Some((0x14u8, true, true)),
        ('S', 'T', 'A') => Some((0x15u8, true, true)),
        ('P', 'I', 'C') => Some((0x16u8, true, true)),
        ('P', 'U', 'T') => Some((0x17u8, true, true)),
        // arithmetic
        ('A', 'D', 'C') => Some((0x18u8, true, true)),
        ('S', 'B', 'C') => Some((0x19u8, true, true)),
        ('M', 'U', 'L') => Some((0x1au8, true, true)),
        ('D', 'V', 'M') => Some((0x1bu8, true, true)),
        ('A', 'N', 'D') => Some((0x1cu8, true, true)),
        ('I', 'O', 'R') => Some((0x1du8, true, true)),
        ('X', 'O', 'R') => Some((0x1eu8, true, true)),
        ('S', 'F', 'T') => Some((0x1fu8, true, true)),
        // literal push: keep is implied, an explicit `k` is rejected
        ('L', 'I', 'T') => Some((0x80u8, true, false)),
        // zero-operand and flag ops: mode suffixes are ignored
        ('S', 'E', 'C') => Some((0x20u8, false, true)),
        ('C', 'L', 'C') => Some((0x40u8, false, true)),
        ('E', 'X', 'T') => Some((0x60u8, false, true)),
        ('R', 'T', 'I') => Some((0x83u8, false, true)),
        ('N', 'O', 'P') => Some((0x00u8, false, true)),
        _ => None,
    }
}

/// Folds the mode-suffix characters of `s` from index `i` on into the byte
/// `b`: `k` sets 0x80 (if allowed), `r` sets 0x40, `2` sets 0x20; anything
/// else is a mode error.
pub open spec fn fold_modes(s: Seq<char>, i: int, b: u8, has_k: bool) -> Result<u8, ErrView>
    decreases s.len() - i,
{
    if i < 0 || i >= s.len() {
        Ok(b)
    } else if s[i] == 'k' {
        if has_k {
            fold_modes(s, i + 1, b | 0x80, has_k)
        } else {
            Err(ErrView::BadMode(s, 'k'))
        }
    } else if s[i] == 'r' {
        fold_modes(s, i + 1, b | 0x40, has_k)
    } else if s[i] == '2' {
        fold_modes(s, i + 1, b | 0x20, has_k)
    } else {
        Err(ErrView::BadMode(s, s[i]))
    }
}

/// What the opcode encoder returns for the token `s`: the base byte of the
/// first three characters with the mode suffix folded in, or the error the
/// token deserves.
pub open spec fn spec_op_to_byte(s: Seq<char>) -> Result<u8, ErrView> {
    if s.len() < 3 {
        Err(ErrView::BadInstr(s))
    } else {
        match base_op(s[0], s[1], s[2]) {
            None => Err(ErrView::BadInstr(s)),
            Some((b, has_modes, has_k)) => if has_modes {
                fold_modes(s, 3, b, has_k)
            } else {
                Ok(b)
            },
        }
    }
}

/// Executable lookup in the opcode tables.
fn base_op_exec(c0: char, c1: char, c2: char) -> (r: Option<(u8, bool, bool)>)
    ensures
        r == base_op(c0, c1, c2),
{
    match (c0, c1, c2) {
        ('P', 'O', 'P') => Some((0x03u8, true, true)),
        ('S', 'W', 'P') => Some((0x04u8, true, true)),
        ('R', 'O', 'T') => Some((0x05u8, true, true)),
        ('D', 'U', 'P') => Some((0x06u8, true, true)),
        ('O', 'V', 'R') => Some((0x07u8, true, true)),
        ('E', 'Q', 'U') => Some((0x08u8, true, true)),
        ('G', 'T', 'H') => Some((0x09u8, true, true)),
        ('J', 'M', 'P') => Some((0x0au8, true, true)),
        ('J', 'N', 'Z') => Some((0x0bu8, true, true)),
        ('J', 'S', 'R') => Some((0x0cu8, true, true)),
        ('S', 'T', 'H') => Some((0x0du8, true, true)),
        ('L', 'D', 'Z') => Some((0x10u8, true, true)),
        ('S', 'T', 'Z') => Some((0x11u8, true, true)),
        ('L', 'D', 'R') => Some((0x12u8, true, true)),
        ('S', 'T', 'R') => Some((0x13u8, true, true)),
        ('L', 'D', 'A') => Some((0x14u8, true, true)),
        ('S', 'T', 'A') => Some((0x15u8, true, true)),
        ('P', 'I', 'C') => Some((0x16u8, true, true)),
        ('P', 'U', 'T') => Some((0x17u8, true, true)),
        ('A', 'D', 'C') => Some((0x18u8, true, true)),
        ('S', 'B', 'C') => Some((0x19u8, true, true)),
        ('M', 'U', 'L') => Some((0x1au8, true, true)),
        ('D', 'V', 'M') => Some((0x1bu8, true, true)),
        ('A', 'N', 'D') => Some((0x1cu8, true, true)),
        ('I', 'O', 'R') => Some((0x1du8, true, true)),
        ('X', 'O', 'R') => Some((0x1eu8, true, true)),
        ('S', 'F', 'T') => Some((0x1fu8, true, true)),
        ('L', 'I', 'T') => Some((0x80u8, true, false)),
        ('S', 'E', 'C') => Some((0x20u8, false, true)),
        ('C', 'L', 'C') => Some((0x40u8, false, true)),
        ('E', 'X', 'T') => Some((0x60u8, false, true)),
        ('R', 'T', 'I') => Some((0x83u8, false, true)),
        ('N', 'O', 'P') => Some((0x00u8, false, true)),
        _ => None,
    }
}

/// Encodes the mnemonic token `op` as one instruction byte, exactly as
/// [`spec_op_to_byte`] describes.
pub fn op_to_byte(op: &str) -> (r: Result<u8, AvcErr>)
    ensures
        match r {
            Ok(b) => spec_op_to_byte(op@) == Ok::<u8, ErrView>(b),
            Err(e) => spec_op_to_byte(op@) == Err::<u8, ErrView>(e@),
        },
{
    let len = op.unicode_len();
    if len < 3 {
        return Err(AvcErr::BadInstr(op.to_owned()));
    }
    let c0 = op.get_char(0);
    let c1 = op.get_char(1);
    let c2 = op.get_char(2);
    match base_op_exec(c0, c1, c2) {
        None => Err(AvcErr::BadInstr(op.to_owned())),
        Some((base, has_modes, has_k)) => {
            if !has_modes {
                return Ok(base);
            }
            let mut b = base;
            let mut i: usize = 3;
            while i < len
                invariant
                    len == op@.len(),
                    3 <= i <= len,
                    base_op(op@[0], op@[1], op@[2]) == Some((base, true, has_k)),
                    fold_modes(op@, 3, base, has_k) == fold_modes(op@, i as int, b, has_k),
                decreases len - i,
            {
                let c = op.get_char(i);
                if c == 'k' {
                    if has_k {
                        b = b | 0x80;
                    } else {
                        return Err(AvcErr::BadMode(op.to_owned(), 'k'));
                    }
                } else if c == 'r' {
                    b = b | 0x40;
                } else if c == '2' {
                    b = b | 0x20;
                } else {
                    return Err(AvcErr::BadMode(op.to_owned(), c));
                }
                i += 1;
            }
            Ok(b)
        },
    }
}

/// The OR of the mode flags named by the suffix `s`: 0x80 for `k`, 0x40 for
/// `r`, 0x20 for `2`.
pub open spec fn mode_bits(s: Seq<char>) -> u8
    decreases s.len(),
{
    if s.len() == 0 {
        0u8
    } else {
        (if s[0] == 'k' {
            0x80u8
        } else if s[0] == 'r' {
            0x40u8
        } else {
            0x20u8
        }) | mode_bits(s.skip(1))
    }
}

proof fn lemma_fold_modes_or(s: Seq<char>, i: int, b: u8, has_k: bool)
    requires
        0 <= i <= s.len(),
        forall|j: int| i <= j < s.len() ==> (s[j] == 'k' || s[j] == 'r' || s[j] == '2'),
        !has_k ==> forall|j: int| i <= j < s.len() ==> s[j] != 'k',
    ensures
        fold_modes(s, i, b, has_k) == Ok::<u8, ErrView>(b | mode_bits(s.skip(i))),
    decreases s.len() - i,
{
    if i == s.len() {
        assert(s.skip(i) =~= Seq::<char>::empty());
        assert(b | 0u8 == b) by (bit_vector);
    } else {
        let bit: u8 = if s[i] == 'k' {
            0x80u8
        } else if s[i] == 'r' {
            0x40u8
        } else {
            0x20u8
        };
        lemma_fold_modes_or(s, i + 1, b | bit, has_k);
        assert(s.skip(i)[0] == s[i]);
        assert(s.skip(i).skip(1) =~= s.skip(i + 1));
        let rest = mode_bits(s.skip(i + 1));
        assert((b | bit) | rest == b | (bit | rest)) by (bit_vector);
    }
}

/// For every mnemonic that takes mode suffixes, a suffix made of the letters
/// `k` (where the opcode allows it), `r` and `2`, in any order and number,
/// encodes to the base byte with 0x80, 0x40 and 0x20 ORed in additively.
pub proof fn lemma_mode_suffix_flags(s: Seq<char>, b: u8, has_k: bool)
    requires
        s.len() >= 3,
        base_op(s[0], s[1], s[2]) == Some((b, true, has_k)),
        forall|j: int| 3 <= j < s.len() ==> (s[j] == 'k' || s[j] == 'r' || s[j] == '2'),
        !has_k ==> forall|j: int| 3 <= j < s.len() ==> s[j] != 'k',
    ensures
        spec_op_to_byte(s) == Ok::<u8, ErrView>(b | mode_bits(s.skip(3))),
{
    lemma_fold_modes_or(s, 3, b, has_k);
}

/// A bare three-character mnemonic found in either table encodes to exactly
/// its base byte.
pub proof fn lemma_bare_mnemonic(s: Seq<char>, b: u8, has_modes: bool, has_k: bool)
    requires
        s.len() == 3,
        base_op(s[0], s[1], s[2]) == Some((b, has_modes, has_k)),
    ensures
        spec_op_to_byte(s) == Ok::<u8, ErrView>(b),
{
    if has_modes {
        lemma_fold_modes_or(s, 3, b, has_k);
        assert(s.skip(3) =~= Seq::<char>::empty());
        assert(b | 0u8 == b) by (bit_vector);
    }
}

proof fn lemma_fold_modes_no_k(s: Seq<char>, i: int, b: u8, at: int)
    requires
        0 <= i <= at < s.len(),
        s[at] == 'k',
    ensures
        fold_modes(s, i, b, false) is Err,
    decreases s.len() - i,
{
    if s[i] == 'k' {
    } else if s[i] == 'r' {
        lemma_fold_modes_no_k(s, i + 1, b | 0x40, at);
    } else if s[i] == '2' {
        lemma_fold_modes_no_k(s, i + 1, b | 0x20, at);
    }
}

/// The literal-push mnemonic rejects any suffix that contains `k`: keep is
/// already implied by its base byte.
pub proof fn lemma_lit_keep_rejected(s: Seq<char>, at: int)
    requires
        s.len() >= 3,
        s[0] == 'L',
        s[1] == 'I',
        s[2] == 'T',
        3 <= at < s.len(),
        s[at] == 'k',
    ensures
        spec_op_to_byte(s) is Err,
{
    lemma_fold_modes_no_k(s, 3, 0x80, at);
}

/// The bare literal-push mnemonic encodes to exactly 0x80.
pub proof fn lemma_lit_base()
    ensures
        spec_op_to_byte(seq!['L', 'I', 'T']) == Ok::<u8, ErrView>(0x80u8),
{
    lemma_bare_mnemonic(seq!['L', 'I', 'T'], 0x80, true, false);
}

} // verus!
