//! The intermediate representation: a flat sequence of symbolic words, each
//! with one pure address-advance rule that the resolution pass and the
//! emission pass both replay.

use vstd::prelude::*;
use vstd::arithmetic::div_mod::{lemma_fundamental_div_mod, lemma_mod_bound};

verus! {

/// How a label reference is encoded: as a full two-byte address or as a
/// one-byte signed offset from the reference site.
#[derive(Debug, PartialEq, Eq, Structural, Clone, Copy)]
pub enum LblKind {
    Abs,
    Rel,
}

/// One unit of the symbolic program, as built by the parsing pass.
#[derive(Debug)]
pub enum Word {
    /// One literal output byte: an opcode, a datum, a string character.
    Byte(u8),
    /// Declares a named address at the current position; emits nothing.
    Lbl(String),
    /// A reference to a named address, emitted as two bytes or one.
    LblCall(String, LblKind),
    /// Sets the running address counter to an absolute value.
    AbsPad(u16),
    /// Advances the running address counter without emitting bytes.
    RelPad(u16),
    /// Rounds the running address counter up to the next multiple.
    Align(u16),
}

/// The spec-level shape of a [`Word`], with label names as `Seq<char>`.
pub enum WordView {
    Byte(u8),
    Lbl(Seq<char>),
    LblCall(Seq<char>, LblKind),
    AbsPad(u16),
    RelPad(u16),
    Align(u16),
}

impl View for Word {
    type V = WordView;

    open spec fn view(&self) -> WordView {
        match self {
            Word::Byte(b) => WordView::Byte(*b),
            Word::Lbl(l) => WordView::Lbl(l@),
            Word::LblCall(l, k) => WordView::LblCall(l@, *k),
            Word::AbsPad(p) => WordView::AbsPad(*p),
            Word::RelPad(p) => WordView::RelPad(*p),
            Word::Align(a) => WordView::Align(*a),
        }
    }
}

impl DeepView for Word {
    type V = WordView;

    open spec fn deep_view(&self) -> WordView {
        self.view()
    }
}

/// `cur` rounded up to the next multiple of `amt`; unchanged when already a
/// multiple, or when `amt` is no positive number.
pub open spec fn spec_align(cur: int, amt: int) -> int {
    if amt <= 0 {
        cur
    } else if cur % amt == 0 {
        cur
    } else {
        (cur / amt + 1) * amt
    }
}

/// Rounds `cur` up to the next multiple of `amt`.
pub fn align(cur: usize, amt: u16) -> (r: usize)
    requires
        amt > 0,
        cur + amt <= usize::MAX,
    ensures
        r == spec_align(cur as int, amt as int),
        cur <= r < cur + amt,
{
    let amtu = amt as usize;
    proof {
        lemma_fundamental_div_mod(cur as int, amtu as int);
        lemma_mod_bound(cur as int, amtu as int);
    }
    if cur % amtu == 0 {
        cur
    } else {
        let muls = cur / amtu;
        proof {
            assert((muls + 1) * amtu == muls * amtu + amtu) by (nonlinear_arith);
            assert(muls * amtu == amtu * muls) by (nonlinear_arith);
        }
        (muls + 1) * amtu
    }
}

/// The address after a word, given the address `cur` before it: the one
/// advance rule both passes consult.
pub open spec fn spec_next_offset(w: WordView, cur: int) -> int {
    match w {
        WordView::Byte(_) => cur + 1,
        WordView::Lbl(_) => cur,
        WordView::LblCall(_, k) => if k is Abs {
            cur + 2
        } else {
            cur + 1
        },
        WordView::AbsPad(p) => p as int,
        WordView::RelPad(p) => cur + p,
        WordView::Align(a) => spec_align(cur, a as int),
    }
}

/// Whether the word occupies output bytes, and so may not sit below the
/// code-region boundary.
pub open spec fn spec_is_byte_like(w: WordView) -> bool {
    !(w is Lbl || w is AbsPad || w is RelPad)
}

impl Word {
    /// Applies the address-advance rule; `None` when the next address would
    /// not fit the machine's address arithmetic.
    pub fn next_offset(&self, cur: usize) -> (r: Option<usize>)
        ensures
            match r {
                Some(v) => v == spec_next_offset(self@, cur as int) && spec_next_offset(
                    self@,
                    cur as int,
                ) <= usize::MAX,
                None => spec_next_offset(self@, cur as int) > usize::MAX,
            },
    {
        match self {
            Word::Byte(_) => if cur <= usize::MAX - 1 {
                Some(cur + 1)
            } else {
                None
            },
            Word::Lbl(_) => Some(cur),
            Word::LblCall(_, k) => {
                let step: usize = match k {
                    LblKind::Abs => 2,
                    LblKind::Rel => 1,
                };
                if cur <= usize::MAX - step {
                    Some(cur + step)
                } else {
                    None
                }
            },
            Word::AbsPad(p) => Some(*p as usize),
            Word::RelPad(p) => {
                let pu = *p as usize;
                if cur <= usize::MAX - pu {
                    Some(cur + pu)
                } else {
                    None
                }
            },
            Word::Align(a) => {
                if *a == 0 {
                    Some(cur)
                } else {
                    let amtu = *a as usize;
                    proof {
                        lemma_fundamental_div_mod(cur as int, amtu as int);
                        lemma_mod_bound(cur as int, amtu as int);
                    }
                    if cur % amtu == 0 {
                        Some(cur)
                    } else {
                        let muls = cur / amtu;
                        proof {
                            assert((muls + 1) * (amtu as int) == muls * amtu + amtu)
                                by (nonlinear_arith);
                            assert(muls * amtu == amtu * muls) by (nonlinear_arith);
                        }
                        let bound = (usize::MAX - amtu) / amtu;
                        let ghost q = muls as int;
                        let ghost a = amtu as int;
                        let ghost bd = bound as int;
                        proof {
                            lemma_fundamental_div_mod(usize::MAX - a, a);
                            lemma_mod_bound(usize::MAX - a, a);
                            assert(bd == (usize::MAX - a) / a);
                        }
                        if muls <= bound {
                            proof {
                                assert(q * a <= bd * a) by (nonlinear_arith)
                                    requires
                                        q <= bd,
                                        a > 0,
                                ;
                                assert(a * bd == bd * a) by (nonlinear_arith);
                            }
                            Some((muls + 1) * amtu)
                        } else {
                            proof {
                                assert(q * a >= (bd + 1) * a) by (nonlinear_arith)
                                    requires
                                        q >= bd + 1,
                                        a > 0,
                                ;
                                assert((bd + 1) * a == bd * a + a) by (nonlinear_arith);
                                assert(a * bd == bd * a) by (nonlinear_arith);
                            }
                            None
                        }
                    }
                }
            },
        }
    }

    /// Whether the word occupies output bytes.
    pub fn is_byte_like(&self) -> (r: bool)
        ensures
            r == spec_is_byte_like(self@),
    {
        !(matches!(self, Word::Lbl(_)) || matches!(self, Word::AbsPad(_)) || matches!(
            self,
            Word::RelPad(_),
        ))
    }
}

} // verus!
