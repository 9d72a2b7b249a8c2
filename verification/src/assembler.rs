//! The assembler: three passes over one source unit. Pass one tokenises and
//! parses the text into symbolic words, re-entering itself for macro
//! expansions; pass two replays the address-advance rules to resolve label
//! addresses and to reject emittable content below the code-region boundary;
//! pass three replays the same rules to emit the ROM image. The whole
//! pipeline is specified by the pure functions in this module and the
//! executable passes are proved to return exactly what they say.

use vstd::prelude::*;
use vstd::utf8::encode_utf8;
use crate::avcmacro::{macro_wf, spec_expand, spec_macro_new, AvcMacro, MacroView};
use crate::errors::{AvcErr, ErrView};
use crate::opcode::{op_to_byte, spec_op_to_byte};
use crate::tables::{LabelTable, MacroTable};
use crate::text::{
    find_char_from, parse_uint, spec_find, spec_parse_uint, spec_split_plain, spec_trim, str_eq,
    split_and_trim,
};
use crate::tokeniser::{spec_next_token, spec_tokens, spec_tokens_from, Tokeniser};
use crate::utils::{set_vec_at, spec_set_at};
use crate::word::{
    spec_align, spec_is_byte_like, spec_next_offset, LblKind, Word, WordView,
};

verus! {

/// The fixed boundary between the reservable low region and the code region.
pub const CODE_SPACE_START: u16 = 0x0300;

/// How deep macro expansion may nest before the run is aborted; turns
/// unbounded recursion into a reported error.
pub const MACRO_DEPTH_LIMIT: usize = 64;

/// What parsing one token (or a token sequence) yields: the words it
/// denotes, and the macro table as the parse left it.
pub struct ParseOut {
    pub words: Seq<WordView>,
    pub macros: Map<Seq<char>, MacroView>,
}

/// The one byte an ASCII character literal emits.
pub open spec fn char_byte(c: char) -> u8 {
    (c as u32) as u8
}

/// What a directive token (with its leading `.` removed) denotes. The name
/// runs to the first `(`; the argument list runs to the closing `)` and is
/// split at top-level commas where the directive takes several arguments.
pub open spec fn spec_directive(m: Map<Seq<char>, MacroView>, dir: Seq<char>) -> Result<
    ParseOut,
    ErrView,
> {
    match spec_find(dir, 0, '(') {
        None => Err(ErrView::MalformedDirective(dir)),
        Some(k) => {
            let name = dir.take(k);
            let rest = dir.skip(k + 1);
            if rest.len() == 0 || rest[rest.len() - 1] != ')' {
                Err(ErrView::MalformedDirective(dir))
            } else {
                let args = rest.take(rest.len() - 1);
                if name == "label"@ || name == "lbl"@ {
                    Ok(ParseOut { words: seq![WordView::Lbl(args)], macros: m })
                } else if name == "absc"@ || name == "abscall"@ {
                    Ok(ParseOut { words: seq![WordView::LblCall(args, LblKind::Abs)], macros: m })
                } else if name == "relcall"@ {
                    Ok(ParseOut { words: seq![WordView::LblCall(args, LblKind::Rel)], macros: m })
                } else if name == "hex"@ || name == "x"@ {
                    match spec_parse_uint(args, 16, 255) {
                        Some(v) => Ok(ParseOut { words: seq![WordView::Byte(v as u8)], macros: m }),
                        None => Err(ErrView::BadInt(args)),
                    }
                } else if name == "x2"@ {
                    match spec_parse_uint(args, 16, 65535) {
                        Some(v) => Ok(
                            ParseOut {
                                words: seq![
                                    WordView::Byte((v / 256) as u8),
                                    WordView::Byte((v % 256) as u8),
                                ],
                                macros: m,
                            },
                        ),
                        None => Err(ErrView::BadInt(args)),
                    }
                } else if name == "b"@ {
                    match spec_parse_uint(args, 2, 255) {
                        Some(v) => Ok(ParseOut { words: seq![WordView::Byte(v as u8)], macros: m }),
                        None => Err(ErrView::BadInt(args)),
                    }
                } else if name == "d"@ {
                    match spec_parse_uint(args, 10, 255) {
                        Some(v) => Ok(ParseOut { words: seq![WordView::Byte(v as u8)], macros: m }),
                        None => Err(ErrView::BadInt(args)),
                    }
                } else if name == "s"@ {
                    Ok(
                        ParseOut {
                            words: encode_utf8(args).map_values(|b: u8| WordView::Byte(b)),
                            macros: m,
                        },
                    )
                } else if name == "abspad"@ {
                    match spec_parse_uint(args, 16, 65535) {
                        Some(v) => Ok(
                            ParseOut { words: seq![WordView::AbsPad(v as u16)], macros: m },
                        ),
                        None => Err(ErrView::BadInt(args)),
                    }
                } else if name == "relpad"@ {
                    match spec_parse_uint(args, 16, 65535) {
                        Some(v) => Ok(
                            ParseOut { words: seq![WordView::RelPad(v as u16)], macros: m },
                        ),
                        None => Err(ErrView::BadInt(args)),
                    }
                } else if name == "align"@ {
                    match spec_parse_uint(args, 16, 65535) {
                        Some(v) => Ok(ParseOut { words: seq![WordView::Align(v as u16)], macros: m }),
                        None => Err(ErrView::BadInt(args)),
                    }
                } else if name == "defmac"@ {
                    match spec_macro_new(args) {
                        Err(e) => Err(e),
                        Ok(mv) => match spec_find(args, 0, ',') {
                            None => Err(ErrView::MalformedDirective(dir)),
                            Some(ci) => Ok(
                                ParseOut {
                                    words: Seq::empty(),
                                    macros: m.insert(args.take(ci), mv),
                                },
                            ),
                        },
                    }
                } else {
                    Err(ErrView::UnrecognisedDirective(dir))
                }
            }
        },
    }
}

/// What one token denotes, classified by its first character; `%` re-enters
/// the parse through macro expansion, with `depth` invocations still
/// allowed.
pub open spec fn spec_token_to_words(
    m: Map<Seq<char>, MacroView>,
    s: Seq<char>,
    depth: nat,
) -> Result<ParseOut, ErrView>
    decreases depth, 3nat, 0nat,
{
    if s.len() == 0 {
        Err(ErrView::BadInstr(s))
    } else if s[0] == '.' {
        spec_directive(m, s.skip(1))
    } else if s[0] == '#' {
        match spec_parse_uint(s.skip(1), 16, 255) {
            Some(v) => Ok(ParseOut { words: seq![WordView::Byte(v as u8)], macros: m }),
            None => Err(ErrView::BadInt(s.skip(1))),
        }
    } else if s[0] == '"' {
        Ok(
            ParseOut {
                words: encode_utf8(s.skip(1)).map_values(|b: u8| WordView::Byte(b)),
                macros: m,
            },
        )
    } else if s[0] == '\'' {
        if s.len() < 2 {
            Err(ErrView::BadInstr(s))
        } else if (s[1] as u32) <= 0x7f {
            Ok(ParseOut { words: seq![WordView::Byte(char_byte(s[1]))], macros: m })
        } else {
            Err(ErrView::MultibyteChar(s[1]))
        }
    } else if s[0] == '@' {
        Ok(ParseOut { words: seq![WordView::LblCall(s.skip(1), LblKind::Abs)], macros: m })
    } else if s[0] == '^' {
        Ok(ParseOut { words: seq![WordView::LblCall(s.skip(1), LblKind::Rel)], macros: m })
    } else if s[0] == '%' {
        match spec_find(s, 1, '(') {
            Some(k) => {
                let name = s.subrange(1, k);
                let raw = s.skip(k + 1);
                if raw.len() == 0 {
                    Err(ErrView::MalformedDirective(s))
                } else {
                    spec_expand_macro(m, name, raw.take(raw.len() - 1), depth)
                }
            },
            None => spec_expand_macro(m, s.skip(1), Seq::empty(), depth),
        }
    } else {
        match spec_op_to_byte(s) {
            Ok(b) => Ok(ParseOut { words: seq![WordView::Byte(b)], macros: m }),
            Err(e) => Err(e),
        }
    }
}

/// What invoking macro `name` on the raw argument text `args` denotes: the
/// argument text splits at every comma, each piece trimmed; the expansion is
/// re-tokenised and parsed with one less level of recursion allowed.
pub open spec fn spec_expand_macro(
    m: Map<Seq<char>, MacroView>,
    name: Seq<char>,
    args: Seq<char>,
    depth: nat,
) -> Result<ParseOut, ErrView>
    decreases depth, 2nat, 0nat,
{
    if depth == 0 {
        Err(ErrView::MacroRecursionLimit(name))
    } else if !m.contains_key(name) {
        Err(ErrView::UndefinedMacro(name))
    } else {
        let mac = m[name];
        let pieces = spec_split_plain(args, ',').map_values(|p: Seq<char>| spec_trim(p));
        if pieces.len() != mac.params.len() {
            Err(ErrView::MacroArgMismatch(name))
        } else {
            let exp = spec_expand(mac, pieces);
            spec_words_of(
                m,
                spec_tokens(exp).map_values(|t: (Seq<char>, int)| t.0),
                (depth - 1) as nat,
            )
        }
    }
}

/// What a token sequence denotes: the concatenation of each token's words,
/// the macro table threading through from left to right.
pub open spec fn spec_words_of(
    m: Map<Seq<char>, MacroView>,
    toks: Seq<Seq<char>>,
    depth: nat,
) -> Result<ParseOut, ErrView>
    decreases depth, 4nat, toks.len(),
{
    if toks.len() == 0 {
        Ok(ParseOut { words: Seq::empty(), macros: m })
    } else {
        match spec_token_to_words(m, toks[0], depth) {
            Err(e) => Err(e),
            Ok(o1) => match spec_words_of(o1.macros, toks.skip(1), depth) {
                Err(e) => Err(e),
                Ok(o2) => Ok(ParseOut { words: o1.words + o2.words, macros: o2.macros }),
            },
        }
    }
}

/// Walks the word sequence from index `i` with the running logical address
/// `counter`, recording each label at the current address (truncated to the
/// 16 bits a label can hold) and rejecting emittable words below the
/// code-region boundary; yields the finished label table.
pub open spec fn spec_pass2_at(
    ws: Seq<WordView>,
    i: int,
    counter: int,
    labels: Map<Seq<char>, u16>,
) -> Result<Map<Seq<char>, u16>, ErrView>
    decreases ws.len() - i,
{
    if i < 0 || i >= ws.len() {
        Ok(labels)
    } else {
        let w = ws[i];
        let labels2 = if w is Lbl {
            labels.insert(w->Lbl_0, (counter % 0x10000) as u16)
        } else {
            labels
        };
        if spec_is_byte_like(w) && counter < CODE_SPACE_START {
            Err(ErrView::OpNotInCodeSpace)
        } else if spec_next_offset(w, counter) > usize::MAX {
            Err(ErrView::AddressOverflow)
        } else {
            spec_pass2_at(ws, i + 1, spec_next_offset(w, counter), labels2)
        }
    }
}

/// The two's-complement byte of a relative offset.
pub open spec fn rel_byte(rel: int) -> u8 {
    if rel >= 0 {
        rel as u8
    } else {
        (rel + 256) as u8
    }
}

/// The signed offset a relative-reference byte denotes.
pub open spec fn rel_offset(b: u8) -> int {
    if b < 128 {
        b as int
    } else {
        b as int - 256
    }
}

/// Law: the one byte the emission pass writes for an in-range relative
/// reference reads back as exactly the offset it encoded.
pub proof fn lemma_rel_byte_round_trip(rel: int)
    requires
        -128 <= rel <= 127,
    ensures
        rel_offset(rel_byte(rel)) == rel,
{
}

/// Walks the word sequence from index `i` with the running buffer counter
/// (the logical address plus the four header bytes), writing each byte and
/// each resolved label reference into `buf` at the code-region write index;
/// yields the finished ROM image.
pub open spec fn spec_pass3_at(
    ws: Seq<WordView>,
    i: int,
    counter: int,
    labels: Map<Seq<char>, u16>,
    buf: Seq<u8>,
) -> Result<Seq<u8>, ErrView>
    decreases ws.len() - i,
{
    if i < 0 || i >= ws.len() {
        Ok(buf)
    } else {
        let w = ws[i];
        let ci = if counter >= CODE_SPACE_START {
            counter - CODE_SPACE_START
        } else {
            counter
        };
        let step = match w {
            WordView::Byte(b) => Ok(spec_set_at(buf, ci, b)),
            WordView::LblCall(l, k) => if !labels.contains_key(l) {
                Err(ErrView::UndefinedLabel(l))
            } else {
                let addr = labels[l] as int;
                if k is Abs {
                    Ok(spec_set_at(spec_set_at(buf, ci, (addr / 256) as u8), ci + 1, (addr % 256) as u8))
                } else {
                    let rel = addr - (counter - 4) - 1;
                    if -128 <= rel <= 127 {
                        Ok(spec_set_at(buf, ci, rel_byte(rel)))
                    } else {
                        Err(ErrView::RelJumpTooLarge)
                    }
                }
            },
            _ => Ok(buf),
        };
        match step {
            Err(e) => Err(e),
            Ok(buf2) => {
                let next = spec_next_offset(w, counter - 4) + 4;
                if next > usize::MAX {
                    Err(ErrView::AddressOverflow)
                } else {
                    spec_pass3_at(ws, i + 1, next, labels, buf2)
                }
            },
        }
    }
}

/// The four magic bytes every ROM image begins with.
pub open spec fn spec_header() -> Seq<u8> {
    seq![0x41u8, 0x56u8, 0x43u8, 0x00u8]
}

/// What assembling a whole source text yields: tokenise, parse into words
/// behind an implicit pad to the code-region start, resolve labels, emit.
pub open spec fn spec_assemble(src: Seq<char>) -> Result<Seq<u8>, ErrView> {
    let toks = spec_tokens(src).map_values(|t: (Seq<char>, int)| t.0);
    match spec_words_of(Map::empty(), toks, MACRO_DEPTH_LIMIT as nat) {
        Err(e) => Err(e),
        Ok(o) => {
            let words = seq![WordView::AbsPad(CODE_SPACE_START)] + o.words;
            match spec_pass2_at(words, 0, 0, Map::empty()) {
                Err(e) => Err(e),
                Ok(labels) => spec_pass3_at(words, 0, 4, labels, spec_header()),
            }
        },
    }
}

/// The logical address at which word `n` of the sequence stands, replaying
/// the address-advance rule from address zero.
pub open spec fn word_addr(ws: Seq<WordView>, n: int) -> int
    decreases n,
{
    if n <= 0 {
        0
    } else {
        spec_next_offset(ws[n - 1], word_addr(ws, n - 1))
    }
}

proof fn lemma_pass2_code_space_from(
    ws: Seq<WordView>,
    i: int,
    counter: int,
    labels: Map<Seq<char>, u16>,
    n: int,
)
    requires
        0 <= i <= n < ws.len(),
        counter == word_addr(ws, i),
        spec_pass2_at(ws, i, counter, labels) is Ok,
        spec_is_byte_like(ws[n]),
    ensures
        word_addr(ws, n) >= CODE_SPACE_START,
    decreases n - i,
{
    if i < n {
        let labels2 = if ws[i] is Lbl {
            labels.insert(ws[i]->Lbl_0, (counter % 0x10000) as u16)
        } else {
            labels
        };
        lemma_pass2_code_space_from(ws, i + 1, spec_next_offset(ws[i], counter), labels2, n);
    }
}

/// Law: when the resolution pass accepts a word sequence, every word that
/// occupies output bytes stands at an address at or above the code-region
/// boundary — nothing emittable ever lands in the reserved low region.
pub proof fn lemma_pass2_keeps_bytes_in_code_space(
    ws: Seq<WordView>,
    labels: Map<Seq<char>, u16>,
    n: int,
)
    requires
        spec_pass2_at(ws, 0, 0, labels) is Ok,
        0 <= n < ws.len(),
        spec_is_byte_like(ws[n]),
    ensures
        word_addr(ws, n) >= CODE_SPACE_START,
{
    lemma_pass2_code_space_from(ws, 0, 0, labels, n);
}

/// The minimal disassembler for an absolute label reference: reads the two
/// bytes the emission pass wrote, high byte first, back into an address.
pub fn decode_abs_ref(hb: u8, lb: u8) -> (a: u16)
    ensures
        a as int == hb as int * 256 + lb as int,
{
    (hb as u16) * 256 + (lb as u16)
}

/// Law: the two bytes the emission pass writes for an absolute label
/// reference to `addr` — its high byte `addr / 256` and its low byte
/// `addr % 256`, as [`spec_pass3_at`] states them — decode back to exactly
/// `addr`.
pub proof fn lemma_abs_ref_round_trip(addr: u16)
    ensures
        ((addr as int / 256) as u8) as int * 256 + ((addr as int % 256) as u8) as int == addr as int,
{
    vstd::arithmetic::div_mod::lemma_fundamental_div_mod(addr as int, 256);
    vstd::arithmetic::div_mod::lemma_mod_bound(addr as int, 256);
}

/// One word per byte of `bytes`, in order.
fn bytes_to_words(bytes: &Vec<u8>) -> (r: Vec<Word>)
    ensures
        r.deep_view() == bytes@.map_values(|b: u8| WordView::Byte(b)),
{
    let mut r: Vec<Word> = Vec::new();
    let mut i: usize = 0;
    proof {
        assert(r.deep_view() =~= bytes@.take(0).map_values(|b: u8| WordView::Byte(b)));
    }
    while i < bytes.len()
        invariant
            0 <= i <= bytes@.len(),
            r.deep_view() == bytes@.take(i as int).map_values(|b: u8| WordView::Byte(b)),
        decreases bytes@.len() - i,
    {
        let ghost pre = r.deep_view();
        r.push(Word::Byte(bytes[i]));
        proof {
            assert(r.deep_view() =~= pre.push(WordView::Byte(bytes@[i as int])));
            assert(r.deep_view() =~= bytes@.take(i + 1).map_values(|b: u8| WordView::Byte(b)));
        }
        i += 1;
    }
    proof {
        assert(bytes@.take(i as int) =~= bytes@);
    }
    r
}

/// The assembler: owns the source text, the growing word sequence, and the
/// label and macro tables, for the lifetime of one assembly run.
pub struct Assembler<'a> {
    pub code: &'a str,
    pub words: Vec<Word>,
    pub labels: LabelTable,
    pub macros: MacroTable,
}

impl<'a> Assembler<'a> {
    /// A fresh assembler over `code`, with empty tables.
    pub fn new(code: &'a str) -> (a: Assembler<'a>)
        ensures
            a.code@ == code@,
            a.words@.len() == 0,
            a.labels@ == Map::<Seq<char>, u16>::empty(),
            a.macros@ == Map::<Seq<char>, MacroView>::empty(),
            a.macros.wf(),
    {
        Assembler { code, words: Vec::new(), labels: LabelTable::new(), macros: MacroTable::new() }
    }

    /// Parses one directive token (already shorn of its leading `.`),
    /// exactly as [`spec_directive`] describes; `defmac` grows the macro
    /// table.
    fn process_directive(&mut self, dir: &str) -> (r: Result<Vec<Word>, AvcErr>)
        requires
            old(self).macros.wf(),
        ensures
            final(self).code == old(self).code,
            final(self).words == old(self).words,
            final(self).labels == old(self).labels,
            final(self).macros.wf(),
            match r {
                Ok(ws) => spec_directive(old(self).macros@, dir@) == Ok::<ParseOut, ErrView>(
                    ParseOut { words: ws.deep_view(), macros: final(self).macros@ },
                ),
                Err(e) => spec_directive(old(self).macros@, dir@) == Err::<ParseOut, ErrView>(e@),
            },
    {
        let len = dir.unicode_len();
        let k = match find_char_from(dir, 0, '(') {
            None => {
                return Err(AvcErr::MalformedDirective(dir.to_owned()));
            },
            Some(k) => k,
        };
        if k + 1 == len || dir.get_char(len - 1) != ')' {
            proof {
                let rest = dir@.skip(k as int + 1);
                if k + 1 < len {
                    assert(rest[rest.len() - 1] == dir@[len - 1]);
                }
            }
            return Err(AvcErr::MalformedDirective(dir.to_owned()));
        }
        let name = dir.substring_char(0, k);
        let args = dir.substring_char(k + 1, len - 1);
        proof {
            let rest = dir@.skip(k as int + 1);
            assert(name@ =~= dir@.take(k as int));
            assert(rest[rest.len() - 1] == dir@[len - 1]);
            assert(args@ =~= rest.take(rest.len() - 1));
        }
        if str_eq(name, "label") || str_eq(name, "lbl") {
            let ws = vec![Word::Lbl(args.to_owned())];
            proof {
                assert(ws.deep_view() =~= seq![WordView::Lbl(args@)]);
            }
            Ok(ws)
        } else if str_eq(name, "absc") || str_eq(name, "abscall") {
            let ws = vec![Word::LblCall(args.to_owned(), LblKind::Abs)];
            proof {
                assert(ws.deep_view() =~= seq![WordView::LblCall(args@, LblKind::Abs)]);
            }
            Ok(ws)
        } else if str_eq(name, "relcall") {
            let ws = vec![Word::LblCall(args.to_owned(), LblKind::Rel)];
            proof {
                assert(ws.deep_view() =~= seq![WordView::LblCall(args@, LblKind::Rel)]);
            }
            Ok(ws)
        } else if str_eq(name, "hex") || str_eq(name, "x") {
            match parse_uint(args, 16, 255) {
                Some(v) => {
                    let ws = vec![Word::Byte(v as u8)];
                    proof {
                        assert(ws.deep_view() =~= seq![WordView::Byte(v as u8)]);
                    }
                    Ok(ws)
                },
                None => Err(AvcErr::BadInt(args.to_owned())),
            }
        } else if str_eq(name, "x2") {
            match parse_uint(args, 16, 65535) {
                Some(v) => {
                    let hb = (v / 256) as u8;
                    let lb = (v % 256) as u8;
                    let ws = vec![Word::Byte(hb), Word::Byte(lb)];
                    proof {
                        assert(ws.deep_view() =~= seq![WordView::Byte(hb), WordView::Byte(lb)]);
                    }
                    Ok(ws)
                },
                None => Err(AvcErr::BadInt(args.to_owned())),
            }
        } else if str_eq(name, "b") {
            match parse_uint(args, 2, 255) {
                Some(v) => {
                    let ws = vec![Word::Byte(v as u8)];
                    proof {
                        assert(ws.deep_view() =~= seq![WordView::Byte(v as u8)]);
                    }
                    Ok(ws)
                },
                None => Err(AvcErr::BadInt(args.to_owned())),
            }
        } else if str_eq(name, "d") {
            match parse_uint(args, 10, 255) {
                Some(v) => {
                    let ws = vec![Word::Byte(v as u8)];
                    proof {
                        assert(ws.deep_view() =~= seq![WordView::Byte(v as u8)]);
                    }
                    Ok(ws)
                },
                None => Err(AvcErr::BadInt(args.to_owned())),
            }
        } else if str_eq(name, "s") {
            let bytes = args.as_bytes_vec();
            Ok(bytes_to_words(&bytes))
        } else if str_eq(name, "abspad") {
            match parse_uint(args, 16, 65535) {
                Some(v) => {
                    let ws = vec![Word::AbsPad(v as u16)];
                    proof {
                        assert(ws.deep_view() =~= seq![WordView::AbsPad(v as u16)]);
                    }
                    Ok(ws)
                },
                None => Err(AvcErr::BadInt(args.to_owned())),
            }
        } else if str_eq(name, "relpad") {
            match parse_uint(args, 16, 65535) {
                Some(v) => {
                    let ws = vec![Word::RelPad(v as u16)];
                    proof {
                        assert(ws.deep_view() =~= seq![WordView::RelPad(v as u16)]);
                    }
                    Ok(ws)
                },
                None => Err(AvcErr::BadInt(args.to_owned())),
            }
        } else if str_eq(name, "align") {
            match parse_uint(args, 16, 65535) {
                Some(v) => {
                    let ws = vec![Word::Align(v as u16)];
                    proof {
                        assert(ws.deep_view() =~= seq![WordView::Align(v as u16)]);
                    }
                    Ok(ws)
                },
                None => Err(AvcErr::BadInt(args.to_owned())),
            }
        } else if str_eq(name, "defmac") {
            let mac = match AvcMacro::new(args) {
                Err(e) => {
                    return Err(e);
                },
                Ok(mac) => mac,
            };
            match find_char_from(args, 0, ',') {
                None => Err(AvcErr::MalformedDirective(dir.to_owned())),
                Some(ci) => {
                    let mname = args.substring_char(0, ci);
                    proof {
                        assert(mname@ =~= args@.take(ci as int));
                    }
                    self.macros.insert(mname.to_owned(), mac);
                    let ws: Vec<Word> = Vec::new();
                    proof {
                        assert(ws.deep_view() =~= Seq::<WordView>::empty());
                    }
                    Ok(ws)
                },
            }
        } else {
            Err(AvcErr::UnrecognisedDirective(dir.to_owned()))
        }
    }

    /// Turns one token into its words, exactly as [`spec_token_to_words`]
    /// describes; a macro invocation may leave new macros behind.
    fn token_to_words(&mut self, s: &str, depth: usize) -> (r: Result<Vec<Word>, AvcErr>)
        requires
            old(self).macros.wf(),
        ensures
            final(self).code == old(self).code,
            final(self).words == old(self).words,
            final(self).labels == old(self).labels,
            final(self).macros.wf(),
            match r {
                Ok(ws) => spec_token_to_words(old(self).macros@, s@, depth as nat)
                    == Ok::<ParseOut, ErrView>(
                    ParseOut { words: ws.deep_view(), macros: final(self).macros@ },
                ),
                Err(e) => spec_token_to_words(old(self).macros@, s@, depth as nat)
                    == Err::<ParseOut, ErrView>(e@),
            },
        decreases depth, 3int, 0int,
    {
        let len = s.unicode_len();
        if len == 0 {
            return Err(AvcErr::BadInstr(s.to_owned()));
        }
        let c0 = s.get_char(0);
        if c0 == '.' {
            let rest = s.substring_char(1, len);
            proof {
                assert(rest@ =~= s@.skip(1));
            }
            self.process_directive(rest)
        } else if c0 == '#' {
            let rest = s.substring_char(1, len);
            proof {
                assert(rest@ =~= s@.skip(1));
            }
            match parse_uint(rest, 16, 255) {
                Some(v) => {
                    let ws = vec![Word::Byte(v as u8)];
                    proof {
                        assert(ws.deep_view() =~= seq![WordView::Byte(v as u8)]);
                    }
                    Ok(ws)
                },
                None => Err(AvcErr::BadInt(rest.to_owned())),
            }
        } else if c0 == '"' {
            let rest = s.substring_char(1, len);
            proof {
                assert(rest@ =~= s@.skip(1));
            }
            let bytes = rest.as_bytes_vec();
            Ok(bytes_to_words(&bytes))
        } else if c0 == '\'' {
            if len < 2 {
                return Err(AvcErr::BadInstr(s.to_owned()));
            }
            let c = s.get_char(1);
            let u = c as u32;
            if u <= 0x7f {
                let ws = vec![Word::Byte(u as u8)];
                proof {
                    assert(ws.deep_view() =~= seq![WordView::Byte(char_byte(s@[1]))]);
                }
                Ok(ws)
            } else {
                Err(AvcErr::MultibyteChar(c))
            }
        } else if c0 == '@' {
            let rest = s.substring_char(1, len);
            let ws = vec![Word::LblCall(rest.to_owned(), LblKind::Abs)];
            proof {
                assert(rest@ =~= s@.skip(1));
                assert(ws.deep_view() =~= seq![WordView::LblCall(s@.skip(1), LblKind::Abs)]);
            }
            Ok(ws)
        } else if c0 == '^' {
            let rest = s.substring_char(1, len);
            let ws = vec![Word::LblCall(rest.to_owned(), LblKind::Rel)];
            proof {
                assert(rest@ =~= s@.skip(1));
                assert(ws.deep_view() =~= seq![WordView::LblCall(s@.skip(1), LblKind::Rel)]);
            }
            Ok(ws)
        } else if c0 == '%' {
            match find_char_from(s, 1, '(') {
                Some(k) => {
                    let name = s.substring_char(1, k);
                    proof {
                        assert(name@ =~= s@.subrange(1, k as int));
                    }
                    if k + 1 == len {
                        proof {
                            assert(s@.skip(k as int + 1) =~= Seq::<char>::empty());
                        }
                        return Err(AvcErr::MalformedDirective(s.to_owned()));
                    }
                    let argstr = s.substring_char(k + 1, len - 1);
                    proof {
                        let raw = s@.skip(k as int + 1);
                        assert(raw.len() > 0);
                        assert(argstr@ =~= raw.take(raw.len() - 1));
                    }
                    self.expand_macro(name, argstr, depth)
                },
                None => {
                    let name = s.substring_char(1, len);
                    proof {
                        assert(name@ =~= s@.skip(1));
                        reveal_strlit("");
                        assert(""@ =~= Seq::<char>::empty());
                    }
                    self.expand_macro(name, "", depth)
                },
            }
        } else {
            match op_to_byte(s) {
                Ok(b) => {
                    let ws = vec![Word::Byte(b)];
                    proof {
                        assert(ws.deep_view() =~= seq![WordView::Byte(b)]);
                    }
                    Ok(ws)
                },
                Err(e) => Err(e),
            }
        }
    }

    /// Expands macro `name` on the raw argument text `args` and parses the
    /// expansion, exactly as [`spec_expand_macro`] describes.
    fn expand_macro(&mut self, name: &str, args: &str, depth: usize) -> (r: Result<
        Vec<Word>,
        AvcErr,
    >)
        requires
            old(self).macros.wf(),
        ensures
            final(self).code == old(self).code,
            final(self).words == old(self).words,
            final(self).labels == old(self).labels,
            final(self).macros.wf(),
            match r {
                Ok(ws) => spec_expand_macro(old(self).macros@, name@, args@, depth as nat)
                    == Ok::<ParseOut, ErrView>(
                    ParseOut { words: ws.deep_view(), macros: final(self).macros@ },
                ),
                Err(e) => spec_expand_macro(old(self).macros@, name@, args@, depth as nat)
                    == Err::<ParseOut, ErrView>(e@),
            },
        decreases depth, 2int, 0int,
    {
        if depth == 0 {
            return Err(AvcErr::MacroRecursionLimit(name.to_owned()));
        }
        let mac = match self.macros.get(name) {
            None => {
                return Err(AvcErr::UndefinedMacro(name.to_owned()));
            },
            Some(m) => m,
        };
        let pieces = split_and_trim(args, ',');
        proof {
            assert(pieces.deep_view().len() == pieces@.len());
        }
        if pieces.len() != mac.args.len() {
            return Err(AvcErr::MacroArgMismatch(name.to_owned()));
        }
        let exp = mac.expand(pieces);
        self.process_expanded_macro(exp.as_str(), depth - 1)
    }

    /// Re-tokenises expansion text and parses every token of it, exactly as
    /// [`spec_words_of`] over the expansion's tokens describes.
    fn process_expanded_macro(&mut self, mac: &str, depth: usize) -> (r: Result<Vec<Word>, AvcErr>)
        requires
            old(self).macros.wf(),
        ensures
            final(self).code == old(self).code,
            final(self).words == old(self).words,
            final(self).labels == old(self).labels,
            final(self).macros.wf(),
            match r {
                Ok(ws) => spec_words_of(
                    old(self).macros@,
                    spec_tokens(mac@).map_values(|tt: (Seq<char>, int)| tt.0),
                    depth as nat,
                ) == Ok::<ParseOut, ErrView>(
                    ParseOut { words: ws.deep_view(), macros: final(self).macros@ },
                ),
                Err(e) => spec_words_of(
                    old(self).macros@,
                    spec_tokens(mac@).map_values(|tt: (Seq<char>, int)| tt.0),
                    depth as nat,
                ) == Err::<ParseOut, ErrView>(e@),
            },
        decreases depth, 4int, 0int,
    {
        let ghost m0 = old(self).macros@;
        let ghost all = spec_tokens(mac@).map_values(|tt: (Seq<char>, int)| tt.0);
        let mut ret: Vec<Word> = Vec::new();
        let mut t = Tokeniser::new(mac);
        proof {
            assert(ret.deep_view() =~= Seq::<WordView>::empty());
            match spec_words_of(m0, all, depth as nat) {
                Ok(o) => {
                    assert(ret.deep_view() + o.words =~= o.words);
                },
                Err(e) => {},
            }
        }
        loop
            invariant
                t.wf(),
                t.code@ == mac@,
                self.code == old(self).code,
                self.words == old(self).words,
                self.labels == old(self).labels,
                self.macros.wf(),
                m0 == old(self).macros@,
                all == spec_tokens(mac@).map_values(|tt: (Seq<char>, int)| tt.0),
                match spec_words_of(
                    self.macros@,
                    spec_tokens_from(mac@, t.pos as int, t.line as int).map_values(
                        |tt: (Seq<char>, int)| tt.0,
                    ),
                    depth as nat,
                ) {
                    Ok(o) => spec_words_of(m0, all, depth as nat) == Ok::<ParseOut, ErrView>(
                        ParseOut { words: ret.deep_view() + o.words, macros: o.macros },
                    ),
                    Err(e) => spec_words_of(m0, all, depth as nat) == Err::<ParseOut, ErrView>(e),
                },
            ensures
                t.code@ == mac@,
                self.code == old(self).code,
                self.words == old(self).words,
                self.labels == old(self).labels,
                self.macros.wf(),
                m0 == old(self).macros@,
                spec_next_token(mac@, t.pos as int, t.line as int) is None,
                match spec_words_of(
                    self.macros@,
                    spec_tokens_from(mac@, t.pos as int, t.line as int).map_values(
                        |tt: (Seq<char>, int)| tt.0,
                    ),
                    depth as nat,
                ) {
                    Ok(o) => spec_words_of(m0, all, depth as nat) == Ok::<ParseOut, ErrView>(
                        ParseOut { words: ret.deep_view() + o.words, macros: o.macros },
                    ),
                    Err(e) => spec_words_of(m0, all, depth as nat) == Err::<ParseOut, ErrView>(e),
                },
            decreases mac@.len() - t.pos,
        {
            let ghost pos_pre = t.pos as int;
            let ghost line_pre = t.line as int;
            let ghost m_pre = self.macros@;
            let n = t.next();
            let tok = match n {
                None => {
                    break ;
                },
                Some(res) => match res {
                    Ok(tok) => tok,
                    Err(e) => {
                        return Err(e);
                    },
                },
            };
            let ghost tk = spec_next_token(mac@, pos_pre, line_pre)->Some_0;
            let ghost rem_pre = spec_tokens_from(mac@, pos_pre, line_pre).map_values(
                |tt: (Seq<char>, int)| tt.0,
            );
            let ghost rem_post = spec_tokens_from(mac@, tk.rpos, tk.rline).map_values(
                |tt: (Seq<char>, int)| tt.0,
            );
            proof {
                assert(rem_pre =~= seq![tok.token@] + rem_post);
                assert(rem_pre.skip(1) =~= rem_post);
            }
            match self.token_to_words(tok.token, depth) {
                Err(e) => {
                    proof {
                        assert(spec_words_of(m_pre, rem_pre, depth as nat) == Err::<
                            ParseOut,
                            ErrView,
                        >(e@));
                    }
                    return Err(e);
                },
                Ok(mut ws) => {
                    let ghost ret_pre = ret.deep_view();
                    let ghost ws_dv = ws.deep_view();
                    ret.append(&mut ws);
                    proof {
                        assert(ret.deep_view() =~= ret_pre + ws_dv);
                        match spec_words_of(self.macros@, rem_post, depth as nat) {
                            Ok(o2) => {
                                assert(spec_words_of(m_pre, rem_pre, depth as nat) == Ok::<
                                    ParseOut,
                                    ErrView,
                                >(ParseOut { words: ws_dv + o2.words, macros: o2.macros }));
                                assert(ret_pre + (ws_dv + o2.words) =~= (ret_pre + ws_dv)
                                    + o2.words);
                            },
                            Err(e2) => {},
                        }
                    }
                },
            }
        }
        proof {
            let rem = spec_tokens_from(mac@, t.pos as int, t.line as int).map_values(
                |tt: (Seq<char>, int)| tt.0,
            );
            assert(spec_tokens_from(mac@, t.pos as int, t.line as int) =~= Seq::<(
                Seq<char>,
                int,
            )>::empty());
            assert(rem =~= Seq::<Seq<char>>::empty());
            assert(spec_words_of(self.macros@, rem, depth as nat) == Ok::<ParseOut, ErrView>(
                ParseOut { words: Seq::empty(), macros: self.macros@ },
            ));
            match spec_words_of(self.macros@, rem, depth as nat) {
                Ok(o) => {
                    assert(ret.deep_view() + o.words =~= ret.deep_view());
                },
                Err(e) => {},
            }
        }
        Ok(ret)
    }

    /// Tokenises the whole source and builds the word sequence, seeded with
    /// the implicit pad to the code-region start.
    fn pass_1(&mut self) -> (r: Result<(), AvcErr>)
        requires
            old(self).macros.wf(),
            old(self).words@.len() == 0,
        ensures
            final(self).code == old(self).code,
            final(self).labels == old(self).labels,
            final(self).macros.wf(),
            ({
                let res = spec_words_of(
                    old(self).macros@,
                    spec_tokens(old(self).code@).map_values(|tt: (Seq<char>, int)| tt.0),
                    MACRO_DEPTH_LIMIT as nat,
                );
                match r {
                    Ok(u) => res is Ok && final(self).words.deep_view() == seq![
                        WordView::AbsPad(CODE_SPACE_START),
                    ] + res->Ok_0.words && final(self).macros@ == res->Ok_0.macros,
                    Err(e) => res == Err::<ParseOut, ErrView>(e@),
                }
            }),
    {
        let ghost m0 = old(self).macros@;
        let ghost all = spec_tokens(self.code@).map_values(|tt: (Seq<char>, int)| tt.0);
        self.words.push(Word::AbsPad(CODE_SPACE_START));
        let mut t = Tokeniser::new(self.code);
        proof {
            assert(self.words.deep_view() =~= seq![WordView::AbsPad(CODE_SPACE_START)]);
            assert(self.words.deep_view().skip(1) =~= Seq::<WordView>::empty());
            match spec_words_of(m0, all, MACRO_DEPTH_LIMIT as nat) {
                Ok(o) => {
                    assert(self.words.deep_view().skip(1) + o.words =~= o.words);
                },
                Err(e) => {},
            }
        }
        loop
            invariant
                t.wf(),
                t.code@ == self.code@,
                self.code == old(self).code,
                self.labels == old(self).labels,
                self.macros.wf(),
                m0 == old(self).macros@,
                all == spec_tokens(old(self).code@).map_values(|tt: (Seq<char>, int)| tt.0),
                self.words.deep_view().len() >= 1,
                self.words.deep_view()[0] == WordView::AbsPad(CODE_SPACE_START),
                match spec_words_of(
                    self.macros@,
                    spec_tokens_from(self.code@, t.pos as int, t.line as int).map_values(
                        |tt: (Seq<char>, int)| tt.0,
                    ),
                    MACRO_DEPTH_LIMIT as nat,
                ) {
                    Ok(o) => spec_words_of(m0, all, MACRO_DEPTH_LIMIT as nat) == Ok::<
                        ParseOut,
                        ErrView,
                    >(
                        ParseOut {
                            words: self.words.deep_view().skip(1) + o.words,
                            macros: o.macros,
                        },
                    ),
                    Err(e) => spec_words_of(m0, all, MACRO_DEPTH_LIMIT as nat) == Err::<
                        ParseOut,
                        ErrView,
                    >(e),
                },
            ensures
                self.code == old(self).code,
                self.labels == old(self).labels,
                self.macros.wf(),
                m0 == old(self).macros@,
                self.words.deep_view().len() >= 1,
                self.words.deep_view()[0] == WordView::AbsPad(CODE_SPACE_START),
                spec_next_token(self.code@, t.pos as int, t.line as int) is None,
                t.code@ == self.code@,
                match spec_words_of(
                    self.macros@,
                    spec_tokens_from(self.code@, t.pos as int, t.line as int).map_values(
                        |tt: (Seq<char>, int)| tt.0,
                    ),
                    MACRO_DEPTH_LIMIT as nat,
                ) {
                    Ok(o) => spec_words_of(m0, all, MACRO_DEPTH_LIMIT as nat) == Ok::<
                        ParseOut,
                        ErrView,
                    >(
                        ParseOut {
                            words: self.words.deep_view().skip(1) + o.words,
                            macros: o.macros,
                        },
                    ),
                    Err(e) => spec_words_of(m0, all, MACRO_DEPTH_LIMIT as nat) == Err::<
                        ParseOut,
                        ErrView,
                    >(e),
                },
            decreases self.code@.len() - t.pos,
        {
            let ghost pos_pre = t.pos as int;
            let ghost line_pre = t.line as int;
            let ghost m_pre = self.macros@;
            let n = t.next();
            let tok = match n {
                None => {
                    break ;
                },
                Some(res) => match res {
                    Ok(tok) => tok,
                    Err(e) => {
                        return Err(e);
                    },
                },
            };
            let ghost tk = spec_next_token(self.code@, pos_pre, line_pre)->Some_0;
            let ghost rem_pre = spec_tokens_from(self.code@, pos_pre, line_pre).map_values(
                |tt: (Seq<char>, int)| tt.0,
            );
            let ghost rem_post = spec_tokens_from(self.code@, tk.rpos, tk.rline).map_values(
                |tt: (Seq<char>, int)| tt.0,
            );
            proof {
                assert(rem_pre =~= seq![tok.token@] + rem_post);
                assert(rem_pre.skip(1) =~= rem_post);
            }
            match self.token_to_words(tok.token, MACRO_DEPTH_LIMIT) {
                Err(e) => {
                    proof {
                        assert(spec_words_of(m_pre, rem_pre, MACRO_DEPTH_LIMIT as nat) == Err::<
                            ParseOut,
                            ErrView,
                        >(e@));
                    }
                    return Err(e);
                },
                Ok(mut ws) => {
                    let ghost built_pre = self.words.deep_view();
                    let ghost ws_dv = ws.deep_view();
                    self.words.append(&mut ws);
                    proof {
                        assert(self.words.deep_view() =~= built_pre + ws_dv);
                        assert(self.words.deep_view().skip(1) =~= built_pre.skip(1) + ws_dv);
                        match spec_words_of(self.macros@, rem_post, MACRO_DEPTH_LIMIT as nat) {
                            Ok(o2) => {
                                assert(spec_words_of(m_pre, rem_pre, MACRO_DEPTH_LIMIT as nat)
                                    == Ok::<ParseOut, ErrView>(
                                    ParseOut { words: ws_dv + o2.words, macros: o2.macros },
                                ));
                                assert(built_pre.skip(1) + (ws_dv + o2.words) =~= (built_pre.skip(1)
                                    + ws_dv) + o2.words);
                            },
                            Err(e2) => {},
                        }
                    }
                },
            }
        }
        proof {
            let rem = spec_tokens_from(self.code@, t.pos as int, t.line as int).map_values(
                |tt: (Seq<char>, int)| tt.0,
            );
            assert(spec_tokens_from(self.code@, t.pos as int, t.line as int) =~= Seq::<(
                Seq<char>,
                int,
            )>::empty());
            assert(rem =~= Seq::<Seq<char>>::empty());
            match spec_words_of(self.macros@, rem, MACRO_DEPTH_LIMIT as nat) {
                Ok(o) => {
                    assert(self.words.deep_view().skip(1) + o.words =~= self.words.deep_view().skip(
                        1,
                    ));
                    assert(seq![WordView::AbsPad(CODE_SPACE_START)] + self.words.deep_view().skip(1)
                        =~= self.words.deep_view());
                },
                Err(e) => {},
            }
        }
        Ok(())
    }

    /// Walks the words once, recording label addresses and rejecting
    /// emittable content below the code-region boundary, exactly as
    /// [`spec_pass2_at`] describes.
    fn pass_2(&mut self) -> (r: Result<(), AvcErr>)
        ensures
            final(self).code == old(self).code,
            final(self).words == old(self).words,
            final(self).macros == old(self).macros,
            match r {
                Ok(u) => spec_pass2_at(old(self).words.deep_view(), 0, 0, old(self).labels@)
                    == Ok::<Map<Seq<char>, u16>, ErrView>(final(self).labels@),
                Err(e) => spec_pass2_at(old(self).words.deep_view(), 0, 0, old(self).labels@)
                    == Err::<Map<Seq<char>, u16>, ErrView>(e@),
            },
    {
        let ghost dv = self.words.deep_view();
        let ghost labels0 = self.labels@;
        let mut counter: usize = 0;
        let mut i: usize = 0;
        while i < self.words.len()
            invariant
                0 <= i <= self.words@.len(),
                dv == self.words.deep_view(),
                labels0 == old(self).labels@,
                self.code == old(self).code,
                self.words == old(self).words,
                self.macros == old(self).macros,
                spec_pass2_at(dv, 0, 0, labels0) == spec_pass2_at(
                    dv,
                    i as int,
                    counter as int,
                    self.labels@,
                ),
            decreases self.words@.len() - i,
        {
            proof {
                assert(dv[i as int] == self.words@[i as int]@);
            }
            let is_bl = self.words[i].is_byte_like();
            match &self.words[i] {
                Word::Lbl(l) => {
                    let name = l.clone();
                    self.labels.insert(name, (counter % 0x10000) as u16);
                },
                _ => {},
            }
            if is_bl && counter < CODE_SPACE_START as usize {
                return Err(AvcErr::OpNotInCodeSpace);
            }
            let nc = match self.words[i].next_offset(counter) {
                None => {
                    return Err(AvcErr::AddressOverflow);
                },
                Some(nc) => nc,
            };
            counter = nc;
            i += 1;
        }
        Ok(())
    }

    /// Walks the words once more with the finished label table, writing the
    /// ROM image behind its header, exactly as [`spec_pass3_at`] describes.
    fn pass_3(&self) -> (r: Result<Vec<u8>, AvcErr>)
        ensures
            match r {
                Ok(v) => spec_pass3_at(self.words.deep_view(), 0, 4, self.labels@, spec_header())
                    == Ok::<Seq<u8>, ErrView>(v@),
                Err(e) => spec_pass3_at(self.words.deep_view(), 0, 4, self.labels@, spec_header())
                    == Err::<Seq<u8>, ErrView>(e@),
            },
    {
        let ghost dv = self.words.deep_view();
        let mut ret: Vec<u8> = vec![0x41u8, 0x56u8, 0x43u8, 0x00u8];
        proof {
            assert(ret@ =~= spec_header());
        }
        let mut counter: usize = 4;
        let mut i: usize = 0;
        while i < self.words.len()
            invariant
                0 <= i <= self.words@.len(),
                counter >= 4,
                dv == self.words.deep_view(),
                spec_pass3_at(dv, 0, 4, self.labels@, spec_header()) == spec_pass3_at(
                    dv,
                    i as int,
                    counter as int,
                    self.labels@,
                    ret@,
                ),
            decreases self.words@.len() - i,
        {
            proof {
                assert(dv[i as int] == self.words@[i as int]@);
            }
            let ci = if counter >= CODE_SPACE_START as usize {
                counter - CODE_SPACE_START as usize
            } else {
                counter
            };
            match &self.words[i] {
                Word::Byte(b) => {
                    set_vec_at(&mut ret, *b, ci);
                },
                Word::LblCall(l, kind) => {
                    let addr = match self.labels.get(l.as_str()) {
                        None => {
                            return Err(AvcErr::UndefinedLabel(l.clone()));
                        },
                        Some(a) => a,
                    };
                    match kind {
                        LblKind::Abs => {
                            let hb = (addr / 256) as u8;
                            let lb = (addr % 256) as u8;
                            set_vec_at(&mut ret, hb, ci);
                            set_vec_at(&mut ret, lb, ci + 1);
                        },
                        LblKind::Rel => {
                            let rel: i128 = addr as i128 - (counter as i128 - 4) - 1;
                            if rel < -128 || rel > 127 {
                                return Err(AvcErr::RelJumpTooLarge);
                            }
                            let byte: u8 = if rel >= 0 {
                                rel as u8
                            } else {
                                (rel + 256) as u8
                            };
                            set_vec_at(&mut ret, byte, ci);
                        },
                    }
                },
                _ => {},
            }
            let nc = match self.words[i].next_offset(counter - 4) {
                None => {
                    return Err(AvcErr::AddressOverflow);
                },
                Some(nc) => nc,
            };
            if nc > usize::MAX - 4 {
                return Err(AvcErr::AddressOverflow);
            }
            counter = nc + 4;
            i += 1;
        }
        Ok(ret)
    }

    /// Runs the three passes over the source text and returns the finished
    /// ROM image, or the first error: exactly what [`spec_assemble`] says of
    /// the text this assembler was built over.
    pub fn assemble(&mut self) -> (r: Result<Vec<u8>, AvcErr>)
        requires
            old(self).words@.len() == 0,
            old(self).labels@ == Map::<Seq<char>, u16>::empty(),
            old(self).macros@ == Map::<Seq<char>, MacroView>::empty(),
            old(self).macros.wf(),
        ensures
            match r {
                Ok(v) => spec_assemble(old(self).code@) == Ok::<Seq<u8>, ErrView>(v@),
                Err(e) => spec_assemble(old(self).code@) == Err::<Seq<u8>, ErrView>(e@),
            },
    {
        match self.pass_1() {
            Err(e) => {
                return Err(e);
            },
            Ok(u) => {},
        }
        match self.pass_2() {
            Err(e) => {
                return Err(e);
            },
            Ok(u) => {},
        }
        self.pass_3()
    }
}

} // verus!
