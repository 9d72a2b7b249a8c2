use avcasm::assembler::{decode_abs_ref, Assembler};
use avcasm::errors::AvcErr;
use avcasm::opcode::op_to_byte;
use avcasm::tokeniser::Tokeniser;
use avcasm::utils::{set_vec_at, split_bracket_groups};

fn rom_of(src: &str) -> Result<Vec<u8>, AvcErr> {
    let mut a = Assembler::new(src);
    a.assemble()
}

const HEADER: [u8; 4] = [0x41, 0x56, 0x43, 0x00];

fn with_header(body: &[u8]) -> Vec<u8> {
    let mut v = HEADER.to_vec();
    v.extend_from_slice(body);
    v
}

#[test]
fn mode_suffixes_are_additive() {
    assert_eq!(op_to_byte("ADC"), Ok(0x18));
    assert_eq!(op_to_byte("ADCr"), Ok(0x18 | 0x40));
    assert_eq!(op_to_byte("ADC2"), Ok(0x18 | 0x20));
    assert_eq!(op_to_byte("ADCk"), Ok(0x18 | 0x80));
    assert_eq!(op_to_byte("ADCkr2"), Ok(0x18 | 0x80 | 0x40 | 0x20));
    assert_eq!(op_to_byte("ADC2rk"), Ok(0x18 | 0x80 | 0x40 | 0x20));
}

#[test]
fn lit_rejects_keep_suffix() {
    assert_eq!(op_to_byte("LIT"), Ok(0x80));
    assert_eq!(op_to_byte("LITk"), Err(AvcErr::BadMode("LITk".into(), 'k')));
    assert_eq!(op_to_byte("LITrk"), Err(AvcErr::BadMode("LITrk".into(), 'k')));
    assert_eq!(op_to_byte("LIT2r"), Ok(0x80 | 0x20 | 0x40));
}

#[test]
fn bad_mode_and_bad_instr() {
    assert_eq!(op_to_byte("ADCq"), Err(AvcErr::BadMode("ADCq".into(), 'q')));
    assert_eq!(op_to_byte("ZZZ"), Err(AvcErr::BadInstr("ZZZ".into())));
    assert_eq!(op_to_byte("AB"), Err(AvcErr::BadInstr("AB".into())));
}

#[test]
fn zero_operand_ops_ignore_suffixes() {
    assert_eq!(op_to_byte("SEC"), Ok(0x20));
    assert_eq!(op_to_byte("SECxyz"), Ok(0x20));
    assert_eq!(op_to_byte("NOPr"), Ok(0x00));
}

#[test]
fn comment_only_source_yields_no_tokens() {
    let mut t = Tokeniser::new("// just a line comment");
    assert_eq!(t.next(), None);
    assert_eq!(t.next(), None);
    let mut t = Tokeniser::new("/* a block\n comment\n across lines */");
    assert_eq!(t.next(), None);
    let mut t = Tokeniser::new("   \n\t  ");
    assert_eq!(t.next(), None);
}

#[test]
fn splitter_keeps_nested_groups() {
    assert_eq!(split_bracket_groups("a((1,2),3), b", ','), vec!["a((1,2),3)", "b"]);
    assert_eq!(split_bracket_groups("", ','), vec![""]);
}

#[test]
fn empty_program_is_header_only() {
    assert_eq!(rom_of(""), Ok(HEADER.to_vec()));
    assert_eq!(rom_of("// comments\n/* only */"), Ok(HEADER.to_vec()));
}

#[test]
fn byte_below_code_space_is_rejected() {
    assert_eq!(rom_of(".abspad(0000) NOP"), Err(AvcErr::OpNotInCodeSpace));
    assert_eq!(rom_of("NOP"), Ok(with_header(&[0x00])));
    assert_eq!(rom_of(".abspad(0300) NOP"), Ok(with_header(&[0x00])));
}

#[test]
fn zero_page_labels_are_allowed() {
    let rom = rom_of(".abspad(0010) .label(lo) .abspad(0300) @lo").unwrap();
    assert_eq!(rom, with_header(&[0x00, 0x10]));
}

#[test]
fn relative_reference_in_range() {
    // Backward: target 0x0300, reference at 0x0301 after one NOP.
    assert_eq!(rom_of(".label(a) NOP ^a"), Ok(with_header(&[0x00, 0xfe])));
    // Forward: reference at 0x0300, target 0x037f.
    assert_eq!(rom_of("^a .relpad(007e) .label(a)"), Ok(with_header(&[0x7e])));
}

#[test]
fn relative_reference_out_of_range() {
    assert_eq!(rom_of(".label(a) .relpad(0100) ^a"), Err(AvcErr::RelJumpTooLarge));
    assert_eq!(rom_of("^a .relpad(0080) .label(a)"), Err(AvcErr::RelJumpTooLarge));
}

#[test]
fn absolute_reference_round_trip() {
    let rom = rom_of("@t .label(t)").unwrap();
    assert_eq!(rom, with_header(&[0x03, 0x02]));
    assert_eq!(decode_abs_ref(rom[4], rom[5]), 0x0302);
}

#[test]
fn numeric_directives() {
    assert_eq!(rom_of(".hex(ff)"), Ok(with_header(&[0xff])));
    assert_eq!(rom_of(".x(7f)"), Ok(with_header(&[0x7f])));
    assert_eq!(rom_of(".x2(1234)"), Ok(with_header(&[0x12, 0x34])));
    assert_eq!(rom_of(".b(101)"), Ok(with_header(&[0x05])));
    assert_eq!(rom_of(".d(200)"), Ok(with_header(&[0xc8])));
    assert_eq!(rom_of(".d(256)"), Err(AvcErr::BadInt("256".into())));
    assert_eq!(rom_of(".hex(zz)"), Err(AvcErr::BadInt("zz".into())));
}

#[test]
fn literal_tokens() {
    assert_eq!(rom_of("#ff"), Ok(with_header(&[0xff])));
    assert_eq!(rom_of("#"), Err(AvcErr::BadInt("".into())));
    assert_eq!(rom_of("\"AB"), Ok(with_header(&[0x41, 0x42])));
    assert_eq!(rom_of(".s(AB)"), Ok(with_header(&[0x41, 0x42])));
    assert_eq!(rom_of("'A"), Ok(with_header(&[0x41])));
    assert_eq!(rom_of("'\u{e9}"), Err(AvcErr::MultibyteChar('\u{e9}')));
}

#[test]
fn string_token_emits_utf8_bytes() {
    assert_eq!(rom_of("\"\u{e9}"), Ok(with_header(&[0xc3, 0xa9])));
}

#[test]
fn align_directive_moves_addresses() {
    let rom = rom_of("#01 .align(0010) .label(b) @b").unwrap();
    let mut body = vec![0x01];
    body.resize(0x10, 0x00);
    body.push(0x03);
    body.push(0x10);
    assert_eq!(rom, with_header(&body));
}

#[test]
fn macro_expansion_through_pipeline() {
    assert_eq!(
        rom_of(".defmac(m, (x), (#0$x #0$x)) %m(7)"),
        Ok(with_header(&[0x07, 0x07]))
    );
    assert_eq!(
        rom_of(".defmac(pair, (a, b), (#$a #$b)) %pair(0a, 0b)"),
        Ok(with_header(&[0x0a, 0x0b]))
    );
    assert_eq!(rom_of(".defmac(m, (), (NOP)) %m"), Ok(with_header(&[0x00])));
}

#[test]
fn macro_errors() {
    assert_eq!(rom_of("%nope"), Err(AvcErr::UndefinedMacro("nope".into())));
    assert_eq!(
        rom_of(".defmac(m, (a), ($a)) %m(x,y)"),
        Err(AvcErr::MacroArgMismatch("m".into()))
    );
    assert_eq!(
        rom_of(".defmac(m, (), (%m)) %m"),
        Err(AvcErr::MacroRecursionLimit("m".into()))
    );
}

#[test]
fn directive_errors() {
    assert_eq!(
        rom_of(".foo(1)"),
        Err(AvcErr::UnrecognisedDirective("foo(1)".into()))
    );
    assert_eq!(rom_of(".label"), Err(AvcErr::MalformedDirective("label".into())));
    assert_eq!(rom_of("@nope"), Err(AvcErr::UndefinedLabel("nope".into())));
}

#[test]
fn later_label_definition_wins() {
    let rom = rom_of(".label(a) NOP .label(a) @a").unwrap();
    assert_eq!(rom, with_header(&[0x00, 0x03, 0x01]));
}

#[test]
fn hex_accepts_leading_plus_sign() {
    assert_eq!(rom_of("#+7f"), Ok(with_header(&[0x7f])));
}

#[test]
fn x2_range_checked() {
    assert_eq!(rom_of(".x2(10000)"), Err(AvcErr::BadInt("10000".into())));
}

#[test]
fn block_comment_newlines_count() {
    let mut t = Tokeniser::new("/* a\nb */ x");
    assert_eq!(
        t.next(),
        Some(Ok(avcasm::tokeniser::Token { token: "x", line: 1 }))
    );
    assert_eq!(t.next(), None);
}

#[test]
fn later_macro_definition_wins() {
    assert_eq!(
        rom_of(".defmac(m, (), (#01)) .defmac(m, (), (#02)) %m"),
        Ok(with_header(&[0x02]))
    );
}

#[test]
fn macros_can_invoke_macros() {
    assert_eq!(
        rom_of(".defmac(a, (), (#0a)) .defmac(b, (), (%a %a)) %b"),
        Ok(with_header(&[0x0a, 0x0a]))
    );
}

#[test]
fn macro_defined_inside_expansion() {
    assert_eq!(
        rom_of(".defmac(outer, (), (.defmac(inner, (), (#05)) %inner)) %outer"),
        Ok(with_header(&[0x05]))
    );
}

#[test]
fn set_vec_at_grows_with_zero_fill() {
    let mut v: Vec<u8> = vec![1, 2];
    set_vec_at(&mut v, 9, 4);
    assert_eq!(v, vec![1, 2, 0, 0, 9]);
    set_vec_at(&mut v, 7, 0);
    assert_eq!(v, vec![7, 2, 0, 0, 9]);
    set_vec_at(&mut v, 8, 5);
    assert_eq!(v, vec![7, 2, 0, 0, 9, 8]);
}
