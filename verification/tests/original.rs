use avcasm::assembler::Assembler;
use avcasm::avcmacro::AvcMacro;
use avcasm::opcode::op_to_byte;
use avcasm::tokeniser::{Token, Tokeniser};
use avcasm::utils::split_bracket_groups;
use avcasm::word::align;

#[test]
fn test_o2b() {
    assert_eq!(op_to_byte("LIT"), Ok(0x80));
    assert_eq!(op_to_byte("LITr"), Ok(0xc0));
    assert_eq!(op_to_byte("RTI"), Ok(0x83));
    assert!(op_to_byte("AAA").is_err())
}

#[test]
fn test_tokenise() {
    let mut t = Tokeniser::new("one two\nthree  four\t five");
    assert_eq!(t.next(), Some(Ok(Token { token: "one", line: 0 })));
    assert_eq!(t.next(), Some(Ok(Token { token: "two", line: 0 })));
    assert_eq!(t.next(), Some(Ok(Token { token: "three", line: 1 })));
    assert_eq!(t.next(), Some(Ok(Token { token: "four", line: 1 })));
    assert_eq!(t.next(), Some(Ok(Token { token: "five", line: 1 })));
    assert_eq!(t.next(), None);
}

#[test]
fn adv_tokenise() {
    let mut t = Tokeniser::new("test test(aa\n bb cc)\nnext");
    assert_eq!(t.next(), Some(Ok(Token { token: "test", line: 0 })));
    assert_eq!(t.next(), Some(Ok(Token { token: "test(aa\n bb cc)", line: 0 })));
    assert_eq!(t.next(), Some(Ok(Token { token: "next", line: 2 })));
    assert_eq!(t.next(), None);
}

#[test]
fn comments() {
    let mut t = Tokeniser::new(
        r"
//comment
test
/* comment */ test(aa //a
 bb cc)
// comment
next //end",
    );
    assert_eq!(t.next(), Some(Ok(Token { token: "test", line: 2 })));
    assert_eq!(t.next(), Some(Ok(Token { token: "test(aa //a\n bb cc)", line: 3 })));
    assert_eq!(t.next(), Some(Ok(Token { token: "next", line: 6 })));
    assert_eq!(t.next(), None);
}

#[test]
fn sbg() {
    assert_eq!(
        split_bracket_groups("abc, (123, 456), xyz", ','),
        vec!["abc", "(123, 456)", "xyz"]
    )
}

#[test]
fn mac_create() {
    let m = AvcMacro::new("aaa, (aaa), (LIT #01 CLC ADC)");
    let m_correct = AvcMacro { text: "LIT #01 CLC ADC".into(), args: vec!["$aaa".into()] };
    assert_eq!(m, Ok(m_correct))
}

#[test]
fn mac_expand_1() {
    let m = AvcMacro::new("aaa, (arg), (TEST $arg TEST)").unwrap();
    let exp = m.expand(vec!["beans"]);
    assert_eq!(exp, String::from("TEST beans TEST"))
}

#[test]
fn align_test() {
    assert_eq!(align(1, 16), 16);
    assert_eq!(align(16, 16), 16);
    assert_eq!(align(28, 16), 32);
    assert_eq!(align(48, 16), 48);
    assert_eq!(align(28, 5), 30);
}

#[test]
fn assembler_builds() {
    let mut a = Assembler::new("NOP");
    assert_eq!(a.assemble(), Ok(vec![0x41, 0x56, 0x43, 0x00, 0x00]));
}
