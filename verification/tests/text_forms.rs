use msxterm::arguments::{parse_command, parse_path_arg};
use msxterm::hex::{dump_hex, hex2u8};
use msxterm::lower::{choose_char, choose_line, lower_char, lower_program};
use msxterm::number::{decimal_len, parse_hex_u8, parse_u16, push_decimal};
use msxterm::text::{
    equals, find_char, find_white, from_chars, is_whitespace, lines, split, starts_with, to_chars,
    to_strings, trim,
};

#[test]
fn white_space_is_that_of_unicode() {
    for n in 0..=0x10ffffu32 {
        if let Some(c) = char::from_u32(n) {
            assert_eq!(is_whitespace(c), c.is_whitespace(), "{:?}", c);
        }
    }
}

#[test]
fn lower_case_is_that_of_unicode() {
    for n in 0..=0x10ffffu32 {
        if let Some(c) = char::from_u32(n) {
            assert_eq!(Some(lower_char(c)), c.to_lowercase().next(), "{:?}", c);
        }
    }
}

#[test]
fn lower_case_takes_the_first_character_of_a_mapping() {
    assert_eq!(lower_char('\u{130}'), 'i');
    assert_eq!(lower_char('\u{c4}'), '\u{e4}');
    assert_eq!(choose_char('\u{130}', &vec!['i', '\u{307}']), 'i');
    assert_eq!(choose_char('A', &vec!['x']), 'a');
    assert_eq!(choose_char('7', &vec!['x']), '7');
}

#[test]
fn numbers_are_read_as_std_reads_them() {
    for s in [
        "", "0", "7", "10", "65535", "65536", "99999999999999999999", "+10", "++10", "+", "-", "-1",
        "-0", "0000000000010", " 10", "10 ", "1_0", "a", "\u{ff11}", "1a",
    ] {
        assert_eq!(parse_u16(&to_chars(s)), s.parse::<u16>().ok(), "{:?}", s);
    }
    for s in ["", "0", "ff", "FF", "100", "+f", "+", "0000ff", "g", "-1", "f ", "0x1"] {
        assert_eq!(parse_hex_u8(&to_chars(s)), u8::from_str_radix(s, 16).ok(), "{:?}", s);
    }
}

#[test]
fn every_line_number_reads_back() {
    for n in 0..=65535u16 {
        let mut s = String::new();
        push_decimal(&mut s, n as usize);
        assert_eq!(s, n.to_string());
        assert_eq!(decimal_len(n), s.len());
        assert_eq!(parse_u16(&to_chars(&s)), Some(n));
    }
    let mut s = "n=".to_string();
    push_decimal(&mut s, 65536);
    assert_eq!(s, "n=65536");
}

#[test]
fn texts_are_cut_as_std_cuts_them() {
    for s in ["", "a", "a b", " a  b ", "  ", "a\nb", "a\r\nb\n", "\r\n", "a\r", "\n\n", "a\rb\r\n\u{3000}c "] {
        let chars = to_chars(s);
        assert_eq!(from_chars(&chars), s);
        assert_eq!(from_chars(trim(&chars)), s.trim());
        let pieces: Vec<String> = s.split(' ').map(|p| p.to_string()).collect();
        assert_eq!(to_strings(&split(&chars, ' ')), pieces);
        let all: Vec<String> = s.lines().map(|p| p.to_string()).collect();
        assert_eq!(to_strings(&lines(&chars)), all);
    }
}

#[test]
fn texts_are_searched() {
    let s = to_chars("ab c");
    assert_eq!(find_char(&s, 'b'), 1);
    assert_eq!(find_char(&s, 'x'), 4);
    assert_eq!(find_white(&s), 2);
    assert_eq!(find_white(&to_chars("abc")), 3);
    assert!(starts_with(&s, "ab"));
    assert!(starts_with(&s, ""));
    assert!(!starts_with(&s, "ac"));
    assert!(!starts_with(&s, "ab cd"));
    assert!(equals(&s, "ab c"));
    assert!(!equals(&s, "ab"));
}

#[test]
fn words_that_write_no_byte_are_passed_over() {
    assert_eq!(hex2u8("#hex"), Vec::<u8>::new());
    assert_eq!(hex2u8(""), Vec::<u8>::new());
    assert_eq!(hex2u8("#hex  0d zz 100 +f"), vec![0x0d, 0x0f]);
}

#[test]
fn a_dump_can_be_sent_back() {
    let all: Vec<u8> = (0..=255).collect();
    let command = format!("#hex {}", dump_hex(all.clone()));
    assert_eq!(hex2u8(&command), all);
    assert_eq!(dump_hex(Vec::new()), "");
}

#[test]
fn literals_and_remarks_keep_their_case() {
    assert_eq!(lower_program("PRINT \"Hello World\";A$"), "print \"Hello World\";a$\r");
    assert_eq!(lower_program("  Rem Note  "), "Rem Note\r");
    assert_eq!(lower_program("10 REM Note"), "10 rem note\r");
    assert_eq!(lower_program(""), "");
    assert_eq!(lower_program("\n"), "\r");
}

#[test]
fn an_open_literal_goes_on_in_the_next_line() {
    assert_eq!(lower_program("PRINT \"A\nREM B\nC\" D"), "print \"A\rREM B\rC\" d\r");
}

#[test]
fn a_carriage_return_alone_ends_no_line() {
    assert_eq!(lower_program("A\rREM B\r"), "a\rrem b\r");
}

#[test]
fn lower_case_is_stable() {
    let once = lower_program(" PRINT \"X\"; A\t");
    assert_eq!(lower_program(&once), once);
}

#[test]
fn a_line_is_chosen_by_its_lower_case() {
    assert_eq!(choose_line(&to_chars("REM X"), &to_chars("rem x")), "REM X\r");
    assert_eq!(choose_line(&to_chars("Remark"), &to_chars("remark")), "Remark\r");
    assert_eq!(choose_line(&to_chars("RE"), &to_chars("re")), "re\r");
}

#[test]
fn paths_end_at_a_quotation_mark_or_white_space() {
    assert_eq!(parse_path_arg("#save \"open end"), Some("open end".to_string()));
    assert_eq!(parse_path_arg("#save \" a \" b"), Some(" a ".to_string()));
    assert_eq!(parse_path_arg("  #save\ta b"), Some("a".to_string()));
    assert_eq!(parse_path_arg("#save a\"b"), Some("a\"b".to_string()));
    assert_eq!(parse_path_arg(""), None);
}

#[test]
fn ranges_are_read_from_the_second_word() {
    assert_eq!(parse_command("#list"), (None, None));
    assert_eq!(parse_command("#list  10"), (None, None));
    assert_eq!(parse_command("#list 10-20-30"), (Some(10), Some(20)));
    assert_eq!(parse_command("#list a-b"), (None, None));
    assert_eq!(parse_command(" #list 1-65535 "), (Some(1), Some(65535)));
    assert_eq!(parse_command("#list 1-65536"), (Some(1), None));
}
