use saran_compiler::literal::{
    block_comment, ident, ident_ch, ident_prime_ch, line_comment, match_str, skip, whitespaces,
};
use saran_compiler::parser::Val;
use saran_compiler::source::Source;
use saran_compiler::span::Span;

#[test]
fn match_str_matches_whole_literal() {
    let src = Source::new(String::from("hello world"));
    match match_str("hello").parse(src) {
        Ok(Some((v, s2))) => {
            assert_eq!(v, Val::Sp(Span(0, 5)));
            assert_eq!(s2.char_offset(), 5);
        }
        other => panic!("expected success: {:?}", other),
    }
}

#[test]
fn match_str_soft_fails_partway_without_consuming() {
    let src = Source::new(String::from("ax"));
    match match_str("ab").parse(src.clone()) {
        Ok(None) => {}
        other => panic!("expected a soft failure: {:?}", other),
    }
    // The caller's cursor is untouched.
    assert_eq!(src.char_offset(), 0);
}

#[test]
fn match_str_empty_literal_never_matches() {
    let src = Source::new(String::from("anything"));
    match match_str("").parse(src) {
        Ok(None) => {}
        other => panic!("expected a soft failure: {:?}", other),
    }
}

#[test]
fn whitespaces_eats_one_whitespace() {
    let src = Source::new(String::from(" x"));
    match whitespaces().parse(src) {
        Ok(Some((v, s2))) => {
            assert_eq!(v, Val::Unit);
            assert_eq!(s2.char_offset(), 1);
        }
        other => panic!("expected success: {:?}", other),
    }
}

#[test]
fn line_comment_stops_after_newline() {
    let src = Source::new(String::from("-- x\nrest"));
    match line_comment().parse(src) {
        Ok(Some((v, s2))) => {
            assert_eq!(v, Val::Unit);
            assert_eq!(s2.char_offset(), 5);
        }
        other => panic!("expected success: {:?}", other),
    }
}

#[test]
fn line_comment_terminates_at_end_of_input() {
    let src = Source::new(String::from("-- no newline"));
    match line_comment().parse(src) {
        Ok(Some((_, s2))) => assert_eq!(s2.char_offset(), 13),
        other => panic!("expected success: {:?}", other),
    }
}

#[test]
fn block_comment_stops_after_closer() {
    let src = Source::new(String::from("--[[ body ]]rest"));
    match block_comment().parse(src) {
        Ok(Some((v, s2))) => {
            assert_eq!(v, Val::Unit);
            assert_eq!(s2.char_offset(), 12);
        }
        other => panic!("expected success: {:?}", other),
    }
}

#[test]
fn unterminated_block_comment_succeeds_at_end_of_input() {
    // No closer: the scanner exhausts the input and succeeds with whatever
    // was accumulated, treating end of input as an implicit terminator.
    let src = Source::new(String::from("--[["));
    match block_comment().parse(src) {
        Ok(Some((_, s2))) => assert_eq!(s2.char_offset(), 4),
        other => panic!("expected success: {:?}", other),
    }
    let src2 = Source::new(String::from("--[[ never closed"));
    match block_comment().parse(src2) {
        Ok(Some((_, s2))) => assert_eq!(s2.char_offset(), 17),
        other => panic!("expected success: {:?}", other),
    }
}

#[test]
fn skip_eats_mixed_trivia() {
    let src = Source::new(String::from("  --[[ c ]] -- line\n  token"));
    match skip().parse(src) {
        Ok(Some((v, s2))) => {
            assert_eq!(v, Val::Unit);
            assert_eq!(s2.char_offset(), 22);
        }
        other => panic!("expected success: {:?}", other),
    }
}

#[test]
fn skip_soft_fails_on_no_trivia() {
    let src = Source::new(String::from("token"));
    match skip().parse(src) {
        Ok(None) => {}
        other => panic!("expected a soft failure: {:?}", other),
    }
}

#[test]
fn ident_end_to_end_with_trivia_primes_and_spans() {
    let input = "  -- comment\n  foo'' bar";
    let src = Source::new(String::from(input));
    let s2 = match ident().parse(src) {
        Ok(Some((Val::Txt(so), s2))) => {
            assert_eq!(so.value, "foo''");
            assert_eq!(so.span, Span(15, 20));
            assert_eq!(&input[so.span.range()], "foo''");
            s2
        }
        other => panic!("expected an identifier: {:?}", other),
    };
    match ident().parse(s2) {
        Ok(Some((Val::Txt(so), _))) => {
            assert_eq!(so.value, "bar");
            assert_eq!(so.span, Span(21, 24));
            assert_eq!(&input[so.span.range()], "bar");
        }
        other => panic!("expected an identifier: {:?}", other),
    }
}

#[test]
fn ident_rejects_leading_digit_entirely() {
    let src = Source::new(String::from("123"));
    match ident().parse(src.clone()) {
        Ok(None) => {}
        other => panic!("expected a soft failure: {:?}", other),
    }
    // Nothing was consumed: the caller's cursor still sits at the start.
    assert_eq!(src.char_offset(), 0);
    assert_eq!(src.byte_offset(), 0);
}

#[test]
fn ident_without_trailing_primes() {
    let src = Source::new(String::from(" x1_y rest"));
    match ident().parse(src) {
        Ok(Some((Val::Txt(so), s2))) => {
            assert_eq!(so.value, "x1_y");
            assert_eq!(so.span, Span(1, 5));
            assert_eq!(s2.char_offset(), 5);
        }
        other => panic!("expected an identifier: {:?}", other),
    }
}

#[test]
fn ident_with_multibyte_letter_slices_by_bytes() {
    // The accented letter occupies two bytes: spans count bytes, and the
    // returned text must still equal the buffer slice for the span.
    let input = " h\u{e9}llo x";
    let src = Source::new(String::from(input));
    match ident().parse(src) {
        Ok(Some((Val::Txt(so), s2))) => {
            assert_eq!(so.value, "h\u{e9}llo");
            assert_eq!(so.span, Span(1, 7));
            assert_eq!(&input[so.span.range()], "h\u{e9}llo");
            assert_eq!(s2.char_offset(), 6);
            assert_eq!(s2.byte_offset(), 7);
        }
        other => panic!("expected an identifier: {:?}", other),
    }
}

#[test]
fn ident_accepts_underscore_start() {
    let src = Source::new(String::from(" _x1 "));
    match ident().parse(src) {
        Ok(Some((Val::Txt(so), _))) => {
            assert_eq!(so.value, "_x1");
            assert_eq!(so.span, Span(1, 4));
        }
        other => panic!("expected an identifier: {:?}", other),
    }
}

#[test]
fn ident_ch_and_prime_ch_spans() {
    let src = Source::new(String::from("a"));
    match ident_ch().parse(src) {
        Ok(Some((v, _))) => assert_eq!(v, Val::Sp(Span(0, 1))),
        other => panic!("expected success: {:?}", other),
    }
    let src2 = Source::new(String::from("'x"));
    match ident_prime_ch().parse(src2) {
        Ok(Some((v, _))) => assert_eq!(v, Val::Sp(Span(0, 1))),
        other => panic!("expected success: {:?}", other),
    }
}
