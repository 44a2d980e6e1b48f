use saran_compiler::literal::match_str;
use saran_compiler::parser::{fold, fold_until, reduce, Acc, Cont, Factory, MapFn, Parser, Pred, StepAcc, Val};
use saran_compiler::source::Source;
use saran_compiler::span::Span;

#[test]
fn cursor_clone_is_independent() {
    let c = Source::new(String::from("ab"));
    let c2 = c.clone();
    // Advance the clone past one character.
    let advanced = match Source::next().parse(c2) {
        Ok(Some((Val::Ch(so), s2))) => {
            assert_eq!(so.value, 'a');
            s2
        }
        other => panic!("next did not succeed: {:?}", other),
    };
    assert_eq!(advanced.char_offset(), 1);
    // The original cursor still reads the first character.
    assert_eq!(c.char_offset(), 0);
    match Source::next().parse(c) {
        Ok(Some((Val::Ch(so), _))) => assert_eq!(so.value, 'a'),
        other => panic!("next did not succeed: {:?}", other),
    }
}

#[test]
fn map_identity_changes_nothing() {
    let src = Source::new(String::from("hi there"));
    let plain = match_str("hi").parse(src.clone());
    let mapped = match_str("hi").map(MapFn::Id).parse(src);
    match (plain, mapped) {
        (Ok(Some((v1, s1))), Ok(Some((v2, s2)))) => {
            assert_eq!(v1, v2);
            assert_eq!(s1.char_offset(), s2.char_offset());
            assert_eq!(s1.byte_offset(), s2.byte_offset());
        }
        other => panic!("expected two successes: {:?}", other),
    }
}

#[test]
fn map_chspan_keeps_only_the_span() {
    let src = Source::new(String::from("q"));
    match Source::next().map(MapFn::ChSpan).parse(src) {
        Ok(Some((v, _))) => assert_eq!(v, Val::Sp(Span(0, 1))),
        other => panic!("unexpected: {:?}", other),
    }
}

#[test]
fn or_is_left_biased() {
    // The empty literal always soft-fails; the right branch must run against
    // the untouched cursor and win.
    let src = Source::new(String::from("foo"));
    let alone = match_str("fo").parse(src.clone());
    let either = match_str("").or(match_str("fo")).parse(src);
    match (alone, either) {
        (Ok(Some((v1, s1))), Ok(Some((v2, s2)))) => {
            assert_eq!(v1, Val::Sp(Span(0, 2)));
            assert_eq!(v1, v2);
            assert_eq!(s1.char_offset(), s2.char_offset());
        }
        other => panic!("expected two successes: {:?}", other),
    }
}

#[test]
fn or_left_success_wins() {
    let src = Source::new(String::from("ab"));
    match match_str("a").or(match_str("ab")).parse(src) {
        Ok(Some((v, s2))) => {
            assert_eq!(v, Val::Sp(Span(0, 1)));
            assert_eq!(s2.char_offset(), 1);
        }
        other => panic!("unexpected: {:?}", other),
    }
}

#[test]
fn or_propagates_hard_failure_without_trying_right() {
    let src = Source::new(String::from("xyz"));
    let p = Parser::fail(String::from("committed")).or(match_str("xyz"));
    match p.parse(src) {
        Err(e) => {
            assert_eq!(e.message().value, "committed");
            assert_eq!(e.message().span, Span(0, 0));
        }
        other => panic!("expected a hard failure: {:?}", other),
    }
}

#[test]
fn and_then_soft_failure_skips_continuation() {
    // "9" is no identifier start, so the first stage of the sequence
    // soft-fails and the continuation never runs: the caller's cursor is
    // untouched and usable.
    let src = Source::new(String::from("9"));
    let p = Source::next_if(Pred::AlphaOrUnderscore).map(MapFn::ChSpan).and_then(
        Cont::SliceSpan,
    );
    match p.parse(src.clone()) {
        Ok(None) => {}
        other => panic!("expected a soft failure: {:?}", other),
    }
    assert_eq!(src.char_offset(), 0);
}

#[test]
fn and_then_propagates_hard_failure() {
    let src = Source::new(String::from("ab"));
    let p = Parser::fail(String::from("boom")).and_then(Cont::SliceSpan);
    match p.parse(src) {
        Err(e) => assert_eq!(e.message().value, "boom"),
        other => panic!("expected a hard failure: {:?}", other),
    }
}

#[test]
fn fold_zero_matches_keeps_initial_value_and_cursor() {
    let src = Source::new(String::from("!!!"));
    let init = Val::Sp(Span(7, 9));
    match fold(Factory::IdentCh, init.clone(), Acc::ConcatSpans).parse(src) {
        Ok(Some((v, s2))) => {
            assert_eq!(v, init);
            assert_eq!(s2.char_offset(), 0);
            assert_eq!(s2.byte_offset(), 0);
        }
        other => panic!("expected success: {:?}", other),
    }
}

#[test]
fn fold_accumulates_spans() {
    let src = Source::new(String::from("ab9_!"));
    match fold(Factory::IdentCh, Val::Sp(Span(0, 0)), Acc::ConcatSpans).parse(src) {
        Ok(Some((v, s2))) => {
            assert_eq!(v, Val::Sp(Span(0, 4)));
            assert_eq!(s2.char_offset(), 4);
        }
        other => panic!("expected success: {:?}", other),
    }
}

#[test]
fn fold_until_stops_once_the_flag_is_raised() {
    // The line-comment element raises the stop flag on a newline: the scan
    // consumes up to and including it, and no further.
    let src = Source::new(String::from("ab\ncd"));
    match fold_until(Factory::LineElem, Val::Unit, StepAcc::UnitFlag).parse(src) {
        Ok(Some((v, s2))) => {
            assert_eq!(v, Val::Unit);
            assert_eq!(s2.char_offset(), 3);
        }
        other => panic!("expected success: {:?}", other),
    }
}

#[test]
fn fold_until_exhausts_input_without_the_flag() {
    let src = Source::new(String::from("abcd"));
    match fold_until(Factory::LineElem, Val::Unit, StepAcc::UnitFlag).parse(src) {
        Ok(Some((_, s2))) => assert_eq!(s2.char_offset(), 4),
        other => panic!("expected success: {:?}", other),
    }
}

#[test]
fn reduce_zero_matches_soft_fails() {
    let src = Source::new(String::from("123"));
    match reduce(Factory::SkipElem, Acc::KeepUnit).parse(src) {
        Ok(None) => {}
        other => panic!("expected a soft failure: {:?}", other),
    }
}

#[test]
fn next_soft_fails_at_end_of_input() {
    let src = Source::new(String::new());
    match Source::next().parse(src) {
        Ok(None) => {}
        other => panic!("expected a soft failure: {:?}", other),
    }
}

#[test]
fn next_if_rejects_without_consuming() {
    let src = Source::new(String::from("b"));
    match Source::next_if(Pred::Is('a')).parse(src.clone()) {
        Ok(None) => {}
        other => panic!("expected a soft failure: {:?}", other),
    }
    // The kept cursor still reads the character.
    match Source::next_if(Pred::Is('b')).parse(src) {
        Ok(Some((Val::Ch(so), s2))) => {
            assert_eq!(so.value, 'b');
            assert_eq!(so.span, Span(0, 1));
            assert_eq!(s2.char_offset(), 1);
        }
        other => panic!("expected success: {:?}", other),
    }
}

#[test]
fn next_spans_count_bytes_not_chars() {
    // A two-byte character: its span covers two bytes.
    let src = Source::new(String::from("\u{e9}!"));
    match Source::next().parse(src) {
        Ok(Some((Val::Ch(so), s2))) => {
            assert_eq!(so.value, '\u{e9}');
            assert_eq!(so.span, Span(0, 2));
            match Source::next().parse(s2) {
                Ok(Some((Val::Ch(so2), _))) => {
                    assert_eq!(so2.value, '!');
                    assert_eq!(so2.span, Span(2, 3));
                }
                other => panic!("expected success: {:?}", other),
            }
        }
        other => panic!("expected success: {:?}", other),
    }
}

#[test]
fn error_carries_message_and_buffer() {
    let src = Source::new(String::from("input"));
    match Parser::fail(String::from("bad")).parse(src) {
        Err(e) => {
            assert_eq!(e.message().value, "bad");
            assert_eq!(e.message().span, Span(0, 0));
            assert_eq!(e.source().as_str(), "input");
        }
        other => panic!("expected a hard failure: {:?}", other),
    }
}
