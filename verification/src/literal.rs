use crate::parser::{
    block_comment_spec, cont_spec, fold_spec, fold_until_spec, glit, gmap, gnext_if, gslice,
    lemma_fold_ident_span, lemma_match_chars_advance, lemma_reduce_bounds, lemma_reduce_never_hard,
    line_comment_spec, match_chars, parse_spec, pred_spec, reduce, reduce_spec, Acc, Cont, Factory,
    GOut, GVal, MapFn, Parser, Pred, StepAcc,
};
use crate::source::{byte_start, lemma_byte_start_mono, lemma_slice_aligned, Source};
use vstd::prelude::*;
use vstd::string::*;

verus! {

/// A parser for the fixed literal `value`, matched character by character:
/// it soft-fails on the first mismatch, even partway through, consuming
/// nothing from the caller's point of view, and on a full match succeeds
/// with the concatenated span of every matched character. An empty literal
/// never matches.
pub fn match_str(value: &str) -> (r: Parser)
    ensures
        r matches Parser::Lit(s) && s@ == value@,
{
    Parser::Lit(String::from_str(value))
}

/// A line comment: `--`, and everything up to and including the next
/// newline; end of input terminates it silently.
pub fn line_comment() -> (r: Parser)
    ensures
        r matches Parser::AndThen(q, k) && (*q matches Parser::Lit(s) && s@ == "--"@) && k
            == Cont::LineBody,
{
    match_str("--").and_then(Cont::LineBody)
}

/// A block comment: `--[[`, and everything up to and including the closer
/// `]]`; end of input terminates it silently.
pub fn block_comment() -> (r: Parser)
    ensures
        r matches Parser::AndThen(q, k) && (*q matches Parser::Lit(s) && s@ == "--[["@) && k
            == Cont::BlockBody,
{
    match_str("--[[").and_then(Cont::BlockBody)
}

/// A single whitespace character, discarded.
pub fn whitespaces() -> (r: Parser)
    ensures
        r matches Parser::Mapped(q, f) && *q == Parser::NextIf(Pred::Whitespace) && f
            == MapFn::ToUnit,
{
    Source::next_if(Pred::Whitespace).map(MapFn::ToUnit)
}

/// The ignorable-trivia eater: one or more pieces of whitespace, block
/// comments or line comments, run before every token; soft-fails when no
/// trivia is present at all.
pub fn skip() -> (r: Parser)
    ensures
        r == Parser::Reduce(Factory::SkipElem, Acc::KeepUnit),
{
    reduce(Factory::SkipElem, Acc::KeepUnit)
}

/// The first character of an identifier: alphabetic or an underscore, kept
/// as its span.
pub fn first_ident_ch() -> (r: Parser)
    ensures
        r matches Parser::Mapped(q, f) && *q == Parser::NextIf(Pred::AlphaOrUnderscore) && f
            == MapFn::ChSpan,
{
    Source::next_if(Pred::AlphaOrUnderscore).map(MapFn::ChSpan)
}

/// A continuation character of an identifier: alphanumeric or an
/// underscore, kept as its span.
pub fn ident_ch() -> (r: Parser)
    ensures
        r matches Parser::Mapped(q, f) && *q == Parser::NextIf(Pred::AlnumOrUnderscore) && f
            == MapFn::ChSpan,
{
    Source::next_if(Pred::AlnumOrUnderscore).map(MapFn::ChSpan)
}

/// A trailing prime mark of an identifier.
pub fn ident_prime_ch() -> (r: Parser)
    ensures
        r matches Parser::Lit(s) && s@ == "'"@,
{
    match_str("'")
}

/// An identifier: ignorable trivia, one alphabetic or underscore character,
/// zero or more alphanumeric or underscore characters, zero or more trailing
/// prime marks; the spans of all its characters are concatenated, and the
/// result is the buffer text under that span, span-tagged -- re-sliced from
/// the original buffer rather than accumulated.
pub fn ident() -> (r: Parser)
    ensures
        r matches Parser::AndThen(q3, k4) && k4 == Cont::SliceSpan && (*q3 matches Parser::AndThen(
            q2,
            k3,
        ) && k3 == Cont::PrimeChars && (*q2 matches Parser::AndThen(q1, k2) && k2
            == Cont::IdentChars && (*q1 matches Parser::AndThen(q0, k1) && k1 == Cont::FirstIdent
            && *q0 == Parser::Reduce(Factory::SkipElem, Acc::KeepUnit)))),
{
    skip().and_then(Cont::FirstIdent).and_then(Cont::IdentChars).and_then(
        Cont::PrimeChars,
    ).and_then(Cont::SliceSpan)
}

/// The engine's central identifier invariant: when `ident` succeeds, its
/// value is the buffer text under the accumulated span -- exactly the
/// characters from the first identifier character to the new position, with
/// the byte offsets of those two positions as its span -- so re-slicing the
/// buffer loses nothing. And `ident` never hard-fails.
pub proof fn lemma_ident_text_is_buffer_slice(m: Parser, text: Seq<char>, pos: int)
    requires
        0 <= pos <= text.len(),
        m matches Parser::AndThen(q3, k4) && k4 == Cont::SliceSpan && (*q3 matches Parser::AndThen(
            q2,
            k3,
        ) && k3 == Cont::PrimeChars && (*q2 matches Parser::AndThen(q1, k2) && k2
            == Cont::IdentChars && (*q1 matches Parser::AndThen(q0, k1) && k1 == Cont::FirstIdent
            && *q0 == Parser::Reduce(Factory::SkipElem, Acc::KeepUnit)))),
    ensures
        match parse_spec(m, text, pos) {
            GOut::Good(v, p2) => pos <= p2 <= text.len() && exists|i: int|
                #![auto]
                pos <= i <= p2 && v == GVal::Txt(
                    text.subrange(i, p2),
                    byte_start(text, i),
                    byte_start(text, p2),
                ),
            GOut::Soft => true,
            GOut::Hard(msg, b0, b1) => false,
        },
{
    let q3 = *m->AndThen_0;
    let q2 = *q3->AndThen_0;
    let q1 = *q2->AndThen_0;
    let q0 = *q1->AndThen_0;
    lemma_reduce_never_hard(Factory::SkipElem, Acc::KeepUnit, text, pos);
    lemma_reduce_bounds(Factory::SkipElem, Acc::KeepUnit, text, pos);
    assert(parse_spec(q0, text, pos) == reduce_spec(Factory::SkipElem, Acc::KeepUnit, text, pos));
    match reduce_spec(Factory::SkipElem, Acc::KeepUnit, text, pos) {
        GOut::Good(v0, pa) => {
            assert(pos < pa <= text.len());
            assert(parse_spec(q1, text, pos) == cont_spec(Cont::FirstIdent, v0, text, pa));
            assert(cont_spec(Cont::FirstIdent, v0, text, pa) == gmap(
                MapFn::ChSpan,
                gnext_if(Pred::AlphaOrUnderscore, text, pa),
            ));
            if pa < text.len() && pred_spec(Pred::AlphaOrUnderscore, text[pa]) {
                let b0 = byte_start(text, pa);
                assert(parse_spec(q1, text, pos) == GOut::Good(
                    GVal::Sp(b0, byte_start(text, pa + 1)),
                    pa + 1,
                ));
                lemma_byte_start_mono(text, pa, pa + 1);
                lemma_fold_ident_span(Factory::IdentCh, b0, text, pa + 1);
                assert(parse_spec(q2, text, pos) == fold_spec(
                    Factory::IdentCh,
                    GVal::Sp(b0, byte_start(text, pa + 1)),
                    Acc::ConcatSpans,
                    text,
                    pa + 1,
                ));
                match fold_spec(
                    Factory::IdentCh,
                    GVal::Sp(b0, byte_start(text, pa + 1)),
                    Acc::ConcatSpans,
                    text,
                    pa + 1,
                ) {
                    GOut::Good(v1, pb) => {
                        assert(pa + 1 <= pb <= text.len());
                        assert(v1 == GVal::Sp(b0, byte_start(text, pb)));
                        lemma_byte_start_mono(text, pa, pb);
                        lemma_fold_ident_span(Factory::PrimeCh, b0, text, pb);
                        assert(parse_spec(q3, text, pos) == fold_spec(
                            Factory::PrimeCh,
                            GVal::Sp(b0, byte_start(text, pb)),
                            Acc::ConcatSpans,
                            text,
                            pb,
                        ));
                        match fold_spec(
                            Factory::PrimeCh,
                            GVal::Sp(b0, byte_start(text, pb)),
                            Acc::ConcatSpans,
                            text,
                            pb,
                        ) {
                            GOut::Good(v2, pc) => {
                                assert(pb <= pc <= text.len());
                                assert(v2 == GVal::Sp(b0, byte_start(text, pc)));
                                assert(parse_spec(m, text, pos) == gslice(v2, text, pc));
                                lemma_slice_aligned(text, pa, pc);
                                let vres = GVal::Txt(
                                    text.subrange(pa, pc),
                                    byte_start(text, pa),
                                    byte_start(text, pc),
                                );
                                assert(parse_spec(m, text, pos) == GOut::Good(vres, pc));
                                assert(pos <= pa <= pc && vres == GVal::Txt(
                                    text.subrange(pa, pc),
                                    byte_start(text, pa),
                                    byte_start(text, pc),
                                ));
                            },
                            _ => {},
                        }
                    },
                    _ => {},
                }
            } else {
                assert(parse_spec(m, text, pos) == GOut::Soft);
            }
        },
        GOut::Soft => {
            assert(parse_spec(m, text, pos) == GOut::Soft);
        },
        GOut::Hard(msg, x, y) => {},
    }
}

/// The line comment parser means exactly what `line_comment_spec` says.
pub proof fn lemma_line_comment_semantics(m: Parser, text: Seq<char>, pos: int)
    requires
        0 <= pos <= text.len(),
        m matches Parser::AndThen(q, k) && (*q matches Parser::Lit(s) && s@ == "--"@) && k
            == Cont::LineBody,
    ensures
        parse_spec(m, text, pos) == line_comment_spec(text, pos),
{
    reveal_strlit("--");
    assert("--"@ =~= seq!['-', '-']);
    lemma_match_chars_advance("--"@, text, pos);
    assert(parse_spec(*m->AndThen_0, text, pos) == glit("--"@, text, pos));
    match match_chars("--"@, text, pos) {
        Some(p2) => {
            assert(p2 == pos + 2 && p2 <= text.len());
            let v = GVal::Sp(byte_start(text, pos), byte_start(text, p2));
            assert(glit("--"@, text, pos) == GOut::Good(v, p2));
            assert(cont_spec(Cont::LineBody, v, text, p2) == fold_until_spec(
                Factory::LineElem,
                GVal::Unit,
                StepAcc::UnitFlag,
                text,
                p2,
            ));
        },
        None => {
            assert(glit("--"@, text, pos) == GOut::Soft);
        },
    }
}

/// The block comment parser means exactly what `block_comment_spec` says.
pub proof fn lemma_block_comment_semantics(m: Parser, text: Seq<char>, pos: int)
    requires
        0 <= pos <= text.len(),
        m matches Parser::AndThen(q, k) && (*q matches Parser::Lit(s) && s@ == "--[["@) && k
            == Cont::BlockBody,
    ensures
        parse_spec(m, text, pos) == block_comment_spec(text, pos),
{
    reveal_strlit("--[[");
    assert("--[["@ =~= seq!['-', '-', '[', '[']);
    lemma_match_chars_advance("--[["@, text, pos);
    assert(parse_spec(*m->AndThen_0, text, pos) == glit("--[["@, text, pos));
    match match_chars("--[["@, text, pos) {
        Some(p2) => {
            assert(p2 == pos + 4 && p2 <= text.len());
            let v = GVal::Sp(byte_start(text, pos), byte_start(text, p2));
            assert(glit("--[["@, text, pos) == GOut::Good(v, p2));
            assert(cont_spec(Cont::BlockBody, v, text, p2) == fold_until_spec(
                Factory::BlockElem,
                GVal::Unit,
                StepAcc::UnitFlag,
                text,
                p2,
            ));
        },
        None => {
            assert(glit("--[["@, text, pos) == GOut::Soft);
        },
    }
}

} // verus!
