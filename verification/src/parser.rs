use crate::error::Error;
use crate::source::{byte_start, lemma_byte_start_mono, len8, rc_clone, slice_view, Source};
use crate::span::{Span, SpanOf};
use vstd::prelude::*;

verus! {

// ------------------------------------------------------------------
// Character predicates
// ------------------------------------------------------------------
/// Whether a character has the Unicode white-space property.
pub uninterp spec fn is_whitespace_ch(c: char) -> bool;

/// Whether a character is Unicode alphabetic.
pub uninterp spec fn is_alphabetic_ch(c: char) -> bool;

/// Whether a character is Unicode alphanumeric.
pub uninterp spec fn is_alphanumeric_ch(c: char) -> bool;

/// Relies on `char::is_whitespace`: whether a character is white space is a
/// function of the character alone.
pub assume_specification[ char::is_whitespace ](c: char) -> (r: bool)
    ensures
        r == is_whitespace_ch(c),
;

/// Relies on `char::is_alphabetic`: whether a character is alphabetic is a
/// function of the character alone.
pub assume_specification[ char::is_alphabetic ](c: char) -> (r: bool)
    ensures
        r == is_alphabetic_ch(c),
;

/// Relies on `char::is_alphanumeric`: whether a character is alphanumeric is
/// a function of the character alone.
pub assume_specification[ char::is_alphanumeric ](c: char) -> (r: bool)
    ensures
        r == is_alphanumeric_ch(c),
;

/// A character predicate for `next_if`, as data.
#[derive(Debug, Clone, Copy, PartialEq, Eq)]
pub enum Pred {
    /// Unicode white space.
    Whitespace,
    /// An alphabetic character or an underscore.
    AlphaOrUnderscore,
    /// An alphanumeric character or an underscore.
    AlnumOrUnderscore,
    /// Exactly the given character.
    Is(char),
}

/// Which characters a predicate accepts.
pub open spec fn pred_spec(p: Pred, c: char) -> bool {
    match p {
        Pred::Whitespace => is_whitespace_ch(c),
        Pred::AlphaOrUnderscore => is_alphabetic_ch(c) || c == '_',
        Pred::AlnumOrUnderscore => is_alphanumeric_ch(c) || c == '_',
        Pred::Is(c0) => c == c0,
    }
}

/// Decide a predicate on a character.
pub fn eval_pred(p: Pred, c: char) -> (r: bool)
    ensures
        r == pred_spec(p, c),
{
    match p {
        Pred::Whitespace => c.is_whitespace(),
        Pred::AlphaOrUnderscore => c.is_alphabetic() || c == '_',
        Pred::AlnumOrUnderscore => c.is_alphanumeric() || c == '_',
        Pred::Is(c0) => c == c0,
    }
}

// ------------------------------------------------------------------
// Values and outcomes
// ------------------------------------------------------------------
/// A value produced by a parser.
#[derive(Debug, Clone, PartialEq)]
pub enum Val {
    /// Nothing of interest, as the trivia skippers produce.
    Unit,
    /// A stop flag, as the comment-body scanners produce.
    Flag(bool),
    /// A bare byte range.
    Sp(Span),
    /// A span-tagged character, as `next` produces.
    Ch(SpanOf<char>),
    /// A span-tagged string, as `ident` produces.
    Txt(SpanOf<String>),
}

/// The mathematical shape of a `Val`: strings as character sequences, spans
/// as pairs of byte offsets.
pub enum GVal {
    Unit,
    Flag(bool),
    Sp(int, int),
    Ch(char, int, int),
    Txt(Seq<char>, int, int),
}

/// The mathematical shape of a parser value.
pub open spec fn vview(v: Val) -> GVal {
    match v {
        Val::Unit => GVal::Unit,
        Val::Flag(b) => GVal::Flag(b),
        Val::Sp(s) => GVal::Sp(s.0 as int, s.1 as int),
        Val::Ch(so) => GVal::Ch(so.value, so.span.0 as int, so.span.1 as int),
        Val::Txt(so) => GVal::Txt(so.value@, so.span.0 as int, so.span.1 as int),
    }
}

/// The three-way outcome of running a parser, in mathematical form: success
/// with a value and the position after it; soft failure, meaning "this
/// parser does not apply here", with nothing consumed; or hard failure with
/// a span-tagged message, which no alternative may swallow.
pub enum GOut {
    Good(GVal, int),
    Soft,
    Hard(Seq<char>, int, int),
}

// ------------------------------------------------------------------
// Transformations, accumulators, element factories, continuations
// ------------------------------------------------------------------
/// A value transformation for `map`, as data.
#[derive(Debug, Clone, Copy, PartialEq, Eq)]
pub enum MapFn {
    /// Keep the value as it is.
    Id,
    /// Discard the value.
    ToUnit,
    /// Replace the value with a raised stop flag.
    ToTrue,
    /// Replace the value with a lowered stop flag.
    ToFalse,
    /// Keep only the span of a span-tagged character.
    ChSpan,
}

/// What a transformation does to a value.
pub open spec fn map_spec(f: MapFn, v: GVal) -> GVal {
    match f {
        MapFn::Id => v,
        MapFn::ToUnit => GVal::Unit,
        MapFn::ToTrue => GVal::Flag(true),
        MapFn::ToFalse => GVal::Flag(false),
        MapFn::ChSpan => match v {
            GVal::Ch(c, b0, b1) => GVal::Sp(b0, b1),
            x => x,
        },
    }
}

/// Apply a transformation to a value.
pub fn apply_map(f: MapFn, v: Val) -> (r: Val)
    ensures
        vview(r) == map_spec(f, vview(v)),
{
    match f {
        MapFn::Id => v,
        MapFn::ToUnit => Val::Unit,
        MapFn::ToTrue => Val::Flag(true),
        MapFn::ToFalse => Val::Flag(false),
        MapFn::ChSpan => match v {
            Val::Ch(so) => Val::Sp(so.span),
            x => x,
        },
    }
}

/// An accumulator for `fold` and `reduce`, as data.
#[derive(Debug, Clone, Copy, PartialEq, Eq)]
pub enum Acc {
    /// Merge two spans into their convex hull; anything else is kept as it is.
    ConcatSpans,
    /// Discard both values.
    KeepUnit,
}

/// What an accumulator makes of the value so far and one new item.
pub open spec fn acc_spec(a: Acc, v: GVal, o: GVal) -> GVal {
    match a {
        Acc::ConcatSpans => match (v, o) {
            (GVal::Sp(a0, a1), GVal::Sp(b0, b1)) => GVal::Sp(
                if a0 <= b0 {
                    a0
                } else {
                    b0
                },
                if a1 >= b1 {
                    a1
                } else {
                    b1
                },
            ),
            _ => v,
        },
        Acc::KeepUnit => GVal::Unit,
    }
}

/// Apply an accumulator.
pub fn apply_acc(a: Acc, v: Val, o: Val) -> (r: Val)
    ensures
        vview(r) == acc_spec(a, vview(v), vview(o)),
{
    match a {
        Acc::ConcatSpans => match (v, o) {
            (Val::Sp(s1), Val::Sp(s2)) => Val::Sp(s1.concat(s2)),
            (x, _) => x,
        },
        Acc::KeepUnit => Val::Unit,
    }
}

/// An accumulator for `fold_until`, as data: it yields the new value and
/// whether the repetition should stop.
#[derive(Debug, Clone, Copy, PartialEq, Eq)]
pub enum StepAcc {
    /// Discard the values; stop when the item is a raised stop flag.
    UnitFlag,
}

/// What a stepping accumulator makes of the value so far and one new item.
pub open spec fn step_spec(sa: StepAcc, v: GVal, o: GVal) -> (GVal, bool) {
    match sa {
        StepAcc::UnitFlag => (GVal::Unit, o == GVal::Flag(true)),
    }
}

/// Apply a stepping accumulator.
pub fn apply_step(sa: StepAcc, v: Val, o: Val) -> (r: (Val, bool))
    ensures
        vview(r.0) == step_spec(sa, vview(v), vview(o)).0,
        r.1 == step_spec(sa, vview(v), vview(o)).1,
{
    match sa {
        StepAcc::UnitFlag => (Val::Unit, matches!(o, Val::Flag(true))),
    }
}

/// A maker of element parsers for the repetition combinators, as data: each
/// variant builds one fixed element parser afresh for every iteration.
#[derive(Debug, Clone, Copy, PartialEq, Eq)]
pub enum Factory {
    /// An identifier continuation character, kept as its span.
    IdentCh,
    /// A prime mark.
    PrimeCh,
    /// One step of a line comment body: a newline raises the stop flag, any
    /// other character lowers it.
    LineElem,
    /// One step of a block comment body: the closer `]]` raises the stop
    /// flag, any other character lowers it.
    BlockElem,
    /// One piece of ignorable trivia: whitespace, a block comment or a line
    /// comment, in that order.
    SkipElem,
}

/// A continuation for `and_then`, as data: what runs next, given the value
/// of the stage before.
#[derive(Debug, Clone, Copy, PartialEq, Eq)]
pub enum Cont {
    /// Ignore the value; read the first identifier character, kept as its span.
    FirstIdent,
    /// Fold identifier continuation characters onto the span so far.
    IdentChars,
    /// Fold trailing prime marks onto the span so far.
    PrimeChars,
    /// Slice the buffer over the span so far, span-tagged.
    SliceSpan,
    /// Ignore the value; scan a line comment body.
    LineBody,
    /// Ignore the value; scan a block comment body.
    BlockBody,
}

// ------------------------------------------------------------------
// Termination measures
// ------------------------------------------------------------------
/// The measure of one element parser.
pub open spec fn esize(f: Factory) -> nat {
    match f {
        Factory::SkipElem => 2,
        _ => 1,
    }
}

/// The measure of the parser a continuation builds.
pub open spec fn csize(k: Cont) -> nat {
    match k {
        Cont::FirstIdent => 1,
        Cont::SliceSpan => 1,
        Cont::IdentChars => 3,
        Cont::PrimeChars => 3,
        Cont::LineBody => 3,
        Cont::BlockBody => 3,
    }
}

/// The structural measure of a parser.
pub open spec fn psize(p: Parser) -> nat
    decreases p,
{
    match p {
        Parser::Next => 1,
        Parser::NextIf(_) => 1,
        Parser::Lit(_) => 1,
        Parser::Fail(_) => 1,
        Parser::Slice(_) => 1,
        Parser::Mapped(q, _) => psize(*q) + 1,
        Parser::AndThen(q, k) => psize(*q) + csize(k) + 1,
        Parser::OrElse(q, r) => psize(*q) + psize(*r) + 1,
        Parser::Fold(f, _, _) => esize(f) + 2,
        Parser::FoldUntil(f, _, _) => esize(f) + 2,
        Parser::Reduce(f, _) => esize(f) + 3,
    }
}

// ------------------------------------------------------------------
// The parser type
// ------------------------------------------------------------------
/// A parser, as data: a description that the engine interprets against a
/// cursor. Composition builds a new parser value; running one consumes it.
#[derive(Debug, PartialEq)]
pub enum Parser {
    /// Read one character, span-tagged with its byte range; soft-fails at
    /// end of input.
    Next,
    /// Read one character if it passes the predicate; soft-fails otherwise,
    /// consuming nothing.
    NextIf(Pred),
    /// Match a fixed literal character by character; succeeds with the span
    /// of the whole literal, soft-fails on the first mismatch. An empty
    /// literal never matches.
    Lit(String),
    /// Hard-fail at the current position with the given message: the
    /// commitment point for grammar rules built on the engine.
    Fail(String),
    /// Succeed without consuming, with the buffer text under the given span
    /// value.
    Slice(Val),
    /// Transform the value of a successful run; failures pass through.
    Mapped(Box<Parser>, MapFn),
    /// Sequencing: run the parser, hand its value to the continuation. A
    /// soft failure of the first stage skips the continuation; hard
    /// failures from either stage propagate.
    AndThen(Box<Parser>, Cont),
    /// Ordered alternation: the left parser first; on its soft failure the
    /// right one against the same cursor; a hard failure propagates at once.
    OrElse(Box<Parser>, Box<Parser>),
    /// Zero or more repetitions of an element, folded into a value; never
    /// fails softly itself.
    Fold(Factory, Val, Acc),
    /// Like `Fold`, but the accumulator can stop the repetition early.
    FoldUntil(Factory, Val, StepAcc),
    /// One or more repetitions, folded left into the first value; soft-fails
    /// if the first element does.
    Reduce(Factory, Acc),
}

// ------------------------------------------------------------------
// The meaning of a parser, as spec-level interpretation
// ------------------------------------------------------------------
/// Reading one character at `pos`: the character, span-tagged with its byte
/// range; soft failure at end of input.
pub open spec fn gnext(text: Seq<char>, pos: int) -> GOut {
    if pos < text.len() {
        GOut::Good(
            GVal::Ch(text[pos], byte_start(text, pos), byte_start(text, pos + 1)),
            pos + 1,
        )
    } else {
        GOut::Soft
    }
}

/// Reading one character at `pos` if it passes the predicate.
pub open spec fn gnext_if(p: Pred, text: Seq<char>, pos: int) -> GOut {
    if pos < text.len() && pred_spec(p, text[pos]) {
        gnext(text, pos)
    } else {
        GOut::Soft
    }
}

/// Transforming the value of a successful outcome; failures pass through.
pub open spec fn gmap(f: MapFn, o: GOut) -> GOut {
    match o {
        GOut::Good(v, p2) => GOut::Good(map_spec(f, v), p2),
        x => x,
    }
}

/// Ordered alternation of two outcomes: the left one unless it is soft.
pub open spec fn gor(a: GOut, b: GOut) -> GOut {
    match a {
        GOut::Soft => b,
        x => x,
    }
}

/// Where matching the literal `lit` character by character from `pos` ends,
/// if every character agrees.
pub open spec fn match_chars(lit: Seq<char>, text: Seq<char>, pos: int) -> Option<int>
    decreases lit.len(),
{
    if lit.len() == 0 {
        Some(pos)
    } else if pos < text.len() && text[pos] == lit[0] {
        match_chars(lit.subrange(1, lit.len() as int), text, pos + 1)
    } else {
        None
    }
}

/// A successful literal match ends exactly one literal further, inside the
/// buffer.
pub proof fn lemma_match_chars_advance(lit: Seq<char>, text: Seq<char>, pos: int)
    requires
        pos <= text.len(),
    ensures
        match_chars(lit, text, pos) matches Some(p2) ==> p2 == pos + lit.len() && p2
            <= text.len(),
    decreases lit.len(),
{
    if lit.len() > 0 && pos < text.len() && text[pos] == lit[0] {
        lemma_match_chars_advance(lit.subrange(1, lit.len() as int), text, pos + 1);
    }
}

/// The outcome of the literal matcher: the span of the whole literal on a
/// full match; soft failure on any mismatch or for an empty literal.
pub open spec fn glit(lit: Seq<char>, text: Seq<char>, pos: int) -> GOut {
    if lit.len() == 0 {
        GOut::Soft
    } else {
        match match_chars(lit, text, pos) {
            Some(p2) => GOut::Good(GVal::Sp(byte_start(text, pos), byte_start(text, p2)), p2),
            None => GOut::Soft,
        }
    }
}

/// The outcome of slicing the buffer over a span value: the text whose
/// characters start inside the byte range, without consuming; a value that
/// is not a span never matches.
pub open spec fn gslice(v: GVal, text: Seq<char>, pos: int) -> GOut {
    match v {
        GVal::Sp(b0, b1) => GOut::Good(GVal::Txt(slice_view(text, b0, b1), b0, b1), pos),
        _ => GOut::Soft,
    }
}

/// The outcome of a deliberate hard failure: the message, tagged with the
/// empty span at the current byte offset.
pub open spec fn gfail(msg: Seq<char>, text: Seq<char>, pos: int) -> GOut {
    GOut::Hard(msg, byte_start(text, pos), byte_start(text, pos))
}

/// What running a parser against `text` at character position `pos` yields.
pub open spec fn parse_spec(p: Parser, text: Seq<char>, pos: int) -> GOut
    decreases text.len() - pos, psize(p)
        when 0 <= pos <= text.len()
{
    match p {
        Parser::Next => gnext(text, pos),
        Parser::NextIf(pr) => gnext_if(pr, text, pos),
        Parser::Lit(s) => glit(s@, text, pos),
        Parser::Fail(m) => gfail(m@, text, pos),
        Parser::Slice(v) => gslice(vview(v), text, pos),
        Parser::Mapped(q, f) => gmap(f, parse_spec(*q, text, pos)),
        Parser::AndThen(q, k) => match parse_spec(*q, text, pos) {
            GOut::Good(v, p2) => if pos <= p2 <= text.len() {
                cont_spec(k, v, text, p2)
            } else {
                GOut::Soft
            },
            x => x,
        },
        Parser::OrElse(q, r) => gor(parse_spec(*q, text, pos), parse_spec(*r, text, pos)),
        Parser::Fold(f, v, a) => fold_spec(f, vview(v), a, text, pos),
        Parser::FoldUntil(f, v, sa) => fold_until_spec(f, vview(v), sa, text, pos),
        Parser::Reduce(f, a) => reduce_spec(f, a, text, pos),
    }
}

/// What a continuation runs, given the value of the stage before.
pub open spec fn cont_spec(k: Cont, v: GVal, text: Seq<char>, pos: int) -> GOut
    decreases text.len() - pos, csize(k)
        when 0 <= pos <= text.len()
{
    match k {
        Cont::FirstIdent => gmap(MapFn::ChSpan, gnext_if(Pred::AlphaOrUnderscore, text, pos)),
        Cont::IdentChars => fold_spec(Factory::IdentCh, v, Acc::ConcatSpans, text, pos),
        Cont::PrimeChars => fold_spec(Factory::PrimeCh, v, Acc::ConcatSpans, text, pos),
        Cont::SliceSpan => gslice(v, text, pos),
        Cont::LineBody => fold_until_spec(
            Factory::LineElem,
            GVal::Unit,
            StepAcc::UnitFlag,
            text,
            pos,
        ),
        Cont::BlockBody => fold_until_spec(
            Factory::BlockElem,
            GVal::Unit,
            StepAcc::UnitFlag,
            text,
            pos,
        ),
    }
}

/// The element parser each factory builds, run at `pos`.
pub open spec fn elem_spec(f: Factory, text: Seq<char>, pos: int) -> GOut
    decreases text.len() - pos, esize(f)
        when 0 <= pos <= text.len()
{
    match f {
        Factory::IdentCh => gmap(MapFn::ChSpan, gnext_if(Pred::AlnumOrUnderscore, text, pos)),
        Factory::PrimeCh => glit(seq!['\''], text, pos),
        Factory::LineElem => gor(
            gmap(MapFn::ToTrue, glit(seq!['\n'], text, pos)),
            gmap(MapFn::ToFalse, gnext(text, pos)),
        ),
        Factory::BlockElem => gor(
            gmap(MapFn::ToTrue, glit(seq![']', ']'], text, pos)),
            gmap(MapFn::ToFalse, gnext(text, pos)),
        ),
        Factory::SkipElem => gor(
            gor(
                gmap(MapFn::ToUnit, gnext_if(Pred::Whitespace, text, pos)),
                block_comment_spec(text, pos),
            ),
            line_comment_spec(text, pos),
        ),
    }
}

/// A block comment: the opener `--[[`, and a body scanned until the closer
/// `]]` or end of input. Reaching end of input without a closer is treated
/// as an implicit terminator.
pub open spec fn block_comment_spec(text: Seq<char>, pos: int) -> GOut
    decreases text.len() - pos, 1nat
        when 0 <= pos <= text.len()
{
    match glit(seq!['-', '-', '[', '['], text, pos) {
        GOut::Good(v, p2) => if pos < p2 <= text.len() {
            fold_until_spec(Factory::BlockElem, GVal::Unit, StepAcc::UnitFlag, text, p2)
        } else {
            GOut::Soft
        },
        x => x,
    }
}

/// A line comment: `--`, and a body scanned until a newline or end of input.
pub open spec fn line_comment_spec(text: Seq<char>, pos: int) -> GOut
    decreases text.len() - pos, 1nat
        when 0 <= pos <= text.len()
{
    match glit(seq!['-', '-'], text, pos) {
        GOut::Good(v, p2) => if pos < p2 <= text.len() {
            fold_until_spec(Factory::LineElem, GVal::Unit, StepAcc::UnitFlag, text, p2)
        } else {
            GOut::Soft
        },
        x => x,
    }
}

/// Zero or more elements folded into `v`: the repetition ends at the first
/// soft failure, with the position of the last successful element; a hard
/// failure propagates. An element that consumed nothing also ends the
/// repetition (the engine's element parsers always consume on success).
pub open spec fn fold_spec(f: Factory, v: GVal, a: Acc, text: Seq<char>, pos: int) -> GOut
    decreases text.len() - pos, esize(f) + 1
        when 0 <= pos <= text.len()
{
    match elem_spec(f, text, pos) {
        GOut::Soft => GOut::Good(v, pos),
        GOut::Hard(m, b0, b1) => GOut::Hard(m, b0, b1),
        GOut::Good(item, p2) => if pos < p2 <= text.len() {
            fold_spec(f, acc_spec(a, v, item), a, text, p2)
        } else {
            GOut::Good(acc_spec(a, v, item), p2)
        },
    }
}

/// Like `fold_spec`, but the accumulator may raise a stop flag, which ends
/// the repetition successfully after that element.
pub open spec fn fold_until_spec(
    f: Factory,
    v: GVal,
    sa: StepAcc,
    text: Seq<char>,
    pos: int,
) -> GOut
    decreases text.len() - pos, esize(f) + 1
        when 0 <= pos <= text.len()
{
    match elem_spec(f, text, pos) {
        GOut::Soft => GOut::Good(v, pos),
        GOut::Hard(m, b0, b1) => GOut::Hard(m, b0, b1),
        GOut::Good(item, p2) => {
            let (v2, stop) = step_spec(sa, v, item);
            if stop {
                GOut::Good(v2, p2)
            } else if pos < p2 <= text.len() {
                fold_until_spec(f, v2, sa, text, p2)
            } else {
                GOut::Good(v2, p2)
            }
        },
    }
}

/// One or more elements, folded left into the first: soft failure if the
/// first element soft-fails.
pub open spec fn reduce_spec(f: Factory, a: Acc, text: Seq<char>, pos: int) -> GOut
    decreases text.len() - pos, esize(f) + 2
        when 0 <= pos <= text.len()
{
    match elem_spec(f, text, pos) {
        GOut::Soft => GOut::Soft,
        GOut::Hard(m, b0, b1) => GOut::Hard(m, b0, b1),
        GOut::Good(v, p2) => if pos <= p2 <= text.len() {
            fold_spec(f, v, a, text, p2)
        } else {
            GOut::Good(v, p2)
        },
    }
}

// ------------------------------------------------------------------
// Running a parser
// ------------------------------------------------------------------
/// What a parser run hands back: success with a value and the cursor after
/// it, soft failure (`Ok(None)`, nothing consumed -- the caller keeps its
/// cursor), or hard failure.
pub type ParseResult = Result<Option<(Val, Source)>, Error>;

/// Whether an executable result is the given mathematical outcome, over the
/// buffer `text`.
pub open spec fn res_matches(r: ParseResult, g: GOut, text: Seq<char>) -> bool {
    match r {
        Result::Ok(o) => match o {
            Option::Some((v, s2)) => {
                &&& g == GOut::Good(vview(v), s2.position())
                &&& s2.wf()
                &&& s2.text() == text
            },
            Option::None => g == GOut::Soft,
        },
        Result::Err(e) => {
            &&& g == GOut::Hard(
                e.message_spec().value@,
                e.message_spec().span.0 as int,
                e.message_spec().span.1 as int,
            )
            &&& e.source_spec() == text
        },
    }
}

/// On success, the cursor never moved backwards past `pos`.
pub open spec fn no_rewind(r: ParseResult, pos: int) -> bool {
    match r {
        Result::Ok(o) => match o {
            Option::Some((v, s2)) => pos <= s2.position(),
            Option::None => true,
        },
        Result::Err(_) => true,
    }
}

/// Read one character, span-tagged with its byte range.
fn run_next(src: Source) -> (r: ParseResult)
    requires
        src.wf(),
    ensures
        res_matches(r, gnext(src.text(), src.position()), src.text()),
        no_rewind(r, src.position()),
{
    proof {
        src.lemma_wf_facts();
    }
    match src.peek() {
        Some(_) => {
            let ghost t = src.text();
            let ghost p = src.position();
            let b0 = src.byte_offset();
            let (c, s2) = src.read();
            let b1 = s2.byte_offset();
            proof {
                assert(byte_start(t, p + 1) == byte_start(t, p) + len8(t[p]));
            }
            Ok(Some((Val::Ch(SpanOf::new(c, Span(b0, b1))), s2)))
        },
        None => Ok(None),
    }
}

/// Read one character if it passes the predicate; consume nothing otherwise.
fn run_next_if(pr: Pred, src: Source) -> (r: ParseResult)
    requires
        src.wf(),
    ensures
        res_matches(r, gnext_if(pr, src.text(), src.position()), src.text()),
        no_rewind(r, src.position()),
{
    match src.peek() {
        Some(c) => {
            if eval_pred(pr, c) {
                run_next(src)
            } else {
                Ok(None)
            }
        },
        None => Ok(None),
    }
}

/// Match a fixed literal character by character.
fn run_lit(lit: &str, src: Source) -> (r: ParseResult)
    requires
        src.wf(),
    ensures
        res_matches(r, glit(lit@, src.text(), src.position()), src.text()),
        no_rewind(r, src.position()),
{
    let ghost t = src.text();
    let ghost p0 = src.position();
    proof {
        src.lemma_wf_facts();
    }
    let n: usize = lit.unicode_len();
    if n == 0 {
        return Ok(None);
    }
    let b0 = src.byte_offset();
    proof {
        assert(lit@.subrange(0, n as int) =~= lit@);
    }
    let mut cur = src;
    let mut j: usize = 0;
    while j < n
        invariant
            cur.wf(),
            cur.text() == t,
            t == src.text(),
            p0 == src.position(),
            b0 as int == byte_start(t, p0),
            lit@.len() == n as int,
            0 <= j <= n,
            0 <= p0 <= cur.position() <= t.len(),
            match_chars(lit@, t, p0) == match_chars(
                lit@.subrange(j as int, n as int),
                t,
                cur.position(),
            ),
        decreases n - j,
    {
        let ghost pj = cur.position();
        match cur.peek() {
            Some(c) => {
                if c == lit.get_char(j) {
                    proof {
                        assert(lit@.subrange(j as int, n as int)[0] == lit@[j as int]);
                        assert(lit@.subrange(j as int, n as int).subrange(
                            1,
                            (n - j) as int,
                        ) =~= lit@.subrange(j as int + 1, n as int));
                    }
                    let (_, nxt) = cur.read();
                    cur = nxt;
                    j = j + 1;
                } else {
                    proof {
                        let sub = lit@.subrange(j as int, n as int);
                        assert(sub.len() == n - j);
                        assert(sub[0] == lit@[j as int]);
                        assert(match_chars(sub, t, pj) == None::<int>);
                    }
                    return Ok(None);
                }
            },
            None => {
                proof {
                    let sub = lit@.subrange(j as int, n as int);
                    assert(sub.len() == n - j);
                    assert(match_chars(sub, t, pj) == None::<int>);
                }
                return Ok(None);
            },
        }
    }
    proof {
        assert(lit@.subrange(n as int, n as int) =~= Seq::<char>::empty());
        cur.lemma_wf_facts();
    }
    let b1 = cur.byte_offset();
    Ok(Some((Val::Sp(Span(b0, b1)), cur)))
}

/// Succeed, without consuming, with the buffer text under a span value.
fn run_slice(v: Val, src: Source) -> (r: ParseResult)
    requires
        src.wf(),
    ensures
        res_matches(r, gslice(vview(v), src.text(), src.position()), src.text()),
        no_rewind(r, src.position()),
{
    match v {
        Val::Sp(sp) => {
            let txt = src.slice_bytes(sp.0, sp.1);
            Ok(Some((Val::Txt(SpanOf::new(txt, sp)), src)))
        },
        _ => Ok(None),
    }
}

/// Hard-fail at the current position with the given message.
fn run_fail(m: String, src: Source) -> (r: ParseResult)
    requires
        src.wf(),
    ensures
        res_matches(r, gfail(m@, src.text(), src.position()), src.text()),
        no_rewind(r, src.position()),
{
    proof {
        src.lemma_wf_facts();
    }
    let b = src.byte_offset();
    Err(Error::new(SpanOf::new(m, Span(b, b)), rc_clone(src.source())))
}

impl Parser {
    /// Run the parser against a cursor: the engine's single entry point. The
    /// outcome is exactly what `parse_spec` says for the cursor's buffer and
    /// position; on success the new cursor shares the buffer and never lies
    /// before the one handed in.
    pub fn parse(self, src: Source) -> (r: ParseResult)
        requires
            src.wf(),
        ensures
            res_matches(r, parse_spec(self, src.text(), src.position()), src.text()),
            no_rewind(r, src.position()),
        decreases src.text().len() - src.position(), psize(self),
    {
        proof {
            src.lemma_wf_facts();
        }
        match self {
            Parser::Next => run_next(src),
            Parser::NextIf(pr) => run_next_if(pr, src),
            Parser::Lit(s) => run_lit(s.as_str(), src),
            Parser::Fail(m) => run_fail(m, src),
            Parser::Slice(v) => run_slice(v, src),
            Parser::Mapped(q, f) => {
                match (*q).parse(src) {
                    Ok(Some((v, s2))) => Ok(Some((apply_map(f, v), s2))),
                    r => r,
                }
            },
            Parser::AndThen(q, k) => {
                match (*q).parse(src) {
                    Ok(Some((v, s2))) => {
                        proof {
                            s2.lemma_wf_facts();
                        }
                        run_cont(k, v, s2)
                    },
                    r => r,
                }
            },
            Parser::OrElse(q, r) => {
                let saved = src.clone();
                match (*q).parse(src) {
                    Ok(None) => (*r).parse(saved),
                    out => out,
                }
            },
            Parser::Fold(f, v, a) => run_fold(f, v, a, src),
            Parser::FoldUntil(f, v, sa) => run_fold_until(f, v, sa, src),
            Parser::Reduce(f, a) => run_reduce(f, a, src),
        }
    }
}

/// Run a continuation on the value of the stage before.
fn run_cont(k: Cont, v: Val, src: Source) -> (r: ParseResult)
    requires
        src.wf(),
    ensures
        res_matches(r, cont_spec(k, vview(v), src.text(), src.position()), src.text()),
        no_rewind(r, src.position()),
    decreases src.text().len() - src.position(), csize(k),
{
    proof {
        src.lemma_wf_facts();
    }
    match k {
        Cont::FirstIdent => {
            match run_next_if(Pred::AlphaOrUnderscore, src) {
                Ok(Some((v2, s2))) => Ok(Some((apply_map(MapFn::ChSpan, v2), s2))),
                r => r,
            }
        },
        Cont::IdentChars => run_fold(Factory::IdentCh, v, Acc::ConcatSpans, src),
        Cont::PrimeChars => run_fold(Factory::PrimeCh, v, Acc::ConcatSpans, src),
        Cont::SliceSpan => run_slice(v, src),
        Cont::LineBody => run_fold_until(Factory::LineElem, Val::Unit, StepAcc::UnitFlag, src),
        Cont::BlockBody => run_fold_until(Factory::BlockElem, Val::Unit, StepAcc::UnitFlag, src),
    }
}

/// Run one element parser of a factory.
fn run_elem(f: Factory, src: Source) -> (r: ParseResult)
    requires
        src.wf(),
    ensures
        res_matches(r, elem_spec(f, src.text(), src.position()), src.text()),
        no_rewind(r, src.position()),
    decreases src.text().len() - src.position(), esize(f),
{
    proof {
        src.lemma_wf_facts();
    }
    match f {
        Factory::IdentCh => {
            match run_next_if(Pred::AlnumOrUnderscore, src) {
                Ok(Some((v2, s2))) => Ok(Some((apply_map(MapFn::ChSpan, v2), s2))),
                r => r,
            }
        },
        Factory::PrimeCh => {
            proof {
                reveal_strlit("'");
                assert("'"@ =~= seq!['\'']);
            }
            run_lit("'", src)
        },
        Factory::LineElem => {
            proof {
                reveal_strlit("\n");
                assert("\n"@ =~= seq!['\n']);
            }
            let saved = src.clone();
            match run_lit("\n", src) {
                Ok(Some((v2, s2))) => Ok(Some((apply_map(MapFn::ToTrue, v2), s2))),
                Ok(None) => match run_next(saved) {
                    Ok(Some((v2, s2))) => Ok(Some((apply_map(MapFn::ToFalse, v2), s2))),
                    r => r,
                },
                Err(e) => Err(e),
            }
        },
        Factory::BlockElem => {
            proof {
                reveal_strlit("]]");
                assert("]]"@ =~= seq![']', ']']);
            }
            let saved = src.clone();
            match run_lit("]]", src) {
                Ok(Some((v2, s2))) => Ok(Some((apply_map(MapFn::ToTrue, v2), s2))),
                Ok(None) => match run_next(saved) {
                    Ok(Some((v2, s2))) => Ok(Some((apply_map(MapFn::ToFalse, v2), s2))),
                    r => r,
                },
                Err(e) => Err(e),
            }
        },
        Factory::SkipElem => {
            let saved = src.clone();
            match run_next_if(Pred::Whitespace, src) {
                Ok(Some((v2, s2))) => Ok(Some((apply_map(MapFn::ToUnit, v2), s2))),
                Ok(None) => {
                    let saved2 = saved.clone();
                    match run_block_comment(saved) {
                        Ok(None) => run_line_comment(saved2),
                        r => r,
                    }
                },
                Err(e) => Err(e),
            }
        },
    }
}

/// Run a block comment: the opener, and the body up to `]]` or end of input.
fn run_block_comment(src: Source) -> (r: ParseResult)
    requires
        src.wf(),
    ensures
        res_matches(r, block_comment_spec(src.text(), src.position()), src.text()),
        no_rewind(r, src.position()),
    decreases src.text().len() - src.position(), 1nat,
{
    let ghost t = src.text();
    let ghost p0 = src.position();
    proof {
        src.lemma_wf_facts();
        reveal_strlit("--[[");
        assert("--[["@ =~= seq!['-', '-', '[', '[']);
        lemma_match_chars_advance(seq!['-', '-', '[', '['], t, p0);
    }
    match run_lit("--[[", src) {
        Ok(Some((_, s2))) => {
            proof {
                s2.lemma_wf_facts();
            }
            run_fold_until(Factory::BlockElem, Val::Unit, StepAcc::UnitFlag, s2)
        },
        r => r,
    }
}

/// Run a line comment: `--`, and the body up to a newline or end of input.
fn run_line_comment(src: Source) -> (r: ParseResult)
    requires
        src.wf(),
    ensures
        res_matches(r, line_comment_spec(src.text(), src.position()), src.text()),
        no_rewind(r, src.position()),
    decreases src.text().len() - src.position(), 1nat,
{
    let ghost t = src.text();
    let ghost p0 = src.position();
    proof {
        src.lemma_wf_facts();
        reveal_strlit("--");
        assert("--"@ =~= seq!['-', '-']);
        lemma_match_chars_advance(seq!['-', '-'], t, p0);
    }
    match run_lit("--", src) {
        Ok(Some((_, s2))) => {
            proof {
                s2.lemma_wf_facts();
            }
            run_fold_until(Factory::LineElem, Val::Unit, StepAcc::UnitFlag, s2)
        },
        r => r,
    }
}

/// Run a fold: elements until a soft failure, each folded into the value.
fn run_fold(f: Factory, v: Val, a: Acc, src: Source) -> (r: ParseResult)
    requires
        src.wf(),
    ensures
        res_matches(r, fold_spec(f, vview(v), a, src.text(), src.position()), src.text()),
        no_rewind(r, src.position()),
    decreases src.text().len() - src.position(), esize(f) + 1,
{
    proof {
        src.lemma_wf_facts();
    }
    let saved = src.clone();
    let p0 = src.char_offset();
    match run_elem(f, src) {
        Err(e) => Err(e),
        Ok(None) => Ok(Some((v, saved))),
        Ok(Some((item, next))) => {
            proof {
                next.lemma_wf_facts();
            }
            let v2 = apply_acc(a, v, item);
            if next.char_offset() > p0 {
                run_fold(f, v2, a, next)
            } else {
                Ok(Some((v2, next)))
            }
        },
    }
}

/// Run a fold whose accumulator may raise the stop flag.
fn run_fold_until(f: Factory, v: Val, sa: StepAcc, src: Source) -> (r: ParseResult)
    requires
        src.wf(),
    ensures
        res_matches(r, fold_until_spec(f, vview(v), sa, src.text(), src.position()), src.text()),
        no_rewind(r, src.position()),
    decreases src.text().len() - src.position(), esize(f) + 1,
{
    proof {
        src.lemma_wf_facts();
    }
    let saved = src.clone();
    let p0 = src.char_offset();
    match run_elem(f, src) {
        Err(e) => Err(e),
        Ok(None) => Ok(Some((v, saved))),
        Ok(Some((item, next))) => {
            proof {
                next.lemma_wf_facts();
            }
            let (v2, stop) = apply_step(sa, v, item);
            if stop {
                Ok(Some((v2, next)))
            } else if next.char_offset() > p0 {
                run_fold_until(f, v2, sa, next)
            } else {
                Ok(Some((v2, next)))
            }
        },
    }
}

// ------------------------------------------------------------------
// Combinators
// ------------------------------------------------------------------
impl Parser {
    /// On success, transform the value through `func`; soft and hard
    /// failures pass through unchanged. Consumes the parser and builds a new
    /// one.
    pub fn map(self, func: MapFn) -> (r: Parser)
        ensures
            r matches Parser::Mapped(q, f) && *q == self && f == func,
    {
        Parser::Mapped(Box::new(self), func)
    }

    /// Sequencing: run this parser, hand its value to the continuation. A
    /// soft failure of the first stage skips the continuation; a hard
    /// failure from either stage propagates undowngraded.
    pub fn and_then(self, cont: Cont) -> (r: Parser)
        ensures
            r matches Parser::AndThen(q, k) && *q == self && k == cont,
    {
        Parser::AndThen(Box::new(self), cont)
    }

    /// Ordered alternation: this parser first, against a clone of the
    /// cursor; if it soft-fails, `other` against the original cursor; if it
    /// hard-fails, the failure propagates and `other` is never tried.
    pub fn or(self, other: Parser) -> (r: Parser)
        ensures
            r matches Parser::OrElse(q, o) && *q == self && *o == other,
    {
        Parser::OrElse(Box::new(self), Box::new(other))
    }

    /// A parser that hard-fails at the current position with the given
    /// message: the commitment point for grammar rules that must not be
    /// backtracked past.
    pub fn fail(message: String) -> (r: Parser)
        ensures
            r == Parser::Fail(message),
    {
        Parser::Fail(message)
    }
}

impl Source {
    /// A parser that reads exactly one character, span-tagged with its byte
    /// range; soft-fails at end of input, never hard-fails.
    pub fn next() -> (r: Parser)
        ensures
            r == Parser::Next,
    {
        Parser::Next
    }

    /// Like `next`, but soft-fails without consuming when the predicate
    /// rejects the character.
    pub fn next_if(condition: Pred) -> (r: Parser)
        ensures
            r == Parser::NextIf(condition),
    {
        Parser::NextIf(condition)
    }
}

/// Zero or more repetitions: run the factory's element parser against
/// successive cursors, folding each value into `value` through
/// `accumulator`, until the element parser soft-fails; then succeed with the
/// folded value at the position of the last successful element. Zero matches
/// succeed with the initial value; this parser never fails softly itself.
pub fn fold(parser: Factory, value: Val, accumulator: Acc) -> (r: Parser)
    ensures
        r == Parser::Fold(parser, value, accumulator),
{
    Parser::Fold(parser, value, accumulator)
}

/// Like `fold`, but the accumulator also decides whether to stop: the
/// repetition ends on a soft failure or once the stop flag is raised.
pub fn fold_until(parser: Factory, value: Val, accumulator: StepAcc) -> (r: Parser)
    ensures
        r == Parser::FoldUntil(parser, value, accumulator),
{
    Parser::FoldUntil(parser, value, accumulator)
}

/// One or more repetitions: soft-fails if the first element does, and folds
/// every further element into the first value, left-associatively.
pub fn reduce(parser: Factory, accumulator: Acc) -> (r: Parser)
    ensures
        r == Parser::Reduce(parser, accumulator),
{
    Parser::Reduce(parser, accumulator)
}

// ------------------------------------------------------------------
// Laws of the combinators
// ------------------------------------------------------------------
/// Transforming with the identity changes nothing: the mapped parser has
/// exactly the outcome of the parser inside it.
pub proof fn lemma_map_id(m: Parser, text: Seq<char>, pos: int)
    requires
        0 <= pos <= text.len(),
        m matches Parser::Mapped(q, f) && f == MapFn::Id,
    ensures
        parse_spec(m, text, pos) == parse_spec(*m->Mapped_0, text, pos),
{
}

/// Alternation is left-biased: when the left branch soft-fails, the
/// alternation behaves exactly as the right branch run on the same cursor --
/// same value, same consumption.
pub proof fn lemma_or_left_bias(m: Parser, text: Seq<char>, pos: int)
    requires
        0 <= pos <= text.len(),
        m matches Parser::OrElse(q, o),
        parse_spec(*m->OrElse_0, text, pos) == GOut::Soft,
    ensures
        parse_spec(m, text, pos) == parse_spec(*m->OrElse_1, text, pos),
{
}

/// The left branch of an alternation wins outright when it does not
/// soft-fail: success and hard failure both short-circuit the right branch.
pub proof fn lemma_or_left_wins(m: Parser, text: Seq<char>, pos: int)
    requires
        0 <= pos <= text.len(),
        m matches Parser::OrElse(q, o),
        parse_spec(*m->OrElse_0, text, pos) != GOut::Soft,
    ensures
        parse_spec(m, text, pos) == parse_spec(*m->OrElse_0, text, pos),
{
}

/// Sequencing short-circuits: if the first stage soft-fails, the whole
/// sequence soft-fails, whatever the continuation is -- it is never
/// consulted.
pub proof fn lemma_and_then_short_circuit(m: Parser, text: Seq<char>, pos: int)
    requires
        0 <= pos <= text.len(),
        m matches Parser::AndThen(q, k),
        parse_spec(*m->AndThen_0, text, pos) == GOut::Soft,
    ensures
        parse_spec(m, text, pos) == GOut::Soft,
{
}

/// A hard failure of the first stage of a sequence propagates unchanged; it
/// is never downgraded to a soft failure.
pub proof fn lemma_and_then_hard(m: Parser, text: Seq<char>, pos: int)
    requires
        0 <= pos <= text.len(),
        m matches Parser::AndThen(q, k),
        parse_spec(*m->AndThen_0, text, pos) matches GOut::Hard(msg, b0, b1),
    ensures
        parse_spec(m, text, pos) == parse_spec(*m->AndThen_0, text, pos),
{
}

/// `fold` with zero matches: if the element parser soft-fails at once, the
/// fold succeeds with the initial value and an unchanged position.
pub proof fn lemma_fold_zero(f: Factory, v: Val, a: Acc, text: Seq<char>, pos: int)
    requires
        0 <= pos <= text.len(),
        elem_spec(f, text, pos) == GOut::Soft,
    ensures
        parse_spec(Parser::Fold(f, v, a), text, pos) == GOut::Good(vview(v), pos),
{
}

/// `reduce` with zero matches soft-fails.
pub proof fn lemma_reduce_zero(f: Factory, a: Acc, text: Seq<char>, pos: int)
    requires
        0 <= pos <= text.len(),
        elem_spec(f, text, pos) == GOut::Soft,
    ensures
        parse_spec(Parser::Reduce(f, a), text, pos) == GOut::Soft,
{
}

/// Whether a parser contains no deliberate failure point: every part of it
/// except `fail` can only succeed or fail softly.
pub open spec fn fail_free(p: Parser) -> bool
    decreases p,
{
    match p {
        Parser::Fail(_) => false,
        Parser::Mapped(q, _) => fail_free(*q),
        Parser::AndThen(q, _) => fail_free(*q),
        Parser::OrElse(q, r) => fail_free(*q) && fail_free(*r),
        _ => true,
    }
}

/// No element parser of a factory hard-fails.
pub proof fn lemma_elem_never_hard(f: Factory, text: Seq<char>, pos: int)
    requires
        0 <= pos <= text.len(),
    ensures
        !(elem_spec(f, text, pos) is Hard),
    decreases text.len() - pos, esize(f),
{
    if f == Factory::SkipElem {
        lemma_block_comment_never_hard(text, pos);
        lemma_line_comment_never_hard(text, pos);
    }
}

/// A block comment never hard-fails.
pub proof fn lemma_block_comment_never_hard(text: Seq<char>, pos: int)
    requires
        0 <= pos <= text.len(),
    ensures
        !(block_comment_spec(text, pos) is Hard),
    decreases text.len() - pos, 1nat,
{
    match glit(seq!['-', '-', '[', '['], text, pos) {
        GOut::Good(v, p2) => {
            if pos < p2 <= text.len() {
                lemma_fold_until_never_hard(Factory::BlockElem, GVal::Unit, StepAcc::UnitFlag,
                    text, p2);
            }
        },
        _ => {},
    }
}

/// A line comment never hard-fails.
pub proof fn lemma_line_comment_never_hard(text: Seq<char>, pos: int)
    requires
        0 <= pos <= text.len(),
    ensures
        !(line_comment_spec(text, pos) is Hard),
    decreases text.len() - pos, 1nat,
{
    match glit(seq!['-', '-'], text, pos) {
        GOut::Good(v, p2) => {
            if pos < p2 <= text.len() {
                lemma_fold_until_never_hard(Factory::LineElem, GVal::Unit, StepAcc::UnitFlag,
                    text, p2);
            }
        },
        _ => {},
    }
}

/// A fold never hard-fails.
pub proof fn lemma_fold_never_hard(f: Factory, v: GVal, a: Acc, text: Seq<char>, pos: int)
    requires
        0 <= pos <= text.len(),
    ensures
        !(fold_spec(f, v, a, text, pos) is Hard),
    decreases text.len() - pos, esize(f) + 1,
{
    lemma_elem_never_hard(f, text, pos);
    match elem_spec(f, text, pos) {
        GOut::Good(item, p2) => {
            if pos < p2 <= text.len() {
                lemma_fold_never_hard(f, acc_spec(a, v, item), a, text, p2);
            }
        },
        _ => {},
    }
}

/// A fold with a stop flag never hard-fails.
pub proof fn lemma_fold_until_never_hard(
    f: Factory,
    v: GVal,
    sa: StepAcc,
    text: Seq<char>,
    pos: int,
)
    requires
        0 <= pos <= text.len(),
    ensures
        !(fold_until_spec(f, v, sa, text, pos) is Hard),
    decreases text.len() - pos, esize(f) + 1,
{
    lemma_elem_never_hard(f, text, pos);
    match elem_spec(f, text, pos) {
        GOut::Good(item, p2) => {
            let (v2, stop) = step_spec(sa, v, item);
            if !stop && pos < p2 <= text.len() {
                lemma_fold_until_never_hard(f, v2, sa, text, p2);
            }
        },
        _ => {},
    }
}

/// A reduce never hard-fails.
pub proof fn lemma_reduce_never_hard(f: Factory, a: Acc, text: Seq<char>, pos: int)
    requires
        0 <= pos <= text.len(),
    ensures
        !(reduce_spec(f, a, text, pos) is Hard),
    decreases text.len() - pos, esize(f) + 2,
{
    lemma_elem_never_hard(f, text, pos);
    match elem_spec(f, text, pos) {
        GOut::Good(v, p2) => {
            if pos <= p2 <= text.len() {
                lemma_fold_never_hard(f, v, a, text, p2);
            }
        },
        _ => {},
    }
}

/// A continuation never hard-fails.
pub proof fn lemma_cont_never_hard(k: Cont, v: GVal, text: Seq<char>, pos: int)
    requires
        0 <= pos <= text.len(),
    ensures
        !(cont_spec(k, v, text, pos) is Hard),
    decreases text.len() - pos, csize(k),
{
    match k {
        Cont::IdentChars => lemma_fold_never_hard(Factory::IdentCh, v, Acc::ConcatSpans, text, pos),
        Cont::PrimeChars => lemma_fold_never_hard(Factory::PrimeCh, v, Acc::ConcatSpans, text, pos),
        Cont::LineBody => lemma_fold_until_never_hard(Factory::LineElem, GVal::Unit,
            StepAcc::UnitFlag, text, pos),
        Cont::BlockBody => lemma_fold_until_never_hard(Factory::BlockElem, GVal::Unit,
            StepAcc::UnitFlag, text, pos),
        _ => {},
    }
}

/// The engine's primitives construct no hard failure of their own: a parser
/// without a deliberate failure point either succeeds or fails softly, on
/// every buffer and at every position. Hard failures only ever propagate
/// from `fail`.
pub proof fn lemma_fail_free_never_hard(p: Parser, text: Seq<char>, pos: int)
    requires
        0 <= pos <= text.len(),
        fail_free(p),
    ensures
        !(parse_spec(p, text, pos) is Hard),
    decreases text.len() - pos, psize(p),
{
    match p {
        Parser::Mapped(q, _) => lemma_fail_free_never_hard(*q, text, pos),
        Parser::AndThen(q, k) => {
            lemma_fail_free_never_hard(*q, text, pos);
            match parse_spec(*q, text, pos) {
                GOut::Good(v, p2) => {
                    if pos <= p2 <= text.len() {
                        lemma_cont_never_hard(k, v, text, p2);
                    }
                },
                _ => {},
            }
        },
        Parser::OrElse(q, r) => {
            lemma_fail_free_never_hard(*q, text, pos);
            lemma_fail_free_never_hard(*r, text, pos);
        },
        Parser::Fold(f, v, a) => lemma_fold_never_hard(f, vview(v), a, text, pos),
        Parser::FoldUntil(f, v, sa) => lemma_fold_until_never_hard(f, vview(v), sa, text, pos),
        Parser::Reduce(f, a) => lemma_reduce_never_hard(f, a, text, pos),
        _ => {},
    }
}

/// A successful element always consumes at least one character and never
/// leaves the buffer: repetition built on the engine's elements advances.
pub proof fn lemma_elem_advances(f: Factory, text: Seq<char>, pos: int)
    requires
        0 <= pos <= text.len(),
    ensures
        elem_spec(f, text, pos) matches GOut::Good(v, p2) ==> pos < p2 <= text.len(),
    decreases text.len() - pos, esize(f),
{
    match f {
        Factory::PrimeCh => {
            lemma_match_chars_advance(seq!['\''], text, pos);
        },
        Factory::LineElem => {
            lemma_match_chars_advance(seq!['\n'], text, pos);
        },
        Factory::BlockElem => {
            lemma_match_chars_advance(seq![']', ']'], text, pos);
        },
        Factory::SkipElem => {
            lemma_block_comment_advances(text, pos);
            lemma_line_comment_advances(text, pos);
        },
        _ => {},
    }
}

/// A successful block comment consumes at least its opener and never leaves
/// the buffer.
pub proof fn lemma_block_comment_advances(text: Seq<char>, pos: int)
    requires
        0 <= pos <= text.len(),
    ensures
        block_comment_spec(text, pos) matches GOut::Good(v, p2) ==> pos < p2 <= text.len(),
    decreases text.len() - pos, 1nat,
{
    lemma_match_chars_advance(seq!['-', '-', '[', '['], text, pos);
    match glit(seq!['-', '-', '[', '['], text, pos) {
        GOut::Good(v, q) => {
            if pos < q <= text.len() {
                lemma_fold_until_bounds(Factory::BlockElem, GVal::Unit, StepAcc::UnitFlag, text, q);
            }
        },
        _ => {},
    }
}

/// A successful line comment consumes at least its opener and never leaves
/// the buffer.
pub proof fn lemma_line_comment_advances(text: Seq<char>, pos: int)
    requires
        0 <= pos <= text.len(),
    ensures
        line_comment_spec(text, pos) matches GOut::Good(v, p2) ==> pos < p2 <= text.len(),
    decreases text.len() - pos, 1nat,
{
    lemma_match_chars_advance(seq!['-', '-'], text, pos);
    match glit(seq!['-', '-'], text, pos) {
        GOut::Good(v, q) => {
            if pos < q <= text.len() {
                lemma_fold_until_bounds(Factory::LineElem, GVal::Unit, StepAcc::UnitFlag, text, q);
            }
        },
        _ => {},
    }
}

/// A fold ends at or after where it started, inside the buffer.
pub proof fn lemma_fold_bounds(f: Factory, v: GVal, a: Acc, text: Seq<char>, pos: int)
    requires
        0 <= pos <= text.len(),
    ensures
        fold_spec(f, v, a, text, pos) matches GOut::Good(v2, p2) ==> pos <= p2 <= text.len(),
    decreases text.len() - pos, esize(f) + 1,
{
    lemma_elem_advances(f, text, pos);
    match elem_spec(f, text, pos) {
        GOut::Good(item, q) => {
            if pos < q <= text.len() {
                lemma_fold_bounds(f, acc_spec(a, v, item), a, text, q);
            }
        },
        _ => {},
    }
}

/// A fold with a stop flag ends at or after where it started, inside the
/// buffer.
pub proof fn lemma_fold_until_bounds(f: Factory, v: GVal, sa: StepAcc, text: Seq<char>, pos: int)
    requires
        0 <= pos <= text.len(),
    ensures
        fold_until_spec(f, v, sa, text, pos) matches GOut::Good(v2, p2) ==> pos <= p2
            <= text.len(),
    decreases text.len() - pos, esize(f) + 1,
{
    lemma_elem_advances(f, text, pos);
    match elem_spec(f, text, pos) {
        GOut::Good(item, q) => {
            let (v2, stop) = step_spec(sa, v, item);
            if !stop && pos < q <= text.len() {
                lemma_fold_until_bounds(f, v2, sa, text, q);
            }
        },
        _ => {},
    }
}

/// A reduce ends strictly after where it started, inside the buffer: its
/// first element must consume.
pub proof fn lemma_reduce_bounds(f: Factory, a: Acc, text: Seq<char>, pos: int)
    requires
        0 <= pos <= text.len(),
    ensures
        reduce_spec(f, a, text, pos) matches GOut::Good(v2, p2) ==> pos < p2 <= text.len(),
    decreases text.len() - pos, esize(f) + 2,
{
    lemma_elem_advances(f, text, pos);
    match elem_spec(f, text, pos) {
        GOut::Good(v, q) => {
            if pos <= q <= text.len() {
                lemma_fold_bounds(f, v, a, text, q);
            }
        },
        _ => {},
    }
}

/// Folding identifier-tail spans or prime-mark spans onto a span that ends
/// at the current byte offset extends its end, character by character, to
/// the byte offset of wherever the fold stops; such a fold always succeeds.
pub proof fn lemma_fold_ident_span(f: Factory, b0: int, text: Seq<char>, pos: int)
    requires
        0 <= pos <= text.len(),
        f == Factory::IdentCh || f == Factory::PrimeCh,
        b0 <= byte_start(text, pos),
    ensures
        match fold_spec(f, GVal::Sp(b0, byte_start(text, pos)), Acc::ConcatSpans, text, pos) {
            GOut::Good(v, p2) => pos <= p2 <= text.len() && v == GVal::Sp(
                b0,
                byte_start(text, p2),
            ),
            _ => false,
        },
    decreases text.len() - pos,
{
    if f == Factory::PrimeCh {
        lemma_match_chars_advance(seq!['\''], text, pos);
    }
    match elem_spec(f, text, pos) {
        GOut::Soft => {},
        GOut::Hard(m, x, y) => {
            lemma_elem_never_hard(f, text, pos);
        },
        GOut::Good(item, q) => {
            assert(q == pos + 1 && q <= text.len());
            assert(item == GVal::Sp(byte_start(text, pos), byte_start(text, q)));
            lemma_byte_start_mono(text, pos, q);
            assert(acc_spec(Acc::ConcatSpans, GVal::Sp(b0, byte_start(text, pos)), item)
                == GVal::Sp(b0, byte_start(text, q)));
            lemma_fold_ident_span(f, b0, text, q);
        },
    }
}

/// A cloned cursor is referentially independent of the original: both read
/// the same next character, and advancing the clone only yields a fresh
/// cursor one character further -- no cursor value is ever changed in place.
pub proof fn lemma_clone_independent(c: Source, c2: Source)
    requires
        c.wf(),
        c2 == c,
    ensures
        gnext(c2.text(), c2.position()) == gnext(c.text(), c.position()),
        gnext(c2.text(), c2.position()) matches GOut::Good(v, p2) ==> p2 == c.position() + 1,
{
}

/// Run a reduce: one element, with the rest folded into it.
fn run_reduce(f: Factory, a: Acc, src: Source) -> (r: ParseResult)
    requires
        src.wf(),
    ensures
        res_matches(r, reduce_spec(f, a, src.text(), src.position()), src.text()),
        no_rewind(r, src.position()),
    decreases src.text().len() - src.position(), esize(f) + 2,
{
    proof {
        src.lemma_wf_facts();
    }
    match run_elem(f, src) {
        Err(e) => Err(e),
        Ok(None) => Ok(None),
        Ok(Some((v, next))) => {
            proof {
                next.lemma_wf_facts();
            }
            run_fold(f, v, a, next)
        },
    }
}

} // verus!
