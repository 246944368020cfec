//! What the writer writes of quads without quoted triples, the reader reads
//! back: the same quads, in the same order, and no error, each blank node as
//! the blank node that the reader takes it for.

use crate::ascii::{
    AT, CARET, COLON, COMMA, DOT, DOUBLE_QUOTE, GREATER_THAN, HASH, LEFT_BRACE, LESS_THAN,
    LINE_FEED, RIGHT_BRACE, SEMICOLON, SPACE, TAB, UNDERSCORE,
};
use crate::bare::{
    bare_kind, lemma_bare_literal_is_read_in_place, lemma_bare_token_is_the_literal,
};
use crate::escape::{escaped_iri_bytes, lemma_escaped_iri_bytes, lemma_escaped_iri_is_read_back};
use crate::format::{
    can_be_inlined, escaped_iri, escaped_text, named_node_text, quoted, term_text,
};
use crate::renaming::{
    graph_term, has_no_blank_node, has_room_for, heard, heard_all, heard_graph, heard_subject,
    knows, lemma_nothing_else_is_renamed,
    lemma_bound_is_the_same_otherwise,
    lemma_heard_is_known, lemma_heard_is_the_same_otherwise, lemma_heard_quad_stays,
    lemma_renamed_quads_in_two, quad_as_heard, renamed_graph, renamed_quad, renamed_quads,
};
use crate::readback::{
    ends_a_token, is_label_byte, is_plain_tag, lemma_encode_in_two, lemma_label_is_read_back,
    lemma_language_tag_is_read_back, lemma_plain_tag_is_kept,
    lemma_quoted_text_is_read_back, located,
};
use crate::error::ParseErrorKind;
use crate::grammar::{
    blank_id, is_language_tag, language_tag, lookup, FrameModel, Mode, Outcome, Read,
    RecognizerModel,
};
use crate::iri::is_absolute_iri;
use crate::laws::{arrive, drain, feed, lemma_drain_whenever, run};
use crate::lexer::{
    after_blank, is_blank, lex, single_mark, token_at, token_text, LexedModel, RawTokenModel,
    ScannedModel, TokenKind, TokenModel,
};
use crate::model::{xsd_string, LiteralModel, QuadModel, TermModel};
use crate::serializer::{
    document_text, graph_closing, graph_opening, indent, triple_closing, triple_text, WriterModel,
};
use crate::stream::{advance, lemma_advance_in_two, quad_items, Item, ReaderModel};
use vstd::prelude::*;
use vstd::utf8::{
    decode_utf8, encode_utf8, encode_utf8_decode_utf8, encode_utf8_valid_utf8, valid_utf8,
};

verus! {

/// Tells whether a reader has all of its input, and nothing in its queue.
pub open spec fn at_rest(reader: ReaderModel) -> bool {
    reader.is_ending && !reader.finished && reader.ready.len() == 0
}

/// The reader after input up to index `end` was taken up and the recognizer
/// came to hold `recognizer`, once its queue is empty again.
pub open spec fn past(reader: ReaderModel, end: int, recognizer: RecognizerModel) -> ReaderModel {
    ReaderModel {
        input: reader.input.skip(end),
        position: advance(reader.position, reader.input.take(end)),
        recognizer,
        ready: Seq::empty(),
        ..reader
    }
}

/// What is read of a reader starts with what is in its queue, and goes on
/// with what is read of it once its queue is empty.
pub proof fn lemma_drain_starts_with_the_queue(reader: ReaderModel)
    ensures
        drain(reader) == (
            drain(ReaderModel { ready: Seq::empty(), ..reader }).0,
            reader.ready + drain(ReaderModel { ready: Seq::empty(), ..reader }).1,
        ),
    decreases reader.ready.len(),
{
    let cleared = ReaderModel { ready: Seq::empty(), ..reader };
    if reader.ready.len() == 0 {
        assert(reader.ready =~= Seq::<Item>::empty());
        assert(cleared == reader);
        assert(reader.ready + drain(cleared).1 =~= drain(cleared).1);
    } else {
        let next = ReaderModel { ready: reader.ready.drop_first(), ..reader };
        assert(reader.read() == (next, Some(reader.ready[0])));
        lemma_drain_starts_with_the_queue(next);
        assert(ReaderModel { ready: Seq::empty(), ..next } == cleared);
        assert(seq![reader.ready[0]] + (next.ready + drain(cleared).1) =~= reader.ready + drain(
            cleared,
        ).1);
    }
}

/// Blanks before a byte that is neither a blank nor the start of a comment
/// are passed over.
pub proof fn lemma_blanks_are_passed_over(data: Seq<u8>, at: int, to: int)
    requires
        0 <= at <= to < data.len(),
        forall|i: int| at <= i < to ==> is_blank(#[trigger] data[i]),
        !is_blank(data[to]),
        data[to] != HASH,
    ensures
        after_blank(data, at, false) == to,
    decreases to - at,
{
    if at < to {
        assert(is_blank(data[at]));
        lemma_blanks_are_passed_over(data, at + 1, to);
    }
}

/// A token that stands in the input after blanks is taken up, and what is
/// read goes on with the quads that the token releases.
#[verifier::rlimit(50)]
pub proof fn lemma_token_is_taken_up(
    reader: ReaderModel,
    start: int,
    end: int,
    raw: RawTokenModel,
    token: TokenModel,
)
    requires
        at_rest(reader),
        0 <= start < end <= reader.input.len(),
        forall|i: int| 0 <= i < start ==> is_blank(#[trigger] reader.input[i]),
        !is_blank(reader.input[start]),
        reader.input[start] != HASH,
        reader.input[0] != 0xEF,
        token_at(reader.input, true, start) == (ScannedModel::Done { end, token: raw }),
        token_text(raw) == Some(token),
        reader.recognizer.recognize(token).1 is Ok,
    ensures
        drain(reader) == (
            drain(past(reader, end, reader.recognizer.recognize(token).0)).0,
            quad_items(reader.recognizer.recognize(token).1->Ok_0) + drain(
                past(reader, end, reader.recognizer.recognize(token).0),
            ).1,
        ),
{
    reveal(lex);
    lemma_blanks_are_passed_over(reader.input, 0, start);
    let flag = reader.position.offset == 0;
    assert(lex(reader.input, true, flag) == (LexedModel::Token { start, end, token }));
    let taken = reader.take_token(start, end, token);
    assert(reader.read() == taken.read());
    assert(drain(reader) == drain(taken));
    lemma_drain_starts_with_the_queue(taken);
    assert(reader.ready =~= Seq::<Item>::empty());
    assert(taken.ready =~= quad_items(reader.recognizer.recognize(token).1->Ok_0));
    assert(ReaderModel { ready: Seq::empty(), ..taken } == past(
        reader,
        end,
        reader.recognizer.recognize(token).0,
    ));
}

/// At the end of the input, after blanks only, a reader whose recognizer is
/// between statements hands out nothing more.
pub proof fn lemma_end_is_reached(reader: ReaderModel)
    requires
        at_rest(reader),
        forall|i: int| 0 <= i < reader.input.len() ==> is_blank(#[trigger] reader.input[i]),
        reader.recognizer.can_end(),
    ensures
        drain(reader).1 == Seq::<Item>::empty(),
        drain(reader).0.is_end(),
{
    reveal(lex);
    let data = reader.input;
    lemma_only_blanks(data, 0);
    if data.len() > 0 {
        assert(is_blank(data[0]));
    }
    let flag = reader.position.offset == 0;
    assert(lex(data, true, flag) == LexedModel::End);
    let done = reader.finish();
    assert(done.ready =~= Seq::<Item>::empty());
    assert(reader.read() == done.read());
    assert(done.read() == (done, None::<Item>));
}

/// Blanks up to the end of the input are passed over.
pub proof fn lemma_only_blanks(data: Seq<u8>, at: int)
    requires
        0 <= at <= data.len(),
        forall|i: int| at <= i < data.len() ==> is_blank(#[trigger] data[i]),
    ensures
        after_blank(data, at, false) == data.len(),
    decreases data.len() - at,
{
    if at < data.len() {
        assert(is_blank(data[at]));
        lemma_only_blanks(data, at + 1);
    }
}

/// The frame that ends a statement, in a graph block or outside of one.
pub open spec fn statement_end(graph: Option<TermModel>) -> FrameModel {
    if graph is Some {
        FrameModel::GraphBodyEnd
    } else {
        FrameModel::StatementEnd
    }
}

/// Tells whether a recognizer reads IRI references as they are: it has no base.
pub open spec fn keeps_iris(settings: RecognizerModel) -> bool {
    settings.base is None
}

/// The recognizer between statements, outside of any graph block.
pub open spec fn outside(settings: RecognizerModel) -> RecognizerModel {
    RecognizerModel {
        stack: Seq::empty(),
        subjects: Seq::empty(),
        predicates: Seq::empty(),
        objects: Seq::empty(),
        pending: Seq::empty(),
        graph_name: None,
        in_graph: false,
        mode: Mode::Parsing,
        ..settings
    }
}

/// The recognizer after a name between statements.
pub open spec fn after_name(settings: RecognizerModel, node: TermModel) -> RecognizerModel {
    RecognizerModel { stack: seq![FrameModel::GraphOrTriples { node }], ..outside(settings) }
}

/// The recognizer between the statements of a graph block.
pub open spec fn inside(settings: RecognizerModel, graph: TermModel) -> RecognizerModel {
    RecognizerModel {
        stack: seq![FrameModel::GraphBody],
        graph_name: Some(graph),
        in_graph: true,
        ..outside(settings)
    }
}

/// The recognizer within a statement: `top` is what is expected before the
/// statement ends.
pub open spec fn within(
    settings: RecognizerModel,
    graph: Option<TermModel>,
    subject: TermModel,
    predicates: Seq<Seq<char>>,
    pending: Seq<QuadModel>,
    top: Seq<FrameModel>,
    objects: Seq<TermModel>,
) -> RecognizerModel {
    RecognizerModel {
        stack: seq![statement_end(graph)] + top,
        subjects: seq![subject],
        predicates,
        objects,
        pending,
        graph_name: graph,
        in_graph: graph is Some,
        mode: Mode::Parsing,
        ..settings
    }
}

/// The recognizer where an object is expected.
pub open spec fn before_object(
    settings: RecognizerModel,
    graph: Option<TermModel>,
    subject: TermModel,
    predicate: Seq<char>,
    pending: Seq<QuadModel>,
) -> RecognizerModel {
    within(
        settings,
        graph,
        subject,
        seq![predicate],
        pending,
        seq![FrameModel::PredicateListEnd, FrameModel::ObjectListEnd, FrameModel::Object],
        Seq::empty(),
    )
}

/// The recognizer after an object.
pub open spec fn after_object(
    settings: RecognizerModel,
    graph: Option<TermModel>,
    subject: TermModel,
    predicate: Seq<char>,
    pending: Seq<QuadModel>,
    object: TermModel,
) -> RecognizerModel {
    within(
        settings,
        graph,
        subject,
        seq![predicate],
        pending,
        seq![FrameModel::PredicateListEnd, FrameModel::ObjectListEnd],
        seq![object],
    )
}

/// The recognizer after the lexical form of a literal, or after `^^`.
pub open spec fn after_text(
    settings: RecognizerModel,
    graph: Option<TermModel>,
    subject: TermModel,
    predicate: Seq<char>,
    pending: Seq<QuadModel>,
    frame: FrameModel,
) -> RecognizerModel {
    within(
        settings,
        graph,
        subject,
        seq![predicate],
        pending,
        seq![FrameModel::PredicateListEnd, FrameModel::ObjectListEnd, frame],
        Seq::empty(),
    )
}

/// A token of a kind that has no text.
pub open spec fn mark_token(kind: TokenKind) -> TokenModel {
    TokenModel { kind, text: Seq::empty(), local: Seq::empty() }
}

/// A token of a kind with its text.
pub open spec fn word_token(kind: TokenKind, text: Seq<char>) -> TokenModel {
    TokenModel { kind, text, local: Seq::empty() }
}

/// The quad that the recognizer keeps back for an object.
pub open spec fn kept(
    graph: Option<TermModel>,
    subject: TermModel,
    predicate: Seq<char>,
    object: TermModel,
) -> QuadModel {
    QuadModel { subject, predicate, object, graph_name: graph }
}

/// An IRI reference where an object is expected is the object.
pub proof fn lemma_object_iri(
    settings: RecognizerModel,
    graph: Option<TermModel>,
    subject: TermModel,
    predicate: Seq<char>,
    pending: Seq<QuadModel>,
    iri: Seq<char>,
)
    requires
        keeps_iris(settings),
        is_absolute_iri(iri),
    ensures
        before_object(settings, graph, subject, predicate, pending).recognize(
            word_token(TokenKind::IriRef, iri),
        ) == (
            after_object(settings, graph, subject, predicate, pending, TermModel::Named(iri)),
            Ok::<Seq<QuadModel>, ParseErrorKind>(Seq::empty()),
        ),
{
    reveal(RecognizerModel::recognize);
    let state = before_object(settings, graph, subject, predicate, pending);
    let token = word_token(TokenKind::IriRef, iri);
    let below = RecognizerModel { stack: state.stack.drop_last(), ..state };
    assert(state.stack.last() == FrameModel::Object);
    assert(below.stack =~= seq![
        statement_end(graph),
        FrameModel::PredicateListEnd,
        FrameModel::ObjectListEnd,
    ]);
    let next = below.frame_step(FrameModel::Object, token).0;
    assert(next.objects =~= seq![TermModel::Named(iri)]);
    assert(after_object(
        settings,
        graph,
        subject,
        predicate,
        pending,
        TermModel::Named(iri),
    ).stack =~= below.stack);
}

/// A number or a boolean where an object is expected is the object.
pub proof fn lemma_object_bare(
    settings: RecognizerModel,
    graph: Option<TermModel>,
    subject: TermModel,
    predicate: Seq<char>,
    pending: Seq<QuadModel>,
    token: TokenModel,
    literal: LiteralModel,
)
    requires
        RecognizerModel::literal(token) == Some(literal),
    ensures
        before_object(settings, graph, subject, predicate, pending).recognize(token) == (
            after_object(settings, graph, subject, predicate, pending, TermModel::Literal(literal)),
            Ok::<Seq<QuadModel>, ParseErrorKind>(Seq::empty()),
        ),
{
    reveal(RecognizerModel::recognize);
    let state = before_object(settings, graph, subject, predicate, pending);
    let below = RecognizerModel { stack: state.stack.drop_last(), ..state };
    assert(state.stack.last() == FrameModel::Object);
    assert(below.stack =~= seq![
        statement_end(graph),
        FrameModel::PredicateListEnd,
        FrameModel::ObjectListEnd,
    ]);
    let next = below.frame_step(FrameModel::Object, token).0;
    assert(next.objects =~= seq![TermModel::Literal(literal)]);
    assert(after_object(
        settings,
        graph,
        subject,
        predicate,
        pending,
        TermModel::Literal(literal),
    ).stack =~= below.stack);
}

/// A string where an object is expected starts a literal.
pub proof fn lemma_object_text(
    settings: RecognizerModel,
    graph: Option<TermModel>,
    subject: TermModel,
    predicate: Seq<char>,
    pending: Seq<QuadModel>,
    value: Seq<char>,
)
    ensures
        before_object(settings, graph, subject, predicate, pending).recognize(
            word_token(TokenKind::Text, value),
        ) == (
            after_text(
                settings,
                graph,
                subject,
                predicate,
                pending,
                FrameModel::LiteralSuffix { value },
            ),
            Ok::<Seq<QuadModel>, ParseErrorKind>(Seq::empty()),
        ),
{
    reveal(RecognizerModel::recognize);
    let state = before_object(settings, graph, subject, predicate, pending);
    let token = word_token(TokenKind::Text, value);
    let below = RecognizerModel { stack: state.stack.drop_last(), ..state };
    assert(state.stack.last() == FrameModel::Object);
    assert(below.stack =~= seq![
        statement_end(graph),
        FrameModel::PredicateListEnd,
        FrameModel::ObjectListEnd,
    ]);
    let next = below.frame_step(FrameModel::Object, token).0;
    assert(next.stack =~= after_text(
        settings,
        graph,
        subject,
        predicate,
        pending,
        FrameModel::LiteralSuffix { value },
    ).stack);
}

/// A language tag after a string makes a language-tagged literal.
pub proof fn lemma_text_tag(
    settings: RecognizerModel,
    graph: Option<TermModel>,
    subject: TermModel,
    predicate: Seq<char>,
    pending: Seq<QuadModel>,
    value: Seq<char>,
    tag: Seq<char>,
)
    requires
        language_tag(tag) == Some(tag),
    ensures
        after_text(
            settings,
            graph,
            subject,
            predicate,
            pending,
            FrameModel::LiteralSuffix { value },
        ).recognize(word_token(TokenKind::LangTag, tag)) == (
            after_object(
                settings,
                graph,
                subject,
                predicate,
                pending,
                TermModel::Literal(LiteralModel::LanguageTagged { value, language: tag }),
            ),
            Ok::<Seq<QuadModel>, ParseErrorKind>(Seq::empty()),
        ),
{
    reveal(RecognizerModel::recognize);
    let frame = FrameModel::LiteralSuffix { value };
    let state = after_text(settings, graph, subject, predicate, pending, frame);
    let token = word_token(TokenKind::LangTag, tag);
    let below = RecognizerModel { stack: state.stack.drop_last(), ..state };
    assert(state.stack.last() == frame);
    assert(below.stack =~= seq![
        statement_end(graph),
        FrameModel::PredicateListEnd,
        FrameModel::ObjectListEnd,
    ]);
    let object = TermModel::Literal(LiteralModel::LanguageTagged { value, language: tag });
    let next = below.frame_step(frame, token).0;
    assert(next.objects =~= seq![object]);
    assert(after_object(settings, graph, subject, predicate, pending, object).stack
        =~= below.stack);
}

/// `^^` after a string asks for a datatype.
pub proof fn lemma_text_carets(
    settings: RecognizerModel,
    graph: Option<TermModel>,
    subject: TermModel,
    predicate: Seq<char>,
    pending: Seq<QuadModel>,
    value: Seq<char>,
)
    ensures
        after_text(
            settings,
            graph,
            subject,
            predicate,
            pending,
            FrameModel::LiteralSuffix { value },
        ).recognize(mark_token(TokenKind::Carets)) == (
            after_text(
                settings,
                graph,
                subject,
                predicate,
                pending,
                FrameModel::LiteralDatatype { value },
            ),
            Ok::<Seq<QuadModel>, ParseErrorKind>(Seq::empty()),
        ),
{
    reveal(RecognizerModel::recognize);
    let frame = FrameModel::LiteralSuffix { value };
    let state = after_text(settings, graph, subject, predicate, pending, frame);
    let token = mark_token(TokenKind::Carets);
    let below = RecognizerModel { stack: state.stack.drop_last(), ..state };
    assert(state.stack.last() == frame);
    assert(below.stack =~= seq![
        statement_end(graph),
        FrameModel::PredicateListEnd,
        FrameModel::ObjectListEnd,
    ]);
    let next = below.frame_step(frame, token).0;
    assert(next.stack =~= after_text(
        settings,
        graph,
        subject,
        predicate,
        pending,
        FrameModel::LiteralDatatype { value },
    ).stack);
}

/// An IRI reference after `^^` makes a literal with a datatype.
pub proof fn lemma_datatype_iri(
    settings: RecognizerModel,
    graph: Option<TermModel>,
    subject: TermModel,
    predicate: Seq<char>,
    pending: Seq<QuadModel>,
    value: Seq<char>,
    datatype: Seq<char>,
)
    requires
        keeps_iris(settings),
        is_absolute_iri(datatype),
    ensures
        after_text(
            settings,
            graph,
            subject,
            predicate,
            pending,
            FrameModel::LiteralDatatype { value },
        ).recognize(word_token(TokenKind::IriRef, datatype)) == (
            after_object(
                settings,
                graph,
                subject,
                predicate,
                pending,
                TermModel::Literal(LiteralModel::typed(value, datatype)),
            ),
            Ok::<Seq<QuadModel>, ParseErrorKind>(Seq::empty()),
        ),
{
    reveal(RecognizerModel::recognize);
    let frame = FrameModel::LiteralDatatype { value };
    let state = after_text(settings, graph, subject, predicate, pending, frame);
    let token = word_token(TokenKind::IriRef, datatype);
    let below = RecognizerModel { stack: state.stack.drop_last(), ..state };
    assert(state.stack.last() == frame);
    assert(below.stack =~= seq![
        statement_end(graph),
        FrameModel::PredicateListEnd,
        FrameModel::ObjectListEnd,
    ]);
    let object = TermModel::Literal(LiteralModel::typed(value, datatype));
    let next = below.frame_step(frame, token).0;
    assert(next.objects =~= seq![object]);
    assert(after_object(settings, graph, subject, predicate, pending, object).stack
        =~= below.stack);
}

/// A token that is neither a language tag nor `^^` ends the literal that a
/// string started: the string alone is the literal.
pub proof fn lemma_text_ends(
    settings: RecognizerModel,
    graph: Option<TermModel>,
    subject: TermModel,
    predicate: Seq<char>,
    pending: Seq<QuadModel>,
    value: Seq<char>,
    token: TokenModel,
)
    requires
        token.kind != TokenKind::LangTag,
        token.kind != TokenKind::Carets,
    ensures
        after_text(
            settings,
            graph,
            subject,
            predicate,
            pending,
            FrameModel::LiteralSuffix { value },
        ).recognize(token) == after_object(
            settings,
            graph,
            subject,
            predicate,
            pending,
            TermModel::Literal(LiteralModel::Simple { value }),
        ).recognize(token),
{
    reveal(RecognizerModel::recognize);
    let frame = FrameModel::LiteralSuffix { value };
    let state = after_text(settings, graph, subject, predicate, pending, frame);
    let below = RecognizerModel { stack: state.stack.drop_last(), ..state };
    assert(state.stack.last() == frame);
    assert(below.stack =~= seq![
        statement_end(graph),
        FrameModel::PredicateListEnd,
        FrameModel::ObjectListEnd,
    ]);
    let object = TermModel::Literal(LiteralModel::Simple { value });
    let (next, outcome) = below.frame_step(frame, token);
    assert(outcome == Outcome::Passed);
    assert(next.objects =~= seq![object]);
    let after = after_object(settings, graph, subject, predicate, pending, object);
    assert(after.stack =~= below.stack);
    assert(RecognizerModel { stack: below.stack, ..next } == after);
}

/// A comma after an object keeps the triple back and asks for one more object.
pub proof fn lemma_comma(
    settings: RecognizerModel,
    graph: Option<TermModel>,
    subject: TermModel,
    predicate: Seq<char>,
    pending: Seq<QuadModel>,
    object: TermModel,
)
    ensures
        after_object(settings, graph, subject, predicate, pending, object).recognize(
            mark_token(TokenKind::Comma),
        ) == (
            before_object(
                settings,
                graph,
                subject,
                predicate,
                pending.push(kept(graph, subject, predicate, object)),
            ),
            Ok::<Seq<QuadModel>, ParseErrorKind>(Seq::empty()),
        ),
{
    reveal(RecognizerModel::recognize);
    let state = after_object(settings, graph, subject, predicate, pending, object);
    let token = mark_token(TokenKind::Comma);
    let below = RecognizerModel { stack: state.stack.drop_last(), ..state };
    assert(state.stack.last() == FrameModel::ObjectListEnd);
    assert(below.stack =~= seq![statement_end(graph), FrameModel::PredicateListEnd]);
    let next = below.frame_step(FrameModel::ObjectListEnd, token).0;
    let target = before_object(
        settings,
        graph,
        subject,
        predicate,
        pending.push(kept(graph, subject, predicate, object)),
    );
    assert(next.objects =~= target.objects);
    assert(next.stack =~= target.stack);
}

/// The recognizer after `;`.
pub open spec fn after_semicolon(
    settings: RecognizerModel,
    graph: Option<TermModel>,
    subject: TermModel,
    pending: Seq<QuadModel>,
) -> RecognizerModel {
    within(
        settings,
        graph,
        subject,
        Seq::empty(),
        pending,
        seq![FrameModel::AfterSemicolon],
        Seq::empty(),
    )
}

/// A semicolon after an object keeps the triple back and asks for a verb.
#[verifier::rlimit(50)]
pub proof fn lemma_semicolon(
    settings: RecognizerModel,
    graph: Option<TermModel>,
    subject: TermModel,
    predicate: Seq<char>,
    pending: Seq<QuadModel>,
    object: TermModel,
)
    ensures
        after_object(settings, graph, subject, predicate, pending, object).recognize(
            mark_token(TokenKind::Semicolon),
        ) == (
            after_semicolon(
                settings,
                graph,
                subject,
                pending.push(kept(graph, subject, predicate, object)),
            ),
            Ok::<Seq<QuadModel>, ParseErrorKind>(Seq::empty()),
        ),
{
    reveal(RecognizerModel::recognize);
    reveal_with_fuel(RecognizerModel::dispatch, 3);
    let state = after_object(settings, graph, subject, predicate, pending, object);
    let token = mark_token(TokenKind::Semicolon);
    let below = RecognizerModel { stack: state.stack.drop_last(), ..state };
    assert(state.stack.last() == FrameModel::ObjectListEnd);
    assert(below.stack =~= seq![statement_end(graph), FrameModel::PredicateListEnd]);
    let (next, outcome) = below.frame_step(FrameModel::ObjectListEnd, token);
    assert(outcome == Outcome::Passed);
    let second = RecognizerModel { stack: below.stack, ..next };
    assert(second.stack.last() == FrameModel::PredicateListEnd);
    let lower = RecognizerModel { stack: second.stack.drop_last(), ..second };
    assert(lower.stack =~= seq![statement_end(graph)]);
    let last = lower.frame_step(FrameModel::PredicateListEnd, token).0;
    let target = after_semicolon(
        settings,
        graph,
        subject,
        pending.push(kept(graph, subject, predicate, object)),
    );
    assert(last.stack =~= target.stack);
    assert(last.objects =~= target.objects);
    assert(last.predicates =~= target.predicates);
}

/// An IRI reference after `;` is the verb of the same subject.
pub proof fn lemma_verb_after_semicolon(
    settings: RecognizerModel,
    graph: Option<TermModel>,
    subject: TermModel,
    pending: Seq<QuadModel>,
    predicate: Seq<char>,
)
    requires
        keeps_iris(settings),
        is_absolute_iri(predicate),
    ensures
        after_semicolon(settings, graph, subject, pending).recognize(
            word_token(TokenKind::IriRef, predicate),
        ) == (
            before_object(settings, graph, subject, predicate, pending),
            Ok::<Seq<QuadModel>, ParseErrorKind>(Seq::empty()),
        ),
{
    reveal(RecognizerModel::recognize);
    let state = after_semicolon(settings, graph, subject, pending);
    let token = word_token(TokenKind::IriRef, predicate);
    let below = RecognizerModel { stack: state.stack.drop_last(), ..state };
    assert(state.stack.last() == FrameModel::AfterSemicolon);
    assert(below.stack =~= seq![statement_end(graph)]);
    let next = below.frame_step(FrameModel::AfterSemicolon, token).0;
    let target = before_object(settings, graph, subject, predicate, pending);
    assert(next.stack =~= target.stack);
    assert(next.predicates =~= target.predicates);
}

/// A dot after an object ends the statement: its triples are released.
#[verifier::rlimit(50)]
pub proof fn lemma_dot(
    settings: RecognizerModel,
    graph: Option<TermModel>,
    subject: TermModel,
    predicate: Seq<char>,
    pending: Seq<QuadModel>,
    object: TermModel,
)
    ensures
        after_object(settings, graph, subject, predicate, pending, object).recognize(
            mark_token(TokenKind::Dot),
        ) == (
            match graph {
                Some(name) => inside(settings, name),
                None => outside(settings),
            },
            Ok::<Seq<QuadModel>, ParseErrorKind>(
                pending.push(kept(graph, subject, predicate, object)),
            ),
        ),
{
    reveal(RecognizerModel::recognize);
    reveal_with_fuel(RecognizerModel::dispatch, 4);
    let state = after_object(settings, graph, subject, predicate, pending, object);
    let token = mark_token(TokenKind::Dot);
    let below = RecognizerModel { stack: state.stack.drop_last(), ..state };
    assert(state.stack.last() == FrameModel::ObjectListEnd);
    assert(below.stack =~= seq![statement_end(graph), FrameModel::PredicateListEnd]);
    let (next, outcome) = below.frame_step(FrameModel::ObjectListEnd, token);
    assert(outcome == Outcome::Passed);
    let second = RecognizerModel { stack: below.stack, ..next };
    assert(second.stack.last() == FrameModel::PredicateListEnd);
    let lower = RecognizerModel { stack: second.stack.drop_last(), ..second };
    assert(lower.stack =~= seq![statement_end(graph)]);
    let (third, passed) = lower.frame_step(FrameModel::PredicateListEnd, token);
    assert(passed == Outcome::Passed);
    let bottom = RecognizerModel { stack: lower.stack, ..third };
    assert(bottom.stack.last() == statement_end(graph));
    let ground = RecognizerModel { stack: bottom.stack.drop_last(), ..bottom };
    assert(ground.stack =~= Seq::<FrameModel>::empty());
    let (last, released) = ground.frame_step(statement_end(graph), token);
    assert(released == Outcome::Released);
    assert(last.subjects =~= Seq::<TermModel>::empty());
    assert(last.predicates =~= Seq::<Seq<char>>::empty());
    assert(last.objects =~= Seq::<TermModel>::empty());
    match graph {
        Some(name) => {
            assert(last.stack =~= seq![FrameModel::GraphBody]);
        },
        None => {
            assert(last.stack =~= Seq::<FrameModel>::empty());
        },
    }
}

/// `}` between the statements of a graph block ends the block.
pub proof fn lemma_right_brace(settings: RecognizerModel, graph: TermModel)
    ensures
        inside(settings, graph).recognize(mark_token(TokenKind::RightBrace)) == (
            outside(settings),
            Ok::<Seq<QuadModel>, ParseErrorKind>(Seq::empty()),
        ),
{
    reveal(RecognizerModel::recognize);
    let state = inside(settings, graph);
    let below = RecognizerModel { stack: state.stack.drop_last(), ..state };
    assert(state.stack.last() == FrameModel::GraphBody);
    assert(below.stack =~= Seq::<FrameModel>::empty());
}

/// `{` after a name opens the block of the graph of that name.
pub proof fn lemma_left_brace(settings: RecognizerModel, graph: TermModel)
    ensures
        after_name(settings, graph).recognize(mark_token(TokenKind::LeftBrace)) == (
            inside(settings, graph),
            Ok::<Seq<QuadModel>, ParseErrorKind>(Seq::empty()),
        ),
{
    reveal(RecognizerModel::recognize);
    let state = after_name(settings, graph);
    let token = mark_token(TokenKind::LeftBrace);
    let below = RecognizerModel { stack: state.stack.drop_last(), ..state };
    assert(state.stack.last() == (FrameModel::GraphOrTriples { node: graph }));
    assert(below.stack =~= Seq::<FrameModel>::empty());
    let next = below.frame_step(state.stack.last(), token).0;
    assert(next.stack =~= inside(settings, graph).stack);
}

/// An IRI reference after a name is a verb, and the name its subject.
pub proof fn lemma_verb_after_name(
    settings: RecognizerModel,
    subject: TermModel,
    predicate: Seq<char>,
)
    requires
        keeps_iris(settings),
        is_absolute_iri(predicate),
    ensures
        after_name(settings, subject).recognize(word_token(TokenKind::IriRef, predicate)) == (
            before_object(settings, None, subject, predicate, Seq::empty()),
            Ok::<Seq<QuadModel>, ParseErrorKind>(Seq::empty()),
        ),
{
    reveal(RecognizerModel::recognize);
    let state = after_name(settings, subject);
    let token = word_token(TokenKind::IriRef, predicate);
    let below = RecognizerModel { stack: state.stack.drop_last(), ..state };
    assert(state.stack.last() == (FrameModel::GraphOrTriples { node: subject }));
    assert(below.stack =~= Seq::<FrameModel>::empty());
    let next = below.frame_step(state.stack.last(), token).0;
    let target = before_object(settings, None, subject, predicate, Seq::empty());
    assert(next.stack =~= target.stack);
    assert(next.subjects =~= target.subjects);
    assert(next.predicates =~= target.predicates);
}

/// The recognizer after the subject of a statement in a graph block.
pub open spec fn after_subject(
    settings: RecognizerModel,
    graph: TermModel,
    subject: TermModel,
) -> RecognizerModel {
    within(
        settings,
        Some(graph),
        subject,
        Seq::empty(),
        Seq::empty(),
        seq![
            FrameModel::PredicateListEnd,
            FrameModel::ObjectListEnd,
            FrameModel::Object,
            FrameModel::Verb,
        ],
        Seq::empty(),
    )
}

/// An IRI reference after the subject of a statement in a graph block is its verb.
pub proof fn lemma_verb_inside(
    settings: RecognizerModel,
    graph: TermModel,
    subject: TermModel,
    predicate: Seq<char>,
)
    requires
        keeps_iris(settings),
        is_absolute_iri(predicate),
    ensures
        after_subject(settings, graph, subject).recognize(
            word_token(TokenKind::IriRef, predicate),
        ) == (
            before_object(settings, Some(graph), subject, predicate, Seq::empty()),
            Ok::<Seq<QuadModel>, ParseErrorKind>(Seq::empty()),
        ),
{
    reveal(RecognizerModel::recognize);
    let state = after_subject(settings, graph, subject);
    let token = word_token(TokenKind::IriRef, predicate);
    let below = RecognizerModel { stack: state.stack.drop_last(), ..state };
    assert(state.stack.last() == FrameModel::Verb);
    let target = before_object(settings, Some(graph), subject, predicate, Seq::empty());
    assert(below.stack =~= target.stack);
    let next = below.frame_step(FrameModel::Verb, token).0;
    assert(next.predicates =~= target.predicates);
}

/// Tells that reading comes to this: after `count` bytes of the input the
/// recognizer holds `recognizer`, and `out` was handed out.
pub open spec fn reads(
    reader: ReaderModel,
    count: int,
    recognizer: RecognizerModel,
    out: Seq<Item>,
) -> bool {
    drain(reader) == (
        drain(past(reader, count, recognizer)).0,
        out + drain(past(reader, count, recognizer)).1,
    )
}

/// Taking up input in two steps comes to taking it up in one.
pub proof fn lemma_past_twice(
    reader: ReaderModel,
    first: int,
    between: RecognizerModel,
    second: int,
    recognizer: RecognizerModel,
)
    requires
        0 <= first,
        0 <= second,
        first + second <= reader.input.len(),
    ensures
        past(past(reader, first, between), second, recognizer) == past(
            reader,
            first + second,
            recognizer,
        ),
{
    let input = reader.input;
    assert(input.skip(first).skip(second) =~= input.skip(first + second));
    assert(input.take(first) + input.skip(first).take(second) =~= input.take(first + second));
    lemma_advance_in_two(reader.position, input.take(first), input.skip(first).take(second));
}

/// Reading that comes to one state, and from there to another, comes to the other.
pub proof fn lemma_reads_on(
    reader: ReaderModel,
    first: int,
    between: RecognizerModel,
    out: Seq<Item>,
    second: int,
    recognizer: RecognizerModel,
    more: Seq<Item>,
)
    requires
        0 <= first,
        0 <= second,
        first + second <= reader.input.len(),
        reads(reader, first, between, out),
        reads(past(reader, first, between), second, recognizer, more),
    ensures
        reads(reader, first + second, recognizer, out + more),
{
    lemma_past_twice(reader, first, between, second, recognizer);
    let last = drain(past(reader, first + second, recognizer)).1;
    assert(out + (more + last) =~= (out + more) + last);
}

/// Where the input is made of three parts, the part in the middle stands
/// after the first, and what follows it is the start of the last.
pub proof fn lemma_located_between(
    data: Seq<u8>,
    before: Seq<u8>,
    bytes: Seq<u8>,
    after: Seq<u8>,
)
    requires
        data == before + bytes + after,
    ensures
        located(data, before.len() as int, bytes),
        data.subrange(before.len() as int, before.len() as int + bytes.len()) == bytes,
        data.skip(before.len() as int + bytes.len()) == after,
        after.len() > 0 ==> data[before.len() as int + bytes.len()] == after[0],
        forall|i: int| 0 <= i < before.len() ==> data[i] == #[trigger] before[i],
        bytes.len() > 0 ==> data[before.len() as int] == bytes[0],
{
    assert(data.subrange(before.len() as int, before.len() as int + bytes.len()) =~= bytes);
    assert(data.skip(before.len() as int + bytes.len()) =~= after);
    assert forall|i: int| 0 <= i < bytes.len() implies data[before.len() + i]
        == #[trigger] bytes[i] by {}
}

/// No bytes are well-formed UTF-8, and encode no character.
pub proof fn lemma_no_text()
    ensures
        valid_utf8(Seq::<u8>::empty()),
        decode_utf8(Seq::<u8>::empty()) == Seq::<char>::empty(),
{
    encode_utf8_valid_utf8(Seq::<char>::empty());
    encode_utf8_decode_utf8(Seq::<char>::empty());
    assert(encode_utf8(Seq::<char>::empty()) =~= Seq::<u8>::empty());
}

/// One of `,`, `;`, `{`, `}` and, before a byte that is no digit, `.`, after
/// blanks, is taken up as the token that it is.
pub proof fn lemma_mark_is_read(reader: ReaderModel, blanks: int, kind: TokenKind)
    requires
        at_rest(reader),
        0 <= blanks,
        blanks + 1 < reader.input.len(),
        forall|i: int| 0 <= i < blanks ==> is_blank(#[trigger] reader.input[i]),
        single_mark(reader.input[blanks]) == Some(kind) || (reader.input[blanks] == DOT && kind
            == TokenKind::Dot && is_blank(reader.input[blanks + 1])),
        reader.recognizer.recognize(mark_token(kind)).1 is Ok,
    ensures
        reads(
            reader,
            blanks + 1,
            reader.recognizer.recognize(mark_token(kind)).0,
            quad_items(reader.recognizer.recognize(mark_token(kind)).1->Ok_0),
        ),
{
    lemma_no_text();
    let raw = RawTokenModel { kind, text: Seq::empty(), local: Seq::empty() };
    if blanks > 0 {
        assert(is_blank(reader.input[0]));
    }
    lemma_token_is_taken_up(reader, blanks, blanks + 1, raw, mark_token(kind));
}

/// The bytes that a named node is written as.
pub open spec fn iri_bytes(iri: Seq<char>) -> Seq<u8> {
    seq![LESS_THAN] + escaped_iri_bytes(encode_utf8(iri)) + seq![GREATER_THAN]
}

/// Tells whether an IRI is read as it is by a reader without a base: it is
/// an absolute IRI.
pub open spec fn is_plain_iri(iri: Seq<char>) -> bool {
    is_absolute_iri(iri)
}

/// A named node as it is written, after blanks, is taken up as an IRI reference.
pub proof fn lemma_iri_is_read(reader: ReaderModel, blanks: int, iri: Seq<char>)
    requires
        at_rest(reader),
        located(reader.input, blanks, iri_bytes(iri)),
        forall|i: int| 0 <= i < blanks ==> is_blank(#[trigger] reader.input[i]),
        is_plain_iri(iri),
        reader.recognizer.recognize(word_token(TokenKind::IriRef, iri)).1 is Ok,
    ensures
        reads(
            reader,
            blanks + iri_bytes(iri).len(),
            reader.recognizer.recognize(word_token(TokenKind::IriRef, iri)).0,
            quad_items(reader.recognizer.recognize(word_token(TokenKind::IriRef, iri)).1->Ok_0),
        ),
{
    lemma_no_text();
    let bytes = encode_utf8(iri);
    encode_utf8_valid_utf8(iri);
    encode_utf8_decode_utf8(iri);
    lemma_escaped_iri_is_read_back(reader.input, true, blanks, bytes);
    let raw = RawTokenModel { kind: TokenKind::IriRef, text: bytes, local: Seq::empty() };
    assert(iri_bytes(iri)[0] == LESS_THAN);
    assert(reader.input[blanks + 0] == iri_bytes(iri)[0]);
    if blanks > 0 {
        assert(is_blank(reader.input[0]));
    }
    lemma_token_is_taken_up(
        reader,
        blanks,
        blanks + escaped_iri_bytes(bytes).len() + 2,
        raw,
        word_token(TokenKind::IriRef, iri),
    );
}

/// The bytes that a blank node is written as.
pub open spec fn label_bytes(id: Seq<char>) -> Seq<u8> {
    seq![UNDERSCORE, COLON] + encode_utf8(id)
}

/// Tells whether the identifier of a blank node is written so that it is
/// read as a label: it is made of lower-case letters, digits and `_`, as
/// the identifiers are that a reader makes in a scope of such characters.
pub open spec fn is_plain_label(id: Seq<char>) -> bool {
    &&& encode_utf8(id).len() > 0
    &&& forall|i: int|
        0 <= i < encode_utf8(id).len() ==> is_label_byte(#[trigger] encode_utf8(id)[i])
}

/// Tells whether a term is a named node or a blank node that is read back.
pub open spec fn is_plain_node(term: TermModel) -> bool {
    match term {
        TermModel::Named(iri) => is_plain_iri(iri),
        TermModel::Blank(id) => is_plain_label(id),
        _ => false,
    }
}

/// The bytes that a named node or a blank node is written as.
pub open spec fn node_bytes(term: TermModel) -> Seq<u8> {
    match term {
        TermModel::Named(iri) => iri_bytes(iri),
        TermModel::Blank(id) => label_bytes(id),
        _ => Seq::empty(),
    }
}

/// The token that a named node or a blank node is read as.
pub open spec fn node_token(term: TermModel) -> TokenModel {
    match term {
        TermModel::Named(iri) => word_token(TokenKind::IriRef, iri),
        TermModel::Blank(id) => word_token(TokenKind::BlankNodeLabel, id),
        _ => mark_token(TokenKind::Unexpected),
    }
}

/// Tells whether a recognizer can make one more blank node.
pub open spec fn has_room(settings: RecognizerModel) -> bool {
    settings.counter < u64::MAX
}

/// The recognizer once it has heard of a term: the identifier of a blank
/// node that it did not know is bound to the number of a blank node of its
/// own. What it knew stays as it is.
pub open spec fn bound(settings: RecognizerModel, term: TermModel) -> RecognizerModel {
    match term {
        TermModel::Blank(id) => if lookup(settings.labels, id) is Some || !has_room(settings) {
            settings
        } else {
            RecognizerModel {
                labels: settings.labels.push((id, settings.counter)),
                counter: (settings.counter + 1) as u64,
                ..settings
            }
        },
        _ => settings,
    }
}

/// The term that a recognizer takes a term for: a blank node becomes the
/// blank node of the recognizer's own scope that its identifier is bound to,
/// or will be bound to when it is heard of first; any other term is taken
/// as it is.
pub open spec fn renamed(settings: RecognizerModel, term: TermModel) -> TermModel {
    match term {
        TermModel::Blank(id) => match lookup(settings.labels, id) {
            Some(n) => TermModel::Blank(blank_id(settings.scope, n as nat)),
            None => TermModel::Blank(blank_id(settings.scope, settings.counter as nat)),
        },
        _ => term,
    }
}

/// A named node or a blank node is taken for what it is renamed to.
pub proof fn lemma_node_is_heard(state: RecognizerModel, term: TermModel)
    requires
        keeps_iris(state),
        is_plain_node(term),
        has_room(state),
    ensures
        state.node(node_token(term)) == (
            RecognizerModel {
                labels: bound(state, term).labels,
                counter: bound(state, term).counter,
                ..state
            },
            Read::<TermModel>::Value(renamed(state, term)),
        ),
{
}

/// A named node or a blank node where an object is expected is the object.
pub proof fn lemma_object_node(
    settings: RecognizerModel,
    graph: Option<TermModel>,
    subject: TermModel,
    predicate: Seq<char>,
    pending: Seq<QuadModel>,
    term: TermModel,
)
    requires
        keeps_iris(settings),
        is_plain_node(term),
        has_room(settings),
    ensures
        before_object(settings, graph, subject, predicate, pending).recognize(node_token(term))
            == (
            after_object(
                bound(settings, term),
                graph,
                subject,
                predicate,
                pending,
                renamed(settings, term),
            ),
            Ok::<Seq<QuadModel>, ParseErrorKind>(Seq::empty()),
        ),
{
    reveal(RecognizerModel::recognize);
    let state = before_object(settings, graph, subject, predicate, pending);
    let token = node_token(term);
    let below = RecognizerModel { stack: state.stack.drop_last(), ..state };
    assert(state.stack.last() == FrameModel::Object);
    assert(below.stack =~= seq![
        statement_end(graph),
        FrameModel::PredicateListEnd,
        FrameModel::ObjectListEnd,
    ]);
    lemma_node_is_heard(below, term);
    let next = below.frame_step(FrameModel::Object, token).0;
    let target = after_object(
        bound(settings, term),
        graph,
        subject,
        predicate,
        pending,
        renamed(settings, term),
    );
    assert(next.objects =~= target.objects);
    assert(target.stack =~= below.stack);
}

/// A named node or a blank node between statements is the name of a graph
/// or a subject.
pub proof fn lemma_node_outside(settings: RecognizerModel, term: TermModel)
    requires
        keeps_iris(settings),
        is_plain_node(term),
        has_room(settings),
    ensures
        outside(settings).recognize(node_token(term)) == (
            after_name(bound(settings, term), renamed(settings, term)),
            Ok::<Seq<QuadModel>, ParseErrorKind>(Seq::empty()),
        ),
{
    reveal(RecognizerModel::recognize);
    let state = outside(settings);
    let token = node_token(term);
    lemma_node_is_heard(state, term);
    let next = state.document(token).0;
    assert(next.stack =~= after_name(bound(settings, term), renamed(settings, term)).stack);
}

/// A named node or a blank node between the statements of a graph block is
/// a subject.
pub proof fn lemma_node_inside(settings: RecognizerModel, graph: TermModel, term: TermModel)
    requires
        keeps_iris(settings),
        is_plain_node(term),
        has_room(settings),
    ensures
        inside(settings, graph).recognize(node_token(term)) == (
            after_subject(bound(settings, term), graph, renamed(settings, term)),
            Ok::<Seq<QuadModel>, ParseErrorKind>(Seq::empty()),
        ),
{
    reveal(RecognizerModel::recognize);
    let state = inside(settings, graph);
    let token = node_token(term);
    let below = RecognizerModel { stack: state.stack.drop_last(), ..state };
    assert(state.stack.last() == FrameModel::GraphBody);
    assert(below.stack =~= Seq::<FrameModel>::empty());
    lemma_node_is_heard(below.push(FrameModel::GraphBodyEnd), term);
    let next = below.frame_step(FrameModel::GraphBody, token).0;
    let target = after_subject(bound(settings, term), graph, renamed(settings, term));
    assert(next.stack =~= target.stack);
    assert(next.subjects =~= target.subjects);
}

/// A named node or a blank node as it is written, after blanks and before a
/// blank, is taken up as the token that it is.
pub proof fn lemma_node_is_read(reader: ReaderModel, blanks: int, term: TermModel)
    requires
        at_rest(reader),
        located(reader.input, blanks, node_bytes(term)),
        forall|i: int| 0 <= i < blanks ==> is_blank(#[trigger] reader.input[i]),
        is_plain_node(term),
        blanks + node_bytes(term).len() < reader.input.len(),
        is_blank(reader.input[blanks + node_bytes(term).len()]),
        reader.recognizer.recognize(node_token(term)).1 is Ok,
    ensures
        reads(
            reader,
            blanks + node_bytes(term).len(),
            reader.recognizer.recognize(node_token(term)).0,
            quad_items(reader.recognizer.recognize(node_token(term)).1->Ok_0),
        ),
{
    match term {
        TermModel::Named(iri) => {
            lemma_iri_is_read(reader, blanks, iri);
        },
        TermModel::Blank(id) => {
            lemma_no_text();
            let bytes = encode_utf8(id);
            encode_utf8_valid_utf8(id);
            encode_utf8_decode_utf8(id);
            lemma_label_is_read_back(reader.input, true, blanks, bytes);
            let raw = RawTokenModel {
                kind: TokenKind::BlankNodeLabel,
                text: bytes,
                local: Seq::empty(),
            };
            assert(label_bytes(id)[0] == UNDERSCORE);
            assert(reader.input[blanks + 0] == label_bytes(id)[0]);
            if blanks > 0 {
                assert(is_blank(reader.input[0]));
            }
            lemma_token_is_taken_up(
                reader,
                blanks,
                blanks + bytes.len() + 2,
                raw,
                word_token(TokenKind::BlankNodeLabel, id),
            );
        },
        _ => {},
    }
}

/// A named node or a blank node as it is written, after blanks and before a
/// space, is read as what the recognizer takes its token for.
pub proof fn lemma_written_node_is_read(
    reader: ReaderModel,
    blanks: Seq<u8>,
    term: TermModel,
    rest: Seq<u8>,
    next: RecognizerModel,
)
    requires
        at_rest(reader),
        reader.input == blanks + node_bytes(term) + rest,
        are_blanks(blanks),
        is_plain_node(term),
        rest.len() > 0,
        rest[0] == SPACE,
        reader.recognizer.recognize(node_token(term)) == (
            next,
            Ok::<Seq<QuadModel>, ParseErrorKind>(Seq::empty()),
        ),
    ensures
        reads(reader, (blanks.len() + node_bytes(term).len()) as int, next, Seq::empty()),
        past(reader, (blanks.len() + node_bytes(term).len()) as int, next).input == rest,
{
    lemma_nothing_is_released();
    lemma_located_between(reader.input, blanks, node_bytes(term), rest);
    assert forall|i: int| 0 <= i < blanks.len() implies is_blank(#[trigger] reader.input[i]) by {
        assert(reader.input[i] == blanks[i]);
    }
    lemma_node_is_read(reader, blanks.len() as int, term);
}

/// The bytes that a lexical form is written as between quotes.
pub open spec fn quoted_bytes(value: Seq<char>) -> Seq<u8> {
    seq![DOUBLE_QUOTE] + encode_utf8(escaped_text(value)) + seq![DOUBLE_QUOTE]
}

/// A lexical form as it is written between quotes, after blanks and before a
/// byte that ends a token, is taken up as a string.
pub proof fn lemma_text_is_read(reader: ReaderModel, blanks: int, value: Seq<char>)
    requires
        at_rest(reader),
        located(reader.input, blanks, quoted_bytes(value)),
        blanks + quoted_bytes(value).len() < reader.input.len(),
        ends_a_token(reader.input[blanks + quoted_bytes(value).len()]),
        forall|i: int| 0 <= i < blanks ==> is_blank(#[trigger] reader.input[i]),
        reader.recognizer.recognize(word_token(TokenKind::Text, value)).1 is Ok,
    ensures
        reads(
            reader,
            blanks + quoted_bytes(value).len(),
            reader.recognizer.recognize(word_token(TokenKind::Text, value)).0,
            quad_items(reader.recognizer.recognize(word_token(TokenKind::Text, value)).1->Ok_0),
        ),
{
    lemma_no_text();
    let bytes = encode_utf8(value);
    encode_utf8_valid_utf8(value);
    encode_utf8_decode_utf8(value);
    lemma_quoted_text_is_read_back(reader.input, true, blanks, value);
    let raw = RawTokenModel { kind: TokenKind::Text, text: bytes, local: Seq::empty() };
    assert(quoted_bytes(value)[0] == DOUBLE_QUOTE);
    assert(reader.input[blanks + 0] == quoted_bytes(value)[0]);
    if blanks > 0 {
        assert(is_blank(reader.input[0]));
    }
    lemma_token_is_taken_up(
        reader,
        blanks,
        blanks + quoted_bytes(value).len(),
        raw,
        word_token(TokenKind::Text, value),
    );
}

/// A language tag as it is written, before a blank, is taken up as a language tag.
pub proof fn lemma_tag_is_read(reader: ReaderModel, tag: Seq<char>)
    requires
        at_rest(reader),
        located(reader.input, 0, seq![AT] + encode_utf8(tag)),
        encode_utf8(tag).len() + 1 < reader.input.len(),
        is_blank(reader.input[encode_utf8(tag).len() as int + 1]),
        is_language_tag(encode_utf8(tag)),
        reader.recognizer.recognize(word_token(TokenKind::LangTag, tag)).1 is Ok,
    ensures
        reads(
            reader,
            encode_utf8(tag).len() as int + 1,
            reader.recognizer.recognize(word_token(TokenKind::LangTag, tag)).0,
            quad_items(reader.recognizer.recognize(word_token(TokenKind::LangTag, tag)).1->Ok_0),
        ),
{
    lemma_no_text();
    let bytes = encode_utf8(tag);
    encode_utf8_valid_utf8(tag);
    encode_utf8_decode_utf8(tag);
    lemma_language_tag_is_read_back(reader.input, true, 0, bytes);
    let raw = RawTokenModel { kind: TokenKind::LangTag, text: bytes, local: Seq::empty() };
    assert((seq![AT] + bytes)[0] == AT);
    assert(reader.input[0int + 0] == (seq![AT] + bytes)[0]);
    lemma_token_is_taken_up(
        reader,
        0,
        bytes.len() as int + 1,
        raw,
        word_token(TokenKind::LangTag, tag),
    );
}

/// `^^` is taken up as the token that it is.
pub proof fn lemma_carets_is_read(reader: ReaderModel)
    requires
        at_rest(reader),
        reader.input.len() > 2,
        reader.input[0] == CARET,
        reader.input[1] == CARET,
        reader.recognizer.recognize(mark_token(TokenKind::Carets)).1 is Ok,
    ensures
        reads(
            reader,
            2,
            reader.recognizer.recognize(mark_token(TokenKind::Carets)).0,
            quad_items(reader.recognizer.recognize(mark_token(TokenKind::Carets)).1->Ok_0),
        ),
{
    lemma_no_text();
    let raw = RawTokenModel { kind: TokenKind::Carets, text: Seq::empty(), local: Seq::empty() };
    lemma_token_is_taken_up(reader, 0, 2, raw, mark_token(TokenKind::Carets));
}

/// A literal that is written bare, after blanks and before a blank, is taken
/// up as the token of its kind.
pub proof fn lemma_bare_is_read(
    reader: ReaderModel,
    blanks: int,
    value: Seq<char>,
    datatype: Seq<char>,
)
    requires
        at_rest(reader),
        can_be_inlined(LiteralModel::Typed { value, datatype }),
        0 <= blanks,
        blanks + encode_utf8(value).len() < reader.input.len(),
        reader.input.subrange(blanks, blanks + encode_utf8(value).len()) == encode_utf8(value),
        is_blank(reader.input[blanks + encode_utf8(value).len()]),
        forall|i: int| 0 <= i < blanks ==> is_blank(#[trigger] reader.input[i]),
        reader.recognizer.recognize(word_token(bare_kind(datatype), value)).1 is Ok,
    ensures
        reads(
            reader,
            blanks + encode_utf8(value).len(),
            reader.recognizer.recognize(word_token(bare_kind(datatype), value)).0,
            quad_items(
                reader.recognizer.recognize(word_token(bare_kind(datatype), value)).1->Ok_0,
            ),
        ),
{
    lemma_no_text();
    let bytes = encode_utf8(value);
    encode_utf8_valid_utf8(value);
    encode_utf8_decode_utf8(value);
    lemma_bare_literal_is_read_in_place(reader.input, blanks, value, datatype);
    let raw = RawTokenModel { kind: bare_kind(datatype), text: bytes, local: Seq::empty() };
    if blanks > 0 {
        assert(is_blank(reader.input[0]));
    }
    lemma_token_is_taken_up(
        reader,
        blanks,
        blanks + bytes.len(),
        raw,
        word_token(bare_kind(datatype), value),
    );
}

/// Tells whether an object is written so that it is read back: a named node
/// with a plain IRI, a blank node with a plain label, or a literal whose
/// language tag is well-formed and in lower case or whose datatype is a
/// plain IRI other than `xsd:string`.
pub open spec fn is_plain_object(object: TermModel) -> bool {
    match object {
        TermModel::Named(iri) => is_plain_iri(iri),
        TermModel::Blank(id) => is_plain_label(id),
        TermModel::Literal(LiteralModel::Simple { .. }) => true,
        TermModel::Literal(LiteralModel::LanguageTagged { language, .. }) => is_plain_tag(
            encode_utf8(language),
        ),
        TermModel::Literal(LiteralModel::Typed { value, datatype }) => can_be_inlined(
            LiteralModel::Typed { value, datatype },
        ) || (is_plain_iri(datatype) && datatype != xsd_string()),
        _ => false,
    }
}

/// Tells whether a graph name is written so that it is read back: the
/// default graph, or a named node or blank node that is.
pub open spec fn is_plain_graph(graph: Option<TermModel>) -> bool {
    match graph {
        None => true,
        Some(name) => is_plain_node(name),
    }
}

/// Tells whether a quad is written so that it is read back: it holds no
/// quoted triple, its IRIs are absolute, its blank nodes have plain labels,
/// and its object is plain.
pub open spec fn is_plain_quad(quad: QuadModel) -> bool {
    &&& is_plain_node(quad.subject)
    &&& is_plain_iri(quad.predicate)
    &&& is_plain_object(quad.object)
    &&& is_plain_graph(quad.graph_name)
}

/// The recognizer after the tokens of an object: a string alone still waits
/// for what follows it.
pub open spec fn object_read(
    settings: RecognizerModel,
    graph: Option<TermModel>,
    subject: TermModel,
    predicate: Seq<char>,
    pending: Seq<QuadModel>,
    object: TermModel,
) -> RecognizerModel {
    match object {
        TermModel::Literal(LiteralModel::Simple { value }) => after_text(
            settings,
            graph,
            subject,
            predicate,
            pending,
            FrameModel::LiteralSuffix { value },
        ),
        _ => after_object(settings, graph, subject, predicate, pending, object),
    }
}

/// After the tokens of an object, `,`, `;` and `.` do what they do after the object.
pub proof fn lemma_object_is_over(
    settings: RecognizerModel,
    graph: Option<TermModel>,
    subject: TermModel,
    predicate: Seq<char>,
    pending: Seq<QuadModel>,
    object: TermModel,
    kind: TokenKind,
)
    requires
        kind == TokenKind::Comma || kind == TokenKind::Semicolon || kind == TokenKind::Dot,
    ensures
        object_read(settings, graph, subject, predicate, pending, object).recognize(
            mark_token(kind),
        ) == after_object(settings, graph, subject, predicate, pending, object).recognize(
            mark_token(kind),
        ),
{
    match object {
        TermModel::Literal(LiteralModel::Simple { value }) => {
            lemma_text_ends(settings, graph, subject, predicate, pending, value, mark_token(kind));
        },
        _ => {},
    }
}

/// The encoding of ASCII characters is the characters as bytes.
pub proof fn lemma_encode_ascii(text: Seq<char>, bytes: Seq<u8>)
    requires
        text.len() == bytes.len(),
        forall|i: int|
            0 <= i < text.len() ==> '\0' <= #[trigger] text[i] <= '\u{7f}' && text[i] as u8
                == bytes[i],
    ensures
        encode_utf8(text) == bytes,
{
    assert(vstd::utf8::is_ascii_chars(text));
    vstd::utf8::is_ascii_chars_encode_utf8(text);
    assert(encode_utf8(text) =~= bytes);
}

/// The bytes of a named node as it is written.
pub proof fn lemma_named_node_bytes(iri: Seq<char>)
    ensures
        encode_utf8(named_node_text(iri)) == iri_bytes(iri),
{
    lemma_escaped_iri_bytes(iri);
    lemma_encode_in_two(seq!['<'] + escaped_iri(iri), seq!['>']);
    lemma_encode_in_two(seq!['<'], escaped_iri(iri));
    lemma_encode_ascii(seq!['<'], seq![LESS_THAN]);
    lemma_encode_ascii(seq!['>'], seq![GREATER_THAN]);
}

/// The bytes of a lexical form as it is written between quotes.
pub proof fn lemma_quoted_bytes(value: Seq<char>)
    ensures
        encode_utf8(quoted(value)) == quoted_bytes(value),
{
    lemma_encode_in_two(seq!['"'] + escaped_text(value), seq!['"']);
    lemma_encode_in_two(seq!['"'], escaped_text(value));
    lemma_encode_ascii(seq!['"'], seq![DOUBLE_QUOTE]);
}

/// The bytes that an object is written as.
pub open spec fn object_bytes(object: TermModel) -> Seq<u8> {
    match object {
        TermModel::Named(iri) => iri_bytes(iri),
        TermModel::Blank(id) => label_bytes(id),
        TermModel::Literal(literal) => if can_be_inlined(literal) {
            encode_utf8(literal.value())
        } else {
            match literal {
                LiteralModel::Simple { value } => quoted_bytes(value),
                LiteralModel::LanguageTagged { value, language } => quoted_bytes(value) + seq![AT]
                    + encode_utf8(language),
                LiteralModel::Typed { value, datatype } => quoted_bytes(value) + seq![CARET, CARET]
                    + iri_bytes(datatype),
            }
        },
        _ => encode_utf8(term_text(object)),
    }
}

/// The bytes of a named node or a blank node as it is written.
pub proof fn lemma_node_bytes(term: TermModel)
    requires
        is_plain_node(term),
    ensures
        encode_utf8(term_text(term)) == node_bytes(term),
{
    match term {
        TermModel::Named(iri) => {
            lemma_named_node_bytes(iri);
        },
        TermModel::Blank(id) => {
            lemma_encode_in_two(seq!['_', ':'], id);
            lemma_encode_ascii(seq!['_', ':'], seq![UNDERSCORE, COLON]);
        },
        _ => {},
    }
}

/// The bytes of an object as it is written.
pub proof fn lemma_object_bytes(object: TermModel)
    requires
        is_plain_object(object),
    ensures
        encode_utf8(term_text(object)) == object_bytes(object),
{
    match object {
        TermModel::Named(iri) => {
            lemma_named_node_bytes(iri);
        },
        TermModel::Blank(id) => {
            lemma_node_bytes(object);
        },
        TermModel::Literal(literal) => {
            if !can_be_inlined(literal) {
                match literal {
                    LiteralModel::Simple { value } => {
                        lemma_quoted_bytes(value);
                    },
                    LiteralModel::LanguageTagged { value, language } => {
                        lemma_quoted_bytes(value);
                        lemma_encode_in_two(quoted(value) + seq!['@'], language);
                        lemma_encode_in_two(quoted(value), seq!['@']);
                        lemma_encode_ascii(seq!['@'], seq![AT]);
                    },
                    LiteralModel::Typed { value, datatype } => {
                        lemma_quoted_bytes(value);
                        lemma_named_node_bytes(datatype);
                        lemma_encode_in_two(
                            quoted(value) + seq!['^', '^'],
                            named_node_text(datatype),
                        );
                        lemma_encode_in_two(quoted(value), seq!['^', '^']);
                        lemma_encode_ascii(seq!['^', '^'], seq![CARET, CARET]);
                    },
                }
            }
        },
        _ => {},
    }
}

/// Tells that a reader stands before an object as it is written: after a
/// space, and before a space.
pub open spec fn before_written_object(
    reader: ReaderModel,
    settings: RecognizerModel,
    graph: Option<TermModel>,
    subject: TermModel,
    predicate: Seq<char>,
    pending: Seq<QuadModel>,
    object: TermModel,
    rest: Seq<u8>,
) -> bool {
    &&& at_rest(reader)
    &&& keeps_iris(settings)
    &&& reader.recognizer == before_object(settings, graph, subject, predicate, pending)
    &&& reader.input == seq![SPACE] + object_bytes(object) + rest
    &&& rest.len() > 0
    &&& rest[0] == SPACE
    &&& is_plain_object(object)
}

/// A space before an object as it is written is a blank, and the object stands after it.
proof fn lemma_written_object_is_located(reader: ReaderModel, bytes: Seq<u8>, rest: Seq<u8>)
    requires
        reader.input == seq![SPACE] + bytes + rest,
        rest.len() > 0,
    ensures
        located(reader.input, 1, bytes),
        reader.input.subrange(1, 1 + bytes.len() as int) == bytes,
        reader.input[1 + bytes.len() as int] == rest[0],
        forall|i: int| 0 <= i < 1 ==> is_blank(#[trigger] reader.input[i]),
        past(reader, 1 + bytes.len() as int, reader.recognizer).input == rest,
{
    let blanks = seq![SPACE];
    lemma_located_between(reader.input, blanks, bytes, rest);
    assert forall|i: int| 0 <= i < 1 implies is_blank(#[trigger] reader.input[i]) by {
        assert(reader.input[i] == blanks[i]);
    }
}

/// Nothing is handed out where no quad is released.
proof fn lemma_nothing_is_released()
    ensures
        quad_items(Seq::<QuadModel>::empty()) == Seq::<Item>::empty(),
        Seq::<Item>::empty() + Seq::<Item>::empty() == Seq::<Item>::empty(),
{
    assert(quad_items(Seq::<QuadModel>::empty()) =~= Seq::<Item>::empty());
    assert(Seq::<Item>::empty() + Seq::<Item>::empty() =~= Seq::<Item>::empty());
}

proof fn lemma_named_object_is_read(
    reader: ReaderModel,
    settings: RecognizerModel,
    graph: Option<TermModel>,
    subject: TermModel,
    predicate: Seq<char>,
    pending: Seq<QuadModel>,
    iri: Seq<char>,
    rest: Seq<u8>,
)
    requires
        before_written_object(
            reader,
            settings,
            graph,
            subject,
            predicate,
            pending,
            TermModel::Named(iri),
            rest,
        ),
    ensures
        reads(
            reader,
            1 + iri_bytes(iri).len() as int,
            after_object(settings, graph, subject, predicate, pending, TermModel::Named(iri)),
            Seq::empty(),
        ),
{
    lemma_nothing_is_released();
    lemma_written_object_is_located(reader, iri_bytes(iri), rest);
    lemma_object_iri(settings, graph, subject, predicate, pending, iri);
    lemma_iri_is_read(reader, 1, iri);
}

proof fn lemma_bare_object_is_read(
    reader: ReaderModel,
    settings: RecognizerModel,
    graph: Option<TermModel>,
    subject: TermModel,
    predicate: Seq<char>,
    pending: Seq<QuadModel>,
    value: Seq<char>,
    datatype: Seq<char>,
    rest: Seq<u8>,
)
    requires
        can_be_inlined(LiteralModel::Typed { value, datatype }),
        before_written_object(
            reader,
            settings,
            graph,
            subject,
            predicate,
            pending,
            TermModel::Literal(LiteralModel::Typed { value, datatype }),
            rest,
        ),
    ensures
        reads(
            reader,
            1 + encode_utf8(value).len() as int,
            after_object(
                settings,
                graph,
                subject,
                predicate,
                pending,
                TermModel::Literal(LiteralModel::Typed { value, datatype }),
            ),
            Seq::empty(),
        ),
{
    lemma_nothing_is_released();
    let literal = LiteralModel::Typed { value, datatype };
    lemma_written_object_is_located(reader, encode_utf8(value), rest);
    lemma_bare_token_is_the_literal(value, datatype);
    lemma_object_bare(
        settings,
        graph,
        subject,
        predicate,
        pending,
        word_token(bare_kind(datatype), value),
        literal,
    );
    lemma_bare_is_read(reader, 1, value, datatype);
}

/// The lexical form of a literal as it is written between quotes, after a
/// space and before a byte that ends a token, is read as a string.
proof fn lemma_lexical_form_is_read(
    reader: ReaderModel,
    settings: RecognizerModel,
    graph: Option<TermModel>,
    subject: TermModel,
    predicate: Seq<char>,
    pending: Seq<QuadModel>,
    value: Seq<char>,
    rest: Seq<u8>,
)
    requires
        at_rest(reader),
        reader.recognizer == before_object(settings, graph, subject, predicate, pending),
        reader.input == seq![SPACE] + quoted_bytes(value) + rest,
        rest.len() > 0,
        ends_a_token(rest[0]),
    ensures
        reads(
            reader,
            1 + quoted_bytes(value).len() as int,
            after_text(
                settings,
                graph,
                subject,
                predicate,
                pending,
                FrameModel::LiteralSuffix { value },
            ),
            Seq::empty(),
        ),
        past(
            reader,
            1 + quoted_bytes(value).len() as int,
            after_text(
                settings,
                graph,
                subject,
                predicate,
                pending,
                FrameModel::LiteralSuffix { value },
            ),
        ).input == rest,
{
    lemma_nothing_is_released();
    lemma_written_object_is_located(reader, quoted_bytes(value), rest);
    lemma_object_text(settings, graph, subject, predicate, pending, value);
    lemma_text_is_read(reader, 1, value);
}

/// A language tag as it is written after a lexical form, before a space, is
/// read as the language tag of the literal.
#[verifier::rlimit(50)]
proof fn lemma_written_tag_is_read(
    reader: ReaderModel,
    settings: RecognizerModel,
    graph: Option<TermModel>,
    subject: TermModel,
    predicate: Seq<char>,
    pending: Seq<QuadModel>,
    value: Seq<char>,
    language: Seq<char>,
    rest: Seq<u8>,
)
    requires
        at_rest(reader),
        reader.recognizer == after_text(
            settings,
            graph,
            subject,
            predicate,
            pending,
            FrameModel::LiteralSuffix { value },
        ),
        reader.input == seq![AT] + encode_utf8(language) + rest,
        rest.len() > 0,
        rest[0] == SPACE,
        is_plain_tag(encode_utf8(language)),
    ensures
        reads(
            reader,
            1 + encode_utf8(language).len() as int,
            after_object(
                settings,
                graph,
                subject,
                predicate,
                pending,
                TermModel::Literal(LiteralModel::LanguageTagged { value, language }),
            ),
            Seq::empty(),
        ),
{
    lemma_nothing_is_released();
    let tag = seq![AT] + encode_utf8(language);
    assert(Seq::<u8>::empty() + tag + rest =~= reader.input);
    lemma_located_between(reader.input, Seq::empty(), tag, rest);
    lemma_plain_tag_is_kept(language);
    lemma_text_tag(settings, graph, subject, predicate, pending, value, language);
    lemma_tag_is_read(reader, language);
}

/// `^^` and a datatype as they are written after a lexical form are read as
/// the datatype of the literal.
#[verifier::rlimit(50)]
proof fn lemma_written_datatype_is_read(
    reader: ReaderModel,
    settings: RecognizerModel,
    graph: Option<TermModel>,
    subject: TermModel,
    predicate: Seq<char>,
    pending: Seq<QuadModel>,
    value: Seq<char>,
    datatype: Seq<char>,
    rest: Seq<u8>,
)
    requires
        at_rest(reader),
        keeps_iris(settings),
        reader.recognizer == after_text(
            settings,
            graph,
            subject,
            predicate,
            pending,
            FrameModel::LiteralSuffix { value },
        ),
        reader.input == seq![CARET, CARET] + iri_bytes(datatype) + rest,
        rest.len() > 0,
        is_plain_iri(datatype),
        datatype != xsd_string(),
    ensures
        reads(
            reader,
            2 + iri_bytes(datatype).len() as int,
            after_object(
                settings,
                graph,
                subject,
                predicate,
                pending,
                TermModel::Literal(LiteralModel::Typed { value, datatype }),
            ),
            Seq::empty(),
        ),
{
    lemma_nothing_is_released();
    let name = iri_bytes(datatype);
    assert(reader.input[0] == CARET);
    assert(reader.input[1] == CARET);
    lemma_text_carets(settings, graph, subject, predicate, pending, value);
    lemma_carets_is_read(reader);
    let typing = after_text(
        settings,
        graph,
        subject,
        predicate,
        pending,
        FrameModel::LiteralDatatype { value },
    );
    let last = past(reader, 2, typing);
    assert(last.input =~= name + rest);
    assert(Seq::<u8>::empty() + name + rest =~= name + rest);
    lemma_located_between(last.input, Seq::empty(), name, rest);
    lemma_datatype_iri(settings, graph, subject, predicate, pending, value, datatype);
    lemma_iri_is_read(last, 0, datatype);
    let done = after_object(
        settings,
        graph,
        subject,
        predicate,
        pending,
        TermModel::Literal(LiteralModel::Typed { value, datatype }),
    );
    lemma_reads_on(reader, 2, typing, Seq::empty(), name.len() as int, done, Seq::empty());
}

#[verifier::rlimit(50)]

proof fn lemma_tagged_object_is_read(
    reader: ReaderModel,
    settings: RecognizerModel,
    graph: Option<TermModel>,
    subject: TermModel,
    predicate: Seq<char>,
    pending: Seq<QuadModel>,
    value: Seq<char>,
    language: Seq<char>,
    rest: Seq<u8>,
)
    requires
        before_written_object(
            reader,
            settings,
            graph,
            subject,
            predicate,
            pending,
            TermModel::Literal(LiteralModel::LanguageTagged { value, language }),
            rest,
        ),
    ensures
        reads(
            reader,
            1 + object_bytes(
                TermModel::Literal(LiteralModel::LanguageTagged { value, language }),
            ).len() as int,
            after_object(
                settings,
                graph,
                subject,
                predicate,
                pending,
                TermModel::Literal(LiteralModel::LanguageTagged { value, language }),
            ),
            Seq::empty(),
        ),
{
    lemma_nothing_is_released();
    let object = TermModel::Literal(LiteralModel::LanguageTagged { value, language });
    let quoted = quoted_bytes(value);
    let tag = seq![AT] + encode_utf8(language);
    assert(reader.input =~= seq![SPACE] + quoted + (tag + rest));
    assert((tag + rest)[0] == AT);
    lemma_lexical_form_is_read(
        reader,
        settings,
        graph,
        subject,
        predicate,
        pending,
        value,
        tag + rest,
    );
    let started = after_text(
        settings,
        graph,
        subject,
        predicate,
        pending,
        FrameModel::LiteralSuffix { value },
    );
    let next = past(reader, 1 + quoted.len() as int, started);
    assert(next.input =~= seq![AT] + encode_utf8(language) + rest);
    lemma_written_tag_is_read(
        next,
        settings,
        graph,
        subject,
        predicate,
        pending,
        value,
        language,
        rest,
    );
    lemma_reads_on(
        reader,
        1 + quoted.len() as int,
        started,
        Seq::empty(),
        tag.len() as int,
        after_object(settings, graph, subject, predicate, pending, object),
        Seq::empty(),
    );
}

#[verifier::rlimit(50)]

proof fn lemma_typed_object_is_read(
    reader: ReaderModel,
    settings: RecognizerModel,
    graph: Option<TermModel>,
    subject: TermModel,
    predicate: Seq<char>,
    pending: Seq<QuadModel>,
    value: Seq<char>,
    datatype: Seq<char>,
    rest: Seq<u8>,
)
    requires
        !can_be_inlined(LiteralModel::Typed { value, datatype }),
        before_written_object(
            reader,
            settings,
            graph,
            subject,
            predicate,
            pending,
            TermModel::Literal(LiteralModel::Typed { value, datatype }),
            rest,
        ),
    ensures
        reads(
            reader,
            1 + object_bytes(
                TermModel::Literal(LiteralModel::Typed { value, datatype }),
            ).len() as int,
            after_object(
                settings,
                graph,
                subject,
                predicate,
                pending,
                TermModel::Literal(LiteralModel::Typed { value, datatype }),
            ),
            Seq::empty(),
        ),
{
    lemma_nothing_is_released();
    let object = TermModel::Literal(LiteralModel::Typed { value, datatype });
    let quoted = quoted_bytes(value);
    let carets = seq![CARET, CARET];
    let name = iri_bytes(datatype);
    assert(reader.input =~= seq![SPACE] + quoted + (carets + name + rest));
    assert((carets + name + rest)[0] == CARET);
    lemma_lexical_form_is_read(
        reader,
        settings,
        graph,
        subject,
        predicate,
        pending,
        value,
        carets + name + rest,
    );
    let started = after_text(
        settings,
        graph,
        subject,
        predicate,
        pending,
        FrameModel::LiteralSuffix { value },
    );
    let next = past(reader, 1 + quoted.len() as int, started);
    lemma_written_datatype_is_read(
        next,
        settings,
        graph,
        subject,
        predicate,
        pending,
        value,
        datatype,
        rest,
    );
    lemma_reads_on(
        reader,
        1 + quoted.len() as int,
        started,
        Seq::empty(),
        2 + name.len() as int,
        after_object(settings, graph, subject, predicate, pending, object),
        Seq::empty(),
    );
}

proof fn lemma_blank_object_is_read(
    reader: ReaderModel,
    settings: RecognizerModel,
    graph: Option<TermModel>,
    subject: TermModel,
    predicate: Seq<char>,
    pending: Seq<QuadModel>,
    id: Seq<char>,
    rest: Seq<u8>,
)
    requires
        has_room(settings),
        before_written_object(
            reader,
            settings,
            graph,
            subject,
            predicate,
            pending,
            TermModel::Blank(id),
            rest,
        ),
    ensures
        reads(
            reader,
            1 + label_bytes(id).len() as int,
            after_object(
                bound(settings, TermModel::Blank(id)),
                graph,
                subject,
                predicate,
                pending,
                renamed(settings, TermModel::Blank(id)),
            ),
            Seq::empty(),
        ),
{
    let term = TermModel::Blank(id);
    assert(are_blanks(seq![SPACE]));
    lemma_object_node(settings, graph, subject, predicate, pending, term);
    lemma_written_node_is_read(
        reader,
        seq![SPACE],
        term,
        rest,
        after_object(
            bound(settings, term),
            graph,
            subject,
            predicate,
            pending,
            renamed(settings, term),
        ),
    );
}

/// An object as it is written, after a space and before a space, is read as
/// the object that was written, a blank node as the blank node that the
/// recognizer takes it for.
pub proof fn lemma_object_is_read(
    reader: ReaderModel,
    settings: RecognizerModel,
    graph: Option<TermModel>,
    subject: TermModel,
    predicate: Seq<char>,
    pending: Seq<QuadModel>,
    object: TermModel,
    rest: Seq<u8>,
)
    requires
        has_room(settings),
        before_written_object(reader, settings, graph, subject, predicate, pending, object, rest),
    ensures
        reads(
            reader,
            1 + object_bytes(object).len() as int,
            object_read(
                bound(settings, object),
                graph,
                subject,
                predicate,
                pending,
                renamed(settings, object),
            ),
            Seq::empty(),
        ),
{
    match object {
        TermModel::Named(iri) => {
            lemma_named_object_is_read(
                reader,
                settings,
                graph,
                subject,
                predicate,
                pending,
                iri,
                rest,
            );
        },
        TermModel::Blank(id) => {
            lemma_blank_object_is_read(
                reader,
                settings,
                graph,
                subject,
                predicate,
                pending,
                id,
                rest,
            );
        },
        TermModel::Literal(literal) => {
            match literal {
                LiteralModel::Simple { value } => {
                    lemma_lexical_form_is_read(
                        reader,
                        settings,
                        graph,
                        subject,
                        predicate,
                        pending,
                        value,
                        rest,
                    );
                },
                LiteralModel::LanguageTagged { value, language } => {
                    lemma_tagged_object_is_read(
                        reader,
                        settings,
                        graph,
                        subject,
                        predicate,
                        pending,
                        value,
                        language,
                        rest,
                    );
                },
                LiteralModel::Typed { value, datatype } => {
                    if can_be_inlined(literal) {
                        lemma_bare_object_is_read(
                            reader,
                            settings,
                            graph,
                            subject,
                            predicate,
                            pending,
                            value,
                            datatype,
                            rest,
                        );
                    } else {
                        lemma_typed_object_is_read(
                            reader,
                            settings,
                            graph,
                            subject,
                            predicate,
                            pending,
                            value,
                            datatype,
                            rest,
                        );
                    }
                },
            }
        },
        _ => {},
    }
}

/// The recognizer between statements: in the block of a graph, or outside of any.
pub open spec fn between(settings: RecognizerModel, graph: Option<TermModel>) -> RecognizerModel {
    match graph {
        Some(name) => inside(settings, name),
        None => outside(settings),
    }
}

/// After an object as it is written, ` ,` is read: the triple is kept back,
/// and one more object is expected.
pub proof fn lemma_comma_is_read(
    reader: ReaderModel,
    settings: RecognizerModel,
    graph: Option<TermModel>,
    subject: TermModel,
    predicate: Seq<char>,
    pending: Seq<QuadModel>,
    object: TermModel,
    rest: Seq<u8>,
)
    requires
        at_rest(reader),
        reader.recognizer == object_read(settings, graph, subject, predicate, pending, object),
        reader.input == seq![SPACE, COMMA] + rest,
        rest.len() > 0,
    ensures
        reads(
            reader,
            2,
            before_object(
                settings,
                graph,
                subject,
                predicate,
                pending.push(kept(graph, subject, predicate, object)),
            ),
            Seq::empty(),
        ),
        past(
            reader,
            2,
            before_object(
                settings,
                graph,
                subject,
                predicate,
                pending.push(kept(graph, subject, predicate, object)),
            ),
        ).input == rest,
{
    lemma_nothing_is_released();
    lemma_object_is_over(settings, graph, subject, predicate, pending, object, TokenKind::Comma);
    lemma_comma(settings, graph, subject, predicate, pending, object);
    assert(reader.input[0] == SPACE);
    assert(reader.input[1] == COMMA);
    lemma_mark_is_read(reader, 1, TokenKind::Comma);
    assert(reader.input.skip(2) =~= rest);
}

/// After an object as it is written, ` ;` is read: the triple is kept back,
/// and a verb is expected.
pub proof fn lemma_semicolon_is_read(
    reader: ReaderModel,
    settings: RecognizerModel,
    graph: Option<TermModel>,
    subject: TermModel,
    predicate: Seq<char>,
    pending: Seq<QuadModel>,
    object: TermModel,
    rest: Seq<u8>,
)
    requires
        at_rest(reader),
        reader.recognizer == object_read(settings, graph, subject, predicate, pending, object),
        reader.input == seq![SPACE, SEMICOLON] + rest,
        rest.len() > 0,
    ensures
        reads(
            reader,
            2,
            after_semicolon(
                settings,
                graph,
                subject,
                pending.push(kept(graph, subject, predicate, object)),
            ),
            Seq::empty(),
        ),
        past(
            reader,
            2,
            after_semicolon(
                settings,
                graph,
                subject,
                pending.push(kept(graph, subject, predicate, object)),
            ),
        ).input == rest,
{
    lemma_nothing_is_released();
    lemma_object_is_over(
        settings,
        graph,
        subject,
        predicate,
        pending,
        object,
        TokenKind::Semicolon,
    );
    lemma_semicolon(settings, graph, subject, predicate, pending, object);
    assert(reader.input[0] == SPACE);
    assert(reader.input[1] == SEMICOLON);
    lemma_mark_is_read(reader, 1, TokenKind::Semicolon);
    assert(reader.input.skip(2) =~= rest);
}

/// After an object as it is written, ` .` before a blank is read: the
/// statement ends, and its triples are handed out.
pub proof fn lemma_statement_is_ended(
    reader: ReaderModel,
    settings: RecognizerModel,
    graph: Option<TermModel>,
    subject: TermModel,
    predicate: Seq<char>,
    pending: Seq<QuadModel>,
    object: TermModel,
    rest: Seq<u8>,
)
    requires
        at_rest(reader),
        reader.recognizer == object_read(settings, graph, subject, predicate, pending, object),
        reader.input == seq![SPACE, DOT] + rest,
        rest.len() > 0,
        is_blank(rest[0]),
    ensures
        reads(
            reader,
            2,
            between(settings, graph),
            quad_items(pending.push(kept(graph, subject, predicate, object))),
        ),
        past(reader, 2, between(settings, graph)).input == rest,
{
    lemma_object_is_over(settings, graph, subject, predicate, pending, object, TokenKind::Dot);
    lemma_dot(settings, graph, subject, predicate, pending, object);
    assert(reader.input[0] == SPACE);
    assert(reader.input[1] == DOT);
    assert(reader.input[2] == rest[0]);
    lemma_mark_is_read(reader, 1, TokenKind::Dot);
    assert(reader.input.skip(2) =~= rest);
}

/// Between the statements of a graph block, `}` on a line of its own is read:
/// the block ends.
pub proof fn lemma_block_is_closed(
    reader: ReaderModel,
    settings: RecognizerModel,
    graph: TermModel,
    rest: Seq<u8>,
)
    requires
        at_rest(reader),
        reader.recognizer == inside(settings, graph),
        reader.input == seq![LINE_FEED, RIGHT_BRACE] + rest,
        rest.len() > 0,
    ensures
        reads(reader, 2, outside(settings), Seq::empty()),
        past(reader, 2, outside(settings)).input == rest,
{
    lemma_nothing_is_released();
    lemma_right_brace(settings, graph);
    assert(reader.input[0] == LINE_FEED);
    assert(reader.input[1] == RIGHT_BRACE);
    lemma_mark_is_read(reader, 1, TokenKind::RightBrace);
    assert(reader.input.skip(2) =~= rest);
}

/// Tells whether bytes are all blanks.
pub open spec fn are_blanks(bytes: Seq<u8>) -> bool {
    forall|i: int| 0 <= i < bytes.len() ==> is_blank(#[trigger] bytes[i])
}

/// A named node as it is written, after blanks, is read as what the
/// recognizer takes an IRI reference for.
pub proof fn lemma_written_iri_is_read(
    reader: ReaderModel,
    blanks: Seq<u8>,
    iri: Seq<char>,
    rest: Seq<u8>,
    next: RecognizerModel,
)
    requires
        at_rest(reader),
        reader.input == blanks + iri_bytes(iri) + rest,
        are_blanks(blanks),
        is_plain_iri(iri),
        reader.recognizer.recognize(word_token(TokenKind::IriRef, iri)) == (
            next,
            Ok::<Seq<QuadModel>, ParseErrorKind>(Seq::empty()),
        ),
    ensures
        reads(reader, (blanks.len() + iri_bytes(iri).len()) as int, next, Seq::empty()),
        past(reader, (blanks.len() + iri_bytes(iri).len()) as int, next).input == rest,
{
    lemma_nothing_is_released();
    lemma_located_between(reader.input, blanks, iri_bytes(iri), rest);
    assert forall|i: int| 0 <= i < blanks.len() implies is_blank(#[trigger] reader.input[i]) by {
        assert(reader.input[i] == blanks[i]);
    }
    lemma_iri_is_read(reader, blanks.len() as int, iri);
}

/// The name of a graph and `{` as they are written, after blanks, are read:
/// the block of the graph is open.
#[verifier::rlimit(50)]
pub proof fn lemma_block_is_opened(
    reader: ReaderModel,
    settings: RecognizerModel,
    blanks: Seq<u8>,
    graph: TermModel,
    rest: Seq<u8>,
)
    requires
        at_rest(reader),
        keeps_iris(settings),
        has_room(settings),
        reader.recognizer == outside(settings),
        reader.input == blanks + node_bytes(graph) + seq![SPACE, LEFT_BRACE] + rest,
        are_blanks(blanks),
        is_plain_node(graph),
        rest.len() > 0,
    ensures
        reads(
            reader,
            (blanks.len() + node_bytes(graph).len() + 2) as int,
            inside(bound(settings, graph), renamed(settings, graph)),
            Seq::empty(),
        ),
        past(
            reader,
            (blanks.len() + node_bytes(graph).len() + 2) as int,
            inside(bound(settings, graph), renamed(settings, graph)),
        ).input == rest,
{
    lemma_nothing_is_released();
    let then = bound(settings, graph);
    let name = renamed(settings, graph);
    let mark = seq![SPACE, LEFT_BRACE];
    assert(reader.input =~= blanks + node_bytes(graph) + (mark + rest));
    lemma_node_outside(settings, graph);
    lemma_written_node_is_read(reader, blanks, graph, mark + rest, after_name(then, name));
    let count = (blanks.len() + node_bytes(graph).len()) as int;
    let next = past(reader, count, after_name(then, name));
    lemma_left_brace(then, name);
    assert(next.input[0] == SPACE);
    assert(next.input[1] == LEFT_BRACE);
    lemma_mark_is_read(next, 1, TokenKind::LeftBrace);
    lemma_reads_on(
        reader,
        count,
        after_name(then, name),
        Seq::empty(),
        2,
        inside(then, name),
        Seq::empty(),
    );
    lemma_past_twice(reader, count, after_name(then, name), 2, inside(then, name));
    assert(next.input.skip(2) =~= rest);
}

/// The bytes that the subject, the predicate and the object of a quad are
/// written as.
pub open spec fn triple_bytes(quad: QuadModel) -> Seq<u8> {
    node_bytes(quad.subject) + seq![SPACE] + iri_bytes(quad.predicate) + seq![SPACE]
        + object_bytes(quad.object)
}

/// The subject and the verb of a statement as they are written, after
/// blanks, are read: an object is expected.
#[verifier::rlimit(50)]
pub proof fn lemma_subject_and_verb_are_read(
    reader: ReaderModel,
    settings: RecognizerModel,
    graph: Option<TermModel>,
    blanks: Seq<u8>,
    subject: TermModel,
    predicate: Seq<char>,
    rest: Seq<u8>,
)
    requires
        at_rest(reader),
        keeps_iris(settings),
        has_room(settings),
        reader.recognizer == between(settings, graph),
        reader.input == blanks + node_bytes(subject) + seq![SPACE] + iri_bytes(predicate) + rest,
        are_blanks(blanks),
        is_plain_node(subject),
        is_plain_iri(predicate),
    ensures
        reads(
            reader,
            (blanks.len() + node_bytes(subject).len() + 1 + iri_bytes(predicate).len()) as int,
            before_object(
                bound(settings, subject),
                graph,
                renamed(settings, subject),
                predicate,
                Seq::empty(),
            ),
            Seq::empty(),
        ),
        past(
            reader,
            (blanks.len() + node_bytes(subject).len() + 1 + iri_bytes(predicate).len()) as int,
            before_object(
                bound(settings, subject),
                graph,
                renamed(settings, subject),
                predicate,
                Seq::empty(),
            ),
        ).input == rest,
{
    lemma_nothing_is_released();
    let then = bound(settings, subject);
    let taken = renamed(settings, subject);
    let verb = seq![SPACE] + iri_bytes(predicate);
    assert(reader.input =~= blanks + node_bytes(subject) + (verb + rest));
    assert(keeps_iris(then));
    let named = match graph {
        Some(name) => after_subject(then, name, taken),
        None => after_name(then, taken),
    };
    match graph {
        Some(name) => {
            lemma_node_inside(settings, name, subject);
            lemma_verb_inside(then, name, taken, predicate);
        },
        None => {
            lemma_node_outside(settings, subject);
            lemma_verb_after_name(then, taken, predicate);
        },
    }
    lemma_written_node_is_read(reader, blanks, subject, verb + rest, named);
    let count = (blanks.len() + node_bytes(subject).len()) as int;
    let next = past(reader, count, named);
    let expecting = before_object(then, graph, taken, predicate, Seq::empty());
    assert(are_blanks(seq![SPACE]));
    assert(next.input =~= seq![SPACE] + iri_bytes(predicate) + rest);
    lemma_written_iri_is_read(next, seq![SPACE], predicate, rest, expecting);
    lemma_reads_on(
        reader,
        count,
        named,
        Seq::empty(),
        1 + iri_bytes(predicate).len() as int,
        expecting,
        Seq::empty(),
    );
    lemma_past_twice(reader, count, named, 1 + iri_bytes(predicate).len() as int, expecting);
}

/// The recognizer after the subject, the predicate and the object of a quad
/// in a graph that it is in.
pub open spec fn triple_read(
    settings: RecognizerModel,
    graph: Option<TermModel>,
    quad: QuadModel,
) -> RecognizerModel {
    object_read(
        bound(bound(settings, quad.subject), quad.object),
        graph,
        renamed(settings, quad.subject),
        quad.predicate,
        Seq::empty(),
        renamed(bound(settings, quad.subject), quad.object),
    )
}

/// A triple as it is written, after blanks and before a space, is read: the
/// recognizer holds its subject, its predicate and its object.
#[verifier::rlimit(50)]
pub proof fn lemma_triple_is_read(
    reader: ReaderModel,
    settings: RecognizerModel,
    graph: Option<TermModel>,
    blanks: Seq<u8>,
    quad: QuadModel,
    rest: Seq<u8>,
)
    requires
        at_rest(reader),
        keeps_iris(settings),
        has_room_for(settings, 2),
        reader.recognizer == between(settings, graph),
        reader.input == blanks + triple_bytes(quad) + rest,
        are_blanks(blanks),
        is_plain_node(quad.subject),
        is_plain_iri(quad.predicate),
        is_plain_object(quad.object),
        rest.len() > 0,
        rest[0] == SPACE,
    ensures
        reads(
            reader,
            (blanks.len() + triple_bytes(quad).len()) as int,
            triple_read(settings, graph, quad),
            Seq::empty(),
        ),
        past(
            reader,
            (blanks.len() + triple_bytes(quad).len()) as int,
            triple_read(settings, graph, quad),
        ).input == rest,
{
    lemma_nothing_is_released();
    let then = bound(settings, quad.subject);
    let taken = renamed(settings, quad.subject);
    lemma_bound_is_the_same_otherwise(settings, quad.subject);
    let object = seq![SPACE] + object_bytes(quad.object);
    let head = node_bytes(quad.subject) + seq![SPACE] + iri_bytes(quad.predicate);
    assert(reader.input =~= blanks + node_bytes(quad.subject) + seq![SPACE] + iri_bytes(
        quad.predicate,
    ) + (object + rest));
    lemma_subject_and_verb_are_read(
        reader,
        settings,
        graph,
        blanks,
        quad.subject,
        quad.predicate,
        object + rest,
    );
    let expecting = before_object(then, graph, taken, quad.predicate, Seq::empty());
    let count = (blanks.len() + head.len()) as int;
    let next = past(reader, count, expecting);
    assert(next.input =~= seq![SPACE] + object_bytes(quad.object) + rest);
    lemma_object_is_read(
        next,
        then,
        graph,
        taken,
        quad.predicate,
        Seq::empty(),
        quad.object,
        rest,
    );
    let done = triple_read(settings, graph, quad);
    lemma_reads_on(
        reader,
        count,
        expecting,
        Seq::empty(),
        1 + object_bytes(quad.object).len() as int,
        done,
        Seq::empty(),
    );
    lemma_past_twice(
        reader,
        count,
        expecting,
        1 + object_bytes(quad.object).len() as int,
        done,
    );
    assert(next.input.skip(1 + object_bytes(quad.object).len() as int) =~= rest);
}

/// The tab that a line in a graph block starts with, as bytes.
pub open spec fn indent_bytes(graph: Option<TermModel>) -> Seq<u8> {
    if graph is Some {
        seq![TAB]
    } else {
        Seq::empty()
    }
}

/// The line that opens the block of a named graph, as bytes.
pub open spec fn opening_bytes(graph: Option<TermModel>) -> Seq<u8> {
    match graph {
        Some(name) => node_bytes(name) + seq![SPACE, LEFT_BRACE, LINE_FEED, TAB],
        None => Seq::empty(),
    }
}

/// The end of the open triple and of the open graph block, as bytes.
pub open spec fn closing_bytes(writer: WriterModel) -> Seq<u8> {
    (if writer.current is Some {
        seq![SPACE, DOT, LINE_FEED]
    } else {
        Seq::empty()
    }) + (if writer.graph_name is Some {
        seq![RIGHT_BRACE, LINE_FEED]
    } else {
        Seq::empty()
    })
}

/// The bytes that a quad adds in a state of the writer.
pub open spec fn step_bytes(writer: WriterModel, quad: QuadModel) -> Seq<u8> {
    if quad.graph_name == writer.graph_name {
        match writer.current {
            Some((subject, predicate)) => if quad.subject == subject {
                if quad.predicate == predicate {
                    seq![SPACE, COMMA, SPACE] + object_bytes(quad.object)
                } else {
                    seq![SPACE, SEMICOLON, LINE_FEED] + indent_bytes(writer.graph_name) + seq![TAB]
                        + iri_bytes(quad.predicate) + seq![SPACE] + object_bytes(quad.object)
                }
            } else {
                seq![SPACE, DOT, LINE_FEED] + indent_bytes(writer.graph_name) + triple_bytes(quad)
            },
            None => indent_bytes(writer.graph_name) + triple_bytes(quad),
        }
    } else {
        closing_bytes(writer) + opening_bytes(quad.graph_name) + triple_bytes(quad)
    }
}

/// The bytes that quads add in a state of the writer, up to the end of the document.
pub open spec fn tail_bytes(writer: WriterModel, quads: Seq<QuadModel>) -> Seq<u8>
    decreases quads.len(),
{
    if quads.len() == 0 {
        closing_bytes(writer)
    } else {
        step_bytes(writer, quads[0]) + tail_bytes(writer.after(quads[0]), quads.drop_first())
    }
}

/// After a quad, what is written next starts with a space.
pub proof fn lemma_tail_starts_with_a_space(writer: WriterModel, quads: Seq<QuadModel>)
    requires
        writer.current is Some,
    ensures
        tail_bytes(writer, quads).len() > 0,
        tail_bytes(writer, quads)[0] == SPACE,
{
    if quads.len() == 0 {
        assert(closing_bytes(writer)[0] == SPACE);
    } else {
        assert(step_bytes(writer, quads[0])[0] == SPACE) by {
            if quads[0].graph_name != writer.graph_name {
                assert(closing_bytes(writer)[0] == SPACE);
            }
        }
    }
}

/// One more object of the same subject and predicate, as it is written, is read.
#[verifier::rlimit(50)]
proof fn lemma_one_more_object_is_read(
    reader: ReaderModel,
    settings: RecognizerModel,
    graph: Option<TermModel>,
    subject: TermModel,
    predicate: Seq<char>,
    pending: Seq<QuadModel>,
    object: TermModel,
    next: TermModel,
    rest: Seq<u8>,
)
    requires
        at_rest(reader),
        keeps_iris(settings),
        has_room(settings),
        reader.recognizer == object_read(settings, graph, subject, predicate, pending, object),
        reader.input == seq![SPACE, COMMA, SPACE] + object_bytes(next) + rest,
        is_plain_object(next),
        rest.len() > 0,
        rest[0] == SPACE,
    ensures
        reads(
            reader,
            3 + object_bytes(next).len() as int,
            object_read(
                bound(settings, next),
                graph,
                subject,
                predicate,
                pending.push(kept(graph, subject, predicate, object)),
                renamed(settings, next),
            ),
            Seq::empty(),
        ),
        past(
            reader,
            3 + object_bytes(next).len() as int,
            object_read(
                bound(settings, next),
                graph,
                subject,
                predicate,
                pending.push(kept(graph, subject, predicate, object)),
                renamed(settings, next),
            ),
        ).input == rest,
{
    lemma_nothing_is_released();
    let kept_back = pending.push(kept(graph, subject, predicate, object));
    let after = seq![SPACE] + object_bytes(next) + rest;
    assert(reader.input =~= seq![SPACE, COMMA] + after);
    lemma_comma_is_read(reader, settings, graph, subject, predicate, pending, object, after);
    let expecting = before_object(settings, graph, subject, predicate, kept_back);
    let second = past(reader, 2, expecting);
    lemma_object_is_read(second, settings, graph, subject, predicate, kept_back, next, rest);
    let done = object_read(
        bound(settings, next),
        graph,
        subject,
        predicate,
        kept_back,
        renamed(settings, next),
    );
    lemma_reads_on(
        reader,
        2,
        expecting,
        Seq::empty(),
        1 + object_bytes(next).len() as int,
        done,
        Seq::empty(),
    );
    lemma_past_twice(reader, 2, expecting, 1 + object_bytes(next).len() as int, done);
    assert(second.input.skip(1 + object_bytes(next).len() as int) =~= rest);
}

/// `;` and one more verb of the same subject, as they are written, are read.
#[verifier::rlimit(50)]
proof fn lemma_semicolon_and_verb_are_read(
    reader: ReaderModel,
    settings: RecognizerModel,
    graph: Option<TermModel>,
    subject: TermModel,
    predicate: Seq<char>,
    pending: Seq<QuadModel>,
    object: TermModel,
    verb: Seq<char>,
    rest: Seq<u8>,
)
    requires
        at_rest(reader),
        keeps_iris(settings),
        reader.recognizer == object_read(settings, graph, subject, predicate, pending, object),
        reader.input == seq![SPACE, SEMICOLON, LINE_FEED] + indent_bytes(graph) + seq![TAB]
            + iri_bytes(verb) + rest,
        is_plain_iri(verb),
    ensures
        reads(
            reader,
            (4 + indent_bytes(graph).len() + iri_bytes(verb).len()) as int,
            before_object(
                settings,
                graph,
                subject,
                verb,
                pending.push(kept(graph, subject, predicate, object)),
            ),
            Seq::empty(),
        ),
        past(
            reader,
            (4 + indent_bytes(graph).len() + iri_bytes(verb).len()) as int,
            before_object(
                settings,
                graph,
                subject,
                verb,
                pending.push(kept(graph, subject, predicate, object)),
            ),
        ).input == rest,
{
    lemma_nothing_is_released();
    let kept_back = pending.push(kept(graph, subject, predicate, object));
    let blanks = seq![LINE_FEED] + indent_bytes(graph) + seq![TAB];
    let after = blanks + iri_bytes(verb) + rest;
    assert(iri_bytes(verb).len() > 0);
    assert(reader.input =~= seq![SPACE, SEMICOLON] + after);
    lemma_semicolon_is_read(reader, settings, graph, subject, predicate, pending, object, after);
    let waiting = after_semicolon(settings, graph, subject, kept_back);
    let second = past(reader, 2, waiting);
    assert(are_blanks(blanks));
    lemma_verb_after_semicolon(settings, graph, subject, kept_back, verb);
    let expecting = before_object(settings, graph, subject, verb, kept_back);
    lemma_written_iri_is_read(second, blanks, verb, rest, expecting);
    let count = (blanks.len() + iri_bytes(verb).len()) as int;
    lemma_reads_on(reader, 2, waiting, Seq::empty(), count, expecting, Seq::empty());
    lemma_past_twice(reader, 2, waiting, count, expecting);
}

/// One more verb of the same subject and its object, as they are written, are read.
#[verifier::rlimit(50)]
proof fn lemma_one_more_verb_is_read(
    reader: ReaderModel,
    settings: RecognizerModel,
    graph: Option<TermModel>,
    subject: TermModel,
    predicate: Seq<char>,
    pending: Seq<QuadModel>,
    object: TermModel,
    verb: Seq<char>,
    next: TermModel,
    rest: Seq<u8>,
)
    requires
        at_rest(reader),
        keeps_iris(settings),
        has_room(settings),
        reader.recognizer == object_read(settings, graph, subject, predicate, pending, object),
        reader.input == seq![SPACE, SEMICOLON, LINE_FEED] + indent_bytes(graph) + seq![TAB]
            + iri_bytes(verb) + seq![SPACE] + object_bytes(next) + rest,
        is_plain_iri(verb),
        is_plain_object(next),
        rest.len() > 0,
        rest[0] == SPACE,
    ensures
        reads(
            reader,
            (4 + indent_bytes(graph).len() + iri_bytes(verb).len() + 1 + object_bytes(
                next,
            ).len()) as int,
            object_read(
                bound(settings, next),
                graph,
                subject,
                verb,
                pending.push(kept(graph, subject, predicate, object)),
                renamed(settings, next),
            ),
            Seq::empty(),
        ),
        past(
            reader,
            (4 + indent_bytes(graph).len() + iri_bytes(verb).len() + 1 + object_bytes(
                next,
            ).len()) as int,
            object_read(
                bound(settings, next),
                graph,
                subject,
                verb,
                pending.push(kept(graph, subject, predicate, object)),
                renamed(settings, next),
            ),
        ).input == rest,
{
    lemma_nothing_is_released();
    let kept_back = pending.push(kept(graph, subject, predicate, object));
    let last = seq![SPACE] + object_bytes(next) + rest;
    assert(reader.input =~= seq![SPACE, SEMICOLON, LINE_FEED] + indent_bytes(graph) + seq![TAB]
        + iri_bytes(verb) + last);
    lemma_semicolon_and_verb_are_read(
        reader,
        settings,
        graph,
        subject,
        predicate,
        pending,
        object,
        verb,
        last,
    );
    let expecting = before_object(settings, graph, subject, verb, kept_back);
    let count = (4 + indent_bytes(graph).len() + iri_bytes(verb).len()) as int;
    let third = past(reader, count, expecting);
    lemma_object_is_read(third, settings, graph, subject, verb, kept_back, next, rest);
    let done = object_read(
        bound(settings, next),
        graph,
        subject,
        verb,
        kept_back,
        renamed(settings, next),
    );
    let more = 1 + object_bytes(next).len() as int;
    lemma_reads_on(reader, count, expecting, Seq::empty(), more, done, Seq::empty());
    lemma_past_twice(reader, count, expecting, more, done);
    assert(third.input.skip(more) =~= rest);
}

/// The end of a statement and the statement after it in the same graph, as
/// they are written, are read: the quads of the first are handed out.
#[verifier::rlimit(50)]
proof fn lemma_next_statement_is_read(
    reader: ReaderModel,
    settings: RecognizerModel,
    graph: Option<TermModel>,
    subject: TermModel,
    predicate: Seq<char>,
    pending: Seq<QuadModel>,
    object: TermModel,
    quad: QuadModel,
    rest: Seq<u8>,
)
    requires
        at_rest(reader),
        keeps_iris(settings),
        has_room_for(settings, 2),
        reader.recognizer == object_read(settings, graph, subject, predicate, pending, object),
        reader.input == seq![SPACE, DOT, LINE_FEED] + indent_bytes(graph) + triple_bytes(quad)
            + rest,
        is_plain_quad(quad),
        rest.len() > 0,
        rest[0] == SPACE,
    ensures
        reads(
            reader,
            (3 + indent_bytes(graph).len() + triple_bytes(quad).len()) as int,
            triple_read(settings, graph, quad),
            quad_items(pending.push(kept(graph, subject, predicate, object))),
        ),
        past(
            reader,
            (3 + indent_bytes(graph).len() + triple_bytes(quad).len()) as int,
            triple_read(settings, graph, quad),
        ).input == rest,
{
    let out = quad_items(pending.push(kept(graph, subject, predicate, object)));
    let blanks = seq![LINE_FEED] + indent_bytes(graph);
    let after = blanks + triple_bytes(quad) + rest;
    assert(reader.input =~= seq![SPACE, DOT] + after);
    assert(after[0] == LINE_FEED);
    lemma_statement_is_ended(reader, settings, graph, subject, predicate, pending, object, after);
    let second = past(reader, 2, between(settings, graph));
    assert(are_blanks(blanks));
    lemma_triple_is_read(second, settings, graph, blanks, quad, rest);
    let done = triple_read(settings, graph, quad);
    let count = (blanks.len() + triple_bytes(quad).len()) as int;
    lemma_reads_on(reader, 2, between(settings, graph), out, count, done, Seq::empty());
    lemma_past_twice(reader, 2, between(settings, graph), count, done);
    assert(out + Seq::<Item>::empty() =~= out);
}

/// The recognizer after the first statement of a quad: it has heard of the
/// graph, the subject and the object of the quad, and holds what it takes
/// them for.
pub open spec fn statement_read(settings: RecognizerModel, quad: QuadModel) -> RecognizerModel {
    triple_read(
        heard_graph(settings, quad),
        renamed_graph(settings, quad.graph_name),
        quad,
    )
}

/// The first statement of a graph as it is written, after blanks, outside of
/// any graph block, is read.
#[verifier::rlimit(50)]
proof fn lemma_first_statement_is_read(
    reader: ReaderModel,
    settings: RecognizerModel,
    blanks: Seq<u8>,
    quad: QuadModel,
    rest: Seq<u8>,
)
    requires
        at_rest(reader),
        keeps_iris(settings),
        has_room_for(settings, 3),
        reader.recognizer == outside(settings),
        reader.input == blanks + opening_bytes(quad.graph_name) + triple_bytes(quad) + rest,
        are_blanks(blanks),
        is_plain_quad(quad),
        rest.len() > 0,
        rest[0] == SPACE,
    ensures
        reads(
            reader,
            (blanks.len() + opening_bytes(quad.graph_name).len() + triple_bytes(quad).len()) as int,
            statement_read(settings, quad),
            Seq::empty(),
        ),
        past(
            reader,
            (blanks.len() + opening_bytes(quad.graph_name).len() + triple_bytes(quad).len()) as int,
            statement_read(settings, quad),
        ).input == rest,
{
    lemma_nothing_is_released();
    let done = statement_read(settings, quad);
    let then = heard_graph(settings, quad);
    lemma_bound_is_the_same_otherwise(settings, graph_term(quad.graph_name));
    match quad.graph_name {
        Some(graph) => {
            let name = renamed(settings, graph);
            let inner = seq![LINE_FEED, TAB];
            let after = inner + triple_bytes(quad) + rest;
            assert(reader.input =~= blanks + node_bytes(graph) + seq![SPACE, LEFT_BRACE] + after);
            lemma_block_is_opened(reader, settings, blanks, graph, after);
            let count = (blanks.len() + node_bytes(graph).len() + 2) as int;
            let second = past(reader, count, inside(then, name));
            assert(are_blanks(inner));
            lemma_triple_is_read(second, then, Some(name), inner, quad, rest);
            let more = (inner.len() + triple_bytes(quad).len()) as int;
            lemma_reads_on(
                reader,
                count,
                inside(then, name),
                Seq::empty(),
                more,
                done,
                Seq::empty(),
            );
            lemma_past_twice(reader, count, inside(then, name), more, done);
        },
        None => {
            assert(reader.input =~= blanks + triple_bytes(quad) + rest);
            lemma_triple_is_read(reader, settings, None, blanks, quad, rest);
        },
    }
}

/// The end of a statement and of the graph block around it, as bytes.
pub open spec fn ending_bytes(graph: Option<TermModel>) -> Seq<u8> {
    seq![SPACE, DOT, LINE_FEED] + (if graph is Some {
        seq![RIGHT_BRACE, LINE_FEED]
    } else {
        Seq::empty()
    })
}

/// The end of a statement and of the graph block around it, as they are
/// written before what follows on the next line, are read: the quads of the
/// statement are handed out, and the recognizer is outside of any graph block.
#[verifier::rlimit(50)]
proof fn lemma_ending_is_read(
    reader: ReaderModel,
    settings: RecognizerModel,
    graph: Option<TermModel>,
    subject: TermModel,
    predicate: Seq<char>,
    pending: Seq<QuadModel>,
    object: TermModel,
    rest: Seq<u8>,
)
    requires
        at_rest(reader),
        reader.recognizer == object_read(settings, graph, subject, predicate, pending, object),
        reader.input == seq![SPACE, DOT] + (if graph is Some {
            seq![LINE_FEED, RIGHT_BRACE]
        } else {
            Seq::empty()
        }) + rest,
        rest.len() > 0,
        is_blank(rest[0]),
    ensures
        reads(
            reader,
            if graph is Some {
                4
            } else {
                2
            },
            outside(settings),
            quad_items(pending.push(kept(graph, subject, predicate, object))),
        ),
        past(
            reader,
            if graph is Some {
                4
            } else {
                2
            },
            outside(settings),
        ).input == rest,
{
    let out = quad_items(pending.push(kept(graph, subject, predicate, object)));
    match graph {
        Some(name) => {
            let after = seq![LINE_FEED, RIGHT_BRACE] + rest;
            assert(reader.input =~= seq![SPACE, DOT] + after);
            assert(after[0] == LINE_FEED);
            lemma_statement_is_ended(
                reader,
                settings,
                graph,
                subject,
                predicate,
                pending,
                object,
                after,
            );
            let second = past(reader, 2, inside(settings, name));
            lemma_block_is_closed(second, settings, name, rest);
            lemma_reads_on(
                reader,
                2,
                inside(settings, name),
                out,
                2,
                outside(settings),
                Seq::empty(),
            );
            lemma_past_twice(reader, 2, inside(settings, name), 2, outside(settings));
            assert(out + Seq::<Item>::empty() =~= out);
        },
        None => {
            assert(reader.input =~= seq![SPACE, DOT] + rest);
            lemma_statement_is_ended(
                reader,
                settings,
                graph,
                subject,
                predicate,
                pending,
                object,
                rest,
            );
        },
    }
}

/// The end of a statement and the first statement of another graph, as they
/// are written, are read: the quads of the first are handed out.
#[verifier::rlimit(50)]
proof fn lemma_next_graph_is_read(
    reader: ReaderModel,
    settings: RecognizerModel,
    graph: Option<TermModel>,
    subject: TermModel,
    predicate: Seq<char>,
    pending: Seq<QuadModel>,
    object: TermModel,
    quad: QuadModel,
    rest: Seq<u8>,
)
    requires
        at_rest(reader),
        keeps_iris(settings),
        has_room_for(settings, 3),
        reader.recognizer == object_read(settings, graph, subject, predicate, pending, object),
        reader.input == ending_bytes(graph) + opening_bytes(quad.graph_name) + triple_bytes(quad)
            + rest,
        is_plain_quad(quad),
        rest.len() > 0,
        rest[0] == SPACE,
    ensures
        reads(
            reader,
            (ending_bytes(graph).len() + opening_bytes(quad.graph_name).len() + triple_bytes(
                quad,
            ).len()) as int,
            statement_read(settings, quad),
            quad_items(pending.push(kept(graph, subject, predicate, object))),
        ),
        past(
            reader,
            (ending_bytes(graph).len() + opening_bytes(quad.graph_name).len() + triple_bytes(
                quad,
            ).len()) as int,
            statement_read(settings, quad),
        ).input == rest,
{
    let out = quad_items(pending.push(kept(graph, subject, predicate, object)));
    let blanks = seq![LINE_FEED];
    let after = blanks + opening_bytes(quad.graph_name) + triple_bytes(quad) + rest;
    let closing = if graph is Some {
        seq![LINE_FEED, RIGHT_BRACE]
    } else {
        Seq::<u8>::empty()
    };
    assert(reader.input =~= seq![SPACE, DOT] + closing + after);
    assert(after[0] == LINE_FEED);
    lemma_ending_is_read(reader, settings, graph, subject, predicate, pending, object, after);
    let count: int = if graph is Some {
        4
    } else {
        2
    };
    let second = past(reader, count, outside(settings));
    assert(are_blanks(blanks));
    lemma_first_statement_is_read(second, settings, blanks, quad, rest);
    let done = statement_read(settings, quad);
    let more = (1 + opening_bytes(quad.graph_name).len() + triple_bytes(quad).len()) as int;
    lemma_reads_on(reader, count, outside(settings), out, more, done, Seq::empty());
    lemma_past_twice(reader, count, outside(settings), more, done);
    assert(out + Seq::<Item>::empty() =~= out);
}

/// The end of the document as it is written is read: the quads of the last
/// statement are handed out, and nothing after them.
#[verifier::rlimit(50)]
proof fn lemma_closing_is_read(
    reader: ReaderModel,
    settings: RecognizerModel,
    graph: Option<TermModel>,
    subject: TermModel,
    predicate: Seq<char>,
    pending: Seq<QuadModel>,
    object: TermModel,
)
    requires
        at_rest(reader),
        reader.recognizer == object_read(settings, graph, subject, predicate, pending, object),
        reader.input == ending_bytes(graph),
    ensures
        drain(reader).1 == quad_items(pending.push(kept(graph, subject, predicate, object))),
        drain(reader).0.is_end(),
{
    let out = quad_items(pending.push(kept(graph, subject, predicate, object)));
    let rest = seq![LINE_FEED];
    let closing = if graph is Some {
        seq![LINE_FEED, RIGHT_BRACE]
    } else {
        Seq::<u8>::empty()
    };
    assert(reader.input =~= seq![SPACE, DOT] + closing + rest);
    lemma_ending_is_read(reader, settings, graph, subject, predicate, pending, object, rest);
    let count: int = if graph is Some {
        4
    } else {
        2
    };
    let last = past(reader, count, outside(settings));
    assert(are_blanks(rest));
    lemma_end_is_reached(last);
    assert(out + Seq::<Item>::empty() =~= out);
}

/// The quads of a statement and the quads after them are handed out one
/// after the other.
proof fn lemma_quad_items_in_two(first: Seq<QuadModel>, second: Seq<QuadModel>)
    ensures
        quad_items(first) + quad_items(second) == quad_items(first + second),
{
    assert(quad_items(first) + quad_items(second) =~= quad_items(first + second));
}

/// The subject of the triple that is open.
pub open spec fn open_subject(writer: WriterModel) -> TermModel {
    match writer.current {
        Some((subject, _)) => subject,
        None => TermModel::Named(Seq::empty()),
    }
}

/// The predicate of the triple that is open.
pub open spec fn open_predicate(writer: WriterModel) -> Seq<char> {
    match writer.current {
        Some((_, predicate)) => predicate,
        None => Seq::empty(),
    }
}

/// What the writer goes on to write after a quad, and to the end of the
/// document, is read back: the quads of the open statement and the quads
/// after them are handed out, in their order, each as the recognizer takes
/// it, and nothing else.
#[verifier::rlimit(80)]
pub proof fn lemma_rest_is_read(
    reader: ReaderModel,
    settings: RecognizerModel,
    writer: WriterModel,
    graph: Option<TermModel>,
    subject: TermModel,
    pending: Seq<QuadModel>,
    object: TermModel,
    quads: Seq<QuadModel>,
)
    requires
        at_rest(reader),
        keeps_iris(settings),
        has_room_for(settings, 3 * (quads.len() as int)),
        writer.current is Some,
        knows(settings, graph_term(writer.graph_name)),
        knows(settings, open_subject(writer)),
        graph == renamed_graph(settings, writer.graph_name),
        subject == renamed(settings, open_subject(writer)),
        reader.recognizer == object_read(
            settings,
            graph,
            subject,
            open_predicate(writer),
            pending,
            object,
        ),
        reader.input == tail_bytes(writer, quads),
        forall|i: int| 0 <= i < quads.len() ==> is_plain_quad(#[trigger] quads[i]),
    ensures
        drain(reader).1 == quad_items(
            pending.push(kept(graph, subject, open_predicate(writer), object)) + renamed_quads(
                heard_all(settings, quads),
                quads,
            ),
        ),
        drain(reader).0.is_end(),
    decreases quads.len(),
{
    let predicate = open_predicate(writer);
    let held = pending.push(kept(graph, subject, predicate, object));
    let last = heard_all(settings, quads);
    if quads.len() == 0 {
        assert(closing_bytes(writer) =~= ending_bytes(graph));
        lemma_closing_is_read(reader, settings, graph, subject, predicate, pending, object);
        assert(held + renamed_quads(last, quads) =~= held);
    } else {
        let quad = quads[0];
        let later = quads.drop_first();
        let next = writer.after(quad);
        let rest = tail_bytes(next, later);
        let then = heard(settings, quad);
        let taken = quad_as_heard(settings, quad);
        lemma_tail_starts_with_a_space(next, later);
        assert(is_plain_quad(quad));
        assert forall|i: int| 0 <= i < later.len() implies is_plain_quad(#[trigger] later[i]) by {
            assert(later[i] == quads[i + 1]);
        }
        lemma_heard_is_the_same_otherwise(settings, quad);
        lemma_heard_is_known(settings, quad);
        lemma_heard_quad_stays(settings, quad, later);
        lemma_renamed_quads_in_two(last, quads);
        assert(last == heard_all(then, later));
        assert(renamed_quad(last, quad) == taken);
        assert(has_room_for(then, 3 * (later.len() as int)));
        assert(indent_bytes(graph) == indent_bytes(writer.graph_name));
        let count = step_bytes(writer, quad).len() as int;
        if quad.graph_name == writer.graph_name && quad.subject == open_subject(writer) {
            lemma_bound_is_the_same_otherwise(settings, graph_term(quad.graph_name));
            lemma_bound_is_the_same_otherwise(settings, quad.subject);
            assert(heard_graph(settings, quad) == settings);
            assert(heard_subject(settings, quad) == settings);
            let heard_of = renamed(settings, quad.object);
            assert(taken == kept(graph, subject, quad.predicate, heard_of));
            let done = object_read(then, graph, subject, quad.predicate, held, heard_of);
            if quad.predicate == predicate {
                lemma_one_more_object_is_read(
                    reader,
                    settings,
                    graph,
                    subject,
                    predicate,
                    pending,
                    object,
                    quad.object,
                    rest,
                );
            } else {
                lemma_one_more_verb_is_read(
                    reader,
                    settings,
                    graph,
                    subject,
                    predicate,
                    pending,
                    object,
                    quad.predicate,
                    quad.object,
                    rest,
                );
            }
            let after = past(reader, count, done);
            lemma_rest_is_read(after, then, next, graph, subject, held, heard_of, later);
            assert(held.push(taken) + renamed_quads(last, later) =~= held + renamed_quads(
                last,
                quads,
            ));
            assert(Seq::<Item>::empty() + drain(after).1 =~= drain(after).1);
        } else {
            let done = statement_read(settings, quad);
            if quad.graph_name == writer.graph_name {
                lemma_bound_is_the_same_otherwise(settings, graph_term(quad.graph_name));
                assert(heard_graph(settings, quad) == settings);
                assert(done == triple_read(settings, graph, quad));
                lemma_next_statement_is_read(
                    reader,
                    settings,
                    graph,
                    subject,
                    predicate,
                    pending,
                    object,
                    quad,
                    rest,
                );
            } else {
                assert(closing_bytes(writer) =~= ending_bytes(graph));
                lemma_next_graph_is_read(
                    reader,
                    settings,
                    graph,
                    subject,
                    predicate,
                    pending,
                    object,
                    quad,
                    rest,
                );
            }
            let after = past(reader, count, done);
            lemma_rest_is_read(
                after,
                then,
                next,
                taken.graph_name,
                taken.subject,
                Seq::empty(),
                taken.object,
                later,
            );
            assert(Seq::<QuadModel>::empty().push(taken) + renamed_quads(last, later)
                =~= renamed_quads(last, quads));
            lemma_quad_items_in_two(held, renamed_quads(last, quads));
        }
    }
}

/// The bytes of the marks and blanks that the writer writes.
proof fn lemma_written_marks()
    ensures
        encode_utf8(seq![' ']) == seq![SPACE],
        encode_utf8(seq!['\t']) == seq![TAB],
        encode_utf8(seq![' ', ',', ' ']) == seq![SPACE, COMMA, SPACE],
        encode_utf8(seq![' ', ';', '\n']) == seq![SPACE, SEMICOLON, LINE_FEED],
        encode_utf8(seq![' ', '.', '\n']) == seq![SPACE, DOT, LINE_FEED],
        encode_utf8(seq!['}', '\n']) == seq![RIGHT_BRACE, LINE_FEED],
        encode_utf8(seq![' ', '{', '\n', '\t']) == seq![SPACE, LEFT_BRACE, LINE_FEED, TAB],
        encode_utf8(Seq::<char>::empty()) == Seq::<u8>::empty(),
{
    lemma_encode_ascii(seq![' '], seq![SPACE]);
    lemma_encode_ascii(seq!['\t'], seq![TAB]);
    lemma_encode_ascii(seq![' ', ',', ' '], seq![SPACE, COMMA, SPACE]);
    lemma_encode_ascii(seq![' ', ';', '\n'], seq![SPACE, SEMICOLON, LINE_FEED]);
    lemma_encode_ascii(seq![' ', '.', '\n'], seq![SPACE, DOT, LINE_FEED]);
    lemma_encode_ascii(seq!['}', '\n'], seq![RIGHT_BRACE, LINE_FEED]);
    lemma_encode_ascii(seq![' ', '{', '\n', '\t'], seq![SPACE, LEFT_BRACE, LINE_FEED, TAB]);
    lemma_no_text();
    assert(encode_utf8(Seq::<char>::empty()) =~= Seq::<u8>::empty());
}

/// The bytes of a triple as it is written.
proof fn lemma_triple_text_bytes(quad: QuadModel)
    requires
        is_plain_quad(quad),
    ensures
        encode_utf8(triple_text(quad)) == triple_bytes(quad),
{
    lemma_written_marks();
    let subject = term_text(quad.subject);
    let space = seq![' '];
    let verb = named_node_text(quad.predicate);
    let object = term_text(quad.object);
    lemma_node_bytes(quad.subject);
    lemma_named_node_bytes(quad.predicate);
    lemma_object_bytes(quad.object);
    lemma_encode_in_two(subject + space + verb + space, object);
    lemma_encode_in_two(subject + space + verb, space);
    lemma_encode_in_two(subject + space, verb);
    lemma_encode_in_two(subject, space);
}

/// The bytes of the end of the open triple and of the open graph block.
proof fn lemma_closing_text_bytes(writer: WriterModel)
    ensures
        encode_utf8(writer.closing_text()) == closing_bytes(writer),
        encode_utf8(indent(writer.graph_name)) == indent_bytes(writer.graph_name),
{
    lemma_written_marks();
    lemma_encode_in_two(triple_closing(writer.current), graph_closing(writer.graph_name));
}

/// The bytes of the line that opens the block of a graph.
proof fn lemma_opening_text_bytes(graph: Option<TermModel>)
    requires
        is_plain_graph(graph),
    ensures
        encode_utf8(graph_opening(graph)) == opening_bytes(graph),
{
    lemma_written_marks();
    match graph {
        Some(name) => {
            lemma_node_bytes(name);
            lemma_encode_in_two(term_text(name), seq![' ', '{', '\n', '\t']);
        },
        None => {},
    }
}

/// The bytes that a quad adds in a state of the writer are the encoding of
/// the text that it adds.
#[verifier::rlimit(50)]
proof fn lemma_step_text_bytes(writer: WriterModel, quad: QuadModel)
    requires
        is_plain_quad(quad),
    ensures
        encode_utf8(writer.text_for(quad)) == step_bytes(writer, quad),
{
    lemma_written_marks();
    lemma_closing_text_bytes(writer);
    lemma_triple_text_bytes(quad);
    lemma_object_bytes(quad.object);
    lemma_named_node_bytes(quad.predicate);
    let tab = indent(writer.graph_name);
    let object = term_text(quad.object);
    if quad.graph_name == writer.graph_name {
        match writer.current {
            Some((subject, predicate)) => {
                if quad.subject == subject {
                    if quad.predicate == predicate {
                        lemma_encode_in_two(seq![' ', ',', ' '], object);
                    } else {
                        let mark = seq![' ', ';', '\n'];
                        let verb = named_node_text(quad.predicate);
                        lemma_encode_in_two(mark + tab + seq!['\t'] + verb + seq![' '], object);
                        lemma_encode_in_two(mark + tab + seq!['\t'] + verb, seq![' ']);
                        lemma_encode_in_two(mark + tab + seq!['\t'], verb);
                        lemma_encode_in_two(mark + tab, seq!['\t']);
                        lemma_encode_in_two(mark, tab);
                    }
                } else {
                    let mark = seq![' ', '.', '\n'];
                    lemma_encode_in_two(mark + tab, triple_text(quad));
                    lemma_encode_in_two(mark, tab);
                }
            },
            None => {
                lemma_encode_in_two(tab, triple_text(quad));
            },
        }
    } else {
        lemma_opening_text_bytes(quad.graph_name);
        let closing = triple_closing(writer.current) + graph_closing(writer.graph_name);
        lemma_encode_in_two(closing + graph_opening(quad.graph_name), triple_text(quad));
        lemma_encode_in_two(closing, graph_opening(quad.graph_name));
    }
}

/// The bytes that quads add in a state of the writer, up to the end of the
/// document, are the encoding of the text that they add.
proof fn lemma_tail_text_bytes(writer: WriterModel, quads: Seq<QuadModel>)
    requires
        forall|i: int| 0 <= i < quads.len() ==> is_plain_quad(#[trigger] quads[i]),
    ensures
        encode_utf8(writer.text_for_all(quads) + writer.after_all(quads).closing_text())
            == tail_bytes(writer, quads),
    decreases quads.len(),
{
    if quads.len() == 0 {
        lemma_closing_text_bytes(writer);
        assert(writer.text_for_all(quads) + writer.closing_text() =~= writer.closing_text());
    } else {
        let quad = quads[0];
        let later = quads.drop_first();
        let next = writer.after(quad);
        assert forall|i: int| 0 <= i < later.len() implies is_plain_quad(#[trigger] later[i]) by {
            assert(later[i] == quads[i + 1]);
        }
        lemma_step_text_bytes(writer, quad);
        lemma_tail_text_bytes(next, later);
        let tail = next.text_for_all(later) + next.after_all(later).closing_text();
        assert(writer.text_for_all(quads) + writer.after_all(quads).closing_text()
            =~= writer.text_for(quad) + tail);
        lemma_encode_in_two(writer.text_for(quad), tail);
    }
}

/// What the writer writes, the reader reads back: quads that hold no quoted
/// triple, and whose IRIs, blank node identifiers and language tags are
/// plain, are written as a document of which a reader without a base reads
/// these quads, in their order, and no error. Each blank node is read as the
/// blank node of the reader's own scope that the reader takes it for once it
/// has heard of all the quads; every other term is read as it was written.
/// The reader is handed the document as one piece; any other pieces come to
/// the same.
#[verifier::rlimit(80)]
pub proof fn lemma_written_quads_are_read_back(
    prefixes: Seq<(Seq<char>, Seq<char>)>,
    with_quoted_triples: bool,
    scope: Seq<char>,
    quads: Seq<QuadModel>,
)
    requires
        forall|i: int| 0 <= i < quads.len() ==> is_plain_quad(#[trigger] quads[i]),
        3 * quads.len() <= u64::MAX,
    ensures
        run(
            ReaderModel::initial(
                RecognizerModel::initial(None, prefixes, with_quoted_triples, scope),
            ),
            seq![encode_utf8(document_text(quads))],
        ).1 == quad_items(
            renamed_quads(
                heard_all(
                    RecognizerModel::initial(None, prefixes, with_quoted_triples, scope),
                    quads,
                ),
                quads,
            ),
        ),
        run(
            ReaderModel::initial(
                RecognizerModel::initial(None, prefixes, with_quoted_triples, scope),
            ),
            seq![encode_utf8(document_text(quads))],
        ).0.is_end(),
{
    let settings = RecognizerModel::initial(None, prefixes, with_quoted_triples, scope);
    let fresh = ReaderModel::initial(settings);
    let document = encode_utf8(document_text(quads));
    let chunks = seq![document];
    let last = heard_all(settings, quads);
    // Handing in the document and then announcing the end comes to handing
    // in the document and its end at once.
    let handed = fresh.extend(document);
    let (fed, items) = drain(handed);
    assert(chunks.drop_first() =~= Seq::<Seq<u8>>::empty());
    assert(feed(fed, chunks.drop_first()) == (fed, Seq::<Item>::empty()));
    assert(items + Seq::<Item>::empty() =~= items);
    assert(feed(fresh, chunks) == (fed, items));
    lemma_drain_whenever(handed, Seq::empty(), true);
    assert(handed.input + Seq::<u8>::empty() =~= handed.input);
    assert(fed.input + Seq::<u8>::empty() =~= fed.input);
    let reader = handed.end();
    assert(arrive(handed, Seq::empty(), true) == reader);
    assert(arrive(fed, Seq::empty(), true) == fed.end());
    assert(run(fresh, chunks) == drain(reader));
    // The reader has all of the document; what it reads is what was written.
    let writer = WriterModel::initial();
    lemma_tail_text_bytes(writer, quads);
    assert(reader.input =~= tail_bytes(writer, quads));
    assert(settings == outside(settings));
    if quads.len() == 0 {
        assert(reader.input =~= Seq::<u8>::empty());
        lemma_end_is_reached(reader);
        assert(quad_items(renamed_quads(last, quads)) =~= Seq::<Item>::empty());
    } else {
        let quad = quads[0];
        let later = quads.drop_first();
        let next = writer.after(quad);
        let rest = tail_bytes(next, later);
        let then = heard(settings, quad);
        let taken = quad_as_heard(settings, quad);
        lemma_tail_starts_with_a_space(next, later);
        assert forall|i: int| 0 <= i < later.len() implies is_plain_quad(#[trigger] later[i]) by {
            assert(later[i] == quads[i + 1]);
        }
        lemma_heard_is_the_same_otherwise(settings, quad);
        lemma_heard_is_known(settings, quad);
        lemma_heard_quad_stays(settings, quad, later);
        lemma_renamed_quads_in_two(last, quads);
        assert(last == heard_all(then, later));
        let blanks = Seq::<u8>::empty();
        assert(step_bytes(writer, quad) =~= blanks + opening_bytes(quad.graph_name)
            + triple_bytes(quad));
        assert(reader.input =~= blanks + opening_bytes(quad.graph_name) + triple_bytes(quad)
            + rest);
        lemma_first_statement_is_read(reader, settings, blanks, quad, rest);
        let done = statement_read(settings, quad);
        let count = (blanks.len() + opening_bytes(quad.graph_name).len() + triple_bytes(
            quad,
        ).len()) as int;
        let after = past(reader, count, done);
        lemma_rest_is_read(
            after,
            then,
            next,
            taken.graph_name,
            taken.subject,
            Seq::empty(),
            taken.object,
            later,
        );
        assert(Seq::<QuadModel>::empty().push(taken) + renamed_quads(last, later)
            =~= renamed_quads(last, quads));
        assert(Seq::<Item>::empty() + drain(after).1 =~= drain(after).1);
    }
}

/// Quads without blank nodes are read back as they were written: quads that
/// hold neither blank nodes nor quoted triples, and whose IRIs and language
/// tags are plain, are written as a document of which a reader without a
/// base reads exactly these quads, in their order, and no error.
pub proof fn lemma_quads_without_blank_nodes_are_read_back(
    prefixes: Seq<(Seq<char>, Seq<char>)>,
    with_quoted_triples: bool,
    scope: Seq<char>,
    quads: Seq<QuadModel>,
)
    requires
        forall|i: int| 0 <= i < quads.len() ==> is_plain_quad(#[trigger] quads[i]),
        forall|i: int| 0 <= i < quads.len() ==> has_no_blank_node(#[trigger] quads[i]),
        3 * quads.len() <= u64::MAX,
    ensures
        run(
            ReaderModel::initial(
                RecognizerModel::initial(None, prefixes, with_quoted_triples, scope),
            ),
            seq![encode_utf8(document_text(quads))],
        ).1 == quad_items(quads),
        run(
            ReaderModel::initial(
                RecognizerModel::initial(None, prefixes, with_quoted_triples, scope),
            ),
            seq![encode_utf8(document_text(quads))],
        ).0.is_end(),
{
    let settings = RecognizerModel::initial(None, prefixes, with_quoted_triples, scope);
    lemma_written_quads_are_read_back(prefixes, with_quoted_triples, scope, quads);
    lemma_nothing_else_is_renamed(heard_all(settings, quads), quads);
}

} // verus!
