//! What holds of every quad that a reader hands out: its IRIs are resolved,
//! its language tags are well-formed and in lower case, and it belongs to a
//! statement that has ended.

use crate::format::{xsd_boolean, xsd_decimal, xsd_double, xsd_integer};
use crate::grammar::{
    rdf_first, rdf_nil, rdf_rest, rdf_type, FrameModel, Mode, Outcome, Read, RecognizerModel,
};
use crate::iri::{is_absolute_iri, resolved_iri};
use crate::lexer::{lex, LexedModel, TokenKind, TokenModel};
use crate::model::{LiteralModel, QuadModel, TermModel};
use crate::readback::{is_plain_tag, lemma_handed_out_tag_is_plain};
use crate::stream::ReaderModel;
use vstd::prelude::*;
use vstd::utf8::encode_utf8;

verus! {

/// Tells whether an IRI comes out of a resolution against a base.
pub open spec fn comes_of_a_base(iri: Seq<char>) -> bool {
    exists|base: Seq<char>, reference: Seq<char>|
        is_absolute_iri(base) && #[trigger] resolved_iri(base, reference) == Some(iri)
}

/// Tells whether an IRI is one that the grammar itself stands for: the
/// predicates of `a` and of collections, and the datatypes of bare literals.
pub open spec fn is_of_the_grammar(iri: Seq<char>) -> bool {
    ||| iri == rdf_type()
    ||| iri == rdf_first()
    ||| iri == rdf_rest()
    ||| iri == rdf_nil()
    ||| iri == xsd_boolean()
    ||| iri == xsd_integer()
    ||| iri == xsd_decimal()
    ||| iri == xsd_double()
}

/// Tells whether an IRI is resolved: it was accepted as an absolute IRI, it
/// comes out of a resolution against a base, or the grammar stands for it.
pub open spec fn is_resolved(iri: Seq<char>) -> bool {
    is_absolute_iri(iri) || comes_of_a_base(iri) || is_of_the_grammar(iri)
}

/// Tells whether every IRI in a term is resolved, and every language tag in
/// it well-formed and in lower case.
pub open spec fn term_is_resolved(term: TermModel) -> bool
    decreases term,
{
    match term {
        TermModel::Named(iri) => is_resolved(iri),
        TermModel::Blank(_) => true,
        TermModel::Literal(LiteralModel::Typed { datatype, .. }) => is_resolved(datatype),
        TermModel::Literal(LiteralModel::LanguageTagged { language, .. }) => is_plain_tag(
            encode_utf8(language),
        ),
        TermModel::Literal(_) => true,
        TermModel::Triple(triple) => term_is_resolved(triple.subject) && is_resolved(
            triple.predicate,
        ) && term_is_resolved(triple.object),
    }
}

/// Tells whether every IRI in a quad is resolved, and every language tag in
/// it well-formed and in lower case.
pub open spec fn quad_is_resolved(quad: QuadModel) -> bool {
    &&& term_is_resolved(quad.subject)
    &&& is_resolved(quad.predicate)
    &&& term_is_resolved(quad.object)
    &&& match quad.graph_name {
        Some(name) => term_is_resolved(name),
        None => true,
    }
}

/// Tells whether every IRI in a frame is resolved.
pub open spec fn frame_is_resolved(frame: FrameModel) -> bool {
    match frame {
        FrameModel::GraphOrTriples { node } => term_is_resolved(node),
        _ => true,
    }
}

/// Tells whether every IRI in the terms that a recognizer holds is resolved.
pub open spec fn holds_resolved(state: RecognizerModel) -> bool {
    &&& forall|i: int| 0 <= i < state.stack.len() ==> frame_is_resolved(#[trigger] state.stack[i])
    &&& forall|i: int|
        0 <= i < state.subjects.len() ==> term_is_resolved(#[trigger] state.subjects[i])
    &&& forall|i: int|
        0 <= i < state.predicates.len() ==> is_resolved(#[trigger] state.predicates[i])
    &&& forall|i: int| 0 <= i < state.objects.len() ==> term_is_resolved(#[trigger] state.objects[i])
    &&& forall|i: int| 0 <= i < state.pending.len() ==> quad_is_resolved(#[trigger] state.pending[i])
    &&& match state.graph_name {
        Some(name) => term_is_resolved(name),
        None => true,
    }
}

/// The IRI that a token stands for is resolved.
pub proof fn lemma_named_is_resolved(state: RecognizerModel, token: TokenModel)
    ensures
        state.named(token) matches Read::Value(iri) ==> is_resolved(iri),
{
    if token.kind == TokenKind::IriRef {
        match state.base {
            Some(base) => {
                if is_absolute_iri(base) && resolved_iri(base, token.text) is Some {
                    assert(comes_of_a_base(resolved_iri(base, token.text).unwrap()));
                }
            },
            None => {},
        }
    }
}

proof fn lemma_node_is_resolved(state: RecognizerModel, token: TokenModel)
    requires
        holds_resolved(state),
    ensures
        holds_resolved(state.node(token).0),
        state.node(token).1 matches Read::Value(node) ==> term_is_resolved(node),
{
    lemma_named_is_resolved(state, token);
}

proof fn lemma_verb_is_resolved(state: RecognizerModel, token: TokenModel)
    requires
        holds_resolved(state),
    ensures
        holds_resolved(state.verb(token).0),
{
    lemma_named_is_resolved(state, token);
}

proof fn lemma_simple_object_is_resolved(state: RecognizerModel, token: TokenModel)
    requires
        holds_resolved(state),
    ensures
        holds_resolved(state.simple_object(token).0),
{
    lemma_node_is_resolved(state, token);
}

proof fn lemma_object_is_resolved(state: RecognizerModel, token: TokenModel)
    requires
        holds_resolved(state),
    ensures
        holds_resolved(state.object(token).0),
{
    lemma_simple_object_is_resolved(state, token);
}

proof fn lemma_subject_is_resolved(state: RecognizerModel, token: TokenModel)
    requires
        holds_resolved(state),
    ensures
        holds_resolved(state.subject(token).0),
{
    lemma_node_is_resolved(state, token);
}

proof fn lemma_document_is_resolved(state: RecognizerModel, token: TokenModel)
    requires
        holds_resolved(state),
    ensures
        holds_resolved(state.document(token).0),
{
    let fresh = RecognizerModel { mode: Mode::Parsing, graph_name: None, ..state };
    lemma_node_is_resolved(fresh, token);
    lemma_subject_is_resolved(fresh.push(FrameModel::StatementEnd), token);
}

proof fn lemma_collection_next_is_resolved(state: RecognizerModel, token: TokenModel)
    requires
        holds_resolved(state),
    ensures
        holds_resolved(state.collection_next(token).0),
{
    if !(state.subjects.len() < 2 || state.objects.len() == 0) {
        let node = state.subjects.last();
        let with_item = state.pop_object().keep(node, rdf_first(), state.objects.last());
        assert(holds_resolved(with_item));
        match with_item.fresh() {
            Some((next, blank)) => {
                let ready = next.keep(node, rdf_rest(), blank).pop_subject().push_subject(
                    blank,
                ).push(FrameModel::CollectionNext);
                assert(holds_resolved(ready));
                lemma_object_is_resolved(ready, token);
            },
            None => {},
        }
    }
}

#[verifier::rlimit(50)]
proof fn lemma_frame_step_is_resolved(
    state: RecognizerModel,
    frame: FrameModel,
    token: TokenModel,
)
    requires
        holds_resolved(state),
        frame_is_resolved(frame),
    ensures
        holds_resolved(state.frame_step(frame, token).0),
{
    lemma_node_is_resolved(state, token);
    lemma_named_is_resolved(state, token);
    match frame {
        FrameModel::GraphOrTriples { node } => {
            lemma_verb_is_resolved(
                state.push_subject(node).push(FrameModel::StatementEnd).push_objects(),
                token,
            );
        },
        FrameModel::OuterBracket => {
            match state.anonymous_subject() {
                Some(next) => {
                    lemma_verb_is_resolved(
                        next.push(FrameModel::StatementEnd).push(
                            FrameModel::OptionalPredicates,
                        ).push(FrameModel::SubjectListEnd).push_objects(),
                        token,
                    );
                },
                None => {},
            }
        },
        FrameModel::GraphBody => {
            lemma_subject_is_resolved(state.push(FrameModel::GraphBodyEnd), token);
        },
        FrameModel::InnerBracket => {
            match state.anonymous_subject() {
                Some(next) => {
                    lemma_verb_is_resolved(
                        next.push(FrameModel::OptionalPredicates).push(
                            FrameModel::SubjectListEnd,
                        ).push_objects(),
                        token,
                    );
                },
                None => {},
            }
        },
        FrameModel::OptionalPredicates => {
            lemma_verb_is_resolved(state.push_objects(), token);
        },
        FrameModel::Verb => {
            lemma_verb_is_resolved(state, token);
        },
        FrameModel::Object => {
            lemma_object_is_resolved(state, token);
        },
        FrameModel::AfterSemicolon => {
            lemma_verb_is_resolved(state.push_objects(), token);
        },
        FrameModel::ObjectBracket => {
            match state.fresh() {
                Some((next, blank)) => {
                    lemma_verb_is_resolved(
                        next.push_subject(blank).push(FrameModel::ObjectListClose).push_objects(),
                        token,
                    );
                },
                None => {},
            }
        },
        FrameModel::CollectionFirst => {
            match state.fresh() {
                Some((next, blank)) => {
                    lemma_object_is_resolved(
                        next.push_subject(blank).push_subject(blank).push(
                            FrameModel::CollectionNext,
                        ),
                        token,
                    );
                },
                None => {},
            }
        },
        FrameModel::CollectionNext => {
            lemma_collection_next_is_resolved(state, token);
        },
        FrameModel::QuotedObject => {
            lemma_simple_object_is_resolved(state, token);
        },
        FrameModel::LiteralSuffix { value } => {
            lemma_handed_out_tag_is_plain(token.text);
        },
        _ => {},
    }
}

/// Tells whether a token can end a statement: `.` and `}` can.
pub open spec fn ends_a_statement(token: TokenModel) -> bool {
    token.kind == TokenKind::Dot || token.kind == TokenKind::RightBrace
}

/// Only a token that can end a statement makes a frame release quads.
pub proof fn lemma_frames_release_at_the_end(
    state: RecognizerModel,
    frame: FrameModel,
    token: TokenModel,
)
    ensures
        state.frame_step(frame, token).1 == Outcome::Released ==> ends_a_statement(token),
        state.document(token).1 != Outcome::Released,
{
}

#[verifier::rlimit(50)]
proof fn lemma_dispatch_is_resolved(state: RecognizerModel, token: TokenModel)
    requires
        holds_resolved(state),
    ensures
        holds_resolved(state.dispatch(token).0),
        state.dispatch(token).1 matches Ok(quads) ==> {
            &&& forall|i: int| 0 <= i < quads.len() ==> quad_is_resolved(#[trigger] quads[i])
            &&& quads.len() > 0 ==> ends_a_statement(token)
        },
    decreases state.stack.len(),
{
    if state.stack.len() == 0 {
        lemma_document_is_resolved(state, token);
        lemma_frames_release_at_the_end(state, FrameModel::Verb, token);
    } else {
        let below = RecognizerModel { stack: state.stack.drop_last(), ..state };
        assert(holds_resolved(below)) by {
            assert forall|i: int| 0 <= i < below.stack.len() implies frame_is_resolved(
                #[trigger] below.stack[i],
            ) by {
                assert(below.stack[i] == state.stack[i]);
            }
        }
        lemma_frame_step_is_resolved(below, state.stack.last(), token);
        lemma_frames_release_at_the_end(below, state.stack.last(), token);
        let (next, outcome) = below.frame_step(state.stack.last(), token);
        if outcome == Outcome::Passed {
            lemma_dispatch_is_resolved(RecognizerModel { stack: below.stack, ..next }, token);
        }
    }
}

/// What a token does to a recognizer leaves the IRIs that it holds resolved;
/// the quads that the token releases hold resolved IRIs only, and only a
/// token that ends a statement releases quads.
pub proof fn lemma_recognize_is_resolved(state: RecognizerModel, token: TokenModel)
    requires
        holds_resolved(state),
    ensures
        holds_resolved(state.recognize(token).0),
        state.recognize(token).1 matches Ok(quads) ==> {
            &&& forall|i: int| 0 <= i < quads.len() ==> quad_is_resolved(#[trigger] quads[i])
            &&& quads.len() > 0 ==> ends_a_statement(token)
        },
{
    reveal(RecognizerModel::recognize);
    if state.mode != Mode::Skipping {
        lemma_dispatch_is_resolved(state, token);
    }
}

/// Tells whether every IRI in the terms that a reader holds is resolved.
pub open spec fn reader_holds_resolved(reader: ReaderModel) -> bool {
    &&& holds_resolved(reader.recognizer)
    &&& forall|i: int|
        0 <= i < reader.ready.len() ==> (#[trigger] reader.ready[i] matches Ok(quad)
            ==> quad_is_resolved(quad))
}

/// Every quad that `read_next` hands out holds resolved IRIs only: no
/// relative IRI and no prefixed name is left in it. Its language tags are
/// well-formed and in lower case.
pub proof fn lemma_read_is_resolved(reader: ReaderModel)
    requires
        reader_holds_resolved(reader),
    ensures
        reader_holds_resolved(reader.read().0),
        reader.read().1 matches Some(Ok(quad)) ==> quad_is_resolved(quad),
    decreases
            (if reader.finished {
                0nat
            } else {
                1nat
            }),
            reader.input.len(),
{
    if reader.ready.len() > 0 {
        let rest = reader.ready.drop_first();
        assert forall|i: int| 0 <= i < rest.len() implies (#[trigger] rest[i] matches Ok(quad)
            ==> quad_is_resolved(quad)) by {
            assert(rest[i] == reader.ready[i + 1]);
        }
    } else if reader.finished {
    } else {
        match lex(reader.input, reader.is_ending, reader.position.offset == 0) {
            LexedModel::More => {},
            LexedModel::End => {
                lemma_read_is_resolved(reader.finish());
            },
            LexedModel::Token { start, end, token } => {
                if 0 <= start < end <= reader.input.len() {
                    lemma_recognize_is_resolved(reader.recognizer, token);
                    let next = reader.take_token(start, end, token);
                    assert(reader_holds_resolved(next));
                    lemma_read_is_resolved(next);
                }
            },
            LexedModel::Bad { start, end, kind } => {
                if 0 <= start < end <= reader.input.len() {
                    lemma_read_is_resolved(reader.take_bad(start, end, kind));
                }
            },
        }
    }
}

/// A reader holds no term before its first byte.
pub proof fn lemma_initial_reader_holds_resolved(
    base: Option<Seq<char>>,
    prefixes: Seq<(Seq<char>, Seq<char>)>,
    with_quoted_triples: bool,
    scope: Seq<char>,
)
    ensures
        reader_holds_resolved(
            ReaderModel::initial(
                RecognizerModel::initial(base, prefixes, with_quoted_triples, scope),
            ),
        ),
{
}

} // verus!
