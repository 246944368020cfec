//! Blank nodes stay within the parse that made them: every blank node that
//! a reader hands out has an identifier of the scope of that reader, and
//! identifiers of two scopes are never the same.

use crate::grammar::{
    blank_id, decimal_text, digit_char, rdf_first, rdf_rest, FrameModel, Outcome, Read,
    RecognizerModel,
};
use crate::lexer::{lex, LexedModel, TokenModel};
use crate::model::{QuadModel, TermModel};
use crate::stream::ReaderModel;
use vstd::prelude::*;

verus! {

/// Tells whether an identifier is one of the blank nodes of a scope.
pub open spec fn has_scope(id: Seq<char>, scope: Seq<char>) -> bool {
    exists|n: nat| id == #[trigger] blank_id(scope, n)
}

/// Tells whether every blank node in a term is one of a scope.
pub open spec fn in_scope(term: TermModel, scope: Seq<char>) -> bool
    decreases term,
{
    match term {
        TermModel::Blank(id) => has_scope(id, scope),
        TermModel::Triple(triple) => in_scope(triple.subject, scope) && in_scope(
            triple.object,
            scope,
        ),
        _ => true,
    }
}

/// Tells whether every blank node in a quad is one of a scope.
pub open spec fn quad_in_scope(quad: QuadModel, scope: Seq<char>) -> bool {
    &&& in_scope(quad.subject, scope)
    &&& in_scope(quad.object, scope)
    &&& quad.graph_name matches Some(name) ==> in_scope(name, scope)
}

/// Tells whether a term holds the blank node with an identifier.
pub open spec fn mentions(term: TermModel, id: Seq<char>) -> bool
    decreases term,
{
    match term {
        TermModel::Blank(other) => other == id,
        TermModel::Triple(triple) => mentions(triple.subject, id) || mentions(triple.object, id),
        _ => false,
    }
}

/// Tells whether a quad holds the blank node with an identifier.
pub open spec fn quad_mentions(quad: QuadModel, id: Seq<char>) -> bool {
    ||| mentions(quad.subject, id)
    ||| mentions(quad.object, id)
    ||| quad.graph_name matches Some(name) && mentions(name, id)
}

/// A number in decimal digits holds digits only.
pub proof fn lemma_decimal_text_is_digits(n: nat)
    ensures
        decimal_text(n).len() > 0,
        forall|i: int|
            0 <= i < decimal_text(n).len() ==> '0' <= #[trigger] decimal_text(n)[i] <= '9',
    decreases n,
{
    if n >= 10 {
        lemma_decimal_text_is_digits(n / 10);
    }
}

/// The number that decimal digits stand for.
pub open spec fn decimal_value(text: Seq<char>) -> nat
    decreases text.len(),
{
    if text.len() == 0 {
        0
    } else {
        (decimal_value(text.drop_last()) * 10 + (text.last() as u32 - 0x30)) as nat
    }
}

/// A number in decimal digits stands for that number.
pub proof fn lemma_decimal_text_is_read_back(n: nat)
    ensures
        decimal_value(decimal_text(n)) == n,
    decreases n,
{
    if n < 10 {
        let text = decimal_text(n);
        assert(text.drop_last() =~= Seq::<char>::empty());
        assert(decimal_value(text.drop_last()) == 0);
        assert(text.last() == digit_char(n));
    } else {
        lemma_decimal_text_is_read_back(n / 10);
        let text = decimal_text(n);
        assert(text.drop_last() =~= decimal_text(n / 10));
        assert(text.last() == digit_char(n % 10));
    }
}

/// Within a scope, blank nodes with different numbers have different
/// identifiers: a blank node that is made anew is none of those before it.
pub proof fn lemma_numbers_keep_apart(scope: Seq<char>, n: nat, m: nat)
    requires
        n != m,
    ensures
        blank_id(scope, n) != blank_id(scope, m),
{
    let x = blank_id(scope, n);
    let y = blank_id(scope, m);
    let a = decimal_text(n);
    let b = decimal_text(m);
    lemma_decimal_text_is_read_back(n);
    lemma_decimal_text_is_read_back(m);
    if x == y {
        assert(x.len() == 1 + a.len() + 1 + scope.len());
        assert(y.len() == 1 + b.len() + 1 + scope.len());
        assert(x.subrange(1, 1 + a.len() as int) =~= a);
        assert(y.subrange(1, 1 + b.len() as int) =~= b);
    }
}

/// Identifiers of blank nodes of two scopes are never the same.
pub proof fn lemma_scopes_keep_apart(first: Seq<char>, n: nat, second: Seq<char>, m: nat)
    requires
        first != second,
    ensures
        blank_id(first, n) != blank_id(second, m),
{
    lemma_decimal_text_is_digits(n);
    lemma_decimal_text_is_digits(m);
    let a = seq!['b'] + decimal_text(n);
    let b = seq!['b'] + decimal_text(m);
    let x = blank_id(first, n);
    let y = blank_id(second, m);
    assert(x =~= a + seq!['_'] + first);
    assert(y =~= b + seq!['_'] + second);
    if x == y {
        assert(x[a.len() as int] == '_');
        assert(y[b.len() as int] == '_');
        if a.len() < b.len() {
            assert(y[a.len() as int] == b[a.len() as int]);
            assert(b[a.len() as int] == decimal_text(m)[a.len() - 1]);
        } else if b.len() < a.len() {
            assert(x[b.len() as int] == a[b.len() as int]);
            assert(a[b.len() as int] == decimal_text(n)[b.len() - 1]);
        } else {
            assert(x.skip(a.len() as int + 1) =~= first);
            assert(y.skip(b.len() as int + 1) =~= second);
        }
    }
}

/// Terms of two scopes hold no blank node in common.
pub proof fn lemma_terms_keep_apart(
    one: TermModel,
    first: Seq<char>,
    other: TermModel,
    second: Seq<char>,
    id: Seq<char>,
)
    requires
        first != second,
        in_scope(one, first),
        in_scope(other, second),
    ensures
        !(mentions(one, id) && mentions(other, id)),
    decreases one, other,
{
    match one {
        TermModel::Blank(a) => {
            match other {
                TermModel::Blank(b) => {
                    if a == id && b == id {
                        let n = choose|n: nat| a == #[trigger] blank_id(first, n);
                        let m = choose|m: nat| b == #[trigger] blank_id(second, m);
                        lemma_scopes_keep_apart(first, n, second, m);
                    }
                },
                TermModel::Triple(triple) => {
                    lemma_terms_keep_apart(one, first, triple.subject, second, id);
                    lemma_terms_keep_apart(one, first, triple.object, second, id);
                },
                _ => {},
            }
        },
        TermModel::Triple(triple) => {
            lemma_terms_keep_apart(triple.subject, first, other, second, id);
            lemma_terms_keep_apart(triple.object, first, other, second, id);
        },
        _ => {},
    }
}

/// Quads of two scopes hold no blank node in common.
pub proof fn lemma_quads_keep_apart(
    one: QuadModel,
    first: Seq<char>,
    other: QuadModel,
    second: Seq<char>,
    id: Seq<char>,
)
    requires
        first != second,
        quad_in_scope(one, first),
        quad_in_scope(other, second),
    ensures
        !(quad_mentions(one, id) && quad_mentions(other, id)),
{
    lemma_terms_keep_apart(one.subject, first, other.subject, second, id);
    lemma_terms_keep_apart(one.subject, first, other.object, second, id);
    lemma_terms_keep_apart(one.object, first, other.subject, second, id);
    lemma_terms_keep_apart(one.object, first, other.object, second, id);
    match one.graph_name {
        Some(name) => {
            lemma_terms_keep_apart(name, first, other.subject, second, id);
            lemma_terms_keep_apart(name, first, other.object, second, id);
            match other.graph_name {
                Some(other_name) => {
                    lemma_terms_keep_apart(name, first, other_name, second, id);
                },
                None => {},
            }
        },
        None => {},
    }
    match other.graph_name {
        Some(other_name) => {
            lemma_terms_keep_apart(one.subject, first, other_name, second, id);
            lemma_terms_keep_apart(one.object, first, other_name, second, id);
        },
        None => {},
    }
}

/// Tells whether every blank node in a frame is one of a scope.
pub open spec fn frame_in_scope(frame: FrameModel, scope: Seq<char>) -> bool {
    match frame {
        FrameModel::GraphOrTriples { node } => in_scope(node, scope),
        _ => true,
    }
}

/// Tells whether every blank node that a recognizer holds is one of its scope.
pub open spec fn scoped(state: RecognizerModel) -> bool {
    &&& forall|i: int|
        0 <= i < state.stack.len() ==> frame_in_scope(#[trigger] state.stack[i], state.scope)
    &&& forall|i: int|
        0 <= i < state.subjects.len() ==> in_scope(#[trigger] state.subjects[i], state.scope)
    &&& forall|i: int|
        0 <= i < state.objects.len() ==> in_scope(#[trigger] state.objects[i], state.scope)
    &&& forall|i: int|
        0 <= i < state.pending.len() ==> quad_in_scope(#[trigger] state.pending[i], state.scope)
    &&& state.graph_name matches Some(name) ==> in_scope(name, state.scope)
}

/// Tells whether a step left a recognizer within its scope.
pub open spec fn stays(before: RecognizerModel, after: RecognizerModel) -> bool {
    scoped(after) && after.scope == before.scope
}

proof fn lemma_fresh_stays(state: RecognizerModel)
    requires
        scoped(state),
    ensures
        state.fresh() matches Some((next, blank)) ==> stays(state, next) && in_scope(
            blank,
            state.scope,
        ),
{
}

proof fn lemma_node_stays(state: RecognizerModel, token: TokenModel)
    requires
        scoped(state),
    ensures
        stays(state, state.node(token).0),
        state.node(token).1 matches Read::Value(node) ==> in_scope(node, state.scope),
{
    lemma_fresh_stays(state);
}

proof fn lemma_verb_stays(state: RecognizerModel, token: TokenModel)
    requires
        scoped(state),
    ensures
        stays(state, state.verb(token).0),
{
}

proof fn lemma_simple_object_stays(state: RecognizerModel, token: TokenModel)
    requires
        scoped(state),
    ensures
        stays(state, state.simple_object(token).0),
{
    lemma_node_stays(state, token);
}

proof fn lemma_object_stays(state: RecognizerModel, token: TokenModel)
    requires
        scoped(state),
    ensures
        stays(state, state.object(token).0),
{
    lemma_simple_object_stays(state, token);
}

proof fn lemma_subject_stays(state: RecognizerModel, token: TokenModel)
    requires
        scoped(state),
    ensures
        stays(state, state.subject(token).0),
{
    lemma_node_stays(state, token);
}

proof fn lemma_document_stays(state: RecognizerModel, token: TokenModel)
    requires
        scoped(state),
    ensures
        stays(state, state.document(token).0),
{
    let fresh = RecognizerModel { mode: crate::grammar::Mode::Parsing, graph_name: None, ..state };
    lemma_node_stays(fresh, token);
    lemma_subject_stays(fresh.push(FrameModel::StatementEnd), token);
}

#[verifier::rlimit(50)]

proof fn lemma_collection_next_stays(state: RecognizerModel, token: TokenModel)
    requires
        scoped(state),
    ensures
        stays(state, state.collection_next(token).0),
{
    if !(state.subjects.len() < 2 || state.objects.len() == 0) {
        let node = state.subjects.last();
        let with_item = state.pop_object().keep(node, rdf_first(), state.objects.last());
        assert(scoped(with_item));
        lemma_fresh_stays(with_item);
        match with_item.fresh() {
            Some((next, blank)) => {
                let ready = next.keep(node, rdf_rest(), blank).pop_subject().push_subject(
                    blank,
                ).push(FrameModel::CollectionNext);
                assert(scoped(ready));
                lemma_object_stays(ready, token);
            },
            None => {},
        }
    }
}

#[verifier::rlimit(50)]

proof fn lemma_frame_step_stays(state: RecognizerModel, frame: FrameModel, token: TokenModel)
    requires
        scoped(state),
        frame_in_scope(frame, state.scope),
    ensures
        stays(state, state.frame_step(frame, token).0),
{
    lemma_fresh_stays(state);
    lemma_node_stays(state, token);
    match frame {
        FrameModel::GraphOrTriples { node } => {
            lemma_verb_stays(
                state.push_subject(node).push(FrameModel::StatementEnd).push_objects(),
                token,
            );
        },
        FrameModel::OuterBracket => {
            match state.anonymous_subject() {
                Some(next) => {
                    lemma_verb_stays(
                        next.push(FrameModel::StatementEnd).push(
                            FrameModel::OptionalPredicates,
                        ).push(FrameModel::SubjectListEnd).push_objects(),
                        token,
                    );
                },
                None => {},
            }
        },
        FrameModel::GraphBody => {
            lemma_subject_stays(state.push(FrameModel::GraphBodyEnd), token);
        },
        FrameModel::InnerBracket => {
            match state.anonymous_subject() {
                Some(next) => {
                    lemma_verb_stays(
                        next.push(FrameModel::OptionalPredicates).push(
                            FrameModel::SubjectListEnd,
                        ).push_objects(),
                        token,
                    );
                },
                None => {},
            }
        },
        FrameModel::OptionalPredicates => {
            lemma_verb_stays(state.push_objects(), token);
        },
        FrameModel::Verb => {
            lemma_verb_stays(state, token);
        },
        FrameModel::Object => {
            lemma_object_stays(state, token);
        },
        FrameModel::AfterSemicolon => {
            lemma_verb_stays(state.push_objects(), token);
        },
        FrameModel::ObjectBracket => {
            match state.fresh() {
                Some((next, blank)) => {
                    lemma_verb_stays(
                        next.push_subject(blank).push(FrameModel::ObjectListClose).push_objects(),
                        token,
                    );
                },
                None => {},
            }
        },
        FrameModel::CollectionFirst => {
            match state.fresh() {
                Some((next, blank)) => {
                    lemma_object_stays(
                        next.push_subject(blank).push_subject(blank).push(
                            FrameModel::CollectionNext,
                        ),
                        token,
                    );
                },
                None => {},
            }
        },
        FrameModel::CollectionNext => {
            lemma_collection_next_stays(state, token);
        },
        FrameModel::QuotedObject => {
            lemma_simple_object_stays(state, token);
        },
        _ => {},
    }
}

/// What a token does to a recognizer leaves it within its scope, and the
/// quads that it releases are within that scope.
pub proof fn lemma_recognize_stays(state: RecognizerModel, token: TokenModel)
    requires
        scoped(state),
    ensures
        stays(state, state.recognize(token).0),
        state.recognize(token).1 matches Ok(quads) ==> forall|i: int|
            0 <= i < quads.len() ==> quad_in_scope(#[trigger] quads[i], state.scope),
{
    reveal(RecognizerModel::recognize);
    if state.mode != crate::grammar::Mode::Skipping {
        lemma_dispatch_stays(state, token);
    }
}

#[verifier::rlimit(50)]

proof fn lemma_dispatch_stays(state: RecognizerModel, token: TokenModel)
    requires
        scoped(state),
    ensures
        stays(state, state.dispatch(token).0),
        state.dispatch(token).1 matches Ok(quads) ==> forall|i: int|
            0 <= i < quads.len() ==> quad_in_scope(#[trigger] quads[i], state.scope),
    decreases state.stack.len(),
{
    if state.stack.len() == 0 {
        lemma_document_stays(state, token);
    } else {
        let below = RecognizerModel { stack: state.stack.drop_last(), ..state };
        assert(scoped(below)) by {
            assert forall|i: int| 0 <= i < below.stack.len() implies frame_in_scope(
                #[trigger] below.stack[i],
                below.scope,
            ) by {
                assert(below.stack[i] == state.stack[i]);
            }
        }
        lemma_frame_step_stays(below, state.stack.last(), token);
        let (next, outcome) = below.frame_step(state.stack.last(), token);
        if outcome == Outcome::Passed {
            lemma_dispatch_stays(RecognizerModel { stack: below.stack, ..next }, token);
        }
    }
}

/// Tells whether every blank node that a reader holds is one of its scope.
pub open spec fn reader_scoped(reader: ReaderModel) -> bool {
    &&& scoped(reader.recognizer)
    &&& forall|i: int|
        0 <= i < reader.ready.len() ==> (#[trigger] reader.ready[i] matches Ok(quad)
            ==> quad_in_scope(quad, reader.recognizer.scope))
}

/// A reader holds no blank node before its first byte.
pub proof fn lemma_initial_reader_is_scoped(
    base: Option<Seq<char>>,
    prefixes: Seq<(Seq<char>, Seq<char>)>,
    with_quoted_triples: bool,
    scope: Seq<char>,
)
    ensures
        reader_scoped(
            ReaderModel::initial(
                RecognizerModel::initial(base, prefixes, with_quoted_triples, scope),
            ),
        ),
{
}

/// `read_next` leaves a reader within its scope, and a quad that it hands
/// out is within that scope.
#[verifier::rlimit(50)]
pub proof fn lemma_read_stays(reader: ReaderModel)
    requires
        reader_scoped(reader),
    ensures
        reader_scoped(reader.read().0),
        reader.read().0.recognizer.scope == reader.recognizer.scope,
        reader.read().1 matches Some(Ok(quad)) ==> quad_in_scope(quad, reader.recognizer.scope),
    decreases
            (if reader.finished {
                0nat
            } else {
                1nat
            }),
            reader.input.len(),
{
    if reader.ready.len() > 0 {
        let rest = reader.ready.drop_first();
        assert forall|i: int| 0 <= i < rest.len() implies (#[trigger] rest[i] matches Ok(quad)
            ==> quad_in_scope(quad, reader.recognizer.scope)) by {
            assert(rest[i] == reader.ready[i + 1]);
        }
    } else if reader.finished {
    } else {
        match lex(reader.input, reader.is_ending, reader.position.offset == 0) {
            LexedModel::More => {},
            LexedModel::End => {
                lemma_read_stays(reader.finish());
            },
            LexedModel::Token { start, end, token } => {
                if 0 <= start < end <= reader.input.len() {
                    lemma_recognize_stays(reader.recognizer, token);
                    let next = reader.take_token(start, end, token);
                    assert(reader_scoped(next));
                    lemma_read_stays(next);
                }
            },
            LexedModel::Bad { start, end, kind } => {
                if 0 <= start < end <= reader.input.len() {
                    lemma_read_stays(reader.take_bad(start, end, kind));
                }
            },
        }
    }
}

} // verus!
