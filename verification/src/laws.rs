//! What holds of the reader whatever it is handed: the pieces that the input
//! comes in make no difference to what is read, and errors come in the order
//! of their places.

use crate::error::ParseError;
use crate::lexer::{lex, LexedModel};
use crate::model::QuadModel;
use crate::scope::{
    lemma_quads_keep_apart, lemma_read_stays, quad_in_scope, quad_mentions, reader_scoped,
};
use crate::stability::{lemma_lex_needs_the_end, lemma_lex_stable};
use crate::stream::{
    advance, lemma_pop_moves_forward, lemma_step_moves_forward, step_items, Item, ReaderModel,
};
use vstd::prelude::*;

verus! {

/// The reader with more input, or with the end of its input announced.
pub open spec fn arrive(reader: ReaderModel, more: Seq<u8>, ending: bool) -> ReaderModel {
    if ending {
        reader.extend(more).end()
    } else {
        reader.extend(more)
    }
}

/// `read_next` leaves alone whether the end of the input was announced, takes
/// up input, and where it hands out an item, the queue or the input at hand
/// gets shorter.
pub proof fn lemma_read_keeps_settings(reader: ReaderModel)
    ensures
        reader.read().0.is_ending == reader.is_ending,
        reader.read().0.finished || !reader.finished,
        reader.read().0.finished == reader.finished ==> reader.read().0.input.len()
            <= reader.input.len(),
        reader.read().1 is Some && reader.read().0.finished == reader.finished
            && reader.read().0.input.len() == reader.input.len() ==> reader.read().0.ready.len()
            < reader.ready.len(),
    decreases
            (if reader.finished {
                0nat
            } else {
                1nat
            }),
            reader.input.len(),
{
    if reader.ready.len() > 0 || reader.finished {
    } else {
        match lex(reader.input, reader.is_ending, reader.position.offset == 0) {
            LexedModel::More => {},
            LexedModel::End => {
                lemma_read_keeps_settings(reader.finish());
            },
            LexedModel::Token { start, end, token } => {
                if 0 <= start < end <= reader.input.len() {
                    lemma_read_keeps_settings(reader.take_token(start, end, token));
                }
            },
            LexedModel::Bad { start, end, kind } => {
                if 0 <= start < end <= reader.input.len() {
                    lemma_read_keeps_settings(reader.take_bad(start, end, kind));
                }
            },
        }
    }
}

/// What `read_next` hands out, call after call, until it hands out nothing.
pub open spec fn drain(reader: ReaderModel) -> (ReaderModel, Seq<Item>)
    decreases
            (if reader.finished {
                0nat
            } else {
                1nat
            }),
            reader.input.len(),
            reader.ready.len(),
{
    let (next, item) = reader.read();
    match item {
        None => (next, Seq::empty()),
        Some(item) => {
            proof {
                lemma_read_keeps_settings(reader);
            }
            let (last, items) = drain(next);
            (last, seq![item] + items)
        },
    }
}

/// What is read of a document that is handed in piece by piece, where after
/// each piece everything is read that can be.
pub open spec fn feed(reader: ReaderModel, chunks: Seq<Seq<u8>>) -> (ReaderModel, Seq<Item>)
    decreases chunks.len(),
{
    if chunks.len() == 0 {
        (reader, Seq::empty())
    } else {
        let (next, items) = drain(reader.extend(chunks[0]));
        let (last, rest) = feed(next, chunks.drop_first());
        (last, items + rest)
    }
}

/// What is read of a whole document that is handed in piece by piece: after
/// the last piece the end is announced, and the rest is read.
pub open spec fn run(reader: ReaderModel, chunks: Seq<Seq<u8>>) -> (ReaderModel, Seq<Item>) {
    let (next, items) = feed(reader, chunks);
    let (last, rest) = drain(next.end());
    (last, items + rest)
}

/// Reading before more input arrives and reading after it come to the same:
/// an item that is handed out before is handed out after, and where nothing
/// is handed out before, what was taken up before is taken up after.
#[verifier::rlimit(50)]
pub proof fn lemma_read_whenever(reader: ReaderModel, more: Seq<u8>, ending: bool)
    requires
        !reader.is_ending,
    ensures
        match reader.read().1 {
            Some(item) => arrive(reader, more, ending).read() == (
                arrive(reader.read().0, more, ending),
                Some(item),
            ),
            None => arrive(reader, more, ending).read() == arrive(
                reader.read().0,
                more,
                ending,
            ).read(),
        },
    decreases
            (if reader.finished {
                0nat
            } else {
                1nat
            }),
            reader.input.len(),
{
    let later = arrive(reader, more, ending);
    if reader.ready.len() > 0 {
    } else if reader.finished {
    } else {
        match lex(reader.input, false, reader.position.offset == 0) {
            LexedModel::More => {},
            LexedModel::End => {
                lemma_lex_needs_the_end(reader.input, reader.position.offset == 0);
            },
            LexedModel::Token { start, end, token } => {
                lemma_lex_stable(reader.input, more, ending, reader.position.offset == 0);
                if 0 <= start < end <= reader.input.len() {
                    let taken = reader.take_token(start, end, token);
                    assert((reader.input + more).skip(end) =~= reader.input.skip(end) + more);
                    assert((reader.input + more).take(end) =~= reader.input.take(end));
                    assert((reader.input + more).take(start) =~= reader.input.take(start));
                    assert(later.take_token(start, end, token) == arrive(taken, more, ending));
                    lemma_read_whenever(taken, more, ending);
                }
            },
            LexedModel::Bad { start, end, kind } => {
                lemma_lex_stable(reader.input, more, ending, reader.position.offset == 0);
                if 0 <= start < end <= reader.input.len() {
                    let taken = reader.take_bad(start, end, kind);
                    assert((reader.input + more).skip(end) =~= reader.input.skip(end) + more);
                    assert((reader.input + more).take(end) =~= reader.input.take(end));
                    assert((reader.input + more).take(start) =~= reader.input.take(start));
                    assert(later.take_bad(start, end, kind) == arrive(taken, more, ending));
                    lemma_read_whenever(taken, more, ending);
                }
            },
        }
    }
}

/// Reading all that can be read leaves alone whether the end was announced.
pub proof fn lemma_drain_keeps_settings(reader: ReaderModel)
    ensures
        drain(reader).0.is_ending == reader.is_ending,
    decreases
            (if reader.finished {
                0nat
            } else {
                1nat
            }),
            reader.input.len(),
            reader.ready.len(),
{
    lemma_read_keeps_settings(reader);
    if reader.read().1 is Some {
        lemma_drain_keeps_settings(reader.read().0);
    }
}

/// Reading all that can be read, before more input arrives and again after
/// it, hands out what is handed out by reading only after it.
#[verifier::rlimit(50)]
pub proof fn lemma_drain_whenever(reader: ReaderModel, more: Seq<u8>, ending: bool)
    requires
        !reader.is_ending,
    ensures
        drain(arrive(reader, more, ending)) == (
            drain(arrive(drain(reader).0, more, ending)).0,
            drain(reader).1 + drain(arrive(drain(reader).0, more, ending)).1,
        ),
    decreases
            (if reader.finished {
                0nat
            } else {
                1nat
            }),
            reader.input.len(),
            reader.ready.len(),
{
    lemma_read_keeps_settings(reader);
    lemma_read_whenever(reader, more, ending);
    let (next, item) = reader.read();
    match item {
        None => {
            assert(drain(reader).1 + drain(arrive(next, more, ending)).1 =~= drain(
                arrive(next, more, ending),
            ).1);
        },
        Some(item) => {
            lemma_drain_whenever(next, more, ending);
            let first = drain(next).1;
            let second = drain(arrive(drain(next).0, more, ending)).1;
            assert(seq![item] + (first + second) =~= (seq![item] + first) + second);
        },
    }
}

/// The bytes of all the pieces, in their order.
pub open spec fn joined(chunks: Seq<Seq<u8>>) -> Seq<u8>
    decreases chunks.len(),
{
    if chunks.len() == 0 {
        Seq::empty()
    } else {
        chunks[0] + joined(chunks.drop_first())
    }
}

/// The pieces that a document is handed in make no difference: the items
/// that are read of it piece by piece, quads and errors with their places,
/// are the items that are read of it when it is handed in as one piece, and
/// the reader is left in the same state.
#[verifier::rlimit(50)]
pub proof fn lemma_chunks_make_no_difference(reader: ReaderModel, chunks: Seq<Seq<u8>>)
    requires
        !reader.is_ending,
    ensures
        run(reader, chunks) == run(reader, seq![joined(chunks)]),
    decreases chunks.len(),
{
    let whole = seq![joined(chunks)];
    assert(whole.drop_first() =~= Seq::<Seq<u8>>::empty());
    let (one, first) = drain(reader.extend(joined(chunks)));
    assert(feed(one, whole.drop_first()) == (one, Seq::<Item>::empty()));
    assert(first + Seq::<Item>::empty() =~= first);
    assert(feed(reader, whole) == (one, first));
    if chunks.len() == 0 {
        assert(reader.extend(Seq::empty()) == reader) by {
            assert(reader.input + Seq::<u8>::empty() =~= reader.input);
        }
        lemma_drain_whenever(reader, Seq::empty(), true);
        assert(arrive(reader, Seq::empty(), true) == reader.end());
        assert(arrive(drain(reader).0, Seq::empty(), true) == drain(reader).0.end()) by {
            assert(drain(reader).0.input + Seq::<u8>::empty() =~= drain(reader).0.input);
        }
        assert(Seq::<Item>::empty() + drain(reader.end()).1 =~= drain(reader.end()).1);
    } else {
        let rest = chunks.drop_first();
        let (next, items) = drain(reader.extend(chunks[0]));
        lemma_drain_keeps_settings(reader.extend(chunks[0]));
        lemma_chunks_make_no_difference(next, rest);
        // The rest of the pieces can be handed to `next` as one piece.
        let tail = seq![joined(rest)];
        assert(tail.drop_first() =~= Seq::<Seq<u8>>::empty());
        let (after, second) = drain(next.extend(joined(rest)));
        assert(feed(after, tail.drop_first()) == (after, Seq::<Item>::empty()));
        assert(second + Seq::<Item>::empty() =~= second);
        assert(feed(next, tail) == (after, second));
        // Handing the first piece and the rest at once comes to the same.
        lemma_drain_whenever(reader.extend(chunks[0]), joined(rest), false);
        assert(reader.extend(chunks[0]).extend(joined(rest)) == reader.extend(joined(chunks))) by {
            assert((reader.input + chunks[0]) + joined(rest) =~= reader.input + joined(chunks));
        }
        let last = drain(after.end()).1;
        assert(items + (second + last) =~= (items + second) + last);
    }
}

/// `read_next` keeps the reader well-formed and does not lower its floor,
/// and an error that it hands out lies between the floor before and the
/// floor after.
#[verifier::rlimit(50)]
pub proof fn lemma_read_moves_forward(reader: ReaderModel)
    requires
        reader.wf(),
    ensures
        reader.read().0.wf(),
        reader.floor() <= reader.read().0.floor(),
        reader.read().1 matches Some(Err(error)) ==> reader.floor() <= error.byte_offset
            <= reader.read().0.floor(),
    decreases
            (if reader.finished {
                0nat
            } else {
                1nat
            }),
            reader.input.len(),
{
    if reader.ready.len() > 0 {
        lemma_pop_moves_forward(reader);
    } else if reader.finished {
    } else {
        match lex(reader.input, reader.is_ending, reader.position.offset == 0) {
            LexedModel::More => {},
            LexedModel::End => {
                lemma_lex_needs_the_end(reader.input, reader.position.offset == 0);
                let next = reader.finish();
                let added = next.ready;
                assert(reader.input.take(reader.input.len() as int) =~= reader.input);
                assert(next.ready =~= reader.ready + added);
                lemma_step_moves_forward(
                    reader,
                    reader.input.len() as int,
                    reader.input.len() as int,
                    added,
                    next,
                );
                lemma_read_moves_forward(next);
            },
            LexedModel::Token { start, end, token } => {
                if 0 <= start < end <= reader.input.len() {
                    let next = reader.take_token(start, end, token);
                    let at = advance(reader.position, reader.input.take(start));
                    let added = step_items(reader.recognizer.recognize(token).1, at);
                    lemma_step_moves_forward(reader, start, end, added, next);
                    lemma_read_moves_forward(next);
                }
            },
            LexedModel::Bad { start, end, kind } => {
                if 0 <= start < end <= reader.input.len() {
                    let next = reader.take_bad(start, end, kind);
                    let added = next.ready;
                    assert(next.ready =~= reader.ready + added);
                    lemma_step_moves_forward(reader, start, end, added, next);
                    lemma_read_moves_forward(next);
                }
            },
        }
    }
}

/// A call of the push interface.
pub enum Call {
    /// `extend_from_slice` with these bytes.
    Extend(Seq<u8>),
    /// `end`.
    End,
    /// `read_next`.
    Read,
}

/// Tells whether a reader can be called so: it is not handed input after the
/// end was announced, nor more input than the counters of its place can count.
pub open spec fn can_call(reader: ReaderModel, call: Call) -> bool {
    match call {
        Call::Extend(bytes) => !reader.is_ending && reader.position.offset + reader.input.len()
            + bytes.len() <= u64::MAX,
        _ => true,
    }
}

/// The reader after a call, and what the call hands out.
pub open spec fn after_call(reader: ReaderModel, call: Call) -> (ReaderModel, Option<Item>) {
    match call {
        Call::Extend(bytes) => (reader.extend(bytes), None),
        Call::End => (reader.end(), None),
        Call::Read => reader.read(),
    }
}

/// Tells whether a reader can be called so, call after call.
pub open spec fn can_call_all(reader: ReaderModel, calls: Seq<Call>) -> bool
    decreases calls.len(),
{
    calls.len() == 0 || (can_call(reader, calls[0]) && can_call_all(
        after_call(reader, calls[0]).0,
        calls.drop_first(),
    ))
}

/// The errors that a sequence of calls hands out, in the order of the calls.
pub open spec fn errors_of(reader: ReaderModel, calls: Seq<Call>) -> Seq<ParseError>
    decreases calls.len(),
{
    if calls.len() == 0 {
        Seq::empty()
    } else {
        let (next, item) = after_call(reader, calls[0]);
        let rest = errors_of(next, calls.drop_first());
        match item {
            Some(Err(error)) => seq![error] + rest,
            _ => rest,
        }
    }
}

/// Whatever the calls, the errors that a reader hands out come in the order
/// of their places: none has a byte offset below that of an error handed out
/// before it, nor below the floor of the reader.
pub proof fn lemma_error_offsets_never_decrease(reader: ReaderModel, calls: Seq<Call>)
    requires
        reader.wf(),
        can_call_all(reader, calls),
    ensures
        forall|i: int|
            0 <= i < errors_of(reader, calls).len() ==> reader.floor() <= (#[trigger] errors_of(
                reader,
                calls,
            )[i]).byte_offset,
        forall|i: int, j: int|
            0 <= i <= j < errors_of(reader, calls).len() ==> (#[trigger] errors_of(
                reader,
                calls,
            )[i]).byte_offset <= (#[trigger] errors_of(reader, calls)[j]).byte_offset,
    decreases calls.len(),
{
    if calls.len() > 0 {
        let (next, item) = after_call(reader, calls[0]);
        match calls[0] {
            Call::Read => {
                lemma_read_moves_forward(reader);
            },
            _ => {},
        }
        lemma_error_offsets_never_decrease(next, calls.drop_first());
        let rest = errors_of(next, calls.drop_first());
        let all = errors_of(reader, calls);
        match item {
            Some(Err(error)) => {
                assert forall|i: int| 0 <= i < all.len() implies reader.floor() <= (
                #[trigger] all[i]).byte_offset by {
                    if i > 0 {
                        assert(all[i] == rest[i - 1]);
                    }
                }
                assert forall|i: int, j: int| 0 <= i <= j < all.len() implies (
                #[trigger] all[i]).byte_offset <= (#[trigger] all[j]).byte_offset by {
                    if i > 0 {
                        assert(all[i] == rest[i - 1]);
                    }
                    if j > 0 {
                        assert(all[j] == rest[j - 1]);
                    }
                }
            },
            _ => {},
        }
    }
}

/// The quads that a sequence of calls hands out, in the order of the calls.
pub open spec fn quads_of(reader: ReaderModel, calls: Seq<Call>) -> Seq<QuadModel>
    decreases calls.len(),
{
    if calls.len() == 0 {
        Seq::empty()
    } else {
        let (next, item) = after_call(reader, calls[0]);
        let rest = quads_of(next, calls.drop_first());
        match item {
            Some(Ok(quad)) => seq![quad] + rest,
            _ => rest,
        }
    }
}

/// Whatever the calls, every blank node in a quad that a reader hands out is
/// one of the scope of that reader.
pub proof fn lemma_quads_stay_in_scope(reader: ReaderModel, calls: Seq<Call>)
    requires
        reader_scoped(reader),
    ensures
        forall|i: int|
            0 <= i < quads_of(reader, calls).len() ==> quad_in_scope(
                #[trigger] quads_of(reader, calls)[i],
                reader.recognizer.scope,
            ),
    decreases calls.len(),
{
    if calls.len() > 0 {
        let (next, item) = after_call(reader, calls[0]);
        match calls[0] {
            Call::Read => {
                lemma_read_stays(reader);
            },
            _ => {},
        }
        lemma_quads_stay_in_scope(next, calls.drop_first());
        let rest = quads_of(next, calls.drop_first());
        let all = quads_of(reader, calls);
        assert forall|i: int| 0 <= i < all.len() implies quad_in_scope(
            #[trigger] all[i],
            reader.recognizer.scope,
        ) by {
            match item {
                Some(Ok(quad)) => {
                    if i > 0 {
                        assert(all[i] == rest[i - 1]);
                    }
                },
                _ => {},
            }
        }
    }
}

/// Two parses with different scopes share no blank node: whatever the
/// documents and the calls, no identifier of a blank node occurs both in a
/// quad that the one reader hands out and in a quad that the other hands out.
pub proof fn lemma_parses_share_no_blank_node(
    one: ReaderModel,
    calls: Seq<Call>,
    other: ReaderModel,
    other_calls: Seq<Call>,
)
    requires
        reader_scoped(one),
        reader_scoped(other),
        one.recognizer.scope != other.recognizer.scope,
    ensures
        forall|i: int, j: int, id: Seq<char>|
            0 <= i < quads_of(one, calls).len() && 0 <= j < quads_of(other, other_calls).len()
                ==> !(#[trigger] quad_mentions(quads_of(one, calls)[i], id)
                && #[trigger] quad_mentions(quads_of(other, other_calls)[j], id)),
{
    lemma_quads_stay_in_scope(one, calls);
    lemma_quads_stay_in_scope(other, other_calls);
    assert forall|i: int, j: int, id: Seq<char>|
        0 <= i < quads_of(one, calls).len() && 0 <= j < quads_of(
            other,
            other_calls,
        ).len() implies !(#[trigger] quad_mentions(quads_of(one, calls)[i], id)
        && #[trigger] quad_mentions(quads_of(other, other_calls)[j], id)) by {
        lemma_quads_keep_apart(
            quads_of(one, calls)[i],
            one.recognizer.scope,
            quads_of(other, other_calls)[j],
            other.recognizer.scope,
            id,
        );
    }
}

/// Once `is_end` answers `true`, `read_next` hands out nothing, and `is_end`
/// goes on answering `true`.
pub proof fn lemma_nothing_after_the_end(reader: ReaderModel)
    requires
        reader.wf(),
        reader.is_end(),
    ensures
        reader.read().1 is None,
        reader.read().0.is_end(),
        reader.read().0.wf(),
{
    lemma_read_moves_forward(reader);
    if !reader.finished {
        reveal(lex);
        assert(reader.input =~= Seq::<u8>::empty());
        let done = reader.finish();
        assert(reader.read() == done.read());
        assert(done.ready =~= Seq::<Item>::empty());
    }
}

} // verus!
