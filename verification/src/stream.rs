//! The push interface as a function: what a reader holds between two calls,
//! and what each call does to it.

use crate::ascii::LINE_FEED;
use crate::chars::is_continuation;
use crate::error::{ParseError, ParseErrorKind, TextPosition};
use crate::grammar::RecognizerModel;
use crate::lexer::{lex, LexedModel, TokenModel};
use crate::model::QuadModel;
use vstd::prelude::*;

verus! {

/// What a reader hands out: a quad, or an error and its place.
pub type Item = Result<QuadModel, ParseError>;

/// The place after one more byte: a line feed starts a line, and a byte that
/// goes on a character adds no column.
pub open spec fn after_byte(position: TextPosition, b: u8) -> TextPosition {
    TextPosition {
        line: if b == LINE_FEED {
            (position.line + 1) as u64
        } else {
            position.line
        },
        column: if b == LINE_FEED {
            0
        } else if is_continuation(b) {
            position.column
        } else {
            (position.column + 1) as u64
        },
        offset: (position.offset + 1) as u64,
    }
}

/// The place after some bytes.
pub open spec fn advance(position: TextPosition, bytes: Seq<u8>) -> TextPosition
    decreases bytes.len(),
{
    if bytes.len() == 0 {
        position
    } else {
        after_byte(advance(position, bytes.drop_last()), bytes.last())
    }
}

/// The quads of a statement as items.
pub open spec fn quad_items(quads: Seq<QuadModel>) -> Seq<Item> {
    quads.map_values(|quad: QuadModel| Ok::<QuadModel, ParseError>(quad))
}

/// What a step of the recognizer adds to the queue: the quads that it
/// released, or the error that it found, at the place `at`.
pub open spec fn step_items(
    result: Result<Seq<QuadModel>, ParseErrorKind>,
    at: TextPosition,
) -> Seq<Item> {
    match result {
        Ok(quads) => quad_items(quads),
        Err(kind) => seq![Err::<QuadModel, ParseError>(ParseError::at(at, kind))],
    }
}

/// The first error among some items.
pub open spec fn first_error(items: Seq<Item>) -> Option<ParseError>
    decreases items.len(),
{
    if items.len() == 0 {
        None
    } else {
        match items[0] {
            Err(error) => Some(error),
            Ok(_) => first_error(items.drop_first()),
        }
    }
}

/// What a reader holds between two calls.
pub struct ReaderModel {
    /// The bytes that were handed in and not yet taken up.
    pub input: Seq<u8>,
    /// The place of the first of these bytes.
    pub position: TextPosition,
    /// Whether the end of the input was announced.
    pub is_ending: bool,
    /// Whether the end of the input was reached and dealt with.
    pub finished: bool,
    pub recognizer: RecognizerModel,
    /// The items that are ready to be handed out, the oldest first.
    pub ready: Seq<Item>,
}

impl ReaderModel {
    /// The reader before the first byte.
    pub open spec fn initial(recognizer: RecognizerModel) -> ReaderModel {
        ReaderModel {
            input: Seq::empty(),
            position: TextPosition { line: 0, column: 0, offset: 0 },
            is_ending: false,
            finished: false,
            recognizer,
            ready: Seq::empty(),
        }
    }

    /// The counters of the place are within what 64 bits hold, up to the end
    /// of the input at hand; the end of the input is dealt with only once it
    /// was announced, and no input is left then; and the errors in the queue
    /// are in the order of their places, none of them beyond the input that
    /// was taken up.
    pub open spec fn wf(self) -> bool {
        &&& self.position.offset + self.input.len() <= u64::MAX
        &&& self.finished ==> self.is_ending && self.input.len() == 0
        &&& self.position.line <= self.position.offset
        &&& self.position.column <= self.position.offset
        &&& forall|i: int|
            0 <= i < self.ready.len() ==> (#[trigger] self.ready[i] matches Err(error)
                ==> error.byte_offset <= self.position.offset)
        &&& forall|i: int, j: int|
            0 <= i <= j < self.ready.len() ==> (#[trigger] self.ready[i] matches Err(first) ==> (
            #[trigger] self.ready[j] matches Err(second) ==> first.byte_offset
                <= second.byte_offset))
    }

    /// The offset that no error handed out from now on is below: that of the
    /// first error in the queue, or where the queue holds none, that of the
    /// input at hand.
    pub open spec fn floor(self) -> int {
        match first_error(self.ready) {
            Some(error) => error.byte_offset as int,
            None => self.position.offset as int,
        }
    }

    /// More bytes are handed in.
    pub open spec fn extend(self, bytes: Seq<u8>) -> ReaderModel {
        ReaderModel { input: self.input + bytes, ..self }
    }

    /// The end of the input is announced.
    pub open spec fn end(self) -> ReaderModel {
        ReaderModel { is_ending: true, ..self }
    }

    /// Nothing is left to hand out, and nothing will be: the end of the
    /// input was announced, the queue is empty, and the input was taken up.
    /// Where the input was taken up and a statement or a graph block is still
    /// open, the error of the unexpected end is still to be handed out: the
    /// answer is `false` until `read_next` has handed it out, so that it is
    /// not lost.
    pub open spec fn is_end(self) -> bool {
        &&& self.is_ending
        &&& self.ready.len() == 0
        &&& self.input.len() == 0
        &&& self.finished || self.recognizer.can_end()
    }

    /// The reader after the token that starts at `start` and ends before
    /// `end`: the input up to `end` is taken up, and what the recognizer
    /// answers joins the queue, an error with the place of the token.
    pub open spec fn take_token(self, start: int, end: int, token: TokenModel) -> ReaderModel {
        let (recognizer, result) = self.recognizer.recognize(token);
        ReaderModel {
            input: self.input.skip(end),
            position: advance(self.position, self.input.take(end)),
            recognizer,
            ready: self.ready + step_items(result, advance(self.position, self.input.take(start))),
            ..self
        }
    }

    /// The reader after bytes that are no token: the input up to `end` is
    /// taken up, and unless the recognizer is skipping already, the error
    /// joins the queue and the recognizer starts skipping.
    pub open spec fn take_bad(self, start: int, end: int, kind: ParseErrorKind) -> ReaderModel {
        let skipping = self.recognizer.mode == crate::grammar::Mode::Skipping;
        ReaderModel {
            input: self.input.skip(end),
            position: advance(self.position, self.input.take(end)),
            recognizer: self.recognizer.failed(),
            ready: if skipping {
                self.ready
            } else {
                self.ready.push(
                    Err(ParseError::at(advance(self.position, self.input.take(start)), kind)),
                )
            },
            ..self
        }
    }

    /// The reader after the end of the input: where a statement or a graph
    /// block is still open, an error joins the queue, with the place of the end.
    pub open spec fn finish(self) -> ReaderModel {
        let end = advance(self.position, self.input);
        ReaderModel {
            input: Seq::empty(),
            position: end,
            finished: true,
            recognizer: self.recognizer.ended(),
            ready: if self.recognizer.can_end() {
                self.ready
            } else {
                self.ready.push(Err(ParseError::at(end, ParseErrorKind::UnexpectedEof)))
            },
            ..self
        }
    }

    /// What `read_next` does: it hands out the oldest item that is ready, and
    /// where none is ready it takes up tokens until one is, or until the
    /// input at hand does not hold a whole token, or until the end is dealt
    /// with.
    pub open spec fn read(self) -> (ReaderModel, Option<Item>)
        decreases
                (if self.finished {
                    0nat
                } else {
                    1nat
                }),
                self.input.len(),
    {
        if self.ready.len() > 0 {
            (ReaderModel { ready: self.ready.drop_first(), ..self }, Some(self.ready[0]))
        } else if self.finished {
            (self, None)
        } else {
            match lex(self.input, self.is_ending, self.position.offset == 0) {
                LexedModel::More => (self, None),
                LexedModel::End => self.finish().read(),
                LexedModel::Token { start, end, token } => if 0 <= start < end <= self.input.len() {
                    self.take_token(start, end, token).read()
                } else {
                    (self, None)
                },
                LexedModel::Bad { start, end, kind } => if 0 <= start < end <= self.input.len() {
                    self.take_bad(start, end, kind).read()
                } else {
                    (self, None)
                },
            }
        }
    }
}

/// The place after two runs of bytes is the place after the one run that they make.
pub proof fn lemma_advance_in_two(position: TextPosition, first: Seq<u8>, second: Seq<u8>)
    ensures
        advance(position, first + second) == advance(advance(position, first), second),
    decreases second.len(),
{
    if second.len() == 0 {
        assert(first + second =~= first);
    } else {
        assert((first + second).drop_last() =~= first + second.drop_last());
        assert((first + second).last() == second.last());
        lemma_advance_in_two(position, first, second.drop_last());
    }
}

/// A place moves forward by as many bytes as it is advanced over, and its line
/// and column stay within its offset.
pub proof fn lemma_advance_bounds(position: TextPosition, bytes: Seq<u8>)
    requires
        position.offset + bytes.len() <= u64::MAX,
        position.line <= position.offset,
        position.column <= position.offset,
    ensures
        advance(position, bytes).offset == position.offset + bytes.len(),
        advance(position, bytes).line <= advance(position, bytes).offset,
        advance(position, bytes).column <= advance(position, bytes).offset,
    decreases bytes.len(),
{
    if bytes.len() > 0 {
        lemma_advance_bounds(position, bytes.drop_last());
    }
}

/// The first error among some items is one of them, and the items before it are quads.
pub proof fn lemma_first_error(items: Seq<Item>)
    ensures
        match first_error(items) {
            Some(error) => exists|k: int| 0 <= k < items.len() && #[trigger] items[k] == Err::<
                QuadModel,
                ParseError,
            >(error),
            None => forall|k: int| 0 <= k < items.len() ==> #[trigger] items[k] is Ok,
        },
    decreases items.len(),
{
    if items.len() > 0 {
        let rest = items.drop_first();
        lemma_first_error(rest);
        match items[0] {
            Err(error) => {},
            Ok(_) => {
                match first_error(rest) {
                    Some(error) => {
                        let k = choose|k: int|
                            0 <= k < rest.len() && #[trigger] rest[k] == Err::<
                                QuadModel,
                                ParseError,
                            >(error);
                        assert(items[k + 1] == rest[k]);
                    },
                    None => {
                        assert forall|k: int| 0 <= k < items.len() implies #[trigger] items[k]
                            is Ok by {
                            if k > 0 {
                                assert(items[k] == rest[k - 1]);
                            }
                        }
                    },
                }
            },
        }
    }
}

/// Handing out the oldest item keeps the reader well-formed and does not
/// lower its floor; an error that is handed out lies between the floor
/// before and the floor after.
#[verifier::rlimit(50)]
pub proof fn lemma_pop_moves_forward(reader: ReaderModel)
    requires
        reader.wf(),
        reader.ready.len() > 0,
    ensures
        (ReaderModel { ready: reader.ready.drop_first(), ..reader }).wf(),
        reader.floor() <= (ReaderModel { ready: reader.ready.drop_first(), ..reader }).floor(),
        reader.ready[0] matches Err(error) ==> reader.floor() == error.byte_offset
            && error.byte_offset <= (ReaderModel {
            ready: reader.ready.drop_first(),
            ..reader
        }).floor(),
{
    let rest = reader.ready.drop_first();
    let next = ReaderModel { ready: rest, ..reader };
    assert forall|i: int| 0 <= i < rest.len() implies (#[trigger] rest[i] matches Err(error)
        ==> error.byte_offset <= next.position.offset) by {
        assert(rest[i] == reader.ready[i + 1]);
    }
    assert forall|i: int, j: int| 0 <= i <= j < rest.len() implies (#[trigger] rest[i] matches Err(
        first,
    ) ==> (#[trigger] rest[j] matches Err(second) ==> first.byte_offset
        <= second.byte_offset)) by {
        assert(rest[i] == reader.ready[i + 1]);
        assert(rest[j] == reader.ready[j + 1]);
    }
    lemma_first_error(rest);
    match reader.ready[0] {
        Err(error) => {
            match first_error(rest) {
                Some(later) => {
                    let k = choose|k: int|
                        0 <= k < rest.len() && #[trigger] rest[k] == Err::<QuadModel, ParseError>(
                            later,
                        );
                    assert(rest[k] == reader.ready[k + 1]);
                    assert(reader.ready[0] matches Err(first) ==> (reader.ready[k + 1] matches Err(
                        second,
                    ) ==> first.byte_offset <= second.byte_offset));
                },
                None => {},
            }
        },
        Ok(_) => {},
    }
}

/// Adding items at a place that is not before the input that was taken up,
/// and taking up input, keeps the reader well-formed and does not lower its floor.
#[verifier::rlimit(50)]
pub proof fn lemma_step_moves_forward(
    reader: ReaderModel,
    start: int,
    end: int,
    added: Seq<Item>,
    next: ReaderModel,
)
    requires
        reader.wf(),
        0 <= start <= end <= reader.input.len(),
        next.input == reader.input.skip(end) || next.input.len() == 0,
        next.finished ==> next.is_ending && next.input.len() == 0,
        next.position == advance(reader.position, reader.input.take(end)),
        next.ready == reader.ready + added,
        forall|i: int|
            0 <= i < added.len() ==> (#[trigger] added[i] matches Err(error) ==> error.byte_offset
                == advance(reader.position, reader.input.take(start)).offset),
    ensures
        next.wf(),
        reader.floor() <= next.floor(),
        next.position.offset == reader.position.offset + end,
{
    lemma_advance_bounds(reader.position, reader.input.take(end));
    lemma_advance_bounds(reader.position, reader.input.take(start));
    assert forall|i: int| 0 <= i < next.ready.len() implies (#[trigger] next.ready[i] matches Err(
        error,
    ) ==> error.byte_offset <= next.position.offset) by {
        if i < reader.ready.len() {
            assert(next.ready[i] == reader.ready[i]);
        } else {
            assert(next.ready[i] == added[i - reader.ready.len()]);
        }
    }
    assert forall|i: int, j: int| 0 <= i <= j < next.ready.len() implies (
    #[trigger] next.ready[i] matches Err(first) ==> (#[trigger] next.ready[j] matches Err(second)
        ==> first.byte_offset <= second.byte_offset)) by {
        if i < reader.ready.len() {
            assert(next.ready[i] == reader.ready[i]);
        } else {
            assert(next.ready[i] == added[i - reader.ready.len()]);
        }
        if j < reader.ready.len() {
            assert(next.ready[j] == reader.ready[j]);
        } else {
            assert(next.ready[j] == added[j - reader.ready.len()]);
        }
    }
    lemma_first_error(reader.ready);
    lemma_first_error(next.ready);
    match first_error(reader.ready) {
        Some(before) => {
            let b = choose|b: int|
                0 <= b < reader.ready.len() && #[trigger] reader.ready[b] == Err::<
                    QuadModel,
                    ParseError,
                >(before);
            assert(next.ready[b] == reader.ready[b]);
            lemma_first_error_is_least(next.ready, b);
            let k = choose|k: int|
                0 <= k <= b && #[trigger] next.ready[k] == Err::<QuadModel, ParseError>(
                    first_error(next.ready).unwrap(),
                );
            assert(next.ready[k] == reader.ready[k]);
            lemma_first_error_is_least(reader.ready, k);
            let least = choose|least: int|
                0 <= least <= k && #[trigger] reader.ready[least] == Err::<QuadModel, ParseError>(
                    before,
                );
            assert(reader.ready[least] matches Err(first) ==> (reader.ready[k] matches Err(second)
                ==> first.byte_offset <= second.byte_offset));
        },
        None => {
            match first_error(next.ready) {
                Some(error) => {
                    let k = choose|k: int|
                        0 <= k < next.ready.len() && #[trigger] next.ready[k] == Err::<
                            QuadModel,
                            ParseError,
                        >(error);
                    if k < reader.ready.len() {
                        assert(next.ready[k] == reader.ready[k]);
                        assert(reader.ready[k] is Ok);
                    } else {
                        assert(next.ready[k] == added[k - reader.ready.len()]);
                    }
                },
                None => {},
            }
        },
    }
}

/// The first error among some items is the error at the least index.
pub proof fn lemma_first_error_is_least(items: Seq<Item>, index: int)
    requires
        0 <= index < items.len(),
        items[index] is Err,
    ensures
        first_error(items) is Some,
        exists|k: int|
            0 <= k <= index && #[trigger] items[k] == Err::<QuadModel, ParseError>(
                first_error(items).unwrap(),
            ),
    decreases items.len(),
{
    match items[0] {
        Err(error) => {
            assert(items[0] == Err::<QuadModel, ParseError>(first_error(items).unwrap()));
        },
        Ok(_) => {
            let rest = items.drop_first();
            assert(rest[index - 1] == items[index]);
            lemma_first_error_is_least(rest, index - 1);
            let k = choose|k: int|
                0 <= k <= index - 1 && #[trigger] rest[k] == Err::<QuadModel, ParseError>(
                    first_error(rest).unwrap(),
                );
            assert(items[k + 1] == rest[k]);
        },
    }
}

} // verus!
