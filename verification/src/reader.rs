//! The push interface: a reader that is handed bytes and hands out quads.

use crate::ascii::LINE_FEED;
use crate::error::{ParseError, ParseErrorKind, TextPosition};
use crate::lexer::{Lexed, Token};
use crate::model::{Quad, QuadModel};
use crate::recognizer::{quads_model, TriGRecognizer};
use crate::scanner::next_token;
use crate::stability::lemma_lex_needs_the_end;
use crate::stream::{advance, lemma_advance_in_two, quad_items, Item, ReaderModel};
use std::collections::VecDeque;
use vstd::prelude::*;
use vstd::slice::slice_subrange;

verus! {

/// What an item is.
pub open spec fn item_model(item: Result<Quad, ParseError>) -> Item {
    match item {
        Ok(quad) => Ok(quad@),
        Err(error) => Err(error),
    }
}

/// What the items of a queue are.
pub open spec fn items_model(items: Seq<Result<Quad, ParseError>>) -> Seq<Item> {
    items.map_values(|item: Result<Quad, ParseError>| item_model(item))
}

/// What `read_next` hands out.
pub open spec fn next_model(item: Option<Result<Quad, ParseError>>) -> Option<Item> {
    match item {
        Some(item) => Some(item_model(item)),
        None => None,
    }
}

/// The place after some bytes.
fn moved(position: TextPosition, bytes: &[u8]) -> (place: TextPosition)
    requires
        position.offset + bytes.len() <= u64::MAX,
        position.line <= position.offset,
        position.column <= position.offset,
    ensures
        place == advance(position, bytes@),
        place.offset == position.offset + bytes.len(),
        place.line <= place.offset,
        place.column <= place.offset,
{
    let mut place = position;
    let mut i: usize = 0;
    assert(bytes@.take(0) =~= Seq::<u8>::empty());
    while i < bytes.len()
        invariant
            i <= bytes.len(),
            position.offset + bytes.len() <= u64::MAX,
            place == advance(position, bytes@.take(i as int)),
            place.offset == position.offset + i,
            place.line <= place.offset,
            place.column <= place.offset,
        decreases bytes.len() - i,
    {
        let b = bytes[i];
        assert(bytes@.take(i + 1).drop_last() =~= bytes@.take(i as int));
        assert(bytes@.take(i + 1).last() == b);
        if b == LINE_FEED {
            place.line = place.line + 1;
            place.column = 0;
        } else if !(b >= 0x80 && b <= 0xBF) {
            place.column = place.column + 1;
        }
        place.offset = place.offset + 1;
        i += 1;
    }
    assert(bytes@.take(i as int) =~= bytes@);
    place
}

/// A TriG reader that is handed the document in pieces and hands out its quads.
#[derive(Debug)]
pub struct LowLevelTriGReader {
    data: Vec<u8>,
    cursor: usize,
    position: TextPosition,
    is_ending: bool,
    finished: bool,
    recognizer: TriGRecognizer,
    ready: VecDeque<Result<Quad, ParseError>>,
}

impl View for LowLevelTriGReader {
    type V = ReaderModel;

    closed spec fn view(&self) -> ReaderModel {
        ReaderModel {
            input: self.data@.skip(self.cursor as int),
            position: self.position,
            is_ending: self.is_ending,
            finished: self.finished,
            recognizer: self.recognizer@,
            ready: items_model(self.ready@),
        }
    }
}

impl LowLevelTriGReader {
    /// What every reader keeps to: its counters hold the place of the end of
    /// the input at hand.
    pub closed spec fn wf(&self) -> bool {
        self.cursor <= self.data.len() && self@.wf()
    }

    /// A reader before the first byte.
    pub fn new(recognizer: TriGRecognizer) -> (reader: Self)
        ensures
            reader.wf(),
            reader@ == ReaderModel::initial(recognizer@),
    {
        let reader = LowLevelTriGReader {
            data: Vec::new(),
            cursor: 0,
            position: TextPosition { line: 0, column: 0, offset: 0 },
            is_ending: false,
            finished: false,
            recognizer,
            ready: VecDeque::new(),
        };
        assert(reader@.input =~= Seq::empty());
        assert(reader@.ready =~= Seq::empty());
        reader
    }

    /// The number of bytes that were handed in so far.
    pub fn bytes_taken(&self) -> (count: u64)
        requires
            self.wf(),
        ensures
            count == self@.position.offset + self@.input.len(),
    {
        self.position.offset + (self.data.len() - self.cursor) as u64
    }

    /// Hands in more bytes. Nothing is parsed yet.
    pub fn extend_from_slice(&mut self, other: &[u8])
        requires
            old(self).wf(),
            !old(self)@.is_ending,
            old(self)@.position.offset + old(self)@.input.len() + other@.len() <= u64::MAX,
        ensures
            final(self).wf(),
            final(self)@ == old(self)@.extend(other@),
    {
        self.data.extend_from_slice(other);
        assert(self.data@ =~= old(self).data@ + other@);
        assert(self.data@.skip(self.cursor as int) =~= old(self).data@.skip(self.cursor as int)
            + other@);
    }

    /// Announces the end of the input.
    pub fn end(&mut self)
        requires
            old(self).wf(),
        ensures
            final(self).wf(),
            final(self)@ == old(self)@.end(),
    {
        self.is_ending = true;
    }

    /// Tells whether nothing is left to hand out and nothing will be: the end
    /// of the input was announced, the queue is empty and the input was
    /// taken up. Where a statement or a graph block is still open at the end
    /// of the input, the answer is `false` until `read_next` has handed out
    /// the error of the unexpected end.
    pub fn is_end(&self) -> (ended: bool)
        requires
            self.wf(),
        ensures
            ended == self@.is_end(),
    {
        self.is_ending && self.ready.len() == 0 && self.cursor == self.data.len() && (
        self.finished || self.recognizer.can_end())
    }

    /// A reader that is well-formed holds a model that is: what is proved of
    /// well-formed models holds of it.
    pub proof fn lemma_wf_of_model(&self)
        requires
            self.wf(),
        ensures
            self@.wf(),
    {
    }

    /// Tells whether the end of the input was announced.
    pub fn is_ending(&self) -> (ending: bool)
        ensures
            ending == self@.is_ending,
    {
        self.is_ending
    }

    /// Tells whether the buffer holds bytes that were taken up, and at least
    /// as many of them as bytes that are left.
    closed spec fn is_worth_compacting(&self) -> bool {
        self.cursor > 0 && self.cursor >= self.data.len() - self.cursor
    }

    /// Drops the bytes that were taken up, once they are as many as the
    /// bytes that are left: the buffer then holds the bytes that are left and
    /// no others. A buffer that is not worth it stays as it is. What the
    /// reader holds of the input is the same either way.
    fn compact(&mut self)
        requires
            old(self).wf(),
        ensures
            final(self).wf(),
            final(self)@ == old(self)@,
            old(self).is_worth_compacting() ==> final(self).cursor == 0 && final(self).data@
                == old(self).data@.skip(old(self).cursor as int),
            !old(self).is_worth_compacting() ==> final(self).cursor == old(self).cursor
                && final(self).data@ == old(self).data@,
    {
        if self.cursor > 0 && self.cursor >= self.data.len() - self.cursor {
            let rest = self.data.split_off(self.cursor);
            assert(rest@ =~= old(self).data@.skip(self.cursor as int));
            self.data = rest;
            self.cursor = 0;
            assert(self.data@.skip(0) =~= self.data@);
        }
    }

    /// Adds the quads of a statement to the queue.
    fn queue_quads(&mut self, quads: Vec<Quad>)
        ensures
            final(self).ready@.len() == old(self).ready@.len() + quads.len(),
            items_model(final(self).ready@) == items_model(old(self).ready@) + quad_items(
                quads_model(quads@),
            ),
            final(self).data == old(self).data,
            final(self).cursor == old(self).cursor,
            final(self).position == old(self).position,
            final(self).is_ending == old(self).is_ending,
            final(self).finished == old(self).finished,
            final(self).recognizer == old(self).recognizer,
    {
        let mut i: usize = 0;
        assert(quads_model(quads@.take(0)) =~= Seq::empty());
        assert(items_model(self.ready@) =~= items_model(old(self).ready@) + quad_items(
            quads_model(quads@.take(0)),
        ));
        while i < quads.len()
            invariant
                i <= quads.len(),
                self.ready@.len() == old(self).ready@.len() + i,
                items_model(self.ready@) == items_model(old(self).ready@) + quad_items(
                    quads_model(quads@.take(i as int)),
                ),
                self.data == old(self).data,
                self.cursor == old(self).cursor,
                self.position == old(self).position,
                self.is_ending == old(self).is_ending,
                self.finished == old(self).finished,
                self.recognizer == old(self).recognizer,
            decreases quads.len() - i,
        {
            let quad = quads[i].duplicate();
            let ghost before = self.ready@;
            self.ready.push_back(Ok(quad));
            assert(items_model(self.ready@) =~= items_model(before).push(Ok(quad@)));
            assert(quad_items(quads_model(quads@.take(i + 1))) =~= quad_items(
                quads_model(quads@.take(i as int)),
            ).push(Ok(quad@)));
            i += 1;
        }
        assert(quads@.take(i as int) =~= quads@);
    }

    /// Takes up the token that starts at `start` and ends before `end`.
    #[verifier::rlimit(50)]
    fn take_token(&mut self, start: usize, end: usize, token: &Token)
        requires
            old(self).wf(),
            start < end <= old(self)@.input.len(),
        ensures
            final(self).wf(),
            final(self)@ == old(self)@.take_token(start as int, end as int, token@),
            final(self).finished == old(self).finished,
            final(self).data.len() - final(self).cursor < old(self).data.len() - old(self).cursor,
    {
        let ghost input = self@.input;
        let before = slice_subrange(self.data.as_slice(), self.cursor, self.cursor + start);
        let within = slice_subrange(
            self.data.as_slice(),
            self.cursor + start,
            self.cursor + end,
        );
        assert(before@ =~= input.take(start as int));
        assert(input.take(end as int) =~= before@ + within@);
        proof {
            lemma_advance_in_two(self.position, before@, within@);
        }
        let at = moved(self.position, before);
        let after = moved(at, within);
        let result = self.recognizer.recognize_next(token);
        match result {
            Ok(quads) => {
                self.queue_quads(quads);
            },
            Err(kind) => {
                let ghost queue = self.ready@;
                self.ready.push_back(Err(ParseError::new(at, kind)));
                assert(items_model(self.ready@) =~= items_model(queue) + seq![
                    Err::<QuadModel, ParseError>(ParseError::at(at, kind)),
                ]);
            },
        }
        self.cursor = self.cursor + end;
        self.position = after;
        assert(self.data@.skip(self.cursor as int) =~= input.skip(end as int));
    }

    /// Takes up bytes that are no token.
    #[verifier::rlimit(50)]
    fn take_bad(&mut self, start: usize, end: usize, kind: ParseErrorKind)
        requires
            old(self).wf(),
            start < end <= old(self)@.input.len(),
        ensures
            final(self).wf(),
            final(self)@ == old(self)@.take_bad(start as int, end as int, kind),
            final(self).finished == old(self).finished,
            final(self).data.len() - final(self).cursor < old(self).data.len() - old(self).cursor,
    {
        let ghost input = self@.input;
        let before = slice_subrange(self.data.as_slice(), self.cursor, self.cursor + start);
        let within = slice_subrange(
            self.data.as_slice(),
            self.cursor + start,
            self.cursor + end,
        );
        assert(before@ =~= input.take(start as int));
        assert(input.take(end as int) =~= before@ + within@);
        proof {
            lemma_advance_in_two(self.position, before@, within@);
        }
        let at = moved(self.position, before);
        let after = moved(at, within);
        if !self.recognizer.is_skipping() {
            let ghost queue = self.ready@;
            self.ready.push_back(Err(ParseError::new(at, kind)));
            assert(items_model(self.ready@) =~= items_model(queue).push(
                Err(ParseError::at(at, kind)),
            ));
        }
        self.recognizer.fail();
        self.cursor = self.cursor + end;
        self.position = after;
        assert(self.data@.skip(self.cursor as int) =~= input.skip(end as int));
    }

    /// Deals with the end of the input.
    #[verifier::rlimit(50)]
    fn finish(&mut self)
        requires
            old(self).wf(),
            old(self)@.is_ending,
        ensures
            final(self).wf(),
            final(self)@ == old(self)@.finish(),
            final(self).finished,
    {
        let rest = slice_subrange(self.data.as_slice(), self.cursor, self.data.len());
        assert(rest@ =~= self@.input);
        let end = moved(self.position, rest);
        if !self.recognizer.can_end() {
            let ghost queue = self.ready@;
            self.ready.push_back(Err(ParseError::new(end, ParseErrorKind::UnexpectedEof)));
            assert(items_model(self.ready@) =~= items_model(queue).push(
                Err(ParseError::at(end, ParseErrorKind::UnexpectedEof)),
            ));
        }
        self.recognizer.end();
        self.cursor = self.data.len();
        self.position = end;
        self.finished = true;
        assert(self.data@.skip(self.cursor as int) =~= Seq::empty());
    }

    /// Hands out the next quad or error. `None` tells that more input is
    /// needed, or, after the end of the input, that nothing is left.
    #[verifier::rlimit(50)]
    pub fn read_next(&mut self) -> (item: Option<Result<Quad, ParseError>>)
        requires
            old(self).wf(),
        ensures
            final(self).wf(),
            (final(self)@, next_model(item)) == old(self)@.read(),
    {
        self.compact();
        loop
            invariant
                self.wf(),
                old(self)@.read() == self@.read(),
            decreases
                    (if self.finished {
                        0int
                    } else {
                        1int
                    }),
                    self.data.len() - self.cursor,
        {
            let ghost queue = self.ready@;
            match self.ready.pop_front() {
                Some(item) => {
                    assert(items_model(self.ready@) =~= items_model(queue).drop_first());
                    return Some(item);
                },
                None => {},
            }
            assert(self@.ready =~= Seq::empty());
            if self.finished {
                return None;
            }
            let lexed = next_token(
                slice_subrange(self.data.as_slice(), self.cursor, self.data.len()),
                self.is_ending,
                self.position.offset == 0,
            );
            assert(self.data@.subrange(self.cursor as int, self.data.len() as int) =~= self@.input);
            match lexed {
                Lexed::More => {
                    return None;
                },
                Lexed::End => {
                    proof {
                        lemma_lex_needs_the_end(self@.input, self@.position.offset == 0);
                    }
                    self.finish();
                },
                Lexed::Token { start, end, token } => {
                    self.take_token(start, end, &token);
                },
                Lexed::Bad { start, end, kind } => {
                    self.take_bad(start, end, kind);
                },
            }
        }
    }
}

} // verus!
