//! The TriG parser: its settings, and the two ways to run it.

use crate::error::ParseError;
use crate::grammar::RecognizerModel;
use crate::iri::{is_absolute_iri, parse_iri};
use crate::model::Quad;
use crate::reader::LowLevelTriGReader;
use crate::recognizer::{prefixes_model, text_model, TriGRecognizer};
use crate::stream::{Item, ReaderModel};
use vstd::prelude::*;

verus! {

/// The answer to a base or a prefix that is no absolute IRI.
#[derive(Debug, Clone, PartialEq, Eq)]
pub struct InvalidIri {
    pub iri: String,
}

/// The settings of a TriG parser: a base IRI, prefixes, and whether quoted
/// triples are accepted.
#[derive(Debug)]
pub struct TriGParser {
    base: Option<String>,
    prefixes: Vec<(String, String)>,
    with_quoted_triples: bool,
}

/// The settings as the recognizer sees them.
pub struct ParserModel {
    pub base: Option<Seq<char>>,
    pub prefixes: Seq<(Seq<char>, Seq<char>)>,
    pub with_quoted_triples: bool,
}

impl View for TriGParser {
    type V = ParserModel;

    closed spec fn view(&self) -> ParserModel {
        ParserModel {
            base: text_model(self.base),
            prefixes: prefixes_model(self.prefixes@),
            with_quoted_triples: self.with_quoted_triples,
        }
    }
}

impl ParserModel {
    /// The reader of a parse with these settings, before the first byte.
    pub open spec fn reader(self, scope: Seq<char>) -> ReaderModel {
        ReaderModel::initial(
            RecognizerModel::initial(self.base, self.prefixes, self.with_quoted_triples, scope),
        )
    }
}

/// Tells whether a text can be a scope that is drawn at random: digits of
/// base 16 in lower case, at least one.
pub open spec fn is_drawn_scope(scope: Seq<char>) -> bool {
    &&& scope.len() > 0
    &&& forall|i: int|
        0 <= i < scope.len() ==> ('0' <= #[trigger] scope[i] <= '9') || ('a' <= scope[i] <= 'f')
}

/// The identifier of a blank node made by `oxrdf::BlankNode::default`, which
/// draws it at random: digits of base 16 in lower case, at least one.
#[verifier::external_body]
fn random_scope() -> (scope: String)
    ensures
        is_drawn_scope(scope@),
{
    oxrdf::BlankNode::default().into_string()
}

/// A copy of a text.
fn copy_text(text: &Option<String>) -> (copy: Option<String>)
    ensures
        text_model(copy) == text_model(*text),
{
    match text {
        Some(text) => Some(text.clone()),
        None => None,
    }
}

/// A copy of the prefixes.
fn copy_prefixes(prefixes: &Vec<(String, String)>) -> (copy: Vec<(String, String)>)
    ensures
        prefixes_model(copy@) == prefixes_model(prefixes@),
{
    let mut copy: Vec<(String, String)> = Vec::new();
    let mut i: usize = 0;
    while i < prefixes.len()
        invariant
            i <= prefixes.len(),
            prefixes_model(copy@) == prefixes_model(prefixes@.take(i as int)),
        decreases prefixes.len() - i,
    {
        let ghost before = copy@;
        let name = prefixes[i].0.clone();
        let iri = prefixes[i].1.clone();
        copy.push((name, iri));
        assert(prefixes_model(copy@) =~= prefixes_model(before).push((name@, iri@)));
        assert(prefixes_model(prefixes@.take(i + 1)) =~= prefixes_model(
            prefixes@.take(i as int),
        ).push((name@, iri@)));
        i += 1;
    }
    assert(prefixes@.take(i as int) =~= prefixes@);
    copy
}

impl Default for TriGParser {
    fn default() -> (parser: Self)
        ensures
            parser@ == (ParserModel {
                base: None,
                prefixes: Seq::empty(),
                with_quoted_triples: false,
            }),
    {
        TriGParser::new()
    }
}

impl TriGParser {
    /// Settings with no base, no prefix and no quoted triples.
    pub fn new() -> (parser: Self)
        ensures
            parser@ == (ParserModel {
                base: None,
                prefixes: Seq::empty(),
                with_quoted_triples: false,
            }),
    {
        let parser = TriGParser { base: None, prefixes: Vec::new(), with_quoted_triples: false };
        assert(parser@.prefixes =~= Seq::empty());
        parser
    }

    /// Sets the base IRI, which has to be an absolute IRI.
    pub fn with_base_iri(self, base_iri: &str) -> (parser: Result<Self, InvalidIri>)
        ensures
            parser is Ok <==> is_absolute_iri(base_iri@),
            parser matches Ok(parser) ==> parser@ == (ParserModel {
                base: Some(base_iri@),
                ..self@
            }),
            parser matches Err(error) ==> error.iri@ == base_iri@,
    {
        let mut this = self;
        match parse_iri(base_iri.to_owned()) {
            Ok(iri) => {
                this.base = Some(iri);
                Ok(this)
            },
            Err(_) => Err(InvalidIri { iri: base_iri.to_owned() }),
        }
    }

    /// Binds a prefix to an IRI, which has to be an absolute IRI. A prefix
    /// that was bound before is bound anew.
    pub fn with_prefix(self, prefix_name: &str, prefix_iri: &str) -> (parser: Result<
        Self,
        InvalidIri,
    >)
        ensures
            parser is Ok <==> is_absolute_iri(prefix_iri@),
            parser matches Ok(parser) ==> parser@ == (ParserModel {
                prefixes: self@.prefixes.push((prefix_name@, prefix_iri@)),
                ..self@
            }),
            parser matches Err(error) ==> error.iri@ == prefix_iri@,
    {
        let mut this = self;
        match parse_iri(prefix_iri.to_owned()) {
            Ok(iri) => {
                let ghost before = this.prefixes@;
                this.prefixes.push((prefix_name.to_owned(), iri));
                assert(prefixes_model(this.prefixes@) =~= prefixes_model(before).push(
                    (prefix_name@, prefix_iri@),
                ));
                Ok(this)
            },
            Err(_) => Err(InvalidIri { iri: prefix_iri.to_owned() }),
        }
    }

    /// Accepts quoted triples.
    pub fn with_quoted_triples(self) -> (parser: Self)
        ensures
            parser@ == (ParserModel { with_quoted_triples: true, ..self@ }),
    {
        let mut this = self;
        this.with_quoted_triples = true;
        this
    }

    /// A reader whose blank nodes have identifiers that end with `scope`.
    pub fn parse_in_scope(&self, scope: &str) -> (reader: LowLevelTriGReader)
        ensures
            reader.wf(),
            reader@ == self@.reader(scope@),
    {
        LowLevelTriGReader::new(
            TriGRecognizer::new(
                copy_text(&self.base),
                copy_prefixes(&self.prefixes),
                self.with_quoted_triples,
                scope.to_owned(),
            ),
        )
    }

    /// A reader whose blank nodes have a scope of their own, made up at random.
    pub fn parse(&self) -> (reader: LowLevelTriGReader)
        ensures
            reader.wf(),
            reader@ == self@.reader(reader@.recognizer.scope),
            is_drawn_scope(reader@.recognizer.scope),
    {
        let scope = random_scope();
        self.parse_in_scope(scope.as_str())
    }

    /// A reader for a source of bytes that is read piece by piece.
    pub fn parse_from_read(&self) -> (reader: FromReadTriGReader)
        ensures
            reader.wf(),
            !reader.has_failed(),
            reader.reader() == self@.reader(reader.reader().recognizer.scope),
            is_drawn_scope(reader.reader().recognizer.scope),
    {
        FromReadTriGReader { inner: self.parse(), failed: false }
    }
}

/// What the owner of a source of bytes does next.
#[derive(Debug)]
pub enum Pull {
    /// Hand this item out.
    Item(Result<Quad, ParseError>),
    /// Read from the source, and tell what came of it.
    Read,
    /// Nothing is left.
    Done,
}

/// A TriG reader for a source of bytes: it tells its owner when to read from
/// the source, and is told what came of it.
#[derive(Debug)]
pub struct FromReadTriGReader {
    inner: LowLevelTriGReader,
    failed: bool,
}

impl FromReadTriGReader {
    /// The size of the pieces that the source is read in.
    pub const CHUNK_SIZE: usize = 4096;

    /// The reader that the bytes are handed to.
    pub closed spec fn reader(&self) -> ReaderModel {
        self.inner@
    }

    /// Whether the source has failed.
    pub closed spec fn has_failed(&self) -> bool {
        self.failed
    }

    /// What every reader keeps to.
    pub closed spec fn wf(&self) -> bool {
        self.inner.wf()
    }

    /// A reader that is well-formed holds a model that is: what is proved of
    /// well-formed models holds of it.
    pub proof fn lemma_wf_of_model(&self)
        requires
            self.wf(),
        ensures
            self.reader().wf(),
    {
        self.inner.lemma_wf_of_model();
    }

    /// What to do next: where the source has failed, nothing; where the reader
    /// has an item, to hand it out; where the end of the input was announced,
    /// nothing; and to read from the source otherwise.
    pub fn next_step(&mut self) -> (step: Pull)
        requires
            old(self).wf(),
        ensures
            final(self).wf(),
            final(self).has_failed() == old(self).has_failed(),
            old(self).has_failed() ==> step is Done && final(self).reader() == old(self).reader(),
            !old(self).has_failed() ==> {
                &&& final(self).reader() == old(self).reader().read().0
                &&& match old(self).reader().read().1 {
                    Some(item) => step matches Pull::Item(handed) && crate::reader::item_model(
                        handed,
                    ) == item,
                    None => if old(self).reader().is_ending {
                        step is Done
                    } else {
                        step is Read
                    },
                }
            },
    {
        if self.failed {
            return Pull::Done;
        }
        match self.inner.read_next() {
            Some(item) => Pull::Item(item),
            None => {
                proof {
                    crate::laws::lemma_read_keeps_settings(old(self).reader());
                }
                if self.inner.is_ending() {
                    Pull::Done
                } else {
                    Pull::Read
                }
            },
        }
    }

    /// Tells that the source gave these bytes; none tells that it is at its end.
    pub fn feed(&mut self, chunk: &[u8])
        requires
            old(self).wf(),
            !old(self).reader().is_ending,
            old(self).reader().position.offset + old(self).reader().input.len() + chunk@.len()
                <= u64::MAX,
        ensures
            final(self).wf(),
            final(self).has_failed() == old(self).has_failed(),
            final(self).reader() == if chunk@.len() == 0 {
                old(self).reader().end()
            } else {
                old(self).reader().extend(chunk@)
            },
    {
        if chunk.len() == 0 {
            self.inner.end();
        } else {
            self.inner.extend_from_slice(chunk);
        }
    }

    /// Tells that the source failed: nothing more is handed out.
    pub fn fail(&mut self)
        ensures
            final(self).has_failed(),
            final(self).reader() == old(self).reader(),
            final(self).wf() == old(self).wf(),
    {
        self.failed = true;
    }

    /// The number of bytes that the source gave so far.
    pub fn bytes_taken(&self) -> (count: u64)
        requires
            self.wf(),
        ensures
            count == self.reader().position.offset + self.reader().input.len(),
    {
        self.inner.bytes_taken()
    }
}

} // verus!
