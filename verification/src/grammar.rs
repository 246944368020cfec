//! The TriG grammar as a state machine over tokens: what the recognizer
//! holds between two tokens, and what each token does to it.
//!
//! The machine keeps a stack of frames, each of which names what is expected
//! next. A token is handed to the frame on top. The frame takes the token, or
//! it steps aside and leaves the token to the frame below. Quads are kept
//! back until the statement that they belong to ends; an error drops them and
//! makes the machine skip to the end of the statement or of the graph block.

use crate::error::ParseErrorKind;
use crate::format::{xsd_boolean, xsd_decimal, xsd_double, xsd_integer};
use crate::iri::{is_absolute_iri, resolved_iri};
use crate::lexer::{is_tag_char, TokenKind, TokenModel};
use crate::model::{LiteralModel, QuadModel, TermModel, TripleModel};
use crate::ascii::{LOWER_A, LOWER_Z, MINUS, UPPER_A, UPPER_Z};
use vstd::prelude::*;
use vstd::utf8::{decode_utf8, encode_utf8, valid_utf8};

verus! {

/// The predicate that `a` stands for.
pub open spec fn rdf_type() -> Seq<char> {
    "http://www.w3.org/1999/02/22-rdf-syntax-ns#type"@
}

/// The predicate of the item of a node of a collection.
pub open spec fn rdf_first() -> Seq<char> {
    "http://www.w3.org/1999/02/22-rdf-syntax-ns#first"@
}

/// The predicate of the rest of a collection.
pub open spec fn rdf_rest() -> Seq<char> {
    "http://www.w3.org/1999/02/22-rdf-syntax-ns#rest"@
}

/// The collection without items.
pub open spec fn rdf_nil() -> Seq<char> {
    "http://www.w3.org/1999/02/22-rdf-syntax-ns#nil"@
}

/// What the machine does with the tokens it is handed.
#[derive(Debug, Clone, Copy, PartialEq, Eq, Structural)]
pub enum Mode {
    /// It follows the grammar.
    Parsing,
    /// It is between statements and has reported a character that starts no
    /// token; the characters of that kind that follow at once are passed over.
    AfterStray,
    /// It has reported an error inside a statement and skips to where the
    /// statement, or the graph block around it, ends.
    Skipping,
}

/// What a frame did with a token.
#[derive(Debug, Clone, Copy, PartialEq, Eq, Structural)]
pub enum Outcome {
    /// The token was taken.
    Taken,
    /// The token was taken and ends a statement: the quads kept back are released.
    Released,
    /// The frame stepped aside: the token is for the frame below.
    Passed,
    /// The token is a stray character between statements: it is reported as a
    /// grammar error and passed over, and the machine stays between statements.
    Stray,
    /// The token is an error.
    Failed(ParseErrorKind),
}

/// What a token was read as.
pub enum Read<T> {
    /// The value it stands for.
    Value(T),
    /// The token is of another kind.
    Other,
    /// The token is of the right kind, and is wrong.
    Failed(ParseErrorKind),
}

/// What is expected next.
pub enum FrameModel {
    /// The dot that ends a directive.
    DirectiveEnd,
    /// The IRI of a base directive.
    BaseIri,
    /// The prefix of a prefix directive.
    PrefixName,
    /// The IRI of a prefix directive.
    PrefixIri { name: Seq<char> },
    /// The name of a graph, after `GRAPH`.
    GraphLabel,
    /// `]`, after `GRAPH [`.
    GraphAnon,
    /// `{`, after `GRAPH` and a name.
    GraphOpen,
    /// `{` or a verb, after a name between statements.
    GraphOrTriples { node: TermModel },
    /// `]` or a verb, after `[` between statements.
    OuterBracket,
    /// A subject or `}`, in a graph block.
    GraphBody,
    /// `.` or `}`, after a statement in a graph block.
    GraphBodyEnd,
    /// `]` or a verb, after `[` where a graph block expects a subject.
    InnerBracket,
    /// The dot that ends a statement between graph blocks.
    StatementEnd,
    /// A verb, or what follows the subject.
    OptionalPredicates,
    /// `]`, at the end of a property list that is a subject.
    SubjectListEnd,
    /// A verb.
    Verb,
    /// An object.
    Object,
    /// `,` or what follows the objects of a verb.
    ObjectListEnd,
    /// `;` or what follows the verbs of a subject.
    PredicateListEnd,
    /// A verb, `;`, or what follows the verbs of a subject.
    AfterSemicolon,
    /// `]` or a verb, after `[` where an object is expected.
    ObjectBracket,
    /// `]`, at the end of a property list that is an object.
    ObjectListClose,
    /// `)` or the first item of a collection.
    CollectionFirst,
    /// `)` or one more item of a collection.
    CollectionNext,
    /// What follows a collection that is a subject.
    CollectionSubjectEnd,
    /// A language tag, `^^`, or what follows a literal.
    LiteralSuffix { value: Seq<char> },
    /// The datatype of a literal, after `^^`.
    LiteralDatatype { value: Seq<char> },
    /// The subject of a quoted triple.
    QuotedSubject,
    /// The object of a quoted triple.
    QuotedObject,
    /// `>>`.
    QuotedClose,
    /// What follows a quoted triple that is a subject.
    QuotedSubjectEnd,
    /// `]`, after `[` where a quoted triple expects its subject.
    AnonSubject,
    /// `]`, after `[` where a quoted triple expects its object.
    AnonObject,
}

/// The binding of `key` that was added last to a table.
pub open spec fn lookup<V>(table: Seq<(Seq<char>, V)>, key: Seq<char>) -> Option<V>
    decreases table.len(),
{
    if table.len() == 0 {
        None
    } else if table.last().0 == key {
        Some(table.last().1)
    } else {
        lookup(table.drop_last(), key)
    }
}

/// The decimal digit of a value below ten.
pub open spec fn digit_char(value: nat) -> char {
    (0x30 + value) as char
}

/// A number in decimal digits.
pub open spec fn decimal_text(n: nat) -> Seq<char>
    decreases n,
{
    if n < 10 {
        seq![digit_char(n)]
    } else {
        decimal_text(n / 10).push(digit_char(n % 10))
    }
}

/// The identifier of the blank node with number `n` of the parse with scope
/// `scope`: `b`, the number, `_`, the scope.
pub open spec fn blank_id(scope: Seq<char>, n: nat) -> Seq<char> {
    seq!['b'] + decimal_text(n) + seq!['_'] + scope
}

/// An ASCII letter in lower case, any other byte as it is.
pub open spec fn lower(b: u8) -> u8 {
    if UPPER_A <= b <= UPPER_Z {
        (b + 0x20) as u8
    } else {
        b
    }
}

/// Tells whether two byte sequences differ at most in the case of ASCII letters.
pub open spec fn same_ignoring_case(a: Seq<u8>, b: Seq<u8>) -> bool {
    a.len() == b.len() && forall|i: int| 0 <= i < a.len() ==> lower(#[trigger] a[i]) == lower(b[i])
}

/// Tells whether a text is a word, whatever the case of its letters.
pub open spec fn is_word(text: Seq<char>, word: Seq<char>) -> bool {
    same_ignoring_case(encode_utf8(text), encode_utf8(word))
}

/// `[a-zA-Z]`
pub open spec fn is_tag_letter(b: u8) -> bool {
    (UPPER_A <= b <= UPPER_Z) || (LOWER_A <= b <= LOWER_Z)
}

/// The index just past the longest run of letters that starts at `at`.
pub open spec fn after_letters(tag: Seq<u8>, at: int) -> int
    decreases tag.len() - at,
{
    if 0 <= at < tag.len() && is_tag_letter(tag[at]) {
        after_letters(tag, at + 1)
    } else {
        at
    }
}

/// `[a-zA-Z]+ ('-' [a-zA-Z0-9]+)*`: letters, then groups of letters and
/// digits, each group after a hyphen.
pub open spec fn is_language_tag(tag: Seq<u8>) -> bool {
    let first = after_letters(tag, 0);
    &&& first > 0
    &&& first == tag.len() || tag[first] == MINUS
    &&& forall|i: int| 0 <= i < tag.len() ==> is_tag_char(#[trigger] tag[i])
    &&& forall|i: int|
        0 <= i < tag.len() && #[trigger] tag[i] == MINUS ==> i + 1 < tag.len() && tag[i + 1]
            != MINUS
}

/// The language tag that a text is, in lower case, if it is well-formed.
pub open spec fn language_tag(text: Seq<char>) -> Option<Seq<char>> {
    let tag = encode_utf8(text);
    let lowered = tag.map_values(|b: u8| lower(b));
    if is_language_tag(tag) && valid_utf8(lowered) {
        Some(decode_utf8(lowered))
    } else {
        None
    }
}

/// What the recognizer holds between two tokens.
pub struct RecognizerModel {
    /// What is expected next, the innermost last. Empty between statements.
    pub stack: Seq<FrameModel>,
    /// The subjects of the statements that are open, the innermost last.
    pub subjects: Seq<TermModel>,
    /// The predicates of the statements that are open, the innermost last.
    pub predicates: Seq<Seq<char>>,
    /// The objects that were read and not yet used.
    pub objects: Seq<TermModel>,
    /// The quads of the statement that is open.
    pub pending: Seq<QuadModel>,
    /// The graph that triples belong to.
    pub graph_name: Option<TermModel>,
    /// Whether a graph block is open.
    pub in_graph: bool,
    pub mode: Mode,
    /// The base that relative IRIs are resolved against.
    pub base: Option<Seq<char>>,
    /// The prefixes; of two bindings of a prefix the later one counts.
    pub prefixes: Seq<(Seq<char>, Seq<char>)>,
    /// Whether quoted triples are accepted.
    pub with_quoted_triples: bool,
    /// What the identifiers of the blank nodes of this parse end with.
    pub scope: Seq<char>,
    /// The number of the next blank node.
    pub counter: u64,
    /// The numbers of the blank nodes that have a label.
    pub labels: Seq<(Seq<char>, u64)>,
}

/// The state after a frame was handed a token, and what the frame did with it.
pub type Step = (RecognizerModel, Outcome);

impl RecognizerModel {
    /// The state before the first token.
    pub open spec fn initial(
        base: Option<Seq<char>>,
        prefixes: Seq<(Seq<char>, Seq<char>)>,
        with_quoted_triples: bool,
        scope: Seq<char>,
    ) -> RecognizerModel {
        RecognizerModel {
            stack: Seq::empty(),
            subjects: Seq::empty(),
            predicates: Seq::empty(),
            objects: Seq::empty(),
            pending: Seq::empty(),
            graph_name: None,
            in_graph: false,
            mode: Mode::Parsing,
            base,
            prefixes,
            with_quoted_triples,
            scope,
            counter: 0,
            labels: Seq::empty(),
        }
    }

    /// One more frame on the stack.
    pub open spec fn push(self, frame: FrameModel) -> RecognizerModel {
        RecognizerModel { stack: self.stack.push(frame), ..self }
    }

    /// One more subject, of a statement inside the statements that are open.
    pub open spec fn push_subject(self, subject: TermModel) -> RecognizerModel {
        RecognizerModel { subjects: self.subjects.push(subject), ..self }
    }

    /// Without the innermost subject.
    pub open spec fn pop_subject(self) -> RecognizerModel {
        if self.subjects.len() > 0 {
            RecognizerModel { subjects: self.subjects.drop_last(), ..self }
        } else {
            self
        }
    }

    /// One more predicate.
    pub open spec fn push_predicate(self, predicate: Seq<char>) -> RecognizerModel {
        RecognizerModel { predicates: self.predicates.push(predicate), ..self }
    }

    /// Without the innermost predicate.
    pub open spec fn pop_predicate(self) -> RecognizerModel {
        if self.predicates.len() > 0 {
            RecognizerModel { predicates: self.predicates.drop_last(), ..self }
        } else {
            self
        }
    }

    /// One more object that was read.
    pub open spec fn push_object(self, object: TermModel) -> RecognizerModel {
        RecognizerModel { objects: self.objects.push(object), ..self }
    }

    /// Without the object that was read last.
    pub open spec fn pop_object(self) -> RecognizerModel {
        if self.objects.len() > 0 {
            RecognizerModel { objects: self.objects.drop_last(), ..self }
        } else {
            self
        }
    }

    /// Keeps back one more quad, in the graph that is open.
    pub open spec fn keep(self, subject: TermModel, predicate: Seq<char>, object: TermModel)
        -> RecognizerModel {
        RecognizerModel {
            pending: self.pending.push(
                QuadModel { subject, predicate, object, graph_name: self.graph_name },
            ),
            ..self
        }
    }

    /// Expects an object, then more objects, then more verbs.
    pub open spec fn push_objects(self) -> RecognizerModel {
        self.push(FrameModel::PredicateListEnd).push(FrameModel::ObjectListEnd).push(
            FrameModel::Object,
        )
    }

    /// Expects a verb and its objects, then more verbs.
    pub open spec fn push_predicates(self) -> RecognizerModel {
        self.push_objects().push(FrameModel::Verb)
    }

    /// Expects a quoted triple, after its `<<`.
    pub open spec fn push_quoted(self) -> RecognizerModel {
        self.push(FrameModel::QuotedClose).push(FrameModel::QuotedObject).push(
            FrameModel::Verb,
        ).push(FrameModel::QuotedSubject)
    }

    /// The absolute IRI that a reference stands for.
    pub open spec fn absolute(self, reference: Seq<char>) -> Option<Seq<char>> {
        match self.base {
            Some(base) => if is_absolute_iri(base) {
                resolved_iri(base, reference)
            } else {
                None
            },
            None => if is_absolute_iri(reference) {
                Some(reference)
            } else {
                None
            },
        }
    }

    /// The IRI that a token stands for.
    pub open spec fn named(self, token: TokenModel) -> Read<Seq<char>> {
        match token.kind {
            TokenKind::IriRef => match self.absolute(token.text) {
                Some(iri) => Read::Value(iri),
                None => Read::Failed(ParseErrorKind::Semantic),
            },
            TokenKind::PrefixedName => match lookup(self.prefixes, token.text) {
                Some(prefix) => if is_absolute_iri(prefix + token.local) {
                    Read::Value(prefix + token.local)
                } else {
                    Read::Failed(ParseErrorKind::Semantic)
                },
                None => Read::Failed(ParseErrorKind::Grammar),
            },
            _ => Read::Other,
        }
    }

    /// A blank node that no token before stands for.
    pub open spec fn fresh(self) -> Option<(RecognizerModel, TermModel)> {
        if self.counter == u64::MAX {
            None
        } else {
            Some(
                (
                    RecognizerModel { counter: (self.counter + 1) as u64, ..self },
                    TermModel::Blank(blank_id(self.scope, self.counter as nat)),
                ),
            )
        }
    }

    /// The named node or blank node that a token stands for. A label stands
    /// for the same blank node wherever it occurs.
    pub open spec fn node(self, token: TokenModel) -> (RecognizerModel, Read<TermModel>) {
        if token.kind == TokenKind::BlankNodeLabel {
            match lookup(self.labels, token.text) {
                Some(n) => (self, Read::Value(TermModel::Blank(blank_id(self.scope, n as nat)))),
                None => match self.fresh() {
                    Some((next, blank)) => (
                        RecognizerModel {
                            labels: self.labels.push((token.text, self.counter)),
                            ..next
                        },
                        Read::Value(blank),
                    ),
                    None => (self, Read::Failed(ParseErrorKind::Semantic)),
                },
            }
        } else {
            (
                self,
                match self.named(token) {
                    Read::Value(iri) => Read::Value(TermModel::Named(iri)),
                    Read::Other => Read::Other,
                    Read::Failed(kind) => Read::Failed(kind),
                },
            )
        }
    }

    /// The literal that a token alone stands for.
    pub open spec fn literal(token: TokenModel) -> Option<LiteralModel> {
        match token.kind {
            TokenKind::Integer => Some(
                LiteralModel::Typed { value: token.text, datatype: xsd_integer() },
            ),
            TokenKind::Decimal => Some(
                LiteralModel::Typed { value: token.text, datatype: xsd_decimal() },
            ),
            TokenKind::Double => Some(
                LiteralModel::Typed { value: token.text, datatype: xsd_double() },
            ),
            TokenKind::Keyword => if token.text == "true"@ || token.text == "false"@ {
                Some(LiteralModel::Typed { value: token.text, datatype: xsd_boolean() })
            } else {
                None
            },
            _ => None,
        }
    }

    /// Tells whether a token can be a verb.
    pub open spec fn starts_verb(token: TokenModel) -> bool {
        token.kind == TokenKind::IriRef || token.kind == TokenKind::PrefixedName || (token.kind
            == TokenKind::Keyword && token.text == "a"@)
    }

    /// A verb: `a` or an IRI.
    pub open spec fn verb(self, token: TokenModel) -> Step {
        if token.kind == TokenKind::Keyword && token.text == "a"@ {
            (self.push_predicate(rdf_type()), Outcome::Taken)
        } else {
            match self.named(token) {
                Read::Value(iri) => (self.push_predicate(iri), Outcome::Taken),
                Read::Other => (self, Outcome::Failed(ParseErrorKind::Grammar)),
                Read::Failed(kind) => (self, Outcome::Failed(kind)),
            }
        }
    }

    /// A subject that is a blank node of its own, with `next` expected after it.
    pub open spec fn anonymous_subject(self) -> Option<RecognizerModel> {
        match self.fresh() {
            Some((next, blank)) => Some(next.push_subject(blank)),
            None => None,
        }
    }

    /// An object that is a literal, a named node or a blank node.
    pub open spec fn simple_object(self, token: TokenModel) -> Step {
        if token.kind == TokenKind::Text {
            (self.push(FrameModel::LiteralSuffix { value: token.text }), Outcome::Taken)
        } else {
            match Self::literal(token) {
                Some(literal) => (self.push_object(TermModel::Literal(literal)), Outcome::Taken),
                None => {
                    let (next, read) = self.node(token);
                    match read {
                        Read::Value(node) => (next.push_object(node), Outcome::Taken),
                        Read::Other => (next, Outcome::Failed(ParseErrorKind::Grammar)),
                        Read::Failed(kind) => (next, Outcome::Failed(kind)),
                    }
                },
            }
        }
    }

    /// An object.
    pub open spec fn object(self, token: TokenModel) -> Step {
        match token.kind {
            TokenKind::LeftBracket => (self.push(FrameModel::ObjectBracket), Outcome::Taken),
            TokenKind::LeftParen => (self.push(FrameModel::CollectionFirst), Outcome::Taken),
            TokenKind::QuoteOpen => if self.with_quoted_triples {
                (self.push_quoted(), Outcome::Taken)
            } else {
                (self, Outcome::Failed(ParseErrorKind::Grammar))
            },
            _ => self.simple_object(token),
        }
    }

    /// The subject of a statement, and the frames for what follows it.
    pub open spec fn subject(self, token: TokenModel) -> Step {
        match token.kind {
            TokenKind::LeftBracket => (self.push(FrameModel::InnerBracket), Outcome::Taken),
            TokenKind::LeftParen => (
                self.push_predicates().push(FrameModel::CollectionSubjectEnd).push(
                    FrameModel::CollectionFirst,
                ),
                Outcome::Taken,
            ),
            TokenKind::QuoteOpen => if self.with_quoted_triples {
                (
                    self.push_predicates().push(FrameModel::QuotedSubjectEnd).push_quoted(),
                    Outcome::Taken,
                )
            } else {
                (self, Outcome::Failed(ParseErrorKind::Grammar))
            },
            _ => {
                let (next, read) = self.node(token);
                match read {
                    Read::Value(node) => (
                        next.push_subject(node).push_predicates(),
                        Outcome::Taken,
                    ),
                    Read::Other => (next, Outcome::Failed(ParseErrorKind::Grammar)),
                    Read::Failed(kind) => (next, Outcome::Failed(kind)),
                }
            },
        }
    }

    /// A token between statements.
    pub open spec fn document(self, token: TokenModel) -> Step {
        let fresh = RecognizerModel { mode: Mode::Parsing, graph_name: None, ..self };
        match token.kind {
            TokenKind::Unexpected => if self.mode == Mode::AfterStray {
                (self, Outcome::Taken)
            } else {
                (RecognizerModel { mode: Mode::AfterStray, ..self }, Outcome::Stray)
            },
            TokenKind::LangTag => if token.text == "prefix"@ {
                (fresh.push(FrameModel::DirectiveEnd).push(FrameModel::PrefixName), Outcome::Taken)
            } else if token.text == "base"@ {
                (fresh.push(FrameModel::DirectiveEnd).push(FrameModel::BaseIri), Outcome::Taken)
            } else {
                (fresh, Outcome::Failed(ParseErrorKind::Grammar))
            },
            TokenKind::Keyword => if is_word(token.text, "prefix"@) {
                (fresh.push(FrameModel::PrefixName), Outcome::Taken)
            } else if is_word(token.text, "base"@) {
                (fresh.push(FrameModel::BaseIri), Outcome::Taken)
            } else if is_word(token.text, "graph"@) {
                (fresh.push(FrameModel::GraphOpen).push(FrameModel::GraphLabel), Outcome::Taken)
            } else {
                (fresh, Outcome::Failed(ParseErrorKind::Grammar))
            },
            TokenKind::LeftBrace => (
                RecognizerModel { in_graph: true, ..fresh }.push(FrameModel::GraphBody),
                Outcome::Taken,
            ),
            TokenKind::LeftBracket => (fresh.push(FrameModel::OuterBracket), Outcome::Taken),
            TokenKind::LeftParen => fresh.push(FrameModel::StatementEnd).subject(token),
            TokenKind::QuoteOpen => fresh.push(FrameModel::StatementEnd).subject(token),
            _ => {
                let (next, read) = fresh.node(token);
                match read {
                    Read::Value(node) => (
                        next.push(FrameModel::GraphOrTriples { node }),
                        Outcome::Taken,
                    ),
                    Read::Other => (next, Outcome::Failed(ParseErrorKind::Grammar)),
                    Read::Failed(kind) => (next, Outcome::Failed(kind)),
                }
            },
        }
    }

    /// The end of a graph block.
    pub open spec fn leave_graph(self) -> RecognizerModel {
        RecognizerModel { in_graph: false, graph_name: None, ..self }
    }

    /// The triple of the innermost subject and predicate with the object read last.
    pub open spec fn keep_object(self) -> Option<RecognizerModel> {
        if self.subjects.len() > 0 && self.predicates.len() > 0 && self.objects.len() > 0 {
            Some(
                self.pop_object().keep(
                    self.subjects.last(),
                    self.predicates.last(),
                    self.objects.last(),
                ),
            )
        } else {
            None
        }
    }

    /// One more item of a collection, or its end.
    pub open spec fn collection_next(self, token: TokenModel) -> Step {
        if self.subjects.len() < 2 || self.objects.len() == 0 {
            (self, Outcome::Failed(ParseErrorKind::Grammar))
        } else {
            let node = self.subjects.last();
            let with_item = self.pop_object().keep(node, rdf_first(), self.objects.last());
            if token.kind == TokenKind::RightParen {
                let root = with_item.subjects[with_item.subjects.len() - 2];
                (
                    with_item.keep(
                        node,
                        rdf_rest(),
                        TermModel::Named(rdf_nil()),
                    ).pop_subject().pop_subject().push_object(root),
                    Outcome::Taken,
                )
            } else {
                match with_item.fresh() {
                    Some((next, blank)) => next.keep(
                        node,
                        rdf_rest(),
                        blank,
                    ).pop_subject().push_subject(blank).push(FrameModel::CollectionNext).object(
                        token,
                    ),
                    None => (with_item, Outcome::Failed(ParseErrorKind::Semantic)),
                }
            }
        }
    }

    /// The object read last becomes the innermost subject.
    pub open spec fn object_to_subject(self) -> Step {
        if self.objects.len() == 0 || self.objects.last() is Literal {
            (self, Outcome::Failed(ParseErrorKind::Grammar))
        } else {
            (self.pop_object().push_subject(self.objects.last()), Outcome::Passed)
        }
    }

    /// The end of a quoted triple.
    pub open spec fn quoted_close(self, token: TokenModel) -> Step {
        if token.kind == TokenKind::QuoteClose && self.subjects.len() > 0 && self.predicates.len()
            > 0 && self.objects.len() > 0 {
            (
                self.pop_subject().pop_predicate().pop_object().push_object(
                    TermModel::Triple(
                        Box::new(
                            TripleModel {
                                subject: self.subjects.last(),
                                predicate: self.predicates.last(),
                                object: self.objects.last(),
                            },
                        ),
                    ),
                ),
                Outcome::Taken,
            )
        } else {
            (self, Outcome::Failed(ParseErrorKind::Grammar))
        }
    }

    /// What follows the lexical form of a literal.
    pub open spec fn literal_suffix(self, value: Seq<char>, token: TokenModel) -> Step {
        match token.kind {
            TokenKind::LangTag => match language_tag(token.text) {
                Some(language) => (
                    self.push_object(
                        TermModel::Literal(LiteralModel::LanguageTagged { value, language }),
                    ),
                    Outcome::Taken,
                ),
                None => (self, Outcome::Failed(ParseErrorKind::Semantic)),
            },
            TokenKind::Carets => (
                self.push(FrameModel::LiteralDatatype { value }),
                Outcome::Taken,
            ),
            _ => (
                self.push_object(TermModel::Literal(LiteralModel::Simple { value })),
                Outcome::Passed,
            ),
        }
    }

    /// The IRI of a directive.
    pub open spec fn directive_iri(self, name: Option<Seq<char>>, token: TokenModel) -> Step {
        if token.kind == TokenKind::IriRef {
            match self.absolute(token.text) {
                Some(iri) => (
                    match name {
                        Some(name) => RecognizerModel {
                            prefixes: self.prefixes.push((name, iri)),
                            ..self
                        },
                        None => RecognizerModel { base: Some(iri), ..self },
                    },
                    Outcome::Taken,
                ),
                None => (self, Outcome::Failed(ParseErrorKind::Semantic)),
            }
        } else {
            (self, Outcome::Failed(ParseErrorKind::Grammar))
        }
    }

    /// A blank node of its own where `]` closes `[` at once.
    pub open spec fn anonymous(self, token: TokenModel) -> Option<(RecognizerModel, TermModel)> {
        if token.kind == TokenKind::RightBracket {
            self.fresh()
        } else {
            None
        }
    }

    /// What `frame`, taken from the stack, does with a token.
    pub open spec fn frame_step(self, frame: FrameModel, token: TokenModel) -> Step {
        let wrong = (self, Outcome::Failed(ParseErrorKind::Grammar));
        let full = (self, Outcome::Failed(ParseErrorKind::Semantic));
        match frame {
            FrameModel::DirectiveEnd => if token.kind == TokenKind::Dot {
                (self, Outcome::Taken)
            } else {
                wrong
            },
            FrameModel::BaseIri => self.directive_iri(None, token),
            FrameModel::PrefixName => if token.kind == TokenKind::PrefixedName && token.local.len()
                == 0 {
                (self.push(FrameModel::PrefixIri { name: token.text }), Outcome::Taken)
            } else {
                wrong
            },
            FrameModel::PrefixIri { name } => self.directive_iri(Some(name), token),
            FrameModel::GraphLabel => if token.kind == TokenKind::LeftBracket {
                (self.push(FrameModel::GraphAnon), Outcome::Taken)
            } else {
                let (next, read) = self.node(token);
                match read {
                    Read::Value(node) => (
                        RecognizerModel { graph_name: Some(node), ..next },
                        Outcome::Taken,
                    ),
                    Read::Other => (next, Outcome::Failed(ParseErrorKind::Grammar)),
                    Read::Failed(kind) => (next, Outcome::Failed(kind)),
                }
            },
            FrameModel::GraphAnon => match self.anonymous(token) {
                Some((next, blank)) => (
                    RecognizerModel { graph_name: Some(blank), ..next },
                    Outcome::Taken,
                ),
                None => if token.kind == TokenKind::RightBracket {
                    full
                } else {
                    wrong
                },
            },
            FrameModel::GraphOpen => if token.kind == TokenKind::LeftBrace {
                (
                    RecognizerModel { in_graph: true, ..self }.push(FrameModel::GraphBody),
                    Outcome::Taken,
                )
            } else {
                wrong
            },
            FrameModel::GraphOrTriples { node } => if token.kind == TokenKind::LeftBrace {
                (
                    RecognizerModel { graph_name: Some(node), in_graph: true, ..self }.push(
                        FrameModel::GraphBody,
                    ),
                    Outcome::Taken,
                )
            } else {
                self.push_subject(node).push(FrameModel::StatementEnd).push_objects().verb(token)
            },
            FrameModel::OuterBracket => if token.kind == TokenKind::RightBracket {
                match self.fresh() {
                    Some((next, blank)) => (
                        next.push(FrameModel::GraphOrTriples { node: blank }),
                        Outcome::Taken,
                    ),
                    None => full,
                }
            } else {
                match self.anonymous_subject() {
                    Some(next) => next.push(FrameModel::StatementEnd).push(
                        FrameModel::OptionalPredicates,
                    ).push(FrameModel::SubjectListEnd).push_objects().verb(token),
                    None => full,
                }
            },
            FrameModel::GraphBody => if token.kind == TokenKind::RightBrace {
                (self.leave_graph(), Outcome::Released)
            } else {
                self.push(FrameModel::GraphBodyEnd).subject(token)
            },
            FrameModel::GraphBodyEnd => if token.kind == TokenKind::Dot {
                (self.pop_subject().push(FrameModel::GraphBody), Outcome::Released)
            } else if token.kind == TokenKind::RightBrace {
                (self.pop_subject().leave_graph(), Outcome::Released)
            } else {
                wrong
            },
            FrameModel::InnerBracket => match self.anonymous_subject() {
                Some(next) => if token.kind == TokenKind::RightBracket {
                    (next.push_predicates(), Outcome::Taken)
                } else {
                    next.push(FrameModel::OptionalPredicates).push(
                        FrameModel::SubjectListEnd,
                    ).push_objects().verb(token)
                },
                None => full,
            },
            FrameModel::StatementEnd => if token.kind == TokenKind::Dot {
                (self.pop_subject(), Outcome::Released)
            } else {
                wrong
            },
            FrameModel::OptionalPredicates => if Self::starts_verb(token) {
                self.push_objects().verb(token)
            } else {
                (self, Outcome::Passed)
            },
            FrameModel::SubjectListEnd => if token.kind == TokenKind::RightBracket {
                (self, Outcome::Taken)
            } else {
                wrong
            },
            FrameModel::Verb => self.verb(token),
            FrameModel::Object => self.object(token),
            FrameModel::ObjectListEnd => match self.keep_object() {
                Some(next) => if token.kind == TokenKind::Comma {
                    (
                        next.push(FrameModel::ObjectListEnd).push(FrameModel::Object),
                        Outcome::Taken,
                    )
                } else {
                    (next.pop_predicate(), Outcome::Passed)
                },
                None => wrong,
            },
            FrameModel::PredicateListEnd => if token.kind == TokenKind::Semicolon {
                (self.push(FrameModel::AfterSemicolon), Outcome::Taken)
            } else {
                (self, Outcome::Passed)
            },
            FrameModel::AfterSemicolon => if token.kind == TokenKind::Semicolon {
                (self.push(FrameModel::AfterSemicolon), Outcome::Taken)
            } else if Self::starts_verb(token) {
                self.push_objects().verb(token)
            } else {
                (self, Outcome::Passed)
            },
            FrameModel::ObjectBracket => match self.fresh() {
                Some((next, blank)) => if token.kind == TokenKind::RightBracket {
                    (next.push_object(blank), Outcome::Taken)
                } else {
                    next.push_subject(blank).push(FrameModel::ObjectListClose).push_objects().verb(
                        token,
                    )
                },
                None => full,
            },
            FrameModel::ObjectListClose => if token.kind == TokenKind::RightBracket
                && self.subjects.len() > 0 {
                (self.pop_subject().push_object(self.subjects.last()), Outcome::Taken)
            } else {
                wrong
            },
            FrameModel::CollectionFirst => if token.kind == TokenKind::RightParen {
                (self.push_object(TermModel::Named(rdf_nil())), Outcome::Taken)
            } else {
                match self.fresh() {
                    Some((next, blank)) => next.push_subject(blank).push_subject(blank).push(
                        FrameModel::CollectionNext,
                    ).object(token),
                    None => full,
                }
            },
            FrameModel::CollectionNext => self.collection_next(token),
            FrameModel::CollectionSubjectEnd => self.object_to_subject(),
            FrameModel::LiteralSuffix { value } => self.literal_suffix(value, token),
            FrameModel::LiteralDatatype { value } => match self.named(token) {
                Read::Value(datatype) => (
                    self.push_object(TermModel::Literal(LiteralModel::typed(value, datatype))),
                    Outcome::Taken,
                ),
                Read::Other => wrong,
                Read::Failed(kind) => (self, Outcome::Failed(kind)),
            },
            FrameModel::QuotedSubject => if token.kind == TokenKind::LeftBracket {
                (self.push(FrameModel::AnonSubject), Outcome::Taken)
            } else if token.kind == TokenKind::QuoteOpen {
                (self.push(FrameModel::QuotedSubjectEnd).push_quoted(), Outcome::Taken)
            } else {
                let (next, read) = self.node(token);
                match read {
                    Read::Value(node) => (next.push_subject(node), Outcome::Taken),
                    Read::Other => (next, Outcome::Failed(ParseErrorKind::Grammar)),
                    Read::Failed(kind) => (next, Outcome::Failed(kind)),
                }
            },
            FrameModel::QuotedObject => if token.kind == TokenKind::LeftBracket {
                (self.push(FrameModel::AnonObject), Outcome::Taken)
            } else if token.kind == TokenKind::QuoteOpen {
                (self.push_quoted(), Outcome::Taken)
            } else {
                self.simple_object(token)
            },
            FrameModel::QuotedClose => self.quoted_close(token),
            FrameModel::QuotedSubjectEnd => self.object_to_subject(),
            FrameModel::AnonSubject => match self.anonymous(token) {
                Some((next, blank)) => (next.push_subject(blank), Outcome::Taken),
                None => if token.kind == TokenKind::RightBracket {
                    full
                } else {
                    wrong
                },
            },
            FrameModel::AnonObject => match self.anonymous(token) {
                Some((next, blank)) => (next.push_object(blank), Outcome::Taken),
                None => if token.kind == TokenKind::RightBracket {
                    full
                } else {
                    wrong
                },
            },
        }
    }

    /// The state after an error: what was read of the statement is dropped,
    /// and the tokens up to its end will be skipped.
    pub open spec fn failed(self) -> RecognizerModel {
        RecognizerModel {
            stack: Seq::empty(),
            subjects: Seq::empty(),
            predicates: Seq::empty(),
            objects: Seq::empty(),
            pending: Seq::empty(),
            mode: Mode::Skipping,
            ..self
        }
    }

    /// A token while skipping: `}` ends the skipping and the graph block, and
    /// outside of a graph block `.` ends the skipping.
    pub open spec fn skip(self, token: TokenModel) -> RecognizerModel {
        if token.kind == TokenKind::RightBrace {
            RecognizerModel { mode: Mode::Parsing, ..self.leave_graph() }
        } else if token.kind == TokenKind::Dot && !self.in_graph {
            RecognizerModel { mode: Mode::Parsing, ..self }
        } else {
            self
        }
    }

    /// What a step ends in: the state, and the quads that are released or the
    /// kind of the error. After an error the skipping starts with the token
    /// that was the error: where that token ends a statement or a graph
    /// block, the skipping is over at once.
    pub open spec fn conclude(self, outcome: Outcome, token: TokenModel) -> (
        RecognizerModel,
        Result<Seq<QuadModel>, ParseErrorKind>,
    ) {
        match outcome {
            Outcome::Released => (
                RecognizerModel { pending: Seq::empty(), ..self },
                Ok(self.pending),
            ),
            Outcome::Stray => (self, Err(ParseErrorKind::Grammar)),
            Outcome::Failed(kind) => (self.failed().skip(token), Err(kind)),
            _ => (self, Ok(Seq::empty())),
        }
    }

    /// A token handed to the frame on top of the stack, and on to the frames
    /// below for as long as the frames step aside.
    pub open spec fn dispatch(self, token: TokenModel) -> (
        RecognizerModel,
        Result<Seq<QuadModel>, ParseErrorKind>,
    )
        decreases self.stack.len(),
    {
        if self.stack.len() == 0 {
            let (next, outcome) = self.document(token);
            next.conclude(outcome, token)
        } else {
            let below = RecognizerModel { stack: self.stack.drop_last(), ..self };
            let (next, outcome) = below.frame_step(self.stack.last(), token);
            if outcome == Outcome::Passed {
                RecognizerModel { stack: below.stack, ..next }.dispatch(token)
            } else {
                next.conclude(outcome, token)
            }
        }
    }

    /// What a token does to the machine: the state after it, and the quads
    /// that it releases or the kind of error that it is.
    #[verifier::opaque]
    pub open spec fn recognize(self, token: TokenModel) -> (
        RecognizerModel,
        Result<Seq<QuadModel>, ParseErrorKind>,
    ) {
        if self.mode == Mode::Skipping {
            (self.skip(token), Ok(Seq::empty()))
        } else {
            self.dispatch(token)
        }
    }

    /// Tells whether the input can end here.
    pub open spec fn can_end(self) -> bool {
        self.mode == Mode::Skipping || (self.stack.len() == 0 && !self.in_graph)
    }

    /// The state after the end of the input.
    pub open spec fn ended(self) -> RecognizerModel {
        RecognizerModel { in_graph: false, graph_name: None, mode: Mode::Parsing, ..self.failed() }
    }
}

} // verus!
