//! The recognizer: the grammar's state machine at work, on owned terms.
//! Every function here is proved to do what the function of the same name in
//! the grammar says.

use crate::ascii::{DIGIT_0, DIGIT_9, LOWER_A, LOWER_Z, MINUS, UPPER_A, UPPER_Z};
use crate::error::ParseErrorKind;
use crate::grammar::{
    after_letters, blank_id, decimal_text, digit_char, is_word, language_tag, lookup, lower,
    FrameModel, Mode, Outcome, Read, RecognizerModel,
};
use crate::iri::{parse_iri, resolve_iri};
use crate::lexer::{is_tag_char, Token, TokenKind, TokenModel};
use crate::model::{
    BlankNode, GraphName, Literal, NamedNode, Quad, QuadModel, Subject, Term, TermModel, Triple,
};
use crate::scanner::text_of;
use vstd::prelude::*;
use vstd::string::StringExecFns;
use vstd::utf8::encode_utf8;

verus! {

/// A named node or a blank node: what can name a graph.
#[derive(Debug, Clone)]
pub enum Node {
    Named(NamedNode),
    Blank(BlankNode),
}

impl View for Node {
    type V = TermModel;

    open spec fn view(&self) -> TermModel {
        match self {
            Node::Named(node) => TermModel::Named(node@),
            Node::Blank(node) => TermModel::Blank(node@),
        }
    }
}

impl Node {
    fn into_subject(self) -> (subject: Subject)
        ensures
            subject@ == self@,
    {
        match self {
            Node::Named(node) => Subject::NamedNode(node),
            Node::Blank(node) => Subject::BlankNode(node),
        }
    }

    fn into_term(self) -> (term: Term)
        ensures
            term@ == self@,
    {
        match self {
            Node::Named(node) => Term::NamedNode(node),
            Node::Blank(node) => Term::BlankNode(node),
        }
    }

    fn into_graph_name(self) -> (graph_name: GraphName)
        ensures
            graph_name@ == Some(self@),
    {
        match self {
            Node::Named(node) => GraphName::NamedNode(node),
            Node::Blank(node) => GraphName::BlankNode(node),
        }
    }
}

/// What is expected next.
#[derive(Debug, Clone)]
pub enum Frame {
    DirectiveEnd,
    BaseIri,
    PrefixName,
    PrefixIri { name: String },
    GraphLabel,
    GraphAnon,
    GraphOpen,
    GraphOrTriples { node: Node },
    OuterBracket,
    GraphBody,
    GraphBodyEnd,
    InnerBracket,
    StatementEnd,
    OptionalPredicates,
    SubjectListEnd,
    Verb,
    Object,
    ObjectListEnd,
    PredicateListEnd,
    AfterSemicolon,
    ObjectBracket,
    ObjectListClose,
    CollectionFirst,
    CollectionNext,
    CollectionSubjectEnd,
    LiteralSuffix { value: String },
    LiteralDatatype { value: String },
    QuotedSubject,
    QuotedObject,
    QuotedClose,
    QuotedSubjectEnd,
    AnonSubject,
    AnonObject,
}

impl View for Frame {
    type V = FrameModel;

    open spec fn view(&self) -> FrameModel {
        match self {
            Frame::DirectiveEnd => FrameModel::DirectiveEnd,
            Frame::BaseIri => FrameModel::BaseIri,
            Frame::PrefixName => FrameModel::PrefixName,
            Frame::PrefixIri { name } => FrameModel::PrefixIri { name: name@ },
            Frame::GraphLabel => FrameModel::GraphLabel,
            Frame::GraphAnon => FrameModel::GraphAnon,
            Frame::GraphOpen => FrameModel::GraphOpen,
            Frame::GraphOrTriples { node } => FrameModel::GraphOrTriples { node: node@ },
            Frame::OuterBracket => FrameModel::OuterBracket,
            Frame::GraphBody => FrameModel::GraphBody,
            Frame::GraphBodyEnd => FrameModel::GraphBodyEnd,
            Frame::InnerBracket => FrameModel::InnerBracket,
            Frame::StatementEnd => FrameModel::StatementEnd,
            Frame::OptionalPredicates => FrameModel::OptionalPredicates,
            Frame::SubjectListEnd => FrameModel::SubjectListEnd,
            Frame::Verb => FrameModel::Verb,
            Frame::Object => FrameModel::Object,
            Frame::ObjectListEnd => FrameModel::ObjectListEnd,
            Frame::PredicateListEnd => FrameModel::PredicateListEnd,
            Frame::AfterSemicolon => FrameModel::AfterSemicolon,
            Frame::ObjectBracket => FrameModel::ObjectBracket,
            Frame::ObjectListClose => FrameModel::ObjectListClose,
            Frame::CollectionFirst => FrameModel::CollectionFirst,
            Frame::CollectionNext => FrameModel::CollectionNext,
            Frame::CollectionSubjectEnd => FrameModel::CollectionSubjectEnd,
            Frame::LiteralSuffix { value } => FrameModel::LiteralSuffix { value: value@ },
            Frame::LiteralDatatype { value } => FrameModel::LiteralDatatype { value: value@ },
            Frame::QuotedSubject => FrameModel::QuotedSubject,
            Frame::QuotedObject => FrameModel::QuotedObject,
            Frame::QuotedClose => FrameModel::QuotedClose,
            Frame::QuotedSubjectEnd => FrameModel::QuotedSubjectEnd,
            Frame::AnonSubject => FrameModel::AnonSubject,
            Frame::AnonObject => FrameModel::AnonObject,
        }
    }
}

/// What the frames of a stack are.
pub open spec fn frames_model(frames: Seq<Frame>) -> Seq<FrameModel> {
    frames.map_values(|frame: Frame| frame@)
}

/// What the subjects of a stack are.
pub open spec fn subjects_model(subjects: Seq<Subject>) -> Seq<TermModel> {
    subjects.map_values(|subject: Subject| subject@)
}

/// What the predicates of a stack are.
pub open spec fn predicates_model(predicates: Seq<NamedNode>) -> Seq<Seq<char>> {
    predicates.map_values(|predicate: NamedNode| predicate@)
}

/// What the terms of a stack are.
pub open spec fn terms_model(terms: Seq<Term>) -> Seq<TermModel> {
    terms.map_values(|term: Term| term@)
}

/// What the quads of a list are.
pub open spec fn quads_model(quads: Seq<Quad>) -> Seq<QuadModel> {
    quads.map_values(|quad: Quad| quad@)
}

/// What the bindings of prefixes are.
pub open spec fn prefixes_model(prefixes: Seq<(String, String)>) -> Seq<(Seq<char>, Seq<char>)> {
    prefixes.map_values(|binding: (String, String)| (binding.0@, binding.1@))
}

/// What the numbers of labels are.
pub open spec fn labels_model(labels: Seq<(String, u64)>) -> Seq<(Seq<char>, u64)> {
    labels.map_values(|binding: (String, u64)| (binding.0@, binding.1))
}

/// What a text that may be missing is.
pub open spec fn text_model(text: Option<String>) -> Option<Seq<char>> {
    match text {
        Some(text) => Some(text@),
        None => None,
    }
}

/// The quads that a step released, or the kind of error that it found.
pub open spec fn released(result: Result<Vec<Quad>, ParseErrorKind>) -> Result<
    Seq<QuadModel>,
    ParseErrorKind,
> {
    match result {
        Ok(quads) => Ok(quads_model(quads@)),
        Err(kind) => Err(kind),
    }
}

/// Tells whether a text is a word, letter for letter.
pub(crate) fn text_is(text: &String, word: &str) -> (same: bool)
    ensures
        same == (text@ == word@),
{
    let word = word.to_owned();
    *text == word
}

/// Tells whether a text is a word, whatever the case of its letters.
pub(crate) fn word_is(text: &str, word: &str) -> (same: bool)
    ensures
        same == is_word(text@, word@),
{
    let a = text.as_bytes();
    let b = word.as_bytes();
    if a.len() != b.len() {
        return false;
    }
    let mut i: usize = 0;
    while i < a.len()
        invariant
            i <= a.len(),
            a.len() == b.len(),
            a@ == encode_utf8(text@),
            b@ == encode_utf8(word@),
            forall|j: int| 0 <= j < i ==> lower(#[trigger] a@[j]) == lower(b@[j]),
        decreases a.len() - i,
    {
        let x = if a[i] >= UPPER_A && a[i] <= UPPER_Z {
            a[i] + 0x20
        } else {
            a[i]
        };
        let y = if b[i] >= UPPER_A && b[i] <= UPPER_Z {
            b[i] + 0x20
        } else {
            b[i]
        };
        if x != y {
            assert(lower(a@[i as int]) != lower(b@[i as int]));
            return false;
        }
        i += 1;
    }
    true
}

/// The language tag that a text is, in lower case, if it is well-formed.
pub(crate) fn read_language_tag(text: &str) -> (tag: Option<String>)
    ensures
        text_model(tag) == language_tag(text@),
{
    let bytes = text.as_bytes();
    let mut first: usize = 0;
    while first < bytes.len() && ((bytes[first] >= UPPER_A && bytes[first] <= UPPER_Z) || (
    bytes[first] >= LOWER_A && bytes[first] <= LOWER_Z))
        invariant
            first <= bytes.len(),
            after_letters(bytes@, 0) == after_letters(bytes@, first as int),
        decreases bytes.len() - first,
    {
        first += 1;
    }
    if first == 0 || (first < bytes.len() && bytes[first] != MINUS) {
        return None;
    }
    let mut lowered: Vec<u8> = Vec::new();
    let mut i: usize = 0;
    while i < bytes.len()
        invariant
            i <= bytes.len(),
            bytes@ == encode_utf8(text@),
            lowered@ == bytes@.take(i as int).map_values(|b: u8| lower(b)),
            forall|j: int| 0 <= j < i ==> is_tag_char(#[trigger] bytes@[j]),
            forall|j: int|
                0 <= j < i && #[trigger] bytes@[j] == MINUS ==> j + 1 < bytes.len() && bytes@[j + 1]
                    != MINUS,
        decreases bytes.len() - i,
    {
        let b = bytes[i];
        let letter = (b >= UPPER_A && b <= UPPER_Z) || (b >= LOWER_A && b <= LOWER_Z);
        let digit = b >= DIGIT_0 && b <= DIGIT_9;
        if !(letter || digit || b == MINUS) {
            assert(!is_tag_char(bytes@[i as int]));
            return None;
        }
        if b == MINUS && (i + 1 >= bytes.len() || bytes[i + 1] == MINUS) {
            assert(bytes@[i as int] == MINUS);
            return None;
        }
        lowered.push(if b >= UPPER_A && b <= UPPER_Z {
            b + 0x20
        } else {
            b
        });
        i += 1;
        assert(lowered@ =~= bytes@.take(i as int).map_values(|b: u8| lower(b)));
    }
    assert(bytes@.take(i as int) =~= bytes@);
    text_of(lowered)
}

/// The decimal digit of a value below ten, as text.
fn digit_text(value: u64) -> (text: &'static str)
    requires
        value < 10,
    ensures
        text@ == seq![digit_char(value as nat)],
{
    proof {
        reveal_strlit("0");
        reveal_strlit("1");
        reveal_strlit("2");
        reveal_strlit("3");
        reveal_strlit("4");
        reveal_strlit("5");
        reveal_strlit("6");
        reveal_strlit("7");
        reveal_strlit("8");
        reveal_strlit("9");
    }
    let text = if value == 0 {
        "0"
    } else if value == 1 {
        "1"
    } else if value == 2 {
        "2"
    } else if value == 3 {
        "3"
    } else if value == 4 {
        "4"
    } else if value == 5 {
        "5"
    } else if value == 6 {
        "6"
    } else if value == 7 {
        "7"
    } else if value == 8 {
        "8"
    } else {
        "9"
    };
    assert(text@ =~= seq![digit_char(value as nat)]);
    text
}

/// Appends a number in decimal digits.
fn push_decimal(n: u64, out: &mut String)
    ensures
        final(out)@ == old(out)@ + decimal_text(n as nat),
    decreases n,
{
    if n >= 10 {
        push_decimal(n / 10, out);
    }
    out.append(digit_text(n % 10));
    assert(out@ =~= old(out)@ + decimal_text(n as nat));
}

/// The blank node with number `n` of the parse with scope `scope`.
pub(crate) fn numbered_blank_node(scope: &str, n: u64) -> (node: BlankNode)
    ensures
        node@ == blank_id(scope@, n as nat),
{
    let mut id = "b".to_owned();
    push_decimal(n, &mut id);
    id.append("_");
    id.append(scope);
    proof {
        reveal_strlit("b");
        reveal_strlit("_");
        assert(id@ =~= blank_id(scope@, n as nat));
    }
    BlankNode { id }
}

/// The recognizer of TriG: the state of the grammar between two tokens.
#[derive(Debug)]
pub struct TriGRecognizer {
    stack: Vec<Frame>,
    subjects: Vec<Subject>,
    predicates: Vec<NamedNode>,
    objects: Vec<Term>,
    pending: Vec<Quad>,
    graph_name: GraphName,
    in_graph: bool,
    mode: Mode,
    base: Option<String>,
    prefixes: Vec<(String, String)>,
    with_quoted_triples: bool,
    scope: String,
    counter: u64,
    labels: Vec<(String, u64)>,
}

impl View for TriGRecognizer {
    type V = RecognizerModel;

    closed spec fn view(&self) -> RecognizerModel {
        RecognizerModel {
            stack: frames_model(self.stack@),
            subjects: subjects_model(self.subjects@),
            predicates: predicates_model(self.predicates@),
            objects: terms_model(self.objects@),
            pending: quads_model(self.pending@),
            graph_name: self.graph_name@,
            in_graph: self.in_graph,
            mode: self.mode,
            base: text_model(self.base),
            prefixes: prefixes_model(self.prefixes@),
            with_quoted_triples: self.with_quoted_triples,
            scope: self.scope@,
            counter: self.counter,
            labels: labels_model(self.labels@),
        }
    }
}

impl TriGRecognizer {
    /// The recognizer before the first token.
    pub fn new(
        base: Option<String>,
        prefixes: Vec<(String, String)>,
        with_quoted_triples: bool,
        scope: String,
    ) -> (recognizer: Self)
        ensures
            recognizer@ == RecognizerModel::initial(
                text_model(base),
                prefixes_model(prefixes@),
                with_quoted_triples,
                scope@,
            ),
    {
        let recognizer = TriGRecognizer {
            stack: Vec::new(),
            subjects: Vec::new(),
            predicates: Vec::new(),
            objects: Vec::new(),
            pending: Vec::new(),
            graph_name: GraphName::DefaultGraph,
            in_graph: false,
            mode: Mode::Parsing,
            base,
            prefixes,
            with_quoted_triples,
            scope,
            counter: 0,
            labels: Vec::new(),
        };
        assert(recognizer@.stack =~= Seq::empty());
        assert(recognizer@.subjects =~= Seq::empty());
        assert(recognizer@.predicates =~= Seq::empty());
        assert(recognizer@.objects =~= Seq::empty());
        assert(recognizer@.pending =~= Seq::empty());
        assert(recognizer@.labels =~= Seq::empty());
        recognizer
    }

    fn push(&mut self, frame: Frame)
        ensures
            final(self)@ == old(self)@.push(frame@),
    {
        self.stack.push(frame);
        assert(frames_model(self.stack@) =~= frames_model(old(self).stack@).push(frame@));
    }

    fn push_subject(&mut self, subject: Subject)
        ensures
            final(self)@ == old(self)@.push_subject(subject@),
    {
        self.subjects.push(subject);
        assert(subjects_model(self.subjects@) =~= subjects_model(old(self).subjects@).push(
            subject@,
        ));
    }

    fn pop_subject(&mut self) -> (subject: Option<Subject>)
        ensures
            final(self)@ == old(self)@.pop_subject(),
            match subject {
                Some(subject) => old(self)@.subjects.len() > 0 && subject@ == old(
                    self,
                )@.subjects.last(),
                None => old(self)@.subjects.len() == 0,
            },
    {
        let subject = self.subjects.pop();
        assert(subjects_model(self.subjects@) =~= if old(self).subjects@.len() > 0 {
            subjects_model(old(self).subjects@).drop_last()
        } else {
            subjects_model(old(self).subjects@)
        });
        subject
    }

    fn push_predicate(&mut self, predicate: NamedNode)
        ensures
            final(self)@ == old(self)@.push_predicate(predicate@),
    {
        self.predicates.push(predicate);
        assert(predicates_model(self.predicates@) =~= predicates_model(
            old(self).predicates@,
        ).push(predicate@));
    }

    fn pop_predicate(&mut self) -> (predicate: Option<NamedNode>)
        ensures
            final(self)@ == old(self)@.pop_predicate(),
            match predicate {
                Some(predicate) => old(self)@.predicates.len() > 0 && predicate@ == old(
                    self,
                )@.predicates.last(),
                None => old(self)@.predicates.len() == 0,
            },
    {
        let predicate = self.predicates.pop();
        assert(predicates_model(self.predicates@) =~= if old(self).predicates@.len() > 0 {
            predicates_model(old(self).predicates@).drop_last()
        } else {
            predicates_model(old(self).predicates@)
        });
        predicate
    }

    fn push_object(&mut self, object: Term)
        ensures
            final(self)@ == old(self)@.push_object(object@),
    {
        self.objects.push(object);
        assert(terms_model(self.objects@) =~= terms_model(old(self).objects@).push(object@));
    }

    fn pop_object(&mut self) -> (object: Option<Term>)
        ensures
            final(self)@ == old(self)@.pop_object(),
            match object {
                Some(object) => old(self)@.objects.len() > 0 && object@ == old(
                    self,
                )@.objects.last(),
                None => old(self)@.objects.len() == 0,
            },
    {
        let object = self.objects.pop();
        assert(terms_model(self.objects@) =~= if old(self).objects@.len() > 0 {
            terms_model(old(self).objects@).drop_last()
        } else {
            terms_model(old(self).objects@)
        });
        object
    }

    /// A copy of the innermost subject.
    fn top_subject(&self) -> (subject: Option<Subject>)
        ensures
            match subject {
                Some(subject) => self@.subjects.len() > 0 && subject@ == self@.subjects.last(),
                None => self@.subjects.len() == 0,
            },
    {
        let len = self.subjects.len();
        if len > 0 {
            Some(self.subjects[len - 1].duplicate())
        } else {
            None
        }
    }

    /// A copy of the innermost predicate.
    fn top_predicate(&self) -> (predicate: Option<NamedNode>)
        ensures
            match predicate {
                Some(predicate) => self@.predicates.len() > 0 && predicate@
                    == self@.predicates.last(),
                None => self@.predicates.len() == 0,
            },
    {
        let len = self.predicates.len();
        if len > 0 {
            Some(self.predicates[len - 1].duplicate())
        } else {
            None
        }
    }

    /// Keeps back one more quad, in the graph that is open.
    fn keep(&mut self, subject: Subject, predicate: NamedNode, object: Term)
        ensures
            final(self)@ == old(self)@.keep(subject@, predicate@, object@),
    {
        let quad = Quad { subject, predicate, object, graph_name: self.graph_name.duplicate() };
        self.pending.push(quad);
        assert(quads_model(self.pending@) =~= quads_model(old(self).pending@).push(quad@));
    }

    fn push_objects(&mut self)
        ensures
            final(self)@ == old(self)@.push_objects(),
    {
        self.push(Frame::PredicateListEnd);
        self.push(Frame::ObjectListEnd);
        self.push(Frame::Object);
    }

    fn push_predicates(&mut self)
        ensures
            final(self)@ == old(self)@.push_predicates(),
    {
        self.push_objects();
        self.push(Frame::Verb);
    }

    fn push_quoted(&mut self)
        ensures
            final(self)@ == old(self)@.push_quoted(),
    {
        self.push(Frame::QuotedClose);
        self.push(Frame::QuotedObject);
        self.push(Frame::Verb);
        self.push(Frame::QuotedSubject);
    }

    /// The binding of a prefix.
    fn find_prefix(&self, name: &String) -> (iri: Option<String>)
        ensures
            text_model(iri) == lookup(self@.prefixes, name@),
    {
        let ghost table = prefixes_model(self.prefixes@);
        let mut i: usize = self.prefixes.len();
        assert(table.take(i as int) =~= table);
        while i > 0
            invariant
                i <= self.prefixes.len(),
                table == prefixes_model(self.prefixes@),
                lookup(table, name@) == lookup(table.take(i as int), name@),
            decreases i,
        {
            i -= 1;
            assert(table.take(i + 1).drop_last() =~= table.take(i as int));
            assert(table.take(i + 1).last() == table[i as int]);
            if self.prefixes[i].0 == *name {
                return Some(self.prefixes[i].1.clone());
            }
        }
        None
    }

    /// The number of the blank node with a label.
    fn find_label(&self, label: &String) -> (number: Option<u64>)
        ensures
            number == lookup(self@.labels, label@),
    {
        let ghost table = labels_model(self.labels@);
        let mut i: usize = self.labels.len();
        assert(table.take(i as int) =~= table);
        while i > 0
            invariant
                i <= self.labels.len(),
                table == labels_model(self.labels@),
                lookup(table, label@) == lookup(table.take(i as int), label@),
            decreases i,
        {
            i -= 1;
            assert(table.take(i + 1).drop_last() =~= table.take(i as int));
            assert(table.take(i + 1).last() == table[i as int]);
            if self.labels[i].0 == *label {
                return Some(self.labels[i].1);
            }
        }
        None
    }

    /// The absolute IRI that a reference stands for.
    fn absolute(&self, reference: &String) -> (iri: Option<String>)
        ensures
            text_model(iri) == self@.absolute(reference@),
    {
        match &self.base {
            Some(base) => match resolve_iri(base.as_str(), reference.as_str()) {
                Ok(iri) => Some(iri),
                Err(_) => None,
            },
            None => match parse_iri(reference.clone()) {
                Ok(iri) => Some(iri),
                Err(_) => None,
            },
        }
    }

    /// The IRI that a token stands for.
    fn named(&self, token: &Token) -> (read: Read<NamedNode>)
        ensures
            match read {
                Read::Value(node) => self@.named(token@) == Read::Value(node@),
                Read::Other => self@.named(token@) == Read::<Seq<char>>::Other,
                Read::Failed(kind) => self@.named(token@) == Read::<Seq<char>>::Failed(kind),
            },
    {
        match token.kind {
            TokenKind::IriRef => match self.absolute(&token.text) {
                Some(iri) => Read::Value(NamedNode { iri }),
                None => Read::Failed(ParseErrorKind::Semantic),
            },
            TokenKind::PrefixedName => match self.find_prefix(&token.text) {
                Some(prefix) => {
                    let mut iri = prefix;
                    iri.append(token.local.as_str());
                    match parse_iri(iri) {
                        Ok(iri) => Read::Value(NamedNode { iri }),
                        Err(_) => Read::Failed(ParseErrorKind::Semantic),
                    }
                },
                None => Read::Failed(ParseErrorKind::Grammar),
            },
            _ => Read::Other,
        }
    }

    /// A blank node that no token before stands for.
    fn fresh(&mut self) -> (blank: Option<BlankNode>)
        ensures
            match blank {
                Some(blank) => old(self)@.fresh() == Some((final(self)@, TermModel::Blank(blank@))),
                None => old(self)@.fresh() is None && final(self)@ == old(self)@,
            },
    {
        if self.counter == u64::MAX {
            None
        } else {
            let blank = numbered_blank_node(self.scope.as_str(), self.counter);
            self.counter = self.counter + 1;
            Some(blank)
        }
    }

    /// The named node or blank node that a token stands for.
    fn node(&mut self, token: &Token) -> (read: Read<Node>)
        ensures
            match read {
                Read::Value(node) => old(self)@.node(token@) == (final(self)@, Read::Value(node@)),
                Read::Other => old(self)@.node(token@) == (
                    final(self)@,
                    Read::<TermModel>::Other,
                ),
                Read::Failed(kind) => old(self)@.node(token@) == (
                    final(self)@,
                    Read::<TermModel>::Failed(kind),
                ),
            },
    {
        if token.kind == TokenKind::BlankNodeLabel {
            match self.find_label(&token.text) {
                Some(n) => Read::Value(
                    Node::Blank(numbered_blank_node(self.scope.as_str(), n)),
                ),
                None => {
                    let n = self.counter;
                    match self.fresh() {
                        Some(blank) => {
                            let ghost before = self.labels@;
                            self.labels.push((token.text.clone(), n));
                            assert(labels_model(self.labels@) =~= labels_model(before).push(
                                (token.text@, n),
                            ));
                            Read::Value(Node::Blank(blank))
                        },
                        None => Read::Failed(ParseErrorKind::Semantic),
                    }
                },
            }
        } else {
            match self.named(token) {
                Read::Value(node) => Read::Value(Node::Named(node)),
                Read::Other => Read::Other,
                Read::Failed(kind) => Read::Failed(kind),
            }
        }
    }

    /// The literal that a token alone stands for.
    fn literal(token: &Token) -> (literal: Option<Literal>)
        ensures
            match literal {
                Some(literal) => RecognizerModel::literal(token@) == Some(literal@),
                None => RecognizerModel::literal(token@) is None,
            },
    {
        proof {
            crate::format::lemma_inline_datatypes_are_not_string();
        }
        let value = token.text.as_str();
        match token.kind {
            TokenKind::Integer => Some(
                Literal::new_typed_literal(
                    value,
                    NamedNode::new_unchecked("http://www.w3.org/2001/XMLSchema#integer"),
                ),
            ),
            TokenKind::Decimal => Some(
                Literal::new_typed_literal(
                    value,
                    NamedNode::new_unchecked("http://www.w3.org/2001/XMLSchema#decimal"),
                ),
            ),
            TokenKind::Double => Some(
                Literal::new_typed_literal(
                    value,
                    NamedNode::new_unchecked("http://www.w3.org/2001/XMLSchema#double"),
                ),
            ),
            TokenKind::Keyword => if text_is(&token.text, "true") || text_is(
                &token.text,
                "false",
            ) {
                Some(
                    Literal::new_typed_literal(
                        value,
                        NamedNode::new_unchecked("http://www.w3.org/2001/XMLSchema#boolean"),
                    ),
                )
            } else {
                None
            },
            _ => None,
        }
    }

    /// Tells whether a token can be a verb.
    fn starts_verb(token: &Token) -> (yes: bool)
        ensures
            yes == RecognizerModel::starts_verb(token@),
    {
        token.kind == TokenKind::IriRef || token.kind == TokenKind::PrefixedName || (token.kind
            == TokenKind::Keyword && text_is(&token.text, "a"))
    }

    /// A verb: `a` or an IRI.
    fn verb(&mut self, token: &Token) -> (outcome: Outcome)
        ensures
            (final(self)@, outcome) == old(self)@.verb(token@),
    {
        if token.kind == TokenKind::Keyword && text_is(&token.text, "a") {
            self.push_predicate(
                NamedNode::new_unchecked("http://www.w3.org/1999/02/22-rdf-syntax-ns#type"),
            );
            Outcome::Taken
        } else {
            match self.named(token) {
                Read::Value(iri) => {
                    self.push_predicate(iri);
                    Outcome::Taken
                },
                Read::Other => Outcome::Failed(ParseErrorKind::Grammar),
                Read::Failed(kind) => Outcome::Failed(kind),
            }
        }
    }

    /// An object that is a literal, a named node or a blank node.
    fn simple_object(&mut self, token: &Token) -> (outcome: Outcome)
        ensures
            (final(self)@, outcome) == old(self)@.simple_object(token@),
    {
        if token.kind == TokenKind::Text {
            self.push(Frame::LiteralSuffix { value: token.text.clone() });
            Outcome::Taken
        } else {
            match Self::literal(token) {
                Some(literal) => {
                    self.push_object(Term::Literal(literal));
                    Outcome::Taken
                },
                None => match self.node(token) {
                    Read::Value(node) => {
                        self.push_object(node.into_term());
                        Outcome::Taken
                    },
                    Read::Other => Outcome::Failed(ParseErrorKind::Grammar),
                    Read::Failed(kind) => Outcome::Failed(kind),
                },
            }
        }
    }

    /// An object.
    fn object(&mut self, token: &Token) -> (outcome: Outcome)
        ensures
            (final(self)@, outcome) == old(self)@.object(token@),
    {
        match token.kind {
            TokenKind::LeftBracket => {
                self.push(Frame::ObjectBracket);
                Outcome::Taken
            },
            TokenKind::LeftParen => {
                self.push(Frame::CollectionFirst);
                Outcome::Taken
            },
            TokenKind::QuoteOpen => {
                if self.with_quoted_triples {
                    self.push_quoted();
                    Outcome::Taken
                } else {
                    Outcome::Failed(ParseErrorKind::Grammar)
                }
            },
            _ => self.simple_object(token),
        }
    }

    /// The subject of a statement, and the frames for what follows it.
    fn subject(&mut self, token: &Token) -> (outcome: Outcome)
        ensures
            (final(self)@, outcome) == old(self)@.subject(token@),
    {
        match token.kind {
            TokenKind::LeftBracket => {
                self.push(Frame::InnerBracket);
                Outcome::Taken
            },
            TokenKind::LeftParen => {
                self.push_predicates();
                self.push(Frame::CollectionSubjectEnd);
                self.push(Frame::CollectionFirst);
                Outcome::Taken
            },
            TokenKind::QuoteOpen => {
                if self.with_quoted_triples {
                    self.push_predicates();
                    self.push(Frame::QuotedSubjectEnd);
                    self.push_quoted();
                    Outcome::Taken
                } else {
                    Outcome::Failed(ParseErrorKind::Grammar)
                }
            },
            _ => match self.node(token) {
                Read::Value(node) => {
                    self.push_subject(node.into_subject());
                    self.push_predicates();
                    Outcome::Taken
                },
                Read::Other => Outcome::Failed(ParseErrorKind::Grammar),
                Read::Failed(kind) => Outcome::Failed(kind),
            },
        }
    }

    /// A token between statements.
    fn document(&mut self, token: &Token) -> (outcome: Outcome)
        ensures
            (final(self)@, outcome) == old(self)@.document(token@),
    {
        if token.kind == TokenKind::Unexpected {
            if self.mode == Mode::AfterStray {
                return Outcome::Taken;
            }
            self.mode = Mode::AfterStray;
            return Outcome::Stray;
        }
        self.mode = Mode::Parsing;
        self.graph_name = GraphName::DefaultGraph;
        match token.kind {
            TokenKind::LangTag => {
                if text_is(&token.text, "prefix") {
                    self.push(Frame::DirectiveEnd);
                    self.push(Frame::PrefixName);
                    Outcome::Taken
                } else if text_is(&token.text, "base") {
                    self.push(Frame::DirectiveEnd);
                    self.push(Frame::BaseIri);
                    Outcome::Taken
                } else {
                    Outcome::Failed(ParseErrorKind::Grammar)
                }
            },
            TokenKind::Keyword => {
                if word_is(token.text.as_str(), "prefix") {
                    self.push(Frame::PrefixName);
                    Outcome::Taken
                } else if word_is(token.text.as_str(), "base") {
                    self.push(Frame::BaseIri);
                    Outcome::Taken
                } else if word_is(token.text.as_str(), "graph") {
                    self.push(Frame::GraphOpen);
                    self.push(Frame::GraphLabel);
                    Outcome::Taken
                } else {
                    Outcome::Failed(ParseErrorKind::Grammar)
                }
            },
            TokenKind::LeftBrace => {
                self.in_graph = true;
                self.push(Frame::GraphBody);
                Outcome::Taken
            },
            TokenKind::LeftBracket => {
                self.push(Frame::OuterBracket);
                Outcome::Taken
            },
            TokenKind::LeftParen => {
                self.push(Frame::StatementEnd);
                self.subject(token)
            },
            TokenKind::QuoteOpen => {
                self.push(Frame::StatementEnd);
                self.subject(token)
            },
            _ => match self.node(token) {
                Read::Value(node) => {
                    self.push(Frame::GraphOrTriples { node });
                    Outcome::Taken
                },
                Read::Other => Outcome::Failed(ParseErrorKind::Grammar),
                Read::Failed(kind) => Outcome::Failed(kind),
            },
        }
    }

    /// The end of a graph block.
    fn leave_graph(&mut self)
        ensures
            final(self)@ == old(self)@.leave_graph(),
    {
        self.in_graph = false;
        self.graph_name = GraphName::DefaultGraph;
    }

    /// The triple of the innermost subject and predicate with the object read last.
    fn keep_object(&mut self) -> (kept: bool)
        ensures
            match old(self)@.keep_object() {
                Some(next) => kept && final(self)@ == next,
                None => !kept && final(self)@ == old(self)@,
            },
    {
        if self.objects.len() == 0 {
            return false;
        }
        match (self.top_subject(), self.top_predicate()) {
            (Some(subject), Some(predicate)) => {
                match self.pop_object() {
                    Some(object) => {
                        self.keep(subject, predicate, object);
                        true
                    },
                    None => false,
                }
            },
            _ => false,
        }
    }

    /// A subject that is a blank node of its own.
    fn anonymous_subject(&mut self) -> (made: bool)
        ensures
            match old(self)@.anonymous_subject() {
                Some(next) => made && final(self)@ == next,
                None => !made && final(self)@ == old(self)@,
            },
    {
        match self.fresh() {
            Some(blank) => {
                self.push_subject(Subject::BlankNode(blank));
                true
            },
            None => false,
        }
    }

    /// One more item of a collection, or its end.
    #[verifier::rlimit(50)]
    fn collection_next(&mut self, token: &Token) -> (outcome: Outcome)
        ensures
            (final(self)@, outcome) == old(self)@.collection_next(token@),
    {
        if self.subjects.len() < 2 || self.objects.len() == 0 {
            return Outcome::Failed(ParseErrorKind::Grammar);
        }
        let node = match self.top_subject() {
            Some(node) => node,
            None => {
                return Outcome::Failed(ParseErrorKind::Grammar);
            },
        };
        let item = match self.pop_object() {
            Some(item) => item,
            None => {
                return Outcome::Failed(ParseErrorKind::Grammar);
            },
        };
        self.keep(
            node.duplicate(),
            NamedNode::new_unchecked("http://www.w3.org/1999/02/22-rdf-syntax-ns#first"),
            item,
        );
        let rest = NamedNode::new_unchecked("http://www.w3.org/1999/02/22-rdf-syntax-ns#rest");
        if token.kind == TokenKind::RightParen {
            self.keep(
                node,
                rest,
                Term::NamedNode(
                    NamedNode::new_unchecked("http://www.w3.org/1999/02/22-rdf-syntax-ns#nil"),
                ),
            );
            let _ = self.pop_subject();
            match self.pop_subject() {
                Some(root) => {
                    self.push_object(root.to_term());
                    Outcome::Taken
                },
                None => Outcome::Failed(ParseErrorKind::Grammar),
            }
        } else {
            match self.fresh() {
                Some(blank) => {
                    self.keep(node, rest, Term::BlankNode(blank.duplicate()));
                    let _ = self.pop_subject();
                    self.push_subject(Subject::BlankNode(blank));
                    self.push(Frame::CollectionNext);
                    self.object(token)
                },
                None => Outcome::Failed(ParseErrorKind::Semantic),
            }
        }
    }

    /// The object read last becomes the innermost subject.
    fn object_to_subject(&mut self) -> (outcome: Outcome)
        ensures
            (final(self)@, outcome) == old(self)@.object_to_subject(),
    {
        let len = self.objects.len();
        if len == 0 {
            return Outcome::Failed(ParseErrorKind::Grammar);
        }
        match &self.objects[len - 1] {
            Term::Literal(_) => {
                return Outcome::Failed(ParseErrorKind::Grammar);
            },
            _ => {},
        }
        match self.pop_object() {
            Some(Term::NamedNode(node)) => {
                self.push_subject(Subject::NamedNode(node));
                Outcome::Passed
            },
            Some(Term::BlankNode(node)) => {
                self.push_subject(Subject::BlankNode(node));
                Outcome::Passed
            },
            Some(Term::Triple(triple)) => {
                self.push_subject(Subject::Triple(triple));
                Outcome::Passed
            },
            _ => Outcome::Failed(ParseErrorKind::Grammar),
        }
    }

    /// The end of a quoted triple.
    fn quoted_close(&mut self, token: &Token) -> (outcome: Outcome)
        ensures
            (final(self)@, outcome) == old(self)@.quoted_close(token@),
    {
        if token.kind == TokenKind::QuoteClose && self.subjects.len() > 0 && self.predicates.len()
            > 0 && self.objects.len() > 0 {
            match (self.pop_subject(), self.pop_predicate(), self.pop_object()) {
                (Some(subject), Some(predicate), Some(object)) => {
                    self.push_object(Term::Triple(Box::new(Triple { subject, predicate, object })));
                    Outcome::Taken
                },
                _ => Outcome::Failed(ParseErrorKind::Grammar),
            }
        } else {
            Outcome::Failed(ParseErrorKind::Grammar)
        }
    }

    /// What follows the lexical form of a literal.
    fn literal_suffix(&mut self, value: String, token: &Token) -> (outcome: Outcome)
        ensures
            (final(self)@, outcome) == old(self)@.literal_suffix(value@, token@),
    {
        match token.kind {
            TokenKind::LangTag => match read_language_tag(token.text.as_str()) {
                Some(language) => {
                    self.push_object(
                        Term::Literal(
                            Literal::new_language_tagged_literal_unchecked(
                                value.as_str(),
                                language.as_str(),
                            ),
                        ),
                    );
                    Outcome::Taken
                },
                None => Outcome::Failed(ParseErrorKind::Semantic),
            },
            TokenKind::Carets => {
                self.push(Frame::LiteralDatatype { value });
                Outcome::Taken
            },
            _ => {
                self.push_object(Term::Literal(Literal::new_simple_literal(value.as_str())));
                Outcome::Passed
            },
        }
    }

    /// The IRI of a directive: of a prefix, or of the base.
    fn directive_iri(&mut self, name: Option<String>, token: &Token) -> (outcome: Outcome)
        ensures
            (final(self)@, outcome) == old(self)@.directive_iri(text_model(name), token@),
    {
        if token.kind == TokenKind::IriRef {
            match self.absolute(&token.text) {
                Some(iri) => {
                    match name {
                        Some(name) => {
                            let ghost before = self.prefixes@;
                            self.prefixes.push((name, iri));
                            assert(prefixes_model(self.prefixes@) =~= prefixes_model(before).push(
                                (name@, iri@),
                            ));
                        },
                        None => {
                            self.base = Some(iri);
                        },
                    }
                    Outcome::Taken
                },
                None => Outcome::Failed(ParseErrorKind::Semantic),
            }
        } else {
            Outcome::Failed(ParseErrorKind::Grammar)
        }
    }

    /// A blank node of its own where `]` closes `[` at once.
    fn anonymous(&mut self, token: &Token) -> (blank: Option<BlankNode>)
        ensures
            match blank {
                Some(blank) => old(self)@.anonymous(token@) == Some(
                    (final(self)@, TermModel::Blank(blank@)),
                ),
                None => old(self)@.anonymous(token@) is None && final(self)@ == old(self)@,
            },
    {
        if token.kind == TokenKind::RightBracket {
            self.fresh()
        } else {
            None
        }
    }

    /// What is answered where `]` was expected after `[`.
    fn no_anonymous(token: &Token) -> (outcome: Outcome)
        ensures
            outcome == if token@.kind == TokenKind::RightBracket {
                Outcome::Failed(ParseErrorKind::Semantic)
            } else {
                Outcome::Failed(ParseErrorKind::Grammar)
            },
    {
        if token.kind == TokenKind::RightBracket {
            Outcome::Failed(ParseErrorKind::Semantic)
        } else {
            Outcome::Failed(ParseErrorKind::Grammar)
        }
    }

    /// Expected next: the dot that ends a directive.
    fn on_directive_end(&mut self, token: &Token) -> (outcome: Outcome)
        ensures
            (final(self)@, outcome) == old(self)@.frame_step(FrameModel::DirectiveEnd, token@),
    {
        let wrong = Outcome::Failed(ParseErrorKind::Grammar);
        if token.kind == TokenKind::Dot {
            Outcome::Taken
        } else {
            wrong
        }
    }

    /// Expected next: the IRI of a base directive.
    fn on_base_iri(&mut self, token: &Token) -> (outcome: Outcome)
        ensures
            (final(self)@, outcome) == old(self)@.frame_step(FrameModel::BaseIri, token@),
    {
        self.directive_iri(None, token)
    }

    /// Expected next: the prefix of a prefix directive.
    fn on_prefix_name(&mut self, token: &Token) -> (outcome: Outcome)
        ensures
            (final(self)@, outcome) == old(self)@.frame_step(FrameModel::PrefixName, token@),
    {
        let wrong = Outcome::Failed(ParseErrorKind::Grammar);
        if token.kind == TokenKind::PrefixedName && token.local.as_str().is_empty() {
            self.push(Frame::PrefixIri { name: token.text.clone() });
            Outcome::Taken
        } else {
            wrong
        }
    }

    /// Expected next: the IRI of a prefix directive.
    fn on_prefix_iri(&mut self, name: String, token: &Token) -> (outcome: Outcome)
        ensures
            (final(self)@, outcome) == old(self)@.frame_step(
                FrameModel::PrefixIri { name: name@ },
                token@,
            ),
    {
        self.directive_iri(Some(name), token)
    }

    /// Expected next: the name of a graph, after `GRAPH`.
    fn on_graph_label(&mut self, token: &Token) -> (outcome: Outcome)
        ensures
            (final(self)@, outcome) == old(self)@.frame_step(FrameModel::GraphLabel, token@),
    {
        let wrong = Outcome::Failed(ParseErrorKind::Grammar);
        if token.kind == TokenKind::LeftBracket {
            self.push(Frame::GraphAnon);
            Outcome::Taken
        } else {
            match self.node(token) {
                Read::Value(node) => {
                    self.graph_name = node.into_graph_name();
                    Outcome::Taken
                },
                Read::Other => wrong,
                Read::Failed(kind) => Outcome::Failed(kind),
            }
        }
    }

    /// Expected next: `]`, after `GRAPH [`.
    fn on_graph_anon(&mut self, token: &Token) -> (outcome: Outcome)
        ensures
            (final(self)@, outcome) == old(self)@.frame_step(FrameModel::GraphAnon, token@),
    {
        match self.anonymous(token) {
        Some(blank) => {
            self.graph_name = GraphName::BlankNode(blank);
            Outcome::Taken
        },
        None => Self::no_anonymous(token),
        }
    }

    /// Expected next: `{`, after `GRAPH` and a name.
    fn on_graph_open(&mut self, token: &Token) -> (outcome: Outcome)
        ensures
            (final(self)@, outcome) == old(self)@.frame_step(FrameModel::GraphOpen, token@),
    {
        let wrong = Outcome::Failed(ParseErrorKind::Grammar);
        if token.kind == TokenKind::LeftBrace {
            self.in_graph = true;
            self.push(Frame::GraphBody);
            Outcome::Taken
        } else {
            wrong
        }
    }

    /// Expected next: `{` or a verb, after a name between statements.
    fn on_graph_or_triples(&mut self, node: Node, token: &Token) -> (outcome: Outcome)
        ensures
            (final(self)@, outcome) == old(self)@.frame_step(
                FrameModel::GraphOrTriples { node: node@ },
                token@,
            ),
    {
        if token.kind == TokenKind::LeftBrace {
            self.graph_name = node.into_graph_name();
            self.in_graph = true;
            self.push(Frame::GraphBody);
            Outcome::Taken
        } else {
            self.push_subject(node.into_subject());
            self.push(Frame::StatementEnd);
            self.push_objects();
            self.verb(token)
        }
    }

    /// Expected next: `]` or a verb, after `[` between statements.
    fn on_outer_bracket(&mut self, token: &Token) -> (outcome: Outcome)
        ensures
            (final(self)@, outcome) == old(self)@.frame_step(FrameModel::OuterBracket, token@),
    {
        let full = Outcome::Failed(ParseErrorKind::Semantic);
        if token.kind == TokenKind::RightBracket {
            match self.fresh() {
                Some(blank) => {
                    self.push(Frame::GraphOrTriples { node: Node::Blank(blank) });
                    Outcome::Taken
                },
                None => full,
            }
        } else if self.anonymous_subject() {
            self.push(Frame::StatementEnd);
            self.push(Frame::OptionalPredicates);
            self.push(Frame::SubjectListEnd);
            self.push_objects();
            self.verb(token)
        } else {
            full
        }
    }

    /// Expected next: a subject or `}`, in a graph block.
    fn on_graph_body(&mut self, token: &Token) -> (outcome: Outcome)
        ensures
            (final(self)@, outcome) == old(self)@.frame_step(FrameModel::GraphBody, token@),
    {
        if token.kind == TokenKind::RightBrace {
            self.leave_graph();
            Outcome::Released
        } else {
            self.push(Frame::GraphBodyEnd);
            self.subject(token)
        }
    }

    /// Expected next: `.` or `}`, after a statement in a graph block.
    fn on_graph_body_end(&mut self, token: &Token) -> (outcome: Outcome)
        ensures
            (final(self)@, outcome) == old(self)@.frame_step(FrameModel::GraphBodyEnd, token@),
    {
        let wrong = Outcome::Failed(ParseErrorKind::Grammar);
        if token.kind == TokenKind::Dot {
            let _ = self.pop_subject();
            self.push(Frame::GraphBody);
            Outcome::Released
        } else if token.kind == TokenKind::RightBrace {
            let _ = self.pop_subject();
            self.leave_graph();
            Outcome::Released
        } else {
            wrong
        }
    }

    /// Expected next: `]` or a verb, after `[` where a graph block expects a subject.
    fn on_inner_bracket(&mut self, token: &Token) -> (outcome: Outcome)
        ensures
            (final(self)@, outcome) == old(self)@.frame_step(FrameModel::InnerBracket, token@),
    {
        let full = Outcome::Failed(ParseErrorKind::Semantic);
        if self.anonymous_subject() {
            if token.kind == TokenKind::RightBracket {
                self.push_predicates();
                Outcome::Taken
            } else {
                self.push(Frame::OptionalPredicates);
                self.push(Frame::SubjectListEnd);
                self.push_objects();
                self.verb(token)
            }
        } else {
            full
        }
    }

    /// Expected next: the dot that ends a statement between graph blocks.
    fn on_statement_end(&mut self, token: &Token) -> (outcome: Outcome)
        ensures
            (final(self)@, outcome) == old(self)@.frame_step(FrameModel::StatementEnd, token@),
    {
        let wrong = Outcome::Failed(ParseErrorKind::Grammar);
        if token.kind == TokenKind::Dot {
            let _ = self.pop_subject();
            Outcome::Released
        } else {
            wrong
        }
    }

    /// Expected next: a verb, or what follows the subject.
    fn on_optional_predicates(&mut self, token: &Token) -> (outcome: Outcome)
        ensures
            (final(self)@, outcome) == old(self)@.frame_step(
                FrameModel::OptionalPredicates,
                token@,
            ),
    {
        if Self::starts_verb(token) {
            self.push_objects();
            self.verb(token)
        } else {
            Outcome::Passed
        }
    }

    /// Expected next: `]`, at the end of a property list that is a subject.
    fn on_subject_list_end(&mut self, token: &Token) -> (outcome: Outcome)
        ensures
            (final(self)@, outcome) == old(self)@.frame_step(FrameModel::SubjectListEnd, token@),
    {
        let wrong = Outcome::Failed(ParseErrorKind::Grammar);
        if token.kind == TokenKind::RightBracket {
            Outcome::Taken
        } else {
            wrong
        }
    }

    /// Expected next: a verb.
    fn on_verb(&mut self, token: &Token) -> (outcome: Outcome)
        ensures
            (final(self)@, outcome) == old(self)@.frame_step(FrameModel::Verb, token@),
    {
        self.verb(token)
    }

    /// Expected next: an object.
    fn on_object(&mut self, token: &Token) -> (outcome: Outcome)
        ensures
            (final(self)@, outcome) == old(self)@.frame_step(FrameModel::Object, token@),
    {
        self.object(token)
    }

    /// Expected next: `,` or what follows the objects of a verb.
    fn on_object_list_end(&mut self, token: &Token) -> (outcome: Outcome)
        ensures
            (final(self)@, outcome) == old(self)@.frame_step(FrameModel::ObjectListEnd, token@),
    {
        let wrong = Outcome::Failed(ParseErrorKind::Grammar);
        if self.keep_object() {
            if token.kind == TokenKind::Comma {
                self.push(Frame::ObjectListEnd);
                self.push(Frame::Object);
                Outcome::Taken
            } else {
                let _ = self.pop_predicate();
                Outcome::Passed
            }
        } else {
            wrong
        }
    }

    /// Expected next: `;` or what follows the verbs of a subject.
    fn on_predicate_list_end(&mut self, token: &Token) -> (outcome: Outcome)
        ensures
            (final(self)@, outcome) == old(self)@.frame_step(FrameModel::PredicateListEnd, token@),
    {
        if token.kind == TokenKind::Semicolon {
            self.push(Frame::AfterSemicolon);
            Outcome::Taken
        } else {
            Outcome::Passed
        }
    }

    /// Expected next: a verb, `;`, or what follows the verbs of a subject.
    fn on_after_semicolon(&mut self, token: &Token) -> (outcome: Outcome)
        ensures
            (final(self)@, outcome) == old(self)@.frame_step(FrameModel::AfterSemicolon, token@),
    {
        if token.kind == TokenKind::Semicolon {
            self.push(Frame::AfterSemicolon);
            Outcome::Taken
        } else if Self::starts_verb(token) {
            self.push_objects();
            self.verb(token)
        } else {
            Outcome::Passed
        }
    }

    /// Expected next: `]` or a verb, after `[` where an object is expected.
    fn on_object_bracket(&mut self, token: &Token) -> (outcome: Outcome)
        ensures
            (final(self)@, outcome) == old(self)@.frame_step(FrameModel::ObjectBracket, token@),
    {
        let full = Outcome::Failed(ParseErrorKind::Semantic);
        match self.fresh() {
        Some(blank) => {
            if token.kind == TokenKind::RightBracket {
                self.push_object(Term::BlankNode(blank));
                Outcome::Taken
            } else {
                self.push_subject(Subject::BlankNode(blank));
                self.push(Frame::ObjectListClose);
                self.push_objects();
                self.verb(token)
            }
        },
        None => full,
        }
    }

    /// Expected next: `]`, at the end of a property list that is an object.
    fn on_object_list_close(&mut self, token: &Token) -> (outcome: Outcome)
        ensures
            (final(self)@, outcome) == old(self)@.frame_step(FrameModel::ObjectListClose, token@),
    {
        let wrong = Outcome::Failed(ParseErrorKind::Grammar);
        if token.kind == TokenKind::RightBracket && self.subjects.len() > 0 {
            match self.pop_subject() {
                Some(subject) => {
                    self.push_object(subject.to_term());
                    Outcome::Taken
                },
                None => wrong,
            }
        } else {
            wrong
        }
    }

    /// Expected next: `)` or the first item of a collection.
    fn on_collection_first(&mut self, token: &Token) -> (outcome: Outcome)
        ensures
            (final(self)@, outcome) == old(self)@.frame_step(FrameModel::CollectionFirst, token@),
    {
        let full = Outcome::Failed(ParseErrorKind::Semantic);
        if token.kind == TokenKind::RightParen {
            self.push_object(
                Term::NamedNode(
                    NamedNode::new_unchecked(
                        "http://www.w3.org/1999/02/22-rdf-syntax-ns#nil",
                    ),
                ),
            );
            Outcome::Taken
        } else {
            match self.fresh() {
                Some(blank) => {
                    self.push_subject(Subject::BlankNode(blank.duplicate()));
                    self.push_subject(Subject::BlankNode(blank));
                    self.push(Frame::CollectionNext);
                    self.object(token)
                },
                None => full,
            }
        }
    }

    /// Expected next: `)` or one more item of a collection.
    fn on_collection_next(&mut self, token: &Token) -> (outcome: Outcome)
        ensures
            (final(self)@, outcome) == old(self)@.frame_step(FrameModel::CollectionNext, token@),
    {
        self.collection_next(token)
    }

    /// Expected next: what follows a collection that is a subject.
    fn on_collection_subject_end(&mut self, token: &Token) -> (outcome: Outcome)
        ensures
            (final(self)@, outcome) == old(self)@.frame_step(
                FrameModel::CollectionSubjectEnd,
                token@,
            ),
    {
        self.object_to_subject()
    }

    /// Expected next: a language tag, `^^`, or what follows a literal.
    fn on_literal_suffix(&mut self, value: String, token: &Token) -> (outcome: Outcome)
        ensures
            (final(self)@, outcome) == old(self)@.frame_step(
                FrameModel::LiteralSuffix { value: value@ },
                token@,
            ),
    {
        self.literal_suffix(value, token)
    }

    /// Expected next: the datatype of a literal, after `^^`.
    fn on_literal_datatype(&mut self, value: String, token: &Token) -> (outcome: Outcome)
        ensures
            (final(self)@, outcome) == old(self)@.frame_step(
                FrameModel::LiteralDatatype { value: value@ },
                token@,
            ),
    {
        let wrong = Outcome::Failed(ParseErrorKind::Grammar);
        match self.named(token) {
        Read::Value(datatype) => {
            self.push_object(
                Term::Literal(Literal::new_typed_literal(value.as_str(), datatype)),
            );
            Outcome::Taken
        },
        Read::Other => wrong,
        Read::Failed(kind) => Outcome::Failed(kind),
        }
    }

    /// Expected next: the subject of a quoted triple.
    fn on_quoted_subject(&mut self, token: &Token) -> (outcome: Outcome)
        ensures
            (final(self)@, outcome) == old(self)@.frame_step(FrameModel::QuotedSubject, token@),
    {
        let wrong = Outcome::Failed(ParseErrorKind::Grammar);
        if token.kind == TokenKind::LeftBracket {
            self.push(Frame::AnonSubject);
            Outcome::Taken
        } else if token.kind == TokenKind::QuoteOpen {
            self.push(Frame::QuotedSubjectEnd);
            self.push_quoted();
            Outcome::Taken
        } else {
            match self.node(token) {
                Read::Value(node) => {
                    self.push_subject(node.into_subject());
                    Outcome::Taken
                },
                Read::Other => wrong,
                Read::Failed(kind) => Outcome::Failed(kind),
            }
        }
    }

    /// Expected next: the object of a quoted triple.
    fn on_quoted_object(&mut self, token: &Token) -> (outcome: Outcome)
        ensures
            (final(self)@, outcome) == old(self)@.frame_step(FrameModel::QuotedObject, token@),
    {
        if token.kind == TokenKind::LeftBracket {
            self.push(Frame::AnonObject);
            Outcome::Taken
        } else if token.kind == TokenKind::QuoteOpen {
            self.push_quoted();
            Outcome::Taken
        } else {
            self.simple_object(token)
        }
    }

    /// Expected next: `>>`.
    fn on_quoted_close(&mut self, token: &Token) -> (outcome: Outcome)
        ensures
            (final(self)@, outcome) == old(self)@.frame_step(FrameModel::QuotedClose, token@),
    {
        self.quoted_close(token)
    }

    /// Expected next: what follows a quoted triple that is a subject.
    fn on_quoted_subject_end(&mut self, token: &Token) -> (outcome: Outcome)
        ensures
            (final(self)@, outcome) == old(self)@.frame_step(FrameModel::QuotedSubjectEnd, token@),
    {
        self.object_to_subject()
    }

    /// Expected next: `]`, after `[` where a quoted triple expects its subject.
    fn on_anon_subject(&mut self, token: &Token) -> (outcome: Outcome)
        ensures
            (final(self)@, outcome) == old(self)@.frame_step(FrameModel::AnonSubject, token@),
    {
        match self.anonymous(token) {
        Some(blank) => {
            self.push_subject(Subject::BlankNode(blank));
            Outcome::Taken
        },
        None => Self::no_anonymous(token),
        }
    }

    /// Expected next: `]`, after `[` where a quoted triple expects its object.
    fn on_anon_object(&mut self, token: &Token) -> (outcome: Outcome)
        ensures
            (final(self)@, outcome) == old(self)@.frame_step(FrameModel::AnonObject, token@),
    {
        match self.anonymous(token) {
        Some(blank) => {
            self.push_object(Term::BlankNode(blank));
            Outcome::Taken
        },
        None => Self::no_anonymous(token),
        }
    }

    /// What a frame that was taken from the stack does with a token.
    #[verifier::rlimit(50)]
    fn frame_step(&mut self, frame: Frame, token: &Token) -> (outcome: Outcome)
        ensures
            (final(self)@, outcome) == old(self)@.frame_step(frame@, token@),
    {
        match frame {
            Frame::DirectiveEnd => self.on_directive_end(token),
            Frame::BaseIri => self.on_base_iri(token),
            Frame::PrefixName => self.on_prefix_name(token),
            Frame::PrefixIri { name } => self.on_prefix_iri(name, token),
            Frame::GraphLabel => self.on_graph_label(token),
            Frame::GraphAnon => self.on_graph_anon(token),
            Frame::GraphOpen => self.on_graph_open(token),
            Frame::GraphOrTriples { node } => self.on_graph_or_triples(node, token),
            Frame::OuterBracket => self.on_outer_bracket(token),
            Frame::GraphBody => self.on_graph_body(token),
            Frame::GraphBodyEnd => self.on_graph_body_end(token),
            Frame::InnerBracket => self.on_inner_bracket(token),
            Frame::StatementEnd => self.on_statement_end(token),
            Frame::OptionalPredicates => self.on_optional_predicates(token),
            Frame::SubjectListEnd => self.on_subject_list_end(token),
            Frame::Verb => self.on_verb(token),
            Frame::Object => self.on_object(token),
            Frame::ObjectListEnd => self.on_object_list_end(token),
            Frame::PredicateListEnd => self.on_predicate_list_end(token),
            Frame::AfterSemicolon => self.on_after_semicolon(token),
            Frame::ObjectBracket => self.on_object_bracket(token),
            Frame::ObjectListClose => self.on_object_list_close(token),
            Frame::CollectionFirst => self.on_collection_first(token),
            Frame::CollectionNext => self.on_collection_next(token),
            Frame::CollectionSubjectEnd => self.on_collection_subject_end(token),
            Frame::LiteralSuffix { value } => self.on_literal_suffix(value, token),
            Frame::LiteralDatatype { value } => self.on_literal_datatype(value, token),
            Frame::QuotedSubject => self.on_quoted_subject(token),
            Frame::QuotedObject => self.on_quoted_object(token),
            Frame::QuotedClose => self.on_quoted_close(token),
            Frame::QuotedSubjectEnd => self.on_quoted_subject_end(token),
            Frame::AnonSubject => self.on_anon_subject(token),
            Frame::AnonObject => self.on_anon_object(token),
        }
    }

    /// Tells whether the machine skips to the end of a statement.
    pub fn is_skipping(&self) -> (yes: bool)
        ensures
            yes == (self@.mode == Mode::Skipping),
    {
        self.mode == Mode::Skipping
    }

    /// Drops what was read of the statement, and starts skipping.
    pub fn fail(&mut self)
        ensures
            final(self)@ == old(self)@.failed(),
    {
        self.stack = Vec::new();
        self.subjects = Vec::new();
        self.predicates = Vec::new();
        self.objects = Vec::new();
        self.pending = Vec::new();
        self.mode = Mode::Skipping;
        assert(self@.stack =~= Seq::empty());
        assert(self@.subjects =~= Seq::empty());
        assert(self@.predicates =~= Seq::empty());
        assert(self@.objects =~= Seq::empty());
        assert(self@.pending =~= Seq::empty());
    }

    /// A token while skipping.
    fn skip(&mut self, token: &Token)
        ensures
            final(self)@ == old(self)@.skip(token@),
    {
        if token.kind == TokenKind::RightBrace {
            self.leave_graph();
            self.mode = Mode::Parsing;
        } else if token.kind == TokenKind::Dot && !self.in_graph {
            self.mode = Mode::Parsing;
        }
    }

    /// Ends a step.
    fn conclude(&mut self, outcome: Outcome, token: &Token) -> (result: Result<
        Vec<Quad>,
        ParseErrorKind,
    >)
        ensures
            (final(self)@, released(result)) == old(self)@.conclude(outcome, token@),
    {
        match outcome {
            Outcome::Released => {
                let mut quads: Vec<Quad> = Vec::new();
                std::mem::swap(&mut self.pending, &mut quads);
                assert(self@.pending =~= Seq::empty());
                Ok(quads)
            },
            Outcome::Stray => Err(ParseErrorKind::Grammar),
            Outcome::Failed(kind) => {
                self.fail();
                self.skip(token);
                Err(kind)
            },
            _ => {
                let quads: Vec<Quad> = Vec::new();
                assert(quads_model(quads@) =~= Seq::empty());
                Ok(quads)
            },
        }
    }

    /// Hands one more token to the machine. The answer holds the quads of the
    /// statement that the token ends, or the kind of error that the token is.
    #[verifier::rlimit(50)]
    pub fn recognize_next(&mut self, token: &Token) -> (result: Result<Vec<Quad>, ParseErrorKind>)
        ensures
            (final(self)@, released(result)) == old(self)@.recognize(token@),
    {
        proof {
            reveal(RecognizerModel::recognize);
        }
        if self.mode == Mode::Skipping {
            self.skip(token);
            let quads: Vec<Quad> = Vec::new();
            assert(quads_model(quads@) =~= Seq::empty());
            return Ok(quads);
        }
        loop
            invariant
                old(self)@.recognize(token@) == self@.dispatch(token@),
            decreases self.stack.len(),
        {
            let ghost before = self@;
            match self.stack.pop() {
                None => {
                    assert(self@ == before);
                    let outcome = self.document(token);
                    return self.conclude(outcome, token);
                },
                Some(frame) => {
                    let ghost below = self@;
                    assert(below == (RecognizerModel { stack: before.stack.drop_last(), ..before }))
                        by {
                        assert(below.stack =~= before.stack.drop_last());
                    }
                    assert(frame@ == before.stack.last());
                    let outcome = self.frame_step(frame, token);
                    if outcome != Outcome::Passed {
                        return self.conclude(outcome, token);
                    }
                    proof {
                        lemma_passing_keeps_the_stack(below, frame@, token@);
                        assert(self@ == (RecognizerModel { stack: below.stack, ..self@ }));
                    }
                },
            }
        }
    }

    /// Tells whether the input can end here.
    pub fn can_end(&self) -> (yes: bool)
        ensures
            yes == self@.can_end(),
    {
        self.mode == Mode::Skipping || (self.stack.len() == 0 && !self.in_graph)
    }

    /// Tells that the input has ended: what is left open is dropped.
    pub fn end(&mut self)
        ensures
            final(self)@ == old(self)@.ended(),
    {
        self.fail();
        self.in_graph = false;
        self.graph_name = GraphName::DefaultGraph;
        self.mode = Mode::Parsing;
    }
}

/// A frame that steps aside leaves the stack as it is.
pub proof fn lemma_passing_keeps_the_stack(
    state: RecognizerModel,
    frame: FrameModel,
    token: TokenModel,
)
    ensures
        state.frame_step(frame, token).1 == Outcome::Passed ==> state.frame_step(
            frame,
            token,
        ).0.stack == state.stack,
{
}

} // verus!
