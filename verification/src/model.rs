//! The RDF terms that quads are made of, and their mathematical models.
//!
//! Every term type has a view: named nodes and blank nodes are seen as their
//! text, literals as a [`LiteralModel`], and the terms that can nest as a
//! [`TermModel`]. Contracts across the crate speak of these views.

use vstd::prelude::*;

verus! {

/// What a literal is: a lexical form, alone or with a language tag or a datatype.
pub enum LiteralModel {
    Simple { value: Seq<char> },
    LanguageTagged { value: Seq<char>, language: Seq<char> },
    Typed { value: Seq<char>, datatype: Seq<char> },
}

/// What a term is, whatever position of a quad it stands in.
pub enum TermModel {
    Named(Seq<char>),
    Blank(Seq<char>),
    Literal(LiteralModel),
    Triple(Box<TripleModel>),
}

/// What a quoted triple is.
pub struct TripleModel {
    pub subject: TermModel,
    pub predicate: Seq<char>,
    pub object: TermModel,
}

/// What a quad is. The default graph is `None`.
pub struct QuadModel {
    pub subject: TermModel,
    pub predicate: Seq<char>,
    pub object: TermModel,
    pub graph_name: Option<TermModel>,
}

/// The datatype that a literal without datatype or language tag has.
pub open spec fn xsd_string() -> Seq<char> {
    "http://www.w3.org/2001/XMLSchema#string"@
}

/// An IRI.
#[derive(Debug, Clone, PartialEq, Eq, Hash)]
pub struct NamedNode {
    pub iri: String,
}

impl View for NamedNode {
    type V = Seq<char>;

    open spec fn view(&self) -> Seq<char> {
        self.iri@
    }
}

impl NamedNode {
    /// Builds a named node from an IRI, which is not validated.
    pub fn new_unchecked(iri: &str) -> (node: Self)
        ensures
            node@ == iri@,
    {
        NamedNode { iri: iri.to_owned() }
    }

    /// The IRI.
    pub fn as_str(&self) -> (iri: &str)
        ensures
            iri@ == self@,
    {
        self.iri.as_str()
    }

    /// Tells whether two named nodes are the same IRI.
    pub fn same(&self, other: &NamedNode) -> (same: bool)
        ensures
            same == (self@ == other@),
    {
        self.iri == other.iri
    }

    /// A copy of this named node.
    pub fn duplicate(&self) -> (copy: Self)
        ensures
            copy@ == self@,
    {
        NamedNode { iri: self.iri.clone() }
    }
}

/// A blank node, known by an identifier that is local to a document.
#[derive(Debug, Clone, PartialEq, Eq, Hash)]
pub struct BlankNode {
    pub id: String,
}

impl View for BlankNode {
    type V = Seq<char>;

    open spec fn view(&self) -> Seq<char> {
        self.id@
    }
}

impl BlankNode {
    /// Builds a blank node from an identifier, which is not validated.
    pub fn new_unchecked(id: &str) -> (node: Self)
        ensures
            node@ == id@,
    {
        BlankNode { id: id.to_owned() }
    }

    /// The identifier.
    pub fn as_str(&self) -> (id: &str)
        ensures
            id@ == self@,
    {
        self.id.as_str()
    }

    /// Tells whether two blank nodes have the same identifier.
    pub fn same(&self, other: &BlankNode) -> (same: bool)
        ensures
            same == (self@ == other@),
    {
        self.id == other.id
    }

    /// A copy of this blank node.
    pub fn duplicate(&self) -> (copy: Self)
        ensures
            copy@ == self@,
    {
        BlankNode { id: self.id.clone() }
    }
}

#[derive(Debug, Clone, PartialEq, Eq, Hash)]
enum LiteralContent {
    Simple { value: String },
    LanguageTagged { value: String, language: String },
    Typed { value: String, datatype: NamedNode },
}

/// A literal: a lexical form with a language tag, with a datatype, or alone,
/// which stands for the datatype `xsd:string`.
#[derive(Debug, Clone, PartialEq, Eq, Hash)]
pub struct Literal {
    content: LiteralContent,
}

impl View for Literal {
    type V = LiteralModel;

    closed spec fn view(&self) -> LiteralModel {
        match self.content {
            LiteralContent::Simple { value } => LiteralModel::Simple { value: value@ },
            LiteralContent::LanguageTagged { value, language } => LiteralModel::LanguageTagged {
                value: value@,
                language: language@,
            },
            LiteralContent::Typed { value, datatype } => LiteralModel::Typed {
                value: value@,
                datatype: datatype@,
            },
        }
    }
}

impl LiteralModel {
    /// The lexical form.
    pub open spec fn value(self) -> Seq<char> {
        match self {
            LiteralModel::Simple { value } => value,
            LiteralModel::LanguageTagged { value, .. } => value,
            LiteralModel::Typed { value, .. } => value,
        }
    }

    /// The literal that a lexical form and a datatype make: with `xsd:string`
    /// it is the simple literal.
    pub open spec fn typed(value: Seq<char>, datatype: Seq<char>) -> LiteralModel {
        if datatype == xsd_string() {
            LiteralModel::Simple { value }
        } else {
            LiteralModel::Typed { value, datatype }
        }
    }
}

impl Literal {
    /// Builds a literal of datatype `xsd:string`.
    pub fn new_simple_literal(value: &str) -> (literal: Self)
        ensures
            literal@ == (LiteralModel::Simple { value: value@ }),
    {
        Literal { content: LiteralContent::Simple { value: value.to_owned() } }
    }

    /// Builds a literal with a datatype. With `xsd:string` the result is the
    /// simple literal of that lexical form.
    pub fn new_typed_literal(value: &str, datatype: NamedNode) -> (literal: Self)
        ensures
            literal@ == LiteralModel::typed(value@, datatype@),
    {
        let plain = "http://www.w3.org/2001/XMLSchema#string".to_owned();
        if datatype.iri == plain {
            Literal { content: LiteralContent::Simple { value: value.to_owned() } }
        } else {
            Literal { content: LiteralContent::Typed { value: value.to_owned(), datatype } }
        }
    }

    /// Builds a language-tagged literal. The tag is taken as it is: the caller
    /// sees to it that it is well-formed and in lower case.
    pub fn new_language_tagged_literal_unchecked(value: &str, language: &str) -> (literal: Self)
        ensures
            literal@ == (LiteralModel::LanguageTagged { value: value@, language: language@ }),
    {
        Literal {
            content: LiteralContent::LanguageTagged {
                value: value.to_owned(),
                language: language.to_owned(),
            },
        }
    }

    /// The lexical form.
    pub fn value(&self) -> (value: &str)
        ensures
            value@ == self@.value(),
    {
        match &self.content {
            LiteralContent::Simple { value } => value.as_str(),
            LiteralContent::LanguageTagged { value, .. } => value.as_str(),
            LiteralContent::Typed { value, .. } => value.as_str(),
        }
    }

    /// The language tag, where the literal has one.
    pub fn language(&self) -> (language: Option<&str>)
        ensures
            match self@ {
                LiteralModel::LanguageTagged { language: tag, .. } => language is Some
                    && language.unwrap()@ == tag,
                _ => language is None,
            },
    {
        match &self.content {
            LiteralContent::LanguageTagged { language, .. } => Some(language.as_str()),
            _ => None,
        }
    }

    /// The datatype, where the literal was built with one other than `xsd:string`.
    pub fn explicit_datatype(&self) -> (datatype: Option<&NamedNode>)
        ensures
            match self@ {
                LiteralModel::Typed { datatype: iri, .. } => datatype is Some
                    && datatype.unwrap()@ == iri,
                _ => datatype is None,
            },
    {
        match &self.content {
            LiteralContent::Typed { datatype, .. } => Some(datatype),
            _ => None,
        }
    }

    /// Tells whether two literals are the same.
    pub fn same(&self, other: &Literal) -> (same: bool)
        ensures
            same == (self@ == other@),
    {
        match (&self.content, &other.content) {
            (LiteralContent::Simple { value: a }, LiteralContent::Simple { value: b }) => *a == *b,
            (
                LiteralContent::LanguageTagged { value: a, language: la },
                LiteralContent::LanguageTagged { value: b, language: lb },
            ) => *a == *b && *la == *lb,
            (
                LiteralContent::Typed { value: a, datatype: da },
                LiteralContent::Typed { value: b, datatype: db },
            ) => *a == *b && da.same(db),
            _ => false,
        }
    }

    /// A copy of this literal.
    pub fn duplicate(&self) -> (copy: Self)
        ensures
            copy@ == self@,
    {
        match &self.content {
            LiteralContent::Simple { value } => Literal {
                content: LiteralContent::Simple { value: value.clone() },
            },
            LiteralContent::LanguageTagged { value, language } => Literal {
                content: LiteralContent::LanguageTagged {
                    value: value.clone(),
                    language: language.clone(),
                },
            },
            LiteralContent::Typed { value, datatype } => Literal {
                content: LiteralContent::Typed {
                    value: value.clone(),
                    datatype: datatype.duplicate(),
                },
            },
        }
    }
}

/// A quoted triple: a triple that stands as a term.
#[derive(Debug, PartialEq, Eq, Hash)]
pub struct Triple {
    pub subject: Subject,
    pub predicate: NamedNode,
    pub object: Term,
}

/// What can stand as the subject of a quad.
#[derive(Debug, PartialEq, Eq, Hash)]
pub enum Subject {
    NamedNode(NamedNode),
    BlankNode(BlankNode),
    Triple(Box<Triple>),
}

/// What can stand as the object of a quad.
#[derive(Debug, PartialEq, Eq, Hash)]
pub enum Term {
    NamedNode(NamedNode),
    BlankNode(BlankNode),
    Literal(Literal),
    Triple(Box<Triple>),
}

/// The graph that a quad belongs to.
#[derive(Debug, Clone, PartialEq, Eq, Hash)]
pub enum GraphName {
    NamedNode(NamedNode),
    BlankNode(BlankNode),
    DefaultGraph,
}

/// A triple and the graph that it belongs to.
#[derive(Debug, Clone, PartialEq, Eq, Hash)]
pub struct Quad {
    pub subject: Subject,
    pub predicate: NamedNode,
    pub object: Term,
    pub graph_name: GraphName,
}

/// The model of a quoted triple.
pub open spec fn triple_model(triple: Triple) -> TripleModel
    decreases triple,
{
    TripleModel {
        subject: subject_model(triple.subject),
        predicate: triple.predicate@,
        object: term_model(triple.object),
    }
}

/// The model of a subject.
pub open spec fn subject_model(subject: Subject) -> TermModel
    decreases subject,
{
    match subject {
        Subject::NamedNode(node) => TermModel::Named(node@),
        Subject::BlankNode(node) => TermModel::Blank(node@),
        Subject::Triple(triple) => TermModel::Triple(Box::new(triple_model(*triple))),
    }
}

/// The model of an object.
pub open spec fn term_model(term: Term) -> TermModel
    decreases term,
{
    match term {
        Term::NamedNode(node) => TermModel::Named(node@),
        Term::BlankNode(node) => TermModel::Blank(node@),
        Term::Literal(literal) => TermModel::Literal(literal@),
        Term::Triple(triple) => TermModel::Triple(Box::new(triple_model(*triple))),
    }
}

impl View for Triple {
    type V = TripleModel;

    open spec fn view(&self) -> TripleModel {
        triple_model(*self)
    }
}

impl View for Subject {
    type V = TermModel;

    open spec fn view(&self) -> TermModel {
        subject_model(*self)
    }
}

impl View for Term {
    type V = TermModel;

    open spec fn view(&self) -> TermModel {
        term_model(*self)
    }
}

impl View for GraphName {
    type V = Option<TermModel>;

    open spec fn view(&self) -> Option<TermModel> {
        match self {
            GraphName::NamedNode(node) => Some(TermModel::Named(node@)),
            GraphName::BlankNode(node) => Some(TermModel::Blank(node@)),
            GraphName::DefaultGraph => None,
        }
    }
}

impl View for Quad {
    type V = QuadModel;

    open spec fn view(&self) -> QuadModel {
        QuadModel {
            subject: self.subject@,
            predicate: self.predicate@,
            object: self.object@,
            graph_name: self.graph_name@,
        }
    }
}

impl Triple {
    /// Tells whether two triples are the same.
    pub fn same(&self, other: &Triple) -> (same: bool)
        ensures
            same == (self@ == other@),
        decreases self,
    {
        self.subject.same(&other.subject) && self.predicate.same(&other.predicate)
            && self.object.same(&other.object)
    }

    /// A copy of this triple.
    pub fn duplicate(&self) -> (copy: Self)
        ensures
            copy@ == self@,
        decreases self,
    {
        Triple {
            subject: self.subject.duplicate(),
            predicate: self.predicate.duplicate(),
            object: self.object.duplicate(),
        }
    }
}

impl Subject {
    /// Tells whether two subjects are the same term.
    pub fn same(&self, other: &Subject) -> (same: bool)
        ensures
            same == (self@ == other@),
        decreases self,
    {
        match (self, other) {
            (Subject::NamedNode(a), Subject::NamedNode(b)) => a.same(b),
            (Subject::BlankNode(a), Subject::BlankNode(b)) => a.same(b),
            (Subject::Triple(a), Subject::Triple(b)) => a.same(b),
            _ => false,
        }
    }

    /// A copy of this subject.
    pub fn duplicate(&self) -> (copy: Self)
        ensures
            copy@ == self@,
        decreases self,
    {
        match self {
            Subject::NamedNode(node) => Subject::NamedNode(node.duplicate()),
            Subject::BlankNode(node) => Subject::BlankNode(node.duplicate()),
            Subject::Triple(triple) => Subject::Triple(Box::new(triple.duplicate())),
        }
    }

    /// This subject as a term that can stand as an object.
    pub fn to_term(&self) -> (term: Term)
        ensures
            term@ == self@,
    {
        match self {
            Subject::NamedNode(node) => Term::NamedNode(node.duplicate()),
            Subject::BlankNode(node) => Term::BlankNode(node.duplicate()),
            Subject::Triple(triple) => Term::Triple(Box::new(triple.duplicate())),
        }
    }
}

impl Term {
    /// Tells whether two terms are the same.
    pub fn same(&self, other: &Term) -> (same: bool)
        ensures
            same == (self@ == other@),
        decreases self,
    {
        match (self, other) {
            (Term::NamedNode(a), Term::NamedNode(b)) => a.same(b),
            (Term::BlankNode(a), Term::BlankNode(b)) => a.same(b),
            (Term::Literal(a), Term::Literal(b)) => a.same(b),
            (Term::Triple(a), Term::Triple(b)) => a.same(b),
            _ => false,
        }
    }

    /// A copy of this term.
    pub fn duplicate(&self) -> (copy: Self)
        ensures
            copy@ == self@,
        decreases self,
    {
        match self {
            Term::NamedNode(node) => Term::NamedNode(node.duplicate()),
            Term::BlankNode(node) => Term::BlankNode(node.duplicate()),
            Term::Literal(literal) => Term::Literal(literal.duplicate()),
            Term::Triple(triple) => Term::Triple(Box::new(triple.duplicate())),
        }
    }
}

impl Clone for Triple {
    fn clone(&self) -> (copy: Self)
        ensures
            copy@ == self@,
    {
        self.duplicate()
    }
}

impl Clone for Subject {
    fn clone(&self) -> (copy: Self)
        ensures
            copy@ == self@,
    {
        self.duplicate()
    }
}

impl Clone for Term {
    fn clone(&self) -> (copy: Self)
        ensures
            copy@ == self@,
    {
        self.duplicate()
    }
}

impl GraphName {
    /// Tells whether this is the default graph.
    pub fn is_default_graph(&self) -> (default: bool)
        ensures
            default == (self@ is None),
    {
        match self {
            GraphName::DefaultGraph => true,
            _ => false,
        }
    }

    /// Tells whether two graph names are the same.
    pub fn same(&self, other: &GraphName) -> (same: bool)
        ensures
            same == (self@ == other@),
    {
        match (self, other) {
            (GraphName::NamedNode(a), GraphName::NamedNode(b)) => a.same(b),
            (GraphName::BlankNode(a), GraphName::BlankNode(b)) => a.same(b),
            (GraphName::DefaultGraph, GraphName::DefaultGraph) => true,
            _ => false,
        }
    }

    /// A copy of this graph name.
    pub fn duplicate(&self) -> (copy: Self)
        ensures
            copy@ == self@,
    {
        match self {
            GraphName::NamedNode(node) => GraphName::NamedNode(node.duplicate()),
            GraphName::BlankNode(node) => GraphName::BlankNode(node.duplicate()),
            GraphName::DefaultGraph => GraphName::DefaultGraph,
        }
    }
}

impl Quad {
    /// Builds a quad from its four components.
    pub fn new(
        subject: Subject,
        predicate: NamedNode,
        object: Term,
        graph_name: GraphName,
    ) -> (quad: Self)
        ensures
            quad.subject == subject,
            quad.predicate == predicate,
            quad.object == object,
            quad.graph_name == graph_name,
    {
        Quad { subject, predicate, object, graph_name }
    }

    /// A copy of this quad.
    pub fn duplicate(&self) -> (copy: Self)
        ensures
            copy@ == self@,
    {
        Quad {
            subject: self.subject.duplicate(),
            predicate: self.predicate.duplicate(),
            object: self.object.duplicate(),
            graph_name: self.graph_name.duplicate(),
        }
    }
}

} // verus!
