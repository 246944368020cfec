//! The TriG writer: a state machine that turns quads, one at a time, into TriG
//! text, and leaves out the graph, the subject and the predicate wherever they
//! repeat those of the quad before.

use crate::format::{
    named_node_text, term_text, write_blank_node, write_named_node, write_subject, write_term,
};
use crate::model::{GraphName, NamedNode, Quad, QuadModel, Subject, TermModel};
use vstd::prelude::*;
use vstd::string::StringExecFns;
use vstd::utf8::encode_utf8;

verus! {

/// What the writer remembers between two quads.
pub struct WriterModel {
    /// The graph whose block is open; `None` outside of any block.
    pub graph_name: Option<TermModel>,
    /// The subject and predicate of the triple that is still open, if one is.
    pub current: Option<(TermModel, Seq<char>)>,
}

/// The subject, predicate and object of a quad, a space between them.
pub open spec fn triple_text(quad: QuadModel) -> Seq<char> {
    term_text(quad.subject) + seq![' '] + named_node_text(quad.predicate) + seq![' '] + term_text(
        quad.object,
    )
}

/// The tab that every line inside a graph block starts with.
pub open spec fn indent(graph_name: Option<TermModel>) -> Seq<char> {
    if graph_name is Some {
        seq!['\t']
    } else {
        Seq::empty()
    }
}

/// The line that opens the block of a named graph, and the tab of its first triple.
pub open spec fn graph_opening(graph_name: Option<TermModel>) -> Seq<char> {
    match graph_name {
        Some(name) => term_text(name) + seq![' ', '{', '\n', '\t'],
        None => Seq::empty(),
    }
}

/// The line that closes the block of a named graph.
pub open spec fn graph_closing(graph_name: Option<TermModel>) -> Seq<char> {
    if graph_name is Some {
        seq!['}', '\n']
    } else {
        Seq::empty()
    }
}

/// The end of the triple that is open, if one is.
pub open spec fn triple_closing(current: Option<(TermModel, Seq<char>)>) -> Seq<char> {
    if current is Some {
        seq![' ', '.', '\n']
    } else {
        Seq::empty()
    }
}

impl WriterModel {
    /// The state before the first quad: no block and no triple is open.
    pub open spec fn initial() -> WriterModel {
        WriterModel { graph_name: None, current: None }
    }

    /// The state after a quad was written: its graph and its triple are open.
    pub open spec fn after(self, quad: QuadModel) -> WriterModel {
        WriterModel { graph_name: quad.graph_name, current: Some((quad.subject, quad.predicate)) }
    }

    /// The text that a quad adds in this state.
    pub open spec fn text_for(self, quad: QuadModel) -> Seq<char> {
        if quad.graph_name == self.graph_name {
            match self.current {
                Some((subject, predicate)) => {
                    if quad.subject == subject {
                        if quad.predicate == predicate {
                            seq![' ', ',', ' '] + term_text(quad.object)
                        } else {
                            seq![' ', ';', '\n'] + indent(self.graph_name) + seq!['\t']
                                + named_node_text(quad.predicate) + seq![' '] + term_text(
                                quad.object,
                            )
                        }
                    } else {
                        seq![' ', '.', '\n'] + indent(self.graph_name) + triple_text(quad)
                    }
                },
                None => indent(self.graph_name) + triple_text(quad),
            }
        } else {
            triple_closing(self.current) + graph_closing(self.graph_name) + graph_opening(
                quad.graph_name,
            ) + triple_text(quad)
        }
    }

    /// The text that ends the document in this state.
    pub open spec fn closing_text(self) -> Seq<char> {
        triple_closing(self.current) + graph_closing(self.graph_name)
    }

    /// The state after a sequence of quads.
    pub open spec fn after_all(self, quads: Seq<QuadModel>) -> WriterModel
        decreases quads.len(),
    {
        if quads.len() == 0 {
            self
        } else {
            self.after(quads[0]).after_all(quads.drop_first())
        }
    }

    /// The text that a sequence of quads adds in this state.
    pub open spec fn text_for_all(self, quads: Seq<QuadModel>) -> Seq<char>
        decreases quads.len(),
    {
        if quads.len() == 0 {
            Seq::empty()
        } else {
            self.text_for(quads[0]) + self.after(quads[0]).text_for_all(quads.drop_first())
        }
    }
}

/// The TriG document that a sequence of quads is written as.
pub open spec fn document_text(quads: Seq<QuadModel>) -> Seq<char> {
    WriterModel::initial().text_for_all(quads) + WriterModel::initial().after_all(
        quads,
    ).closing_text()
}

/// The objects of a run of quads, each after a comma.
pub open spec fn object_list_text(quads: Seq<QuadModel>) -> Seq<char>
    decreases quads.len(),
{
    if quads.len() == 0 {
        Seq::empty()
    } else {
        seq![' ', ',', ' '] + term_text(quads[0].object) + object_list_text(quads.drop_first())
    }
}

/// A run of quads that share graph, subject and predicate is written as the
/// first quad followed by the other objects, each after a comma: the graph,
/// the subject and the predicate of the run are written once, with the first
/// quad, and the state after the run is the state after its first quad.
pub proof fn lemma_run_is_collapsed(state: WriterModel, quads: Seq<QuadModel>)
    requires
        quads.len() > 0,
        forall|i: int|
            0 <= i < quads.len() ==> {
                &&& (#[trigger] quads[i]).graph_name == quads[0].graph_name
                &&& quads[i].subject == quads[0].subject
                &&& quads[i].predicate == quads[0].predicate
            },
    ensures
        state.text_for_all(quads) == state.text_for(quads[0]) + object_list_text(
            quads.drop_first(),
        ),
        state.after_all(quads) == state.after(quads[0]),
    decreases quads.len(),
{
    let rest = quads.drop_first();
    let next = state.after(quads[0]);
    assert(state.after_all(quads) == next.after_all(rest));
    if rest.len() == 0 {
        assert(next.after_all(rest) == next);
        assert(next.text_for_all(rest) =~= Seq::<char>::empty());
        assert(object_list_text(rest) =~= Seq::<char>::empty());
    } else {
        assert(rest[0] == quads[1]);
        assert forall|i: int| 0 <= i < rest.len() implies {
            &&& (#[trigger] rest[i]).graph_name == rest[0].graph_name
            &&& rest[i].subject == rest[0].subject
            &&& rest[i].predicate == rest[0].predicate
        } by {
            assert(rest[i] == quads[i + 1]);
        }
        lemma_run_is_collapsed(next, rest);
        assert(next.text_for(rest[0]) == seq![' ', ',', ' '] + term_text(rest[0].object));
        assert(next.after(rest[0]) == next);
        assert(state.text_for_all(quads) =~= state.text_for(quads[0]) + object_list_text(rest));
    }
}

/// The text of quads followed by more quads is the text of the first followed
/// by the text that the others add in the state after the first.
pub proof fn lemma_text_in_two(state: WriterModel, first: Seq<QuadModel>, second: Seq<QuadModel>)
    ensures
        state.text_for_all(first + second) == state.text_for_all(first) + state.after_all(
            first,
        ).text_for_all(second),
        state.after_all(first + second) == state.after_all(first).after_all(second),
    decreases first.len(),
{
    if first.len() == 0 {
        assert(first + second =~= second);
        assert(state.text_for_all(first) + state.text_for_all(second) =~= state.text_for_all(
            second,
        ));
    } else {
        let next = state.after(first[0]);
        assert((first + second).drop_first() =~= first.drop_first() + second);
        assert((first + second)[0] == first[0]);
        lemma_text_in_two(next, first.drop_first(), second);
        assert(state.text_for_all(first + second) =~= state.text_for_all(first) + state.after_all(
            first,
        ).text_for_all(second));
    }
}

/// A TriG writer, as a builder of its two forms.
#[derive(Debug, Clone, Copy, PartialEq, Eq, Default)]
pub struct TriGSerializer;

/// A TriG writer that appends to the byte buffer handed to each call.
#[derive(Debug, Clone)]
pub struct LowLevelTriGWriter {
    current_graph_name: GraphName,
    current_subject_predicate: Option<(Subject, NamedNode)>,
}

/// A TriG writer that owns the byte buffer it appends to.
#[derive(Debug, Clone)]
pub struct ToWriteTriGWriter {
    write: Vec<u8>,
    writer: LowLevelTriGWriter,
}

impl View for LowLevelTriGWriter {
    type V = WriterModel;

    closed spec fn view(&self) -> WriterModel {
        WriterModel {
            graph_name: self.current_graph_name@,
            current: match self.current_subject_predicate {
                Some((subject, predicate)) => Some((subject@, predicate@)),
                None => None,
            },
        }
    }
}

impl TriGSerializer {
    /// Builds a new writer.
    pub fn new() -> (serializer: Self) {
        TriGSerializer
    }

    /// A writer that collects the document in `write`, after what `write` holds.
    pub fn serialize_to_write(&self, write: Vec<u8>) -> (writer: ToWriteTriGWriter)
        ensures
            writer.state() == WriterModel::initial(),
            writer.written() == write@,
    {
        ToWriteTriGWriter { write, writer: self.serialize() }
    }

    /// A writer in its initial state, to be handed a buffer with each quad.
    pub fn serialize(&self) -> (writer: LowLevelTriGWriter)
        ensures
            writer@ == WriterModel::initial(),
    {
        LowLevelTriGWriter {
            current_graph_name: GraphName::DefaultGraph,
            current_subject_predicate: None,
        }
    }
}

impl LowLevelTriGWriter {
    /// Appends to `out` a new line of the open graph, ready for a subject.
    fn write_indent(&self, out: &mut String)
        ensures
            final(out)@ == old(out)@ + indent(self@.graph_name),
    {
        if !self.current_graph_name.is_default_graph() {
            out.append("\t");
            proof {
                reveal_strlit("\t");
                assert("\t"@ =~= seq!['\t']);
            }
        } else {
            assert(out@ =~= old(out)@ + Seq::<char>::empty());
        }
    }

    /// Appends to `out` the name of a graph as it stands before its block.
    fn write_graph_opening(graph_name: &GraphName, out: &mut String)
        ensures
            final(out)@ == old(out)@ + graph_opening(graph_name@),
    {
        match graph_name {
            GraphName::NamedNode(node) => {
                write_named_node(node, out);
                out.append(" {\n\t");
                proof {
                    reveal_strlit(" {\n\t");
                    assert(" {\n\t"@ =~= seq![' ', '{', '\n', '\t']);
                    assert(out@ =~= old(out)@ + graph_opening(graph_name@));
                }
            },
            GraphName::BlankNode(node) => {
                write_blank_node(node, out);
                out.append(" {\n\t");
                proof {
                    reveal_strlit(" {\n\t");
                    assert(" {\n\t"@ =~= seq![' ', '{', '\n', '\t']);
                    assert(out@ =~= old(out)@ + graph_opening(graph_name@));
                }
            },
            GraphName::DefaultGraph => {
                assert(out@ =~= old(out)@ + Seq::<char>::empty());
            },
        }
    }

    /// Appends to `out` what ends the open triple and the open graph block.
    fn write_closing(&self, out: &mut String)
        ensures
            final(out)@ == old(out)@ + self@.closing_text(),
    {
        if self.current_subject_predicate.is_some() {
            out.append(" .\n");
        }
        if !self.current_graph_name.is_default_graph() {
            out.append("}\n");
        }
        proof {
            reveal_strlit(" .\n");
            reveal_strlit("}\n");
            assert(" .\n"@ =~= seq![' ', '.', '\n']);
            assert("}\n"@ =~= seq!['}', '\n']);
            assert(out@ =~= old(out)@ + self@.closing_text());
        }
    }

    /// Appends to `out` the subject, predicate and object of a quad.
    fn write_triple_text(q: &Quad, out: &mut String)
        ensures
            final(out)@ == old(out)@ + triple_text(q@),
    {
        write_subject(&q.subject, out);
        out.append(" ");
        write_named_node(&q.predicate, out);
        out.append(" ");
        write_term(&q.object, out);
        proof {
            reveal_strlit(" ");
            assert(" "@ =~= seq![' ']);
            assert(out@ =~= old(out)@ + triple_text(q@));
        }
    }

    /// The text that a quad adds in the state of this writer.
    pub fn quad_text(&self, q: &Quad) -> (text: String)
        ensures
            text@ == self@.text_for(q@),
    {
        let mut out = String::new();
        proof {
            reveal_strlit(" , ");
            reveal_strlit(" ;\n");
            reveal_strlit(" .\n");
            reveal_strlit("\t");
            reveal_strlit(" ");
            assert(" , "@ =~= seq![' ', ',', ' ']);
            assert(" ;\n"@ =~= seq![' ', ';', '\n']);
            assert(" .\n"@ =~= seq![' ', '.', '\n']);
            assert("\t"@ =~= seq!['\t']);
            assert(" "@ =~= seq![' ']);
        }
        if q.graph_name.same(&self.current_graph_name) {
            match &self.current_subject_predicate {
                Some((current_subject, current_predicate)) => {
                    if q.subject.same(current_subject) {
                        if q.predicate.same(current_predicate) {
                            out.append(" , ");
                            write_term(&q.object, &mut out);
                        } else {
                            out.append(" ;\n");
                            self.write_indent(&mut out);
                            out.append("\t");
                            write_named_node(&q.predicate, &mut out);
                            out.append(" ");
                            write_term(&q.object, &mut out);
                        }
                    } else {
                        out.append(" .\n");
                        self.write_indent(&mut out);
                        Self::write_triple_text(q, &mut out);
                    }
                },
                None => {
                    self.write_indent(&mut out);
                    Self::write_triple_text(q, &mut out);
                },
            }
        } else {
            self.write_closing(&mut out);
            Self::write_graph_opening(&q.graph_name, &mut out);
            Self::write_triple_text(q, &mut out);
        }
        assert(out@ =~= self@.text_for(q@));
        out
    }

    /// Writes one more quad: appends its text to `write` and remembers its
    /// graph, subject and predicate for the quad that follows.
    pub fn write_quad(&mut self, q: &Quad, write: &mut Vec<u8>)
        ensures
            final(write)@ == old(write)@ + encode_utf8(old(self)@.text_for(q@)),
            final(self)@ == old(self)@.after(q@),
    {
        let text = self.quad_text(q);
        write.extend_from_slice(text.as_str().as_bytes());
        self.current_graph_name = q.graph_name.duplicate();
        self.current_subject_predicate = Some((q.subject.duplicate(), q.predicate.duplicate()));
    }

    /// Ends the document: closes the open triple and the open graph block. The
    /// state of the writer stays as it is.
    pub fn finish(&mut self, write: &mut Vec<u8>)
        ensures
            final(write)@ == old(write)@ + encode_utf8(old(self)@.closing_text()),
            final(self)@ == old(self)@,
    {
        let mut out = String::new();
        self.write_closing(&mut out);
        assert(out@ =~= self@.closing_text());
        write.extend_from_slice(out.as_str().as_bytes());
    }
}

impl ToWriteTriGWriter {
    /// The state of the writer.
    pub closed spec fn state(&self) -> WriterModel {
        self.writer@
    }

    /// The bytes written so far.
    pub closed spec fn written(&self) -> Seq<u8> {
        self.write@
    }

    /// Writes one more quad.
    pub fn write_quad(&mut self, q: &Quad)
        ensures
            final(self).written() == old(self).written() + encode_utf8(
                old(self).state().text_for(q@),
            ),
            final(self).state() == old(self).state().after(q@),
    {
        self.writer.write_quad(q, &mut self.write)
    }

    /// Ends the document and hands back the buffer.
    pub fn finish(self) -> (write: Vec<u8>)
        ensures
            write@ == self.written() + encode_utf8(self.state().closing_text()),
    {
        let mut this = self;
        this.writer.finish(&mut this.write);
        this.write
    }
}

} // verus!
