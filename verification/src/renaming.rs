//! How a reader renames the blank nodes of a document: each identifier that
//! it hears of is bound, once, to a blank node of the reader's own scope, and
//! two identifiers are never bound to the same one. What a reader hands out
//! can in turn be written and read back.

use crate::grammar::{blank_id, decimal_text, lookup, RecognizerModel};
use crate::format::can_be_inlined;
use crate::model::{xsd_string, LiteralModel, QuadModel, TermModel};
use crate::parser::is_drawn_scope;
use crate::readback::is_label_byte;
use crate::resolved::{lemma_read_is_resolved, reader_holds_resolved};
use crate::roundtrip::{
    bound, has_room, is_plain_iri, is_plain_label, is_plain_node, is_plain_quad,
    lemma_encode_ascii, renamed,
};
use crate::scope::{
    in_scope, lemma_decimal_text_is_digits, lemma_numbers_keep_apart, lemma_read_stays,
    reader_scoped,
};
use crate::stream::ReaderModel;
use vstd::prelude::*;

verus! {

/// Tells whether a recognizer can make `count` more blank nodes.
pub open spec fn has_room_for(settings: RecognizerModel, count: int) -> bool {
    settings.counter + count <= u64::MAX
}

/// Tells whether a recognizer has heard of a term: any term but a blank node
/// whose identifier it has not bound.
pub open spec fn knows(settings: RecognizerModel, term: TermModel) -> bool {
    match term {
        TermModel::Blank(id) => lookup(settings.labels, id) is Some,
        _ => true,
    }
}

/// The name of a graph as a term; for the default graph, a term that is
/// heard of without a trace.
pub open spec fn graph_term(graph: Option<TermModel>) -> TermModel {
    match graph {
        Some(name) => name,
        None => TermModel::Named(Seq::empty()),
    }
}

/// The graph name that a recognizer takes a graph name for.
pub open spec fn renamed_graph(
    settings: RecognizerModel,
    graph: Option<TermModel>,
) -> Option<TermModel> {
    match graph {
        Some(name) => Some(renamed(settings, name)),
        None => None,
    }
}

/// The recognizer once it has heard of the name of the graph of a quad.
pub open spec fn heard_graph(settings: RecognizerModel, quad: QuadModel) -> RecognizerModel {
    bound(settings, graph_term(quad.graph_name))
}

/// The recognizer once it has heard of the graph and the subject of a quad.
pub open spec fn heard_subject(settings: RecognizerModel, quad: QuadModel) -> RecognizerModel {
    bound(heard_graph(settings, quad), quad.subject)
}

/// The recognizer once it has heard of a quad: of its graph, its subject and
/// its object, in this order.
pub open spec fn heard(settings: RecognizerModel, quad: QuadModel) -> RecognizerModel {
    bound(heard_subject(settings, quad), quad.object)
}

/// The recognizer once it has heard of quads, one after the other.
pub open spec fn heard_all(settings: RecognizerModel, quads: Seq<QuadModel>) -> RecognizerModel
    decreases quads.len(),
{
    if quads.len() == 0 {
        settings
    } else {
        heard_all(heard(settings, quads[0]), quads.drop_first())
    }
}

/// The quad that a recognizer takes a quad for.
pub open spec fn renamed_quad(settings: RecognizerModel, quad: QuadModel) -> QuadModel {
    QuadModel {
        subject: renamed(settings, quad.subject),
        predicate: quad.predicate,
        object: renamed(settings, quad.object),
        graph_name: renamed_graph(settings, quad.graph_name),
    }
}

/// The quads that a recognizer takes quads for.
pub open spec fn renamed_quads(settings: RecognizerModel, quads: Seq<QuadModel>) -> Seq<
    QuadModel,
> {
    Seq::new(quads.len(), |i: int| renamed_quad(settings, quads[i]))
}

/// Tells whether a quad holds no blank node.
pub open spec fn has_no_blank_node(quad: QuadModel) -> bool {
    &&& !(quad.subject is Blank)
    &&& !(quad.object is Blank)
    &&& !(graph_term(quad.graph_name) is Blank)
}

/// Hearing of a term changes nothing but the table of identifiers and the
/// number of the next blank node, and takes at most one number.
pub proof fn lemma_bound_is_the_same_otherwise(settings: RecognizerModel, term: TermModel)
    ensures
        bound(settings, term) == (RecognizerModel {
            labels: bound(settings, term).labels,
            counter: bound(settings, term).counter,
            ..settings
        }),
        settings.counter <= bound(settings, term).counter <= settings.counter + 1,
        knows(settings, term) ==> bound(settings, term) == settings,
{
}

/// What a recognizer has heard of, it knows as before once it hears of
/// another term.
pub proof fn lemma_bound_keeps(settings: RecognizerModel, other: TermModel, term: TermModel)
    requires
        knows(settings, term),
    ensures
        knows(bound(settings, other), term),
        renamed(bound(settings, other), term) == renamed(settings, term),
{
    match other {
        TermModel::Blank(id) => {
            if lookup(settings.labels, id) is None && has_room(settings) {
                let more = settings.labels.push((id, settings.counter));
                assert(more.drop_last() =~= settings.labels);
                assert(more.last() == (id, settings.counter));
            }
        },
        _ => {},
    }
}

/// Once a recognizer has heard of a term, it knows it, and takes it for what
/// it took it for when it heard of it.
pub proof fn lemma_bound_is_known(settings: RecognizerModel, term: TermModel)
    requires
        has_room(settings),
    ensures
        knows(bound(settings, term), term),
        renamed(bound(settings, term), term) == renamed(settings, term),
{
    match term {
        TermModel::Blank(id) => {
            if lookup(settings.labels, id) is None {
                let more = settings.labels.push((id, settings.counter));
                assert(more.drop_last() =~= settings.labels);
                assert(more.last() == (id, settings.counter));
            }
        },
        _ => {},
    }
}

/// What a recognizer has heard of, it knows as before once it hears of a quad.
pub proof fn lemma_heard_keeps(settings: RecognizerModel, quad: QuadModel, term: TermModel)
    requires
        knows(settings, term),
    ensures
        knows(heard(settings, quad), term),
        renamed(heard(settings, quad), term) == renamed(settings, term),
{
    lemma_bound_keeps(settings, graph_term(quad.graph_name), term);
    lemma_bound_keeps(heard_graph(settings, quad), quad.subject, term);
    lemma_bound_keeps(heard_subject(settings, quad), quad.object, term);
}

/// What a recognizer has heard of, it knows as before once it hears of more quads.
pub proof fn lemma_heard_all_keeps(
    settings: RecognizerModel,
    quads: Seq<QuadModel>,
    term: TermModel,
)
    requires
        knows(settings, term),
    ensures
        knows(heard_all(settings, quads), term),
        renamed(heard_all(settings, quads), term) == renamed(settings, term),
    decreases quads.len(),
{
    if quads.len() > 0 {
        lemma_heard_keeps(settings, quads[0], term);
        lemma_heard_all_keeps(heard(settings, quads[0]), quads.drop_first(), term);
    }
}

/// Hearing of a quad changes nothing but the table of identifiers and the
/// number of the next blank node, and takes at most three numbers.
pub proof fn lemma_heard_is_the_same_otherwise(settings: RecognizerModel, quad: QuadModel)
    ensures
        heard(settings, quad) == (RecognizerModel {
            labels: heard(settings, quad).labels,
            counter: heard(settings, quad).counter,
            ..settings
        }),
        settings.counter <= heard(settings, quad).counter <= settings.counter + 3,
        heard_graph(settings, quad).counter <= settings.counter + 1,
        heard_subject(settings, quad).counter <= settings.counter + 2,
        heard_graph(settings, quad).base == settings.base,
        heard_subject(settings, quad).base == settings.base,
{
    lemma_bound_is_the_same_otherwise(settings, graph_term(quad.graph_name));
    lemma_bound_is_the_same_otherwise(heard_graph(settings, quad), quad.subject);
    lemma_bound_is_the_same_otherwise(heard_subject(settings, quad), quad.object);
}

/// Once a recognizer has heard of a quad, it knows its terms, and takes each
/// for what it took it for when it heard of it.
pub proof fn lemma_heard_is_known(settings: RecognizerModel, quad: QuadModel)
    requires
        has_room_for(settings, 3),
    ensures
        knows(heard(settings, quad), graph_term(quad.graph_name)),
        knows(heard(settings, quad), quad.subject),
        knows(heard(settings, quad), quad.object),
        renamed_graph(heard(settings, quad), quad.graph_name) == renamed_graph(
            settings,
            quad.graph_name,
        ),
        renamed(heard(settings, quad), quad.subject) == renamed(
            heard_graph(settings, quad),
            quad.subject,
        ),
        renamed(heard(settings, quad), quad.object) == renamed(
            heard_subject(settings, quad),
            quad.object,
        ),
{
    let name = graph_term(quad.graph_name);
    let first = heard_graph(settings, quad);
    let second = heard_subject(settings, quad);
    lemma_heard_is_the_same_otherwise(settings, quad);
    lemma_bound_is_known(settings, name);
    lemma_bound_keeps(first, quad.subject, name);
    lemma_bound_keeps(second, quad.object, name);
    lemma_bound_is_known(first, quad.subject);
    lemma_bound_keeps(second, quad.object, quad.subject);
    lemma_bound_is_known(second, quad.object);
}

/// The quad that a recognizer takes a quad for when it hears of it.
pub open spec fn quad_as_heard(settings: RecognizerModel, quad: QuadModel) -> QuadModel {
    QuadModel {
        subject: renamed(heard_graph(settings, quad), quad.subject),
        predicate: quad.predicate,
        object: renamed(heard_subject(settings, quad), quad.object),
        graph_name: renamed_graph(settings, quad.graph_name),
    }
}

/// What a recognizer took a quad for when it heard of it, it takes it for
/// after any more quads.
pub proof fn lemma_heard_quad_stays(
    settings: RecognizerModel,
    quad: QuadModel,
    later: Seq<QuadModel>,
)
    requires
        has_room_for(settings, 3),
    ensures
        renamed_quad(heard_all(heard(settings, quad), later), quad) == quad_as_heard(
            settings,
            quad,
        ),
{
    let then = heard(settings, quad);
    lemma_heard_is_known(settings, quad);
    lemma_heard_all_keeps(then, later, graph_term(quad.graph_name));
    lemma_heard_all_keeps(then, later, quad.subject);
    lemma_heard_all_keeps(then, later, quad.object);
}

/// The quads that a recognizer takes quads for, the first apart.
pub proof fn lemma_renamed_quads_in_two(settings: RecognizerModel, quads: Seq<QuadModel>)
    requires
        quads.len() > 0,
    ensures
        renamed_quads(settings, quads) == seq![renamed_quad(settings, quads[0])] + renamed_quads(
            settings,
            quads.drop_first(),
        ),
{
    assert(renamed_quads(settings, quads) =~= seq![renamed_quad(settings, quads[0])]
        + renamed_quads(settings, quads.drop_first()));
}

/// Quads without blank nodes are taken for what they are.
pub proof fn lemma_nothing_else_is_renamed(settings: RecognizerModel, quads: Seq<QuadModel>)
    requires
        forall|i: int| 0 <= i < quads.len() ==> has_no_blank_node(#[trigger] quads[i]),
    ensures
        renamed_quads(settings, quads) == quads,
{
    assert forall|i: int| 0 <= i < quads.len() implies renamed_quad(settings, quads[i])
        == quads[i] by {
        assert(has_no_blank_node(quads[i]));
    }
    assert(renamed_quads(settings, quads) =~= quads);
}

/// Tells whether the table of identifiers of a recognizer binds each
/// identifier once, each to a number of its own below the number of the next
/// blank node.
pub open spec fn binds_apart(settings: RecognizerModel) -> bool {
    &&& forall|i: int|
        0 <= i < settings.labels.len() ==> (#[trigger] settings.labels[i]).1 < settings.counter
    &&& forall|i: int, j: int|
        0 <= i < j < settings.labels.len() ==> (#[trigger] settings.labels[i]).1 != (
        #[trigger] settings.labels[j]).1
}

/// What a table binds an identifier to stands in the table beside it.
pub proof fn lemma_lookup_is_an_entry(table: Seq<(Seq<char>, u64)>, key: Seq<char>)
    requires
        lookup(table, key) is Some,
    ensures
        exists|i: int|
            0 <= i < table.len() && (#[trigger] table[i]) == (key, lookup(table, key)->Some_0),
    decreases table.len(),
{
    if table.last().0 == key {
        assert(table[table.len() - 1] == (key, lookup(table, key)->Some_0));
    } else {
        lemma_lookup_is_an_entry(table.drop_last(), key);
        let i = choose|i: int|
            0 <= i < table.drop_last().len() && (#[trigger] table.drop_last()[i]) == (
                key,
                lookup(table, key)->Some_0,
            );
        assert(table[i] == table.drop_last()[i]);
    }
}

/// Hearing of a term leaves the bindings apart.
pub proof fn lemma_bound_binds_apart(settings: RecognizerModel, term: TermModel)
    requires
        binds_apart(settings),
    ensures
        binds_apart(bound(settings, term)),
{
}

/// Hearing of quads leaves the bindings apart.
pub proof fn lemma_heard_all_binds_apart(settings: RecognizerModel, quads: Seq<QuadModel>)
    requires
        binds_apart(settings),
    ensures
        binds_apart(heard_all(settings, quads)),
    decreases quads.len(),
{
    if quads.len() > 0 {
        let quad = quads[0];
        lemma_bound_binds_apart(settings, graph_term(quad.graph_name));
        lemma_bound_binds_apart(heard_graph(settings, quad), quad.subject);
        lemma_bound_binds_apart(heard_subject(settings, quad), quad.object);
        lemma_heard_all_binds_apart(heard(settings, quad), quads.drop_first());
    }
}

/// The renaming is one to one: two identifiers that a recognizer has bound
/// are taken for the same blank node only where they are the same.
pub proof fn lemma_renaming_is_one_to_one(
    settings: RecognizerModel,
    first: Seq<char>,
    second: Seq<char>,
)
    requires
        binds_apart(settings),
        knows(settings, TermModel::Blank(first)),
        knows(settings, TermModel::Blank(second)),
        renamed(settings, TermModel::Blank(first)) == renamed(settings, TermModel::Blank(second)),
    ensures
        first == second,
{
    let n = lookup(settings.labels, first)->Some_0;
    let m = lookup(settings.labels, second)->Some_0;
    if n != m {
        lemma_numbers_keep_apart(settings.scope, n as nat, m as nat);
    }
    lemma_lookup_is_an_entry(settings.labels, first);
    lemma_lookup_is_an_entry(settings.labels, second);
    let i = choose|i: int|
        0 <= i < settings.labels.len() && (#[trigger] settings.labels[i]) == (first, n);
    let j = choose|j: int|
        0 <= j < settings.labels.len() && (#[trigger] settings.labels[j]) == (second, m);
    if i < j {
        assert(settings.labels[i].1 != settings.labels[j].1);
    } else if j < i {
        assert(settings.labels[j].1 != settings.labels[i].1);
    }
}

/// Tells whether a quad holds a term as its subject, as its object or as the
/// name of its graph.
pub open spec fn holds_term(quad: QuadModel, term: TermModel) -> bool {
    quad.subject == term || quad.object == term || quad.graph_name == Some(term)
}

/// Once a recognizer has heard of quads, it knows the terms of each of them.
pub proof fn lemma_heard_all_knows(
    settings: RecognizerModel,
    quads: Seq<QuadModel>,
    i: int,
    term: TermModel,
)
    requires
        has_room_for(settings, 3 * (quads.len() as int)),
        0 <= i < quads.len(),
        holds_term(quads[i], term),
    ensures
        knows(heard_all(settings, quads), term),
    decreases quads.len(),
{
    let quad = quads[0];
    let later = quads.drop_first();
    let then = heard(settings, quad);
    lemma_heard_is_the_same_otherwise(settings, quad);
    if i == 0 {
        lemma_heard_is_known(settings, quad);
        lemma_heard_all_keeps(then, later, term);
    } else {
        assert(later[i - 1] == quads[i]);
        lemma_heard_all_knows(then, later, i - 1, term);
    }
}

/// Blank nodes are read apart: two blank nodes of quads that a recognizer
/// has heard of are taken for the same blank node only where they are the
/// same. So what is read back of written quads is the quads with their blank
/// nodes renamed one to one.
pub proof fn lemma_blank_nodes_are_read_apart(
    settings: RecognizerModel,
    quads: Seq<QuadModel>,
    i: int,
    first: Seq<char>,
    j: int,
    second: Seq<char>,
)
    requires
        binds_apart(settings),
        has_room_for(settings, 3 * (quads.len() as int)),
        0 <= i < quads.len(),
        0 <= j < quads.len(),
        holds_term(quads[i], TermModel::Blank(first)),
        holds_term(quads[j], TermModel::Blank(second)),
        renamed(heard_all(settings, quads), TermModel::Blank(first)) == renamed(
            heard_all(settings, quads),
            TermModel::Blank(second),
        ),
    ensures
        first == second,
{
    let last = heard_all(settings, quads);
    lemma_heard_all_binds_apart(settings, quads);
    lemma_heard_all_knows(settings, quads, i, TermModel::Blank(first));
    lemma_heard_all_knows(settings, quads, j, TermModel::Blank(second));
    lemma_renaming_is_one_to_one(last, first, second);
}

/// The identifiers that a reader makes in a drawn scope are plain labels:
/// `b`, digits, `_`, and digits and letters of the scope.
pub proof fn lemma_made_identifiers_are_plain(scope: Seq<char>, n: nat)
    requires
        is_drawn_scope(scope),
    ensures
        is_plain_label(blank_id(scope, n)),
{
    let id = blank_id(scope, n);
    let digits = decimal_text(n);
    lemma_decimal_text_is_digits(n);
    let bytes = Seq::new(id.len(), |i: int| id[i] as u8);
    assert forall|i: int| 0 <= i < id.len() implies '\0' <= #[trigger] id[i] <= '\u{7f}'
        && id[i] as u8 == bytes[i] && is_label_byte(bytes[i]) by {
        if i == 0 {
            assert(id[i] == 'b');
        } else if i < 1 + digits.len() {
            assert(id[i] == digits[i - 1]);
        } else if i == 1 + digits.len() {
            assert(id[i] == '_');
        } else {
            assert(id[i] == scope[i - 2 - digits.len()]);
        }
    }
    lemma_encode_ascii(id, bytes);
}

/// A blank node of a drawn scope, as a reader with that scope hands it out,
/// is written so that it is read back.
pub proof fn lemma_blank_nodes_of_a_scope_are_plain(term: TermModel, scope: Seq<char>)
    requires
        is_drawn_scope(scope),
        term is Blank,
        in_scope(term, scope),
    ensures
        is_plain_node(term),
{
    let id = term->Blank_0;
    let n = choose|n: nat| id == #[trigger] blank_id(scope, n);
    lemma_made_identifiers_are_plain(scope, n);
}

/// Tells whether a term is a blank node, or a named node with an IRI that a
/// reader without a base takes as it is.
pub open spec fn is_node_with_plain_iri(term: TermModel) -> bool {
    match term {
        TermModel::Named(iri) => is_plain_iri(iri),
        TermModel::Blank(_) => true,
        _ => false,
    }
}

/// Tells whether a quad holds no quoted triple, no IRI but such as a reader
/// without a base takes as they are, and no literal of the datatype of
/// strings that names its datatype.
pub open spec fn has_plain_iris(quad: QuadModel) -> bool {
    &&& is_node_with_plain_iri(quad.subject)
    &&& is_plain_iri(quad.predicate)
    &&& match quad.object {
        TermModel::Literal(LiteralModel::Typed { value, datatype }) => can_be_inlined(
            LiteralModel::Typed { value, datatype },
        ) || (is_plain_iri(datatype) && datatype != xsd_string()),
        TermModel::Literal(_) => true,
        node => is_node_with_plain_iri(node),
    }
    &&& match quad.graph_name {
        Some(name) => is_node_with_plain_iri(name),
        None => true,
    }
}

/// What a reader with a drawn scope hands out can be written and read back:
/// the blank nodes of a quad that it hands out have plain labels, and its
/// language tags are plain. So the quad is written so that it is read back
/// wherever its IRIs are, and it holds no quoted triple.
pub proof fn lemma_read_quad_is_plain(reader: ReaderModel)
    requires
        reader_scoped(reader),
        reader_holds_resolved(reader),
        is_drawn_scope(reader.recognizer.scope),
    ensures
        reader.read().1 matches Some(Ok(quad)) ==> (has_plain_iris(quad) ==> is_plain_quad(quad)),
{
    let scope = reader.recognizer.scope;
    lemma_read_stays(reader);
    lemma_read_is_resolved(reader);
    if let Some(Ok(quad)) = reader.read().1 {
        if has_plain_iris(quad) {
            if quad.subject is Blank {
                lemma_blank_nodes_of_a_scope_are_plain(quad.subject, scope);
            }
            if quad.object is Blank {
                lemma_blank_nodes_of_a_scope_are_plain(quad.object, scope);
            }
            if graph_term(quad.graph_name) is Blank {
                lemma_blank_nodes_of_a_scope_are_plain(graph_term(quad.graph_name), scope);
            }
        }
    }
}

} // verus!
