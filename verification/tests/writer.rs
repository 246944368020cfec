use oxttl::model::{BlankNode, GraphName, Literal, NamedNode, Quad, Subject, Term};
use oxttl::TriGSerializer;

fn named(iri: &str) -> NamedNode {
    NamedNode::new_unchecked(iri)
}

fn blank(id: &str) -> BlankNode {
    BlankNode::new_unchecked(id)
}

#[test]
fn test_write() {
    let mut writer = TriGSerializer::new().serialize_to_write(Vec::new());
    writer.write_quad(&Quad::new(
        Subject::NamedNode(named("http://example.com/s")),
        named("http://example.com/p"),
        Term::NamedNode(named("http://example.com/o")),
        GraphName::NamedNode(named("http://example.com/g")),
    ));
    writer.write_quad(&Quad::new(
        Subject::NamedNode(named("http://example.com/s")),
        named("http://example.com/p"),
        Term::Literal(Literal::new_simple_literal("foo")),
        GraphName::NamedNode(named("http://example.com/g")),
    ));
    writer.write_quad(&Quad::new(
        Subject::NamedNode(named("http://example.com/s")),
        named("http://example.com/p2"),
        Term::Literal(Literal::new_language_tagged_literal_unchecked("foo", "en")),
        GraphName::NamedNode(named("http://example.com/g")),
    ));
    writer.write_quad(&Quad::new(
        Subject::BlankNode(blank("b")),
        named("http://example.com/p2"),
        Term::BlankNode(blank("b2")),
        GraphName::NamedNode(named("http://example.com/g")),
    ));
    writer.write_quad(&Quad::new(
        Subject::BlankNode(blank("b")),
        named("http://example.com/p2"),
        Term::Literal(Literal::new_typed_literal(
            "true",
            named("http://www.w3.org/2001/XMLSchema#boolean"),
        )),
        GraphName::DefaultGraph,
    ));
    writer.write_quad(&Quad::new(
        Subject::BlankNode(blank("b")),
        named("http://example.com/p2"),
        Term::Literal(Literal::new_typed_literal(
            "false",
            named("http://www.w3.org/2001/XMLSchema#boolean"),
        )),
        GraphName::NamedNode(named("http://example.com/g2")),
    ));
    assert_eq!(String::from_utf8(writer.finish()).unwrap(), "<http://example.com/g> {\n\t<http://example.com/s> <http://example.com/p> <http://example.com/o> , \"foo\" ;\n\t\t<http://example.com/p2> \"foo\"@en .\n\t_:b <http://example.com/p2> _:b2 .\n}\n_:b <http://example.com/p2> true .\n<http://example.com/g2> {\n\t_:b <http://example.com/p2> false .\n}\n");
}

fn iri_quad(s: &str, p: &str, o: &str, g: GraphName) -> Quad {
    Quad::new(Subject::NamedNode(named(s)), named(p), Term::NamedNode(named(o)), g)
}

fn write_all(quads: &[Quad]) -> String {
    let mut writer = TriGSerializer::new().serialize();
    let mut buffer = Vec::new();
    for quad in quads {
        writer.write_quad(quad, &mut buffer);
    }
    writer.finish(&mut buffer);
    String::from_utf8(buffer).unwrap()
}

fn write_object(object: Term) -> String {
    let text = write_all(&[Quad::new(
        Subject::NamedNode(named("s")),
        named("p"),
        object,
        GraphName::DefaultGraph,
    )]);
    text.strip_prefix("<s> <p> ").unwrap().strip_suffix(" .\n").unwrap().to_string()
}

fn typed(value: &str, datatype: &str) -> Term {
    Term::Literal(Literal::new_typed_literal(value, named(datatype)))
}

#[test]
fn collapsed_serialization() {
    let g = || GraphName::NamedNode(named("g"));
    let text = write_all(&[
        iri_quad("s", "p", "o", g()),
        iri_quad("s", "p", "o2", g()),
        iri_quad("s", "p2", "o3", g()),
        iri_quad("s2", "p", "o", g()),
        iri_quad("s", "p", "o", GraphName::DefaultGraph),
        iri_quad("s", "p", "o", GraphName::NamedNode(named("g2"))),
    ]);
    assert_eq!(
        text,
        "<g> {\n\t<s> <p> <o> , <o2> ;\n\t\t<p2> <o3> .\n\t<s2> <p> <o> .\n}\n<s> <p> <o> .\n<g2> {\n\t<s> <p> <o> .\n}\n"
    );
}

#[test]
fn numeric_inlining() {
    let text = write_all(&[Quad::new(
        Subject::BlankNode(blank("b")),
        named("p"),
        typed("true", "http://www.w3.org/2001/XMLSchema#boolean"),
        GraphName::NamedNode(named("g")),
    )]);
    assert_eq!(text, "<g> {\n\t_:b <p> true .\n}\n");
    assert_eq!(
        write_object(typed("TRUE", "http://www.w3.org/2001/XMLSchema#boolean")),
        "\"TRUE\"^^<http://www.w3.org/2001/XMLSchema#boolean>"
    );
}

#[test]
fn inline_forms_of_each_datatype() {
    let xsd = |name: &str| format!("http://www.w3.org/2001/XMLSchema#{name}");
    assert_eq!(write_object(typed("false", &xsd("boolean"))), "false");
    assert_eq!(write_object(typed("-12", &xsd("integer"))), "-12");
    assert_eq!(write_object(typed("1.5", &xsd("integer"))), format!("\"1.5\"^^<{}>", xsd("integer")));
    assert_eq!(write_object(typed("1.5", &xsd("decimal"))), "1.5");
    assert_eq!(write_object(typed("5", &xsd("decimal"))), format!("\"5\"^^<{}>", xsd("decimal")));
    assert_eq!(write_object(typed("1.5e3", &xsd("double"))), "1.5e3");
    assert_eq!(write_object(typed("1.5", &xsd("double"))), format!("\"1.5\"^^<{}>", xsd("double")));
    assert_eq!(write_object(typed("12", &xsd("int"))), format!("\"12\"^^<{}>", xsd("int")));
    assert_eq!(write_object(typed("true", &xsd("integer"))), format!("\"true\"^^<{}>", xsd("integer")));
}

#[test]
fn quoted_forms_of_literals() {
    assert_eq!(write_object(Term::Literal(Literal::new_simple_literal("foo"))), "\"foo\"");
    assert_eq!(
        write_object(typed("foo", "http://www.w3.org/2001/XMLSchema#string")),
        "\"foo\""
    );
    assert_eq!(
        write_object(Term::Literal(Literal::new_language_tagged_literal_unchecked("foo", "en-us"))),
        "\"foo\"@en-us"
    );
    assert_eq!(
        write_object(typed("1999-01-01", "http://www.w3.org/2001/XMLSchema#date")),
        "\"1999-01-01\"^^<http://www.w3.org/2001/XMLSchema#date>"
    );
    assert_eq!(
        write_object(Term::Literal(Literal::new_simple_literal("a\"b\\c\nd\re\tf\u{8}g\u{c}h\u{1}i\u{7f}jé"))),
        "\"a\\\"b\\\\c\\nd\\re\\tf\\bg\\fh\\u0001i\\u007Fjé\""
    );
}

#[test]
fn forms_of_nodes_and_quoted_triples() {
    assert_eq!(write_object(Term::NamedNode(named("http://example.com/o"))), "<http://example.com/o>");
    assert_eq!(write_object(Term::BlankNode(blank("b1"))), "_:b1");
    let triple = oxttl::Triple {
        subject: Subject::BlankNode(blank("s")),
        predicate: named("http://example.com/p"),
        object: typed("1", "http://www.w3.org/2001/XMLSchema#integer"),
    };
    assert_eq!(
        write_object(Term::Triple(Box::new(triple.clone()))),
        "<< _:s <http://example.com/p> 1 >>"
    );
    let text = write_all(&[Quad::new(
        Subject::Triple(Box::new(triple)),
        named("p"),
        Term::NamedNode(named("o")),
        GraphName::BlankNode(blank("g")),
    )]);
    assert_eq!(text, "_:g {\n\t<< _:s <http://example.com/p> 1 >> <p> <o> .\n}\n");
}

#[test]
fn empty_document() {
    assert_eq!(write_all(&[]), "");
    assert_eq!(TriGSerializer::new().serialize_to_write(b"# head\n".to_vec()).finish(), b"# head\n");
}

#[test]
fn run_of_quads_is_written_once() {
    let g = || GraphName::NamedNode(named("g"));
    let first = write_all(&[iri_quad("s", "p", "o1", g())]);
    let all = write_all(&[
        iri_quad("s", "p", "o1", g()),
        iri_quad("s", "p", "o2", g()),
        iri_quad("s", "p", "o3", g()),
    ]);
    assert_eq!(
        all,
        first.replace(" .\n}\n", " , <o2> , <o3> .\n}\n")
    );
    assert_eq!(all.matches("<g>").count(), 1);
    assert_eq!(all.matches("<s>").count(), 1);
    assert_eq!(all.matches("<p>").count(), 1);
}

#[test]
fn quad_text_does_not_change_the_writer() {
    let writer = TriGSerializer::new().serialize();
    let quad = iri_quad("s", "p", "o", GraphName::NamedNode(named("g")));
    assert_eq!(writer.quad_text(&quad), "<g> {\n\t<s> <p> <o>");
    assert_eq!(writer.quad_text(&quad), "<g> {\n\t<s> <p> <o>");
}

#[test]
fn characters_that_cannot_stand_in_an_iri_are_escaped() {
    assert_eq!(write_object(Term::NamedNode(named("<"))), "<\\u003C>");
    assert_eq!(write_object(Term::NamedNode(named("a b\tc"))), "<a\\u0020b\\u0009c>");
    assert_eq!(
        write_object(Term::NamedNode(named("a<b>c\"d{e}f|g^h`i\\j\nk\u{7f}l\u{0}m"))),
        "<a\\u003Cb\\u003Ec\\u0022d\\u007Be\\u007Df\\u007Cg\\u005Eh\\u0060i\\u005Cj\\u000Ak\\u007Fl\\u0000m>"
    );
    assert_eq!(
        write_object(Term::NamedNode(named("http://ex/é/\u{1F600}?q=1#f"))),
        "<http://ex/é/\u{1F600}?q=1#f>"
    );
    assert_eq!(
        write_object(typed("v", "http://ex/d>t")),
        "\"v\"^^<http://ex/d\\u003Et>"
    );
    let text = write_all(&[Quad::new(
        Subject::NamedNode(named("s>")),
        named("p<"),
        Term::NamedNode(named("o")),
        GraphName::NamedNode(named("g{")),
    )]);
    assert_eq!(text, "<g\\u007B> {\n\t<s\\u003E> <p\\u003C> <o> .\n}\n");
}

#[test]
fn blanks_in_an_iri_are_escaped() {
    assert_eq!(write_object(Term::NamedNode(named("a b\tc"))), "<a\\u0020b\\u0009c>");
}
