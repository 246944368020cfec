use oxttl::{
    BlankNode, GraphName, Literal, NamedNode, ParseError, ParseErrorKind, Quad, Subject, Term,
    TriGParser,
};

fn named(iri: &str) -> NamedNode {
    NamedNode::new_unchecked(iri)
}

fn quad(s: &str, p: &str, o: &str, g: GraphName) -> Quad {
    Quad::new(Subject::NamedNode(named(s)), named(p), Term::NamedNode(named(o)), g)
}

fn read_chunks(parser: &TriGParser, chunks: &[&[u8]]) -> Vec<Result<Quad, ParseError>> {
    let mut reader = parser.parse_in_scope("s");
    let mut items = Vec::new();
    for chunk in chunks {
        reader.extend_from_slice(chunk);
        while let Some(item) = reader.read_next() {
            items.push(item);
        }
    }
    reader.end();
    while let Some(item) = reader.read_next() {
        items.push(item);
    }
    assert!(reader.is_end());
    items
}

fn read_all(parser: &TriGParser, document: &str) -> Vec<Result<Quad, ParseError>> {
    read_chunks(parser, &[document.as_bytes()])
}

#[test]
fn minimal_default_graph_document() {
    let items = read_all(&TriGParser::new(), "@prefix : <http://ex/> . :a :b :c .");
    assert_eq!(
        items,
        vec![Ok(quad("http://ex/a", "http://ex/b", "http://ex/c", GraphName::DefaultGraph))]
    );
}

#[test]
fn graph_block() {
    let items = read_all(&TriGParser::new(), "<http://g> { <http://s> <http://p> \"1\" . }");
    assert_eq!(
        items,
        vec![Ok(Quad::new(
            Subject::NamedNode(named("http://s")),
            named("http://p"),
            Term::Literal(Literal::new_typed_literal(
                "1",
                named("http://www.w3.org/2001/XMLSchema#string")
            )),
            GraphName::NamedNode(named("http://g")),
        ))]
    );
    assert_eq!(
        Literal::new_typed_literal("1", named("http://www.w3.org/2001/XMLSchema#string")),
        Literal::new_simple_literal("1")
    );
}

#[test]
fn chunked_parse() {
    let chunks: [&[u8]; 3] = [b"@prefix :", b" <http://ex/> . :a", b" :b :c ."];
    let items = read_chunks(&TriGParser::new(), &chunks);
    assert_eq!(
        items,
        vec![Ok(quad("http://ex/a", "http://ex/b", "http://ex/c", GraphName::DefaultGraph))]
    );
}

#[test]
fn recovery_after_stray_characters() {
    let parser = TriGParser::new().with_prefix("", "http://ex/").unwrap();
    let document = ":a :b :c . !!! :d :e :f .";
    let items = read_all(&parser, document);
    assert_eq!(items.len(), 3);
    assert_eq!(
        items[0],
        Ok(quad("http://ex/a", "http://ex/b", "http://ex/c", GraphName::DefaultGraph))
    );
    assert_eq!(
        items[1],
        Err(ParseError {
            line: 0,
            column: 11,
            byte_offset: document.find('!').unwrap() as u64,
            kind: ParseErrorKind::Grammar
        })
    );
    assert_eq!(
        items[2],
        Ok(quad("http://ex/d", "http://ex/e", "http://ex/f", GraphName::DefaultGraph))
    );
}

#[test]
fn blank_nodes_are_scoped() {
    let items = read_all(&TriGParser::new(), "_:x <http://p> _:y , _:x , [] .");
    let x = BlankNode::new_unchecked("b0_s");
    let y = BlankNode::new_unchecked("b1_s");
    let anon = BlankNode::new_unchecked("b2_s");
    assert_eq!(
        items,
        vec![
            Ok(Quad::new(
                Subject::BlankNode(x.clone()),
                named("http://p"),
                Term::BlankNode(y),
                GraphName::DefaultGraph
            )),
            Ok(Quad::new(
                Subject::BlankNode(x.clone()),
                named("http://p"),
                Term::BlankNode(x.clone()),
                GraphName::DefaultGraph
            )),
            Ok(Quad::new(
                Subject::BlankNode(x),
                named("http://p"),
                Term::BlankNode(anon),
                GraphName::DefaultGraph
            )),
        ]
    );
}
