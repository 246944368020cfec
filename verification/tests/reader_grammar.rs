use oxttl::{
    BlankNode, GraphName, Literal, NamedNode, ParseError, ParseErrorKind, Quad, Subject, Term,
    TriGParser, Triple,
};

const RDF: &str = "http://www.w3.org/1999/02/22-rdf-syntax-ns#";
const XSD: &str = "http://www.w3.org/2001/XMLSchema#";

fn named(iri: &str) -> NamedNode {
    NamedNode::new_unchecked(iri)
}

fn node(n: u64) -> BlankNode {
    BlankNode::new_unchecked(&format!("b{n}_s"))
}

fn ex(local: &str) -> NamedNode {
    named(&format!("http://ex/{local}"))
}

fn quad(s: Subject, p: NamedNode, o: Term) -> Quad {
    Quad::new(s, p, o, GraphName::DefaultGraph)
}

fn in_graph(q: Quad, g: GraphName) -> Quad {
    Quad::new(q.subject, q.predicate, q.object, g)
}

fn abc() -> Quad {
    quad(Subject::NamedNode(ex("a")), ex("b"), Term::NamedNode(ex("c")))
}

fn typed(value: &str, datatype: &str) -> Term {
    Term::Literal(Literal::new_typed_literal(value, named(&format!("{XSD}{datatype}"))))
}

fn parser() -> TriGParser {
    TriGParser::new().with_prefix("", "http://ex/").unwrap()
}

fn read(parser: &TriGParser, document: &[u8]) -> Vec<Result<Quad, ParseError>> {
    let mut reader = parser.parse_in_scope("s");
    reader.extend_from_slice(document);
    reader.end();
    let mut items = Vec::new();
    while let Some(item) = reader.read_next() {
        items.push(item);
    }
    assert!(reader.is_end());
    assert_eq!(reader.read_next(), None);
    items
}

fn quads(document: &str) -> Vec<Quad> {
    read(&parser(), document.as_bytes()).into_iter().map(|item| item.unwrap()).collect()
}

fn error(line: u64, column: u64, byte_offset: u64, kind: ParseErrorKind) -> ParseError {
    ParseError { line, column, byte_offset, kind }
}

#[test]
fn predicate_and_object_lists() {
    assert_eq!(
        quads(":a :b :c , :d ; :e :f ; ; a :g ."),
        vec![
            abc(),
            quad(Subject::NamedNode(ex("a")), ex("b"), Term::NamedNode(ex("d"))),
            quad(Subject::NamedNode(ex("a")), ex("e"), Term::NamedNode(ex("f"))),
            quad(Subject::NamedNode(ex("a")), named(&format!("{RDF}type")), Term::NamedNode(ex("g"))),
        ]
    );
}

#[test]
fn directives_in_both_forms() {
    let document = "@base <http://base/dir/> . @prefix p: <x/> . PREFIX q: <http://q/> BaSe <http://other/> <s> p:a q:b .";
    assert_eq!(
        read(&TriGParser::new(), document.as_bytes()),
        vec![Ok(quad(
            Subject::NamedNode(named("http://other/s")),
            named("http://base/dir/x/a"),
            Term::NamedNode(named("http://q/b"))
        ))]
    );
}

#[test]
fn base_from_the_settings() {
    let parser = TriGParser::new().with_base_iri("http://base/dir/file").unwrap();
    assert_eq!(
        read(&parser, b"<a> <../b> <#c> ."),
        vec![Ok(quad(
            Subject::NamedNode(named("http://base/dir/a")),
            named("http://base/b"),
            Term::NamedNode(named("http://base/dir/file#c"))
        ))]
    );
}

#[test]
fn settings_refuse_what_is_no_iri() {
    assert_eq!(TriGParser::new().with_base_iri("no iri").unwrap_err().iri, "no iri");
    assert_eq!(TriGParser::new().with_base_iri("relative/path").unwrap_err().iri, "relative/path");
    assert_eq!(TriGParser::new().with_prefix("p", "../x").unwrap_err().iri, "../x");
    assert!(TriGParser::new().with_prefix("p", "http://x/").is_ok());
}

#[test]
fn later_prefix_binding_counts() {
    assert_eq!(
        quads("@prefix : <http://one/> . @prefix : <http://ex/> . :a :b :c ."),
        vec![abc()]
    );
}

#[test]
fn literals() {
    let s = || Subject::NamedNode(ex("a"));
    assert_eq!(
        quads(":a :b \"x\" , 'y' , \"\"\"l\"o\nng\"\"\" , '''q''r''' , \"\" , \"t\"@EN-us , \"5\"^^<http://ex/dt> , \"6\"^^:dt , \"7\"^^<http://www.w3.org/2001/XMLSchema#string> ."),
        vec![
            quad(s(), ex("b"), Term::Literal(Literal::new_simple_literal("x"))),
            quad(s(), ex("b"), Term::Literal(Literal::new_simple_literal("y"))),
            quad(s(), ex("b"), Term::Literal(Literal::new_simple_literal("l\"o\nng"))),
            quad(s(), ex("b"), Term::Literal(Literal::new_simple_literal("q''r"))),
            quad(s(), ex("b"), Term::Literal(Literal::new_simple_literal(""))),
            quad(s(), ex("b"), Term::Literal(Literal::new_language_tagged_literal_unchecked("t", "en-us"))),
            quad(s(), ex("b"), Term::Literal(Literal::new_typed_literal("5", ex("dt")))),
            quad(s(), ex("b"), Term::Literal(Literal::new_typed_literal("6", ex("dt")))),
            quad(s(), ex("b"), Term::Literal(Literal::new_simple_literal("7"))),
        ]
    );
}

#[test]
fn escapes_in_strings_and_iris() {
    assert_eq!(
        quads("<http://ex/\\u0061> :b \"\\t\\b\\n\\r\\f\\\"\\'\\\\\\u00e9\\U0001F600é\" ."),
        vec![quad(
            Subject::NamedNode(ex("a")),
            ex("b"),
            Term::Literal(Literal::new_simple_literal("\t\u{8}\n\r\u{c}\"'\\é\u{1F600}é"))
        )]
    );
}

#[test]
fn numbers_and_booleans() {
    let s = || Subject::NamedNode(ex("a"));
    assert_eq!(
        quads(":a :b 1 , -2.5 , +3e4 , .5 , 6.E7 , true , false , 8. :a :b 9 ."),
        vec![
            quad(s(), ex("b"), typed("1", "integer")),
            quad(s(), ex("b"), typed("-2.5", "decimal")),
            quad(s(), ex("b"), typed("+3e4", "double")),
            quad(s(), ex("b"), typed(".5", "decimal")),
            quad(s(), ex("b"), typed("6.E7", "double")),
            quad(s(), ex("b"), typed("true", "boolean")),
            quad(s(), ex("b"), typed("false", "boolean")),
            quad(s(), ex("b"), typed("8", "integer")),
            quad(s(), ex("b"), typed("9", "integer")),
        ]
    );
}

#[test]
fn names_with_dots_escapes_and_colons() {
    assert_eq!(
        read(
            &TriGParser::new().with_prefix("p.q", "http://ex/").unwrap(),
            "p.q:a.b p.q:c\\.d\\~ p.q:e:f%20g. p.q:é p.q:h p.q:1.".as_bytes()
        ),
        vec![
            Ok(quad(Subject::NamedNode(ex("a.b")), ex("c.d~"), Term::NamedNode(ex("e:f%20g")))),
            Ok(quad(Subject::NamedNode(ex("é")), ex("h"), Term::NamedNode(ex("1")))),
        ]
    );
}

#[test]
fn blank_node_property_lists() {
    assert_eq!(
        quads("[ :p :o ] :q [ :r [] ; :t 1 ] . [] :u :v . [ :w :x ] ."),
        vec![
            quad(Subject::BlankNode(node(0)), ex("p"), Term::NamedNode(ex("o"))),
            quad(Subject::BlankNode(node(1)), ex("r"), Term::BlankNode(node(2))),
            quad(Subject::BlankNode(node(1)), ex("t"), typed("1", "integer")),
            quad(Subject::BlankNode(node(0)), ex("q"), Term::BlankNode(node(1))),
            quad(Subject::BlankNode(node(3)), ex("u"), Term::NamedNode(ex("v"))),
            quad(Subject::BlankNode(node(4)), ex("w"), Term::NamedNode(ex("x"))),
        ]
    );
}

#[test]
fn collections() {
    let first = || named(&format!("{RDF}first"));
    let rest = || named(&format!("{RDF}rest"));
    let nil = || Term::NamedNode(named(&format!("{RDF}nil")));
    assert_eq!(
        quads(":a :b ( 1 :c ( ) ) . ( :d ) :e () ."),
        vec![
            quad(Subject::BlankNode(node(0)), first(), typed("1", "integer")),
            quad(Subject::BlankNode(node(0)), rest(), Term::BlankNode(node(1))),
            quad(Subject::BlankNode(node(1)), first(), Term::NamedNode(ex("c"))),
            quad(Subject::BlankNode(node(1)), rest(), Term::BlankNode(node(2))),
            quad(Subject::BlankNode(node(2)), first(), nil()),
            quad(Subject::BlankNode(node(2)), rest(), nil()),
            quad(Subject::NamedNode(ex("a")), ex("b"), Term::BlankNode(node(0))),
            quad(Subject::BlankNode(node(3)), first(), Term::NamedNode(ex("d"))),
            quad(Subject::BlankNode(node(3)), rest(), nil()),
            quad(Subject::BlankNode(node(3)), ex("e"), nil()),
        ]
    );
}

#[test]
fn graph_blocks() {
    let g = |name: &str| GraphName::NamedNode(ex(name));
    assert_eq!(
        quads(":g { :a :b :c . :a :b :c } GRAPH :h { :a :b :c . } graph _:x {} [] { :a :b :c } { :a :b :c } GRAPH [] { :a :b :c } :a :b :c ."),
        vec![
            in_graph(abc(), g("g")),
            in_graph(abc(), g("g")),
            in_graph(abc(), g("h")),
            in_graph(abc(), GraphName::BlankNode(node(1))),
            abc(),
            in_graph(abc(), GraphName::BlankNode(node(2))),
            abc(),
        ]
    );
}

#[test]
fn quoted_triples() {
    let parser = parser().with_quoted_triples();
    let inner = Triple {
        subject: Subject::NamedNode(ex("a")),
        predicate: ex("b"),
        object: typed("1", "integer"),
    };
    let outer = Triple {
        subject: Subject::Triple(Box::new(inner.clone())),
        predicate: ex("c"),
        object: Term::BlankNode(node(0)),
    };
    assert_eq!(
        read(&parser, b"<< << :a :b 1 >> :c [] >> :d << :a :b 1 >> ."),
        vec![Ok(quad(
            Subject::Triple(Box::new(outer)),
            ex("d"),
            Term::Triple(Box::new(inner))
        ))]
    );
}

#[test]
fn quoted_triples_are_refused_unless_enabled() {
    assert_eq!(
        read(&parser(), b"<< :a :b :c >> :d :e . :a :b :c ."),
        vec![Err(error(0, 0, 0, ParseErrorKind::Grammar)), Ok(abc())]
    );
    assert_eq!(
        read(&parser(), b":a :b << :a :b :c >> . :a :b :c ."),
        vec![Err(error(0, 6, 6, ParseErrorKind::Grammar)), Ok(abc())]
    );
}

#[test]
fn comments_and_blanks() {
    assert_eq!(quads("# head\n:a # subject\r\n\t:b :c # object\n. # end"), vec![abc()]);
    assert_eq!(quads(""), vec![]);
    assert_eq!(quads(" \n# only a comment"), vec![]);
}

#[test]
fn byte_order_mark_is_passed_over() {
    assert_eq!(read(&parser(), b"\xEF\xBB\xBF:a :b :c ."), vec![Ok(abc())]);
    // Anywhere else it is a character of a name.
    assert_eq!(
        read(&parser(), b":a :b :c . \xEF\xBB\xBF :a :b :c . :a :b :c ."),
        vec![Ok(abc()), Err(error(0, 11, 11, ParseErrorKind::Grammar)), Ok(abc())]
    );
}

#[test]
fn grammar_errors() {
    // A statement is dropped as a whole, and the next one is read.
    assert_eq!(
        read(&parser(), b":a :b :c , , :d . :a :b :c ."),
        vec![Err(error(0, 11, 11, ParseErrorKind::Grammar)), Ok(abc())]
    );
    // An unknown prefix.
    assert_eq!(
        read(&parser(), b":a\nu:b :c .\n:a :b :c ."),
        vec![Err(error(1, 0, 3, ParseErrorKind::Grammar)), Ok(abc())]
    );
    // A keyword that is none.
    assert_eq!(
        read(&parser(), b"select :a . :a :b :c ."),
        vec![Err(error(0, 0, 0, ParseErrorKind::Grammar)), Ok(abc())]
    );
    // A literal as subject.
    assert_eq!(
        read(&parser(), b"\"x\" :b :c ."),
        vec![Err(error(0, 0, 0, ParseErrorKind::Grammar))]
    );
    // A graph block inside a graph block.
    assert_eq!(
        read(&parser(), b":g { :a :b :c . :h { :a :b :c } } :a :b :c ."),
        vec![
            Ok(in_graph(abc(), GraphName::NamedNode(ex("g")))),
            Err(error(0, 19, 19, ParseErrorKind::Grammar)),
            Err(error(0, 32, 32, ParseErrorKind::Grammar)),
            Ok(abc()),
        ]
    );
}

#[test]
fn an_error_at_the_end_of_a_statement_skips_nothing() {
    assert_eq!(
        read(&parser(), b":a :b . :a :b :c . :a . :a :b :c ."),
        vec![
            Err(error(0, 6, 6, ParseErrorKind::Grammar)),
            Ok(abc()),
            Err(error(0, 22, 22, ParseErrorKind::Grammar)),
            Ok(abc())
        ]
    );
    assert_eq!(
        read(&parser(), b":g { :a :b } :a :b :c . } :a :b :c ."),
        vec![
            Err(error(0, 11, 11, ParseErrorKind::Grammar)),
            Ok(abc()),
            Err(error(0, 24, 24, ParseErrorKind::Grammar)),
            Ok(abc())
        ]
    );
}

#[test]
fn error_in_a_graph_block_skips_to_its_end() {
    assert_eq!(
        read(&parser(), b":g { :a :b . :a :b :c . } :a :b :c ."),
        vec![Err(error(0, 11, 11, ParseErrorKind::Grammar)), Ok(abc())]
    );
}

#[test]
fn lexical_errors() {
    // A line break in a short string.
    assert_eq!(
        read(&parser(), b":a :b \"x\n. :a :b :c ."),
        vec![Err(error(0, 6, 6, ParseErrorKind::Lexical)), Ok(abc())]
    );
    // A bad escape.
    assert_eq!(
        read(&parser(), b":a :b \"\\x\" . :a :b :c ."),
        vec![Err(error(0, 6, 6, ParseErrorKind::Lexical)), Ok(abc())]
    );
    // A blank in an IRI.
    assert_eq!(
        read(&parser(), b"<http://ex/a b> :b :c . :a :b :c ."),
        vec![Err(error(0, 0, 0, ParseErrorKind::Lexical)), Ok(abc())]
    );
    // A sign without a number.
    assert_eq!(
        read(&parser(), b":a :b +x . :a :b :c ."),
        vec![Err(error(0, 6, 6, ParseErrorKind::Lexical)), Ok(abc())]
    );
    // Malformed UTF-8.
    assert_eq!(
        read(&parser(), b":a :b \"\xFF\" . :a :b :c ."),
        vec![Err(error(0, 6, 6, ParseErrorKind::Lexical)), Ok(abc())]
    );
    assert_eq!(
        read(&parser(), b":a :b \xC3( . :a :b :c ."),
        vec![Err(error(0, 6, 6, ParseErrorKind::Lexical)), Ok(abc())]
    );
    // A surrogate as an escape.
    assert_eq!(
        read(&parser(), b":a :b \"\\uD800\" . :a :b :c ."),
        vec![Err(error(0, 6, 6, ParseErrorKind::Lexical)), Ok(abc())]
    );
}

#[test]
fn semantic_errors() {
    // A relative IRI without a base.
    assert_eq!(
        read(&parser(), b"<a> :b :c . :a :b :c ."),
        vec![Err(error(0, 0, 0, ParseErrorKind::Semantic)), Ok(abc())]
    );
    // A language tag that is not well-formed.
    assert_eq!(
        read(&parser(), b":a :b \"x\"@en--us . :a :b \"x\"@1a . :a :b \"x\"@en- . :a :b :c ."),
        vec![
            Err(error(0, 9, 9, ParseErrorKind::Semantic)),
            Err(error(0, 28, 28, ParseErrorKind::Semantic)),
            Err(error(0, 43, 43, ParseErrorKind::Semantic)),
            Ok(abc())
        ]
    );
    // A directive with an IRI that is none is skipped.
    assert_eq!(
        read(&parser(), b"@prefix p: <http://[/> . :a :b :c ."),
        vec![Err(error(0, 11, 11, ParseErrorKind::Semantic)), Ok(abc())]
    );
}

#[test]
fn unexpected_end() {
    assert_eq!(
        read(&parser(), b":a :b :c . :a :b :c"),
        vec![Ok(abc()), Err(error(0, 19, 19, ParseErrorKind::UnexpectedEof))]
    );
    assert_eq!(
        read(&parser(), b":a :b \"x"),
        vec![Err(error(0, 6, 6, ParseErrorKind::UnexpectedEof))]
    );
    assert_eq!(
        read(&parser(), b":a :b <http://ex/c"),
        vec![Err(error(0, 6, 6, ParseErrorKind::UnexpectedEof))]
    );
    assert_eq!(
        read(&parser(), b":g { :a :b :c . "),
        vec![Ok(in_graph(abc(), GraphName::NamedNode(ex("g")))), Err(error(0, 16, 16, ParseErrorKind::UnexpectedEof))]
    );
    assert_eq!(read(&parser(), b"PREFIX p: <http://p/>"), vec![]);
}

#[test]
fn columns_count_characters() {
    assert_eq!(
        read(&parser(), "# é\n:é :b , .".as_bytes()),
        vec![Err(error(1, 6, 12, ParseErrorKind::Grammar))]
    );
}
