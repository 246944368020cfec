use oxttl::{
    FromReadTriGReader, GraphName, NamedNode, ParseError, ParseErrorKind, Pull, Quad, Subject,
    Term, TriGParser, TriGSerializer,
};

const DOCUMENT: &str = "@prefix : <http://ex/> .\n# comment \u{e9}\n:a :b \"\"\"l\"o\\ng\u{1F600}\"\"\" , 1.5e3 , 1. :a :b 2 ; a :c .\n:g { [ :p ( 1 [] ) ] :q _:x , \"x\"@en , \"y\"^^:t . :a :b , } !! <x> :b .\n:a :b :c'''x''' . _:x :q 'z'\n";

fn read_in_chunks(chunks: &[&[u8]]) -> Vec<Result<Quad, ParseError>> {
    let mut reader = TriGParser::new().parse_in_scope("s");
    let mut items = Vec::new();
    for chunk in chunks {
        reader.extend_from_slice(chunk);
        while let Some(item) = reader.read_next() {
            items.push(item);
        }
        assert!(!reader.is_end());
    }
    reader.end();
    while let Some(item) = reader.read_next() {
        items.push(item);
    }
    assert!(reader.is_end());
    items
}

#[test]
fn the_whole_document_at_once() {
    let items = read_in_chunks(&[DOCUMENT.as_bytes()]);
    let quads = items.iter().filter(|item| item.is_ok()).count();
    let errors: Vec<ParseError> = items.iter().filter_map(|item| item.clone().err()).collect();
    assert_eq!(quads, 13);
    assert_eq!(
        errors.iter().map(|error| error.kind).collect::<Vec<_>>(),
        vec![
            ParseErrorKind::Grammar,
            ParseErrorKind::Grammar,
            ParseErrorKind::Semantic,
            ParseErrorKind::Grammar,
            ParseErrorKind::UnexpectedEof
        ]
    );
}

#[test]
fn every_split_in_two_reads_the_same() {
    let bytes = DOCUMENT.as_bytes();
    let whole = read_in_chunks(&[bytes]);
    for at in 0..=bytes.len() {
        assert_eq!(read_in_chunks(&[&bytes[..at], &bytes[at..]]), whole, "split at {at}");
    }
}

#[test]
fn byte_by_byte_reads_the_same() {
    let bytes = DOCUMENT.as_bytes();
    let whole = read_in_chunks(&[bytes]);
    let chunks: Vec<&[u8]> = bytes.chunks(1).collect();
    assert_eq!(read_in_chunks(&chunks), whole);
    let chunks: Vec<&[u8]> = bytes.chunks(7).collect();
    assert_eq!(read_in_chunks(&chunks), whole);
    assert_eq!(read_in_chunks(&[b"", bytes, b""]), whole);
}

#[test]
fn error_offsets_never_decrease() {
    let items = read_in_chunks(&[DOCUMENT.as_bytes()]);
    let offsets: Vec<u64> =
        items.iter().filter_map(|item| item.clone().err()).map(|error| error.byte_offset).collect();
    assert_eq!(offsets.len(), 5);
    assert!(offsets.windows(2).all(|pair| pair[0] <= pair[1]));
    assert_eq!(offsets[0], DOCUMENT.find(", }").unwrap() as u64);
    assert_eq!(offsets[1], DOCUMENT.find("!!").unwrap() as u64);
    assert_eq!(offsets[2], DOCUMENT.find("<x>").unwrap() as u64);
    assert_eq!(offsets[3], DOCUMENT.find("'''x").unwrap() as u64);
    assert_eq!(offsets[4], DOCUMENT.len() as u64);
}

#[test]
fn nothing_is_parsed_before_it_is_read() {
    let mut reader = TriGParser::new().parse_in_scope("s");
    assert!(!reader.is_end());
    assert!(!reader.is_ending());
    assert_eq!(reader.bytes_taken(), 0);
    reader.extend_from_slice(b"<http://ex/a> <http://ex/b> <http://ex/c> . <http://ex/a> ");
    assert_eq!(reader.bytes_taken(), 58);
    assert!(reader.read_next().unwrap().is_ok());
    assert_eq!(reader.read_next(), None);
    assert_eq!(reader.bytes_taken(), 58);
    assert!(!reader.is_end());
    reader.end();
    assert!(reader.is_ending());
    assert!(!reader.is_end());
    assert_eq!(
        reader.read_next(),
        Some(Err(ParseError {
            line: 0,
            column: 58,
            byte_offset: 58,
            kind: ParseErrorKind::UnexpectedEof
        }))
    );
    assert!(reader.is_end());
    assert_eq!(reader.read_next(), None);
}

fn blank_ids(items: &[Result<Quad, ParseError>]) -> Vec<String> {
    let mut ids = Vec::new();
    for item in items {
        let quad = item.clone().unwrap();
        if let Subject::BlankNode(node) = quad.subject {
            ids.push(node.id);
        }
        if let Term::BlankNode(node) = quad.object {
            ids.push(node.id);
        }
        if let GraphName::BlankNode(node) = quad.graph_name {
            ids.push(node.id);
        }
    }
    ids
}

fn read_with(reader: &mut oxttl::LowLevelTriGReader, document: &[u8]) -> Vec<Result<Quad, ParseError>> {
    reader.extend_from_slice(document);
    reader.end();
    let mut items = Vec::new();
    while let Some(item) = reader.read_next() {
        items.push(item);
    }
    items
}

#[test]
fn two_parses_share_no_blank_node() {
    let document = b"_:a <http://p> _:b , [] . _:g { [] <http://p> ( 1 2 ) }";
    let parser = TriGParser::new();
    let first = blank_ids(&read_with(&mut parser.parse(), document));
    let second = blank_ids(&read_with(&mut parser.parse(), document));
    assert_eq!(first.len(), 16);
    assert_eq!(second.len(), 16);
    assert!(first.iter().all(|id| !second.contains(id)));
    // Within a parse a label names one node.
    assert_eq!(first[0], first[2]);
    assert_ne!(first[0], first[1]);
    let one = blank_ids(&read_with(&mut parser.parse_in_scope("one"), document));
    let other = blank_ids(&read_with(&mut parser.parse_in_scope("other"), document));
    assert_eq!(one[0], "b0_one");
    assert_eq!(other[0], "b0_other");
    assert!(one.iter().all(|id| !other.contains(id)));
}

fn pull_all(reader: &mut FromReadTriGReader, mut source: &[u8], chunk: usize) -> Vec<Result<Quad, ParseError>> {
    let mut items = Vec::new();
    loop {
        match reader.next_step() {
            Pull::Item(item) => items.push(item),
            Pull::Read => {
                let n = chunk.min(source.len());
                reader.feed(&source[..n]);
                source = &source[n..];
            }
            Pull::Done => return items,
        }
    }
}

#[test]
fn pulling_reads_what_pushing_reads() {
    assert_eq!(FromReadTriGReader::CHUNK_SIZE, 4096);
    let parser = TriGParser::new();
    let document = "<http://ex/a> <http://ex/b> <http://ex/c> , 1 . <x> <http://ex/b> 2 . <http://ex/a> <http://ex/b> 3";
    let pushed = read_in_chunks(&[document.as_bytes()]);
    assert_eq!(pushed.len(), 4);
    for chunk in [1, 3, 4096] {
        let mut reader = parser.parse_from_read();
        assert_eq!(pull_all(&mut reader, document.as_bytes(), chunk), pushed);
        assert_eq!(reader.bytes_taken(), document.len() as u64);
        assert!(matches!(reader.next_step(), Pull::Done));
    }
}

#[test]
fn pulling_stops_when_the_source_fails() {
    let mut reader = TriGParser::new().parse_from_read();
    assert!(matches!(reader.next_step(), Pull::Read));
    reader.feed(b"<http://ex/a> <http://ex/b> <http://ex/c> . <http://ex/a> <http://ex/b> 1 . ");
    assert!(matches!(reader.next_step(), Pull::Item(Ok(_))));
    reader.fail();
    assert!(matches!(reader.next_step(), Pull::Done));
    assert!(matches!(reader.next_step(), Pull::Done));
}

#[test]
fn what_is_written_is_read_back() {
    let document = "@prefix : <http://ex/> . :g { :a :b :c , \"x\\ny\\\"z\" , 'l'@en , 12 , -1.5 , 2e0 , true , \"k\"^^:t ; :d \"5\"^^<http://www.w3.org/2001/XMLSchema#decimal> . :e :f :g } :a :b :c . :h { :a :b :c }";
    let first: Vec<Quad> = read_in_chunks(&[document.as_bytes()]).into_iter().map(|item| item.unwrap()).collect();
    assert_eq!(first.len(), 12);
    let mut writer = TriGSerializer::new().serialize_to_write(Vec::new());
    for quad in &first {
        writer.write_quad(quad);
    }
    let written = writer.finish();
    let second: Vec<Quad> = read_in_chunks(&[&written]).into_iter().map(|item| item.unwrap()).collect();
    assert_eq!(second, first);
    assert_eq!(
        first[11],
        Quad::new(
            Subject::NamedNode(NamedNode::new_unchecked("http://ex/a")),
            NamedNode::new_unchecked("http://ex/b"),
            Term::NamedNode(NamedNode::new_unchecked("http://ex/c")),
            GraphName::NamedNode(NamedNode::new_unchecked("http://ex/h")),
        )
    );
}

#[test]
fn messages_name_the_kind_of_error() {
    let error = |kind| ParseError { line: 0, column: 0, byte_offset: 0, kind };
    let messages: Vec<String> = [
        ParseErrorKind::Lexical,
        ParseErrorKind::Grammar,
        ParseErrorKind::Semantic,
        ParseErrorKind::UnexpectedEof,
    ]
    .into_iter()
    .map(|kind| error(kind).message())
    .collect();
    assert_eq!(
        messages,
        vec![
            "malformed token",
            "unexpected token",
            "invalid IRI or language tag",
            "unexpected end of input"
        ]
    );
}

#[test]
fn the_end_of_an_idle_reader() {
    let mut reader = TriGParser::new().parse_in_scope("s");
    assert!(!reader.is_end());
    reader.end();
    assert!(reader.is_end());
    assert_eq!(reader.read_next(), None);
    assert!(reader.is_end());

    let mut reader = TriGParser::new().parse_in_scope("s");
    reader.extend_from_slice(b"<http://ex/a> <http://ex/b> <http://ex/c> .");
    reader.end();
    assert!(!reader.is_end());
    assert!(reader.read_next().unwrap().is_ok());
    assert!(reader.is_end());
    assert_eq!(reader.read_next(), None);
    assert!(reader.is_end());
}

#[test]
fn the_end_with_a_statement_left_open() {
    let mut reader = TriGParser::new().parse_in_scope("s");
    reader.extend_from_slice(b"<http://ex/a> <http://ex/b>");
    assert_eq!(reader.read_next(), None);
    reader.end();
    // The input was taken up, but the error of the unexpected end is still to come.
    assert!(!reader.is_end());
    assert_eq!(
        reader.read_next(),
        Some(Err(ParseError {
            line: 0,
            column: 27,
            byte_offset: 27,
            kind: ParseErrorKind::UnexpectedEof
        }))
    );
    assert!(reader.is_end());
    assert_eq!(reader.read_next(), None);
}

#[test]
fn a_drawn_scope_is_hexadecimal() {
    let mut reader = TriGParser::new().parse();
    let ids = blank_ids(&read_with(&mut reader, b"[] <http://p> [] ."));
    assert_eq!(ids.len(), 2);
    let scope = ids[0].strip_prefix("b0_").unwrap();
    assert!(!scope.is_empty());
    assert!(scope.chars().all(|c| c.is_ascii_digit() || ('a'..='f').contains(&c)));
    assert_eq!(ids[1], format!("b1_{scope}"));
}

#[test]
fn escaped_named_nodes_are_read_back() {
    let quad = Quad::new(
        Subject::NamedNode(NamedNode::new_unchecked("http://ex/a<b>")),
        NamedNode::new_unchecked("http://ex/p"),
        Term::NamedNode(NamedNode::new_unchecked("http://ex/{o}")),
        GraphName::DefaultGraph,
    );
    let mut writer = TriGSerializer::new().serialize_to_write(Vec::new());
    writer.write_quad(&quad);
    let written = writer.finish();
    assert_eq!(
        String::from_utf8(written.clone()).unwrap(),
        "<http://ex/a\\u003Cb\\u003E> <http://ex/p> <http://ex/\\u007Bo\\u007D> .\n"
    );
    // The lexer reads the escapes back; the IRI validator then refuses the IRIs.
    let items = read_in_chunks(&[&written]);
    assert_eq!(items.len(), 1);
    assert_eq!(items[0].clone().unwrap_err().kind, ParseErrorKind::Semantic);
}

#[test]
fn written_blank_nodes_are_read_back_renamed_one_to_one() {
    let node = |id: &str| oxttl::model::BlankNode::new_unchecked(id);
    let p = NamedNode::new_unchecked("http://ex/p");
    let q = NamedNode::new_unchecked("http://ex/q");
    let quads = vec![
        Quad::new(
            Subject::BlankNode(node("a")),
            p.clone(),
            Term::BlankNode(node("b")),
            GraphName::BlankNode(node("g")),
        ),
        Quad::new(
            Subject::BlankNode(node("a")),
            p.clone(),
            Term::Literal(oxttl::model::Literal::new_simple_literal("lit")),
            GraphName::BlankNode(node("g")),
        ),
        Quad::new(
            Subject::BlankNode(node("b")),
            q.clone(),
            Term::BlankNode(node("a")),
            GraphName::DefaultGraph,
        ),
        Quad::new(
            Subject::BlankNode(node("c")),
            q.clone(),
            Term::NamedNode(NamedNode::new_unchecked("http://ex/o")),
            GraphName::DefaultGraph,
        ),
    ];
    let mut writer = TriGSerializer::new().serialize_to_write(Vec::new());
    for quad in &quads {
        writer.write_quad(quad);
    }
    let written = writer.finish();
    assert_eq!(
        String::from_utf8(written.clone()).unwrap(),
        "_:g {\n\t_:a <http://ex/p> _:b , \"lit\" .\n}\n_:b <http://ex/q> _:a .\n_:c <http://ex/q> <http://ex/o> .\n"
    );
    let items = read_in_chunks(&[&written]);
    let read: Vec<Quad> = items.into_iter().map(|item| item.unwrap()).collect();
    // Each identifier is bound when it is heard of first: the graph, then
    // the subject, then the object.
    let expected = vec![
        Quad::new(
            Subject::BlankNode(node("b1_s")),
            p.clone(),
            Term::BlankNode(node("b2_s")),
            GraphName::BlankNode(node("b0_s")),
        ),
        Quad::new(
            Subject::BlankNode(node("b1_s")),
            p,
            Term::Literal(oxttl::model::Literal::new_simple_literal("lit")),
            GraphName::BlankNode(node("b0_s")),
        ),
        Quad::new(
            Subject::BlankNode(node("b2_s")),
            q.clone(),
            Term::BlankNode(node("b1_s")),
            GraphName::DefaultGraph,
        ),
        Quad::new(
            Subject::BlankNode(node("b3_s")),
            q,
            Term::NamedNode(NamedNode::new_unchecked("http://ex/o")),
            GraphName::DefaultGraph,
        ),
    ];
    assert_eq!(read, expected);
}

#[test]
fn blank_nodes_of_one_reader_are_read_back_by_another() {
    let first = read_in_chunks(&[b"_:x <http://ex/p> _:y , _:x .\n<http://ex/g> { [] <http://ex/p> _:x }\n"]);
    let quads: Vec<Quad> = first.into_iter().map(|item| item.unwrap()).collect();
    assert_eq!(quads.len(), 3);
    let mut writer = TriGSerializer::new().serialize_to_write(Vec::new());
    for quad in &quads {
        writer.write_quad(quad);
    }
    let written = writer.finish();
    assert_eq!(
        String::from_utf8(written.clone()).unwrap(),
        "_:b0_s <http://ex/p> _:b1_s , _:b0_s .\n<http://ex/g> {\n\t_:b2_s <http://ex/p> _:b0_s .\n}\n"
    );
    let mut reader = TriGParser::new().parse_in_scope("t");
    reader.extend_from_slice(&written);
    reader.end();
    let mut again = Vec::new();
    while let Some(item) = reader.read_next() {
        again.push(item.unwrap());
    }
    assert!(reader.is_end());
    let node = |id: &str| oxttl::model::BlankNode::new_unchecked(id);
    let p = NamedNode::new_unchecked("http://ex/p");
    assert_eq!(
        again,
        vec![
            Quad::new(
                Subject::BlankNode(node("b0_t")),
                p.clone(),
                Term::BlankNode(node("b1_t")),
                GraphName::DefaultGraph,
            ),
            Quad::new(
                Subject::BlankNode(node("b0_t")),
                p.clone(),
                Term::BlankNode(node("b0_t")),
                GraphName::DefaultGraph,
            ),
            Quad::new(
                Subject::BlankNode(node("b2_t")),
                p,
                Term::BlankNode(node("b0_t")),
                GraphName::NamedNode(NamedNode::new_unchecked("http://ex/g")),
            ),
        ]
    );
}
