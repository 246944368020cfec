//! A streaming reader and writer for TriG, the serialization of RDF datasets
//! in the Turtle family.
//!
//! The reader ([`TriGParser`]) is handed the bytes of a document in pieces of
//! any size and hands out the quads of the document, and its errors with
//! their places, as soon as the statement that they belong to ends. The
//! writer ([`TriGSerializer`]) turns quads into TriG text and leaves out the
//! graph, the subject and the predicate wherever they repeat.
//!
//! Every executable function has a contract over a mathematical model:
//!
//! - [`lexer`] says what the tokens of a byte sequence are, [`scanner`] finds them;
//! - [`grammar`] is the state machine of the TriG grammar, [`recognizer`] runs it;
//! - [`stream`] is the reader as a function, [`reader`] and [`parser`] are the reader;
//! - [`format`] and [`serializer`] say, and write, the text of terms and of quads.
//!
//! The other modules state and prove what holds of these models whatever the
//! input:
//!
//! - [`laws`], on [`stability`]: the pieces that a document comes in make no
//!   difference to what is read, and errors come in the order of their places;
//! - [`scope`]: two parses share no blank node;
//! - [`resolved`]: the quads that are read hold resolved IRIs and language
//!   tags in lower case only, and are handed out only once their statement
//!   has ended;
//! - [`bare`]: a literal is written without quotes exactly where its datatype
//!   and lexical form allow it, and is then read back as it was;
//! - [`roundtrip`], on [`readback`] and [`escape`]: quads without quoted
//!   triples are read back from what the writer writes of them;
//! - [`renaming`]: the blank nodes of written quads are read back renamed one
//!   to one, and what a reader hands out can be written and read back.

pub mod ascii;
pub mod bare;
pub mod chars;
pub mod error;
pub mod escape;
pub mod format;
pub mod grammar;
pub mod iri;
pub mod laws;
pub mod lexer;
pub mod model;
pub mod numeric;
pub mod parser;
pub mod readback;
pub mod renaming;
pub mod reader;
pub mod recognizer;
pub mod resolved;
pub mod roundtrip;
pub mod scanner;
pub mod scope;
pub mod serializer;
pub mod stability;
pub mod stream;

pub use error::{ParseError, ParseErrorKind, TextPosition};
pub use model::{BlankNode, GraphName, Literal, NamedNode, Quad, Subject, Term, Triple};
pub use numeric::{is_turtle_boolean, is_turtle_decimal, is_turtle_double, is_turtle_integer};
pub use parser::{FromReadTriGReader, InvalidIri, Pull, TriGParser};
pub use reader::LowLevelTriGReader;
pub use serializer::{LowLevelTriGWriter, ToWriteTriGWriter, TriGSerializer};
