//! The Turtle form of each term.
//!
//! Named nodes, blank nodes and quoted literals are written by `oxrdf`; what
//! this module adds is the choice between the quoted and the bare form of a
//! literal, and the form of quoted triples.

use crate::model::{
    xsd_string, BlankNode, Literal, LiteralModel, NamedNode, Subject, Term, TermModel, Triple,
};
use crate::numeric::{
    is_boolean_form, is_decimal_form, is_double_form, is_integer_form, is_turtle_boolean,
    is_turtle_decimal, is_turtle_double, is_turtle_integer,
};
use crate::escape::escape_iri;
use crate::recognizer::text_is;
use vstd::prelude::*;
use vstd::string::StringExecFns;
use vstd::utf8::encode_utf8;

verus! {

/// The datatype of booleans.
pub open spec fn xsd_boolean() -> Seq<char> {
    "http://www.w3.org/2001/XMLSchema#boolean"@
}

/// The datatype of integers.
pub open spec fn xsd_integer() -> Seq<char> {
    "http://www.w3.org/2001/XMLSchema#integer"@
}

/// The datatype of decimals.
pub open spec fn xsd_decimal() -> Seq<char> {
    "http://www.w3.org/2001/XMLSchema#decimal"@
}

/// The datatype of doubles.
pub open spec fn xsd_double() -> Seq<char> {
    "http://www.w3.org/2001/XMLSchema#double"@
}

/// The upper-case hexadecimal digit of a value below 16.
pub open spec fn upper_hex_digit(value: u32) -> char {
    if value < 10 {
        (0x30 + value) as char
    } else {
        (0x41 + value - 10) as char
    }
}

/// What stands for one character between the quotes of a literal: a short
/// escape, `\u00XX` for the other control characters, or the character itself.
pub open spec fn escaped_char(c: char) -> Seq<char> {
    if c == '\u{08}' {
        seq!['\\', 'b']
    } else if c == '\t' {
        seq!['\\', 't']
    } else if c == '\n' {
        seq!['\\', 'n']
    } else if c == '\u{0C}' {
        seq!['\\', 'f']
    } else if c == '\r' {
        seq!['\\', 'r']
    } else if c == '"' {
        seq!['\\', '"']
    } else if c == '\\' {
        seq!['\\', '\\']
    } else if c as u32 <= 0x1F || c == '\u{7F}' {
        seq!['\\', 'u', '0', '0', upper_hex_digit(c as u32 / 16), upper_hex_digit(c as u32 % 16)]
    } else {
        seq![c]
    }
}

/// A lexical form with each character escaped as needed.
pub open spec fn escaped_text(value: Seq<char>) -> Seq<char>
    decreases value.len(),
{
    if value.len() == 0 {
        Seq::empty()
    } else {
        escaped_char(value[0]) + escaped_text(value.drop_first())
    }
}

/// A lexical form between double quotes, each character escaped as needed.
pub open spec fn quoted(value: Seq<char>) -> Seq<char> {
    seq!['"'] + escaped_text(value) + seq!['"']
}

/// Tells whether a character of an IRI is written as an escape: the
/// characters that cannot stand in an IRI reference, which are the control
/// characters up to the space, `<`, `>`, `"`, `{`, `}`, `|`, `^`, `` ` ``
/// and `\`, and the control character U+007F.
pub open spec fn is_escaped_in_iri(c: char) -> bool {
    ||| c as u32 <= 0x20
    ||| c == '\u{7F}'
    ||| c == '<'
    ||| c == '>'
    ||| c == '"'
    ||| c == '{'
    ||| c == '}'
    ||| c == '|'
    ||| c == '^'
    ||| c == '`'
    ||| c == '\\'
}

/// What stands for one character of an IRI between the angle brackets:
/// `\u00XX` for a character that is written as an escape, the character
/// itself otherwise.
pub open spec fn iri_char_text(c: char) -> Seq<char> {
    if is_escaped_in_iri(c) {
        seq!['\\', 'u', '0', '0', upper_hex_digit(c as u32 / 16), upper_hex_digit(c as u32 % 16)]
    } else {
        seq![c]
    }
}

/// An IRI with each character escaped as needed.
pub open spec fn escaped_iri(iri: Seq<char>) -> Seq<char>
    decreases iri.len(),
{
    if iri.len() == 0 {
        Seq::empty()
    } else {
        iri_char_text(iri[0]) + escaped_iri(iri.drop_first())
    }
}

/// A text between angle brackets.
pub open spec fn bracketed(text: Seq<char>) -> Seq<char> {
    seq!['<'] + text + seq!['>']
}

/// The form of a named node: its IRI between angle brackets, each character
/// escaped as needed.
pub open spec fn named_node_text(iri: Seq<char>) -> Seq<char> {
    bracketed(escaped_iri(iri))
}

/// The form of a blank node: its identifier after `_:`.
pub open spec fn blank_node_text(id: Seq<char>) -> Seq<char> {
    seq!['_', ':'] + id
}

/// The quoted form of a literal, with its language tag or datatype. The
/// datatype `xsd:string` is left out.
pub open spec fn quoted_literal_text(literal: LiteralModel) -> Seq<char> {
    match literal {
        LiteralModel::Simple { value } => quoted(value),
        LiteralModel::LanguageTagged { value, language } => quoted(value) + seq!['@'] + language,
        LiteralModel::Typed { value, datatype } => if datatype == xsd_string() {
            quoted(value)
        } else {
            quoted(value) + seq!['^', '^'] + named_node_text(datatype)
        },
    }
}

/// Tells whether a literal can be written bare: its datatype is one of the four
/// that Turtle has a bare form for, and its lexical form matches the production
/// of that datatype.
pub open spec fn can_be_inlined(literal: LiteralModel) -> bool {
    match literal {
        LiteralModel::Typed { value, datatype } => {
            ||| datatype == xsd_boolean() && is_boolean_form(encode_utf8(value))
            ||| datatype == xsd_integer() && is_integer_form(encode_utf8(value))
            ||| datatype == xsd_decimal() && is_decimal_form(encode_utf8(value))
            ||| datatype == xsd_double() && is_double_form(encode_utf8(value))
        },
        _ => false,
    }
}

/// The Turtle form of a literal: bare where it can be, quoted otherwise.
pub open spec fn literal_text(literal: LiteralModel) -> Seq<char> {
    if can_be_inlined(literal) {
        literal.value()
    } else {
        quoted_literal_text(literal)
    }
}

/// The Turtle form of a term.
pub open spec fn term_text(term: TermModel) -> Seq<char>
    decreases term,
{
    match term {
        TermModel::Named(iri) => named_node_text(iri),
        TermModel::Blank(id) => blank_node_text(id),
        TermModel::Literal(literal) => literal_text(literal),
        TermModel::Triple(triple) => seq!['<', '<', ' '] + term_text(triple.subject) + seq![' ']
            + named_node_text(triple.predicate) + seq![' '] + term_text(triple.object) + seq![
            ' ',
            '>',
            '>',
        ],
    }
}

/// `Display` of `oxrdf::NamedNodeRef`: the text that it is handed between
/// angle brackets, with no character of it changed.
#[verifier::external_body]
fn display_named_node(iri: &str) -> (text: String)
    ensures
        text@ == bracketed(iri@),
{
    oxrdf::NamedNodeRef::new_unchecked(iri).to_string()
}

/// `Display` of `oxrdf::BlankNodeRef`: the identifier after `_:`.
#[verifier::external_body]
fn display_blank_node(id: &str) -> (text: String)
    ensures
        text@ == blank_node_text(id@),
{
    oxrdf::BlankNodeRef::new_unchecked(id).to_string()
}

/// `Display` of an `oxrdf::LiteralRef` made by `new_simple_literal`: the
/// lexical form between double quotes, escaped character by character.
#[verifier::external_body]
fn display_simple_literal(value: &str) -> (text: String)
    ensures
        text@ == quoted(value@),
{
    oxrdf::LiteralRef::new_simple_literal(value).to_string()
}

/// `Display` of an `oxrdf::LiteralRef` made by
/// `new_language_tagged_literal_unchecked`: the quoted lexical form, `@` and
/// the tag.
#[verifier::external_body]
fn display_language_tagged_literal(value: &str, language: &str) -> (text: String)
    ensures
        text@ == quoted(value@) + seq!['@'] + language@,
{
    oxrdf::LiteralRef::new_language_tagged_literal_unchecked(value, language).to_string()
}

/// The four datatypes with a bare form are four different IRIs.
pub proof fn lemma_inline_datatypes_differ()
    ensures
        xsd_boolean() != xsd_integer(),
        xsd_boolean() != xsd_decimal(),
        xsd_boolean() != xsd_double(),
        xsd_integer() != xsd_decimal(),
        xsd_integer() != xsd_double(),
        xsd_decimal() != xsd_double(),
{
    reveal_strlit("http://www.w3.org/2001/XMLSchema#boolean");
    reveal_strlit("http://www.w3.org/2001/XMLSchema#integer");
    reveal_strlit("http://www.w3.org/2001/XMLSchema#decimal");
    reveal_strlit("http://www.w3.org/2001/XMLSchema#double");
    assert(xsd_boolean()[33] == 'b');
    assert(xsd_integer()[33] == 'i');
    assert(xsd_decimal()[33] == 'd');
    assert(xsd_decimal()[34] == 'e');
    assert(xsd_double()[33] == 'd');
    assert(xsd_double()[34] == 'o');
}

/// None of the four datatypes with a bare form is `xsd:string`.
pub proof fn lemma_inline_datatypes_are_not_string()
    ensures
        xsd_boolean() != xsd_string(),
        xsd_integer() != xsd_string(),
        xsd_decimal() != xsd_string(),
        xsd_double() != xsd_string(),
{
    reveal_strlit("http://www.w3.org/2001/XMLSchema#boolean");
    reveal_strlit("http://www.w3.org/2001/XMLSchema#integer");
    reveal_strlit("http://www.w3.org/2001/XMLSchema#decimal");
    reveal_strlit("http://www.w3.org/2001/XMLSchema#double");
    reveal_strlit("http://www.w3.org/2001/XMLSchema#string");
    assert(xsd_boolean()[33] == 'b');
    assert(xsd_integer()[33] == 'i');
    assert(xsd_decimal()[33] == 'd');
    assert(xsd_double()[33] == 'd');
    assert(xsd_string()[33] == 's');
}

/// Tells whether a literal of this lexical form and datatype is written bare.
pub fn is_inline_literal(value: &str, datatype: &NamedNode) -> (inline: bool)
    ensures
        inline == can_be_inlined(LiteralModel::Typed { value: value@, datatype: datatype@ }),
{
    proof {
        lemma_inline_datatypes_differ();
    }
    let iri = &datatype.iri;
    if *iri == "http://www.w3.org/2001/XMLSchema#boolean".to_owned() {
        is_turtle_boolean(value)
    } else if *iri == "http://www.w3.org/2001/XMLSchema#integer".to_owned() {
        is_turtle_integer(value)
    } else if *iri == "http://www.w3.org/2001/XMLSchema#decimal".to_owned() {
        is_turtle_decimal(value)
    } else if *iri == "http://www.w3.org/2001/XMLSchema#double".to_owned() {
        is_turtle_double(value)
    } else {
        false
    }
}

/// Appends the Turtle form of a named node: the IRI between angle brackets,
/// with the characters that cannot stand there written as escapes.
pub fn write_named_node(node: &NamedNode, out: &mut String)
    ensures
        final(out)@ == old(out)@ + named_node_text(node@),
{
    let escaped = escape_iri(node.as_str());
    let text = display_named_node(escaped.as_str());
    out.append(text.as_str());
}

/// Appends the Turtle form of a blank node.
pub fn write_blank_node(node: &BlankNode, out: &mut String)
    ensures
        final(out)@ == old(out)@ + blank_node_text(node@),
{
    let text = display_blank_node(node.as_str());
    out.append(text.as_str());
}

/// Appends the Turtle form of a literal: bare where its datatype and lexical
/// form allow it, quoted otherwise.
pub fn write_literal(literal: &Literal, out: &mut String)
    ensures
        final(out)@ == old(out)@ + literal_text(literal@),
{
    let value = literal.value();
    match literal.explicit_datatype() {
        Some(datatype) => {
            if is_inline_literal(value, datatype) {
                out.append(value);
            } else {
                let text = display_simple_literal(value);
                out.append(text.as_str());
                if !text_is(&datatype.iri, "http://www.w3.org/2001/XMLSchema#string") {
                    out.append("^^");
                    write_named_node(datatype, out);
                    proof {
                        reveal_strlit("^^");
                        assert("^^"@ =~= seq!['^', '^']);
                        assert(out@ =~= old(out)@ + literal_text(literal@));
                    }
                }
            }
        },
        None => match literal.language() {
            Some(language) => {
                let text = display_language_tagged_literal(value, language);
                out.append(text.as_str());
            },
            None => {
                let text = display_simple_literal(value);
                out.append(text.as_str());
            },
        },
    }
}

/// Appends the Turtle form of a quoted triple.
pub fn write_triple(triple: &Triple, out: &mut String)
    ensures
        final(out)@ == old(out)@ + term_text(TermModel::Triple(Box::new(triple@))),
    decreases triple,
{
    out.append("<< ");
    write_subject(&triple.subject, out);
    out.append(" ");
    write_named_node(&triple.predicate, out);
    out.append(" ");
    write_term(&triple.object, out);
    out.append(" >>");
    proof {
        reveal_strlit("<< ");
        reveal_strlit(" ");
        reveal_strlit(" >>");
        assert("<< "@ =~= seq!['<', '<', ' ']);
        assert(" "@ =~= seq![' ']);
        assert(" >>"@ =~= seq![' ', '>', '>']);
        assert(out@ =~= old(out)@ + term_text(TermModel::Triple(Box::new(triple@))));
    }
}

/// Appends the Turtle form of a subject.
pub fn write_subject(subject: &Subject, out: &mut String)
    ensures
        final(out)@ == old(out)@ + term_text(subject@),
    decreases subject,
{
    match subject {
        Subject::NamedNode(node) => write_named_node(node, out),
        Subject::BlankNode(node) => write_blank_node(node, out),
        Subject::Triple(triple) => write_triple(triple, out),
    }
}

/// Appends the Turtle form of a term.
pub fn write_term(term: &Term, out: &mut String)
    ensures
        final(out)@ == old(out)@ + term_text(term@),
    decreases term,
{
    match term {
        Term::NamedNode(node) => write_named_node(node, out),
        Term::BlankNode(node) => write_blank_node(node, out),
        Term::Literal(literal) => write_literal(literal, out),
        Term::Triple(triple) => write_triple(triple, out),
    }
}

} // verus!
