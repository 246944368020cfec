//! IRIs are validated and resolved by `oxiri`. What it answers depends on the
//! text alone, so each answer has a name that the contracts of the parser
//! speak of.

use vstd::prelude::*;

verus! {

/// Whether `oxiri::Iri::parse` accepts a text as an absolute IRI.
pub uninterp spec fn is_absolute_iri(iri: Seq<char>) -> bool;

/// The absolute IRI that `oxiri::Iri::resolve` resolves a reference to
/// against a base that is an absolute IRI, if it accepts the reference.
pub uninterp spec fn resolved_iri(base: Seq<char>, reference: Seq<char>) -> Option<Seq<char>>;

/// The error of `oxiri` for a text that is no IRI.
#[verifier::external_type_specification]
#[verifier::external_body]
pub struct ExIriParseError(oxiri::IriParseError);

/// `oxiri::Iri::parse`: the text is handed back where it is an absolute IRI,
/// and an error is answered where it is not.
#[verifier::external_body]
pub(crate) fn parse_iri(iri: String) -> (parsed: Result<String, oxiri::IriParseError>)
    ensures
        parsed is Ok <==> is_absolute_iri(iri@),
        parsed is Ok ==> parsed.unwrap()@ == iri@,
{
    oxiri::Iri::parse(iri).map(oxiri::Iri::into_inner)
}

/// `oxiri::Iri::resolve`, on a base that `oxiri::Iri::parse` accepts: an
/// error is answered where the base is no absolute IRI or the reference is
/// not accepted, and the resolved IRI otherwise.
#[verifier::external_body]
pub(crate) fn resolve_iri(base: &str, reference: &str) -> (answer: Result<String, oxiri::IriParseError>)
    ensures
        answer is Ok <==> (is_absolute_iri(base@) && resolved_iri(base@, reference@) is Some),
        answer is Ok ==> Some(answer.unwrap()@) == resolved_iri(base@, reference@),
{
    oxiri::Iri::parse(base)?.resolve(reference).map(oxiri::Iri::into_inner)
}

} // verus!
