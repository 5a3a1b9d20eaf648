//! The YAML syntax check of a document, by serde_yaml.
use vstd::prelude::*;

verus! {

#[verifier::external_type_specification]
#[verifier::external_body]
pub struct ExYamlError(serde_yaml::Error);

#[verifier::external_type_specification]
#[verifier::external_body]
pub struct ExYamlLocation(serde_yaml::Location);

/// Whether serde_yaml reads the text as a YAML document.
pub uninterp spec fn yaml_accepts(text: Seq<char>) -> bool;

/// Relies on serde_yaml::from_str into serde_yaml::Value: it succeeds exactly
/// on well-formed YAML, which depends on the text alone.
#[verifier::external_body]
pub(crate) fn yaml_check(text: &str) -> (r: Result<(), serde_yaml::Error>)
    ensures
        r is Ok <==> yaml_accepts(text@),
{
    serde_yaml::from_str::<serde_yaml::Value>(text).map(|_| ())
}

/// Relies on serde_yaml::Error::location: where the error was found, when known.
pub assume_specification[ serde_yaml::Error::location ](e: &serde_yaml::Error) -> Option<serde_yaml::Location>;

/// Relies on serde_yaml::Location::line: the line of the error, counted from one.
pub assume_specification[ serde_yaml::Location::line ](l: &serde_yaml::Location) -> usize;

/// Relies on serde_yaml::Location::column: the column of the error, counted from one.
pub assume_specification[ serde_yaml::Location::column ](l: &serde_yaml::Location) -> usize;

} // verus!
