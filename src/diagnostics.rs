//! Diagnostics of a document: its parse error, or its structural errors.
use vstd::prelude::*;
use crate::parser::{Document, ParseError, syntax_error};
use crate::position::{Position, Range};
use crate::grammar::node_view;
use crate::schema::{BuildkiteSchema, ValidationError, errors_view, starts_with, validation_errors, PARSE_FAILURE};
use crate::text::push_all;
use crate::yaml::{yaml_accepts, yaml_check};

verus! {

/// A message about a range of a document, for the editor to show.
pub struct Diagnostic {
    pub range: Range,
    pub message: String,
    /// Who reports it: `buildkite-ls`.
    pub source: String,
}

pub open spec fn diagnostics_view(v: Seq<Diagnostic>) -> Seq<(Seq<char>, Range)> {
    v.map_values(|d: Diagnostic| (d.message@, d.range))
}

/// The diagnostics of a document. A text that is not YAML gives one, at the
/// position of the error; otherwise they are the structural errors of the
/// document's tree, each at the node at fault.
pub fn validate_document(document: &Document, schema: &BuildkiteSchema) -> (r: Vec<Diagnostic>)
    ensures
        !yaml_accepts(document.text@) ==> r.len() == 1 && starts_with(r@[0].message@, PARSE_FAILURE@),
        yaml_accepts(document.text@) ==> (match document.root {
            Some(t) => diagnostics_view(r@) == validation_errors(node_view(t)),
            None => r.len() == 0,
        }),
{
    let mut out: Vec<Diagnostic> = Vec::new();
    match yaml_check(document.text.as_str()) {
        Err(e) => {
            let (detail, line, character) = match syntax_error(e) {
                ParseError::Syntax { message, line, character } => (message, line, character),
                ParseError::TooLarge => (String::new(), 0, 0),
            };
            let mut message = PARSE_FAILURE.to_owned();
            push_all(&mut message, &detail);
            assert(message@.subrange(0, PARSE_FAILURE@.len() as int) =~= PARSE_FAILURE@);
            let at = Position { line, character };
            out.push(Diagnostic { range: Range { start: at, end: at }, message, source: "buildkite-ls".to_owned() });
        },
        Ok(()) => {
            if let Some(t) = &document.root {
                let errors = schema.validate_tree(t);
                let mut i: usize = 0;
                while i < errors.len()
                    invariant
                        i <= errors.len(),
                        diagnostics_view(out@) == errors_view(errors@).take(i as int),
                    decreases errors.len() - i,
                {
                    let ghost old_out = out@;
                    let e: &ValidationError = &errors[i];
                    let d = Diagnostic { range: e.range, message: e.message.clone(), source: "buildkite-ls".to_owned() };
                    out.push(d);
                    assert(diagnostics_view(out@) =~= diagnostics_view(old_out).push((d.message@, d.range)));
                    assert(errors_view(errors@).take(i + 1) =~= errors_view(errors@).take(i as int).push((errors@[i as int].message@, errors@[i as int].range)));
                    assert(diagnostics_view(out@) =~= errors_view(errors@).take(i + 1));
                    i = i + 1;
                }
                assert(errors_view(errors@).take(i as int) =~= errors_view(errors@));
            }
        },
    }
    out
}

} // verus!
