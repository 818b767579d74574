//! Errors of the grounding library.
use crate::text::{occurs_at, owned, seq_contains};
use vstd::prelude::*;

verus! {

/// Everything that can go wrong while loading, grounding or checking a model.
///
/// `Io` and `Json` carry the message of the underlying I/O or JSON failure,
/// which arises where files are read (outside this library).
#[derive(Debug, Clone, PartialEq, Eq)]
pub enum AtscaleError {
    Io(String),
    Json(String),
    McpNotAttached,
    ModelNotFound(String),
    InvalidModel(String),
    InvalidBfoHint { column: String, hint: String },
    ReasonerNotFound { tried: String },
    ReasonerFailed(String),
}

/// The human-readable message of an error.
pub open spec fn error_message(e: AtscaleError) -> Seq<char> {
    match e {
        AtscaleError::Io(m) => "I/O error: "@ + m@,
        AtscaleError::Json(m) => "JSON parse error: "@ + m@,
        AtscaleError::McpNotAttached =>
            "AtScale MCP connector not attached; use --model <json> for offline grounding"@,
        AtscaleError::ModelNotFound(p) => "Model file not found: "@ + p@,
        AtscaleError::InvalidModel(m) => "Invalid model structure: "@ + m@,
        AtscaleError::InvalidBfoHint { column, hint } =>
            "Invalid bfo_hint '"@ + hint@ + "' on column '"@ + column@
                + "'; valid values are: quality, role, information_gdc, temporal_region, process, disposition, independent_continuant"@,
        AtscaleError::ReasonerNotFound { tried } =>
            "ousia-reason not found (tried: "@ + tried@
                + "); install it or supply the path with --reasoner <path>"@,
        AtscaleError::ReasonerFailed(m) => "ousia-reason execution failed: "@ + m@,
    }
}

impl AtscaleError {
    /// The human-readable message of this error.
    pub fn message(&self) -> (r: String)
        ensures
            r@ == error_message(*self),
    {
        match self {
            AtscaleError::Io(m) => {
                let mut r = owned("I/O error: ");
                r.append(m.as_str());
                r
            },
            AtscaleError::Json(m) => {
                let mut r = owned("JSON parse error: ");
                r.append(m.as_str());
                r
            },
            AtscaleError::McpNotAttached => owned(
                "AtScale MCP connector not attached; use --model <json> for offline grounding",
            ),
            AtscaleError::ModelNotFound(p) => {
                let mut r = owned("Model file not found: ");
                r.append(p.as_str());
                r
            },
            AtscaleError::InvalidModel(m) => {
                let mut r = owned("Invalid model structure: ");
                r.append(m.as_str());
                r
            },
            AtscaleError::InvalidBfoHint { column, hint } => {
                let mut r = owned("Invalid bfo_hint '");
                r.append(hint.as_str());
                r.append("' on column '");
                r.append(column.as_str());
                r.append(
                    "'; valid values are: quality, role, information_gdc, temporal_region, process, disposition, independent_continuant",
                );
                r
            },
            AtscaleError::ReasonerNotFound { tried } => {
                let mut r = owned("ousia-reason not found (tried: ");
                r.append(tried.as_str());
                r.append("); install it or supply the path with --reasoner <path>");
                r
            },
            AtscaleError::ReasonerFailed(m) => {
                let mut r = owned("ousia-reason execution failed: ");
                r.append(m.as_str());
                r
            },
        }
    }
}

/// A reasoner that cannot be found is reported with the `--reasoner` flag
/// that supplies its path.
pub proof fn lemma_not_found_names_flag(tried: String)
    ensures
        seq_contains(error_message(AtscaleError::ReasonerNotFound { tried }), "--reasoner"@),
{
    reveal_strlit("ousia-reason not found (tried: ");
    reveal_strlit("); install it or supply the path with --reasoner <path>");
    reveal_strlit("--reasoner");
    let a = "ousia-reason not found (tried: "@;
    let b = "); install it or supply the path with --reasoner <path>"@;
    let msg = a + tried@ + b;
    let i: int = a.len() + tried@.len() + 38int;
    assert(msg.subrange(i, i + 10) =~= "--reasoner"@);
    assert(occurs_at(msg, "--reasoner"@, i));
}

/// A missing MCP connector is reported with the offline alternative,
/// `--model <json>`.
pub proof fn lemma_mcp_error_names_offline_flag()
    ensures
        seq_contains(error_message(AtscaleError::McpNotAttached), "--model <json>"@),
{
    reveal_strlit("AtScale MCP connector not attached; use --model <json> for offline grounding");
    reveal_strlit("--model <json>");
    let msg = error_message(AtscaleError::McpNotAttached);
    assert(msg.subrange(40, 54) =~= "--model <json>"@);
    assert(occurs_at(msg, "--model <json>"@, 40));
}

/// An invalid hint is reported with the hint itself.
pub proof fn lemma_invalid_hint_names_hint(column: String, hint: String)
    ensures
        seq_contains(error_message(AtscaleError::InvalidBfoHint { column, hint }), hint@),
{
    reveal_strlit("Invalid bfo_hint '");
    let a = "Invalid bfo_hint '"@;
    let msg = error_message(AtscaleError::InvalidBfoHint { column, hint });
    assert(msg.subrange(a.len() as int, a.len() + hint@.len() as int) =~= hint@);
    assert(occurs_at(msg, hint@, a.len() as int));
}

} // verus!
