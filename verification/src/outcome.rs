//! The compiler's outcome, the two result-assembly policies, and the
//! checks that run before the compiler does.

use vstd::prelude::*;
use std::collections::HashMap;
use crate::diag::{
    DiagView, DiagnosticsIndex, lemma_normalized_terminating, none_terminating, normalized_view,
    single_error_relation,
};
use crate::errs::BridgeError;
use crate::filemap::FileMap;
use crate::inputs::{json_object_parse, parse_public_inputs};

verus! {

/// What the bridge settles before the compiler runs on a prebuilt file
/// map: the public-inputs JSON must parse, and the entry path must
/// resolve. A malformed input aborts with an input-class error; a
/// missing but well-formed-input entry aborts with a resolution-class
/// error; in neither case does the compiler run or a circuit appear. On
/// success the compiler receives the parsed inputs exactly as written.
pub fn prepare_compile(files: &FileMap, entry: &String, public_inputs_json: &str) -> (r: Result<
    HashMap<String, serde_json::Value>,
    BridgeError,
>)
    requires
        files.wf(),
    ensures
        r is Ok <==> json_object_parse(public_inputs_json@) is Ok && files.contains_path(
            entry@,
        ),
        r matches Ok(v) ==> json_object_parse(public_inputs_json@) matches Ok(m) && v@ == m,
        r matches Err(e) ==> match e {
            BridgeError::Input(_) => json_object_parse(public_inputs_json@) is Err,
            BridgeError::Resolution(_) => json_object_parse(public_inputs_json@) is Ok
                && !files.contains_path(entry@),
            _ => false,
        },
        json_object_parse(public_inputs_json@) is Err ==> (r matches Err(e) && e is Input),
        json_object_parse(public_inputs_json@) is Ok && !files.contains_path(entry@) ==> (
        r matches Err(e) && e is Resolution),
{
    let inputs = match parse_public_inputs(public_inputs_json) {
        Ok(v) => v,
        Err(e) => {
            return Err(e);
        },
    };
    match files.resolve(entry) {
        Ok(_) => Ok(inputs),
        Err(e) => Err(e),
    }
}

/// What one compiler invocation came back with: a circuit on success, an
/// optional partial circuit on failure, and diagnostics either way.
pub enum CompileOutcome<C> {
    Success { circuit: C, diagnostics: DiagnosticsIndex },
    Failure { circuit: Option<C>, diagnostics: DiagnosticsIndex },
}

impl<C> CompileOutcome<C> {
    /// The circuit carried, partial or not.
    pub open spec fn circuit_spec(self) -> Option<C> {
        match self {
            CompileOutcome::Success { circuit, .. } => Some(circuit),
            CompileOutcome::Failure { circuit, .. } => circuit,
        }
    }

    /// The diagnostics carried, success or failure.
    pub open spec fn diagnostics_spec(self) -> DiagnosticsIndex {
        match self {
            CompileOutcome::Success { diagnostics, .. } => diagnostics,
            CompileOutcome::Failure { diagnostics, .. } => diagnostics,
        }
    }
}

/// The structured host-facing shape: the circuit when one was produced,
/// and all diagnostics, rendered by the caller.
pub struct Envelope<C> {
    pub circuit: Option<C>,
    pub diagnostics: DiagnosticsIndex,
}

/// The structured convention: surface the optional circuit and every
/// diagnostic, success or failure — the caller renders them itself. A
/// success always carries its circuit.
pub fn assemble_envelope<C>(outcome: CompileOutcome<C>) -> (r: Envelope<C>)
    ensures
        r.circuit == outcome.circuit_spec(),
        r.diagnostics == outcome.diagnostics_spec(),
        outcome is Success ==> r.circuit is Some,
{
    match outcome {
        CompileOutcome::Success { circuit, diagnostics } => Envelope {
            circuit: Some(circuit),
            diagnostics,
        },
        CompileOutcome::Failure { circuit, diagnostics } => Envelope { circuit, diagnostics },
    }
}

/// Law: a successful compile surfaces a terminating diagnostic only if
/// the compiler emitted one. The envelope carries its outcome's index
/// unchanged, and normalization neither adds nor loses terminating
/// entries: when the compiler's raw per-path lists hold no `Error`- or
/// `InternalError`-level entry, the host-facing diagnostics hold none.
pub proof fn lemma_success_surfaces_no_terminating<C>(
    outcome: CompileOutcome<C>,
    env: Envelope<C>,
    raw: Seq<(Seq<char>, Seq<DiagView>)>,
)
    requires
        env.diagnostics == outcome.diagnostics_spec(),
        outcome.diagnostics_spec()@ == normalized_view(raw),
        none_terminating(raw),
    ensures
        none_terminating(env.diagnostics@),
{
    lemma_normalized_terminating(raw);
}

/// The single-error convention: a success yields the bare circuit; a
/// failure collapses its diagnostics to one formatted message — the
/// first terminating diagnostic, or the fallback when none terminates —
/// and the whole call fails with it.
pub fn collapse_single_error<C>(outcome: CompileOutcome<C>) -> (r: Result<C, BridgeError>)
    ensures
        match r {
            Ok(c) => outcome matches CompileOutcome::Success { circuit, .. } && c == circuit,
            Err(e) => {
                &&& outcome is Failure
                &&& e is Compile
                &&& single_error_relation(outcome.diagnostics_spec()@, e.message_spec())
            },
        },
{
    match outcome {
        CompileOutcome::Success { circuit, diagnostics: _ } => Ok(circuit),
        CompileOutcome::Failure { circuit: _, diagnostics } => Err(
            BridgeError::Compile(diagnostics.single_error_message()),
        ),
    }
}

} // verus!
