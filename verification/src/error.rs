//! Why a script was refused.
use vstd::prelude::*;

use crate::chain::Script;

verus! {

/// A refusal: the cycles spent went over the limit, or a script failed with
/// an exit code. A failure names the failing script by its code hash and
/// hash type.
#[derive(Clone, Copy, Debug, PartialEq, Eq)]
pub enum ScriptError {
    /// The cycles counted so far exceed the limit.
    ExceededMaximumCycles(u64),
    /// The script refused the transaction with this exit code.
    ValidationFailure { code_hash: [u8; 32], hash_type: u8, exit_code: i8 },
}

/// The refusal of `script` with exit code `exit_code`.
pub open spec fn failure(script: Script, exit_code: i8) -> ScriptError {
    ScriptError::ValidationFailure {
        code_hash: script.code_hash,
        hash_type: script.hash_type,
        exit_code,
    }
}

impl ScriptError {
    /// The refusal of `script` with exit code `exit_code`.
    pub fn validation_failure(script: &Script, exit_code: i8) -> (r: ScriptError)
        ensures
            r == failure(*script, exit_code),
    {
        ScriptError::ValidationFailure {
            code_hash: script.code_hash,
            hash_type: script.hash_type,
            exit_code,
        }
    }
}

} // verus!
