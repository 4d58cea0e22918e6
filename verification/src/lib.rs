//! Verified core of the Smart Agent desktop client: the rules that decide what
//! is written into the Codex configuration, how server replies are read, and how
//! the local account state changes.

pub mod api;
pub mod assoc;
pub mod codex;
pub mod codex_config;
pub mod connectivity;
pub mod error;
pub mod json;
pub mod models;
pub mod site;
pub mod store;
pub mod text;
pub mod toml_doc;

use vstd::prelude::*;
use crate::codex::ApplyResult;
use crate::error::{error_text, AppError};

verus! {

/// What the headless `--apply-codex-config-headless` run reports: nothing on
/// success, the error's readable text on failure.
pub fn apply_codex_config_headless(outcome: Result<ApplyResult, AppError>) -> (res: Result<(), String>)
    ensures
        match outcome {
            Ok(_) => res is Ok,
            Err(e) => res matches Err(s) && s@ == error_text(e@),
        },
{
    match outcome {
        Ok(_) => Ok(()),
        Err(e) => Err(e.text()),
    }
}

} // verus!
