//! Verified core of the omem memory server: cleaning of model output,
//! import planning, session-recall decisions and their supporting models.

pub mod text;
pub mod llm;
pub mod error;
pub mod json;
pub mod imports;
pub mod ids;
pub mod recalls;

use vstd::prelude::*;

verus! {

} // verus!
