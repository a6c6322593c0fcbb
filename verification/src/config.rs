//! Defaults of the scenario configuration.

use vstd::prelude::*;

verus! {

/// Where the metrics are written when the scenario names no output path.
pub fn default_output_path() -> (path: String)
    ensures
        path@ == "metrics.jsonl"@,
{
    "metrics.jsonl".to_owned()
}

} // verus!
