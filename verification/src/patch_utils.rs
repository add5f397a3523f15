//! Utility functions for patches.

use vstd::prelude::*;
use vstd::string::*;

pub use crate::paths::{normalize_path, paths_equivalent};

use crate::batch;
use crate::batch::build_summary;
use crate::error::cat3;
use crate::numbers;
use crate::numbers::decimal_of;
use crate::outcome;
use crate::outcome::PatchOutcome;

verus! {

/// What became of a patch, in one line.
pub open spec fn outcome_summary(results: Seq<outcome::OpResultView>) -> Seq<char> {
    let n = results.len() as int;
    "PatchOutcome: "@ + numbers::decimal(results.len()) + " total, "@ + numbers::decimal(
        batch::count(results, |r: outcome::OpResultView| r.status is Success, n) as nat,
    ) + " successful, "@ + numbers::decimal(
        batch::count(results, |r: outcome::OpResultView| outcome::failed(r.status), n) as nat,
    ) + " failed"@
}

/// What became of a patch, in one line.
pub fn format_outcome_summary(outcome: &PatchOutcome) -> (r: String)
    ensures
        r@ == outcome_summary(outcome::result_views(outcome.operations@)),
{
    let s = build_summary(&outcome.operations);
    let ghost results = outcome::result_views(outcome.operations@);
    proof {
        let n = results.len() as int;
        batch::lemma_count(results, |r: outcome::OpResultView| r.status is Success, n);
        batch::lemma_count(results, |r: outcome::OpResultView| outcome::failed(r.status), n);
    }
    let total: usize = outcome.operations.len();
    let mut out = cat3("PatchOutcome: ", decimal_of(total).as_str(), " total, ");
    out.append(decimal_of(s.ok_operations).as_str());
    out.append(" successful, ");
    out.append(decimal_of(s.error_operations).as_str());
    out.append(" failed");
    out
}

} // verus!
