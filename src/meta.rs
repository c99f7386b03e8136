//! The jobs of a meta-analysis of several over-representation analyses that share
//! one catalog: each pair of an interest list and a reference list is a job, run on
//! its own. A job that fails leaves the others standing. The combination of the
//! jobs' p-values is a computation on floating-point numbers, done by the caller:
//! Stouffer's method, unweighted, over the jobs in which a set has a result, so
//! that a set missing from a job, or a failed job, contributes no evidence.
use vstd::prelude::*;

use crate::analytes::views;
use crate::ora::{catalog, lemma_outcome_unique, list_set, ora_outcome, set_model, OraError};
use webgestalt_lib::methods::ora::ORAResult;
use webgestalt_lib::readers::utils::Item;

verus! {

/// Why the jobs of a meta-analysis cannot be formed.
#[derive(Debug, Clone, Copy, PartialEq, Eq, Structural)]
pub enum MetaOraError {
    /// The numbers of interest lists and of reference lists differ.
    ListCountMismatch { analyte_lists: usize, reference_lists: usize },
}

/// Checks that there are as many reference lists as interest lists.
pub fn check_pairing(analyte_lists: usize, reference_lists: usize) -> (r: Result<(), MetaOraError>)
    ensures
        r == (if analyte_lists == reference_lists {
            Ok(())
        } else {
            Err(MetaOraError::ListCountMismatch { analyte_lists, reference_lists })
        }),
{
    if analyte_lists != reference_lists {
        Err(MetaOraError::ListCountMismatch { analyte_lists, reference_lists })
    } else {
        Ok(())
    }
}

/// `r` is the outcome of running the jobs formed by the catalog `cat` and the
/// pairs of `analyte_lists` and `reference_lists`: an error exactly when the
/// numbers of lists differ, and otherwise each job's own outcome, in job order.
pub open spec fn jobs_outcome(
    cat: Seq<(Seq<char>, Seq<Seq<char>>)>,
    analyte_lists: Seq<Vec<String>>,
    reference_lists: Seq<Vec<String>>,
    r: Result<Vec<Result<Vec<ORAResult>, OraError>>, MetaOraError>,
) -> bool {
    let n = analyte_lists.len();
    match r {
        Err(MetaOraError::ListCountMismatch { analyte_lists: a, reference_lists: b }) => {
            &&& n != reference_lists.len()
            &&& a == n
            &&& b == reference_lists.len()
        },
        Ok(jobs) => {
            &&& n == reference_lists.len()
            &&& jobs.len() == n
            &&& forall|k: int|
                0 <= k < n ==> ora_outcome(
                    cat,
                    list_set(analyte_lists[k]@),
                    list_set(reference_lists[k]@),
                    #[trigger] jobs[k],
                )
        },
    }
}

/// Runs the analysis of each interest list against the reference list at the same
/// index, over one catalog. The numbers of lists must match; each job then
/// succeeds or fails on its own.
pub fn meta_ora_jobs(
    gmt: Vec<Item>,
    analyte_lists: Vec<Vec<String>>,
    reference_lists: Vec<Vec<String>>,
) -> (r: Result<Vec<Result<Vec<ORAResult>, OraError>>, MetaOraError>)
    ensures
        jobs_outcome(catalog(gmt@), analyte_lists@, reference_lists@, r),
{
    match check_pairing(analyte_lists.len(), reference_lists.len()) {
        Err(e) => {
            return Err(e);
        },
        Ok(()) => {},
    }
    let n = analyte_lists.len();
    let mut jobs: Vec<Result<Vec<ORAResult>, OraError>> = Vec::new();
    let mut k: usize = 0;
    while k < n
        invariant
            n == analyte_lists.len() == reference_lists.len(),
            k <= n,
            jobs.len() == k,
            forall|t: int|
                0 <= t < k ==> ora_outcome(
                    catalog(gmt@),
                    list_set(analyte_lists[t]@),
                    list_set(reference_lists[t]@),
                    #[trigger] jobs[t],
                ),
        decreases n - k,
    {
        let interest_list = analyte_lists[k].clone();
        let reference_list = reference_lists[k].clone();
        proof {
            assert(interest_list@ =~= analyte_lists[k as int]@);
            assert(reference_list@ =~= reference_lists[k as int]@);
        }
        let gmt_copy = gmt.clone();
        proof {
            assert(catalog(gmt_copy@) =~= catalog(gmt@)) by {
                assert forall|i: int| 0 <= i < gmt@.len() implies #[trigger] set_model(gmt_copy@[i])
                    == set_model(gmt@[i]) by {
                    assert(views(gmt_copy@[i].parts@) =~= views(gmt@[i].parts@));
                }
            }
        }
        let outcome = crate::ora::ora(gmt_copy, interest_list, reference_list);
        jobs.push(outcome);
        k = k + 1;
    }
    Ok(jobs)
}

/// The jobs of a meta-analysis of a single pair of lists reproduce the analysis of
/// that pair alone: forming them succeeds, and the one job fails as the analysis
/// does, or succeeds with the same sets, in the same order, and the same overlaps.
pub proof fn lemma_single_job_meta(
    gmt: Seq<Item>,
    analyte_list: Vec<String>,
    reference_list: Vec<String>,
    meta: Result<Vec<Result<Vec<ORAResult>, OraError>>, MetaOraError>,
    single: Result<Vec<ORAResult>, OraError>,
)
    requires
        jobs_outcome(catalog(gmt), seq![analyte_list], seq![reference_list], meta),
        ora_outcome(catalog(gmt), list_set(analyte_list@), list_set(reference_list@), single),
    ensures
        meta matches Ok(jobs) && jobs.len() == 1 && match (jobs[0], single) {
            (Err(e1), Err(e2)) => e1 == e2,
            (Ok(v1), Ok(v2)) => v1@.len() == v2@.len() && forall|i: int|
                0 <= i < v1@.len() ==> (#[trigger] v1@[i]).set@ == v2@[i].set@ && v1@[i].overlap
                    == v2@[i].overlap,
            _ => false,
        },
{
    let a = seq![analyte_list];
    let b = seq![reference_list];
    assert(a[0] == analyte_list && b[0] == reference_list);
    if let Ok(jobs) = meta {
        lemma_outcome_unique(
            catalog(gmt),
            list_set(analyte_list@),
            list_set(reference_list@),
            jobs[0],
            single,
        );
    }
}

} // verus!
