use crate::changelist::{appended, update_changelist};
use crate::domain::{changes_view, levels_view, ChangelistEntry, LevelInfo};
use crate::merge::{add_missing_entries_from, merged};
use crate::order::{insertion_sort, lemma_sort_by_workshop_id_view, view_by_workshop_id};
use crate::persistence::LoadError;
use vstd::prelude::*;

verus! {

/// What the previous cycle left: its snapshot, if one was stored, and the
/// changelist so far.
#[derive(Debug)]
pub struct PriorState {
    pub snapshot: Option<Vec<LevelInfo>>,
    pub changelist: Vec<ChangelistEntry>,
}

/// A stored file that exists but could not be loaded; it ends the cycle.
#[derive(Debug)]
pub enum UpdateError {
    QueryResults(anyhow::Error),
    Changelist(anyhow::Error),
}

/// What a cycle writes back: the new snapshot, and the changelist when there
/// was a snapshot to compare with.
#[derive(Debug)]
pub struct UpdatePlan {
    pub query_results: Vec<LevelInfo>,
    pub changelist: Option<Vec<ChangelistEntry>>,
}

/// Whether a load failed for another reason than a missing file.
pub open spec fn load_failed<T>(r: Result<T, LoadError>) -> bool {
    r matches Err(LoadError::Other(_))
}

/// Interprets the two loads: a missing file means no prior data; any other
/// failure ends the cycle, the snapshot's before the changelist's.
pub fn prior_state(
    query_results: Result<Vec<LevelInfo>, LoadError>,
    changelist: Result<Vec<ChangelistEntry>, LoadError>,
) -> (r: Result<PriorState, UpdateError>)
    ensures
        query_results matches Err(LoadError::Other(e)) ==> r matches Err(
            UpdateError::QueryResults(f),
        ) && f == e,
        !load_failed(query_results) ==> (changelist matches Err(LoadError::Other(e)) ==> (
        r matches Err(UpdateError::Changelist(f)) && f == e)),
        !load_failed(query_results) && !load_failed(changelist) ==> (r matches Ok(p) && p.snapshot
            == (match query_results {
            Ok(v) => Some(v),
            Err(_) => None,
        }) && (match changelist {
            Ok(v) => p.changelist == v,
            Err(_) => p.changelist@.len() == 0,
        })),
{
    let snapshot = match query_results {
        Ok(v) => Some(v),
        Err(LoadError::DoesNotExist) => None,
        Err(LoadError::Other(e)) => return Err(UpdateError::QueryResults(e)),
    };
    let changelist = match changelist {
        Ok(v) => v,
        Err(LoadError::DoesNotExist) => Vec::new(),
        Err(LoadError::Other(e)) => return Err(UpdateError::Changelist(e)),
    };
    Ok(PriorState { snapshot, changelist })
}

fn duplicate_levels(v: &Vec<LevelInfo>) -> (r: Vec<LevelInfo>)
    ensures
        levels_view(r@) == levels_view(v@),
{
    let mut r: Vec<LevelInfo> = Vec::new();
    for i in 0..v.len()
        invariant
            r.len() == i,
            forall|j: int| 0 <= j < i ==> r@[j]@ == v@[j]@,
    {
        r.push(v[i].duplicate());
    }
    assert(levels_view(r@) =~= levels_view(v@));
    r
}

/// Completes a cycle with the freshly `fetched` levels. With no stored
/// snapshot, the fetched levels are the new snapshot and the changelist is
/// left alone. Otherwise the new snapshot is the fetched levels merged with
/// the stored ones, in processing order, and the changelist gains what that
/// snapshot shows against the stored one.
pub fn apply_update(prior: PriorState, fetched: Vec<LevelInfo>) -> (r: UpdatePlan)
    ensures
        prior.snapshot is None ==> r.query_results@ == fetched@ && r.changelist is None,
        prior.snapshot matches Some(stored) ==> {
            &&& levels_view(r.query_results@) == insertion_sort(
                merged(levels_view(fetched@), levels_view(stored@)),
                view_by_workshop_id(),
            )
            &&& r.changelist matches Some(c) && changes_view(c@) == changes_view(prior.changelist@)
                + appended(
                levels_view(r.query_results@),
                levels_view(stored@),
                changes_view(prior.changelist@),
            )
        },
{
    let ghost start = changes_view(prior.changelist@);
    match prior.snapshot {
        None => UpdatePlan { query_results: fetched, changelist: None },
        Some(stored) => {
            let copy = duplicate_levels(&stored);
            let mut snapshot = add_missing_entries_from(fetched, copy);
            let ghost merged_levels = snapshot@;
            let mut changelist = prior.changelist;
            update_changelist(&mut changelist, &mut snapshot, stored);
            proof {
                lemma_sort_by_workshop_id_view(merged_levels);
            }
            UpdatePlan { query_results: snapshot, changelist: Some(changelist) }
        },
    }
}

} // verus!
