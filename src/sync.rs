//! Decisions of the sync orchestrator: which users a round of provider
//! fetches touched, and whether an on-demand sync is due.
use vstd::prelude::*;

use crate::event::{Timestamp, UserId};
use crate::vault::VaultKey;

verus! {

/// Why a provider fetch failed; each is logged and skips that provider for
/// that user until the next tick.
#[derive(Clone, Copy, Debug, PartialEq, Eq, Structural)]
pub enum FetchError {
    Unreachable,
    Timeout,
    SessionExpired,
    UnexpectedResponse,
}

/// The result of fetching one provider for one user and upserting what it
/// returned: the number of rows written, or why the fetch failed.
#[derive(Clone, Copy, Debug)]
pub struct ProviderRun {
    pub provider: VaultKey,
    pub user_id: UserId,
    pub result: Result<u64, FetchError>,
}

/// A run touched its user when it wrote at least one row.
pub open spec fn touched(run: ProviderRun) -> bool {
    run.result matches Ok(n) && n > 0
}

/// The touched users, each once, in order of first appearance.
pub open spec fn affected(runs: Seq<ProviderRun>) -> Seq<UserId>
    decreases runs.len(),
{
    if runs.len() == 0 {
        Seq::empty()
    } else {
        let prev = affected(runs.drop_last());
        if touched(runs.last()) && !prev.contains(runs.last().user_id) {
            prev.push(runs.last().user_id)
        } else {
            prev
        }
    }
}

/// The users whose local data changed in a round, each once: the remote
/// reconciler runs once for each of them, after every provider finished.
pub fn affected_users(runs: &Vec<ProviderRun>) -> (r: Vec<UserId>)
    ensures
        r@ == affected(runs@),
{
    let mut out: Vec<UserId> = Vec::new();
    let mut i: usize = 0;
    while i < runs.len()
        invariant
            i <= runs@.len(),
            out@ == affected(runs@.take(i as int)),
        decreases runs@.len() - i,
    {
        proof {
            assert(runs@.take(i + 1).drop_last() =~= runs@.take(i as int));
            assert(runs@.take(i + 1).last() == runs@[i as int]);
        }
        let run = runs[i];
        let hit = match run.result {
            Ok(n) => n > 0,
            Err(_) => false,
        };
        if hit {
            let mut seen = false;
            let mut j: usize = 0;
            while j < out.len()
                invariant
                    j <= out@.len(),
                    seen == (exists|k: int| 0 <= k < j && out@[k] == run.user_id),
                decreases out@.len() - j,
            {
                if out[j].0 == run.user_id.0 {
                    seen = true;
                }
                j += 1;
            }
            if !seen {
                out.push(run.user_id);
            }
        }
        i += 1;
    }
    assert(runs@.take(runs@.len() as int) =~= runs@);
    out
}

/// Each touched user appears exactly once among the affected users, and no
/// other user does; a failed fetch neither adds its user nor hides one that
/// another provider touched.
pub proof fn lemma_affected_exact(runs: Seq<ProviderRun>)
    ensures
        affected(runs).no_duplicates(),
        forall|u: UserId|
            affected(runs).contains(u) <==> exists|i: int|
                0 <= i < runs.len() && #[trigger] runs[i].user_id == u && touched(runs[i]),
    decreases runs.len(),
{
    if runs.len() > 0 {
        let init = runs.drop_last();
        lemma_affected_exact(init);
        let n = runs.len() - 1;
        assert forall|u: UserId|
            affected(runs).contains(u) implies exists|i: int|
                0 <= i < runs.len() && #[trigger] runs[i].user_id == u && touched(runs[i]) by {
            if affected(init).contains(u) {
                let i = choose|i: int| 0 <= i < init.len() && #[trigger] init[i].user_id == u && touched(init[i]);
                assert(runs[i] == init[i]);
            } else {
                assert(runs[n].user_id == u && touched(runs[n]));
            }
        }
        assert forall|u: UserId|
            (exists|i: int| 0 <= i < runs.len() && #[trigger] runs[i].user_id == u && touched(runs[i])) implies affected(runs).contains(u) by {
            let i = choose|i: int| 0 <= i < runs.len() && #[trigger] runs[i].user_id == u && touched(runs[i]);
            let prev = affected(init);
            if i < n {
                assert(init[i] == runs[i]);
                assert(prev.contains(u));
            }
            if prev.contains(u) {
                let k = choose|k: int| 0 <= k < prev.len() && prev[k] == u;
                assert(affected(runs)[k] == u);
            } else {
                assert(affected(runs).last() == u);
            }
        }
    }
}

/// An on-demand sync runs only when the last one is at least `min_interval`
/// old, so that repeated manual triggers are absorbed.
pub fn sync_due(last_synced: Timestamp, now: Timestamp, min_interval: i64) -> (r: bool)
    ensures
        r == (now - last_synced >= min_interval),
{
    (now as i128 - last_synced as i128) >= min_interval as i128
}

} // verus!
