//! The order of the Cloudflare calls a full sync and a confirmed removal of
//! hosts make, as state machines: the program makes each call and hands back
//! whether it succeeded; the library says what comes next and when to stop.
use vstd::prelude::*;

verus! {

/// Where a full sync stands.
#[derive(Debug, Clone, Copy, PartialEq, Eq, Structural)]
pub enum SyncPhase {
    Start,
    /// Waiting for the tunnel's current ingress rules.
    Fetching,
    /// Creating the DNS record of host `next` of `total` to add.
    CreatingDns { next: usize, total: usize },
    /// Waiting for the new ingress rules to be pushed.
    Pushing,
    /// Waiting for the cache rule update.
    UpdatingCache,
    Done,
}

/// What came of the last call of a sync.
#[derive(Debug, Clone, Copy, PartialEq, Eq, Structural)]
pub enum SyncEvent {
    Begin,
    /// The ingress rules were fetched (`ok`), with `to_add` hosts lacking a
    /// DNS record.
    Fetched { ok: bool, to_add: usize },
    /// A DNS record was created or failed; either way the sync goes on.
    DnsCreated,
    Pushed { ok: bool },
    /// The cache rule was updated or failed; either way the sync ends.
    CacheUpdated,
}

/// The next call of a sync.
#[derive(Debug, Clone, Copy, PartialEq, Eq, Structural)]
pub enum SyncAction {
    FetchConfig,
    /// Create the DNS record of host number `index` to add.
    CreateDns { index: usize },
    PushConfig,
    UpdateCacheRule,
    /// The report is complete.
    Finish,
    /// The event does not belong to this phase: nothing to do.
    Ignore,
}

/// The phase and call after `add_from` has been reached with `total` hosts to
/// add: the next DNS record when one is left, else the push.
pub open spec fn next_dns_or_push(add_from: int, total: usize) -> (SyncPhase, SyncAction) {
    if 0 <= add_from < total {
        (
            SyncPhase::CreatingDns { next: add_from as usize, total },
            SyncAction::CreateDns { index: add_from as usize },
        )
    } else {
        (SyncPhase::Pushing, SyncAction::PushConfig)
    }
}

/// One step of a full sync: fetch the ingress rules, stopping when that
/// fails; create the DNS record of each host to add, in order, going on
/// after a failure; push the new ingress rules, stopping when that fails;
/// update the cache rule; finish.
pub open spec fn spec_sync_step(phase: SyncPhase, event: SyncEvent) -> (SyncPhase, SyncAction) {
    match (phase, event) {
        (SyncPhase::Start, SyncEvent::Begin) => (SyncPhase::Fetching, SyncAction::FetchConfig),
        (SyncPhase::Fetching, SyncEvent::Fetched { ok, to_add }) => if ok {
            next_dns_or_push(0, to_add)
        } else {
            (SyncPhase::Done, SyncAction::Finish)
        },
        (SyncPhase::CreatingDns { next, total }, SyncEvent::DnsCreated) => next_dns_or_push(
            next + 1,
            total,
        ),
        (SyncPhase::Pushing, SyncEvent::Pushed { ok }) => if ok {
            (SyncPhase::UpdatingCache, SyncAction::UpdateCacheRule)
        } else {
            (SyncPhase::Done, SyncAction::Finish)
        },
        (SyncPhase::UpdatingCache, SyncEvent::CacheUpdated) => (SyncPhase::Done, SyncAction::Finish),
        _ => (phase, SyncAction::Ignore),
    }
}

/// Advances a full sync by one event (see `spec_sync_step`).
pub fn sync_step(phase: SyncPhase, event: SyncEvent) -> (r: (SyncPhase, SyncAction))
    ensures
        r == spec_sync_step(phase, event),
{
    match (phase, event) {
        (SyncPhase::Start, SyncEvent::Begin) => (SyncPhase::Fetching, SyncAction::FetchConfig),
        (SyncPhase::Fetching, SyncEvent::Fetched { ok, to_add }) => if !ok {
            (SyncPhase::Done, SyncAction::Finish)
        } else if 0 < to_add {
            (SyncPhase::CreatingDns { next: 0, total: to_add }, SyncAction::CreateDns { index: 0 })
        } else {
            (SyncPhase::Pushing, SyncAction::PushConfig)
        },
        (SyncPhase::CreatingDns { next, total }, SyncEvent::DnsCreated) => if next < total && total
            - next > 1 {
            (
                SyncPhase::CreatingDns { next: next + 1, total },
                SyncAction::CreateDns { index: next + 1 },
            )
        } else {
            (SyncPhase::Pushing, SyncAction::PushConfig)
        },
        (SyncPhase::Pushing, SyncEvent::Pushed { ok }) => if ok {
            (SyncPhase::UpdatingCache, SyncAction::UpdateCacheRule)
        } else {
            (SyncPhase::Done, SyncAction::Finish)
        },
        (SyncPhase::UpdatingCache, SyncEvent::CacheUpdated) => (SyncPhase::Done, SyncAction::Finish),
        _ => (phase, SyncAction::Ignore),
    }
}

/// Where a confirmed removal of hosts stands.
#[derive(Debug, Clone, Copy, PartialEq, Eq, Structural)]
pub enum RemovalPhase {
    Start,
    /// Waiting for the tunnel's current ingress rules.
    Fetching,
    /// Waiting for the zone's DNS records.
    Listing,
    /// Deleting DNS record `next` of `total`.
    Deleting { next: usize, total: usize },
    /// Waiting for the ingress rules without the hosts to be pushed.
    Pushing,
    /// Waiting for the cache rule update.
    UpdatingCache,
    Done,
}

/// What came of the last call of a removal.
#[derive(Debug, Clone, Copy, PartialEq, Eq, Structural)]
pub enum RemovalEvent {
    /// The removal begins with `hosts` hostnames.
    Begin { hosts: usize },
    Fetched { ok: bool },
    /// The DNS records were listed (`ok`); `deletions` of them are to go.
    Listed { ok: bool, deletions: usize },
    /// A DNS record was deleted or failed; a failure is noted and the removal
    /// goes on.
    Deleted,
    Pushed { ok: bool },
    /// The cache rule was updated or failed (noted); either way the removal
    /// ends.
    CacheUpdated,
}

/// The next call of a removal.
#[derive(Debug, Clone, Copy, PartialEq, Eq, Structural)]
pub enum RemovalAction {
    FetchConfig,
    ListDns,
    /// Delete DNS record number `index` to delete.
    DeleteDns { index: usize },
    PushConfig,
    UpdateCacheRule,
    /// Answer with the hostnames, or the noted failures (see
    /// `removal_outcome`).
    Answer,
    /// Fail with the error of the last call.
    Fail,
    /// The event does not belong to this phase: nothing to do.
    Ignore,
}

/// The phase and call after `from` has been reached with `total` records to
/// delete: the next deletion when one is left, else the push.
pub open spec fn next_delete_or_push(from: int, total: usize) -> (RemovalPhase, RemovalAction) {
    if 0 <= from < total {
        (
            RemovalPhase::Deleting { next: from as usize, total },
            RemovalAction::DeleteDns { index: from as usize },
        )
    } else {
        (RemovalPhase::Pushing, RemovalAction::PushConfig)
    }
}

/// One step of a confirmed removal: with no hostnames, answer at once;
/// otherwise fetch the ingress rules and list the DNS records, failing when
/// either fails; delete each record to go, in order, going on after a
/// failure; push the ingress rules without the hosts, failing when that
/// fails; update the cache rule; answer.
pub open spec fn spec_removal_step(phase: RemovalPhase, event: RemovalEvent) -> (RemovalPhase, RemovalAction) {
    match (phase, event) {
        (RemovalPhase::Start, RemovalEvent::Begin { hosts }) => if hosts == 0 {
            (RemovalPhase::Done, RemovalAction::Answer)
        } else {
            (RemovalPhase::Fetching, RemovalAction::FetchConfig)
        },
        (RemovalPhase::Fetching, RemovalEvent::Fetched { ok }) => if ok {
            (RemovalPhase::Listing, RemovalAction::ListDns)
        } else {
            (RemovalPhase::Done, RemovalAction::Fail)
        },
        (RemovalPhase::Listing, RemovalEvent::Listed { ok, deletions }) => if ok {
            next_delete_or_push(0, deletions)
        } else {
            (RemovalPhase::Done, RemovalAction::Fail)
        },
        (RemovalPhase::Deleting { next, total }, RemovalEvent::Deleted) => next_delete_or_push(
            next + 1,
            total,
        ),
        (RemovalPhase::Pushing, RemovalEvent::Pushed { ok }) => if ok {
            (RemovalPhase::UpdatingCache, RemovalAction::UpdateCacheRule)
        } else {
            (RemovalPhase::Done, RemovalAction::Fail)
        },
        (RemovalPhase::UpdatingCache, RemovalEvent::CacheUpdated) => (
            RemovalPhase::Done,
            RemovalAction::Answer,
        ),
        _ => (phase, RemovalAction::Ignore),
    }
}

/// Advances a confirmed removal by one event (see `spec_removal_step`).
pub fn removal_step(phase: RemovalPhase, event: RemovalEvent) -> (r: (RemovalPhase, RemovalAction))
    ensures
        r == spec_removal_step(phase, event),
{
    match (phase, event) {
        (RemovalPhase::Start, RemovalEvent::Begin { hosts }) => if hosts == 0 {
            (RemovalPhase::Done, RemovalAction::Answer)
        } else {
            (RemovalPhase::Fetching, RemovalAction::FetchConfig)
        },
        (RemovalPhase::Fetching, RemovalEvent::Fetched { ok }) => if ok {
            (RemovalPhase::Listing, RemovalAction::ListDns)
        } else {
            (RemovalPhase::Done, RemovalAction::Fail)
        },
        (RemovalPhase::Listing, RemovalEvent::Listed { ok, deletions }) => if !ok {
            (RemovalPhase::Done, RemovalAction::Fail)
        } else if 0 < deletions {
            (RemovalPhase::Deleting { next: 0, total: deletions }, RemovalAction::DeleteDns { index: 0 })
        } else {
            (RemovalPhase::Pushing, RemovalAction::PushConfig)
        },
        (RemovalPhase::Deleting { next, total }, RemovalEvent::Deleted) => if next < total && total
            - next > 1 {
            (
                RemovalPhase::Deleting { next: next + 1, total },
                RemovalAction::DeleteDns { index: next + 1 },
            )
        } else {
            (RemovalPhase::Pushing, RemovalAction::PushConfig)
        },
        (RemovalPhase::Pushing, RemovalEvent::Pushed { ok }) => if ok {
            (RemovalPhase::UpdatingCache, RemovalAction::UpdateCacheRule)
        } else {
            (RemovalPhase::Done, RemovalAction::Fail)
        },
        (RemovalPhase::UpdatingCache, RemovalEvent::CacheUpdated) => (
            RemovalPhase::Done,
            RemovalAction::Answer,
        ),
        _ => (phase, RemovalAction::Ignore),
    }
}

/// A sync pushes new ingress rules only after the rules were fetched, and a
/// removal touches Cloudflare only when it has hostnames: with none it answers
/// at once.
pub proof fn lemma_sync_and_removal_order(
    phase: SyncPhase,
    event: SyncEvent,
    rphase: RemovalPhase,
    revent: RemovalEvent,
)
    ensures
        spec_sync_step(phase, event).1 == SyncAction::PushConfig ==> phase is Fetching || phase is CreatingDns,
        spec_sync_step(phase, event).1 is CreateDns ==> (spec_sync_step(phase, event).1->index
            < spec_sync_step(phase, event).0->total),
        rphase == RemovalPhase::Start && revent == (RemovalEvent::Begin { hosts: 0 })
            ==> spec_removal_step(rphase, revent) == (RemovalPhase::Done, RemovalAction::Answer),
{
}

/// A sync creates the DNS record of every host it has to add, one after
/// another, before it pushes the ingress rules: a successful fetch with `n`
/// hosts to add asks for host 0 (or, with none, for the push); after host
/// `k` it asks for host `k + 1` while one is left, and for the push after
/// the last.  A failed fetch or push ends the sync; a successful push is
/// followed by the cache rule update, and that by the end.
pub proof fn lemma_sync_creates_every_dns_record(n: usize, k: usize, ok: bool)
    ensures
        n > 0 ==> spec_sync_step(SyncPhase::Fetching, SyncEvent::Fetched { ok: true, to_add: n }) == (
            SyncPhase::CreatingDns { next: 0, total: n },
            SyncAction::CreateDns { index: 0 },
        ),
        spec_sync_step(SyncPhase::Fetching, SyncEvent::Fetched { ok: true, to_add: 0 }) == (
            SyncPhase::Pushing,
            SyncAction::PushConfig,
        ),
        spec_sync_step(SyncPhase::Fetching, SyncEvent::Fetched { ok: false, to_add: n }) == (
            SyncPhase::Done,
            SyncAction::Finish,
        ),
        k + 1 < n ==> spec_sync_step(SyncPhase::CreatingDns { next: k, total: n }, SyncEvent::DnsCreated)
            == (
            SyncPhase::CreatingDns { next: (k + 1) as usize, total: n },
            SyncAction::CreateDns { index: (k + 1) as usize },
        ),
        k + 1 == n ==> spec_sync_step(SyncPhase::CreatingDns { next: k, total: n }, SyncEvent::DnsCreated)
            == (SyncPhase::Pushing, SyncAction::PushConfig),
        spec_sync_step(SyncPhase::Start, SyncEvent::Begin) == (SyncPhase::Fetching, SyncAction::FetchConfig),
        spec_sync_step(SyncPhase::Pushing, SyncEvent::Pushed { ok }) == if ok {
            (SyncPhase::UpdatingCache, SyncAction::UpdateCacheRule)
        } else {
            (SyncPhase::Done, SyncAction::Finish)
        },
        spec_sync_step(SyncPhase::UpdatingCache, SyncEvent::CacheUpdated) == (
            SyncPhase::Done,
            SyncAction::Finish,
        ),
{
}

/// The push of a sync comes only after every DNS record to create was asked
/// for: the push is asked for only by a fetch with nothing to add or by the
/// creation of the last record (`k + 1 == n`), and a record is asked for only
/// with an index below the number to add.
pub proof fn lemma_sync_push_after_all_records(phase: SyncPhase, event: SyncEvent)
    ensures
        spec_sync_step(phase, event).1 == SyncAction::PushConfig ==> (
        (phase == SyncPhase::Fetching && event == (SyncEvent::Fetched { ok: true, to_add: 0 })) || (
        phase matches SyncPhase::CreatingDns { next, total } && event == SyncEvent::DnsCreated
            && next + 1 >= total)),
        spec_sync_step(phase, event).1 matches SyncAction::CreateDns { index } ==> (
        spec_sync_step(phase, event).0 matches SyncPhase::CreatingDns { next, total } && next == index
            && index < total),
{
}

/// A removal deletes the DNS record of every host to remove, one after
/// another, before it pushes the ingress rules: with no hostnames it answers
/// at once; otherwise it fetches the rules, then lists the records (a
/// failure of either fails the removal); a listing with `d` records to delete
/// asks for record 0 (or, with none, for the push); after record `k` it asks
/// for record `k + 1` while one is left, and for the push after the last.  A
/// failed push fails the removal; a successful one is followed by the cache
/// rule update, and that by the answer.
pub proof fn lemma_removal_deletes_every_record(h: usize, d: usize, k: usize, ok: bool)
    ensures
        spec_removal_step(RemovalPhase::Start, RemovalEvent::Begin { hosts: h }) == if h == 0 {
            (RemovalPhase::Done, RemovalAction::Answer)
        } else {
            (RemovalPhase::Fetching, RemovalAction::FetchConfig)
        },
        spec_removal_step(RemovalPhase::Fetching, RemovalEvent::Fetched { ok }) == if ok {
            (RemovalPhase::Listing, RemovalAction::ListDns)
        } else {
            (RemovalPhase::Done, RemovalAction::Fail)
        },
        spec_removal_step(RemovalPhase::Listing, RemovalEvent::Listed { ok: false, deletions: d }) == (
            RemovalPhase::Done,
            RemovalAction::Fail,
        ),
        d > 0 ==> spec_removal_step(RemovalPhase::Listing, RemovalEvent::Listed { ok: true, deletions: d })
            == (RemovalPhase::Deleting { next: 0, total: d }, RemovalAction::DeleteDns { index: 0 }),
        spec_removal_step(RemovalPhase::Listing, RemovalEvent::Listed { ok: true, deletions: 0 }) == (
            RemovalPhase::Pushing,
            RemovalAction::PushConfig,
        ),
        k + 1 < d ==> spec_removal_step(RemovalPhase::Deleting { next: k, total: d }, RemovalEvent::Deleted)
            == (
            RemovalPhase::Deleting { next: (k + 1) as usize, total: d },
            RemovalAction::DeleteDns { index: (k + 1) as usize },
        ),
        k + 1 == d ==> spec_removal_step(RemovalPhase::Deleting { next: k, total: d }, RemovalEvent::Deleted)
            == (RemovalPhase::Pushing, RemovalAction::PushConfig),
        spec_removal_step(RemovalPhase::Pushing, RemovalEvent::Pushed { ok }) == if ok {
            (RemovalPhase::UpdatingCache, RemovalAction::UpdateCacheRule)
        } else {
            (RemovalPhase::Done, RemovalAction::Fail)
        },
        spec_removal_step(RemovalPhase::UpdatingCache, RemovalEvent::CacheUpdated) == (
            RemovalPhase::Done,
            RemovalAction::Answer,
        ),
{
}

/// The push of a removal comes only after every DNS record to delete was
/// asked for, and a deletion is asked for only with an index below the
/// number to delete.
pub proof fn lemma_removal_push_after_all_deletions(phase: RemovalPhase, event: RemovalEvent)
    ensures
        spec_removal_step(phase, event).1 == RemovalAction::PushConfig ==> (
        (phase == RemovalPhase::Listing && event == (RemovalEvent::Listed { ok: true, deletions: 0 }))
            || (phase matches RemovalPhase::Deleting { next, total } && event == RemovalEvent::Deleted
            && next + 1 >= total)),
        spec_removal_step(phase, event).1 matches RemovalAction::DeleteDns { index } ==> (
        spec_removal_step(phase, event).0 matches RemovalPhase::Deleting { next, total } && next
            == index && index < total),
{
}

} // verus!
