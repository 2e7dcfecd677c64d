//! The snapshot store: the one piece of state shared between the background
//! synchronization loop and the render/input loop.
//!
//! The store always holds one complete snapshot.  `refresh` replaces it
//! wholesale with a freshly sorted one, or — when the fetch failed — leaves
//! the previous snapshot in place, so the dashboard keeps showing the last
//! known good state.  `read` hands out exactly the stored snapshot.  The
//! caller serializes access with a lock held only around these calls, never
//! across a fetch.

use vstd::prelude::*;

use crate::app::{ColumnField, SessionStats, Torrent};
use crate::sort::{job_leq, sort_stable, sort_torrents};

verus! {

/// One immutable, internally consistent view of all jobs plus the session's
/// aggregate statistics; `stats` is absent until the first successful fetch.
pub struct Snapshot {
    pub torrents: Vec<Torrent>,
    pub stats: Option<SessionStats>,
}

/// The holder of the latest snapshot and of the sort order that the *next*
/// refresh will apply.
pub struct StateStore {
    pub snapshot: Snapshot,
    pub sort_column: ColumnField,
    pub sort_descending: bool,
}

/// How `refresh` relates the store before the call, the fetch's outcome and
/// the store after the call.
pub open spec fn refresh_rel(
    pre: StateStore,
    fetched: Result<Snapshot, String>,
    post: StateStore,
) -> bool {
    &&& post.sort_column == pre.sort_column
    &&& post.sort_descending == pre.sort_descending
    &&& match fetched {
        Ok(snap) => {
            &&& post.snapshot.torrents@ == if pre.sort_descending {
                sort_stable(snap.torrents@, job_leq(pre.sort_column))
            } else {
                sort_stable(snap.torrents@, job_leq(pre.sort_column)).reverse()
            }
            &&& post.snapshot.stats == snap.stats
        },
        Err(_) => post.snapshot == pre.snapshot,
    }
}

impl StateStore {
    /// An empty store: no jobs, no statistics, sorted by name.
    pub fn new() -> (r: StateStore)
        ensures
            r.snapshot.torrents@ == Seq::<Torrent>::empty(),
            r.snapshot.stats is None,
            r.sort_column == ColumnField::Name,
            r.sort_descending == true,
    {
        StateStore {
            snapshot: Snapshot { torrents: Vec::new(), stats: None },
            sort_column: ColumnField::Name,
            sort_descending: true,
        }
    }

    /// Publish the outcome of one fetch: on success the stored snapshot is
    /// replaced by the fetched one, sorted under the current sort order; on
    /// failure the previous snapshot stays.
    pub fn refresh(&mut self, fetched: Result<Snapshot, String>)
        ensures
            refresh_rel(*old(self), fetched, *final(self)),
    {
        match fetched {
            Ok(snap) => {
                let sorted = sort_torrents(snap.torrents, self.sort_column, self.sort_descending);
                self.snapshot = Snapshot { torrents: sorted, stats: snap.stats };
            },
            Err(_) => {},
        }
    }

    /// The current snapshot, exactly as the last successful refresh
    /// published it.
    pub fn read(&self) -> (r: &Snapshot)
        ensures
            *r == self.snapshot,
    {
        &self.snapshot
    }

    /// Select the sort order for the next refresh.  The published snapshot
    /// is left untouched: it keeps the order that was applied to it.
    pub fn set_sort(&mut self, column: ColumnField, descending: bool)
        ensures
            final(self).snapshot == old(self).snapshot,
            final(self).sort_column == column,
            final(self).sort_descending == descending,
    {
        self.sort_column = column;
        self.sort_descending = descending;
    }
}

/// Snapshot atomicity: what a refresh publishes is a function of the one
/// fetched snapshot and the sort order alone — nothing of the previously
/// stored jobs flows into it.  Together with the failure clause of
/// `refresh_rel`, which keeps the old snapshot untouched, every snapshot a
/// reader sees was produced in full by a single refresh.
pub proof fn lemma_snapshot_atomicity(
    pre1: StateStore,
    post1: StateStore,
    pre2: StateStore,
    post2: StateStore,
    fetched: Snapshot,
)
    requires
        refresh_rel(pre1, Ok(fetched), post1),
        refresh_rel(pre2, Ok(fetched), post2),
        pre1.sort_column == pre2.sort_column,
        pre1.sort_descending == pre2.sort_descending,
    ensures
        post1.snapshot.torrents@ == post2.snapshot.torrents@,
        post1.snapshot.stats == post2.snapshot.stats,
{
}

} // verus!
