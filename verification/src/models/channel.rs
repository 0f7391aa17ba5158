//! Mirrored workspace channels and their reconciliation.
//!
//! `ChannelMirror` is the local, append-only copy of the workspace's channel
//! directory, keyed by the stable external channel id.

use crate::directory::{
    batch_insertable, contains_id, delta_spec, ids_unique, lemma_append_unique, sync_spec,
    lemma_contains_append, DirEntry,
};
use crate::error::CustomError;
use crate::models::slack_responses::SlackChannel;
use vstd::prelude::*;

verus! {

/// A mirrored workspace channel: external id and name.
#[derive(Debug, Clone)]
pub struct Channel {
    pub id: String,
    pub channel_name: String,
}

/// A channel row about to be inserted into the mirror.
#[derive(Debug, Clone)]
pub struct NewChannel {
    pub channel_id: String,
    pub channel_name: String,
}

impl View for Channel {
    type V = DirEntry;

    open spec fn view(&self) -> DirEntry {
        DirEntry { id: self.id@, name: self.channel_name@ }
    }
}

impl DeepView for Channel {
    type V = DirEntry;

    open spec fn deep_view(&self) -> DirEntry {
        self@
    }
}

impl View for NewChannel {
    type V = DirEntry;

    open spec fn view(&self) -> DirEntry {
        DirEntry { id: self.channel_id@, name: self.channel_name@ }
    }
}

impl DeepView for NewChannel {
    type V = DirEntry;

    open spec fn deep_view(&self) -> DirEntry {
        self@
    }
}

/// The local mirror of workspace channels.
#[derive(Debug)]
pub struct ChannelMirror {
    pub rows: Vec<Channel>,
}

impl View for ChannelMirror {
    type V = Seq<DirEntry>;

    open spec fn view(&self) -> Seq<DirEntry> {
        self.rows.deep_view()
    }
}

impl ChannelMirror {
    /// The storage layer's uniqueness constraint on external channel ids.
    pub open spec fn wf(&self) -> bool {
        ids_unique(self@)
    }

    /// An empty mirror.
    pub fn new() -> (mirror: ChannelMirror)
        ensures
            mirror@ =~= Seq::<DirEntry>::empty(),
            mirror.wf(),
    {
        ChannelMirror { rows: Vec::new() }
    }

    /// Whether some row carries this external channel id.
    pub fn contains_external_id(&self, id: &String) -> (present: bool)
        ensures
            present == contains_id(self@, id@),
    {
        let n = self.rows.len();
        for i in 0..n
            invariant
                n == self.rows.len(),
                forall|j: int| 0 <= j < i ==> self@[j].id != id@,
        {
            if self.rows[i].id == *id {
                assert(self@[i as int].id == id@);
                return true;
            }
        }
        false
    }
}

impl Channel {
    /// Fetch the first mirrored channel carrying this external id, or a
    /// storage failure when no row matches.
    pub fn find_by_channel_id(mirror: &ChannelMirror, id: String) -> (r: Result<
        Channel,
        CustomError,
    >)
        ensures
            (r is Ok) == contains_id(mirror@, id@),
            r matches Ok(found) ==> exists|i: int|
                {
                    &&& 0 <= i < mirror@.len()
                    &&& #[trigger] mirror@[i] == found@
                    &&& mirror@[i].id == id@
                },
            r matches Err(e) ==> e is StorageError,
    {
        let n = mirror.rows.len();
        for i in 0..n
            invariant
                n == mirror.rows.len(),
                forall|j: int| 0 <= j < i ==> mirror@[j].id != id@,
        {
            if mirror.rows[i].id == id {
                let found = Channel {
                    id: mirror.rows[i].id.clone(),
                    channel_name: mirror.rows[i].channel_name.clone(),
                };
                assert(mirror@[i as int].id == id@);
                assert(found@ == mirror@[i as int]);
                return Ok(found);
            }
        }
        Err(CustomError::StorageError(String::from_str("record not found")))
    }

    /// All mirrored channels, as owned copies.
    pub fn all(mirror: &ChannelMirror) -> (r: Result<Vec<Channel>, CustomError>)
        ensures
            r is Ok,
            r matches Ok(rows) ==> rows.deep_view() =~= mirror@,
    {
        let mut out: Vec<Channel> = Vec::new();
        let n = mirror.rows.len();
        for i in 0..n
            invariant
                n == mirror.rows.len(),
                out.deep_view() =~= mirror@.take(i as int),
        {
            out.push(
                Channel {
                    id: mirror.rows[i].id.clone(),
                    channel_name: mirror.rows[i].channel_name.clone(),
                },
            );
            assert(out.deep_view() =~= mirror@.take(i as int).push(mirror@[i as int]));
            assert(mirror@.take(i + 1) =~= mirror@.take(i as int).push(mirror@[i as int]));
        }
        assert(mirror@.take(n as int) =~= mirror@);
        Ok(out)
    }

    /// Reconcile a freshly fetched channel listing into the mirror: insert
    /// exactly the channels whose external id is not yet mirrored, in listing
    /// order, and hand back the inserted rows.  Never fails: a listing entry
    /// that lost the race to an id already present is treated as already
    /// synced.
    pub fn sync_api_channels(mirror: &mut ChannelMirror, slack_channels: Vec<SlackChannel>) -> (r:
        Result<Vec<Channel>, CustomError>)
        requires
            old(mirror).wf(),
        ensures
            final(mirror).wf(),
            final(mirror)@ == sync_spec(old(mirror)@, slack_channels.deep_view()),
            r is Ok,
            r matches Ok(inserted) ==> inserted.deep_view() == delta_spec(
                old(mirror)@,
                slack_channels.deep_view(),
            ),
    {
        let ghost m0 = mirror@;
        let ghost l = slack_channels.deep_view();
        let mut to_insert: Vec<NewChannel> = Vec::new();
        let n = slack_channels.len();
        for i in 0..n
            invariant
                n == slack_channels.len(),
                l == slack_channels.deep_view(),
                mirror@ == m0,
                mirror.wf(),
                m0 + to_insert.deep_view() =~= sync_spec(m0, l.take(i as int)),
                forall|k: int|
                    0 <= k < to_insert.deep_view().len() ==> !contains_id(
                        m0,
                        #[trigger] to_insert.deep_view()[k].id,
                    ),
                ids_unique(to_insert.deep_view()),
        {
            let sc = &slack_channels[i];
            let in_mirror = mirror.contains_external_id(&sc.id);
            let mut in_delta = false;
            let d = to_insert.len();
            for j in 0..d
                invariant
                    d == to_insert.len(),
                    in_delta == contains_id(to_insert.deep_view().take(j as int), sc.id@),
            {
                proof {
                    assert(to_insert.deep_view().take(j + 1) =~= to_insert.deep_view().take(
                        j as int,
                    ).push(to_insert.deep_view()[j as int]));
                    if contains_id(to_insert.deep_view().take(j as int), sc.id@) {
                        let w = choose|k: int|
                            0 <= k < j && to_insert.deep_view().take(j as int)[k].id == sc.id@;
                        assert(to_insert.deep_view().take(j + 1)[w].id == sc.id@);
                    }
                }
                if to_insert[j].channel_id == sc.id {
                    in_delta = true;
                    proof {
                        assert(to_insert.deep_view()[j as int] == to_insert@[j as int]@);
                        assert(to_insert.deep_view().take(j + 1)[j as int].id == sc.id@);
                    }
                }
            }
            proof {
                assert(to_insert.deep_view().take(d as int) =~= to_insert.deep_view());
            }
            let ghost delta_before = to_insert.deep_view();
            if !in_mirror && !in_delta {
                to_insert.push(
                    NewChannel { channel_id: sc.id.clone(), channel_name: sc.name.clone() },
                );
                proof {
                    assert(to_insert.deep_view() =~= delta_before.push(sc@));
                    assert forall|k: int, k2: int|
                        0 <= k < k2 < to_insert.deep_view().len() implies to_insert.deep_view()[k].id
                        != to_insert.deep_view()[k2].id by {
                        if k2 == to_insert.deep_view().len() - 1 {
                            assert(!contains_id(delta_before, sc.id@));
                            assert(delta_before[k].id != sc.id@);
                        }
                    }
                }
            }
            proof {
                lemma_contains_append(m0, delta_before, sc@.id);
                assert(l.take(i + 1).drop_last() =~= l.take(i as int));
                assert(l.take(i + 1).last() == sc@);
                assert(m0 + to_insert.deep_view() =~= sync_spec(m0, l.take(i + 1)));
            }
        }
        proof {
            assert(l.take(n as int) =~= l);
            assert(batch_insertable(m0, to_insert.deep_view()));
        }
        let inserted = NewChannel::create_many(mirror, to_insert)?;
        proof {
            assert((m0 + inserted.deep_view()).skip(m0.len() as int) =~= inserted.deep_view());
        }
        Ok(inserted)
    }
}

impl NewChannel {
    /// Insert a batch of channel rows as one statement.  The storage layer's
    /// uniqueness constraint rejects the whole batch if any entry collides
    /// with a mirrored id or with another batch entry; otherwise all rows
    /// are appended and handed back.
    pub fn create_many(mirror: &mut ChannelMirror, slack_channels: Vec<NewChannel>) -> (r: Result<
        Vec<Channel>,
        CustomError,
    >)
        ensures
            batch_insertable(old(mirror)@, slack_channels.deep_view()) ==> {
                &&& r is Ok
                &&& final(mirror)@ == old(mirror)@ + slack_channels.deep_view()
                &&& r matches Ok(inserted) && inserted.deep_view() == slack_channels.deep_view()
                &&& old(mirror).wf() ==> final(mirror).wf()
            },
            !batch_insertable(old(mirror)@, slack_channels.deep_view()) ==> {
                &&& r matches Err(e) && e is StorageError
                &&& final(mirror)@ == old(mirror)@
            },
    {
        let ghost m0 = mirror@;
        let ghost batch = slack_channels.deep_view();
        let n = slack_channels.len();
        for i in 0..n
            invariant
                n == slack_channels.len(),
                batch == slack_channels.deep_view(),
                mirror@ == m0,
                forall|k: int| 0 <= k < i ==> !contains_id(m0, #[trigger] batch[k].id),
                forall|k: int, k2: int| 0 <= k < k2 < i ==> batch[k].id != batch[k2].id,
        {
            if mirror.contains_external_id(&slack_channels[i].channel_id) {
                proof {
                    assert(batch[i as int] == slack_channels@[i as int]@);
                    assert(contains_id(m0, batch[i as int].id));
                    assert(!batch_insertable(m0, batch));
                }
                return Err(
                    CustomError::StorageError(
                        String::from_str("unique constraint violation on external id"),
                    ),
                );
            }
            for j in 0..i
                invariant
                    n == slack_channels.len(),
                    batch == slack_channels.deep_view(),
                    i < n,
                    forall|k: int| 0 <= k < j ==> batch[k].id != batch[i as int].id,
            {
                if slack_channels[j].channel_id == slack_channels[i].channel_id {
                    assert(batch[j as int] == slack_channels@[j as int]@);
                    assert(batch[i as int] == slack_channels@[i as int]@);
                    assert(batch[j as int].id == batch[i as int].id);
                    assert(!ids_unique(batch));
                    return Err(
                        CustomError::StorageError(
                            String::from_str("unique constraint violation on external id"),
                        ),
                    );
                }
            }
        }
        assert(batch_insertable(m0, batch));
        let mut inserted: Vec<Channel> = Vec::new();
        for i in 0..n
            invariant
                n == slack_channels.len(),
                batch == slack_channels.deep_view(),
                mirror@ =~= m0 + batch.take(i as int),
                inserted.deep_view() =~= batch.take(i as int),
        {
            let row = Channel {
                id: slack_channels[i].channel_id.clone(),
                channel_name: slack_channels[i].channel_name.clone(),
            };
            let copy = Channel { id: row.id.clone(), channel_name: row.channel_name.clone() };
            proof {
                assert(row@ == batch[i as int]);
                assert(copy@ == batch[i as int]);
            }
            let ghost prev_rows = mirror@;
            let ghost prev_ins = inserted.deep_view();
            mirror.rows.push(row);
            inserted.push(copy);
            proof {
                assert(mirror@ =~= prev_rows.push(batch[i as int]));
                assert(inserted.deep_view() =~= prev_ins.push(batch[i as int]));
                assert(batch.take(i + 1) =~= batch.take(i as int).push(batch[i as int]));
                assert(mirror@ =~= m0 + batch.take(i + 1));
                assert(inserted.deep_view() =~= batch.take(i + 1));
            }
        }
        proof {
            assert(batch.take(n as int) =~= batch);
            if ids_unique(m0) {
                lemma_append_unique(m0, batch);
            }
        }
        Ok(inserted)
    }
}

} // verus!
