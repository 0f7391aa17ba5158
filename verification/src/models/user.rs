//! Mirrored workspace members and their reconciliation.
//!
//! `UserMirror` is the local, append-only copy of the workspace's member
//! directory.  Rows are keyed by the stable external id; once inserted they
//! are never updated or removed.

use crate::directory::{
    batch_insertable, contains_id, contains_name, delta_spec, ids_unique, lemma_append_unique,
    lemma_contains_append, sync_spec, DirEntry,
};
use crate::error::CustomError;
use crate::models::slack_responses::SlackUser;
use vstd::prelude::*;

verus! {

/// A mirrored workspace member: external id and display name.
#[derive(Debug, Clone)]
pub struct User {
    pub slack_id: String,
    pub slack_uname: String,
}

/// A member row about to be inserted into the mirror.
#[derive(Debug, Clone)]
pub struct NewUser {
    pub slack_id: String,
    pub slack_uname: String,
}

impl View for User {
    type V = DirEntry;

    open spec fn view(&self) -> DirEntry {
        DirEntry { id: self.slack_id@, name: self.slack_uname@ }
    }
}

impl DeepView for User {
    type V = DirEntry;

    open spec fn deep_view(&self) -> DirEntry {
        self@
    }
}

impl View for NewUser {
    type V = DirEntry;

    open spec fn view(&self) -> DirEntry {
        DirEntry { id: self.slack_id@, name: self.slack_uname@ }
    }
}

impl DeepView for NewUser {
    type V = DirEntry;

    open spec fn deep_view(&self) -> DirEntry {
        self@
    }
}

/// The local mirror of workspace members.
#[derive(Debug)]
pub struct UserMirror {
    pub rows: Vec<User>,
}

impl View for UserMirror {
    type V = Seq<DirEntry>;

    open spec fn view(&self) -> Seq<DirEntry> {
        self.rows.deep_view()
    }
}

impl UserMirror {
    /// The storage layer's uniqueness constraint on external ids.
    pub open spec fn wf(&self) -> bool {
        ids_unique(self@)
    }

    /// An empty mirror.
    pub fn new() -> (mirror: UserMirror)
        ensures
            mirror@ =~= Seq::<DirEntry>::empty(),
            mirror.wf(),
    {
        UserMirror { rows: Vec::new() }
    }

    /// Whether some row carries this external id.
    pub fn contains_external_id(&self, id: &String) -> (present: bool)
        ensures
            present == contains_id(self@, id@),
    {
        let n = self.rows.len();
        for i in 0..n
            invariant
                n == self.rows.len(),
                forall|j: int| 0 <= j < i ==> self@[j].id != id@,
        {
            if self.rows[i].slack_id == *id {
                assert(self@[i as int].id == id@);
                return true;
            }
        }
        false
    }
}

impl User {
    /// Fetch the first mirrored member carrying this display name, or a
    /// storage failure when no row matches.
    pub fn find_by_username(mirror: &UserMirror, slack_username: &str) -> (r: Result<
        User,
        CustomError,
    >)
        ensures
            (r is Ok) == contains_name(mirror@, slack_username@),
            r matches Ok(found) ==> exists|i: int|
                {
                    &&& 0 <= i < mirror@.len()
                    &&& #[trigger] mirror@[i] == found@
                    &&& mirror@[i].name == slack_username@
                    &&& forall|j: int| 0 <= j < i ==> mirror@[j].name != slack_username@
                },
            r matches Err(e) ==> e is StorageError,
    {
        let target = String::from_str(slack_username);
        let n = mirror.rows.len();
        for i in 0..n
            invariant
                n == mirror.rows.len(),
                target@ == slack_username@,
                forall|j: int| 0 <= j < i ==> mirror@[j].name != slack_username@,
        {
            if mirror.rows[i].slack_uname == target {
                let found = User {
                    slack_id: mirror.rows[i].slack_id.clone(),
                    slack_uname: mirror.rows[i].slack_uname.clone(),
                };
                assert(mirror@[i as int].name == slack_username@);
                assert(found@ == mirror@[i as int]);
                assert(contains_name(mirror@, slack_username@));
                return Ok(found);
            }
        }
        Err(CustomError::StorageError(String::from_str("record not found")))
    }

    /// All mirrored members, as owned copies.
    pub fn all(mirror: &UserMirror) -> (r: Result<Vec<User>, CustomError>)
        ensures
            r is Ok,
            r matches Ok(rows) ==> rows.deep_view() =~= mirror@,
    {
        let mut out: Vec<User> = Vec::new();
        let n = mirror.rows.len();
        for i in 0..n
            invariant
                n == mirror.rows.len(),
                out.deep_view() =~= mirror@.take(i as int),
        {
            out.push(
                User {
                    slack_id: mirror.rows[i].slack_id.clone(),
                    slack_uname: mirror.rows[i].slack_uname.clone(),
                },
            );
            assert(out.deep_view() =~= mirror@.take(i as int).push(mirror@[i as int]));
            assert(mirror@.take(i + 1) =~= mirror@.take(i as int).push(mirror@[i as int]));
        }
        assert(mirror@.take(n as int) =~= mirror@);
        Ok(out)
    }

    /// Reconcile a freshly fetched member listing into the mirror: insert
    /// exactly the members whose external id is not yet mirrored, in listing
    /// order, and hand back the inserted rows.  Never fails: a listing entry
    /// that lost the race to an id already present is treated as already
    /// synced.
    pub fn sync_api_users(mirror: &mut UserMirror, slack_users: Vec<SlackUser>) -> (r: Result<
        Vec<User>,
        CustomError,
    >)
        requires
            old(mirror).wf(),
        ensures
            final(mirror).wf(),
            final(mirror)@ == sync_spec(old(mirror)@, slack_users.deep_view()),
            r is Ok,
            r matches Ok(inserted) ==> inserted.deep_view() == delta_spec(
                old(mirror)@,
                slack_users.deep_view(),
            ),
    {
        let ghost m0 = mirror@;
        let ghost l = slack_users.deep_view();
        let mut to_insert: Vec<NewUser> = Vec::new();
        let n = slack_users.len();
        for i in 0..n
            invariant
                n == slack_users.len(),
                l == slack_users.deep_view(),
                mirror@ == m0,
                mirror.wf(),
                m0 + to_insert.deep_view() =~= sync_spec(m0, l.take(i as int)),
                forall|k: int|
                    0 <= k < to_insert.deep_view().len() ==> !contains_id(
                        m0,
                        #[trigger] to_insert.deep_view()[k].id,
                    ),
                ids_unique(to_insert.deep_view()),
        {
            let su = &slack_users[i];
            let in_mirror = mirror.contains_external_id(&su.id);
            let mut in_delta = false;
            let d = to_insert.len();
            for j in 0..d
                invariant
                    d == to_insert.len(),
                    in_delta == contains_id(to_insert.deep_view().take(j as int), su.id@),
            {
                proof {
                    assert(to_insert.deep_view().take(j + 1) =~= to_insert.deep_view().take(
                        j as int,
                    ).push(to_insert.deep_view()[j as int]));
                    if contains_id(to_insert.deep_view().take(j as int), su.id@) {
                        let w = choose|k: int|
                            0 <= k < j && to_insert.deep_view().take(j as int)[k].id == su.id@;
                        assert(to_insert.deep_view().take(j + 1)[w].id == su.id@);
                    }
                }
                if to_insert[j].slack_id == su.id {
                    in_delta = true;
                    proof {
                        assert(to_insert.deep_view()[j as int] == to_insert@[j as int]@);
                        assert(to_insert.deep_view().take(j + 1)[j as int].id == su.id@);
                    }
                }
            }
            proof {
                assert(to_insert.deep_view().take(d as int) =~= to_insert.deep_view());
            }
            let ghost delta_before = to_insert.deep_view();
            if !in_mirror && !in_delta {
                to_insert.push(
                    NewUser { slack_id: su.id.clone(), slack_uname: su.name.clone() },
                );
                proof {
                    assert(to_insert.deep_view() =~= delta_before.push(su@));
                    assert forall|k: int, k2: int|
                        0 <= k < k2 < to_insert.deep_view().len() implies to_insert.deep_view()[k].id
                        != to_insert.deep_view()[k2].id by {
                        if k2 == to_insert.deep_view().len() - 1 {
                            assert(!contains_id(delta_before, su.id@));
                            assert(delta_before[k].id != su.id@);
                        }
                    }
                }
            }
            proof {
                lemma_contains_append(m0, delta_before, su@.id);
                assert(l.take(i + 1).drop_last() =~= l.take(i as int));
                assert(l.take(i + 1).last() == su@);
                assert(m0 + to_insert.deep_view() =~= sync_spec(m0, l.take(i + 1)));
            }
        }
        proof {
            assert(l.take(n as int) =~= l);
            assert(batch_insertable(m0, to_insert.deep_view()));
        }
        let inserted = NewUser::create_many(mirror, to_insert)?;
        proof {
            assert((m0 + inserted.deep_view()).skip(m0.len() as int) =~= inserted.deep_view());
        }
        Ok(inserted)
    }
}

impl NewUser {
    /// Insert a batch of member rows as one statement.  The storage layer's
    /// uniqueness constraint rejects the whole batch if any entry collides
    /// with a mirrored id or with another batch entry; otherwise all rows
    /// are appended and handed back.
    pub fn create_many(mirror: &mut UserMirror, slack_users: Vec<NewUser>) -> (r: Result<
        Vec<User>,
        CustomError,
    >)
        ensures
            batch_insertable(old(mirror)@, slack_users.deep_view()) ==> {
                &&& r is Ok
                &&& final(mirror)@ == old(mirror)@ + slack_users.deep_view()
                &&& r matches Ok(inserted) && inserted.deep_view() == slack_users.deep_view()
                &&& old(mirror).wf() ==> final(mirror).wf()
            },
            !batch_insertable(old(mirror)@, slack_users.deep_view()) ==> {
                &&& r matches Err(e) && e is StorageError
                &&& final(mirror)@ == old(mirror)@
            },
    {
        let ghost m0 = mirror@;
        let ghost batch = slack_users.deep_view();
        let n = slack_users.len();
        for i in 0..n
            invariant
                n == slack_users.len(),
                batch == slack_users.deep_view(),
                mirror@ == m0,
                forall|k: int| 0 <= k < i ==> !contains_id(m0, #[trigger] batch[k].id),
                forall|k: int, k2: int| 0 <= k < k2 < i ==> batch[k].id != batch[k2].id,
        {
            if mirror.contains_external_id(&slack_users[i].slack_id) {
                proof {
                    assert(batch[i as int] == slack_users@[i as int]@);
                    assert(contains_id(m0, batch[i as int].id));
                    assert(!batch_insertable(m0, batch));
                }
                return Err(
                    CustomError::StorageError(
                        String::from_str("unique constraint violation on external id"),
                    ),
                );
            }
            for j in 0..i
                invariant
                    n == slack_users.len(),
                    batch == slack_users.deep_view(),
                    i < n,
                    forall|k: int| 0 <= k < j ==> batch[k].id != batch[i as int].id,
            {
                if slack_users[j].slack_id == slack_users[i].slack_id {
                    assert(batch[j as int] == slack_users@[j as int]@);
                    assert(batch[i as int] == slack_users@[i as int]@);
                    assert(batch[j as int].id == batch[i as int].id);
                    assert(!ids_unique(batch));
                    return Err(
                        CustomError::StorageError(
                            String::from_str("unique constraint violation on external id"),
                        ),
                    );
                }
            }
        }
        assert(batch_insertable(m0, batch));
        let mut inserted: Vec<User> = Vec::new();
        for i in 0..n
            invariant
                n == slack_users.len(),
                batch == slack_users.deep_view(),
                mirror@ =~= m0 + batch.take(i as int),
                inserted.deep_view() =~= batch.take(i as int),
        {
            let row = User {
                slack_id: slack_users[i].slack_id.clone(),
                slack_uname: slack_users[i].slack_uname.clone(),
            };
            let copy = User {
                slack_id: row.slack_id.clone(),
                slack_uname: row.slack_uname.clone(),
            };
            proof {
                assert(row@ == batch[i as int]);
                assert(copy@ == batch[i as int]);
            }
            let ghost prev_rows = mirror@;
            let ghost prev_ins = inserted.deep_view();
            mirror.rows.push(row);
            inserted.push(copy);
            proof {
                assert(mirror@ =~= prev_rows.push(batch[i as int]));
                assert(inserted.deep_view() =~= prev_ins.push(batch[i as int]));
                assert(batch.take(i + 1) =~= batch.take(i as int).push(batch[i as int]));
                assert(mirror@ =~= m0 + batch.take(i + 1));
                assert(inserted.deep_view() =~= batch.take(i + 1));
            }
        }
        proof {
            assert(batch.take(n as int) =~= batch);
            if ids_unique(m0) {
                lemma_append_unique(m0, batch);
            }
        }
        Ok(inserted)
    }
}

} // verus!
