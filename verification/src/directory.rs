//! Mathematical model of the directory mirror and its reconciliation.
//!
//! The local mirror of externally-owned entities (workspace members and
//! channels) is modelled as a sequence of entries keyed by external id.
//! Reconciliation against a freshly fetched listing is a monotone, append-only
//! merge: entries whose id is already mirrored are kept untouched, entries
//! with a new id are appended in listing order.  The executable mirrors in
//! `models` state their contracts over these functions.

use vstd::prelude::*;

verus! {

/// Abstract directory entry: an external id and a display name.
pub struct DirEntry {
    pub id: Seq<char>,
    pub name: Seq<char>,
}

/// No two entries share an external id.
pub open spec fn ids_unique(rows: Seq<DirEntry>) -> bool {
    forall|i: int, j: int| 0 <= i < j < rows.len() ==> rows[i].id != rows[j].id
}

/// Some entry carries this external id.
pub open spec fn contains_id(rows: Seq<DirEntry>, id: Seq<char>) -> bool {
    exists|i: int| 0 <= i < rows.len() && rows[i].id == id
}

/// Some entry carries this display name.  Names, unlike ids, may repeat.
pub open spec fn contains_name(rows: Seq<DirEntry>, name: Seq<char>) -> bool {
    exists|i: int| 0 <= i < rows.len() && rows[i].name == name
}

/// How many entries carry this external id.
pub open spec fn count_id(rows: Seq<DirEntry>, id: Seq<char>) -> nat
    decreases rows.len(),
{
    if rows.len() == 0 {
        0
    } else {
        count_id(rows.drop_last(), id) + if rows.last().id == id {
            1nat
        } else {
            0nat
        }
    }
}

/// The mirror after reconciling `listing` into `rows`: entries of `listing`
/// are considered left to right, and each one whose id is not yet present is
/// appended.  Existing rows are never updated or removed, even if the listing
/// reports a changed name for a known id.
pub open spec fn sync_spec(rows: Seq<DirEntry>, listing: Seq<DirEntry>) -> Seq<DirEntry>
    decreases listing.len(),
{
    if listing.len() == 0 {
        rows
    } else {
        let prev = sync_spec(rows, listing.drop_last());
        if contains_id(prev, listing.last().id) {
            prev
        } else {
            prev.push(listing.last())
        }
    }
}

/// The delta of a reconciliation: exactly the entries appended beyond the
/// original mirror.
pub open spec fn delta_spec(rows: Seq<DirEntry>, listing: Seq<DirEntry>) -> Seq<DirEntry> {
    sync_spec(rows, listing).skip(rows.len() as int)
}

/// A batch can be inserted as one statement without violating the uniqueness
/// constraint on external ids: no batch entry collides with the mirror or
/// with another batch entry.
pub open spec fn batch_insertable(rows: Seq<DirEntry>, batch: Seq<DirEntry>) -> bool {
    &&& forall|i: int| 0 <= i < batch.len() ==> !contains_id(rows, #[trigger] batch[i].id)
    &&& ids_unique(batch)
}

/// Membership in a concatenation is membership in either part.
pub proof fn lemma_contains_append(a: Seq<DirEntry>, b: Seq<DirEntry>, id: Seq<char>)
    ensures
        contains_id(a + b, id) <==> (contains_id(a, id) || contains_id(b, id)),
{
    if contains_id(a, id) {
        let i = choose|i: int| 0 <= i < a.len() && a[i].id == id;
        assert((a + b)[i].id == id);
    }
    if contains_id(b, id) {
        let i = choose|i: int| 0 <= i < b.len() && b[i].id == id;
        assert((a + b)[a.len() + i].id == id);
    }
    if contains_id(a + b, id) {
        let i = choose|i: int| 0 <= i < (a + b).len() && (a + b)[i].id == id;
        if i < a.len() {
            assert(a[i].id == id);
        } else {
            assert(b[i - a.len()].id == id);
        }
    }
}

/// Appending an insertable batch preserves uniqueness of external ids.
pub proof fn lemma_append_unique(a: Seq<DirEntry>, b: Seq<DirEntry>)
    requires
        ids_unique(a),
        batch_insertable(a, b),
    ensures
        ids_unique(a + b),
{
    let c = a + b;
    assert forall|i: int, j: int| 0 <= i < j < c.len() implies c[i].id != c[j].id by {
        if j < a.len() {
            assert(c[i] == a[i] && c[j] == a[j]);
        } else if i >= a.len() {
            assert(c[i] == b[i - a.len()] && c[j] == b[j - a.len()]);
        } else {
            assert(c[i] == a[i] && c[j] == b[j - a.len()]);
            assert(!contains_id(a, b[j - a.len()].id));
            assert(a[i].id != b[j - a.len()].id);
        }
    }
}

/// Reconciliation only appends: the original mirror is a prefix of the
/// result, entry for entry.
pub proof fn lemma_sync_appends(rows: Seq<DirEntry>, listing: Seq<DirEntry>)
    ensures
        sync_spec(rows, listing).len() >= rows.len(),
        sync_spec(rows, listing).take(rows.len() as int) == rows,
    decreases listing.len(),
{
    if listing.len() == 0 {
        assert(sync_spec(rows, listing).take(rows.len() as int) =~= rows);
    } else {
        lemma_sync_appends(rows, listing.drop_last());
        let prev = sync_spec(rows, listing.drop_last());
        if !contains_id(prev, listing.last().id) {
            assert(prev.push(listing.last()).take(rows.len() as int) =~= prev.take(
                rows.len() as int,
            ));
        }
    }
}

/// An id is mirrored after reconciliation exactly when it was mirrored
/// before or the listing carries it.
pub proof fn lemma_sync_contains(rows: Seq<DirEntry>, listing: Seq<DirEntry>, id: Seq<char>)
    ensures
        contains_id(sync_spec(rows, listing), id) <==> (contains_id(rows, id) || contains_id(
            listing,
            id,
        )),
    decreases listing.len(),
{
    if listing.len() == 0 {
        assert(!contains_id(listing, id));
    } else {
        lemma_sync_contains(rows, listing.drop_last(), id);
        let prev = sync_spec(rows, listing.drop_last());
        if contains_id(listing.drop_last(), id) {
            let v = choose|i: int|
                0 <= i < listing.drop_last().len() && listing.drop_last()[i].id == id;
            assert(listing[v].id == id);
        }
        if contains_id(listing, id) && listing.last().id != id {
            let w = choose|i: int| 0 <= i < listing.len() && listing[i].id == id;
            assert(listing.drop_last()[w].id == id);
        }
        if !contains_id(prev, listing.last().id) {
            let cur = prev.push(listing.last());
            if contains_id(prev, id) {
                let u = choose|i: int| 0 <= i < prev.len() && prev[i].id == id;
                assert(cur[u].id == id);
            }
            assert(cur[cur.len() - 1] == listing.last());
            if contains_id(cur, id) && listing.last().id != id {
                let u = choose|i: int| 0 <= i < cur.len() && cur[i].id == id;
                assert(prev[u].id == id);
            }
        }
    }
}

/// Reconciliation preserves uniqueness of external ids.
pub proof fn lemma_sync_unique(rows: Seq<DirEntry>, listing: Seq<DirEntry>)
    requires
        ids_unique(rows),
    ensures
        ids_unique(sync_spec(rows, listing)),
    decreases listing.len(),
{
    if listing.len() > 0 {
        lemma_sync_unique(rows, listing.drop_last());
        let prev = sync_spec(rows, listing.drop_last());
        if !contains_id(prev, listing.last().id) {
            let cur = prev.push(listing.last());
            assert forall|i: int, j: int| 0 <= i < j < cur.len() implies cur[i].id != cur[j].id by {
                if j == cur.len() - 1 {
                    assert(!contains_id(prev, listing.last().id));
                    assert(prev[i].id != listing.last().id);
                }
            }
        }
    }
}

/// Reconciling the same listing a second time changes nothing: the second
/// delta is empty.
pub proof fn lemma_sync_idempotent(rows: Seq<DirEntry>, listing: Seq<DirEntry>)
    ensures
        sync_spec(sync_spec(rows, listing), listing) == sync_spec(rows, listing),
        delta_spec(sync_spec(rows, listing), listing) == Seq::<DirEntry>::empty(),
{
    let once = sync_spec(rows, listing);
    lemma_sync_absorbed(rows, listing, listing);
    assert(delta_spec(once, listing) =~= Seq::<DirEntry>::empty());
}

/// Generalisation behind idempotence: reconciling any listing whose ids are
/// all already mirrored changes nothing.
proof fn lemma_sync_noop(rows: Seq<DirEntry>, listing: Seq<DirEntry>)
    requires
        forall|i: int| 0 <= i < listing.len() ==> contains_id(rows, #[trigger] listing[i].id),
    ensures
        sync_spec(rows, listing) == rows,
    decreases listing.len(),
{
    if listing.len() > 0 {
        assert forall|i: int| 0 <= i < listing.drop_last().len() implies contains_id(
            rows,
            #[trigger] listing.drop_last()[i].id,
        ) by {
            assert(listing.drop_last()[i] == listing[i]);
        }
        lemma_sync_noop(rows, listing.drop_last());
        assert(listing[listing.len() - 1] == listing.last());
    }
}

/// After reconciling `first`, reconciling any `second` whose ids all occur in
/// `first` (or were already mirrored) changes nothing further.
proof fn lemma_sync_absorbed(rows: Seq<DirEntry>, first: Seq<DirEntry>, second: Seq<DirEntry>)
    requires
        forall|i: int|
            0 <= i < second.len() ==> contains_id(rows, #[trigger] second[i].id) || contains_id(
                first,
                second[i].id,
            ),
    ensures
        sync_spec(sync_spec(rows, first), second) == sync_spec(rows, first),
{
    let once = sync_spec(rows, first);
    assert forall|i: int| 0 <= i < second.len() implies contains_id(
        once,
        #[trigger] second[i].id,
    ) by {
        lemma_sync_contains(rows, first, second[i].id);
    }
    lemma_sync_noop(once, second);
}

/// Race safety of concurrent reconciliation, modelled as sequential
/// composition: when two listings race to introduce the same new external
/// id, the mirror ends up with exactly one row for that id, and both
/// reconciliations complete (neither is an error: `sync_spec` is total).
pub proof fn lemma_sync_race(
    rows: Seq<DirEntry>,
    first: Seq<DirEntry>,
    second: Seq<DirEntry>,
    id: Seq<char>,
)
    requires
        ids_unique(rows),
        contains_id(first, id) || contains_id(second, id),
    ensures
        count_id(sync_spec(sync_spec(rows, first), second), id) == 1,
{
    let both = sync_spec(sync_spec(rows, first), second);
    lemma_sync_unique(rows, first);
    lemma_sync_unique(sync_spec(rows, first), second);
    lemma_sync_contains(rows, first, id);
    lemma_sync_contains(sync_spec(rows, first), second, id);
    lemma_count_unique(both, id);
}

/// With unique ids, an id that occurs at all occurs exactly once.
pub proof fn lemma_count_unique(rows: Seq<DirEntry>, id: Seq<char>)
    requires
        ids_unique(rows),
    ensures
        count_id(rows, id) == if contains_id(rows, id) {
            1nat
        } else {
            0nat
        },
    decreases rows.len(),
{
    if rows.len() > 0 {
        let head = rows.drop_last();
        assert(ids_unique(head));
        lemma_count_unique(head, id);
        if rows.last().id == id {
            assert forall|i: int| 0 <= i < head.len() implies head[i].id != id by {
                assert(rows[i].id != rows[rows.len() - 1].id);
            }
            assert(!contains_id(head, id));
            assert(contains_id(rows, id)) by {
                assert(rows[rows.len() - 1].id == id);
            }
        } else {
            if contains_id(head, id) {
                let w = choose|i: int| 0 <= i < head.len() && head[i].id == id;
                assert(rows[w].id == id);
            }
            if contains_id(rows, id) {
                let w = choose|i: int| 0 <= i < rows.len() && rows[i].id == id;
                assert(head[w].id == id);
            }
        }
    }
}

} // verus!
