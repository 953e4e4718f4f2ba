//! The change notification: how one snapshot differs from the one before it,
//! told as a single replaced range.

use crate::snapshot::Snapshot;
use vstd::prelude::*;

verus! {

/// How many leading elements two sequences share.
pub open spec fn common_prefix_len<T>(a: Seq<T>, b: Seq<T>) -> nat
    decreases a.len(),
{
    if a.len() > 0 && b.len() > 0 && a[0] == b[0] {
        1 + common_prefix_len(a.skip(1), b.skip(1))
    } else {
        0
    }
}

/// How many trailing elements two sequences share.
pub open spec fn common_suffix_len<T>(a: Seq<T>, b: Seq<T>) -> nat
    decreases a.len(),
{
    if a.len() > 0 && b.len() > 0 && a.last() == b.last() {
        1 + common_suffix_len(a.drop_last(), b.drop_last())
    } else {
        0
    }
}

/// Where the replaced range starts: after the longest common prefix.
pub open spec fn diff_position<T>(old_items: Seq<T>, new_items: Seq<T>) -> nat {
    common_prefix_len(old_items, new_items)
}

/// How many trailing elements stay, the common prefix set aside.
pub open spec fn diff_kept_tail<T>(old_items: Seq<T>, new_items: Seq<T>) -> nat {
    let p = diff_position(old_items, new_items) as int;
    common_suffix_len(old_items.skip(p), new_items.skip(p))
}

/// How many elements of the old sequence the range replaces.
pub open spec fn diff_removed<T>(old_items: Seq<T>, new_items: Seq<T>) -> nat {
    (old_items.len() - diff_position(old_items, new_items) - diff_kept_tail(
        old_items,
        new_items,
    )) as nat
}

/// How many elements of the new sequence stand in their place.
pub open spec fn diff_added<T>(old_items: Seq<T>, new_items: Seq<T>) -> nat {
    (new_items.len() - diff_position(old_items, new_items) - diff_kept_tail(
        old_items,
        new_items,
    )) as nat
}

/// One contiguous replacement: at `position`, `removed` elements went and
/// `added` elements came.
#[derive(Clone, Copy, Debug, PartialEq, Eq, Structural)]
pub struct Change {
    pub position: usize,
    pub removed: usize,
    pub added: usize,
}

impl Change {
    /// Whether this is the notification for going from `old_items` to
    /// `new_items`.
    pub open spec fn describes<T>(self, old_items: Seq<T>, new_items: Seq<T>) -> bool {
        &&& self.position == diff_position(old_items, new_items)
        &&& self.removed == diff_removed(old_items, new_items)
        &&& self.added == diff_added(old_items, new_items)
    }

    /// Whether nothing went and nothing came, so that an observer has
    /// nothing to do.
    pub fn is_empty(&self) -> (empty: bool)
        ensures
            empty == (self.removed == 0 && self.added == 0),
    {
        self.removed == 0 && self.added == 0
    }
}

/// The common prefix is common, and nothing longer is: it is no longer than
/// either sequence, the two agree on it, and right after it they differ
/// unless one of them ends there.
pub proof fn lemma_common_prefix<T>(a: Seq<T>, b: Seq<T>)
    ensures
        ({
            let p = common_prefix_len(a, b) as int;
            &&& p <= a.len()
            &&& p <= b.len()
            &&& a.take(p) == b.take(p)
            &&& p < a.len() && p < b.len() ==> a[p] != b[p]
        }),
    decreases a.len(),
{
    let p = common_prefix_len(a, b) as int;
    if a.len() > 0 && b.len() > 0 && a[0] == b[0] {
        lemma_common_prefix(a.skip(1), b.skip(1));
        let a_head = a.take(p);
        let b_head = b.take(p);
        assert forall|i: int| 0 <= i < p implies a_head[i] == b_head[i] by {
            if i > 0 {
                assert(a.skip(1).take(p - 1)[i - 1] == b.skip(1).take(p - 1)[i - 1]);
            }
        }
        assert(a_head =~= b_head);
        if p < a.len() && p < b.len() {
            assert(a.skip(1)[p - 1] == a[p]);
            assert(b.skip(1)[p - 1] == b[p]);
        }
    } else {
        assert(a.take(0) =~= b.take(0));
    }
}

/// A length that meets that description is the length of the common prefix.
pub proof fn lemma_common_prefix_unique<T>(a: Seq<T>, b: Seq<T>, p: nat)
    requires
        p <= a.len(),
        p <= b.len(),
        a.take(p as int) == b.take(p as int),
        p < a.len() && p < b.len() ==> a[p as int] != b[p as int],
    ensures
        p == common_prefix_len(a, b),
    decreases a.len(),
{
    if p > 0 {
        assert(a[0] == a.take(p as int)[0]);
        assert(b[0] == b.take(p as int)[0]);
        let a_rest = a.skip(1);
        let b_rest = b.skip(1);
        let a_head = a_rest.take(p - 1);
        let b_head = b_rest.take(p - 1);
        let a_whole = a.take(p as int);
        let b_whole = b.take(p as int);
        assert forall|i: int| 0 <= i < p - 1 implies a_head[i] == b_head[i] by {
            assert(a_head[i] == a_whole[i + 1]);
            assert(b_head[i] == b_whole[i + 1]);
        }
        assert(a_head =~= b_head);
        if p < a.len() && p < b.len() {
            assert(a_rest[p - 1] == a[p as int]);
            assert(b_rest[p - 1] == b[p as int]);
        }
        lemma_common_prefix_unique(a_rest, b_rest, (p - 1) as nat);
    }
}

/// The common suffix is common, and nothing longer is.
pub proof fn lemma_common_suffix<T>(a: Seq<T>, b: Seq<T>)
    ensures
        ({
            let s = common_suffix_len(a, b) as int;
            &&& s <= a.len()
            &&& s <= b.len()
            &&& a.skip(a.len() - s) == b.skip(b.len() - s)
            &&& s < a.len() && s < b.len() ==> a[a.len() - 1 - s] != b[b.len() - 1 - s]
        }),
    decreases a.len(),
{
    let s = common_suffix_len(a, b) as int;
    let m = a.len() as int;
    let n = b.len() as int;
    if a.len() > 0 && b.len() > 0 && a.last() == b.last() {
        let a1 = a.drop_last();
        let b1 = b.drop_last();
        lemma_common_suffix(a1, b1);
        let a_tail = a.skip(m - s);
        let b_tail = b.skip(n - s);
        assert forall|i: int| 0 <= i < s implies a_tail[i] == b_tail[i] by {
            if i < s - 1 {
                assert(a1.skip(m - s)[i] == b1.skip(n - s)[i]);
            }
        }
        assert(a_tail =~= b_tail);
        if s < m && s < n {
            assert(a1[m - 1 - s] == a[m - 1 - s]);
            assert(b1[n - 1 - s] == b[n - 1 - s]);
        }
    } else {
        assert(a.skip(m) =~= b.skip(n));
    }
}

/// A length that meets that description is the length of the common suffix.
pub proof fn lemma_common_suffix_unique<T>(a: Seq<T>, b: Seq<T>, s: nat)
    requires
        s <= a.len(),
        s <= b.len(),
        a.skip(a.len() - s) == b.skip(b.len() - s),
        s < a.len() && s < b.len() ==> a[a.len() - 1 - s] != b[b.len() - 1 - s],
    ensures
        s == common_suffix_len(a, b),
    decreases a.len(),
{
    if s > 0 {
        let a_tail = a.skip(a.len() - s);
        let b_tail = b.skip(b.len() - s);
        assert(a_tail[s - 1] == b_tail[s - 1]);
        let a1 = a.drop_last();
        let b1 = b.drop_last();
        let a1_tail = a1.skip(a1.len() - (s - 1));
        let b1_tail = b1.skip(b1.len() - (s - 1));
        assert forall|i: int| 0 <= i < s - 1 implies a1_tail[i] == b1_tail[i] by {
            assert(a_tail[i] == b_tail[i]);
        }
        assert(a1_tail =~= b1_tail);
        lemma_common_suffix_unique(a1, b1, (s - 1) as nat);
    }
}

/// No common prefix is longer than the one the notification starts after.
pub proof fn lemma_diff_position_is_largest<T>(old_items: Seq<T>, new_items: Seq<T>, p: nat)
    requires
        p <= old_items.len(),
        p <= new_items.len(),
        old_items.take(p as int) == new_items.take(p as int),
    ensures
        p <= diff_position(old_items, new_items),
{
    let q = common_prefix_len(old_items, new_items) as int;
    lemma_common_prefix(old_items, new_items);
    if q < p {
        assert(old_items.take(p as int)[q] == old_items[q]);
        assert(new_items.take(p as int)[q] == new_items[q]);
    }
}

/// No common suffix that leaves the common prefix alone is longer than the
/// one the notification keeps.
pub proof fn lemma_diff_kept_tail_is_largest<T>(old_items: Seq<T>, new_items: Seq<T>, s: nat)
    requires
        diff_position(old_items, new_items) + s <= old_items.len(),
        diff_position(old_items, new_items) + s <= new_items.len(),
        old_items.skip(old_items.len() - s) == new_items.skip(new_items.len() - s),
    ensures
        s <= diff_kept_tail(old_items, new_items),
{
    let p = diff_position(old_items, new_items) as int;
    let a = old_items.skip(p);
    let b = new_items.skip(p);
    let t = common_suffix_len(a, b) as int;
    lemma_common_suffix(a, b);
    if t < s {
        let m = old_items.len() as int;
        let n = new_items.len() as int;
        assert(old_items.skip(m - s)[s - 1 - t] == old_items[m - 1 - t]);
        assert(new_items.skip(n - s)[s - 1 - t] == new_items[n - 1 - t]);
        assert(a[a.len() - 1 - t] == old_items[m - 1 - t]);
        assert(b[b.len() - 1 - t] == new_items[n - 1 - t]);
    }
}

/// What a notification promises its observer: the replaced range lies
/// within both snapshots, and the new snapshot is the old one with that
/// range exchanged.
pub proof fn lemma_diff_patches<T>(old_items: Seq<T>, new_items: Seq<T>)
    ensures
        ({
            let position = diff_position(old_items, new_items) as int;
            let removed = diff_removed(old_items, new_items) as int;
            let added = diff_added(old_items, new_items) as int;
            &&& position + removed <= old_items.len()
            &&& position + added <= new_items.len()
            &&& old_items.len() - removed == new_items.len() - added
            &&& new_items == old_items.take(position) + new_items.subrange(
                position,
                position + added,
            ) + old_items.skip(position + removed)
        }),
{
    let p = diff_position(old_items, new_items) as int;
    let a = old_items.skip(p);
    let b = new_items.skip(p);
    let s = common_suffix_len(a, b) as int;
    let m = old_items.len() as int;
    let n = new_items.len() as int;
    lemma_common_prefix(old_items, new_items);
    lemma_common_suffix(a, b);
    let patched = old_items.take(p) + new_items.subrange(p, n - s) + old_items.skip(m - s);
    assert forall|i: int| 0 <= i < n implies new_items[i] == patched[i] by {
        if i < p {
            assert(old_items.take(p)[i] == new_items.take(p)[i]);
        } else if i >= n - s {
            assert(a.skip(a.len() - s)[i - (n - s)] == b.skip(b.len() - s)[i - (n - s)]);
        }
    }
    assert(new_items =~= patched);
}

/// Reading a table that did not change gives a notification in which
/// nothing went and nothing came.
pub proof fn lemma_diff_of_identical<T>(items: Seq<T>)
    ensures
        diff_position(items, items) == items.len(),
        diff_removed(items, items) == 0,
        diff_added(items, items) == 0,
{
    lemma_common_prefix_unique(items, items, items.len());
    lemma_common_suffix(items.skip(items.len() as int), items.skip(items.len() as int));
}

/// Nothing went and nothing came exactly when the two snapshots are the
/// same.
pub proof fn lemma_diff_empty_iff_identical<T>(old_items: Seq<T>, new_items: Seq<T>)
    ensures
        (diff_removed(old_items, new_items) == 0 && diff_added(old_items, new_items) == 0) <==> old_items
            == new_items,
{
    if old_items == new_items {
        lemma_diff_of_identical(old_items);
    }
    if diff_removed(old_items, new_items) == 0 && diff_added(old_items, new_items) == 0 {
        lemma_diff_patches(old_items, new_items);
        let p = diff_position(old_items, new_items) as int;
        assert(new_items.subrange(p, p) =~= Seq::<T>::empty());
        assert(old_items =~= old_items.take(p) + Seq::<T>::empty() + old_items.skip(p));
    }
}

/// The notification for going from one snapshot to another: the replaced
/// range starts after the longest common prefix and ends before the longest
/// common suffix of what is left, so that the new snapshot is the old one
/// with that range exchanged.
pub fn diff(old_snapshot: &Snapshot, new_snapshot: &Snapshot) -> (change: Change)
    ensures
        change.describes(old_snapshot@, new_snapshot@),
        change.position + change.removed <= old_snapshot@.len(),
        change.position + change.added <= new_snapshot@.len(),
        old_snapshot@.len() - change.removed == new_snapshot@.len() - change.added,
        new_snapshot@ == old_snapshot@.take(change.position as int) + new_snapshot@.subrange(
            change.position as int,
            change.position + change.added,
        ) + old_snapshot@.skip(change.position + change.removed),
        change.position < old_snapshot@.len() && change.position < new_snapshot@.len()
            ==> old_snapshot@[change.position as int] != new_snapshot@[change.position as int],
        change.removed > 0 && change.added > 0 ==> old_snapshot@[change.position
            + change.removed - 1] != new_snapshot@[change.position + change.added - 1],
{
    let m = old_snapshot.len();
    let n = new_snapshot.len();
    let limit = if m < n {
        m
    } else {
        n
    };
    let mut p: usize = 0;
    while p < limit
        invariant
            m == old_snapshot@.len(),
            n == new_snapshot@.len(),
            limit <= m,
            limit <= n,
            p <= limit,
            forall|i: int| 0 <= i < p ==> old_snapshot@[i] == new_snapshot@[i],
        ensures
            p <= limit,
            forall|i: int| 0 <= i < p ==> old_snapshot@[i] == new_snapshot@[i],
            p < limit ==> old_snapshot@[p as int] != new_snapshot@[p as int],
        decreases limit - p,
    {
        if !old_snapshot.same_entry(p, new_snapshot, p) {
            break ;
        }
        p += 1;
    }
    let room = limit - p;
    let mut s: usize = 0;
    while s < room
        invariant
            m == old_snapshot@.len(),
            n == new_snapshot@.len(),
            p + room <= m,
            p + room <= n,
            s <= room,
            forall|i: int| m - s <= i < m ==> old_snapshot@[i] == new_snapshot@[i - m + n],
        ensures
            s <= room,
            forall|i: int| m - s <= i < m ==> old_snapshot@[i] == new_snapshot@[i - m + n],
            s < room ==> old_snapshot@[m - 1 - s] != new_snapshot@[n - 1 - s],
        decreases room - s,
    {
        if !old_snapshot.same_entry(m - 1 - s, new_snapshot, n - 1 - s) {
            break ;
        }
        s += 1;
    }
    proof {
        let old_rest = old_snapshot@.skip(p as int);
        let new_rest = new_snapshot@.skip(p as int);
        assert(old_snapshot@.take(p as int) =~= new_snapshot@.take(p as int));
        lemma_common_prefix_unique(old_snapshot@, new_snapshot@, p as nat);
        let old_tail = old_rest.skip(old_rest.len() - s);
        let new_tail = new_rest.skip(new_rest.len() - s);
        assert forall|i: int| 0 <= i < s implies old_tail[i] == new_tail[i] by {
            assert(old_tail[i] == old_snapshot@[m - s + i]);
            assert(new_tail[i] == new_snapshot@[n - s + i]);
        }
        assert(old_tail =~= new_tail);
        if s < old_rest.len() && s < new_rest.len() {
            assert(old_rest[old_rest.len() - 1 - s] == old_snapshot@[m - 1 - s]);
            assert(new_rest[new_rest.len() - 1 - s] == new_snapshot@[n - 1 - s]);
            if s == room {
                assert(p + s == limit);
            }
        }
        lemma_common_suffix_unique(old_rest, new_rest, s as nat);
        lemma_diff_patches(old_snapshot@, new_snapshot@);
        lemma_common_prefix(old_snapshot@, new_snapshot@);
    }
    Change { position: p, removed: m - p - s, added: n - p - s }
}

} // verus!
