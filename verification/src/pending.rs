//! The reorder buffer of the aggregator: the records that wait for earlier
//! ones, in an ordered map keyed by submission index.
use std::collections::BTreeMap;
use vstd::prelude::*;
use vstd::std_specs::cmp::OrdSpec;
use vstd::std_specs::iter::IteratorSpec;
use crate::aggregate::{
    ascending, find_pending, has_pair, insert_pending, lemma_find_exists, lemma_find_range,
    lemma_insert_keeps_pairs, lemma_insert_member, lemma_insert_order,
};
use crate::record::FileRecord;

verus! {

broadcast use {vstd::std_specs::btree::group_btree_axioms, vstd::laws_cmp::group_laws_cmp};

/// Whether a map holds exactly the entries of a list.
pub open spec fn map_holds(m: Map<usize, FileRecord>, p: Seq<(usize, FileRecord)>) -> bool {
    &&& forall|a: int|
        0 <= a < p.len() ==> m.contains_key((#[trigger] p[a]).0) && m[p[a].0] == p[a].1
    &&& forall|k: usize| #[trigger] m.contains_key(k) ==> find_pending(p, k as nat) >= 0
}

/// Whether a list of indices rises strictly.
pub open spec fn rising(s: Seq<usize>) -> bool {
    forall|i: int, j: int| 0 <= i < j < s.len() ==> s[i] < s[j]
}

/// The first keys of a traversal, as plain values.
pub open spec fn first_keys(all: Seq<&usize>, n: int) -> Seq<usize> {
    all.take(n).unref()
}

/// The length of a traversal.
pub open spec fn key_count(all: Seq<&usize>) -> int {
    all.len() as int
}

proof fn lemma_insert_linked(m: Map<usize, FileRecord>, p: Seq<(usize, FileRecord)>, i: usize, r: FileRecord)
    requires
        ascending(p),
        map_holds(m, p),
    ensures
        ascending(insert_pending(p, i, r)),
        map_holds(m.insert(i, r), insert_pending(p, i, r)),
{
    let q = insert_pending(p, i, r);
    let n = m.insert(i, r);
    lemma_insert_order(p, i, r, 0);
    lemma_insert_keeps_pairs(p, i, r, i as nat, r);
    let at = choose|a: int| 0 <= a < q.len() && (#[trigger] q[a]).0 == i && q[a].1 == r;
    assert forall|a: int| 0 <= a < q.len() implies n.contains_key((#[trigger] q[a]).0) && n[q[a].0]
        == q[a].1 by {
        lemma_insert_member(p, i, r, a);
        if q[a].0 == i {
            if a < at {
                assert(q[a].0 < q[at].0);
            }
            if at < a {
                assert(q[at].0 < q[a].0);
            }
        } else {
            let b = choose|b: int|
                0 <= b < p.len() && (#[trigger] p[b]).0 == q[a].0 && p[b].1 == q[a].1;
            assert(m.contains_key(p[b].0));
        }
    }
    assert forall|k: usize| #[trigger] n.contains_key(k) implies find_pending(q, k as nat) >= 0 by {
        if k == i {
            lemma_find_exists(q, k as nat, at);
        } else {
            assert(m.contains_key(k));
            lemma_find_range(p, k as nat);
            let b = find_pending(p, k as nat);
            assert(p[b].0 == k);
            lemma_insert_keeps_pairs(p, i, r, k as nat, p[b].1);
            let a = choose|a: int| 0 <= a < q.len() && (#[trigger] q[a]).0 == k && q[a].1 == p[b].1;
            lemma_find_exists(q, k as nat, a);
        }
    }
}

proof fn lemma_remove_linked(m: Map<usize, FileRecord>, p: Seq<(usize, FileRecord)>, j: int)
    requires
        ascending(p),
        map_holds(m, p),
        0 <= j < p.len(),
    ensures
        ascending(p.remove(j)),
        map_holds(m.remove(p[j].0), p.remove(j)),
{
    let q = p.remove(j);
    let n = m.remove(p[j].0);
    assert forall|a: int, b: int| 0 <= a < b < q.len() implies q[a].0 < q[b].0 by {
        let a0 = if a < j { a } else { a + 1 };
        let b0 = if b < j { b } else { b + 1 };
        assert(q[a] == p[a0] && q[b] == p[b0]);
    }
    assert forall|a: int| 0 <= a < q.len() implies n.contains_key((#[trigger] q[a]).0) && n[q[a].0]
        == q[a].1 by {
        let a0 = if a < j { a } else { a + 1 };
        assert(q[a] == p[a0]);
        assert(m.contains_key(p[a0].0));
        if a0 < j {
            assert(p[a0].0 < p[j].0);
        } else {
            assert(p[j].0 < p[a0].0);
        }
    }
    assert forall|k: usize| #[trigger] n.contains_key(k) implies find_pending(q, k as nat) >= 0 by {
        assert(m.contains_key(k));
        lemma_find_range(p, k as nat);
        let b = find_pending(p, k as nat);
        assert(p[b].0 == k);
        assert(b != j);
        let a = if b < j { b } else { b - 1 };
        assert(q[a] == p[b]);
        lemma_find_exists(q, k as nat, a);
    }
}

proof fn lemma_found_is_held(m: Map<usize, FileRecord>, p: Seq<(usize, FileRecord)>, k: usize)
    requires
        ascending(p),
        map_holds(m, p),
    ensures
        m.contains_key(k) == (find_pending(p, k as nat) >= 0),
        find_pending(p, k as nat) >= 0 ==> m[k] == p[find_pending(p, k as nat)].1,
{
    lemma_find_range(p, k as nat);
    let j = find_pending(p, k as nat);
    if j >= 0 {
        assert(m.contains_key(p[j].0));
    }
}

proof fn lemma_same_rising(keys: Seq<usize>, p: Seq<(usize, FileRecord)>)
    requires
        rising(keys),
        ascending(p),
        forall|x: usize| keys.contains(x) == (find_pending(p, x as nat) >= 0),
    ensures
        keys.len() == p.len(),
        forall|i: int| 0 <= i < keys.len() ==> keys[i] == (#[trigger] p[i]).0,
    decreases keys.len() + p.len(),
{
    if keys.len() == 0 {
        if p.len() > 0 {
            lemma_find_exists(p, p[0].0 as nat, 0);
            assert(keys.contains(p[0].0));
        }
    } else if p.len() == 0 {
        assert(keys[0] == keys[0]);
        assert(keys.contains(keys[0]));
    } else {
        assert(keys.contains(keys[0]));
        lemma_find_range(p, keys[0] as nat);
        let j = find_pending(p, keys[0] as nat);
        lemma_find_exists(p, p[0].0 as nat, 0);
        assert(keys.contains(p[0].0));
        let i = choose|i: int| 0 <= i < keys.len() && keys[i] == p[0].0;
        if i > 0 {
            assert(keys[0] < keys[i]);
        }
        if j > 0 {
            assert(p[0].0 < p[j].0);
        }
        assert(keys[0] == p[0].0);
        let rest_keys = keys.drop_first();
        let rest = p.drop_first();
        assert forall|a: int, b: int| 0 <= a < b < rest_keys.len() implies rest_keys[a]
            < rest_keys[b] by {
            assert(rest_keys[a] == keys[a + 1] && rest_keys[b] == keys[b + 1]);
        }
        assert forall|a: int, b: int| 0 <= a < b < rest.len() implies rest[a].0 < rest[b].0 by {
            assert(rest[a] == p[a + 1] && rest[b] == p[b + 1]);
        }
        assert forall|x: usize| rest_keys.contains(x) == (find_pending(rest, x as nat) >= 0) by {
            if rest_keys.contains(x) {
                let a = choose|a: int| 0 <= a < rest_keys.len() && rest_keys[a] == x;
                assert(keys[a + 1] == x);
                assert(keys[0] < keys[a + 1]);
                assert(keys.contains(x));
                lemma_find_range(p, x as nat);
                let b = find_pending(p, x as nat);
                assert(b > 0);
                assert(rest[b - 1] == p[b]);
                lemma_find_exists(rest, x as nat, b - 1);
            }
            if find_pending(rest, x as nat) >= 0 {
                lemma_find_range(rest, x as nat);
                let b = find_pending(rest, x as nat);
                assert(rest[b] == p[b + 1]);
                assert(p[0].0 < p[b + 1].0);
                lemma_find_exists(p, x as nat, b + 1);
                assert(keys.contains(x));
                let a = choose|a: int| 0 <= a < keys.len() && keys[a] == x;
                assert(a > 0);
                assert(rest_keys[a - 1] == keys[a]);
            }
        }
        lemma_same_rising(rest_keys, rest);
        assert forall|i: int| 0 <= i < keys.len() implies keys[i] == (#[trigger] p[i]).0 by {
            if i > 0 {
                assert(rest_keys[i - 1] == keys[i]);
                assert(rest[i - 1] == p[i]);
            }
        }
    }
}

fn sorted_keys(m: &BTreeMap<usize, FileRecord>) -> (keys: Vec<usize>)
    ensures
        rising(keys@),
        keys@.to_set() == m@.dom(),
{
    let mut keys: Vec<usize> = Vec::new();
    let ghost all = vstd::std_specs::btree::spec_keys_iter(m).remaining();
    proof {
        vstd::std_specs::btree::axiom_spec_keys_iter(m);
        vstd::std_specs::btree::axiom_increasing_seq_meaning::<&usize>(all);
    }
    for k in it: m.keys()
        invariant
            it.seq() == all,
            keys@ == first_keys(all, it.index()),
    {
        keys.push(*k);
        assert(first_keys(all, it.index() + 1) =~= first_keys(all, it.index()).push(*k));
    }
    assert(first_keys(all, key_count(all)) =~= all.unref());
    assert forall|i: int, j: int| 0 <= i < j < keys@.len() implies keys@[i] < keys@[j] by {
        assert(OrdSpec::cmp_spec(&all[i], &all[j]) is Less);
    }
    keys
}

/// The records that wait for earlier ones.
pub struct PendingRecords {
    map: BTreeMap<usize, FileRecord>,
    order: Ghost<Seq<(usize, FileRecord)>>,
}

impl View for PendingRecords {
    type V = Seq<(usize, FileRecord)>;

    /// The entries in ascending index order.
    closed spec fn view(&self) -> Seq<(usize, FileRecord)> {
        self.order@
    }
}

impl PendingRecords {
    /// Whether the map holds exactly the entries of the view, each index
    /// once.
    pub closed spec fn consistent(&self) -> bool {
        ascending(self.order@) && map_holds(self.map@, self.order@)
    }

    /// A buffer that holds nothing.
    pub fn new() -> (p: Self)
        ensures
            p@ == Seq::<(usize, FileRecord)>::empty(),
            p.consistent(),
    {
        PendingRecords { map: BTreeMap::new(), order: Ghost(Seq::empty()) }
    }

    /// Files a record under an index; it replaces a record filed under the
    /// same index before.
    pub fn insert(&mut self, index: usize, r: FileRecord)
        requires
            old(self).consistent(),
        ensures
            final(self).consistent(),
            final(self)@ == insert_pending(old(self)@, index, r),
    {
        proof {
            lemma_insert_linked(self.map@, self.order@, index, r);
        }
        self.order = Ghost(insert_pending(self.order@, index, r));
        self.map.insert(index, r);
    }

    /// Takes out the record filed under an index, where there is one.
    pub fn take(&mut self, index: usize) -> (r: Option<FileRecord>)
        requires
            old(self).consistent(),
        ensures
            final(self).consistent(),
            find_pending(old(self)@, index as nat) < 0 ==> r is None && final(self)@ == old(self)@,
            find_pending(old(self)@, index as nat) >= 0 ==> r == Some(
                old(self)@[find_pending(old(self)@, index as nat)].1,
            ) && final(self)@ == old(self)@.remove(find_pending(old(self)@, index as nat)),
    {
        proof {
            lemma_found_is_held(self.map@, self.order@, index);
            lemma_find_range(self.order@, index as nat);
            if find_pending(self.order@, index as nat) >= 0 {
                lemma_remove_linked(self.map@, self.order@, find_pending(self.order@, index as nat));
            }
        }
        let r = self.map.remove(&index);
        proof {
            let j = find_pending(old(self).order@, index as nat);
            if j >= 0 {
                self.order@ = old(self).order@.remove(j);
            } else {
                assert(self.map@ =~= old(self).map@);
            }
        }
        r
    }

    /// Empties the buffer: all records with their indices, in ascending
    /// index order.
    pub fn into_sorted(self) -> (out: Vec<(usize, FileRecord)>)
        requires
            self.consistent(),
        ensures
            out@ == self@,
    {
        let keys = sorted_keys(&self.map);
        let ghost order = self.order@;
        proof {
            assert forall|x: usize| keys@.contains(x) == (find_pending(order, x as nat) >= 0) by {
                lemma_found_is_held(self.map@, order, x);
                assert(keys@.to_set().contains(x) == keys@.contains(x));
            }
            lemma_same_rising(keys@, order);
        }
        let mut map = self.map;
        let mut out: Vec<(usize, FileRecord)> = Vec::new();
        let mut i: usize = 0;
        while i < keys.len()
            invariant
                i <= keys.len(),
                keys@.len() == order.len(),
                forall|a: int| 0 <= a < keys@.len() ==> keys@[a] == (#[trigger] order[a]).0,
                ascending(order),
                out@ == order.take(i as int),
                forall|a: int|
                    i <= a < order.len() ==> map@.contains_key((#[trigger] order[a]).0)
                        && map@[order[a].0] == order[a].1,
            decreases keys.len() - i,
        {
            let k = keys[i];
            proof {
                assert(order[i as int].0 == k);
            }
            let ghost before = map@;
            let got = map.remove(&k);
            if let Some(r) = got {
                out.push((k, r));
            }
            proof {
                assert(out@ =~= order.take(i + 1));
                assert forall|a: int| i + 1 <= a < order.len() implies map@.contains_key(
                    (#[trigger] order[a]).0,
                ) && map@[order[a].0] == order[a].1 by {
                    assert(order[i as int].0 < order[a].0);
                    assert(before.contains_key(order[a].0));
                }
            }
            i = i + 1;
        }
        proof {
            assert(order.take(order.len() as int) =~= order);
        }
        out
    }
}

} // verus!
