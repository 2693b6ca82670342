//! Directory trees as they are found on disk, and what they add up to.
use crate::clock::{later, latest};
use vstd::prelude::*;

verus! {

/// Something that a directory lists.
pub enum Entry {
    /// A directory, with what it lists.
    Dir(DirNode),
    /// Anything that is not a directory (a file, a link), with its length and the time at which it
    /// was last modified.
    Leaf { len: u64, mtime: u128 },
    /// Something of which nothing can be read.
    Unreadable,
}

/// A directory. One that is missing, or cannot be listed, has no entries.
pub struct DirNode {
    /// When the directory was last modified, in milliseconds; 0 if that cannot be read.
    pub mtime: u128,
    /// What the directory lists, in the order in which it does.
    pub entries: Vec<Entry>,
}

/// The bytes in everything below a directory.
pub open spec fn tree_size(node: DirNode) -> nat
    decreases node,
{
    list_size(node.entries@)
}

/// The bytes in the entries of a list and everything below them.
pub open spec fn list_size(entries: Seq<Entry>) -> nat
    decreases entries,
{
    if entries.len() == 0 {
        0
    } else {
        list_size(entries.drop_last()) + entry_size(entries.last())
    }
}

/// The bytes in an entry and everything below it.
pub open spec fn entry_size(entry: Entry) -> nat
    decreases entry,
{
    match entry {
        Entry::Dir(node) => tree_size(node),
        Entry::Leaf { len, .. } => len as nat,
        Entry::Unreadable => 0,
    }
}

/// The times at which a directory and everything below it were last modified.
pub open spec fn tree_times(node: DirNode) -> Set<u128>
    decreases node,
{
    list_times(node.entries@).insert(node.mtime)
}

/// The times at which the entries of a list and everything below them were last modified.
pub open spec fn list_times(entries: Seq<Entry>) -> Set<u128>
    decreases entries,
{
    if entries.len() == 0 {
        Set::empty()
    } else {
        list_times(entries.drop_last()).union(entry_times(entries.last()))
    }
}

/// The times at which an entry and everything below it were last modified.
pub open spec fn entry_times(entry: Entry) -> Set<u128>
    decreases entry,
{
    match entry {
        Entry::Dir(node) => tree_times(node),
        Entry::Leaf { mtime, .. } => Set::empty().insert(mtime),
        Entry::Unreadable => Set::empty(),
    }
}

/// Whether `t` is the latest of some times.
pub open spec fn is_latest(t: u128, times: Set<u128>) -> bool {
    times.contains(t) && forall|u: u128| #[trigger] times.contains(u) ==> u <= t
}

/// The size of a directory and the latest time in it, or `None` where the size is beyond what 64
/// bits hold.
pub fn measure(node: &DirNode) -> (r: Option<(u64, u128)>)
    ensures
        match r {
            Some((size, mtime)) => size == tree_size(*node) && is_latest(mtime, tree_times(*node)),
            None => tree_size(*node) > u64::MAX,
        },
    decreases node,
{
    let mut size: u64 = 0;
    let mut mtime: u128 = node.mtime;
    let mut i: usize = 0;
    assert(node.entries@.take(0) =~= Seq::<Entry>::empty());
    let ghost all = node.entries@;
    while i < node.entries.len()
        invariant
            all == node.entries@,
            i <= all.len(),
            size == list_size(all.take(i as int)),
            is_latest(mtime, list_times(all.take(i as int)).insert(node.mtime)),
        decreases all.len() - i,
    {
        proof {
            assert(all.take(i + 1).drop_last() =~= all.take(i as int));
            lemma_list_size_grows(all, i + 1);
            assert(list_size(all.take(i + 1)) == list_size(all.take(i as int)) + entry_size(
                all[i as int],
            ));
            assert(tree_size(*node) == list_size(all));
        }
        let ghost times = list_times(all.take(i as int)).insert(node.mtime);
        let ghost more = list_times(all.take(i + 1)).insert(node.mtime);
        assert(more =~= times.union(entry_times(all[i as int])));
        match &node.entries[i] {
            Entry::Dir(sub) => {
                assert(entry_size(all[i as int]) == tree_size(*sub));
                match measure(sub) {
                    Some((s, t)) => {
                        match size.checked_add(s) {
                            Some(sum) => {
                                size = sum;
                            },
                            None => {
                                return None;
                            },
                        }
                        assert(entry_times(all[i as int]).contains(t));
                        mtime = latest(mtime, t);
                    },
                    None => {
                        return None;
                    },
                }
            },
            Entry::Leaf { len, mtime: t } => {
                match size.checked_add(*len) {
                    Some(sum) => {
                        size = sum;
                    },
                    None => {
                        return None;
                    },
                }
                assert(entry_times(all[i as int]).contains(*t));
                mtime = latest(mtime, *t);
            },
            Entry::Unreadable => {},
        }
        i += 1;
    }
    assert(all.take(i as int) =~= all);
    Some((size, mtime))
}

proof fn lemma_list_size_grows(entries: Seq<Entry>, n: int)
    requires
        0 <= n <= entries.len(),
    ensures
        list_size(entries.take(n)) <= list_size(entries),
    decreases entries.len(),
{
    if n < entries.len() {
        assert(entries.drop_last().take(n) =~= entries.take(n));
        lemma_list_size_grows(entries.drop_last(), n);
    } else {
        assert(entries.take(n) =~= entries);
    }
}

/// The size of a directory, in bytes, and the latest time at which anything in it was modified.
pub fn dir_stats(node: &DirNode) -> (r: (u64, u128))
    requires
        tree_size(*node) <= u64::MAX,
    ensures
        r.0 == tree_size(*node),
        is_latest(r.1, tree_times(*node)),
{
    measure(node).unwrap()
}

/// The order in which a directory lists its entries does not matter: neither the size nor the times
/// depend on it.
pub proof fn law_listing_order_is_irrelevant(a: DirNode, b: DirNode)
    requires
        a.mtime == b.mtime,
        a.entries@.to_multiset() == b.entries@.to_multiset(),
    ensures
        tree_size(a) == tree_size(b),
        tree_times(a) == tree_times(b),
{
    lemma_permuted_lists(a.entries@, b.entries@);
}

proof fn lemma_without(entries: Seq<Entry>, i: int)
    requires
        0 <= i < entries.len(),
    ensures
        list_size(entries) == list_size(entries.remove(i)) + entry_size(entries[i]),
        list_times(entries) == list_times(entries.remove(i)).union(entry_times(entries[i])),
    decreases entries.len(),
{
    if i == entries.len() - 1 {
        assert(entries.remove(i) =~= entries.drop_last());
    } else {
        let shorter = entries.drop_last();
        lemma_without(shorter, i);
        assert(entries.remove(i).drop_last() =~= shorter.remove(i));
        assert(entries.remove(i).last() == entries.last());
        assert(list_times(entries) =~= list_times(entries.remove(i)).union(
            entry_times(entries[i]),
        ));
    }
}

proof fn lemma_permuted_lists(a: Seq<Entry>, b: Seq<Entry>)
    requires
        a.to_multiset() == b.to_multiset(),
    ensures
        list_size(a) == list_size(b),
        list_times(a) == list_times(b),
    decreases a.len(),
{
    broadcast use vstd::seq_lib::group_to_multiset_ensures;

    vstd::seq_lib::to_multiset_len(a);
    vstd::seq_lib::to_multiset_len(b);
    if a.len() > 0 {
        let x = a.last();
        assert(a.to_multiset().contains(x)) by {
            assert(a.contains(x));
        }
        assert(b.contains(x));
        let i = choose|i: int| 0 <= i < b.len() && b[i] == x;
        let shorter = b.remove(i);
        assert(a.drop_last() =~= a.remove(a.len() - 1));
        assert(a.drop_last().to_multiset() =~= shorter.to_multiset());
        lemma_permuted_lists(a.drop_last(), shorter);
        lemma_without(b, i);
    }
}

/// A directory has exactly one latest time.
pub proof fn law_latest_is_unique(t: u128, u: u128, times: Set<u128>)
    requires
        is_latest(t, times),
        is_latest(u, times),
    ensures
        t == u,
{
}

/// Sizes add up: the entries of two lists together take what each of the lists takes.
pub proof fn law_sizes_add_up(a: Seq<Entry>, b: Seq<Entry>)
    ensures
        list_size(a + b) == list_size(a) + list_size(b),
    decreases b.len(),
{
    if b.len() > 0 {
        law_sizes_add_up(a, b.drop_last());
        assert((a + b).drop_last() =~= a + b.drop_last());
        assert((a + b).last() == b.last());
    } else {
        assert(a + b =~= a);
    }
}

/// A file takes its length, a directory what is in it, and what cannot be read takes nothing.
pub proof fn law_size_of_an_entry(node: DirNode, len: u64, mtime: u128)
    ensures
        list_size(seq![Entry::Leaf { len, mtime }]) == len,
        list_size(seq![Entry::Dir(node)]) == list_size(node.entries@),
        list_size(seq![Entry::Unreadable]) == 0,
        list_size(Seq::empty()) == 0,
        tree_size(node) == list_size(node.entries@),
{
    lemma_list_of_one(Entry::Leaf { len, mtime });
    lemma_list_of_one(Entry::Dir(node));
    lemma_list_of_one(Entry::Unreadable);
    assert(entry_size(Entry::Dir(node)) == tree_size(node));
}

proof fn lemma_list_of_one(e: Entry)
    ensures
        list_size(seq![e]) == entry_size(e),
        list_times(seq![e]) == entry_times(e),
{
    assert(seq![e].drop_last() =~= Seq::<Entry>::empty());
    assert(list_size(seq![e].drop_last()) == 0);
    assert(list_times(seq![e].drop_last()) == Set::<u128>::empty());
    assert(list_times(seq![e]) =~= entry_times(e));
}

/// The times of two lists together are the times of each of the lists.
pub proof fn law_times_come_together(a: Seq<Entry>, b: Seq<Entry>)
    ensures
        list_times(a + b) == list_times(a).union(list_times(b)),
    decreases b.len(),
{
    if b.len() > 0 {
        law_times_come_together(a, b.drop_last());
        assert((a + b).drop_last() =~= a + b.drop_last());
        assert((a + b).last() == b.last());
        assert(list_times(a + b) =~= list_times(a).union(list_times(b)));
    } else {
        assert(a + b =~= a);
        assert(list_times(a + b) =~= list_times(a).union(list_times(b)));
    }
}

/// A file has its own time; a directory has its own and those of everything in it; what cannot be read
/// has none. The latest of some times is one of them, and none of them is later.
pub proof fn law_times_of_an_entry(
    node: DirNode,
    len: u64,
    mtime: u128,
    latest: u128,
    times: Set<u128>,
    t: u128,
)
    ensures
        list_times(seq![Entry::Leaf { len, mtime }]).contains(t) == (t == mtime),
        list_times(seq![Entry::Dir(node)]).contains(t) == (t == node.mtime || list_times(
            node.entries@,
        ).contains(t)),
        !list_times(seq![Entry::Unreadable]).contains(t),
        !list_times(Seq::empty()).contains(t),
        tree_times(node).contains(t) == (t == node.mtime || list_times(node.entries@).contains(t)),
        is_latest(latest, times) && times.contains(t) ==> t <= latest,
        is_latest(latest, times) ==> times.contains(latest),
{
    lemma_list_of_one(Entry::Leaf { len, mtime });
    lemma_list_of_one(Entry::Dir(node));
    lemma_list_of_one(Entry::Unreadable);
    assert(entry_times(Entry::Dir(node)) == tree_times(node));
}

} // verus!
