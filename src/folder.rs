use vstd::prelude::*;
use crate::media::{Media, sources, densely_indexed, fresh, found};
use crate::order::{reorder, sorted_by_source, adjacent_sorted, unindexed};

verus! {

/// The channel's playout state: the current list, the play cursor into it
/// and the ordering setting read at every round.
pub struct ChannelManager {
    pub current_list: Vec<Media>,
    pub current_index: usize,
    pub shuffle: bool,
}

impl ChannelManager {
    /// An empty channel with its cursor at the start.
    pub fn new(shuffle: bool) -> (r: ChannelManager)
        ensures
            r.current_list@.len() == 0,
            r.current_index == 0,
            r.shuffle == shuffle,
    {
        ChannelManager { current_list: Vec::new(), current_index: 0, shuffle }
    }
}

/// The roots to scan: the configured storage paths in generate mode when
/// there are any, otherwise the single global storage path.
pub fn storage_roots(generate: bool, paths: &Vec<String>, storage_path: &String) -> (r: Vec<String>)
    ensures
        generate && paths@.len() > 0 ==> r@ == paths@,
        !(generate && paths@.len() > 0) ==> r@ == seq![*storage_path],
{
    let mut r: Vec<String> = Vec::new();
    if generate && paths.len() > 0 {
        let mut i: usize = 0;
        while i < paths.len()
            invariant
                i <= paths@.len(),
                r@ == paths@.subrange(0, i as int),
            decreases paths@.len() - i,
        {
            r.push(paths[i].clone());
            i = i + 1;
            assert(r@ =~= paths@.subrange(0, i as int));
        }
        assert(r@ =~= paths@);
    } else {
        r.push(storage_path.clone());
        assert(r@ =~= seq![*storage_path]);
    }
    r
}

/// The cursor after one dispatch on a list of `len` items.
pub open spec fn step_cursor(i: int, len: int) -> int {
    if i < len {
        i + 1
    } else {
        1
    }
}

/// The cursor after `k` dispatches from `i`.
pub open spec fn cursor_after(i: int, len: int, k: nat) -> int
    decreases k,
{
    if k == 0 {
        i
    } else {
        step_cursor(cursor_after(i, len, (k - 1) as nat), len)
    }
}

/// `r` is `m` as dispatched at time `now`.
pub open spec fn dispatched(r: Media, m: Media, now: u64) -> bool {
    &&& r.source == m.source
    &&& r.index == m.index
    &&& r.seek == m.seek
    &&& r.out == m.out
    &&& r.begin == Some(now)
    &&& (r.cmd is Some <==> m.cmd is Some)
    &&& (m.cmd is Some ==> r.cmd->0@ == m.cmd->0@)
    &&& (r.filter is Some <==> m.filter is Some)
    &&& (m.filter is Some ==> r.filter->0@ == m.filter->0@)
}

/// A source that hands out the items of a folder scan, forever, and
/// re-orders them at the start of every round.
pub struct FolderSource {
    pub manager: ChannelManager,
    pub current_node: Media,
}

fn blank_media() -> (r: Media)
    ensures
        r.source@.len() == 0,
        r.index == Some(0usize),
{
    proof {
        reveal_strlit("");
    }
    Media::new(0, "")
}

impl FolderSource {
    /// Builds the list from the files found under the storage paths: one
    /// item per file, shuffled or in raw path order, indexed densely, and
    /// installed as the channel's list.
    pub fn new(files: &Vec<String>, manager: ChannelManager) -> (r: FolderSource)
        ensures
            r.manager.current_list@.len() == files@.len(),
            unindexed(r.manager.current_list@).to_multiset() == fresh(files@).to_multiset(),
            sources(r.manager.current_list@).to_multiset() == files@.map_values(
                |s: String| s@,
            ).to_multiset(),
            densely_indexed(r.manager.current_list@),
            !manager.shuffle ==> sorted_by_source(r.manager.current_list@, false),
            r.manager.current_index == manager.current_index,
            r.manager.shuffle == manager.shuffle,
    {
        let mut list: Vec<Media> = Vec::new();
        let mut i: usize = 0;
        while i < files.len()
            invariant
                i <= files@.len(),
                list@.len() == i,
                sources(list@) == files@.subrange(0, i as int).map_values(|s: String| s@),
                forall|k: int| 0 <= k < i ==> (#[trigger] list@[k]).source == files@[k] && list@[k].index
                    == Some(0usize) && list@[k].seek == 0 && list@[k].out == 0 && list@[k].begin is None
                    && list@[k].cmd is None && list@[k].filter is None,
            decreases files@.len() - i,
        {
            let m = found(0, &files[i]);
            let ghost prev = list@;
            list.push(m);
            assert(list@ == prev.push(m));
            assert(sources(list@) =~= sources(prev).push(files@[i as int]@));
            assert(files@.subrange(0, i + 1) =~= files@.subrange(0, i as int).push(files@[i as int]));
            i = i + 1;
            assert(sources(list@) =~= files@.subrange(0, i as int).map_values(|s: String| s@));
        }
        assert(files@.subrange(0, i as int) =~= files@);
        assert(unindexed(list@) =~= fresh(files@));
        reorder(&mut list, manager.shuffle, false);
        let mut manager = manager;
        manager.current_list = list;
        FolderSource { manager, current_node: blank_media() }
    }

    /// Adopts a list made elsewhere as the channel's list, as it is.
    pub fn from_list(manager: ChannelManager, list: Vec<Media>) -> (r: FolderSource)
        ensures
            r.manager.current_list@ == list@,
            r.manager.current_index == manager.current_index,
            r.manager.shuffle == manager.shuffle,
    {
        let mut manager = manager;
        manager.current_list = list;
        FolderSource { manager, current_node: blank_media() }
    }

    /// Shuffles the channel's list and re-indexes it.
    pub fn shuffle(&mut self)
        ensures
            final(self).manager.current_list@.len() == old(self).manager.current_list@.len(),
            unindexed(final(self).manager.current_list@).to_multiset() == unindexed(
                old(self).manager.current_list@,
            ).to_multiset(),
            sources(final(self).manager.current_list@).to_multiset() == sources(
                old(self).manager.current_list@,
            ).to_multiset(),
            densely_indexed(final(self).manager.current_list@),
            final(self).manager.current_index == old(self).manager.current_index,
            final(self).manager.shuffle == old(self).manager.shuffle,
    {
        reorder(&mut self.manager.current_list, true, false);
    }

    /// Sorts the channel's list in raw path order, stably, and re-indexes
    /// it; a list that is already so is left as it is.
    pub fn sort(&mut self)
        ensures
            final(self).manager.current_list@.len() == old(self).manager.current_list@.len(),
            unindexed(final(self).manager.current_list@).to_multiset() == unindexed(
                old(self).manager.current_list@,
            ).to_multiset(),
            sources(final(self).manager.current_list@).to_multiset() == sources(
                old(self).manager.current_list@,
            ).to_multiset(),
            densely_indexed(final(self).manager.current_list@),
            sorted_by_source(final(self).manager.current_list@, false),
            adjacent_sorted(old(self).manager.current_list@, false) && densely_indexed(
                old(self).manager.current_list@,
            ) ==> final(self).manager.current_list@ == old(self).manager.current_list@,
            final(self).manager.current_index == old(self).manager.current_index,
            final(self).manager.shuffle == old(self).manager.shuffle,
    {
        reorder(&mut self.manager.current_list, false, false);
    }

    /// Hands out the next item, stamped with the dispatch time `now`. When
    /// the cursor has reached the end, the list is first re-ordered for a
    /// new round (shuffled, or sorted in raw path order) and its first item
    /// is handed out.
    pub fn next(&mut self, now: u64) -> (r: Media)
        requires
            old(self).manager.current_list@.len() > 0,
        ensures
            ({
                let l0 = old(self).manager.current_list@;
                let l1 = final(self).manager.current_list@;
                let i = old(self).manager.current_index;
                &&& final(self).manager.current_index == step_cursor(i as int, l0.len() as int)
                &&& final(self).manager.current_index <= l1.len()
                &&& final(self).manager.shuffle == old(self).manager.shuffle
                &&& l1.len() == l0.len()
                &&& dispatched(final(self).current_node, r, now)
                &&& i < l0.len() ==> l1 == l0 && dispatched(r, l0[i as int], now)
                &&& i >= l0.len() ==> {
                    &&& unindexed(l1).to_multiset() == unindexed(l0).to_multiset()
                    &&& sources(l1).to_multiset() == sources(l0).to_multiset()
                    &&& densely_indexed(l1)
                    &&& !old(self).manager.shuffle ==> sorted_by_source(l1, false)
                    &&& dispatched(r, l1[0], now)
                }
            }),
    {
        let len: usize = self.manager.current_list.len();
        let i: usize = self.manager.current_index;
        let pos: usize;
        if i < len {
            self.manager.current_index = i + 1;
            pos = i;
        } else {
            if self.manager.shuffle {
                self.shuffle();
            } else {
                self.sort();
            }
            self.manager.current_index = 1;
            pos = 0;
        }
        let mut node = self.manager.current_list[pos].duplicate();
        node.begin = Some(now);
        self.current_node = node.duplicate();
        node
    }
}

/// Cursor law: dispatching from any cursor position keeps the cursor
/// within `0..=len` of a non-empty list.
pub proof fn lemma_cursor_bound(i: int, len: int, k: nat)
    requires
        len > 0,
        0 <= i <= len,
    ensures
        0 <= cursor_after(i, len, k) <= len,
    decreases k,
{
    if k > 0 {
        lemma_cursor_bound(i, len, (k - 1) as nat);
    }
}

/// While the cursor stays within the list, each dispatch reads the item
/// under it and moves it on by one, with no re-ordering.
pub proof fn lemma_cursor_run(i: int, len: int, k: nat)
    requires
        0 <= i,
        i + k <= len,
    ensures
        cursor_after(i, len, k) == i + k,
        forall|j: nat| j < k ==> #[trigger] cursor_after(i, len, j) < len,
    decreases k,
{
    if k > 0 {
        lemma_cursor_run(i, len, (k - 1) as nat);
        assert forall|j: nat| j < k implies #[trigger] cursor_after(i, len, j) < len by {
            if j < k - 1 {
            } else {
                assert(cursor_after(i, len, j) == i + k - 1);
            }
        }
    }
}

/// One re-order per round: from the head of a list of `len` items, the
/// first `len` dispatches read the list in place, dispatch `len + 1`
/// wraps around (re-orders, and leaves the cursor at 1), and the `len - 1`
/// dispatches after it read the new list in place again.
pub proof fn lemma_wrap_once_per_round(len: int)
    requires
        len > 0,
    ensures
        forall|j: nat| j < len ==> #[trigger] cursor_after(0, len, j) < len,
        cursor_after(0, len, len as nat) == len,
        cursor_after(0, len, (len + 1) as nat) == 1,
        forall|j: nat| j < len - 1 ==> #[trigger] cursor_after(1, len, j) < len,
        cursor_after(1, len, (len - 1) as nat) == len,
{
    lemma_cursor_run(0, len, len as nat);
    lemma_cursor_run(1, len, (len - 1) as nat);
}

} // verus!
