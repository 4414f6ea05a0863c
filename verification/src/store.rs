//! A generational arena of file system nodes. A removed node's slot is
//! recycled (first in, first out) and its generation bumped, so handles to
//! the removed node become stale instead of pointing at the newcomer.

use vstd::prelude::*;
use std::collections::VecDeque;
use crate::error::FsError;
use crate::node::{Node, NodeId, NodeView, NodePermissions, entries_insert, entries_remove};

verus! {

/// A slot of the store, as the specifications see it.
pub struct SlotView {
    pub node: Option<NodeView>,
    pub generation: u32,
}

/// The node store, as the specifications see it: its slots by index and the
/// queue of indices waiting to be recycled.
pub struct StoreView {
    pub slots: Seq<SlotView>,
    pub free: Seq<usize>,
}

/// The generation a slot moves to when it is vacated (wrapping at `u32::MAX`).
pub open spec fn next_generation(g: u32) -> u32 {
    if g == u32::MAX { 0 } else { (g + 1) as u32 }
}

/// Whether `clear(root)` keeps the slot at `i` untouched.
pub open spec fn kept_by_clear(slots: Seq<SlotView>, root: NodeId, i: int) -> bool {
    i == root.index && slots[i].generation == root.generation
}

/// Whether `clear(root)` vacates an occupied slot at `i`, which then joins the free queue.
pub open spec fn freed_by_clear(slots: Seq<SlotView>, root: NodeId, i: int) -> bool {
    !kept_by_clear(slots, root, i) && slots[i].node is Some
}

/// The indices below `n` that `clear(root)` adds to the free queue, in increasing order.
pub open spec fn freed_indices(slots: Seq<SlotView>, root: NodeId, n: nat) -> Seq<usize>
    decreases n,
{
    if n == 0 {
        Seq::empty()
    } else {
        let prev = freed_indices(slots, root, (n - 1) as nat);
        if freed_by_clear(slots, root, n - 1) {
            prev.push((n - 1) as usize)
        } else {
            prev
        }
    }
}

/// The number of occupied slots among the first `n`.
pub open spec fn occupied_count(slots: Seq<SlotView>, n: nat) -> nat
    decreases n,
{
    if n == 0 {
        0
    } else {
        occupied_count(slots, (n - 1) as nat) + if slots[n - 1].node is Some { 1nat } else { 0nat }
    }
}

impl StoreView {
    /// The invariant of the store: the free queue holds exactly the vacant
    /// slots, each once.
    pub open spec fn wf(self) -> bool {
        &&& forall|k: int| 0 <= k < self.free.len() ==> #[trigger] self.free[k] < self.slots.len()
        &&& forall|k: int| 0 <= k < self.free.len() ==> self.slots[#[trigger] self.free[k] as int].node is None
        &&& forall|k1: int, k2: int| 0 <= k1 < k2 < self.free.len() ==> self.free[k1] != self.free[k2]
        &&& forall|i: int| 0 <= i < self.slots.len() && self.slots[i].node is None ==> #[trigger] self.free.contains(i as usize)
    }

    /// What `get(id)` finds: the node, or why there is none.
    pub open spec fn lookup(self, id: NodeId) -> Result<NodeView, FsError> {
        if id.index >= self.slots.len() {
            Err(FsError::SlotNotFound)
        } else if self.slots[id.index as int].generation != id.generation {
            Err(FsError::StaleNode)
        } else {
            match self.slots[id.index as int].node {
                Some(n) => Ok(n),
                None => Err(FsError::SlotNotFound),
            }
        }
    }

    /// Whether `id` points at a node that is still in the store.
    pub open spec fn live(self, id: NodeId) -> bool {
        self.lookup(id) is Ok
    }

    /// The node `id` points at (meaningful when it is live).
    pub open spec fn node(self, id: NodeId) -> NodeView {
        self.slots[id.index as int].node->Some_0
    }

    /// The store with the node at slot `i` replaced by `n`.
    pub open spec fn with_node(self, i: int, n: NodeView) -> StoreView {
        StoreView {
            slots: self.slots.update(i, SlotView { node: Some(n), generation: self.slots[i].generation }),
            free: self.free,
        }
    }

    /// The store after `insert(n)`, and the handle it returns: the oldest
    /// freed slot is recycled in its current generation; otherwise a new
    /// slot is appended in generation 0.
    pub open spec fn after_insert(self, n: NodeView) -> (StoreView, Result<NodeId, FsError>) {
        if self.free.len() > 0 {
            let i = self.free[0];
            let g = self.slots[i as int].generation;
            (
                StoreView {
                    slots: self.slots.update(i as int, SlotView { node: Some(n), generation: g }),
                    free: self.free.drop_first(),
                },
                Ok(NodeId { index: i, generation: g }),
            )
        } else if self.slots.len() >= usize::MAX {
            (self, Err(FsError::NodeIdsExhausted))
        } else {
            (
                StoreView {
                    slots: self.slots.push(SlotView { node: Some(n), generation: 0 }),
                    free: self.free,
                },
                Ok(NodeId { index: self.slots.len() as usize, generation: 0 }),
            )
        }
    }

    /// The store after `remove(id)`, and its outcome: the slot is vacated,
    /// its generation bumped and its index queued for recycling.
    pub open spec fn after_remove(self, id: NodeId) -> (StoreView, Result<(), FsError>) {
        match self.lookup(id) {
            Err(e) => (self, Err(e)),
            Ok(_) => (
                StoreView {
                    slots: self.slots.update(
                        id.index as int,
                        SlotView { node: None, generation: next_generation(id.generation) },
                    ),
                    free: self.free.push(id.index),
                },
                Ok(()),
            ),
        }
    }

    /// The store after `clear(root)`: every slot but `root`'s is vacated
    /// and moves to the next generation; the slots that held a node join the
    /// free queue in index order.
    pub open spec fn after_clear(self, root: NodeId) -> StoreView {
        StoreView {
            slots: Seq::new(
                self.slots.len(),
                |i: int|
                    if kept_by_clear(self.slots, root, i) {
                        self.slots[i]
                    } else {
                        SlotView { node: None, generation: next_generation(self.slots[i].generation) }
                    },
            ),
            free: self.free + freed_indices(self.slots, root, self.slots.len()),
        }
    }

    /// The number of slots that hold a node.
    pub open spec fn active(self) -> nat {
        occupied_count(self.slots, self.slots.len())
    }
}

/// Every index `clear` frees lies below `n`, is freed by it, appears once,
/// and every index it frees below `n` appears.
pub proof fn lemma_freed_indices(slots: Seq<SlotView>, root: NodeId, n: nat)
    requires
        n <= slots.len(),
        slots.len() <= usize::MAX,
    ensures
        forall|k: int| 0 <= k < freed_indices(slots, root, n).len() ==>
            #[trigger] freed_indices(slots, root, n)[k] < n
            && freed_by_clear(slots, root, freed_indices(slots, root, n)[k] as int),
        forall|k1: int, k2: int| 0 <= k1 < k2 < freed_indices(slots, root, n).len() ==>
            freed_indices(slots, root, n)[k1] < freed_indices(slots, root, n)[k2],
        forall|i: int| 0 <= i < n && freed_by_clear(slots, root, i) ==>
            #[trigger] freed_indices(slots, root, n).contains(i as usize),
    decreases n,
{
    if n > 0 {
        lemma_freed_indices(slots, root, (n - 1) as nat);
        let prev = freed_indices(slots, root, (n - 1) as nat);
        let cur = freed_indices(slots, root, n);
        assert forall|i: int| 0 <= i < n && freed_by_clear(slots, root, i) implies
            #[trigger] cur.contains(i as usize) by {
            if i < n - 1 {
                assert(prev.contains(i as usize));
                let k = choose|k: int| 0 <= k < prev.len() && prev[k] == i as usize;
                assert(cur[k] == i as usize);
            } else {
                assert(cur[cur.len() - 1] == i as usize);
            }
        }
    }
}

/// Clearing keeps the store's invariant.
pub proof fn lemma_after_clear_wf(o: StoreView, root: NodeId)
    requires
        o.wf(),
        o.slots.len() <= usize::MAX,
    ensures
        o.after_clear(root).wf(),
        o.after_clear(root).slots.len() == o.slots.len(),
{
    let a = o.after_clear(root);
    let n = o.slots.len();
    lemma_freed_indices(o.slots, root, n as nat);
    let fr = freed_indices(o.slots, root, n as nat);
    assert forall|k: int| 0 <= k < a.free.len() implies
        #[trigger] a.free[k] < a.slots.len() && a.slots[a.free[k] as int].node is None by {
        if k >= o.free.len() {
            assert(a.free[k] == fr[k - o.free.len()]);
        }
    }
    assert forall|k1: int, k2: int| 0 <= k1 < k2 < a.free.len() implies a.free[k1] != a.free[k2] by {
        if k2 >= o.free.len() && k1 < o.free.len() {
            assert(a.free[k2] == fr[k2 - o.free.len()]);
            assert(freed_by_clear(o.slots, root, fr[k2 - o.free.len()] as int));
            assert(o.slots[o.free[k1] as int].node is None);
        } else if k1 >= o.free.len() {
            assert(a.free[k1] == fr[k1 - o.free.len()]);
            assert(a.free[k2] == fr[k2 - o.free.len()]);
        }
    }
    assert forall|i: int| 0 <= i < a.slots.len() && a.slots[i].node is None implies
        #[trigger] a.free.contains(i as usize) by {
        if o.slots[i].node is None {
            assert(o.free.contains(i as usize));
            let k = choose|k: int| 0 <= k < o.free.len() && o.free[k] == i as usize;
            assert(a.free[k] == i as usize);
        } else {
            assert(freed_by_clear(o.slots, root, i));
            assert(fr.contains(i as usize));
            let k = choose|k: int| 0 <= k < fr.len() && fr[k] == i as usize;
            assert(a.free[o.free.len() + k] == i as usize);
        }
    }
}

/// Inserting a node leaves every live node in place.
pub proof fn lemma_insert_keeps_live(s: StoreView, n: NodeView, id: NodeId)
    requires
        s.wf(),
        s.live(id),
    ensures
        s.after_insert(n).0.lookup(id) == s.lookup(id),
        s.after_insert(n).0.slots.len() >= s.slots.len(),
        s.after_insert(n).1 is Ok ==> s.after_insert(n).1->Ok_0 != id,
{
    if s.free.len() > 0 {
        assert(s.slots[s.free[0] as int].node is None);
    }
}

/// Replacing a live node keeps the store's invariant.
pub proof fn lemma_with_node_wf(s: StoreView, i: int, n: NodeView)
    requires
        s.wf(),
        0 <= i < s.slots.len(),
        s.slots[i].node is Some,
    ensures
        s.with_node(i, n).wf(),
{
    let t = s.with_node(i, n);
    assert forall|k: int| 0 <= k < t.free.len() implies t.slots[#[trigger] t.free[k] as int].node is None by {
        assert(s.slots[s.free[k] as int].node is None);
    }
    assert forall|j: int| 0 <= j < t.slots.len() && t.slots[j].node is None implies #[trigger] t.free.contains(j as usize) by {
        assert(s.slots[j].node is None);
    }
}

/// A node that was live before `with_node` on another slot stays live and unchanged.
pub proof fn lemma_with_node_lookup(s: StoreView, i: int, n: NodeView, id: NodeId)
    requires
        0 <= i < s.slots.len(),
        s.slots[i].node is Some,
    ensures
        id.index != i ==> s.with_node(i, n).lookup(id) == s.lookup(id),
        id.index == i && s.lookup(id) is Ok ==> s.with_node(i, n).lookup(id) == Ok::<NodeView, FsError>(n),
        s.with_node(i, n).slots.len() == s.slots.len(),
{
}

/// One slot of the store.
struct NodeSlot {
    value: Option<Node>,
    generation: u32,
}

impl NodeSlot {
    spec fn view(&self) -> SlotView {
        SlotView {
            node: match self.value {
                Some(n) => Some(n@),
                None => None,
            },
            generation: self.generation,
        }
    }
}

/// A generational arena for file system nodes.
pub struct NodeStore {
    slots: Vec<NodeSlot>,
    /// Indices to recycle, oldest first.
    free_list: VecDeque<usize>,
}

impl View for NodeStore {
    type V = StoreView;

    closed spec fn view(&self) -> StoreView {
        StoreView {
            slots: self.slots@.map_values(|s: NodeSlot| s.view()),
            free: self.free_list@,
        }
    }
}

fn next_gen(g: u32) -> (r: u32)
    ensures
        r == next_generation(g),
{
    if g == u32::MAX { 0 } else { g + 1 }
}

impl NodeStore {
    /// Creates an empty node store.
    pub fn new() -> (s: Self)
        ensures
            s@.slots.len() == 0,
            s@.free.len() == 0,
            s@.wf(),
    {
        let s = NodeStore { slots: Vec::new(), free_list: VecDeque::new() };
        assert(s@.slots =~= Seq::empty());
        s
    }

    /// Retrieves a node by its handle; fails for a stale handle or a vacant slot.
    pub fn get(&self, id: NodeId) -> (r: Result<&Node, FsError>)
        ensures
            match r {
                Ok(n) => self@.lookup(id) == Ok::<NodeView, FsError>(n@),
                Err(e) => self@.lookup(id) == Err::<NodeView, FsError>(e),
            },
    {
        if id.index >= self.slots.len() {
            return Err(FsError::SlotNotFound);
        }
        let slot = &self.slots[id.index];
        if slot.generation != id.generation {
            return Err(FsError::StaleNode);
        }
        match &slot.value {
            Some(n) => Ok(n),
            None => Err(FsError::SlotNotFound),
        }
    }

    /// Inserts a node, recycling the oldest freed slot if there is one.
    pub fn insert(&mut self, node: Node) -> (r: Result<NodeId, FsError>)
        requires
            old(self)@.wf(),
        ensures
            (final(self)@, r) == old(self)@.after_insert(node@),
            final(self)@.wf(),
    {
        let ghost nv = node@;
        match self.free_list.pop_front() {
            Some(index) => {
                proof {
                    assert(self.free_list@.len() + 1 == old(self)@.free.len());
                    assert(old(self)@.free[0] == index);
                }
                let generation = self.slots[index].generation;
                self.slots.set(index, NodeSlot { value: Some(node), generation });
                proof {
                    let a = self@;
                    let b = old(self)@.after_insert(nv).0;
                    assert(a.slots =~= b.slots);
                    assert(a.free =~= b.free);
                    let o = old(self)@;
                    assert(a.slots.len() == self.slots.len());
                    assert forall|i: int| 0 <= i < a.slots.len() && a.slots[i].node is None implies
                        #[trigger] a.free.contains(i as usize) by {
                        assert(i != index as int);
                        assert(o.slots[i].node is None);
                        assert(o.free.contains(i as usize));
                        let k = choose|k: int| 0 <= k < o.free.len() && o.free[k] == i as usize;
                        assert(k != 0);
                        assert(a.free[k - 1] == i as usize);
                    }
                }
                Ok(NodeId { index, generation })
            },
            None => {
                if self.slots.len() == usize::MAX {
                    return Err(FsError::NodeIdsExhausted);
                }
                let index = self.slots.len();
                self.slots.push(NodeSlot { value: Some(node), generation: 0 });
                proof {
                    let a = self@;
                    let b = old(self)@.after_insert(nv).0;
                    assert(a.slots =~= b.slots);
                }
                Ok(NodeId { index, generation: 0 })
            },
        }
    }

    /// Removes a node, freeing its slot for reuse; fails for a stale handle.
    pub fn remove(&mut self, id: NodeId) -> (r: Result<(), FsError>)
        requires
            old(self)@.wf(),
        ensures
            (final(self)@, r) == old(self)@.after_remove(id),
            final(self)@.wf(),
    {
        if id.index >= self.slots.len() {
            return Err(FsError::SlotNotFound);
        }
        if self.slots[id.index].generation != id.generation {
            return Err(FsError::StaleNode);
        }
        if self.slots[id.index].value.is_none() {
            return Err(FsError::SlotNotFound);
        }
        self.slots.set(id.index, NodeSlot { value: None, generation: next_gen(id.generation) });
        self.free_list.push_back(id.index);
        proof {
            let a = self@;
            let o = old(self)@;
            let b = o.after_remove(id).0;
            assert(a.slots =~= b.slots);
            assert(a.free =~= b.free);
            assert forall|k: int| 0 <= k < o.free.len() implies #[trigger] o.free[k] != id.index by {
                assert(o.slots[o.free[k] as int].node is None);
            }
            assert forall|i: int| 0 <= i < a.slots.len() && a.slots[i].node is None implies
                #[trigger] a.free.contains(i as usize) by {
                if i == id.index {
                    assert(a.free[a.free.len() - 1] == id.index);
                } else {
                    assert(o.free.contains(i as usize));
                    let k = choose|k: int| 0 <= k < o.free.len() && o.free[k] == i as usize;
                    assert(a.free[k] == i as usize);
                }
            }
        }
        Ok(())
    }

    /// Vacates every slot except the one `root` points at; the slots that
    /// held a node are queued for recycling in index order.
    pub fn clear(&mut self, root: NodeId)
        requires
            old(self)@.wf(),
        ensures
            final(self)@ == old(self)@.after_clear(root),
            final(self)@.wf(),
    {
        let n = self.slots.len();
        let mut i: usize = 0;
        while i < n
            invariant
                0 <= i <= n,
                n == self@.slots.len(),
                n == old(self)@.slots.len(),
                forall|k: int| i <= k < n ==> self@.slots[k] == old(self)@.slots[k],
                forall|k: int| 0 <= k < i ==> self@.slots[k] == old(self)@.after_clear(root).slots[k],
                self@.free == old(self)@.free + freed_indices(old(self)@.slots, root, i as nat),
            decreases n - i,
        {
            let ghost before = self@;
            let keep = i == root.index && self.slots[i].generation == root.generation;
            if !keep {
                let was_occupied = self.slots[i].value.is_some();
                let generation = next_gen(self.slots[i].generation);
                self.slots.set(i, NodeSlot { value: None, generation });
                if was_occupied {
                    self.free_list.push_back(i);
                }
                assert(self@.slots =~= before.slots.update(i as int, SlotView { node: None, generation: next_generation(before.slots[i as int].generation) }));
            } else {
                assert(self@.slots =~= before.slots);
            }
            proof {
                let o = old(self)@;
                assert(freed_indices(o.slots, root, (i + 1) as nat) == if freed_by_clear(o.slots, root, i as int) {
                    freed_indices(o.slots, root, i as nat).push(i)
                } else {
                    freed_indices(o.slots, root, i as nat)
                });
                assert(self@.free =~= o.free + freed_indices(o.slots, root, (i + 1) as nat));
            }
            i = i + 1;
        }
        proof {
            assert(self@.slots =~= old(self)@.after_clear(root).slots);
            lemma_after_clear_wf(old(self)@, root);
        }
    }

    /// The number of slots that hold a node.
    pub fn active_slots(&self) -> (c: usize)
        ensures
            c == self@.active(),
    {
        let mut c: usize = 0;
        let mut i: usize = 0;
        while i < self.slots.len()
            invariant
                0 <= i <= self@.slots.len(),
                c == occupied_count(self@.slots, i as nat),
                c <= i,
            decreases self@.slots.len() - i,
        {
            if self.slots[i].value.is_some() {
                c = c + 1;
            }
            i = i + 1;
        }
        c
    }

    /// The number of slots ever allocated, vacant ones included.
    pub fn slots(&self) -> (c: usize)
        ensures
            c == self@.slots.len(),
    {
        self.slots.len()
    }

    /// The indices waiting to be recycled, oldest first.
    pub fn free_indices(&self) -> (v: Vec<usize>)
        ensures
            v@ == self@.free,
    {
        let mut v: Vec<usize> = Vec::new();
        let mut i: usize = 0;
        while i < self.free_list.len()
            invariant
                0 <= i <= self@.free.len(),
                v@ == self@.free.take(i as int),
            decreases self@.free.len() - i,
        {
            v.push(self.free_list[i]);
            i = i + 1;
            assert(v@ =~= self@.free.take(i as int));
        }
        assert(self@.free.take(i as int) =~= self@.free);
        v
    }

    /// Whether the slot at `index` holds a node; `None` if no such slot exists.
    pub fn is_occupied(&self, index: usize) -> (r: Option<bool>)
        ensures
            r == (if index < self@.slots.len() { Some(self@.slots[index as int].node is Some) } else { None }),
    {
        if index < self.slots.len() {
            Some(self.slots[index].value.is_some())
        } else {
            None
        }
    }
    /// Takes the node out of the live slot `id` points at, leaving the slot
    /// temporarily empty; `put_back` restores it.
    fn take_node(&mut self, id: NodeId) -> (n: Node)
        requires
            old(self)@.live(id),
        ensures
            n@ == old(self)@.node(id),
            final(self)@.slots.len() == old(self)@.slots.len(),
            final(self)@.slots[id.index as int].generation == id.generation,
            forall|i: int| 0 <= i < old(self)@.slots.len() && i != id.index ==> final(self)@.slots[i] == old(self)@.slots[i],
            final(self)@.free == old(self)@.free,
    {
        let mut slot = NodeSlot { value: None, generation: id.generation };
        std::mem::swap(&mut slot, &mut self.slots[id.index]);
        proof {
            assert(self@.slots =~= old(self)@.slots.update(id.index as int, SlotView { node: None, generation: id.generation }));
        }
        match slot.value {
            Some(n) => n,
            None => {
                assert(false);
                Node::empty_dir()
            },
        }
    }

    fn put_back(&mut self, id: NodeId, n: Node)
        requires
            id.index < old(self)@.slots.len(),
            old(self)@.slots[id.index as int].generation == id.generation,
        ensures
            final(self)@ == (StoreView {
                slots: old(self)@.slots.update(id.index as int, SlotView { node: Some(n@), generation: id.generation }),
                free: old(self)@.free,
            }),
    {
        self.slots.set(id.index, NodeSlot { value: Some(n), generation: id.generation });
        proof {
            assert(self@.slots =~= old(self)@.slots.update(id.index as int, SlotView { node: Some(n@), generation: id.generation }));
        }
    }

    /// Replaces the own permission setting of the live node `id`.
    pub fn set_node_permissions(&mut self, id: NodeId, permissions: NodePermissions)
        requires
            old(self)@.live(id),
        ensures
            final(self)@ == old(self)@.with_node(id.index as int, old(self)@.node(id).with_permissions(permissions)),
    {
        let mut n = self.take_node(id);
        n.set_permissions(permissions);
        self.put_back(id, n);
        proof {
            assert(self@.slots =~= old(self)@.with_node(id.index as int, old(self)@.node(id).with_permissions(permissions)).slots);
        }
    }

    /// Maps `name` to `child` in the live directory `dir`.
    pub fn dir_add(&mut self, dir: NodeId, name: String, child: NodeId)
        requires
            old(self)@.live(dir),
            old(self)@.node(dir).is_dir(),
        ensures
            final(self)@ == old(self)@.with_node(
                dir.index as int,
                old(self)@.node(dir).with_entries(entries_insert(old(self)@.node(dir).entries(), name@, child)),
            ),
    {
        let ghost nm = name@;
        let n = self.take_node(dir);
        match n {
            Node::Directory(mut d) => {
                d.add(name, child);
                self.put_back(dir, Node::Directory(d));
            },
            Node::File(f) => {
                self.put_back(dir, Node::File(f));
            },
        }
        proof {
            assert(self@.slots =~= old(self)@.with_node(
                dir.index as int,
                old(self)@.node(dir).with_entries(entries_insert(old(self)@.node(dir).entries(), nm, child)),
            ).slots);
        }
    }

    /// Removes the entry `name` from the live directory `dir`.
    pub fn dir_remove(&mut self, dir: NodeId, name: &String)
        requires
            old(self)@.live(dir),
            old(self)@.node(dir).is_dir(),
        ensures
            final(self)@ == old(self)@.with_node(
                dir.index as int,
                old(self)@.node(dir).with_entries(entries_remove(old(self)@.node(dir).entries(), name@)),
            ),
    {
        let n = self.take_node(dir);
        match n {
            Node::Directory(mut d) => {
                d.remove(name);
                self.put_back(dir, Node::Directory(d));
            },
            Node::File(f) => {
                self.put_back(dir, Node::File(f));
            },
        }
        proof {
            assert(self@.slots =~= old(self)@.with_node(
                dir.index as int,
                old(self)@.node(dir).with_entries(entries_remove(old(self)@.node(dir).entries(), name@)),
            ).slots);
        }
    }

    /// Removes every entry of the live directory `dir`.
    pub fn dir_clear(&mut self, dir: NodeId)
        requires
            old(self)@.live(dir),
            old(self)@.node(dir).is_dir(),
        ensures
            final(self)@ == old(self)@.with_node(dir.index as int, old(self)@.node(dir).with_entries(Seq::empty())),
    {
        let n = self.take_node(dir);
        match n {
            Node::Directory(mut d) => {
                d.children = Vec::new();
                assert(d.entries() =~= Seq::empty());
                self.put_back(dir, Node::Directory(d));
            },
            Node::File(f) => {
                self.put_back(dir, Node::File(f));
            },
        }
        proof {
            assert(self@.slots =~= old(self)@.with_node(dir.index as int, old(self)@.node(dir).with_entries(Seq::empty())).slots);
        }
    }

    /// Replaces the contents of the live file `file`.
    pub fn file_replace(&mut self, file: NodeId, content: Vec<u8>)
        requires
            old(self)@.live(file),
            old(self)@.node(file).is_file(),
        ensures
            final(self)@ == old(self)@.with_node(file.index as int, old(self)@.node(file).with_data(content@)),
    {
        let ghost c = content@;
        let n = self.take_node(file);
        match n {
            Node::File(mut f) => {
                f.replace_owned(content);
                self.put_back(file, Node::File(f));
            },
            Node::Directory(d) => {
                self.put_back(file, Node::Directory(d));
            },
        }
        proof {
            assert(self@.slots =~= old(self)@.with_node(file.index as int, old(self)@.node(file).with_data(c)).slots);
        }
    }
}

} // verus!
