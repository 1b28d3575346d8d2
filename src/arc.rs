//! Strong and weak handles over reference-counted blocks.
//!
//! Every block carries two counters: `strong`, the number of live strong
//! handles, and `alloc`, the number of live handles of any kind (each strong
//! handle holds one unit of it, as if it carried a hidden weak handle). The
//! payload lives while `strong > 0`; the block itself is released when
//! `alloc` reaches zero. Blocks sit in a `Heap` and are named by index; a
//! released block's slot stays empty for good, so a released block is never
//! touched again.
use vstd::prelude::*;

verus! {

/// Value that the handle counter holds while an exclusivity check runs.
pub const SENTINEL: usize = usize::MAX;

/// Highest value a counter may reach; an increment past it is refused.
pub const MAX_COUNT: usize = usize::MAX / 2;

/// What a block holds, in mathematical terms.
pub struct BlockView<T> {
    pub strong: nat,
    pub alloc: nat,
    pub payload: Option<T>,
}

impl<T> BlockView<T> {
    /// A block as it stands between operations.
    pub open spec fn wf(self) -> bool {
        &&& 1 <= self.alloc <= MAX_COUNT
        &&& self.strong <= self.alloc
        &&& (self.payload is Some <==> self.strong > 0)
    }

    /// Number of live weak handles.
    pub open spec fn weak(self) -> nat {
        (self.alloc - self.strong) as nat
    }
}

/// The block that `Arc::new` creates: one strong handle and the value.
pub open spec fn fresh<T>(value: T) -> BlockView<T> {
    BlockView { strong: 1, alloc: 1, payload: Some(value) }
}

/// The operations that change a block's counters.
pub enum Op {
    CloneStrong,
    DropStrong,
    Downgrade,
    CloneWeak,
    Upgrade,
    DropWeak,
}

/// Whether a handle that `op` needs exists, and the counters it raises stay
/// under `MAX_COUNT`.
pub open spec fn enabled<T>(b: BlockView<T>, op: Op) -> bool {
    match op {
        Op::CloneStrong => b.strong > 0 && b.alloc < MAX_COUNT,
        Op::DropStrong => b.strong > 0,
        Op::Downgrade => b.strong > 0 && b.alloc < MAX_COUNT,
        Op::CloneWeak => b.weak() > 0 && b.alloc < MAX_COUNT,
        Op::Upgrade => b.weak() > 0 && b.alloc < MAX_COUNT,
        Op::DropWeak => b.weak() > 0,
    }
}

/// The block after `op`; `None` when the op released it.
pub open spec fn step<T>(b: BlockView<T>, op: Op) -> Option<BlockView<T>> {
    match op {
        Op::CloneStrong => Some(BlockView { strong: b.strong + 1, alloc: b.alloc + 1, ..b }),
        Op::Downgrade | Op::CloneWeak => Some(BlockView { alloc: b.alloc + 1, ..b }),
        Op::Upgrade => if b.strong == 0 {
            Some(b)
        } else {
            Some(BlockView { strong: b.strong + 1, alloc: b.alloc + 1, ..b })
        },
        Op::DropStrong => if b.alloc == 1 {
            None
        } else {
            Some(BlockView {
                strong: (b.strong - 1) as nat,
                alloc: (b.alloc - 1) as nat,
                payload: if b.strong == 1 { None } else { b.payload },
            })
        },
        Op::DropWeak => if b.alloc == 1 {
            None
        } else {
            Some(BlockView { alloc: (b.alloc - 1) as nat, ..b })
        },
    }
}

/// Every block that has not been released is well formed.
pub open spec fn heap_wf<T>(s: Seq<Option<BlockView<T>>>) -> bool {
    forall|i: int| 0 <= i < s.len() && #[trigger] s[i] is Some ==> s[i]->Some_0.wf()
}

/// Whether slot `id` holds a block that has not been released.
pub open spec fn live<T>(s: Seq<Option<BlockView<T>>>, id: int) -> bool {
    0 <= id < s.len() && s[id] is Some
}

/// An enabled op leaves a well-formed block well formed, or releases it.
pub proof fn lemma_step_wf<T>(b: BlockView<T>, op: Op)
    requires
        b.wf(),
        enabled(b, op),
    ensures
        step(b, op) matches Some(c) ==> c.wf(),
{
}

/// An enabled op on one block keeps the whole arena well formed.
proof fn lemma_heap_step<T>(s: Seq<Option<BlockView<T>>>, id: int, op: Op)
    requires
        heap_wf(s),
        live(s, id),
        enabled(s[id]->Some_0, op),
    ensures
        heap_wf(s.update(id, step(s[id]->Some_0, op))),
{
    lemma_step_wf(s[id]->Some_0, op);
    let t = s.update(id, step(s[id]->Some_0, op));
    assert forall|i: int| 0 <= i < t.len() && #[trigger] t[i] is Some implies t[i]->Some_0.wf() by {
        if i != id {
            assert(t[i] == s[i]);
        }
    }
}

struct Block<T> {
    strong: usize,
    alloc: usize,
    payload: Option<T>,
}

impl<T> Block<T> {
    fn load_strong(&self) -> (r: usize)
        ensures
            r == self.strong,
    {
        self.strong
    }

    fn load_alloc(&self) -> (r: usize)
        ensures
            r == self.alloc,
    {
        self.alloc
    }

    fn store_alloc(&mut self, v: usize)
        ensures
            *final(self) == (Block { alloc: v, ..*old(self) }),
    {
        self.alloc = v;
    }

    /// Sets `alloc` to `new` when it holds `current`; returns what it held.
    fn cas_alloc(&mut self, current: usize, new: usize) -> (r: Result<usize, usize>)
        ensures
            old(self).alloc == current ==> r == Ok::<usize, usize>(current) && *final(self) == (
            Block { alloc: new, ..*old(self) }),
            old(self).alloc != current ==> r == Err::<usize, usize>(old(self).alloc) && *final(self)
                == *old(self),
    {
        if self.alloc == current {
            self.alloc = new;
            Ok(current)
        } else {
            Err(self.alloc)
        }
    }

    /// Sets `strong` to `new` when it holds `current`; returns what it held.
    fn cas_strong(&mut self, current: usize, new: usize) -> (r: Result<usize, usize>)
        ensures
            old(self).strong == current ==> r == Ok::<usize, usize>(current) && *final(self) == (
            Block { strong: new, ..*old(self) }),
            old(self).strong != current ==> r == Err::<usize, usize>(old(self).strong)
                && *final(self) == *old(self),
    {
        if self.strong == current {
            self.strong = new;
            Ok(current)
        } else {
            Err(self.strong)
        }
    }

    fn fetch_add_strong(&mut self) -> (r: usize)
        requires
            old(self).strong < MAX_COUNT,
        ensures
            r == old(self).strong,
            *final(self) == (Block { strong: (r + 1) as usize, ..*old(self) }),
    {
        let r = self.strong;
        self.strong = r + 1;
        r
    }

    fn fetch_add_alloc(&mut self) -> (r: usize)
        requires
            old(self).alloc < MAX_COUNT,
        ensures
            r == old(self).alloc,
            *final(self) == (Block { alloc: (r + 1) as usize, ..*old(self) }),
    {
        let r = self.alloc;
        self.alloc = r + 1;
        r
    }

    fn fetch_sub_strong(&mut self) -> (r: usize)
        requires
            old(self).strong > 0,
        ensures
            r == old(self).strong,
            *final(self) == (Block { strong: (r - 1) as usize, ..*old(self) }),
    {
        let r = self.strong;
        self.strong = r - 1;
        r
    }

    fn fetch_sub_alloc(&mut self) -> (r: usize)
        requires
            old(self).alloc > 0,
        ensures
            r == old(self).alloc,
            *final(self) == (Block { alloc: (r - 1) as usize, ..*old(self) }),
    {
        let r = self.alloc;
        self.alloc = r - 1;
        r
    }
}

impl<T> View for Block<T> {
    type V = BlockView<T>;

    closed spec fn view(&self) -> BlockView<T> {
        BlockView { strong: self.strong as nat, alloc: self.alloc as nat, payload: self.payload }
    }
}

/// The arena that owns every block.
pub struct Heap<T> {
    slots: Vec<Option<Block<T>>>,
}

impl<T> View for Heap<T> {
    type V = Seq<Option<BlockView<T>>>;

    closed spec fn view(&self) -> Seq<Option<BlockView<T>>> {
        Seq::new(self.slots@.len(), |i: int| match self.slots@[i] {
            Some(b) => Some(b@),
            None => None,
        })
    }
}

impl<T> Heap<T> {
    pub open spec fn wf(&self) -> bool {
        heap_wf(self@)
    }

    /// An arena with no blocks.
    pub fn new() -> (r: Heap<T>)
        ensures
            r@ == Seq::<Option<BlockView<T>>>::empty(),
            r.wf(),
    {
        Heap { slots: Vec::new() }
    }

    /// Slot `id` now holds what `h2` has there; the other slots are unchanged.
    proof fn lemma_view_update(h1: &Heap<T>, h2: &Heap<T>, id: int)
        requires
            0 <= id < h1.slots@.len(),
            h2.slots@ == h1.slots@.update(id, h2.slots@[id]),
        ensures
            h2@ == h1@.update(id, h2@[id]),
            h2@[id] == (match h2.slots@[id] {
                Some(b) => Some(b@),
                None => None,
            }),
            h1@[id] == (match h1.slots@[id] {
                Some(b) => Some(b@),
                None => None,
            }),
    {
        assert(h2@ =~= h1@.update(id, h2@[id]));
    }

    proof fn lemma_view_at(h: &Heap<T>, id: int)
        requires
            0 <= id < h.slots@.len(),
        ensures
            h@.len() == h.slots@.len(),
            h@[id] == (match h.slots@[id] {
                Some(b) => Some(b@),
                None => None,
            }),
    {
    }

    fn block_mut(&mut self, id: usize) -> (b: &mut Block<T>)
        requires
            0 <= id < old(self).slots@.len(),
            old(self).slots@[id as int] is Some,
        ensures
            Some(*b) == old(self).slots@[id as int],
            final(self).slots@ == old(self).slots@.update(id as int, Some(*final(b))),
    {
        self.slots[id].as_mut().unwrap()
    }

    fn block_ref(&self, id: usize) -> (b: &Block<T>)
        requires
            0 <= id < self.slots@.len(),
            self.slots@[id as int] is Some,
        ensures
            Some(*b) == self.slots@[id as int],
            self@[id as int] == Some(b@),
    {
        self.slots[id].as_ref().unwrap()
    }

    /// Empties slot `id`: the block's storage is released.
    fn release(&mut self, id: usize)
        requires
            0 <= id < old(self).slots@.len(),
        ensures
            final(self)@ == old(self)@.update(id as int, None),
    {
        self.slots[id] = None;
        proof {
            Self::lemma_view_update(old(self), self, id as int);
        }
    }
}

/// What dropping a handle did to its block.
#[derive(Clone, Copy, Debug, PartialEq, Eq, Structural)]
pub struct Released {
    /// The payload was destroyed: the last strong handle went.
    pub payload_destroyed: bool,
    /// The block's storage was released: the last handle of any kind went.
    pub block_freed: bool,
}

/// An owning handle: keeps its block's payload alive.
pub struct Arc {
    block: usize,
}

/// A non-owning handle: keeps its block allocated, not its payload.
pub struct Weak {
    block: usize,
}

impl Arc {
    /// Index of the block this handle points into.
    pub closed spec fn id(&self) -> int {
        self.block as int
    }

    /// Allocates a block holding `data`, with one strong handle to it.
    pub fn new<T>(heap: &mut Heap<T>, data: T) -> (r: Arc)
        requires
            old(heap).wf(),
        ensures
            final(heap).wf(),
            r.id() == old(heap)@.len(),
            final(heap)@ == old(heap)@.push(Some(fresh(data))),
    {
        let id = heap.slots.len();
        heap.slots.push(Some(Block { strong: 1, alloc: 1, payload: Some(data) }));
        assert(heap@ =~= old(heap)@.push(Some(fresh(data))));
        Arc { block: id }
    }

    /// Whether this handle's block is live in `s` with a strong handle.
    pub open spec fn valid<T>(&self, s: Seq<Option<BlockView<T>>>) -> bool {
        live(s, self.id()) && s[self.id()]->Some_0.strong > 0
    }

    /// Another strong handle to the same block. The strong and the handle
    /// counter both rise by one; an increment past `MAX_COUNT` is refused.
    pub fn clone<T>(&self, heap: &mut Heap<T>) -> (r: Arc)
        requires
            old(heap).wf(),
            self.valid(old(heap)@),
            old(heap)@[self.id()]->Some_0.alloc < MAX_COUNT,
        ensures
            final(heap).wf(),
            r.id() == self.id(),
            final(heap)@ == old(heap)@.update(
                self.id(),
                step(old(heap)@[self.id()]->Some_0, Op::CloneStrong),
            ),
    {
        let id = self.block;
        proof {
            Heap::lemma_view_at(old(heap), id as int);
            lemma_heap_step(old(heap)@, id as int, Op::CloneStrong);
        }
        let b = heap.block_mut(id);
        b.fetch_add_strong();
        b.fetch_add_alloc();
        proof {
            Heap::lemma_view_update(old(heap), heap, id as int);
        }
        Arc { block: id }
    }

    /// The payload.
    pub fn deref<'a, T>(&self, heap: &'a Heap<T>) -> (r: &'a T)
        requires
            heap.wf(),
            self.valid(heap@),
        ensures
            heap@[self.id()]->Some_0.payload == Some(*r),
    {
        let b = heap.block_ref(self.block);
        b.payload.as_ref().unwrap()
    }

    /// Number of strong handles to this handle's block.
    pub fn strong_count<T>(arc: &Arc, heap: &Heap<T>) -> (r: usize)
        requires
            heap.wf(),
            arc.valid(heap@),
        ensures
            r == heap@[arc.id()]->Some_0.strong,
    {
        heap.block_ref(arc.block).load_strong()
    }

    /// Number of weak handles to this handle's block.
    pub fn weak_count<T>(arc: &Arc, heap: &Heap<T>) -> (r: usize)
        requires
            heap.wf(),
            arc.valid(heap@),
        ensures
            r == heap@[arc.id()]->Some_0.weak(),
    {
        let b = heap.block_ref(arc.block);
        b.load_alloc() - b.load_strong()
    }

    /// A weak handle to the same block: the handle counter rises by one.
    /// Between operations the counter never holds `SENTINEL`, so no
    /// exclusivity check is in progress and the increment goes through.
    pub fn downgrade<T>(arc: &Arc, heap: &mut Heap<T>) -> (r: Weak)
        requires
            old(heap).wf(),
            arc.valid(old(heap)@),
            old(heap)@[arc.id()]->Some_0.alloc < MAX_COUNT,
        ensures
            final(heap).wf(),
            r.id() == arc.id(),
            final(heap)@ == old(heap)@.update(
                arc.id(),
                step(old(heap)@[arc.id()]->Some_0, Op::Downgrade),
            ),
    {
        let id = arc.block;
        proof {
            Heap::lemma_view_at(old(heap), id as int);
            lemma_heap_step(old(heap)@, id as int, Op::Downgrade);
        }
        let b = heap.block_mut(id);
        let n = b.load_alloc();
        assert(n != SENTINEL);
        let res = b.cas_alloc(n, n + 1);
        assert(res is Ok);
        proof {
            Heap::lemma_view_update(old(heap), heap, id as int);
        }
        Weak { block: id }
    }

    /// Mutable access to the payload, granted only when this is the one
    /// handle of any kind to its block. The handle counter is switched from
    /// 1 to `SENTINEL` for the check and set back to 1 after it.
    pub fn get_mut<'a, T>(arc: &mut Arc, heap: &'a mut Heap<T>) -> (r: Option<&'a mut T>)
        requires
            old(heap).wf(),
            old(arc).valid(old(heap)@),
        ensures
            *final(arc) == *old(arc),
            r is Some <==> old(heap)@[old(arc).id()]->Some_0.alloc == 1,
            r is None ==> final(heap)@ == old(heap)@,
            r matches Some(m) ==> Some(*m) == old(heap)@[old(arc).id()]->Some_0.payload
                && final(heap)@ == old(heap)@.update(
                old(arc).id(),
                Some(BlockView { payload: Some(*final(m)), ..old(heap)@[old(arc).id()]->Some_0 }),
            ),
    {
        let id = arc.block;
        proof {
            Heap::lemma_view_at(old(heap), id as int);
        }
        let exclusive = {
            let b = heap.block_mut(id);
            if b.cas_alloc(1, SENTINEL).is_err() {
                false
            } else {
                let is_unique = b.load_strong() == 1;
                b.store_alloc(1);
                is_unique
            }
        };
        proof {
            Heap::lemma_view_update(old(heap), heap, id as int);
            assert(heap@ =~= old(heap)@);
        }
        if !exclusive {
            return None;
        }
        let b = heap.block_mut(id);
        b.payload.as_mut()
    }

    /// Gives up this handle. The strong counter falls by one; when it falls
    /// from 1 to 0 the payload is destroyed. Then the handle's unit of the
    /// handle counter goes, and the block is released when that was the last.
    pub fn drop<T>(self, heap: &mut Heap<T>) -> (r: Released)
        requires
            old(heap).wf(),
            self.valid(old(heap)@),
        ensures
            final(heap).wf(),
            r.payload_destroyed == (old(heap)@[self.id()]->Some_0.strong == 1),
            r.block_freed == (old(heap)@[self.id()]->Some_0.alloc == 1),
            final(heap)@ == old(heap)@.update(
                self.id(),
                step(old(heap)@[self.id()]->Some_0, Op::DropStrong),
            ),
    {
        let id = self.block;
        proof {
            Heap::lemma_view_at(old(heap), id as int);
            lemma_heap_step(old(heap)@, id as int, Op::DropStrong);
        }
        let b = heap.block_mut(id);
        let payload_destroyed = b.fetch_sub_strong() == 1;
        if payload_destroyed {
            b.payload = None;
        }
        let block_freed = b.fetch_sub_alloc() == 1;
        proof {
            Heap::lemma_view_update(old(heap), heap, id as int);
        }
        if block_freed {
            heap.release(id);
            assert(heap@ =~= old(heap)@.update(id as int, None));
        }
        Released { payload_destroyed, block_freed }
    }
}

impl Weak {
    /// Index of the block this handle points into.
    pub closed spec fn id(&self) -> int {
        self.block as int
    }

    /// Whether this handle's block is live in `s` with a weak handle.
    pub open spec fn valid<T>(&self, s: Seq<Option<BlockView<T>>>) -> bool {
        live(s, self.id()) && s[self.id()]->Some_0.weak() > 0
    }

    /// Number of strong handles to this handle's block.
    pub fn strong_count<T>(&self, heap: &Heap<T>) -> (r: usize)
        requires
            heap.wf(),
            self.valid(heap@),
        ensures
            r == heap@[self.id()]->Some_0.strong,
    {
        heap.block_ref(self.block).load_strong()
    }

    /// Number of weak handles to this handle's block.
    pub fn weak_count<T>(&self, heap: &Heap<T>) -> (r: usize)
        requires
            heap.wf(),
            self.valid(heap@),
        ensures
            r == heap@[self.id()]->Some_0.weak(),
    {
        let b = heap.block_ref(self.block);
        b.load_alloc() - b.load_strong()
    }

    /// Another weak handle to the same block: the handle counter rises by one.
    pub fn clone<T>(&self, heap: &mut Heap<T>) -> (r: Weak)
        requires
            old(heap).wf(),
            self.valid(old(heap)@),
            old(heap)@[self.id()]->Some_0.alloc < MAX_COUNT,
        ensures
            final(heap).wf(),
            r.id() == self.id(),
            final(heap)@ == old(heap)@.update(
                self.id(),
                step(old(heap)@[self.id()]->Some_0, Op::CloneWeak),
            ),
    {
        let id = self.block;
        proof {
            Heap::lemma_view_at(old(heap), id as int);
            lemma_heap_step(old(heap)@, id as int, Op::CloneWeak);
        }
        let b = heap.block_mut(id);
        b.fetch_add_alloc();
        proof {
            Heap::lemma_view_update(old(heap), heap, id as int);
        }
        Weak { block: id }
    }

    /// A strong handle to the same block, or `None` when its payload is
    /// already gone. On success the strong and the handle counter both rise.
    pub fn upgrade<T>(&self, heap: &mut Heap<T>) -> (r: Option<Arc>)
        requires
            old(heap).wf(),
            self.valid(old(heap)@),
            old(heap)@[self.id()]->Some_0.alloc < MAX_COUNT,
        ensures
            final(heap).wf(),
            r is Some <==> old(heap)@[self.id()]->Some_0.strong > 0,
            r matches Some(a) ==> a.id() == self.id() && a.valid(final(heap)@),
            final(heap)@ == old(heap)@.update(
                self.id(),
                step(old(heap)@[self.id()]->Some_0, Op::Upgrade),
            ),
    {
        let id = self.block;
        proof {
            Heap::lemma_view_at(old(heap), id as int);
            lemma_heap_step(old(heap)@, id as int, Op::Upgrade);
        }
        let n = heap.block_ref(id).load_strong();
        if n == 0 {
            assert(heap@ =~= old(heap)@.update(id as int, step(old(heap)@[id as int]->Some_0, Op::Upgrade)));
            return None;
        }
        let b = heap.block_mut(id);
        let res = b.cas_strong(n, n + 1);
        assert(res is Ok);
        b.fetch_add_alloc();
        proof {
            Heap::lemma_view_update(old(heap), heap, id as int);
        }
        Some(Arc { block: id })
    }

    /// Gives up this handle; returns whether that released the block. The
    /// payload is never touched here.
    pub fn drop<T>(self, heap: &mut Heap<T>) -> (r: bool)
        requires
            old(heap).wf(),
            self.valid(old(heap)@),
        ensures
            final(heap).wf(),
            r == (old(heap)@[self.id()]->Some_0.alloc == 1),
            final(heap)@ == old(heap)@.update(
                self.id(),
                step(old(heap)@[self.id()]->Some_0, Op::DropWeak),
            ),
    {
        let id = self.block;
        proof {
            Heap::lemma_view_at(old(heap), id as int);
            lemma_heap_step(old(heap)@, id as int, Op::DropWeak);
        }
        let b = heap.block_mut(id);
        let block_freed = b.fetch_sub_alloc() == 1;
        proof {
            Heap::lemma_view_update(old(heap), heap, id as int);
        }
        if block_freed {
            heap.release(id);
            assert(heap@ =~= old(heap)@.update(id as int, None));
        }
        block_freed
    }
}

} // verus!
