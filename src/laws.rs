//! What holds of every sequence of handle operations on one block.
use vstd::prelude::*;
use crate::arc::{BlockView, Op, enabled, step};

verus! {

/// Whether `ops` can be applied in turn from `b`: each needs a handle that
/// exists at its point, and nothing follows the op that releases the block.
pub open spec fn valid_run<T>(b: BlockView<T>, ops: Seq<Op>) -> bool
    decreases ops.len(),
{
    ops.len() == 0 || (enabled(b, ops[0]) && match step(b, ops[0]) {
        Some(c) => valid_run(c, ops.drop_first()),
        None => ops.len() == 1,
    })
}

/// The block after `ops`; `None` once released.
pub open spec fn run<T>(b: BlockView<T>, ops: Seq<Op>) -> Option<BlockView<T>>
    decreases ops.len(),
{
    if ops.len() == 0 {
        Some(b)
    } else {
        match step(b, ops[0]) {
            Some(c) => run(c, ops.drop_first()),
            None => None,
        }
    }
}

/// Whether `op` destroys the payload of `b`.
pub open spec fn destroys<T>(b: BlockView<T>, op: Op) -> bool {
    b.payload is Some && match step(b, op) {
        Some(c) => c.payload is None,
        None => true,
    }
}

/// How many steps of `ops` destroy the payload.
pub open spec fn destroy_count<T>(b: BlockView<T>, ops: Seq<Op>) -> nat
    decreases ops.len(),
{
    if ops.len() == 0 {
        0
    } else {
        let here: nat = if destroys(b, ops[0]) { 1 } else { 0 };
        match step(b, ops[0]) {
            Some(c) => here + destroy_count(c, ops.drop_first()),
            None => here,
        }
    }
}

/// Strong handles left after `ops`.
pub open spec fn strong_after<T>(b: BlockView<T>, ops: Seq<Op>) -> nat {
    match run(b, ops) {
        Some(c) => c.strong,
        None => 0,
    }
}

/// The payload is destroyed by a step exactly when that step drops the last
/// strong handle; dropping a weak handle never destroys it.
pub proof fn law_destroyed_only_by_last_strong<T>(b: BlockView<T>, op: Op)
    requires
        b.wf(),
        enabled(b, op),
    ensures
        destroys(b, op) <==> (op is DropStrong && b.strong == 1),
{
}

/// Once the last strong handle is gone the payload never comes back, and
/// every later upgrade fails: no sequence of operations brings a strong
/// handle back.
pub proof fn law_no_strong_after_last<T>(b: BlockView<T>, ops: Seq<Op>)
    requires
        b.wf(),
        b.strong == 0,
        valid_run(b, ops),
    ensures
        run(b, ops) matches Some(c) ==> c.strong == 0 && c.payload is None && c.wf(),
        destroy_count(b, ops) == 0,
    decreases ops.len(),
{
    if ops.len() > 0 {
        crate::arc::lemma_step_wf(b, ops[0]);
        if let Some(c) = step(b, ops[0]) {
            law_no_strong_after_last(c, ops.drop_first());
        }
    }
}

/// Over any valid sequence of operations that starts with the payload
/// alive, the payload is destroyed at most once, and it has been destroyed
/// exactly when no strong handle is left at the end.
pub proof fn law_payload_destroyed_once<T>(b: BlockView<T>, ops: Seq<Op>)
    requires
        b.wf(),
        b.strong > 0,
        valid_run(b, ops),
    ensures
        destroy_count(b, ops) <= 1,
        destroy_count(b, ops) == 1 <==> strong_after(b, ops) == 0,
    decreases ops.len(),
{
    if ops.len() > 0 {
        let op = ops[0];
        let rest = ops.drop_first();
        crate::arc::lemma_step_wf(b, op);
        match step(b, op) {
            Some(c) => {
                if c.strong == 0 {
                    law_no_strong_after_last(c, rest);
                } else {
                    law_payload_destroyed_once(c, rest);
                }
            },
            None => {},
        }
    }
}

/// The block is released by a step exactly when that step drops the last
/// handle of any kind; the handle counter counts every handle.
pub proof fn law_released_only_by_last_handle<T>(b: BlockView<T>, op: Op)
    requires
        b.wf(),
        enabled(b, op),
    ensures
        b.alloc == b.strong + b.weak(),
        step(b, op) is None <==> ((op is DropStrong || op is DropWeak) && b.alloc == 1),
{
}

/// Over any valid sequence of operations the block is released at most once,
/// by its last step, and stays well formed until then.
pub proof fn law_released_once<T>(b: BlockView<T>, ops: Seq<Op>, i: int)
    requires
        b.wf(),
        valid_run(b, ops),
        0 <= i < ops.len(),
        run(b, ops.take(i + 1)) is None,
    ensures
        i == ops.len() - 1,
        run(b, ops) is None,
    decreases ops.len(),
{
    crate::arc::lemma_step_wf(b, ops[0]);
    let rest = ops.drop_first();
    assert(ops.take(i + 1)[0] == ops[0]);
    match step(b, ops[0]) {
        Some(c) => {
            assert(i > 0) by {
                if i == 0 {
                    let t = ops.take(1);
                    assert(t.drop_first() =~= Seq::<Op>::empty());
                    assert(run(c, t.drop_first()) == Some(c));
                    assert(run(b, t) == run(c, t.drop_first()));
                }
            }
            assert(ops.take(i + 1).drop_first() =~= rest.take(i));
            law_released_once(c, rest, i - 1);
        },
        None => {},
    }
}

} // verus!
