//! Leaving blocks, loops and frames.
use vstd::prelude::*;
use crate::frame::{Block, BlockKind, Frame, JobDepths};
use crate::machine::{only_top, Step, Task, Vm, Why};
use crate::value::Value;

verus! {

/// The innermost of these blocks that a `return` has to run.
pub open spec fn last_finally(blocks: Seq<Block>) -> Option<int>
    decreases blocks.len(),
{
    if blocks.len() == 0 {
        None
    } else if blocks.last().kind == BlockKind::Finally {
        Some(blocks.len() - 1)
    } else {
        last_finally(blocks.drop_last())
    }
}

/// The innermost of these blocks that a `break` or a `continue` stops at: a
/// loop, or a `finally` that has to run first.
pub open spec fn last_stop(blocks: Seq<Block>) -> Option<int>
    decreases blocks.len(),
{
    if blocks.len() == 0 {
        None
    } else if blocks.last().kind != BlockKind::Except {
        Some(blocks.len() - 1)
    } else {
        last_stop(blocks.drop_last())
    }
}

/// The innermost of these blocks that takes an exception.
pub open spec fn last_handler(blocks: Seq<Block>) -> Option<int>
    decreases blocks.len(),
{
    if blocks.len() == 0 {
        None
    } else if !(blocks.last().kind is Loop) {
        Some(blocks.len() - 1)
    } else {
        last_handler(blocks.drop_last())
    }
}

/// `s` cut down to `n` elements.
pub open spec fn cut<T>(s: Seq<T>, n: int) -> Seq<T> {
    if 0 <= n < s.len() { s.take(n) } else { s }
}

/// The running frame left block `b`, with `blocks` still entered: the operand
/// stack is what it was on entry, and control goes to the block's target.
pub open spec fn left_block(a: Frame, b: Frame, blocks: Seq<Block>, to: Block) -> bool {
    &&& b == (Frame { blocks: b.blocks, stack: b.stack, pc: to.target, ..a })
    &&& b.blocks@ == blocks
    &&& b.stack@ == cut(a.stack@, to.stack_len as int)
}

/// Between `a` and `b` nothing changed but the running frame and why `finally`
/// bodies run.
pub open spec fn only_top_and_why(a: Vm, b: Vm) -> bool {
    &&& b == (Vm {
        task: Task { frames: b.task.frames, finally_why: b.task.finally_why, ..a.task },
        ..a
    })
    &&& a.running()
    &&& b.task.frames@.len() == a.task.frames@.len()
    &&& b.task.frames@.drop_last() == a.task.frames@.drop_last()
}

/// What `return value` does to the frame it is in: it runs the innermost
/// `finally` there is, and otherwise leaves.
pub open spec fn return_defers(a: Vm, b: Vm, value: Value) -> bool {
    let f = last_finally(a.top().blocks@)->0;
    &&& only_top_and_why(a, b)
    &&& left_block(a.top(), b.top(), a.top().blocks@.take(f), a.top().blocks@[f])
    &&& b.task.finally_why@ == a.task.finally_why@.push(Why::Return(value))
}

/// What `break` does: out of the innermost loop, by way of the `finally` bodies
/// in between.
pub open spec fn break_result(a: Vm, b: Vm) -> bool {
    let k = last_stop(a.top().blocks@)->0;
    let stop = a.top().blocks@[k];
    &&& only_top_and_why(a, b)
    &&& left_block(a.top(), b.top(), a.top().blocks@.take(k), stop)
    &&& b.task.finally_why@ == (if stop.kind == BlockKind::Finally {
        a.task.finally_why@.push(Why::Break)
    } else {
        a.task.finally_why@
    })
}

/// What `continue` does: to the next turn of the innermost loop, which stays
/// entered, by way of the `finally` bodies in between.
pub open spec fn continue_result(a: Vm, b: Vm) -> bool {
    let k = last_stop(a.top().blocks@)->0;
    let stop = a.top().blocks@[k];
    &&& only_top_and_why(a, b)
    &&& match stop.kind {
        BlockKind::Loop { cont } => {
            &&& b.top() == (Frame { blocks: b.top().blocks, pc: cont, ..a.top() })
            &&& b.top().blocks@ == a.top().blocks@.take(k + 1)
            &&& b.task.finally_why == a.task.finally_why
        },
        _ => {
            &&& left_block(a.top(), b.top(), a.top().blocks@.take(k), stop)
            &&& b.task.finally_why@ == a.task.finally_why@.push(Why::Continue)
        },
    }
}

impl Vm {
    /// Enter a block on the running frame.
    pub fn enter_block(&mut self, kind: BlockKind, target: usize)
        requires old(self).running(),
        ensures
            only_top(*old(self), *final(self)),
            final(self).heap == old(self).heap,
            final(self).top() == (Frame { blocks: final(self).top().blocks, ..old(self).top() }),
            final(self).top().blocks@ == old(self).top().blocks@.push(Block {
                kind,
                target,
                stack_len: old(self).stack().len() as usize,
                jobs: depths(old(self).task),
            }),
    {
        let jobs = self.job_depths();
        let n = self.task.frames.len();
        let stack_len = self.task.frames[n - 1].stack.len();
        self.task.frames[n - 1].blocks.push(Block { kind, target, stack_len, jobs });
        assert(self.task.frames@.drop_last() =~= old(self).task.frames@.drop_last());
    }

    /// Leave the innermost block of the running frame as if nothing happened.
    pub fn pop_block(&mut self)
        requires old(self).running(),
        ensures
            only_top(*old(self), *final(self)),
            final(self).heap == old(self).heap,
            final(self).top() == (Frame { blocks: final(self).top().blocks, ..old(self).top() }),
            final(self).top().blocks@ == (if old(self).top().blocks@.len() > 0 {
                old(self).top().blocks@.drop_last()
            } else {
                old(self).top().blocks@
            }),
    {
        let n = self.task.frames.len();
        let _b = self.task.frames[n - 1].blocks.pop();
        assert(self.task.frames@.drop_last() =~= old(self).task.frames@.drop_last());
    }

    /// Cut the running frame back to the entry of a block, and go to its target.
    fn land(&mut self, b: Block)
        requires old(self).running(),
        ensures
            only_top_and_why(*old(self), *final(self)),
            final(self).task.finally_why == old(self).task.finally_why,
            left_block(old(self).top(), final(self).top(), old(self).top().blocks@, b),
    {
        let n = self.task.frames.len();
        self.task.frames[n - 1].stack.truncate(b.stack_len);
        self.task.frames[n - 1].pc = b.target;
        assert(self.task.frames@.drop_last() =~= old(self).task.frames@.drop_last());
        assert(self.stack() =~= cut(old(self).stack(), b.stack_len as int));
    }

    /// Run the innermost `finally` of the running frame on the way out of it.
    /// `false` says there is none.
    pub fn return_through_finally(&mut self, value: Value) -> (r: bool)
        requires old(self).running(),
        ensures
            r == (last_finally(old(self).top().blocks@) is Some),
            r ==> return_defers(*old(self), *final(self), value),
            !r ==> only_top_and_why(*old(self), *final(self))
                && final(self).task.finally_why == old(self).task.finally_why
                && final(self).top() == (Frame { blocks: final(self).top().blocks, ..old(self).top() })
                && final(self).top().blocks@.len() == 0,
    {
        let n = self.task.frames.len();
        let ghost all = self.top().blocks@;
        loop
            invariant
                n == self.task.frames@.len(),
                n == old(self).task.frames@.len(),
                n > 0,
                all == old(self).top().blocks@,
                only_top_and_why(*old(self), *self),
                self.task.finally_why == old(self).task.finally_why,
                self.top() == (Frame { blocks: self.top().blocks, ..old(self).top() }),
                self.top().blocks@ == all.take(self.top().blocks@.len() as int),
                self.top().blocks@.len() <= all.len(),
                last_finally(all) == last_finally(self.top().blocks@),
            decreases self.top().blocks@.len(),
        {
            let ghost before = self.top().blocks@;
            let b = self.task.frames[n - 1].blocks.pop();
            assert(self.task.frames@.drop_last() =~= old(self).task.frames@.drop_last());
            match b {
                None => {
                    return false;
                }
                Some(b) => {
                    assert(self.top().blocks@ =~= all.take(before.len() - 1));
                    if let BlockKind::Finally = b.kind {
                        self.land(b);
                        self.task.finally_why.push(Why::Return(value));
                        return true;
                    }
                }
            }
        }
    }

    /// `break`.
    pub fn do_break(&mut self) -> (r: Step)
        requires
            old(self).running(),
            last_stop(old(self).top().blocks@) is Some,
        ensures
            r is Next,
            break_result(*old(self), *final(self)),
    {
        let n = self.task.frames.len();
        let ghost all = self.top().blocks@;
        loop
            invariant
                n == self.task.frames@.len(),
                n == old(self).task.frames@.len(),
                n > 0,
                all == old(self).top().blocks@,
                only_top_and_why(*old(self), *self),
                self.task.finally_why == old(self).task.finally_why,
                self.top() == (Frame { blocks: self.top().blocks, ..old(self).top() }),
                self.top().blocks@ == all.take(self.top().blocks@.len() as int),
                self.top().blocks@.len() <= all.len(),
                last_stop(all) == last_stop(self.top().blocks@),
                last_stop(all) is Some,
            decreases self.top().blocks@.len(),
        {
            let ghost before = self.top().blocks@;
            let b = self.task.frames[n - 1].blocks.pop();
            assert(self.task.frames@.drop_last() =~= old(self).task.frames@.drop_last());
            match b {
                None => {
                    return Step::Next;
                }
                Some(b) => {
                    assert(self.top().blocks@ =~= all.take(before.len() - 1));
                    match b.kind {
                        BlockKind::Finally => {
                            self.land(b);
                            self.task.finally_why.push(Why::Break);
                            return Step::Next;
                        }
                        BlockKind::Loop { cont: _ } => {
                            self.land(b);
                            return Step::Next;
                        }
                        BlockKind::Except => {}
                    }
                }
            }
        }
    }

    /// `continue`.
    pub fn do_continue(&mut self) -> (r: Step)
        requires
            old(self).running(),
            last_stop(old(self).top().blocks@) is Some,
        ensures
            r is Next,
            continue_result(*old(self), *final(self)),
    {
        let n = self.task.frames.len();
        let ghost all = self.top().blocks@;
        loop
            invariant
                n == self.task.frames@.len(),
                n == old(self).task.frames@.len(),
                n > 0,
                all == old(self).top().blocks@,
                only_top_and_why(*old(self), *self),
                self.task.finally_why == old(self).task.finally_why,
                self.top() == (Frame { blocks: self.top().blocks, ..old(self).top() }),
                self.top().blocks@ == all.take(self.top().blocks@.len() as int),
                self.top().blocks@.len() <= all.len(),
                last_stop(all) == last_stop(self.top().blocks@),
                last_stop(all) is Some,
            decreases self.top().blocks@.len(),
        {
            let ghost before = self.top().blocks@;
            let m = self.task.frames[n - 1].blocks.len();
            if m == 0 {
                return Step::Next;
            }
            let b = self.task.frames[n - 1].blocks[m - 1];
            assert(b == all[m - 1]);
            if let BlockKind::Loop { cont } = b.kind {
                self.task.frames[n - 1].pc = cont;
                assert(self.task.frames@.drop_last() =~= old(self).task.frames@.drop_last());
                return Step::Next;
            }
            let _b = self.task.frames[n - 1].blocks.pop();
            assert(self.task.frames@.drop_last() =~= old(self).task.frames@.drop_last());
            assert(self.top().blocks@ =~= all.take(before.len() - 1));
            if let BlockKind::Finally = b.kind {
                self.land(b);
                self.task.finally_why.push(Why::Continue);
                return Step::Next;
            }
        }
    }

    /// How deep each job stack is.
    pub fn job_depths(&self) -> (r: JobDepths)
        ensures r == depths(self.task),
    {
        JobDepths {
            prints: self.task.prints.len(),
            texts: self.task.texts.len(),
            seqs: self.task.seqs.len(),
            mats: self.task.mats.len(),
            compares: self.task.compares.len(),
            orders: self.task.orders.len(),
        }
    }

    /// Discard the jobs above these depths.
    pub fn truncate_jobs(&mut self, d: JobDepths)
        ensures
            jobs_cut(old(self).task, final(self).task, d),
            *final(self) == (Vm { task: final(self).task, ..*old(self) }),
    {
        self.task.prints.truncate(d.prints);
        self.task.texts.truncate(d.texts);
        self.task.seqs.truncate(d.seqs);
        self.task.mats.truncate(d.mats);
        self.task.compares.truncate(d.compares);
        self.task.orders.truncate(d.orders);
        assert(self.task.prints@ =~= cut(old(self).task.prints@, d.prints as int));
        assert(self.task.texts@ =~= cut(old(self).task.texts@, d.texts as int));
        assert(self.task.seqs@ =~= cut(old(self).task.seqs@, d.seqs as int));
        assert(self.task.mats@ =~= cut(old(self).task.mats@, d.mats as int));
        assert(self.task.compares@ =~= cut(old(self).task.compares@, d.compares as int));
        assert(self.task.orders@ =~= cut(old(self).task.orders@, d.orders as int));
    }
}

/// How deep each job stack of a task is.
pub open spec fn depths(t: Task) -> JobDepths {
    JobDepths {
        prints: t.prints.len(),
        texts: t.texts.len(),
        seqs: t.seqs.len(),
        mats: t.mats.len(),
        compares: t.compares.len(),
        orders: t.orders.len(),
    }
}

/// Between `a` and `b` the job stacks were cut down to `d`, and nothing else
/// changed.
pub open spec fn jobs_cut(a: Task, b: Task, d: JobDepths) -> bool {
    &&& b == (Task {
        prints: b.prints,
        texts: b.texts,
        seqs: b.seqs,
        mats: b.mats,
        compares: b.compares,
        orders: b.orders,
        ..a
    })
    &&& b.prints@ == cut(a.prints@, d.prints as int)
    &&& b.texts@ == cut(a.texts@, d.texts as int)
    &&& b.seqs@ == cut(a.seqs@, d.seqs as int)
    &&& b.mats@ == cut(a.mats@, d.mats as int)
    &&& b.compares@ == cut(a.compares@, d.compares as int)
    &&& b.orders@ == cut(a.orders@, d.orders as int)
}

/// Jobs that were running when a block was entered survive an exception that
/// leaves the block; those started inside it are gone.
pub proof fn jobs_survive(entered: Task, raised: Task, after: Task)
    requires
        entered.seqs@.is_prefix_of(raised.seqs@),
        entered.prints@.is_prefix_of(raised.prints@),
        entered.texts@.is_prefix_of(raised.texts@),
        entered.mats@.is_prefix_of(raised.mats@),
        entered.compares@.is_prefix_of(raised.compares@),
        entered.orders@.is_prefix_of(raised.orders@),
        jobs_cut(raised, after, depths(entered)),
    ensures
        after.seqs@ == entered.seqs@,
        after.prints@ == entered.prints@,
        after.texts@ == entered.texts@,
        after.mats@ == entered.mats@,
        after.compares@ == entered.compares@,
        after.orders@ == entered.orders@,
{
    assert(after.seqs@ =~= entered.seqs@);
    assert(after.prints@ =~= entered.prints@);
    assert(after.texts@ =~= entered.texts@);
    assert(after.mats@ =~= entered.mats@);
    assert(after.compares@ =~= entered.compares@);
    assert(after.orders@ =~= entered.orders@);
}

} // verus!
