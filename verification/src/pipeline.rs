//! The pipeline: an ordered, owned chain of stages plus its dispatch
//! algorithm.  Read messages enter at the front and flow stage by stage
//! toward the back; write messages enter at the back and flow toward the
//! front.  The first failing stage aborts the pass and its error is returned
//! to the caller; stages already passed keep their state (there is no
//! rollback), and stages not yet reached are left untouched.

use core::marker::PhantomData;
use std::rc::Rc;

use vstd::prelude::*;

use crate::handler::Handler;

verus! {

/// Whether stage state `s` accepts every message of `msgs`, fed in order.
pub open spec fn feed_ok<M, H: Handler<M>>(s: H::St, msgs: Seq<M>) -> bool
    decreases msgs.len(),
{
    msgs.len() == 0 || (H::read_accepts(s, msgs[0]) && feed_ok::<M, H>(
        H::read_next(s, msgs[0]),
        msgs.drop_first(),
    ))
}

/// The stage state after feeding `msgs` in order, stopping at the first
/// rejected message (which is still consumed, as `handle_read` consumes it).
pub open spec fn feed_next<M, H: Handler<M>>(s: H::St, msgs: Seq<M>) -> H::St
    decreases msgs.len(),
{
    if msgs.len() == 0 {
        s
    } else if H::read_accepts(s, msgs[0]) {
        feed_next::<M, H>(H::read_next(s, msgs[0]), msgs.drop_first())
    } else {
        H::read_next(s, msgs[0])
    }
}

/// The outputs queued by feeding `msgs` in order, stopping at the first
/// rejected message.
pub open spec fn feed_emits<M, H: Handler<M>>(s: H::St, msgs: Seq<M>) -> Seq<M>
    decreases msgs.len(),
{
    if msgs.len() == 0 {
        Seq::empty()
    } else if H::read_accepts(s, msgs[0]) {
        H::read_emits(s, msgs[0]) + feed_emits::<M, H>(H::read_next(s, msgs[0]), msgs.drop_first())
    } else {
        H::read_emits(s, msgs[0])
    }
}

/// The error of the first message of `msgs` that stage state `s` rejects;
/// meaningless when every message is accepted.
pub open spec fn feed_fault<M, H: Handler<M>>(s: H::St, msgs: Seq<M>) -> H::Error
    decreases msgs.len(),
{
    if msgs.len() == 0 {
        arbitrary()
    } else if H::read_accepts(s, msgs[0]) {
        feed_fault::<M, H>(H::read_next(s, msgs[0]), msgs.drop_first())
    } else {
        H::read_fault(s, msgs[0])
    }
}

/// `feed_ok`, for the write channel.
pub open spec fn wfeed_ok<M, H: Handler<M>>(s: H::St, msgs: Seq<M>) -> bool
    decreases msgs.len(),
{
    msgs.len() == 0 || (H::write_accepts(s, msgs[0]) && wfeed_ok::<M, H>(
        H::write_next(s, msgs[0]),
        msgs.drop_first(),
    ))
}

/// `feed_next`, for the write channel.
pub open spec fn wfeed_next<M, H: Handler<M>>(s: H::St, msgs: Seq<M>) -> H::St
    decreases msgs.len(),
{
    if msgs.len() == 0 {
        s
    } else if H::write_accepts(s, msgs[0]) {
        wfeed_next::<M, H>(H::write_next(s, msgs[0]), msgs.drop_first())
    } else {
        H::write_next(s, msgs[0])
    }
}

/// `feed_emits`, for the write channel.
pub open spec fn wfeed_emits<M, H: Handler<M>>(s: H::St, msgs: Seq<M>) -> Seq<M>
    decreases msgs.len(),
{
    if msgs.len() == 0 {
        Seq::empty()
    } else if H::write_accepts(s, msgs[0]) {
        H::write_emits(s, msgs[0]) + wfeed_emits::<M, H>(
            H::write_next(s, msgs[0]),
            msgs.drop_first(),
        )
    } else {
        H::write_emits(s, msgs[0])
    }
}

/// `feed_fault`, for the write channel.
pub open spec fn wfeed_fault<M, H: Handler<M>>(s: H::St, msgs: Seq<M>) -> H::Error
    decreases msgs.len(),
{
    if msgs.len() == 0 {
        arbitrary()
    } else if H::write_accepts(s, msgs[0]) {
        wfeed_fault::<M, H>(H::write_next(s, msgs[0]), msgs.drop_first())
    } else {
        H::write_fault(s, msgs[0])
    }
}

/// The messages entering stage `i` during a read pass that pushed `msgs`
/// into the front of `stages`, assuming every earlier stage accepted all of
/// its inputs: what stage `i - 1` had queued before the pass, followed by
/// everything it emitted during the pass.  At `i == stages.len()` this is
/// what the pass delivers to the pipeline's caller.
pub open spec fn read_inputs_at<M, H: Handler<M>>(stages: Seq<H>, msgs: Seq<M>, i: int) -> Seq<M>
    decreases i,
{
    if i <= 0 {
        msgs
    } else {
        stages[i - 1].read_pending() + feed_emits::<M, H>(
            stages[i - 1].st(),
            read_inputs_at::<M, H>(stages, msgs, i - 1),
        )
    }
}

/// The messages entering stage `i` during a write pass that pushed `msgs`
/// into the back of `stages`; the mirror of `read_inputs_at`, flowing from
/// the last stage toward the first.  At `i == -1` this is what the pass
/// delivers to the external driver.
pub open spec fn write_inputs_at<M, H: Handler<M>>(stages: Seq<H>, msgs: Seq<M>, i: int) -> Seq<M>
    decreases stages.len() - i,
{
    if i >= stages.len() - 1 {
        msgs
    } else {
        stages[i + 1].write_pending() + wfeed_emits::<M, H>(
            stages[i + 1].st(),
            write_inputs_at::<M, H>(stages, msgs, i + 1),
        )
    }
}

/// What a read pass that pushed `msgs` into the front of `stages` delivers
/// to the pipeline's caller once every stage has accepted its inputs.
pub open spec fn read_output<M, H: Handler<M>>(stages: Seq<H>, msgs: Seq<M>) -> Seq<M> {
    read_inputs_at::<M, H>(stages, msgs, stages.len() as int)
}

/// What a write pass that pushed `msgs` into the back of `stages` delivers
/// to the external driver once every stage has accepted its inputs.
pub open spec fn write_output<M, H: Handler<M>>(stages: Seq<H>, msgs: Seq<M>) -> Seq<M> {
    write_inputs_at::<M, H>(stages, msgs, -1)
}

/// Stage `j` accepts everything that reaches it during a read pass of
/// `msgs`.
pub open spec fn read_stage_ok<M, H: Handler<M>>(stages: Seq<H>, msgs: Seq<M>, j: int) -> bool {
    feed_ok::<M, H>(stages[j].st(), read_inputs_at::<M, H>(stages, msgs, j))
}

/// The internal state of stage `j` once a read pass of `msgs` has gone
/// through it.
pub open spec fn read_stage_after<M, H: Handler<M>>(stages: Seq<H>, msgs: Seq<M>, j: int) -> H::St {
    feed_next::<M, H>(stages[j].st(), read_inputs_at::<M, H>(stages, msgs, j))
}

/// The error with which stage `j` aborts a read pass of `msgs`, when it
/// rejects one of its inputs.
pub open spec fn read_stage_fault<M, H: Handler<M>>(
    stages: Seq<H>,
    msgs: Seq<M>,
    j: int,
) -> H::Error {
    feed_fault::<M, H>(stages[j].st(), read_inputs_at::<M, H>(stages, msgs, j))
}

/// Stage `j` accepts everything that reaches it during a write pass of
/// `msgs`.
pub open spec fn write_stage_ok<M, H: Handler<M>>(stages: Seq<H>, msgs: Seq<M>, j: int) -> bool {
    wfeed_ok::<M, H>(stages[j].st(), write_inputs_at::<M, H>(stages, msgs, j))
}

/// The internal state of stage `j` once a write pass of `msgs` has gone
/// through it.
pub open spec fn write_stage_after<M, H: Handler<M>>(
    stages: Seq<H>,
    msgs: Seq<M>,
    j: int,
) -> H::St {
    wfeed_next::<M, H>(stages[j].st(), write_inputs_at::<M, H>(stages, msgs, j))
}

/// The error with which stage `j` aborts a write pass of `msgs`, when it
/// rejects one of its inputs.
pub open spec fn write_stage_fault<M, H: Handler<M>>(
    stages: Seq<H>,
    msgs: Seq<M>,
    j: int,
) -> H::Error {
    wfeed_fault::<M, H>(stages[j].st(), write_inputs_at::<M, H>(stages, msgs, j))
}

/// A completed read pass: every stage accepted its inputs, consumed them in
/// order, and was drained.
pub open spec fn read_pass_done<M, H: Handler<M>>(pre: Seq<H>, post: Seq<H>, msgs: Seq<M>) -> bool {
    &&& forall|j: int| 0 <= j < pre.len() ==> read_stage_ok::<M, H>(pre, msgs, j)
    &&& forall|j: int|
        0 <= j < pre.len() ==> (#[trigger] post[j]).st() == read_stage_after::<M, H>(pre, msgs, j)
            && post[j].read_pending() == Seq::<M>::empty()
}

/// An aborted read pass: stage `i` rejected one of its inputs.  Stages
/// before `i` completed and were drained, stage `i` keeps what it had
/// queued (nothing is rolled back), and stages after `i` never saw any
/// message derived from this pass.
pub open spec fn read_failure_at<M, H: Handler<M>>(
    pre: Seq<H>,
    post: Seq<H>,
    msgs: Seq<M>,
    i: int,
) -> bool {
    &&& 0 <= i < pre.len()
    &&& !read_stage_ok::<M, H>(pre, msgs, i)
    &&& forall|j: int| 0 <= j < i ==> read_stage_ok::<M, H>(pre, msgs, j)
    &&& forall|j: int|
        0 <= j < i ==> (#[trigger] post[j]).st() == read_stage_after::<M, H>(pre, msgs, j)
            && post[j].read_pending() == Seq::<M>::empty()
    &&& post[i].st() == read_stage_after::<M, H>(pre, msgs, i)
    &&& post[i].read_pending() == pre[i].read_pending() + feed_emits::<M, H>(
        pre[i].st(),
        read_inputs_at::<M, H>(pre, msgs, i),
    )
    &&& forall|j: int| i < j < pre.len() ==> post[j] == pre[j]
}

/// A read pass that was aborted by some stage rejecting one of its inputs,
/// whose own error `e` was returned to the caller, never swallowed.
pub open spec fn read_pass_failed<M, H: Handler<M>>(
    pre: Seq<H>,
    post: Seq<H>,
    msgs: Seq<M>,
    e: H::Error,
) -> bool {
    exists|i: int|
        read_failure_at::<M, H>(pre, post, msgs, i) && e == read_stage_fault::<M, H>(pre, msgs, i)
}

/// A completed write pass: every stage accepted its inputs, consumed them
/// in order, and was drained.
pub open spec fn write_pass_done<M, H: Handler<M>>(
    pre: Seq<H>,
    post: Seq<H>,
    msgs: Seq<M>,
) -> bool {
    &&& forall|j: int| 0 <= j < pre.len() ==> write_stage_ok::<M, H>(pre, msgs, j)
    &&& forall|j: int|
        0 <= j < pre.len() ==> (#[trigger] post[j]).st() == write_stage_after::<M, H>(pre, msgs, j)
            && post[j].write_pending() == Seq::<M>::empty()
}

/// An aborted write pass: stage `i` rejected one of its inputs.  Stages
/// after `i` (which write order visits first) completed and were drained,
/// stage `i` keeps what it had queued, and stages before `i` never saw any
/// message derived from this pass.
pub open spec fn write_failure_at<M, H: Handler<M>>(
    pre: Seq<H>,
    post: Seq<H>,
    msgs: Seq<M>,
    i: int,
) -> bool {
    &&& 0 <= i < pre.len()
    &&& !write_stage_ok::<M, H>(pre, msgs, i)
    &&& forall|j: int| i < j < pre.len() ==> write_stage_ok::<M, H>(pre, msgs, j)
    &&& forall|j: int|
        i < j < pre.len() ==> (#[trigger] post[j]).st() == write_stage_after::<M, H>(pre, msgs, j)
            && post[j].write_pending() == Seq::<M>::empty()
    &&& post[i].st() == write_stage_after::<M, H>(pre, msgs, i)
    &&& post[i].write_pending() == pre[i].write_pending() + wfeed_emits::<M, H>(
        pre[i].st(),
        write_inputs_at::<M, H>(pre, msgs, i),
    )
    &&& forall|j: int| 0 <= j < i ==> post[j] == pre[j]
}

/// A write pass that was aborted by some stage rejecting one of its inputs,
/// whose own error `e` was returned to the caller, never swallowed.
pub open spec fn write_pass_failed<M, H: Handler<M>>(
    pre: Seq<H>,
    post: Seq<H>,
    msgs: Seq<M>,
    e: H::Error,
) -> bool {
    exists|i: int|
        write_failure_at::<M, H>(pre, post, msgs, i) && e == write_stage_fault::<M, H>(
            pre,
            msgs,
            i,
        )
}

/// Order preservation, read direction: during a read pass the messages a
/// stage receives are exactly what the stage before it held and produced,
/// in order — a message is fully processed by stage `i - 1` before stage
/// `i` sees anything derived from it.
pub proof fn lemma_read_order<M, H: Handler<M>>(stages: Seq<H>, msgs: Seq<M>, i: int)
    requires
        1 <= i <= stages.len(),
    ensures
        read_inputs_at::<M, H>(stages, msgs, i) == stages[i - 1].read_pending() + feed_emits::<
            M,
            H,
        >(stages[i - 1].st(), read_inputs_at::<M, H>(stages, msgs, i - 1)),
{
}

/// Order preservation, read direction: what reaches stage `i` during a
/// read pass depends only on the pushed messages and the stages strictly
/// before `i` — later stages cannot influence it.
pub proof fn lemma_read_locality<M, H: Handler<M>>(s1: Seq<H>, s2: Seq<H>, msgs: Seq<M>, i: int)
    requires
        0 <= i,
        i <= s1.len(),
        i <= s2.len(),
        forall|j: int| 0 <= j < i ==> s1[j] == s2[j],
    ensures
        read_inputs_at::<M, H>(s1, msgs, i) == read_inputs_at::<M, H>(s2, msgs, i),
    decreases i,
{
    if i > 0 {
        lemma_read_locality::<M, H>(s1, s2, msgs, i - 1);
    }
}

/// Order preservation, write direction: during a write pass the messages a
/// stage receives are exactly what the stage after it held and produced,
/// in order.
pub proof fn lemma_write_order<M, H: Handler<M>>(stages: Seq<H>, msgs: Seq<M>, i: int)
    requires
        -1 <= i < stages.len() - 1,
    ensures
        write_inputs_at::<M, H>(stages, msgs, i) == stages[i + 1].write_pending() + wfeed_emits::<
            M,
            H,
        >(stages[i + 1].st(), write_inputs_at::<M, H>(stages, msgs, i + 1)),
{
}

/// Order preservation, write direction: what reaches stage `i` during a
/// write pass depends only on the pushed messages and the stages strictly
/// after `i` — earlier stages cannot influence it.
pub proof fn lemma_write_locality<M, H: Handler<M>>(s1: Seq<H>, s2: Seq<H>, msgs: Seq<M>, i: int)
    requires
        s1.len() == s2.len(),
        -1 <= i < s1.len(),
        forall|j: int| i < j < s1.len() ==> s1[j] == s2[j],
    ensures
        write_inputs_at::<M, H>(s1, msgs, i) == write_inputs_at::<M, H>(s2, msgs, i),
    decreases s1.len() - i,
{
    if i < s1.len() - 1 {
        lemma_write_locality::<M, H>(s1, s2, msgs, i + 1);
    }
}

/// Feeding one more message is handling it in the state the earlier
/// messages produced, provided those were all accepted.
proof fn lemma_feed_snoc<M, H: Handler<M>>(s: H::St, msgs: Seq<M>, m: M)
    requires
        feed_ok::<M, H>(s, msgs),
    ensures
        feed_next::<M, H>(s, msgs.push(m)) == H::read_next(feed_next::<M, H>(s, msgs), m),
        feed_emits::<M, H>(s, msgs.push(m)) == feed_emits::<M, H>(s, msgs) + H::read_emits(
            feed_next::<M, H>(s, msgs),
            m,
        ),
        feed_ok::<M, H>(s, msgs.push(m)) <==> H::read_accepts(feed_next::<M, H>(s, msgs), m),
    decreases msgs.len(),
{
    if msgs.len() == 0 {
        assert(msgs.push(m)[0] == m);
        assert(msgs.push(m).drop_first() =~= Seq::<M>::empty());
        assert(feed_ok::<M, H>(H::read_next(s, m), Seq::<M>::empty()));
        assert(feed_next::<M, H>(H::read_next(s, m), Seq::<M>::empty()) == H::read_next(s, m));
        assert(feed_emits::<M, H>(H::read_next(s, m), Seq::<M>::empty()) == Seq::<M>::empty());
        assert(H::read_emits(s, m) + Seq::<M>::empty() =~= H::read_emits(s, m));
        assert(Seq::<M>::empty() + H::read_emits(s, m) =~= H::read_emits(s, m));
    } else {
        assert(msgs.push(m)[0] == msgs[0]);
        assert(msgs.push(m).drop_first() =~= msgs.drop_first().push(m));
        lemma_feed_snoc::<M, H>(H::read_next(s, msgs[0]), msgs.drop_first(), m);
        assert(H::read_emits(s, msgs[0]) + (feed_emits::<M, H>(
            H::read_next(s, msgs[0]),
            msgs.drop_first(),
        ) + H::read_emits(feed_next::<M, H>(s, msgs), m)) =~= (H::read_emits(s, msgs[0])
            + feed_emits::<M, H>(H::read_next(s, msgs[0]), msgs.drop_first())) + H::read_emits(
            feed_next::<M, H>(s, msgs),
            m,
        ));
    }
}

/// A feed that rejects its `k`-th message stops there: the state and the
/// emitted outputs of the whole feed are those reached at the rejection.
proof fn lemma_feed_stop<M, H: Handler<M>>(s: H::St, msgs: Seq<M>, k: int)
    requires
        0 <= k < msgs.len(),
        feed_ok::<M, H>(s, msgs.take(k)),
        !H::read_accepts(feed_next::<M, H>(s, msgs.take(k)), msgs[k]),
    ensures
        !feed_ok::<M, H>(s, msgs),
        feed_next::<M, H>(s, msgs) == H::read_next(
            feed_next::<M, H>(s, msgs.take(k)),
            msgs[k],
        ),
        feed_emits::<M, H>(s, msgs) == feed_emits::<M, H>(s, msgs.take(k)) + H::read_emits(
            feed_next::<M, H>(s, msgs.take(k)),
            msgs[k],
        ),
        feed_fault::<M, H>(s, msgs) == H::read_fault(
            feed_next::<M, H>(s, msgs.take(k)),
            msgs[k],
        ),
    decreases k,
{
    if k == 0 {
        assert(msgs.take(0) =~= Seq::<M>::empty());
        assert(Seq::<M>::empty() + H::read_emits(s, msgs[0]) =~= H::read_emits(s, msgs[0]));
    } else {
        assert(msgs.take(k)[0] == msgs[0]);
        assert(msgs.take(k).drop_first() =~= msgs.drop_first().take(k - 1));
        assert(msgs.drop_first()[k - 1] == msgs[k]);
        lemma_feed_stop::<M, H>(H::read_next(s, msgs[0]), msgs.drop_first(), k - 1);
        assert(H::read_emits(s, msgs[0]) + (feed_emits::<M, H>(
            H::read_next(s, msgs[0]),
            msgs.drop_first().take(k - 1),
        ) + H::read_emits(feed_next::<M, H>(s, msgs.take(k)), msgs[k])) =~= (H::read_emits(
            s,
            msgs[0],
        ) + feed_emits::<M, H>(H::read_next(s, msgs[0]), msgs.drop_first().take(k - 1)))
            + H::read_emits(feed_next::<M, H>(s, msgs.take(k)), msgs[k]));
    }
}

/// `lemma_feed_snoc`, for the write channel.
proof fn lemma_wfeed_snoc<M, H: Handler<M>>(s: H::St, msgs: Seq<M>, m: M)
    requires
        wfeed_ok::<M, H>(s, msgs),
    ensures
        wfeed_next::<M, H>(s, msgs.push(m)) == H::write_next(wfeed_next::<M, H>(s, msgs), m),
        wfeed_emits::<M, H>(s, msgs.push(m)) == wfeed_emits::<M, H>(s, msgs) + H::write_emits(
            wfeed_next::<M, H>(s, msgs),
            m,
        ),
        wfeed_ok::<M, H>(s, msgs.push(m)) <==> H::write_accepts(wfeed_next::<M, H>(s, msgs), m),
    decreases msgs.len(),
{
    if msgs.len() == 0 {
        assert(msgs.push(m)[0] == m);
        assert(msgs.push(m).drop_first() =~= Seq::<M>::empty());
        assert(wfeed_ok::<M, H>(H::write_next(s, m), Seq::<M>::empty()));
        assert(wfeed_next::<M, H>(H::write_next(s, m), Seq::<M>::empty()) == H::write_next(s, m));
        assert(wfeed_emits::<M, H>(H::write_next(s, m), Seq::<M>::empty()) == Seq::<M>::empty());
        assert(H::write_emits(s, m) + Seq::<M>::empty() =~= H::write_emits(s, m));
        assert(Seq::<M>::empty() + H::write_emits(s, m) =~= H::write_emits(s, m));
    } else {
        assert(msgs.push(m)[0] == msgs[0]);
        assert(msgs.push(m).drop_first() =~= msgs.drop_first().push(m));
        lemma_wfeed_snoc::<M, H>(H::write_next(s, msgs[0]), msgs.drop_first(), m);
        assert(H::write_emits(s, msgs[0]) + (wfeed_emits::<M, H>(
            H::write_next(s, msgs[0]),
            msgs.drop_first(),
        ) + H::write_emits(wfeed_next::<M, H>(s, msgs), m)) =~= (H::write_emits(s, msgs[0])
            + wfeed_emits::<M, H>(H::write_next(s, msgs[0]), msgs.drop_first())) + H::write_emits(
            wfeed_next::<M, H>(s, msgs),
            m,
        ));
    }
}

/// `lemma_feed_stop`, for the write channel.
proof fn lemma_wfeed_stop<M, H: Handler<M>>(s: H::St, msgs: Seq<M>, k: int)
    requires
        0 <= k < msgs.len(),
        wfeed_ok::<M, H>(s, msgs.take(k)),
        !H::write_accepts(wfeed_next::<M, H>(s, msgs.take(k)), msgs[k]),
    ensures
        !wfeed_ok::<M, H>(s, msgs),
        wfeed_next::<M, H>(s, msgs) == H::write_next(
            wfeed_next::<M, H>(s, msgs.take(k)),
            msgs[k],
        ),
        wfeed_emits::<M, H>(s, msgs) == wfeed_emits::<M, H>(s, msgs.take(k)) + H::write_emits(
            wfeed_next::<M, H>(s, msgs.take(k)),
            msgs[k],
        ),
        wfeed_fault::<M, H>(s, msgs) == H::write_fault(
            wfeed_next::<M, H>(s, msgs.take(k)),
            msgs[k],
        ),
    decreases k,
{
    if k == 0 {
        assert(msgs.take(0) =~= Seq::<M>::empty());
        assert(Seq::<M>::empty() + H::write_emits(s, msgs[0]) =~= H::write_emits(s, msgs[0]));
    } else {
        assert(msgs.take(k)[0] == msgs[0]);
        assert(msgs.take(k).drop_first() =~= msgs.drop_first().take(k - 1));
        assert(msgs.drop_first()[k - 1] == msgs[k]);
        lemma_wfeed_stop::<M, H>(H::write_next(s, msgs[0]), msgs.drop_first(), k - 1);
        assert(H::write_emits(s, msgs[0]) + (wfeed_emits::<M, H>(
            H::write_next(s, msgs[0]),
            msgs.drop_first().take(k - 1),
        ) + H::write_emits(wfeed_next::<M, H>(s, msgs.take(k)), msgs[k])) =~= (H::write_emits(
            s,
            msgs[0],
        ) + wfeed_emits::<M, H>(H::write_next(s, msgs[0]), msgs.drop_first().take(k - 1)))
            + H::write_emits(wfeed_next::<M, H>(s, msgs.take(k)), msgs[k]));
    }
}

/// An ordered chain of stages bound to two boundary tags: `read_tag`, the
/// type accepted at the very front, and `write_tag`, the type produced at
/// the very front for the external driver.
pub struct Pipeline<M, H> {
    stages: Vec<H>,
    read_tag: u64,
    write_tag: u64,
    _marker: PhantomData<M>,
}

impl<M, H: Handler<M>> Pipeline<M, H> {
    /// The chain of stages, front (nearest the external driver) first.
    pub closed spec fn chain(&self) -> Seq<H> {
        self.stages@
    }

    /// The boundary tag of the read-input type at the front.
    pub closed spec fn read_tag_spec(&self) -> u64 {
        self.read_tag
    }

    /// The boundary tag of the write-output type at the front.
    pub closed spec fn write_tag_spec(&self) -> u64 {
        self.write_tag
    }

    /// Adjacency in read order: each stage's read-output tag equals the next
    /// stage's read-input tag, and the first stage reads the boundary type.
    pub open spec fn read_linked(&self) -> bool {
        &&& forall|j: int|
            0 <= j < self.chain().len() - 1 ==> (#[trigger] self.chain()[j]).sig_spec().rout
                == self.chain()[j + 1].sig_spec().rin
        &&& self.chain().len() > 0 ==> self.chain()[0].sig_spec().rin == self.read_tag_spec()
    }

    /// Adjacency in write order: each stage's write-output tag equals the
    /// previous stage's write-input tag, and the first stage writes the
    /// boundary type.
    pub open spec fn write_linked(&self) -> bool {
        &&& forall|j: int|
            0 <= j < self.chain().len() - 1 ==> (#[trigger] self.chain()[j + 1]).sig_spec().wout
                == self.chain()[j].sig_spec().win
        &&& self.chain().len() > 0 ==> self.chain()[0].sig_spec().wout == self.write_tag_spec()
    }

    /// The boundary invariant of an empty pipeline: with no stages the front
    /// both accepts reads and produces writes, so the two boundary types
    /// must coincide.
    pub open spec fn boundary_ok(&self) -> bool {
        self.chain().len() == 0 ==> self.read_tag_spec() == self.write_tag_spec()
    }

    /// Creates an empty pipeline with the given boundary tags.
    pub fn new(read_tag: u64, write_tag: u64) -> (p: Self)
        ensures
            p.chain() == Seq::<H>::empty(),
            p.read_tag_spec() == read_tag,
            p.write_tag_spec() == write_tag,
    {
        Pipeline { stages: Vec::new(), read_tag, write_tag, _marker: PhantomData }
    }

    /// Appends a stage to the end of the chain.  This is the unchecked
    /// primitive the builders replay; it does not verify adjacency.
    pub fn add_back(&mut self, handler: H)
        ensures
            final(self).chain() == old(self).chain().push(handler),
            final(self).read_tag_spec() == old(self).read_tag_spec(),
            final(self).write_tag_spec() == old(self).write_tag_spec(),
    {
        self.stages.push(handler);
    }

    /// The number of stages in the chain.
    pub fn len(&self) -> (n: usize)
        ensures
            n == self.chain().len(),
    {
        self.stages.len()
    }

    /// Returns the boundary tag of the read-input type.
    pub fn read_tag(&self) -> (t: u64)
        ensures
            t == self.read_tag_spec(),
    {
        self.read_tag
    }

    /// Returns the boundary tag of the write-output type.
    pub fn write_tag(&self) -> (t: u64)
        ensures
            t == self.write_tag_spec(),
    {
        self.write_tag
    }

    /// Read dispatch: pushes one external read message into the front of
    /// the chain.  Stage by stage, left to right, each stage consumes the
    /// previous stage's outputs in order and is then drained; the outputs
    /// leaving the last stage are returned to the caller.  The first stage
    /// that rejects a message aborts the pass with its error: stages already
    /// passed keep their state, and later stages receive nothing.  An empty
    /// pipeline has no registered consumer and produces no output.
    #[verifier::loop_isolation(false)]
    pub fn read_dispatch(&mut self, msg: M) -> (r: Result<Vec<M>, <H as Handler<M>>::Error>)
        ensures
            final(self).read_tag_spec() == old(self).read_tag_spec(),
            final(self).write_tag_spec() == old(self).write_tag_spec(),
            final(self).chain().len() == old(self).chain().len(),
            forall|j: int|
                0 <= j < old(self).chain().len() ==> (#[trigger] final(self).chain()[j]).sig_spec()
                    == old(self).chain()[j].sig_spec() && final(self).chain()[j].write_pending()
                    == old(self).chain()[j].write_pending(),
            old(self).chain().len() == 0 ==> r is Ok && *final(self) == *old(self),
            old(self).chain().len() == 0 ==> (r matches Ok(out) ==> out@ == Seq::<M>::empty()),
            old(self).chain().len() > 0 ==> (match r {
                Ok(out) => read_pass_done::<M, H>(old(self).chain(), final(self).chain(), seq![msg])
                    && out@ == read_output::<M, H>(old(self).chain(), seq![msg]),
                Err(e) => read_pass_failed::<M, H>(
                    old(self).chain(),
                    final(self).chain(),
                    seq![msg],
                    e,
                ),
            }),
    {
        let ghost orig: Seq<H> = self.stages@;
        let ghost m0: Seq<M> = seq![msg];
        let ghost rt0: u64 = self.read_tag;
        let ghost wt0: u64 = self.write_tag;
        let n: usize = self.stages.len();
        if n == 0 {
            return Ok(Vec::new());
        }
        let mut cur: Vec<M> = Vec::new();
        cur.push(msg);
        proof {
            assert(cur@ =~= m0);
        }
        let mut i: usize = 0;
        while i < n
            invariant
                0 < n == orig.len(),
                self.stages@.len() == n,
                i <= n,
                self.read_tag == rt0,
                self.write_tag == wt0,
                forall|j: int| i <= j < n ==> self.stages@[j] == orig[j],
                forall|j: int| 0 <= j < i ==> read_stage_ok::<M, H>(orig, m0, j),
                forall|j: int|
                    0 <= j < i ==> (#[trigger] self.stages@[j]).st() == read_stage_after::<M, H>(
                        orig,
                        m0,
                        j,
                    ) && self.stages@[j].read_pending() == Seq::<M>::empty()
                        && self.stages@[j].sig_spec() == orig[j].sig_spec()
                        && self.stages@[j].write_pending() == orig[j].write_pending(),
                cur@ == read_inputs_at::<M, H>(orig, m0, i as int),
            decreases n - i,
        {
            let ghost full: Seq<M> = cur@;
            let ghost s0 = orig[i as int].st();
            let ghost p0 = orig[i as int].read_pending();
            let ghost w0 = orig[i as int].write_pending();
            let ghost g0 = orig[i as int].sig_spec();
            let total: usize = cur.len();
            let mut k: usize = 0;
            proof {
                assert(total == full.len());
                assert(full.take(0) =~= Seq::<M>::empty());
                assert(full.skip(0) =~= full);
            }
            while cur.len() > 0
                invariant
                    0 < n == orig.len(),
                    self.stages@.len() == n,
                    i < n,
                    self.read_tag == rt0,
                    self.write_tag == wt0,
                    k <= total,
                    total == full.len(),
                    cur@ == full.skip(k as int),
                    forall|j: int| i < j < n ==> self.stages@[j] == orig[j],
                    forall|j: int| 0 <= j < i ==> read_stage_ok::<M, H>(orig, m0, j),
                    forall|j: int|
                        0 <= j < i ==> (#[trigger] self.stages@[j]).st() == read_stage_after::<
                            M,
                            H,
                        >(orig, m0, j) && self.stages@[j].read_pending() == Seq::<M>::empty()
                            && self.stages@[j].sig_spec() == orig[j].sig_spec()
                            && self.stages@[j].write_pending() == orig[j].write_pending(),
                    full == read_inputs_at::<M, H>(orig, m0, i as int),
                    feed_ok::<M, H>(s0, full.take(k as int)),
                    self.stages@[i as int].st() == feed_next::<M, H>(s0, full.take(k as int)),
                    self.stages@[i as int].read_pending() == p0 + feed_emits::<M, H>(
                        s0,
                        full.take(k as int),
                    ),
                    self.stages@[i as int].write_pending() == w0,
                    self.stages@[i as int].sig_spec() == g0,
                decreases cur@.len(),
            {
                let m = cur.remove(0);
                proof {
                    assert(cur@ =~= full.skip(k as int).drop_first());
                    assert(full.skip(k as int).drop_first() =~= full.skip(k as int + 1));
                    assert(m == full.skip(k as int)[0]);
                    assert(full.skip(k as int)[0] == full[k as int]);
                }
                let stage = &mut self.stages[i];
                let res = stage.handle_read(m);
                proof {
                    assert(full.take(k as int).push(full[k as int]) =~= full.take(k as int + 1));
                    lemma_feed_snoc::<M, H>(s0, full.take(k as int), full[k as int]);
                }
                match res {
                    Ok(()) => {
                        proof {
                            assert((p0 + feed_emits::<M, H>(s0, full.take(k as int)))
                                + H::read_emits(feed_next::<M, H>(s0, full.take(k as int)), full[k as int])
                                =~= p0 + feed_emits::<M, H>(s0, full.take(k as int + 1)));
                        }
                    },
                    Err(e) => {
                        proof {
                            lemma_feed_stop::<M, H>(s0, full, k as int);
                            assert((p0 + feed_emits::<M, H>(s0, full.take(k as int)))
                                + H::read_emits(feed_next::<M, H>(s0, full.take(k as int)), full[k as int])
                                =~= p0 + feed_emits::<M, H>(s0, full));
                            assert(read_failure_at::<M, H>(orig, self.stages@, m0, i as int));
                            assert(e == read_stage_fault::<M, H>(orig, m0, i as int));
                            assert(read_pass_failed::<M, H>(orig, self.stages@, m0, e));
                        }
                        return Err(e);
                    },
                }
                proof {
                    assert(k < total);
                }
                k = k + 1;
            }
            proof {
                assert(full.skip(k as int).len() == 0);
                assert(k == full.len());
                assert(full.take(k as int) =~= full);
            }
            let ghost fullout: Seq<M> = p0 + feed_emits::<M, H>(s0, full);
            let mut out: Vec<M> = Vec::new();
            proof {
                assert(out@ =~= fullout.take(0));
            }
            let mut done = false;
            while !done
                invariant
                    0 < n == orig.len(),
                    self.stages@.len() == n,
                    i < n,
                    self.read_tag == rt0,
                    self.write_tag == wt0,
                    forall|j: int| i < j < n ==> self.stages@[j] == orig[j],
                    forall|j: int| 0 <= j < i ==> read_stage_ok::<M, H>(orig, m0, j),
                    forall|j: int|
                        0 <= j < i ==> (#[trigger] self.stages@[j]).st() == read_stage_after::<
                            M,
                            H,
                        >(orig, m0, j) && self.stages@[j].read_pending() == Seq::<M>::empty()
                            && self.stages@[j].sig_spec() == orig[j].sig_spec()
                            && self.stages@[j].write_pending() == orig[j].write_pending(),
                    full == read_inputs_at::<M, H>(orig, m0, i as int),
                    feed_ok::<M, H>(s0, full),
                    fullout == p0 + feed_emits::<M, H>(s0, full),
                    self.stages@[i as int].st() == feed_next::<M, H>(s0, full),
                    self.stages@[i as int].write_pending() == w0,
                    self.stages@[i as int].sig_spec() == g0,
                    out@.len() <= fullout.len(),
                    out@ == fullout.take(out@.len() as int),
                    !done ==> self.stages@[i as int].read_pending() == fullout.skip(
                        out@.len() as int,
                    ),
                    done ==> out@ == fullout && self.stages@[i as int].read_pending() == Seq::<
                        M,
                    >::empty(),
                decreases fullout.len() - out@.len() + (if done {
                    0int
                } else {
                    1int
                }),
            {
                let ghost d: int = out@.len() as int;
                let stage = &mut self.stages[i];
                let res = stage.poll_read();
                match res {
                    Some(m) => {
                        proof {
                            assert(fullout.skip(d)[0] == fullout[d]);
                            assert(fullout.take(d).push(fullout[d]) =~= fullout.take(d + 1));
                            assert(fullout.skip(d).drop_first() =~= fullout.skip(d + 1));
                        }
                        out.push(m);
                    },
                    None => {
                        proof {
                            assert(fullout.skip(d).len() == 0);
                            assert(d == fullout.len());
                            assert(out@ =~= fullout);
                        }
                        done = true;
                    },
                }
            }
            proof {
                assert(read_inputs_at::<M, H>(orig, m0, i as int + 1) == orig[i as int].read_pending()
                    + feed_emits::<M, H>(orig[i as int].st(), read_inputs_at::<M, H>(orig, m0, i as int)));
                assert(out@ == read_inputs_at::<M, H>(orig, m0, i as int + 1));
                assert(read_stage_ok::<M, H>(orig, m0, i as int));
            }
            cur = out;
            i = i + 1;
        }
        proof {
            assert(read_pass_done::<M, H>(orig, self.stages@, m0));
            assert(cur@ == read_output::<M, H>(orig, m0));
        }
        Ok(cur)
    }

    /// Write dispatch: pushes one application write message into the back
    /// of the chain.  Stage by stage, right to left, each stage consumes
    /// the following stage's outputs in order and is then drained; the
    /// outputs leaving the first stage are returned to the caller, for the
    /// external driver to transmit.  The first stage that rejects a message
    /// aborts the pass with its error: stages already passed keep their
    /// state, and earlier stages receive nothing.  An empty pipeline has no
    /// registered consumer and produces no output.
    #[verifier::loop_isolation(false)]
    pub fn write_dispatch(&mut self, msg: M) -> (r: Result<Vec<M>, <H as Handler<M>>::Error>)
        ensures
            final(self).read_tag_spec() == old(self).read_tag_spec(),
            final(self).write_tag_spec() == old(self).write_tag_spec(),
            final(self).chain().len() == old(self).chain().len(),
            forall|j: int|
                0 <= j < old(self).chain().len() ==> (#[trigger] final(self).chain()[j]).sig_spec()
                    == old(self).chain()[j].sig_spec() && final(self).chain()[j].read_pending()
                    == old(self).chain()[j].read_pending(),
            old(self).chain().len() == 0 ==> r is Ok && *final(self) == *old(self),
            old(self).chain().len() == 0 ==> (r matches Ok(out) ==> out@ == Seq::<M>::empty()),
            old(self).chain().len() > 0 ==> (match r {
                Ok(out) => write_pass_done::<M, H>(
                    old(self).chain(),
                    final(self).chain(),
                    seq![msg],
                ) && out@ == write_output::<M, H>(old(self).chain(), seq![msg]),
                Err(e) => write_pass_failed::<M, H>(
                    old(self).chain(),
                    final(self).chain(),
                    seq![msg],
                    e,
                ),
            }),
    {
        let ghost orig: Seq<H> = self.stages@;
        let ghost m0: Seq<M> = seq![msg];
        let ghost rt0: u64 = self.read_tag;
        let ghost wt0: u64 = self.write_tag;
        let n: usize = self.stages.len();
        if n == 0 {
            return Ok(Vec::new());
        }
        let mut cur: Vec<M> = Vec::new();
        cur.push(msg);
        proof {
            assert(cur@ =~= m0);
        }
        let mut i: usize = n;
        while i > 0
            invariant
                0 < n == orig.len(),
                self.stages@.len() == n,
                i <= n,
                self.read_tag == rt0,
                self.write_tag == wt0,
                forall|j: int| 0 <= j < i ==> self.stages@[j] == orig[j],
                forall|j: int| i <= j < n ==> write_stage_ok::<M, H>(orig, m0, j),
                forall|j: int|
                    i <= j < n ==> (#[trigger] self.stages@[j]).st() == write_stage_after::<M, H>(
                        orig,
                        m0,
                        j,
                    ) && self.stages@[j].write_pending() == Seq::<M>::empty()
                        && self.stages@[j].sig_spec() == orig[j].sig_spec()
                        && self.stages@[j].read_pending() == orig[j].read_pending(),
                cur@ == write_inputs_at::<M, H>(orig, m0, i as int - 1),
            decreases i,
        {
            let idx: usize = i - 1;
            let ghost full: Seq<M> = cur@;
            let ghost s0 = orig[idx as int].st();
            let ghost p0 = orig[idx as int].write_pending();
            let ghost w0 = orig[idx as int].read_pending();
            let ghost g0 = orig[idx as int].sig_spec();
            let total: usize = cur.len();
            let mut k: usize = 0;
            proof {
                assert(total == full.len());
                assert(full.take(0) =~= Seq::<M>::empty());
                assert(full.skip(0) =~= full);
            }
            while cur.len() > 0
                invariant
                    0 < n == orig.len(),
                    self.stages@.len() == n,
                    idx < n,
                    i == idx + 1,
                    self.read_tag == rt0,
                    self.write_tag == wt0,
                    k <= total,
                    total == full.len(),
                    cur@ == full.skip(k as int),
                    forall|j: int| 0 <= j < idx ==> self.stages@[j] == orig[j],
                    forall|j: int| i <= j < n ==> write_stage_ok::<M, H>(orig, m0, j),
                    forall|j: int|
                        i <= j < n ==> (#[trigger] self.stages@[j]).st() == write_stage_after::<
                            M,
                            H,
                        >(orig, m0, j) && self.stages@[j].write_pending() == Seq::<M>::empty()
                            && self.stages@[j].sig_spec() == orig[j].sig_spec()
                            && self.stages@[j].read_pending() == orig[j].read_pending(),
                    full == write_inputs_at::<M, H>(orig, m0, idx as int),
                    wfeed_ok::<M, H>(s0, full.take(k as int)),
                    self.stages@[idx as int].st() == wfeed_next::<M, H>(s0, full.take(k as int)),
                    self.stages@[idx as int].write_pending() == p0 + wfeed_emits::<M, H>(
                        s0,
                        full.take(k as int),
                    ),
                    self.stages@[idx as int].read_pending() == w0,
                    self.stages@[idx as int].sig_spec() == g0,
                decreases cur@.len(),
            {
                let m = cur.remove(0);
                proof {
                    assert(cur@ =~= full.skip(k as int).drop_first());
                    assert(full.skip(k as int).drop_first() =~= full.skip(k as int + 1));
                    assert(m == full.skip(k as int)[0]);
                    assert(full.skip(k as int)[0] == full[k as int]);
                }
                let stage = &mut self.stages[idx];
                let res = stage.handle_write(m);
                proof {
                    assert(full.take(k as int).push(full[k as int]) =~= full.take(k as int + 1));
                    lemma_wfeed_snoc::<M, H>(s0, full.take(k as int), full[k as int]);
                }
                match res {
                    Ok(()) => {
                        proof {
                            assert((p0 + wfeed_emits::<M, H>(s0, full.take(k as int)))
                                + H::write_emits(
                                wfeed_next::<M, H>(s0, full.take(k as int)),
                                full[k as int],
                            ) =~= p0 + wfeed_emits::<M, H>(s0, full.take(k as int + 1)));
                        }
                    },
                    Err(e) => {
                        proof {
                            lemma_wfeed_stop::<M, H>(s0, full, k as int);
                            assert((p0 + wfeed_emits::<M, H>(s0, full.take(k as int)))
                                + H::write_emits(
                                wfeed_next::<M, H>(s0, full.take(k as int)),
                                full[k as int],
                            ) =~= p0 + wfeed_emits::<M, H>(s0, full));
                            assert(write_failure_at::<M, H>(orig, self.stages@, m0, idx as int));
                            assert(e == write_stage_fault::<M, H>(orig, m0, idx as int));
                            assert(write_pass_failed::<M, H>(orig, self.stages@, m0, e));
                        }
                        return Err(e);
                    },
                }
                proof {
                    assert(k < total);
                }
                k = k + 1;
            }
            proof {
                assert(full.skip(k as int).len() == 0);
                assert(k == full.len());
                assert(full.take(k as int) =~= full);
            }
            let ghost fullout: Seq<M> = p0 + wfeed_emits::<M, H>(s0, full);
            let mut out: Vec<M> = Vec::new();
            proof {
                assert(out@ =~= fullout.take(0));
            }
            let mut done = false;
            while !done
                invariant
                    0 < n == orig.len(),
                    self.stages@.len() == n,
                    idx < n,
                    i == idx + 1,
                    self.read_tag == rt0,
                    self.write_tag == wt0,
                    forall|j: int| 0 <= j < idx ==> self.stages@[j] == orig[j],
                    forall|j: int| i <= j < n ==> write_stage_ok::<M, H>(orig, m0, j),
                    forall|j: int|
                        i <= j < n ==> (#[trigger] self.stages@[j]).st() == write_stage_after::<
                            M,
                            H,
                        >(orig, m0, j) && self.stages@[j].write_pending() == Seq::<M>::empty()
                            && self.stages@[j].sig_spec() == orig[j].sig_spec()
                            && self.stages@[j].read_pending() == orig[j].read_pending(),
                    full == write_inputs_at::<M, H>(orig, m0, idx as int),
                    wfeed_ok::<M, H>(s0, full),
                    fullout == p0 + wfeed_emits::<M, H>(s0, full),
                    self.stages@[idx as int].st() == wfeed_next::<M, H>(s0, full),
                    self.stages@[idx as int].read_pending() == w0,
                    self.stages@[idx as int].sig_spec() == g0,
                    out@.len() <= fullout.len(),
                    out@ == fullout.take(out@.len() as int),
                    !done ==> self.stages@[idx as int].write_pending() == fullout.skip(
                        out@.len() as int,
                    ),
                    done ==> out@ == fullout && self.stages@[idx as int].write_pending() == Seq::<
                        M,
                    >::empty(),
                decreases fullout.len() - out@.len() + (if done {
                    0int
                } else {
                    1int
                }),
            {
                let ghost d: int = out@.len() as int;
                let stage = &mut self.stages[idx];
                let res = stage.poll_write();
                match res {
                    Some(m) => {
                        proof {
                            assert(fullout.skip(d)[0] == fullout[d]);
                            assert(fullout.take(d).push(fullout[d]) =~= fullout.take(d + 1));
                            assert(fullout.skip(d).drop_first() =~= fullout.skip(d + 1));
                        }
                        out.push(m);
                    },
                    None => {
                        proof {
                            assert(fullout.skip(d).len() == 0);
                            assert(d == fullout.len());
                            assert(out@ =~= fullout);
                        }
                        done = true;
                    },
                }
            }
            proof {
                assert(write_inputs_at::<M, H>(orig, m0, idx as int - 1) == orig[
                    idx as int
                ].write_pending() + wfeed_emits::<M, H>(
                    orig[idx as int].st(),
                    write_inputs_at::<M, H>(orig, m0, idx as int),
                ));
                assert(out@ == write_inputs_at::<M, H>(orig, m0, idx as int - 1));
                assert(write_stage_ok::<M, H>(orig, m0, idx as int));
            }
            cur = out;
            i = idx;
        }
        proof {
            assert(write_pass_done::<M, H>(orig, self.stages@, m0));
            assert(cur@ == write_output::<M, H>(orig, m0));
        }
        Ok(cur)
    }

    /// Freezes the chain into a shared, reference-counted, immutable handle.
    /// After this point the stage list cannot change; the handle is meant
    /// for shared read access to the chain's identity.
    pub fn finalize(self) -> (r: Rc<Self>)
        ensures
            r == self,
    {
        Rc::new(self)
    }
}

} // verus!
