//! A small concrete stage for exercising pipelines: it forwards each
//! message to its other tag, adding a configured offset to the payload so
//! that tests can observe which stages a message went through and in what
//! order.  It can be configured to duplicate read outputs (one input, two
//! outputs) or to refuse all input on a channel.

use vstd::prelude::*;

use crate::handler::Handler;
use crate::handler::HandlerSig;
use crate::handler::Sig;
use crate::pipeline::feed_emits;
use crate::pipeline::read_inputs_at;

verus! {

/// A pipeline message: a tag naming its type and a numeric payload.
#[derive(Clone, Copy, PartialEq, Eq, Structural, Debug)]
pub struct Msg {
    /// The tag of the message's type.
    pub tag: u64,
    /// The payload.
    pub body: u64,
}

/// Why a [`Relay`] rejected a message.
#[derive(Clone, Copy, PartialEq, Eq, Structural, Debug)]
pub enum RelayFault {
    /// The channel is configured to refuse all input.
    Refused,
    /// Adding the offset to the payload would overflow.
    Overflow,
}

/// The abstract state of a [`Relay`]: its configuration.  A relay's
/// internal state never changes while it runs.
#[derive(Clone, Copy, PartialEq, Eq, Structural, Debug)]
pub struct RelayState {
    /// The four channel tags.
    pub sig: Sig,
    /// The offset added to each forwarded payload.
    pub delta: u64,
    /// Whether each accepted read input yields two outputs instead of one.
    pub dup: bool,
    /// Whether the read channel refuses all input.
    pub fail_reads: bool,
    /// Whether the write channel refuses all input.
    pub fail_writes: bool,
}

/// A stage that re-tags each message and adds an offset to its payload;
/// see the module documentation.
pub struct Relay {
    sig: Sig,
    delta: u64,
    dup: bool,
    fail_reads: bool,
    fail_writes: bool,
    reads: Vec<Msg>,
    writes: Vec<Msg>,
}

impl Relay {
    /// A relay that forwards each message on both channels, re-tagged and
    /// with `delta` added to the payload.
    pub fn new(sig: Sig, delta: u64) -> (h: Relay)
        ensures
            h.st() == (RelayState {
                sig,
                delta,
                dup: false,
                fail_reads: false,
                fail_writes: false,
            }),
            h.read_pending() == Seq::<Msg>::empty(),
            h.write_pending() == Seq::<Msg>::empty(),
            h.sig_spec() == sig,
    {
        Relay {
            sig,
            delta,
            dup: false,
            fail_reads: false,
            fail_writes: false,
            reads: Vec::new(),
            writes: Vec::new(),
        }
    }

    /// A relay that queues two read outputs per accepted read input: the
    /// payload offset once, then offset twice.
    pub fn duplicating(sig: Sig, delta: u64) -> (h: Relay)
        ensures
            h.st() == (RelayState {
                sig,
                delta,
                dup: true,
                fail_reads: false,
                fail_writes: false,
            }),
            h.read_pending() == Seq::<Msg>::empty(),
            h.write_pending() == Seq::<Msg>::empty(),
            h.sig_spec() == sig,
    {
        Relay {
            sig,
            delta,
            dup: true,
            fail_reads: false,
            fail_writes: false,
            reads: Vec::new(),
            writes: Vec::new(),
        }
    }

    /// A relay that refuses every message on both channels.
    pub fn failing(sig: Sig) -> (h: Relay)
        ensures
            h.st() == (RelayState {
                sig,
                delta: 0,
                dup: false,
                fail_reads: true,
                fail_writes: true,
            }),
            h.read_pending() == Seq::<Msg>::empty(),
            h.write_pending() == Seq::<Msg>::empty(),
            h.sig_spec() == sig,
    {
        Relay {
            sig,
            delta: 0,
            dup: false,
            fail_reads: true,
            fail_writes: true,
            reads: Vec::new(),
            writes: Vec::new(),
        }
    }
}

impl HandlerSig for Relay {
    closed spec fn sig_spec(&self) -> Sig {
        self.sig
    }

    fn sig(&self) -> (s: Sig) {
        self.sig
    }
}

impl Handler<Msg> for Relay {
    type Error = RelayFault;

    type St = RelayState;

    closed spec fn st(&self) -> RelayState {
        RelayState {
            sig: self.sig,
            delta: self.delta,
            dup: self.dup,
            fail_reads: self.fail_reads,
            fail_writes: self.fail_writes,
        }
    }

    closed spec fn read_pending(&self) -> Seq<Msg> {
        self.reads@
    }

    closed spec fn write_pending(&self) -> Seq<Msg> {
        self.writes@
    }

    open spec fn read_accepts(s: RelayState, msg: Msg) -> bool {
        &&& !s.fail_reads
        &&& msg.body + s.delta <= u64::MAX
        &&& s.dup ==> msg.body + s.delta + s.delta <= u64::MAX
    }

    open spec fn read_next(s: RelayState, msg: Msg) -> RelayState {
        s
    }

    open spec fn read_emits(s: RelayState, msg: Msg) -> Seq<Msg> {
        if !Self::read_accepts(s, msg) {
            Seq::empty()
        } else if s.dup {
            seq![
                Msg { tag: s.sig.rout, body: (msg.body + s.delta) as u64 },
                Msg { tag: s.sig.rout, body: (msg.body + s.delta + s.delta) as u64 },
            ]
        } else {
            seq![Msg { tag: s.sig.rout, body: (msg.body + s.delta) as u64 }]
        }
    }

    open spec fn read_fault(s: RelayState, msg: Msg) -> RelayFault {
        if s.fail_reads {
            RelayFault::Refused
        } else {
            RelayFault::Overflow
        }
    }

    open spec fn write_accepts(s: RelayState, msg: Msg) -> bool {
        &&& !s.fail_writes
        &&& msg.body + s.delta <= u64::MAX
    }

    open spec fn write_next(s: RelayState, msg: Msg) -> RelayState {
        s
    }

    open spec fn write_emits(s: RelayState, msg: Msg) -> Seq<Msg> {
        if !Self::write_accepts(s, msg) {
            Seq::empty()
        } else {
            seq![Msg { tag: s.sig.wout, body: (msg.body + s.delta) as u64 }]
        }
    }

    open spec fn write_fault(s: RelayState, msg: Msg) -> RelayFault {
        if s.fail_writes {
            RelayFault::Refused
        } else {
            RelayFault::Overflow
        }
    }

    fn handle_read(&mut self, msg: Msg) -> (r: Result<(), RelayFault>) {
        proof {
            assert(self.reads@ + Seq::<Msg>::empty() =~= self.reads@);
        }
        if self.fail_reads {
            return Err(RelayFault::Refused);
        }
        if msg.body > u64::MAX - self.delta {
            return Err(RelayFault::Overflow);
        }
        let first: u64 = msg.body + self.delta;
        if self.dup {
            if first > u64::MAX - self.delta {
                return Err(RelayFault::Overflow);
            }
            let ghost before = self.reads@;
            let a = Msg { tag: self.sig.rout, body: first };
            let b = Msg { tag: self.sig.rout, body: first + self.delta };
            self.reads.push(a);
            self.reads.push(b);
            proof {
                assert(self.reads@ =~= before + seq![a, b]);
            }
        } else {
            let ghost before = self.reads@;
            let a = Msg { tag: self.sig.rout, body: first };
            self.reads.push(a);
            proof {
                assert(self.reads@ =~= before + seq![a]);
            }
        }
        Ok(())
    }

    fn poll_read(&mut self) -> (r: Option<Msg>) {
        if self.reads.len() == 0 {
            None
        } else {
            let ghost before = self.reads@;
            let m = self.reads.remove(0);
            proof {
                assert(self.reads@ =~= before.drop_first());
            }
            Some(m)
        }
    }

    fn handle_write(&mut self, msg: Msg) -> (r: Result<(), RelayFault>) {
        proof {
            assert(self.writes@ + Seq::<Msg>::empty() =~= self.writes@);
        }
        if self.fail_writes {
            return Err(RelayFault::Refused);
        }
        if msg.body > u64::MAX - self.delta {
            return Err(RelayFault::Overflow);
        }
        let ghost before = self.writes@;
        let a = Msg { tag: self.sig.wout, body: msg.body + self.delta };
        self.writes.push(a);
        proof {
            assert(self.writes@ =~= before + seq![a]);
        }
        Ok(())
    }

    fn poll_write(&mut self) -> (r: Option<Msg>) {
        if self.writes.len() == 0 {
            None
        } else {
            let ghost before = self.writes@;
            let m = self.writes.remove(0);
            proof {
                assert(self.writes@ =~= before.drop_first());
            }
            Some(m)
        }
    }
}

/// Every output a relay queues during a read feed carries the relay's
/// read-output tag, whatever messages were fed.
proof fn lemma_relay_feed_emit_tags(s: RelayState, msgs: Seq<Msg>)
    ensures
        forall|x: int|
            0 <= x < feed_emits::<Msg, Relay>(s, msgs).len() ==> (#[trigger] feed_emits::<
                Msg,
                Relay,
            >(s, msgs)[x]).tag == s.sig.rout,
    decreases msgs.len(),
{
    if msgs.len() > 0 {
        lemma_relay_feed_emit_tags(Relay::read_next(s, msgs[0]), msgs.drop_first());
        let e0 = Relay::read_emits(s, msgs[0]);
        assert forall|x: int| 0 <= x < e0.len() implies (#[trigger] e0[x]).tag == s.sig.rout by {
            if Relay::read_accepts(s, msgs[0]) {
                if s.dup {
                    assert(e0[0].tag == s.sig.rout);
                    assert(e0[1].tag == s.sig.rout);
                } else {
                    assert(e0[0].tag == s.sig.rout);
                }
            }
        }
        if Relay::read_accepts(s, msgs[0]) {
            let rest = feed_emits::<Msg, Relay>(Relay::read_next(s, msgs[0]), msgs.drop_first());
            assert forall|x: int|
                0 <= x < (e0 + rest).len() implies (#[trigger] (e0 + rest)[x]).tag
                == s.sig.rout by {
                if x < e0.len() {
                    assert((e0 + rest)[x] == e0[x]);
                } else {
                    assert((e0 + rest)[x] == rest[x - e0.len()]);
                }
            }
        }
    }
}

/// Stage encapsulation for a chain of relays: if adjacent read tags match,
/// the boundary input carries the boundary read tag, and every queued read
/// output carries its stage's read-output tag, then everything that reaches
/// stage `i` during a read pass carries exactly stage `i`'s read-input tag
/// — a stage only ever sees the previous stage's declared output type,
/// never anything else from the chain.
pub proof fn lemma_relay_stage_isolation(stages: Seq<Relay>, msgs: Seq<Msg>, read_tag: u64, i: int)
    requires
        0 <= i < stages.len(),
        forall|j: int|
            0 <= j < stages.len() - 1 ==> (#[trigger] stages[j]).sig_spec().rout == stages[
                j + 1
            ].sig_spec().rin,
        stages[0].sig_spec().rin == read_tag,
        forall|x: int| 0 <= x < msgs.len() ==> (#[trigger] msgs[x]).tag == read_tag,
        forall|j: int, x: int|
            0 <= j < stages.len() && 0 <= x < stages[j].read_pending().len() ==> (
            #[trigger] stages[j].read_pending()[x]).tag == stages[j].sig_spec().rout,
    ensures
        forall|x: int|
            0 <= x < read_inputs_at::<Msg, Relay>(stages, msgs, i).len() ==> (
            #[trigger] read_inputs_at::<Msg, Relay>(stages, msgs, i)[x]).tag == stages[
                i
            ].sig_spec().rin,
    decreases i,
{
    if i > 0 {
        lemma_relay_stage_isolation(stages, msgs, read_tag, i - 1);
        lemma_relay_feed_emit_tags(
            stages[i - 1].st(),
            read_inputs_at::<Msg, Relay>(stages, msgs, i - 1),
        );
        assert(stages[i - 1].st().sig == stages[i - 1].sig_spec());
    }
}

} // verus!
