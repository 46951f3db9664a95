//! The per-stage contract: signatures, the [`HandlerSig`] projection and the
//! [`Handler`] behaviour contract, and the composition errors shared by the
//! builders.

use vstd::prelude::*;

verus! {

/// The four message-direction tags of a stage: the type of message it reads,
/// the type it produces for the next stage in read order, the type it writes,
/// and the type it hands to the previous stage in write order.  Tags are
/// plain values chosen by the user of the library; two channels carry the
/// same message type exactly when their tags are equal.
#[derive(Clone, Copy, PartialEq, Eq, Structural, Debug)]
pub struct Sig {
    /// Tag of the read-input type.
    pub rin: u64,
    /// Tag of the read-output type.
    pub rout: u64,
    /// Tag of the write-input type.
    pub win: u64,
    /// Tag of the write-output type.
    pub wout: u64,
}

/// An assembly-time composition error: two adjacent stages disagree on a
/// message tag.
#[derive(Clone, Copy, PartialEq, Eq, Structural, Debug)]
pub enum BuildError {
    /// The read-output tag accumulated so far differs from the read-input
    /// tag of the stage being added.
    ReadMismatch { expected: u64, found: u64 },
    /// The write-output tag of the stage being added differs from the
    /// write-input tag of the previous stage.
    WriteMismatch { expected: u64, found: u64 },
}

/// A rejected `add`: the builder and the handler are returned untouched, so
/// no partially assembled pipeline is ever observable.
pub struct Rejected<B, H> {
    /// The builder, exactly as it was before the rejected call.
    pub builder: B,
    /// The handler that was not attached.
    pub handler: H,
    /// Which adjacency check failed.
    pub error: BuildError,
}

/// Projects the signature of a stage without requiring any behaviour; used
/// for assembly-time bookkeeping only.
pub trait HandlerSig {
    /// The stage's signature.
    spec fn sig_spec(&self) -> Sig;

    /// Returns the stage's signature.
    fn sig(&self) -> (s: Sig)
        ensures
            s == self.sig_spec(),
    ;
}

/// The behaviour contract of a pipeline stage, over a message universe `M`.
///
/// A stage is a deterministic transducer.  Its observable model is an
/// abstract internal state ([`Handler::St`]) plus two pending-output queues,
/// one per direction.  Handling a message advances the state by
/// [`Handler::read_next`] / [`Handler::write_next`] and appends
/// [`Handler::read_emits`] / [`Handler::write_emits`] to the matching queue;
/// polling pops the front of a queue and never fails.  The two directions
/// are independent: handling or polling one never touches the other's queue.
///
/// Events and timeouts are side channels outside the read/write data flow;
/// their default implementations succeed without doing anything, so most
/// stages can ignore them.
pub trait Handler<M>: HandlerSig + Sized {
    /// The stage-local error type.
    type Error;

    /// The abstract internal state the spec functions below range over.
    type St;

    /// The abstraction of this stage's internal state.
    spec fn st(&self) -> Self::St;

    /// The queued read outputs, front first.
    spec fn read_pending(&self) -> Seq<M>;

    /// The queued write outputs, front first.
    spec fn write_pending(&self) -> Seq<M>;

    /// Whether handling `msg` on the read channel succeeds in state `s`.
    spec fn read_accepts(s: Self::St, msg: M) -> bool;

    /// The internal state after handling `msg` on the read channel.
    spec fn read_next(s: Self::St, msg: M) -> Self::St;

    /// The outputs queued by handling `msg` on the read channel.
    spec fn read_emits(s: Self::St, msg: M) -> Seq<M>;

    /// The error `handle_read` returns when it rejects `msg` in state `s`.
    spec fn read_fault(s: Self::St, msg: M) -> Self::Error;

    /// Whether handling `msg` on the write channel succeeds in state `s`.
    spec fn write_accepts(s: Self::St, msg: M) -> bool;

    /// The internal state after handling `msg` on the write channel.
    spec fn write_next(s: Self::St, msg: M) -> Self::St;

    /// The outputs queued by handling `msg` on the write channel.
    spec fn write_emits(s: Self::St, msg: M) -> Seq<M>;

    /// The error `handle_write` returns when it rejects `msg` in state `s`.
    spec fn write_fault(s: Self::St, msg: M) -> Self::Error;

    /// Consumes one inbound message.  Derived outputs are queued, never
    /// returned directly, so one input may yield zero, one or many outputs.
    fn handle_read(&mut self, msg: M) -> (r: Result<(), Self::Error>)
        ensures
            final(self).sig_spec() == old(self).sig_spec(),
            r is Ok <==> Self::read_accepts(old(self).st(), msg),
            r matches Err(e) ==> e == Self::read_fault(old(self).st(), msg),
            final(self).st() == Self::read_next(old(self).st(), msg),
            final(self).read_pending() == old(self).read_pending() + Self::read_emits(
                old(self).st(),
                msg,
            ),
            final(self).write_pending() == old(self).write_pending(),
    ;

    /// Drains one queued read output; returns none (not an error) when the
    /// stage has nothing more ready.
    fn poll_read(&mut self) -> (r: Option<M>)
        ensures
            final(self).sig_spec() == old(self).sig_spec(),
            final(self).st() == old(self).st(),
            final(self).write_pending() == old(self).write_pending(),
            old(self).read_pending().len() == 0 ==> r is None && final(self).read_pending() == old(
                self,
            ).read_pending(),
            old(self).read_pending().len() > 0 ==> r == Some(old(self).read_pending()[0])
                && final(self).read_pending() == old(self).read_pending().drop_first(),
    ;

    /// Consumes one outbound message; the mirror of [`Handler::handle_read`].
    fn handle_write(&mut self, msg: M) -> (r: Result<(), Self::Error>)
        ensures
            final(self).sig_spec() == old(self).sig_spec(),
            r is Ok <==> Self::write_accepts(old(self).st(), msg),
            r matches Err(e) ==> e == Self::write_fault(old(self).st(), msg),
            final(self).st() == Self::write_next(old(self).st(), msg),
            final(self).write_pending() == old(self).write_pending() + Self::write_emits(
                old(self).st(),
                msg,
            ),
            final(self).read_pending() == old(self).read_pending(),
    ;

    /// Drains one queued write output; the mirror of [`Handler::poll_read`].
    fn poll_write(&mut self) -> (r: Option<M>)
        ensures
            final(self).sig_spec() == old(self).sig_spec(),
            final(self).st() == old(self).st(),
            final(self).read_pending() == old(self).read_pending(),
            old(self).write_pending().len() == 0 ==> r is None && final(self).write_pending() == old(
                self,
            ).write_pending(),
            old(self).write_pending().len() > 0 ==> r == Some(old(self).write_pending()[0])
                && final(self).write_pending() == old(self).write_pending().drop_first(),
    ;

    /// Handles a control signal outside the read/write data path.  The
    /// default does nothing and succeeds.
    fn handle_event(&mut self, evt: M) -> (r: Result<(), Self::Error>)
        ensures
            final(self).sig_spec() == old(self).sig_spec(),
        default_ensures
            r is Ok,
            *final(self) == *old(self),
    {
        Ok(())
    }

    /// Polls the event side channel.  The default has nothing to report.
    fn poll_event(&mut self) -> (r: Option<M>)
        ensures
            final(self).sig_spec() == old(self).sig_spec(),
        default_ensures
            r is None,
            *final(self) == *old(self),
    {
        None
    }

    /// Reacts to a requested instant (in driver-defined ticks) having been
    /// reached.  The default does nothing and succeeds.
    fn handle_timeout(&mut self, now: u64) -> (r: Result<(), Self::Error>)
        ensures
            final(self).sig_spec() == old(self).sig_spec(),
        default_ensures
            r is Ok,
            *final(self) == *old(self),
    {
        Ok(())
    }

    /// Asks to be woken at a future instant (in driver-defined ticks).  The
    /// default requests no wake-up.
    fn poll_timeout(&mut self) -> (r: Option<u64>)
        ensures
            final(self).sig_spec() == old(self).sig_spec(),
        default_ensures
            r is None,
            *final(self) == *old(self),
    {
        None
    }
}

} // verus!
