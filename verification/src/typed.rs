//! The eager typed builder: it owns a live pipeline, attaches each accepted
//! stage immediately, and tracks the signature of the most recently added
//! stage so that both the read-direction and the write-direction adjacency
//! are checked before a stage is attached.

use std::rc::Rc;

use vstd::prelude::*;

use crate::handler::BuildError;
use crate::handler::Handler;
use crate::handler::HandlerSig;
use crate::handler::Rejected;
use crate::handler::Sig;
use crate::pipeline::Pipeline;

verus! {

/// The sentinel boundary marker a typed builder starts from: it stands for
/// the external driver, whose read-input and read-output are both the
/// boundary read type and whose write-input and write-output are both the
/// boundary write type.
pub struct Start {
    /// The boundary read tag.
    pub r: u64,
    /// The boundary write tag.
    pub w: u64,
}

impl HandlerSig for Start {
    open spec fn sig_spec(&self) -> Sig {
        Sig { rin: self.r, rout: self.r, win: self.w, wout: self.w }
    }

    fn sig(&self) -> (s: Sig) {
        Sig { rin: self.r, rout: self.r, win: self.w, wout: self.w }
    }
}

/// A compile-time type-equality assertion: `(): AssertEqual<A, B>` holds
/// exactly when `A` and `B` are the same type.  Useful to callers who keep
/// distinct Rust types per channel alongside the value-level tags.
pub trait AssertEqual<A, B> {

}

impl<T> AssertEqual<T, T> for () {

}

/// A builder that composes stages with adjacency checks in both directions
/// while assembling a regular [`Pipeline`] underneath, eagerly.
pub struct TypedPipelineBuilder<M, H> {
    inner: Pipeline<M, H>,
    prev: Sig,
}

impl<M, H: Handler<M>> TypedPipelineBuilder<M, H> {
    /// The live pipeline assembled so far.
    pub closed spec fn pipeline(&self) -> Pipeline<M, H> {
        self.inner
    }

    /// The signature of the most recently added stage, or the `Start`
    /// sentinel's signature before any stage is added.
    pub closed spec fn prev_spec(&self) -> Sig {
        self.prev
    }

    /// The builder invariant: the live pipeline is adjacency-correct in
    /// both directions and `prev_spec` tracks its last stage.
    pub open spec fn wf(&self) -> bool {
        &&& self.pipeline().read_linked()
        &&& self.pipeline().write_linked()
        &&& self.prev_spec() == if self.pipeline().chain().len() == 0 {
            Sig {
                rin: self.pipeline().read_tag_spec(),
                rout: self.pipeline().read_tag_spec(),
                win: self.pipeline().write_tag_spec(),
                wout: self.pipeline().write_tag_spec(),
            }
        } else {
            self.pipeline().chain().last().sig_spec()
        }
    }

    /// Creates a typed builder for the given boundary tags, starting from
    /// the [`Start`] sentinel.
    pub fn new(read_tag: u64, write_tag: u64) -> (b: Self)
        ensures
            b.wf(),
            b.pipeline().chain() == Seq::<H>::empty(),
            b.pipeline().read_tag_spec() == read_tag,
            b.pipeline().write_tag_spec() == write_tag,
    {
        let start = Start { r: read_tag, w: write_tag };
        TypedPipelineBuilder { inner: Pipeline::new(read_tag, write_tag), prev: start.sig() }
    }

    /// Attaches a stage to the back of the live pipeline, provided the
    /// previous signature's read-output equals the stage's read-input and
    /// the stage's write-output equals the previous signature's write-input.
    /// A stage failing either check is rejected before it is attached, and
    /// the untouched builder is handed back.
    pub fn add_back(self, handler: H) -> (r: Result<Self, Rejected<Self, H>>)
        ensures
            r is Ok <==> (handler.sig_spec().rin == self.prev_spec().rout
                && handler.sig_spec().wout == self.prev_spec().win),
            (r matches Ok(b) ==> b.pipeline().chain() == self.pipeline().chain().push(handler)
                && b.pipeline().read_tag_spec() == self.pipeline().read_tag_spec()
                && b.pipeline().write_tag_spec() == self.pipeline().write_tag_spec()
                && b.prev_spec() == handler.sig_spec() && (self.wf() ==> b.wf())),
            (r matches Err(rej) ==> rej.builder == self && rej.handler == handler),
            (r matches Err(rej) ==> rej.error == if handler.sig_spec().rin
                != self.prev_spec().rout {
                BuildError::ReadMismatch {
                    expected: self.prev_spec().rout,
                    found: handler.sig_spec().rin,
                }
            } else {
                BuildError::WriteMismatch {
                    expected: self.prev_spec().win,
                    found: handler.sig_spec().wout,
                }
            }),
    {
        let sig = handler.sig();
        if sig.rin != self.prev.rout {
            let expected: u64 = self.prev.rout;
            return Err(Rejected {
                builder: self,
                handler,
                error: BuildError::ReadMismatch { expected, found: sig.rin },
            });
        }
        if sig.wout != self.prev.win {
            let expected: u64 = self.prev.win;
            return Err(Rejected {
                builder: self,
                handler,
                error: BuildError::WriteMismatch { expected, found: sig.wout },
            });
        }
        let mut inner = self.inner;
        inner.add_back(handler);
        Ok(TypedPipelineBuilder { inner, prev: sig })
    }

    /// Finalizes the live pipeline into the shared immutable handle.
    pub fn build(self) -> (r: Rc<Pipeline<M, H>>)
        ensures
            r == self.pipeline(),
            self.wf() ==> r.read_linked() && r.write_linked(),
    {
        self.inner.finalize()
    }

    /// Returns the underlying untyped pipeline, mutably: the escape hatch
    /// for operations outside the checked surface.  Stages added through it
    /// bypass the adjacency guarantee, which is then the caller's
    /// responsibility.
    pub fn as_untyped_mut(&mut self) -> (p: &mut Pipeline<M, H>)
        ensures
            *p == old(self).pipeline(),
            final(self).pipeline() == *final(p),
            final(self).prev_spec() == old(self).prev_spec(),
    {
        &mut self.inner
    }
}

} // verus!
