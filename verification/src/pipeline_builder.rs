//! The lazy pipeline builder: stages are declared in order and checked for
//! read-direction compatibility as they are added, but nothing is attached
//! to a pipeline until `build`, which replays every accepted `add` on a
//! freshly created pipeline and finalizes it into the shared handle.

use core::marker::PhantomData;
use std::rc::Rc;

use vstd::prelude::*;

use crate::handler::BuildError;
use crate::handler::Handler;
use crate::handler::Rejected;
use crate::pipeline::Pipeline;

verus! {

/// Accumulates stages functionally, deferring construction until `build`.
/// Each `add` consumes the builder and returns a new one whose accumulated
/// read-output tag is the added stage's; a stage whose read-input tag does
/// not match is rejected, and the untouched builder is handed back.
pub struct PipelineBuilder<M, H> {
    staged: Vec<H>,
    read_tag: u64,
    write_tag: u64,
    current: u64,
    _marker: PhantomData<M>,
}

impl<M, H: Handler<M>> PipelineBuilder<M, H> {
    /// The stages declared so far, in declaration order.
    pub closed spec fn staged(&self) -> Seq<H> {
        self.staged@
    }

    /// The boundary tag of the read-input type.
    pub closed spec fn read_tag_spec(&self) -> u64 {
        self.read_tag
    }

    /// The boundary tag of the write-output type.
    pub closed spec fn write_tag_spec(&self) -> u64 {
        self.write_tag
    }

    /// The accumulated read-output tag: the boundary read tag before any
    /// stage is declared, afterwards the last declared stage's read-output.
    pub closed spec fn current_spec(&self) -> u64 {
        self.current
    }

    /// The builder invariant: the declared stages are read-compatible in
    /// order, the first one reads the boundary type, and the accumulated
    /// tag tracks the last stage.
    pub open spec fn wf(&self) -> bool {
        &&& forall|j: int|
            0 <= j < self.staged().len() - 1 ==> (#[trigger] self.staged()[j]).sig_spec().rout
                == self.staged()[j + 1].sig_spec().rin
        &&& self.staged().len() > 0 ==> self.staged()[0].sig_spec().rin == self.read_tag_spec()
        &&& self.current_spec() == if self.staged().len() == 0 {
            self.read_tag_spec()
        } else {
            self.staged().last().sig_spec().rout
        }
    }

    /// Creates a builder for a pipeline with the given boundary tags; the
    /// deferred procedure starts out as "produce an empty pipeline".
    pub fn new(read_tag: u64, write_tag: u64) -> (b: Self)
        ensures
            b.wf(),
            b.staged() == Seq::<H>::empty(),
            b.read_tag_spec() == read_tag,
            b.write_tag_spec() == write_tag,
            b.current_spec() == read_tag,
    {
        PipelineBuilder {
            staged: Vec::new(),
            read_tag,
            write_tag,
            current: read_tag,
            _marker: PhantomData,
        }
    }

    /// Declares the next stage.  The stage's read-input tag must equal the
    /// accumulated read-output tag; otherwise the stage is rejected before
    /// anything is attached, and the builder comes back unchanged.
    pub fn add(self, handler: H) -> (r: Result<Self, Rejected<Self, H>>)
        ensures
            r is Ok <==> handler.sig_spec().rin == self.current_spec(),
            (r matches Ok(b) ==> b.staged() == self.staged().push(handler) && b.read_tag_spec()
                == self.read_tag_spec() && b.write_tag_spec() == self.write_tag_spec()
                && b.current_spec() == handler.sig_spec().rout && (self.wf() ==> b.wf())),
            (r matches Err(rej) ==> rej.builder == self && rej.handler == handler && rej.error
                == (BuildError::ReadMismatch {
                expected: self.current_spec(),
                found: handler.sig_spec().rin,
            })),
    {
        let found: u64 = handler.sig().rin;
        if found != self.current {
            let expected: u64 = self.current;
            return Err(Rejected {
                builder: self,
                handler,
                error: BuildError::ReadMismatch { expected, found },
            });
        }
        let current: u64 = handler.sig().rout;
        let mut staged = self.staged;
        staged.push(handler);
        Ok(
            PipelineBuilder {
                staged,
                read_tag: self.read_tag,
                write_tag: self.write_tag,
                current,
                _marker: PhantomData,
            },
        )
    }

    /// Executes the deferred construction: creates an empty pipeline,
    /// replays every declared stage in order, and finalizes the result into
    /// the shared immutable handle.
    pub fn build(self) -> (r: Rc<Pipeline<M, H>>)
        requires
            self.wf(),
        ensures
            r.chain() == self.staged(),
            r.read_tag_spec() == self.read_tag_spec(),
            r.write_tag_spec() == self.write_tag_spec(),
            r.read_linked(),
    {
        let ghost declared: Seq<H> = self.staged@;
        let mut pipeline: Pipeline<M, H> = Pipeline::new(self.read_tag, self.write_tag);
        let mut rest = self.staged;
        proof {
            assert(rest@ =~= declared.skip(0));
            assert(pipeline.chain() =~= declared.take(0));
        }
        let ghost k: int = 0;
        while rest.len() > 0
            invariant
                0 <= k <= declared.len(),
                rest@ == declared.skip(k),
                pipeline.chain() == declared.take(k),
                pipeline.read_tag_spec() == self.read_tag_spec(),
                pipeline.write_tag_spec() == self.write_tag_spec(),
            decreases rest@.len(),
        {
            let stage = rest.remove(0);
            proof {
                assert(stage == declared.skip(k)[0]);
                assert(declared.skip(k)[0] == declared[k]);
                assert(rest@ =~= declared.skip(k).drop_first());
                assert(declared.skip(k).drop_first() =~= declared.skip(k + 1));
                assert(declared.take(k).push(declared[k]) =~= declared.take(k + 1));
            }
            pipeline.add_back(stage);
            proof {
                k = k + 1;
            }
        }
        proof {
            assert(declared.take(k) =~= declared);
        }
        pipeline.finalize()
    }
}

} // verus!
