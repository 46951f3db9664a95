//! Assembly-time behaviour of the two builders.

use sansio::AssertEqual;
use sansio::BuildError;
use sansio::HandlerSig;
use sansio::Msg;
use sansio::PipelineBuilder;
use sansio::Relay;
use sansio::Sig;
use sansio::Start;
use sansio::TypedPipelineBuilder;

const BYTES: u64 = 1;
const FRAME: u64 = 2;
const TEXT: u64 = 3;
const W_OUTER: u64 = 9;
const W_MID: u64 = 8;
const W_INNER: u64 = 7;

fn front_stage() -> Relay {
    Relay::new(Sig { rin: BYTES, rout: FRAME, win: W_MID, wout: W_OUTER }, 1)
}

fn back_stage() -> Relay {
    Relay::new(Sig { rin: FRAME, rout: TEXT, win: W_INNER, wout: W_MID }, 10)
}

#[test]
fn lazy_builder_accepts_matching_chain() {
    let builder: PipelineBuilder<Msg, Relay> = PipelineBuilder::new(BYTES, W_OUTER);
    let builder = builder.add(front_stage()).ok().unwrap();
    let builder = builder.add(back_stage()).ok().unwrap();
    let pipeline = builder.build();
    assert_eq!(pipeline.read_tag(), BYTES);
    assert_eq!(pipeline.write_tag(), W_OUTER);
    assert_eq!(pipeline.len(), 2);
}

#[test]
fn typed_builder_accepts_matching_chain() {
    let builder: TypedPipelineBuilder<Msg, Relay> = TypedPipelineBuilder::new(BYTES, W_OUTER);
    let builder = builder.add_back(front_stage()).ok().unwrap();
    let builder = builder.add_back(back_stage()).ok().unwrap();
    let pipeline = builder.build();
    assert_eq!(pipeline.read_tag(), BYTES);
    assert_eq!(pipeline.write_tag(), W_OUTER);
    assert_eq!(pipeline.len(), 2);
}

#[test]
fn lazy_builder_rejects_read_mismatch() {
    let builder: PipelineBuilder<Msg, Relay> = PipelineBuilder::new(BYTES, W_OUTER);
    let rejected = builder.add(back_stage()).err().unwrap();
    assert_eq!(
        rejected.error,
        BuildError::ReadMismatch { expected: BYTES, found: FRAME }
    );
    // Nothing was attached: the handed-back builder still accepts the
    // matching stage and builds the expected chain.
    let builder = rejected.builder.add(front_stage()).ok().unwrap();
    let pipeline = builder.build();
    assert_eq!(pipeline.len(), 1);
    assert_eq!(pipeline.read_tag(), BYTES);
}

#[test]
fn lazy_builder_rejects_second_stage_mismatch() {
    let builder: PipelineBuilder<Msg, Relay> = PipelineBuilder::new(BYTES, W_OUTER);
    let builder = builder.add(front_stage()).ok().unwrap();
    let rejected = builder.add(front_stage()).err().unwrap();
    assert_eq!(
        rejected.error,
        BuildError::ReadMismatch { expected: FRAME, found: BYTES }
    );
}

#[test]
fn typed_builder_rejects_read_mismatch() {
    let builder: TypedPipelineBuilder<Msg, Relay> = TypedPipelineBuilder::new(BYTES, W_OUTER);
    let rejected = builder.add_back(back_stage()).err().unwrap();
    assert_eq!(
        rejected.error,
        BuildError::ReadMismatch { expected: BYTES, found: FRAME }
    );
}

#[test]
fn typed_builder_rejects_write_mismatch() {
    let builder: TypedPipelineBuilder<Msg, Relay> = TypedPipelineBuilder::new(BYTES, W_OUTER);
    // Read side matches, write-output does not meet the boundary.
    let stage = Relay::new(Sig { rin: BYTES, rout: FRAME, win: W_MID, wout: W_INNER }, 1);
    let rejected = builder.add_back(stage).err().unwrap();
    assert_eq!(
        rejected.error,
        BuildError::WriteMismatch { expected: W_OUTER, found: W_INNER }
    );
    // Nothing was attached: the handed-back builder still builds an empty
    // pipeline after accepting the matching stage.
    let builder = rejected.builder.add_back(front_stage()).ok().unwrap();
    let pipeline = builder.build();
    assert_eq!(pipeline.len(), 1);
}

#[test]
fn typed_builder_escape_hatch_bypasses_checks() {
    let mut builder: TypedPipelineBuilder<Msg, Relay> = TypedPipelineBuilder::new(BYTES, W_OUTER);
    // This stage would be rejected by add_back; the untyped pipeline takes
    // it without checking.
    builder.as_untyped_mut().add_back(back_stage());
    let pipeline = builder.build();
    assert_eq!(pipeline.len(), 1);
}

fn assert_same_type<A, B>()
where
    (): AssertEqual<A, B>,
{
}

#[test]
fn assert_equal_holds_for_identical_types() {
    assert_same_type::<u8, u8>();
    assert_same_type::<Msg, Msg>();
}

#[test]
fn start_sig_projects_boundary_tags() {
    let start = Start { r: BYTES, w: W_OUTER };
    assert_eq!(
        start.sig(),
        Sig { rin: BYTES, rout: BYTES, win: W_OUTER, wout: W_OUTER }
    );
}

#[test]
fn relay_sig_is_its_configuration() {
    let stage = front_stage();
    assert_eq!(
        stage.sig(),
        Sig { rin: BYTES, rout: FRAME, win: W_MID, wout: W_OUTER }
    );
}
