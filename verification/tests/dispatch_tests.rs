//! Runtime behaviour of the pipeline dispatch and the handler contract.

use sansio::Handler;
use sansio::Msg;
use sansio::Pipeline;
use sansio::Relay;
use sansio::RelayFault;
use sansio::Sig;

const BYTES: u64 = 1;
const FRAME: u64 = 2;
const TEXT: u64 = 3;
const W_OUTER: u64 = 9;
const W_MID: u64 = 8;
const W_INNER: u64 = 7;

fn front_sig() -> Sig {
    Sig { rin: BYTES, rout: FRAME, win: W_MID, wout: W_OUTER }
}

fn back_sig() -> Sig {
    Sig { rin: FRAME, rout: TEXT, win: W_INNER, wout: W_MID }
}

#[test]
fn two_stage_read_scenario_yields_one_output() {
    // Bytes become a frame, the frame becomes text: one input message, one
    // dispatch call, exactly one output.
    let mut pipeline: Pipeline<Msg, Relay> = Pipeline::new(BYTES, W_OUTER);
    pipeline.add_back(Relay::new(front_sig(), 0));
    pipeline.add_back(Relay::new(back_sig(), 0));
    let out = pipeline.read_dispatch(Msg { tag: BYTES, body: 42 }).ok().unwrap();
    assert_eq!(out, vec![Msg { tag: TEXT, body: 42 }]);
}

#[test]
fn read_dispatch_preserves_order_left_to_right() {
    // The duplicating front stage emits two distinct messages; the back
    // stage sees them in order and the outputs keep that order.
    let mut pipeline: Pipeline<Msg, Relay> = Pipeline::new(BYTES, W_OUTER);
    pipeline.add_back(Relay::duplicating(front_sig(), 1));
    pipeline.add_back(Relay::new(back_sig(), 10));
    let out = pipeline.read_dispatch(Msg { tag: BYTES, body: 100 }).ok().unwrap();
    assert_eq!(
        out,
        vec![Msg { tag: TEXT, body: 111 }, Msg { tag: TEXT, body: 112 }]
    );
}

#[test]
fn write_dispatch_flows_right_to_left() {
    let mut pipeline: Pipeline<Msg, Relay> = Pipeline::new(BYTES, W_OUTER);
    pipeline.add_back(Relay::new(front_sig(), 1));
    pipeline.add_back(Relay::new(back_sig(), 10));
    // Pushed at the back: the back stage re-tags to its write-output, then
    // the front stage re-tags to the boundary write type.
    let out = pipeline.write_dispatch(Msg { tag: W_INNER, body: 100 }).ok().unwrap();
    assert_eq!(out, vec![Msg { tag: W_OUTER, body: 111 }]);
}

#[test]
fn read_dispatch_error_short_circuits() {
    // The middle stage refuses everything: the pass aborts with its error
    // and delivers nothing to the caller.
    let mut pipeline: Pipeline<Msg, Relay> = Pipeline::new(BYTES, W_OUTER);
    pipeline.add_back(Relay::new(front_sig(), 1));
    pipeline.add_back(Relay::failing(back_sig()));
    pipeline.add_back(Relay::duplicating(
        Sig { rin: TEXT, rout: 4, win: 6, wout: W_INNER },
        1,
    ));
    let err = pipeline.read_dispatch(Msg { tag: BYTES, body: 5 }).err().unwrap();
    assert_eq!(err, RelayFault::Refused);
    // A pipeline without the refusing stage shows what the last stage
    // produces when messages do reach it.
    let mut open_pipeline: Pipeline<Msg, Relay> = Pipeline::new(BYTES, W_OUTER);
    open_pipeline.add_back(Relay::new(front_sig(), 1));
    open_pipeline.add_back(Relay::duplicating(
        Sig { rin: FRAME, rout: 4, win: 6, wout: W_MID },
        1,
    ));
    let out = open_pipeline.read_dispatch(Msg { tag: BYTES, body: 5 }).ok().unwrap();
    assert_eq!(out, vec![Msg { tag: 4, body: 7 }, Msg { tag: 4, body: 8 }]);
}

#[test]
fn overflow_is_reported_as_stage_error() {
    let mut pipeline: Pipeline<Msg, Relay> = Pipeline::new(BYTES, W_OUTER);
    pipeline.add_back(Relay::new(front_sig(), u64::MAX));
    let err = pipeline.read_dispatch(Msg { tag: BYTES, body: 1 }).err().unwrap();
    assert_eq!(err, RelayFault::Overflow);
}

#[test]
fn empty_pipeline_is_a_no_op() {
    // With no stages there is no registered consumer: a pushed message
    // produces no output in either direction, and is not looped back.
    let mut pipeline: Pipeline<Msg, Relay> = Pipeline::new(5, 5);
    let out = pipeline.read_dispatch(Msg { tag: 5, body: 77 }).ok().unwrap();
    assert_eq!(out, Vec::new());
    let out = pipeline.write_dispatch(Msg { tag: 5, body: 77 }).ok().unwrap();
    assert_eq!(out, Vec::new());
}

#[test]
fn poll_read_stays_empty_after_drain() {
    // Idempotence of polling: once drained, poll_read keeps returning
    // nothing until another handle_read produces more output.
    let mut stage = Relay::duplicating(front_sig(), 1);
    stage.handle_read(Msg { tag: BYTES, body: 10 }).ok().unwrap();
    assert_eq!(stage.poll_read(), Some(Msg { tag: FRAME, body: 11 }));
    assert_eq!(stage.poll_read(), Some(Msg { tag: FRAME, body: 12 }));
    assert_eq!(stage.poll_read(), None);
    assert_eq!(stage.poll_read(), None);
    assert_eq!(stage.poll_read(), None);
    stage.handle_read(Msg { tag: BYTES, body: 20 }).ok().unwrap();
    assert_eq!(stage.poll_read(), Some(Msg { tag: FRAME, body: 21 }));
}

#[test]
fn poll_write_stays_empty_after_drain() {
    let mut stage = Relay::new(front_sig(), 1);
    stage.handle_write(Msg { tag: W_MID, body: 30 }).ok().unwrap();
    assert_eq!(stage.poll_write(), Some(Msg { tag: W_OUTER, body: 31 }));
    assert_eq!(stage.poll_write(), None);
    assert_eq!(stage.poll_write(), None);
}

#[test]
fn channels_are_independent() {
    // Write traffic does not disturb queued read outputs, and neither
    // direction leaks into the other.
    let mut stage = Relay::new(front_sig(), 0);
    stage.handle_read(Msg { tag: BYTES, body: 1 }).ok().unwrap();
    stage.handle_write(Msg { tag: W_MID, body: 2 }).ok().unwrap();
    assert_eq!(stage.poll_read(), Some(Msg { tag: FRAME, body: 1 }));
    assert_eq!(stage.poll_read(), None);
    assert_eq!(stage.poll_write(), Some(Msg { tag: W_OUTER, body: 2 }));
    assert_eq!(stage.poll_write(), None);
}

#[test]
fn default_event_and_timeout_do_nothing() {
    let mut stage = Relay::new(front_sig(), 1);
    stage.handle_event(Msg { tag: BYTES, body: 0 }).ok().unwrap();
    assert_eq!(stage.poll_event(), None);
    stage.handle_timeout(123).ok().unwrap();
    assert_eq!(stage.poll_timeout(), None);
    // The side channels produced no data-path output either.
    assert_eq!(stage.poll_read(), None);
    assert_eq!(stage.poll_write(), None);
}

#[test]
fn failed_pass_keeps_earlier_stage_state() {
    // The pass is not transactional: the front stage has consumed the
    // message even though the back stage refused its derivative.
    let mut pipeline: Pipeline<Msg, Relay> = Pipeline::new(BYTES, W_OUTER);
    pipeline.add_back(Relay::new(front_sig(), 1));
    pipeline.add_back(Relay::failing(back_sig()));
    let err = pipeline.read_dispatch(Msg { tag: BYTES, body: 5 }).err().unwrap();
    assert_eq!(err, RelayFault::Refused);
    // The write direction of the failing stage is also refused.
    let err = pipeline.write_dispatch(Msg { tag: W_INNER, body: 5 }).err().unwrap();
    assert_eq!(err, RelayFault::Refused);
}
