//! A sans-I/O handler-chain library.
//!
//! Protocol processing is organised as a pipeline of stages.  Each stage
//! implements the [`Handler`] contract: it consumes inbound ("read") and
//! outbound ("write") messages, updates its internal state, and queues zero
//! or more derived outputs that are drained by polling.  No stage performs
//! I/O itself; an external driver pushes read messages into the front of a
//! pipeline and drains write messages from it.
//!
//! The message types a stage consumes and produces are described by a
//! value-level signature of four tags ([`Sig`]).  The builders check at
//! assembly time that adjacent stages agree on those tags, so a mismatched
//! chain is rejected before any stage runs.

mod handler;
mod pipeline;
mod pipeline_builder;
mod relay;
mod typed;

pub use handler::BuildError;
pub use handler::Handler;
pub use handler::HandlerSig;
pub use handler::Rejected;
pub use handler::Sig;
pub use pipeline::Pipeline;
pub use pipeline::feed_emits;
pub use pipeline::feed_fault;
pub use pipeline::feed_next;
pub use pipeline::feed_ok;
pub use pipeline::read_inputs_at;
pub use pipeline::wfeed_emits;
pub use pipeline::wfeed_fault;
pub use pipeline::wfeed_next;
pub use pipeline::wfeed_ok;
pub use pipeline::lemma_read_locality;
pub use pipeline::lemma_read_order;
pub use pipeline::lemma_write_locality;
pub use pipeline::lemma_write_order;
pub use pipeline::read_failure_at;
pub use pipeline::read_output;
pub use pipeline::read_pass_done;
pub use pipeline::read_pass_failed;
pub use pipeline::read_stage_after;
pub use pipeline::read_stage_fault;
pub use pipeline::read_stage_ok;
pub use pipeline::write_failure_at;
pub use pipeline::write_inputs_at;
pub use pipeline::write_output;
pub use pipeline::write_pass_done;
pub use pipeline::write_pass_failed;
pub use pipeline::write_stage_after;
pub use pipeline::write_stage_fault;
pub use pipeline::write_stage_ok;
pub use pipeline_builder::PipelineBuilder;
pub use relay::Msg;
pub use relay::lemma_relay_stage_isolation;
pub use relay::Relay;
pub use relay::RelayFault;
pub use relay::RelayState;
pub use typed::AssertEqual;
pub use typed::Start;
pub use typed::TypedPipelineBuilder;
