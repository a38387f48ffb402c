//! The topology engine of an observability pipeline: event sizes, component
//! declarations and their differences, bounded buffers with acknowledgements,
//! fanouts, the reload state machine, pipeline checks, and two sinks.

pub mod data_type;
pub mod event;
pub mod diff;
pub mod buffer;
pub mod fanout;
pub mod topology;
pub mod sinks;
pub mod pipeline;
pub mod transform;
pub mod validate;
