//! Schema-aware transcoding of typed column values into JSON, and the
//! bounded-batch pipe that carries converted records from a source to a sink.

pub mod convert;
pub mod decimal;
pub mod json;
pub mod offset;
pub mod pipe;
pub mod render;
pub mod sink;
pub mod text;
pub mod value;
