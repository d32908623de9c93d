pub mod descriptor;
pub mod envelope;
pub mod pipeline;
pub mod rational;
pub mod task;
pub mod transport;
