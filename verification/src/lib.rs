//! Entropy-to-serial pipeline: sample noisy hardware bits into a bounded
//! decimal value, render it as a fixed-width ASCII frame, and decide, tick by
//! tick, when a frame may be produced and sent.

pub mod entropy;
pub mod formatter;
pub mod frame;
pub mod sampler;
pub mod scheduler;
