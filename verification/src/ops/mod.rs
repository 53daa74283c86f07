//! The nodes that the framework brings along.

pub mod blit;
pub mod render_pass;
