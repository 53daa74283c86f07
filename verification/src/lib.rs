//! Reify, a data-oriented rendering framework: the render-graph core.
//!
//! A frame of rendering is described as a graph of nodes that read and write
//! images. The graph is compiled into an execution order with the barriers
//! that the GPU needs between the nodes, and a runtime turns the compiled
//! graph into the stream of commands of one frame.

pub mod arena;
pub mod depgraph;
pub mod device;
pub mod display;
pub mod draw;
pub mod error;
pub mod frame;
pub mod graph;
pub mod misc;
pub mod ops;
pub mod pool;
pub mod resource;
pub mod transfer;
pub mod vk;

pub use error::Error;
