//! Archive engine: format selection, path and size resolution, progress
//! accounting, output naming and the plans that drive each codec.

pub mod text;
pub mod kind;
pub mod path;
pub mod size;
pub mod progress;
pub mod unique;
pub mod naming;
pub mod engine;
pub mod zipplan;
pub mod facade;
pub mod session;
