pub mod cli;
pub mod engine;
pub mod heatmap;
pub mod laws;
pub mod render;
pub mod rewrite;
pub mod scan;
pub mod simple;
pub mod stats;
