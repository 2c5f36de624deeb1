pub mod model;
pub mod tracks;
pub mod lines;
pub mod repo;
pub mod pipeline;
