pub mod builder;
pub mod graph;
pub mod scratch;
pub mod source;
pub mod watch;
pub mod workspace;
