pub mod join_benchmark;
pub mod tuple;
