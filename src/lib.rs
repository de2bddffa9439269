pub mod aggregation;
pub mod allow_list;
pub mod codec;
pub mod collector;
pub mod event;
pub mod perf;
pub mod probe;
pub mod ring;
