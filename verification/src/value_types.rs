pub mod canon_stream_map;
pub mod jvaluable;
