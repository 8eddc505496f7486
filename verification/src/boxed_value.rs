pub mod canon_stream_map;
