pub mod generation;
pub mod values_matrix;
pub mod json;
pub mod security_tetraplet;
pub mod value_aggregate;
pub mod errors;
pub mod stream_map_key;
pub mod trace_handler;
pub mod stream;
pub mod stream_map;
pub mod stream_maps_variables;
pub mod interpreter_outcome;
pub mod assoc;
pub mod results;
pub mod text;
pub mod value_types;
pub mod boxed_value;
pub mod lambda_ast;
