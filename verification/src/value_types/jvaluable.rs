pub mod resolved_call_result;
