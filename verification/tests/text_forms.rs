use air::boxed_value::canon_stream_map::canon_stream_map_text;
use air::stream_maps_variables::display::{descriptor_text, stream_maps_text};
use air::stream_maps_variables::{AirPos, Span};
use air::value_types::canon_stream_map::canon_map_text;
use air::values_matrix::values_matrix_text;

fn texts(items: &[&str]) -> Vec<String> {
    items.iter().map(|s| s.to_string()).collect()
}

fn pairs(items: &[(&str, &str)]) -> Vec<(String, String)> {
    items.iter().map(|(a, b)| (a.to_string(), b.to_string())).collect()
}

#[test]
fn empty_matrix_text() {
    assert_eq!(values_matrix_text(&vec![]), "[]");
}

#[test]
fn matrix_text_numbers_its_generations() {
    let generations = vec![texts(&["1", "2"]), texts(&[]), texts(&["x"])];
    assert_eq!(values_matrix_text(&generations), "[\n -- 0: 1, 2, \n -- 1: \n -- 2: x, \n]");
}

#[test]
fn canon_stream_map_text_lists_values() {
    assert_eq!(canon_stream_map_text(&texts(&["a", "b"])), "[a, b, ]");
    assert_eq!(canon_stream_map_text(&texts(&[])), "[]");
}

#[test]
fn canon_map_text_lists_keys_with_their_streams() {
    assert_eq!(canon_map_text(&pairs(&[("k", "[1]"), ("7", "[]")])), "[k : [1], 7 : [], ]");
}

#[test]
fn descriptor_text_shows_the_span() {
    assert_eq!(descriptor_text(Span::new(AirPos(1), AirPos(9)), "m"), " <1> - <9>: m");
}

#[test]
fn stream_maps_text_has_a_line_per_name() {
    assert_eq!(stream_maps_text(&pairs(&[("a", "x"), ("b", "y")])), "a => x\nb => y\n");
    assert_eq!(stream_maps_text(&vec![]), "");
}
