use air::generation::GenerationIdx;
use air::values_matrix::{NewValuesMatrix, ValuesMatrix};

fn values<T: Copy>(refs: Vec<&T>) -> Vec<T> {
    refs.into_iter().copied().collect()
}

#[test]
fn add_value_to_generation_pads_with_empty_generations() {
    let mut matrix = ValuesMatrix::new();
    matrix.add_value_to_generation(1u32, GenerationIdx(2));
    assert_eq!(matrix.generations_count(), GenerationIdx(3));
    matrix.add_value_to_generation(2, GenerationIdx(0));
    matrix.add_value_to_generation(3, GenerationIdx(2));
    assert_eq!(matrix.generations_count(), GenerationIdx(3));
    assert_eq!(values(matrix.iter()), vec![2, 1, 3]);
}

#[test]
fn slice_iter_skips_non_empty_generations() {
    let mut matrix = ValuesMatrix::new();
    matrix.add_value_to_generation(1u32, GenerationIdx(0));
    matrix.add_value_to_generation(2, GenerationIdx(2));
    matrix.add_value_to_generation(3, GenerationIdx(2));
    matrix.add_value_to_generation(4, GenerationIdx(4));

    let all: Vec<Vec<u32>> = matrix.slice_iter(GenerationIdx(0)).into_iter().map(|s| s.to_vec()).collect();
    assert_eq!(all, vec![vec![1], vec![2, 3], vec![4]]);
    let skipped: Vec<Vec<u32>> = matrix.slice_iter(GenerationIdx(1)).into_iter().map(|s| s.to_vec()).collect();
    assert_eq!(skipped, vec![vec![2, 3], vec![4]]);
    assert!(matrix.slice_iter(GenerationIdx(3)).is_empty());
    assert!(matrix.slice_iter(GenerationIdx(7)).is_empty());
}

#[test]
fn remove_empty_generations_keeps_values_in_order() {
    let mut matrix = ValuesMatrix::new();
    matrix.add_value_to_generation(5u32, GenerationIdx(3));
    matrix.add_value_to_generation(6, GenerationIdx(1));
    matrix.add_value_to_generation(7, GenerationIdx(3));
    let before = values(matrix.iter());
    assert_eq!(matrix.generations_count(), GenerationIdx(4));

    matrix.remove_empty_generations();
    assert_eq!(matrix.generations_count(), GenerationIdx(2));
    assert_eq!(values(matrix.iter()), before);
    assert_eq!(values(matrix.iter()), vec![6, 5, 7]);

    matrix.remove_empty_generations();
    assert_eq!(matrix.generations_count(), GenerationIdx(2));
}

#[test]
fn empty_matrix_has_no_values() {
    let matrix: ValuesMatrix<u32> = ValuesMatrix::default();
    assert_eq!(matrix.generations_count(), GenerationIdx(0));
    assert!(matrix.iter().is_empty());
    assert!(matrix.slice_iter(GenerationIdx(0)).is_empty());
}

#[test]
fn new_values_go_to_last_generation() {
    let mut matrix = NewValuesMatrix::new();
    assert!(matrix.last_generation_is_empty());
    assert_eq!(matrix.last_non_empty_generation_idx(), GenerationIdx(0));

    matrix.add_to_last_generation(7u32);
    assert_eq!(matrix.generations_count(), GenerationIdx(1));
    assert!(!matrix.last_generation_is_empty());

    matrix.add_new_empty_generation();
    assert_eq!(matrix.generations_count(), GenerationIdx(2));
    assert!(matrix.last_generation_is_empty());
    assert_eq!(matrix.last_non_empty_generation_idx(), GenerationIdx(1));

    matrix.add_to_last_generation(8);
    matrix.add_to_last_generation(9);
    assert_eq!(values(matrix.iter()), vec![7, 8, 9]);
    let slices: Vec<Vec<u32>> = matrix.slice_iter(GenerationIdx(0)).into_iter().map(|s| s.to_vec()).collect();
    assert_eq!(slices, vec![vec![7], vec![8, 9]]);

    matrix.remove_last_generation();
    assert_eq!(values(matrix.iter()), vec![7]);
    matrix.remove_last_generation();
    matrix.remove_last_generation();
    assert_eq!(matrix.generations_count(), GenerationIdx(0));
}

#[test]
fn new_values_matrix_drops_empty_generations() {
    let mut matrix: NewValuesMatrix<u32> = NewValuesMatrix::default();
    matrix.add_new_empty_generation();
    matrix.add_to_last_generation(1);
    matrix.add_new_empty_generation();
    matrix.add_new_empty_generation();
    matrix.add_to_last_generation(2);
    assert_eq!(matrix.generations_count(), GenerationIdx(3));
    matrix.remove_empty_generations();
    assert_eq!(matrix.generations_count(), GenerationIdx(2));
    assert_eq!(values(matrix.iter()), vec![1, 2]);
}

#[test]
fn generation_idx_conversions() {
    assert_eq!(GenerationIdx::from_usize(42), GenerationIdx(42));
    assert_eq!(GenerationIdx(42).to_usize(), 42);
    assert_eq!(GenerationIdx(1).checked_add(GenerationIdx(2)), Some(GenerationIdx(3)));
    assert_eq!(GenerationIdx(u32::MAX).checked_add(GenerationIdx(1)), None);
}

#[test]
fn generations_keep_empty_ones_for_the_matrix_text() {
    let mut matrix = ValuesMatrix::new();
    matrix.add_value_to_generation(1u32, GenerationIdx(0));
    matrix.add_value_to_generation(2, GenerationIdx(2));
    let generations = matrix.generations();
    assert_eq!(generations.len(), 3);
    let texts: Vec<Vec<String>> =
        generations.iter().map(|g| g.iter().map(|v| v.to_string()).collect()).collect();
    assert_eq!(air::values_matrix::values_matrix_text(&texts), "[\n -- 0: 1, \n -- 1: \n -- 2: 2, \n]");

    let mut new_values = NewValuesMatrix::new();
    new_values.add_new_empty_generation();
    new_values.add_to_last_generation(7u32);
    new_values.add_new_empty_generation();
    let lens: Vec<usize> = new_values.generations().iter().map(|g| g.len()).collect();
    assert_eq!(lens, vec![1, 0]);
}
