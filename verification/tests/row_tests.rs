use wasm_terminal_2048::row::{move_row_left, move_row_right};

#[test]
fn test_row_move_left() {
    let test_case = vec![0, 2, 2, 4];
    let expected = vec![4, 4, 0, 0];
    let result = move_row_left(&test_case);
    assert_eq!(result, expected);

    let test_case = vec![2, 0, 2, 4];
    let expected = vec![4, 4, 0, 0];
    let result = move_row_left(&test_case);
    assert_eq!(result, expected);

    let test_case = vec![16, 0, 4, 4];
    let expected = vec![16, 8, 0, 0];
    let result = move_row_left(&test_case);
    assert_eq!(result, expected);

    let test_case = vec![0, 2, 0, 2];
    let expected = vec![4, 0, 0, 0];
    let result = move_row_left(&test_case);
    assert_eq!(result, expected);

    let test_case = vec![2, 2, 2, 2];
    let expected = vec![4, 4, 0, 0];
    let result = move_row_left(&test_case);
    assert_eq!(result, expected);

    let test_case = vec![2, 4, 2, 0];
    let expected = vec![2, 4, 2, 0];
    let result = move_row_left(&test_case);
    assert_eq!(result, expected);

    let test_case = vec![16, 0, 2, 0];
    let expected = vec![16, 2, 0, 0];
    let result = move_row_left(&test_case);
    assert_eq!(result, expected);
}

#[test]
fn test_row_move_right() {
    let test_case = vec![0, 2, 2, 4];
    let expected = vec![0, 0, 4, 4];
    let result = move_row_right(&test_case);
    assert_eq!(result, expected);

    let test_case = vec![2, 0, 2, 4];
    let expected = vec![0, 0, 4, 4];
    let result = move_row_right(&test_case);
    assert_eq!(result, expected);

    let test_case = vec![16, 0, 4, 4];
    let expected = vec![0, 0, 16, 8];
    let result = move_row_right(&test_case);
    assert_eq!(result, expected);

    let test_case = vec![0, 2, 0, 2];
    let expected = vec![0, 0, 0, 4];
    let result = move_row_right(&test_case);
    assert_eq!(result, expected);

    let test_case = vec![2, 2, 2, 2];
    let expected = vec![0, 0, 4, 4];
    let result = move_row_right(&test_case);
    assert_eq!(result, expected);

    let test_case = vec![2, 4, 2, 0];
    let expected = vec![0, 2, 4, 2];
    let result = move_row_right(&test_case);
    assert_eq!(result, expected);

    let test_case = vec![16, 0, 2, 0];
    let expected = vec![0, 0, 16, 2];
    let result = move_row_right(&test_case);
    assert_eq!(result, expected);
}

#[test]
fn row_transform_keeps_length_and_sum() {
    let cases: Vec<Vec<u16>> = vec![
        vec![0, 0, 0, 0],
        vec![0, 2, 2, 4],
        vec![2, 2, 2, 2],
        vec![16, 0, 4, 4],
        vec![2, 4, 2, 0],
        vec![8, 8, 8, 0],
        vec![32768, 4, 4, 2],
    ];
    for row in cases {
        let sum_in: u32 = row.iter().map(|v| *v as u32).sum();
        let right = move_row_right(&row);
        let left = move_row_left(&row);
        assert_eq!(right.len(), 4);
        assert_eq!(left.len(), 4);
        let sum_right: u32 = right.iter().map(|v| *v as u32).sum();
        let sum_left: u32 = left.iter().map(|v| *v as u32).sum();
        assert_eq!(sum_right, sum_in);
        assert_eq!(sum_left, sum_in);
        assert!(sum_right <= 2 * sum_in);
    }
}

#[test]
fn left_is_mirror_of_right() {
    let cases: Vec<Vec<u16>> = vec![
        vec![0, 2, 2, 4],
        vec![2, 2, 2, 2],
        vec![16, 0, 4, 4],
        vec![2, 4, 2, 0],
        vec![0, 0, 0, 0],
    ];
    for row in cases {
        let mut reversed: Vec<u16> = row.clone();
        reversed.reverse();
        let mut mirrored = move_row_right(&reversed);
        mirrored.reverse();
        assert_eq!(move_row_left(&row), mirrored);
    }
}

#[test]
fn settled_row_does_not_move_again() {
    // a row the transform has already settled: packed, no equal neighbors
    let settled = vec![0, 0, 16, 8];
    assert_eq!(move_row_right(&settled), settled);
    let settled = vec![16, 2, 0, 0];
    assert_eq!(move_row_left(&settled), settled);
    // but equal neighbors left behind by one slide do merge on the next
    let once = move_row_right(&vec![0, 2, 2, 4]);
    assert_eq!(once, vec![0, 0, 4, 4]);
    assert_eq!(move_row_right(&once), vec![0, 0, 0, 8]);
}
