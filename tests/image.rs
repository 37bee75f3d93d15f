use raytracing::image::assemble_rows;

#[test]
fn rows_are_joined_top_row_first() {
    let bottom = vec![1, 2, 3, 4, 5, 6];
    let middle = vec![7, 8, 9, 10, 11, 12];
    let top = vec![13, 14, 15, 16, 17, 18];
    let out = assemble_rows(vec![bottom, middle, top]);
    assert_eq!(
        out,
        vec![13, 14, 15, 16, 17, 18, 7, 8, 9, 10, 11, 12, 1, 2, 3, 4, 5, 6]
    );
}

#[test]
fn no_rows_give_an_empty_buffer() {
    assert!(assemble_rows(Vec::new()).is_empty());
    assert_eq!(assemble_rows(vec![vec![0, 0, 0]]), vec![0, 0, 0]);
}
