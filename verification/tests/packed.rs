use dan_core_n::packed::{
    compact, compact_dense_group, compact_group, compact_lists, fit, fit_group, fit_lists,
    padded_len, resize_group, PackedColumn,
};

#[test]
fn padded_length_is_whole_blocks() {
    assert_eq!(padded_len(128, 4), 128);
    assert_eq!(padded_len(129, 4), 132);
    assert_eq!(padded_len(0, 8), 0);
    assert_eq!(padded_len(1, 8), 8);
    assert_eq!(padded_len(7, 1), 7);
    assert_eq!(padded_len(10, 3), 12);
}

#[test]
fn filled_column_has_the_blocks_for_its_capacity() {
    let column = PackedColumn::filled(10, 4, 7u32);
    assert_eq!(column.len(), 3);
    assert_eq!(column.rows(), 12);
    assert_eq!(column.lanes_per_block(), 4);
    for i in 0..12 {
        assert_eq!(column.get(i), 7);
    }
    let exact = PackedColumn::filled(128, 8, 0i16);
    assert_eq!(exact.len(), 16);
    let scalar = PackedColumn::filled(5, 1, 0i16);
    assert_eq!(scalar.len(), 5);
}

#[test]
fn unallocated_column_is_empty() {
    let column: PackedColumn<u32> = PackedColumn::unallocated(4);
    assert_eq!(column.len(), 0);
    assert_eq!(column.rows(), 0);
}

#[test]
fn set_changes_one_row() {
    let mut column = PackedColumn::filled(6, 4, 0u32);
    column.set(5, 9);
    for i in 0..8 {
        assert_eq!(column.get(i), if i == 5 { 9 } else { 0 });
    }
}

#[test]
fn resize_keeps_rows_and_fills_new_ones() {
    let mut column = PackedColumn::filled(4, 4, 1u32);
    column.set(2, 5);
    column.resize(4, 9, 8);
    assert_eq!(column.len(), 3);
    let rows: Vec<u32> = (0..12).map(|i| column.get(i)).collect();
    assert_eq!(rows, vec![1, 1, 5, 1, 8, 8, 8, 8, 8, 8, 8, 8]);
    column.resize(9, 3, 8);
    assert_eq!(column.len(), 1);
    let rows: Vec<u32> = (0..4).map(|i| column.get(i)).collect();
    assert_eq!(rows, vec![1, 1, 5, 8]);
}

#[test]
fn resize_drops_what_the_rows_behind_the_slots_held() {
    let mut column = PackedColumn::filled(6, 4, 0u32);
    assert_eq!(column.rows(), 8);
    column.set(5, 50);
    column.set(6, 60);
    column.set(7, 70);
    column.resize(6, 8, 9);
    let rows: Vec<u32> = (0..8).map(|i| column.get(i)).collect();
    assert_eq!(rows, vec![0, 0, 0, 0, 0, 50, 9, 9]);

    let mut column = PackedColumn::filled(8, 8, 0u32);
    column.set(3, 30);
    column.set(6, 60);
    column.resize(8, 4, 1);
    assert_eq!(column.rows(), 8);
    let rows: Vec<u32> = (0..8).map(|i| column.get(i)).collect();
    assert_eq!(rows, vec![0, 0, 0, 30, 1, 1, 1, 1]);
    column.resize(4, 8, 2);
    let rows: Vec<u32> = (0..8).map(|i| column.get(i)).collect();
    assert_eq!(rows, vec![0, 0, 0, 30, 2, 2, 2, 2]);
}

#[test]
fn compaction_drops_what_the_rows_behind_the_slots_held() {
    let mut column = PackedColumn::filled(5, 4, 0u32);
    assert_eq!(column.rows(), 8);
    for i in 0..8 {
        column.set(i, 10 + i as u32);
    }
    let dead = vec![true, false, false, true, false];
    column.compact(&dead, 5, 8, 99);
    let rows: Vec<u32> = (0..8).map(|i| column.get(i)).collect();
    assert_eq!(rows, vec![11, 12, 14, 99, 99, 99, 99, 99]);

    let mut column = PackedColumn::filled(8, 4, 0u32);
    for i in 0..8 {
        column.set(i, 10 + i as u32);
    }
    column.compact(&vec![false; 8], 8, 6, 99);
    let rows: Vec<u32> = (0..8).map(|i| column.get(i)).collect();
    assert_eq!(rows, vec![10, 11, 12, 13, 14, 15, 99, 99]);
}

#[test]
fn packed_compaction_keeps_live_rows_in_order() {
    let mut column = PackedColumn::filled(8, 4, 0u32);
    for i in 0..8 {
        column.set(i, 10 + i as u32);
    }
    let dead = vec![false, true, true, false, false, true, false, false];
    column.compact(&dead, 8, 6, 99);
    assert_eq!(column.len(), 2);
    let rows: Vec<u32> = (0..8).map(|i| column.get(i)).collect();
    assert_eq!(rows, vec![10, 13, 14, 16, 17, 99, 99, 99]);
}

#[test]
fn rows_without_a_flag_are_kept() {
    let mut rows = vec![1, 2, 3, 4, 5];
    compact(&mut rows, &vec![true, false], 5, 0);
    assert_eq!(rows, vec![2, 3, 4, 5, 0]);
}

#[test]
fn compaction_cuts_down_to_the_new_length() {
    let mut rows = vec![1, 2, 3, 4, 5];
    compact(&mut rows, &vec![false, true, false, false, false], 2, 0);
    assert_eq!(rows, vec![1, 3]);
}

#[test]
fn fit_cuts_and_fills() {
    let mut rows = vec![1, 2, 3];
    fit(&mut rows, 5, 9);
    assert_eq!(rows, vec![1, 2, 3, 9, 9]);
    fit(&mut rows, 2, 9);
    assert_eq!(rows, vec![1, 2]);
    fit(&mut rows, 2, 9);
    assert_eq!(rows, vec![1, 2]);
}

#[test]
fn lists_fit_and_compact_with_empty_lists() {
    let mut rows = vec![vec![1], vec![2, 2], vec![3]];
    fit_lists(&mut rows, 4);
    assert_eq!(rows, vec![vec![1], vec![2, 2], vec![3], vec![]]);
    compact_lists(&mut rows, &vec![true, false, false, false], 4);
    assert_eq!(rows, vec![vec![2, 2], vec![3], vec![], vec![]]);
    fit_lists(&mut rows, 1);
    assert_eq!(rows, vec![vec![2, 2]]);
}

#[test]
fn groups_leave_unallocated_columns_alone() {
    let mut columns = vec![PackedColumn::filled(4, 2, 1u32), PackedColumn::unallocated(2)];
    resize_group(&mut columns, &vec![true, false], &vec![7, 8], 4, 6);
    assert_eq!(columns[0].len(), 3);
    assert_eq!(columns[0].get(5), 7);
    assert_eq!(columns[0].get(0), 1);
    assert_eq!(columns[1].len(), 0);

    compact_group(&mut columns, &vec![true, false], &vec![7, 8], &vec![true, false, false], 6, 4);
    assert_eq!(columns[0].len(), 2);
    let rows: Vec<u32> = (0..4).map(|i| columns[0].get(i)).collect();
    assert_eq!(rows, vec![1, 1, 1, 7]);
    assert_eq!(columns[1].len(), 0);

    let mut dense = vec![vec![1, 2, 3], vec![]];
    fit_group(&mut dense, &vec![true, false], 0, 4);
    assert_eq!(dense, vec![vec![1, 2, 3, 0], vec![]]);
    compact_dense_group(&mut dense, &vec![true, false], 0, &vec![false, true], 3);
    assert_eq!(dense, vec![vec![1, 3, 0], vec![]]);
}
