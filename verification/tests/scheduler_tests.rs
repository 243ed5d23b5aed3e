use pathtracer::scheduler::{
    block_offset, flatten_pixels, partition_rows, rows_per_block, scene_row, worker_count, workers_for, RowBlock,
};

#[test]
fn one_processor_is_left_free() {
    assert_eq!(workers_for(8), 7);
    assert_eq!(workers_for(2), 1);
    assert_eq!(workers_for(1), 1);
    assert_eq!(workers_for(0), 1);
}

#[test]
fn there_is_always_a_worker() {
    assert!(worker_count() >= 1);
}

#[test]
fn full_block_is_quotient_plus_one() {
    assert_eq!(rows_per_block(500, 7), 72);
    assert_eq!(rows_per_block(500, 1), 501);
    assert_eq!(rows_per_block(6, 3), 3);
    assert_eq!(rows_per_block(0, 4), 1);
}

#[test]
fn rows_are_shared_out_in_order() {
    let blocks = partition_rows(500, 7);
    assert_eq!(blocks.len(), 7);
    for i in 0..6 {
        assert_eq!(blocks[i], RowBlock { first_row: i * 72, rows: 72 });
    }
    assert_eq!(blocks[6], RowBlock { first_row: 432, rows: 68 });
}

#[test]
fn fewer_blocks_than_workers_when_rows_run_out() {
    let blocks = partition_rows(6, 3);
    assert_eq!(blocks, vec![
        RowBlock { first_row: 0, rows: 3 },
        RowBlock { first_row: 3, rows: 3 },
    ]);
}

#[test]
fn single_worker_takes_every_row() {
    assert_eq!(partition_rows(500, 1), vec![RowBlock { first_row: 0, rows: 500 }]);
}

#[test]
fn no_rows_no_blocks() {
    assert!(partition_rows(0, 4).is_empty());
}

#[test]
fn every_row_has_exactly_one_owner() {
    for workers in 1..12 {
        for height in 0..60 {
            let blocks = partition_rows(height, workers);
            assert!(blocks.len() <= workers);
            for row in 0..height {
                let owners = blocks
                    .iter()
                    .filter(|b| b.first_row <= row && row < b.first_row + b.rows)
                    .count();
                assert_eq!(owners, 1);
            }
        }
    }
}

#[test]
fn pixel_lands_at_the_same_place_for_any_worker_count() {
    let width = 5;
    let height = 17;
    for workers in 1..9 {
        let blocks = partition_rows(height, workers);
        for b in blocks.iter() {
            for y in 0..b.rows {
                for x in 0..width {
                    let in_frame = b.first_row * width + block_offset(width, y, x);
                    assert_eq!(in_frame, (b.first_row + y) * width + x);
                }
            }
        }
    }
}

#[test]
fn frame_is_drawn_top_down() {
    assert_eq!(scene_row(500, 0), 499);
    assert_eq!(scene_row(500, 499), 0);
    assert_eq!(scene_row(500, 100), 399);
    assert_eq!(scene_row(1, 0), 0);
    for row in 0..37 {
        assert_eq!(scene_row(37, scene_row(37, row)), row);
    }
}

#[test]
fn block_offset_is_row_major() {
    assert_eq!(block_offset(500, 0, 0), 0);
    assert_eq!(block_offset(500, 2, 17), 1017);
}

#[test]
fn pixels_are_flattened_channel_by_channel() {
    let pixels = vec![[1u8, 2, 3], [40, 50, 60]];
    assert_eq!(flatten_pixels(&pixels), vec![1u8, 2, 3, 40, 50, 60]);
    assert!(flatten_pixels(&Vec::new()).is_empty());
}
