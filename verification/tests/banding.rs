use mandelbrot::partition::{assemble_bands, band_count, band_layout, rows_per_band, Band};

#[test]
fn rows_per_band_matches_the_rule() {
    assert_eq!(rows_per_band(100, 3), 34);
    assert_eq!(rows_per_band(10, 1), 11);
    assert_eq!(rows_per_band(5, 8), 1);
    assert_eq!(rows_per_band(3000, 8), 376);
}

#[test]
fn layout_covers_every_row_exactly_once() {
    // the partition property on a few concrete surfaces
    for &(height, workers) in &[(100usize, 3usize), (10, 1), (5, 8), (3000, 8), (1, 1), (7, 7)] {
        let bands = band_layout(height, workers);
        assert!(bands.len() <= workers);
        assert_eq!(bands.len(), band_count(height, workers));
        let mut covered = vec![0usize; height];
        for band in &bands {
            assert!(band.rows >= 1);
            for row in band.start_row..band.start_row + band.rows {
                covered[row] += 1;
            }
        }
        assert!(covered.iter().all(|&c| c == 1));
    }
}

#[test]
fn layout_of_one_hundred_rows_for_three_workers() {
    let bands = band_layout(100, 3);
    assert_eq!(
        bands,
        vec![
            Band { start_row: 0, rows: 34 },
            Band { start_row: 34, rows: 34 },
            Band { start_row: 68, rows: 32 },
        ]
    );
}

#[test]
fn layout_with_more_workers_than_rows() {
    let bands = band_layout(5, 8);
    assert_eq!(bands.len(), 5);
    for (i, band) in bands.iter().enumerate() {
        assert_eq!(band.start_row, i);
        assert_eq!(band.rows, 1);
    }
}

#[test]
fn layout_of_an_empty_surface_is_empty() {
    assert_eq!(band_layout(0, 4), vec![]);
    assert_eq!(band_count(0, 4), 0);
}

#[test]
fn assemble_restores_row_order() {
    // width 2, height 3, two workers: bands of 2 rows and 1 row
    let bands = band_layout(3, 2);
    assert_eq!(
        bands,
        vec![Band { start_row: 0, rows: 2 }, Band { start_row: 2, rows: 1 }]
    );
    let parts = vec![vec![1u8, 2, 3, 4], vec![5u8, 6]];
    let buffer = assemble_bands(2, 3, 2, &parts);
    assert_eq!(buffer, vec![1, 2, 3, 4, 5, 6]);
}
