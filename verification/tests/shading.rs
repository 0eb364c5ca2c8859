use mandelbrot::partition::{assemble_bands, band_layout};
use mandelbrot::shade::{brightness, shade_tile, ESCAPE_LIMIT};

#[test]
fn palette_endpoints() {
    // never escaping is darkest, escaping at once is brightest
    assert_eq!(brightness(None), 0);
    assert_eq!(brightness(Some(0)), 255);
    assert_eq!(brightness(Some(254)), 1);
}

#[test]
fn palette_is_monotone_in_the_escape_count() {
    let mut previous = brightness(Some(0));
    for count in 1..ESCAPE_LIMIT {
        let current = brightness(Some(count));
        assert!(current <= previous);
        assert!(current > brightness(None));
        previous = current;
    }
}

#[test]
fn shade_tile_applies_the_palette_pointwise() {
    let escapes = vec![Some(0), Some(10), None, Some(254), Some(1)];
    assert_eq!(shade_tile(&escapes), vec![255, 245, 0, 1, 254]);
    assert_eq!(shade_tile(&vec![]), vec![]);
}

#[test]
fn single_interior_point_renders_black() {
    // a 1x1 surface whose only point never escapes yields pixel value 0
    let escapes = vec![None];
    assert_eq!(shade_tile(&escapes), vec![0]);
}

// shading band by band and reassembling equals shading the whole buffer,
// whatever the worker count
#[test]
fn banded_shading_is_worker_count_independent() {
    let width = 3usize;
    let height = 5usize;
    let escapes: Vec<Option<u32>> = (0..width * height)
        .map(|p| if p % 4 == 3 { None } else { Some((7 * p as u32) % 255) })
        .collect();
    let whole = shade_tile(&escapes);
    for workers in [1usize, 2, 3, 4, 16] {
        let bands = band_layout(height, workers);
        let parts: Vec<Vec<u8>> = bands
            .iter()
            .map(|band| {
                let from = band.start_row * width;
                let to = (band.start_row + band.rows) * width;
                shade_tile(&escapes[from..to].to_vec())
            })
            .collect();
        let assembled = assemble_bands(width, height, workers, &parts);
        assert_eq!(assembled, whole);
    }
}
