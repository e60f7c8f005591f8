use mandelplot::color::{pixel_color, Palette};
use mandelplot::escape::{escape_decision, EscapeStep};
use mandelplot::raster::Raster;
use mandelplot::render::{
    band_end, band_rows, band_start, compose_render, fill_band, summarize_workers, RenderOutcome,
};

/// Caller-side viewport interpolation: pixel (x, y) to a complex point.
fn pixel_to_point(
    x: u32,
    y: u32,
    width: u32,
    height: u32,
    re_start: f64,
    re_end: f64,
    im_start: f64,
    im_end: f64,
) -> (f64, f64) {
    (
        re_start + (x as f64 / width as f64) * (re_end - re_start),
        im_start + (y as f64 / height as f64) * (im_end - im_start),
    )
}

/// Caller-side escape loop over the verified decision rule.
fn run_point(c_re: f64, c_im: f64, budget: u32) -> Option<u32> {
    let mut z_re: f64 = 0.0;
    let mut z_im: f64 = 0.0;
    let mut i: u32 = 0;
    loop {
        let norm_sqr = z_re * z_re + z_im * z_im;
        match escape_decision(i, budget, norm_sqr > 4.0) {
            EscapeStep::Escaped(k) => return Some(k),
            EscapeStep::NoEscape => return None,
            EscapeStep::Continue => {
                let new_re = z_re * z_re - z_im * z_im + c_re;
                let new_im = z_re * z_im + z_im * z_re + c_im;
                z_re = new_re;
                z_im = new_im;
                i += 1;
            }
        }
    }
}

fn shade(k: u32) -> u8 {
    ((k as f64 / 255.0).sin() * 255.0) as u8
}

fn color_at(
    x: u32,
    y: u32,
    width: u32,
    height: u32,
    viewport: (f64, f64, f64, f64),
    max_iter: u32,
    palette: Palette,
) -> u8 {
    let (rs, re, is, ie) = viewport;
    let (c_re, c_im) = pixel_to_point(x, y, width, height, rs, re, is, ie);
    let escape = run_point(c_re, c_im, max_iter);
    let escape_shade = match escape {
        Some(k) => shade(k),
        None => 0,
    };
    pixel_color(escape, palette, escape_shade)
}

/// One worker's band of grayscale rows, computed as the renderer does.
fn compute_band(
    band: u32,
    workers: u32,
    width: u32,
    height: u32,
    viewport: (f64, f64, f64, f64),
    max_iter: u32,
    palette: Palette,
) -> Vec<Vec<u8>> {
    let from = band_start(band, height, workers);
    let to = band_end(band, height, workers);
    let mut rows = Vec::new();
    for y in from..to {
        let mut row = Vec::new();
        for x in 0..width {
            row.push(color_at(x, y, width, height, viewport, max_iter, palette));
        }
        rows.push(row);
    }
    rows
}

#[test]
fn small_grid_light_palette() {
    // 4 x 4 grid over (-2.5, -2.0)..(1.5, 2.0) with a light palette:
    // pixel (0, 0) maps to the corner coordinate (-2.5, -2.0), which
    // escapes immediately and shades to 0, while an interior point of
    // the set stays white.
    let (width, height, max_iter) = (4u32, 4u32, 10u32);
    let viewport = (-2.5, 1.5, -2.0, 2.0);
    let workers = 4u32;
    assert_eq!(
        pixel_to_point(0, 0, width, height, -2.5, 1.5, -2.0, 2.0),
        (-2.5, -2.0)
    );
    assert_eq!(run_point(-2.5, -2.0, max_iter), Some(1));

    let mut raster = Raster::new(width, height);
    for band in 0..workers {
        let rows = compute_band(band, workers, width, height, viewport, max_iter, Palette::Light);
        fill_band(&mut raster, band_start(band, height, workers), &rows);
    }
    // The corner escapes at iteration 1 and sin(1/255) * 255 truncates
    // to 0: a black pixel.
    assert_eq!(raster.get_pixel(0, 0), (0, 0, 0));
    // (2, 2) maps to c = -0.5 + 0i, inside the set: white on the light
    // palette.
    assert_eq!(
        pixel_to_point(2, 2, width, height, -2.5, 1.5, -2.0, 2.0),
        (-0.5, 0.0)
    );
    assert_eq!(raster.get_pixel(2, 2), (255, 255, 255));
}

#[test]
fn deep_cardioid_point_dark_palette() {
    // c = 0 under a dark palette and a generous budget: never escapes,
    // so the pixel is black.
    let (width, height, max_iter) = (1u32, 1u32, 1000u32);
    let viewport = (0.0, 1.0, 0.0, 1.0);
    let mut raster = Raster::new(width, height);
    let rows = compute_band(0, 1, width, height, viewport, max_iter, Palette::Dark);
    fill_band(&mut raster, band_start(0, height, 1), &rows);
    assert_eq!(raster.get_pixel(0, 0), (0, 0, 0));
}

#[test]
fn height_not_divisible_leaves_trailing_rows_default() {
    // 100 x 7 raster over 24 workers: floor(7 / 24) = 0 rows per band,
    // so no row is ever assigned and the raster keeps its default color
    // everywhere -- the documented trailing-gap policy.
    let (width, height) = (100u32, 7u32);
    let workers = 24u32;
    assert_eq!(band_rows(height, workers), 0);
    let viewport = (-2.5, 1.5, -2.0, 2.0);
    let mut raster = Raster::new(width, height);
    for band in 0..workers {
        assert_eq!(band_start(band, height, workers), 0);
        assert_eq!(band_end(band, height, workers), 0);
        let rows = compute_band(band, workers, width, height, viewport, 10, Palette::Light);
        assert_eq!(rows.len(), 0);
        fill_band(&mut raster, band_start(band, height, workers), &rows);
    }
    for y in 0..height {
        for x in 0..width {
            assert_eq!(raster.get_pixel(x, y), (0, 0, 0));
        }
    }
}

#[test]
fn partial_divisible_height_renders_all_rows() {
    // 3 x 8 raster over 4 workers: 2 rows per band, no trailing gap.
    let (width, height) = (3u32, 8u32);
    let workers = 4u32;
    assert_eq!(band_rows(height, workers), 2);
    assert_eq!(band_start(0, height, workers), 0);
    assert_eq!(band_end(3, height, workers), 8);
}

#[test]
fn failed_worker_does_not_block_the_rest() {
    // Four workers over a 3 x 8 raster; worker 2 fails. Its rows stay at
    // the default color, every other band is rendered, and the summary
    // names exactly the failed band.
    let (width, height, max_iter) = (3u32, 8u32, 10u32);
    let workers = 4u32;
    let viewport = (-2.5, 1.5, -2.0, 2.0);
    let mut raster = Raster::new(width, height);
    let mut results = Vec::new();
    for band in 0..workers {
        if band == 2 {
            results.push(false); // injected worker fault: band never filled
            continue;
        }
        let rows = compute_band(band, workers, width, height, viewport, max_iter, Palette::Light);
        fill_band(&mut raster, band_start(band, height, workers), &rows);
        results.push(true);
    }
    match summarize_workers(&results) {
        RenderOutcome::Partial(failed) => assert_eq!(failed, vec![2]),
        RenderOutcome::Complete => panic!("fault was not reported"),
    }
    // Band 2 covers rows 4..6: left black.
    for y in 4..6 {
        for x in 0..width {
            assert_eq!(raster.get_pixel(x, y), (0, 0, 0));
        }
    }
    // A rendered row matches the per-pixel rule; (2, 3) maps into the
    // main cardioid and stays white.
    for x in 0..width {
        let expected = color_at(x, 3, width, height, viewport, max_iter, Palette::Light);
        assert_eq!(raster.get_pixel(x, 3), (expected, expected, expected));
    }
    assert_eq!(raster.get_pixel(2, 3), (255, 255, 255));
}

#[test]
fn compose_fills_good_bands_and_reports_bad_ones() {
    // The verified join phase: worker 1 of 4 delivers nothing (a fault),
    // the rest deliver their bands; the outcome names band 1 and its
    // rows keep the default color.
    let (width, height, max_iter) = (3u32, 8u32, 10u32);
    let workers = 4u32;
    let viewport = (-2.5, 1.5, -2.0, 2.0);
    let mut raster = Raster::new(width, height);
    let mut bands: Vec<Option<Vec<Vec<u8>>>> = Vec::new();
    for band in 0..workers {
        if band == 1 {
            bands.push(None);
        } else {
            bands.push(Some(compute_band(
                band,
                workers,
                width,
                height,
                viewport,
                max_iter,
                Palette::Light,
            )));
        }
    }
    match compose_render(&mut raster, &bands, workers) {
        RenderOutcome::Partial(failed) => assert_eq!(failed, vec![1]),
        RenderOutcome::Complete => panic!("fault was not reported"),
    }
    // Band 1 covers rows 2..4: left black.
    for y in 2..4 {
        for x in 0..width {
            assert_eq!(raster.get_pixel(x, y), (0, 0, 0));
        }
    }
    // Every other row matches the per-pixel rule.
    for y in (0..2).chain(4..8) {
        for x in 0..width {
            let expected = color_at(x, y, width, height, viewport, max_iter, Palette::Light);
            assert_eq!(raster.get_pixel(x, y), (expected, expected, expected));
        }
    }
}

#[test]
fn compose_rejects_malformed_band() {
    // A band whose rows are the wrong width counts as failed and is not
    // written into the raster.
    let workers = 2u32;
    let mut raster = Raster::new(4, 4);
    let good = vec![vec![9u8; 4], vec![9u8; 4]];
    let bad = vec![vec![7u8; 3], vec![7u8; 4]];
    let bands = vec![Some(bad), Some(good)];
    match compose_render(&mut raster, &bands, workers) {
        RenderOutcome::Partial(failed) => assert_eq!(failed, vec![0]),
        RenderOutcome::Complete => panic!("malformed band accepted"),
    }
    for y in 0..2 {
        for x in 0..4 {
            assert_eq!(raster.get_pixel(x, y), (0, 0, 0));
        }
    }
    for y in 2..4 {
        for x in 0..4 {
            assert_eq!(raster.get_pixel(x, y), (9, 9, 9));
        }
    }
}

#[test]
fn compose_complete_render() {
    let workers = 2u32;
    let mut raster = Raster::new(2, 4);
    let bands = vec![
        Some(vec![vec![1u8, 2], vec![3, 4]]),
        Some(vec![vec![5u8, 6], vec![7, 8]]),
    ];
    match compose_render(&mut raster, &bands, workers) {
        RenderOutcome::Complete => {}
        RenderOutcome::Partial(_) => panic!("spurious failure report"),
    }
    assert_eq!(raster.get_pixel(0, 0), (1, 1, 1));
    assert_eq!(raster.get_pixel(1, 0), (2, 2, 2));
    assert_eq!(raster.get_pixel(0, 3), (7, 7, 7));
    assert_eq!(raster.get_pixel(0, 2), (5, 5, 5));
}

#[test]
fn all_workers_complete_summary() {
    let results = vec![true, true, true];
    match summarize_workers(&results) {
        RenderOutcome::Complete => {}
        RenderOutcome::Partial(_) => panic!("spurious failure report"),
    }
}
