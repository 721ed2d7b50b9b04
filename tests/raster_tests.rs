use std::sync::Arc;

use ghostwriter::raster::{alpha_to_bitmap, dedup_polyline, prune_polylines, svg_to_bitmap, RasterError, FALLBACK_SVG};
use ghostwriter::device::DeviceModel;
use ghostwriter::pen::Pen;
use resvg::usvg::fontdb::Database;

fn fonts() -> Arc<Database> {
    Arc::new(Database::new())
}

#[test]
fn alpha_threshold_is_one_half() {
    let b = alpha_to_bitmap(&vec![0, 127, 128, 255, 129, 1], 3, 2);
    assert_eq!(b, vec![vec![false, false, true], vec![true, true, false]]);
}

#[test]
fn alpha_to_bitmap_of_nothing() {
    assert_eq!(alpha_to_bitmap(&vec![], 0, 3), vec![Vec::<bool>::new(), vec![], vec![]]);
    assert!(alpha_to_bitmap(&vec![], 5, 0).is_empty());
}

#[test]
fn svg_to_bitmap_renders_shapes() {
    let svg = "<svg width='4' height='2' xmlns='http://www.w3.org/2000/svg'><rect x='0' y='0' width='2' height='2' fill='black'/></svg>";
    let b = svg_to_bitmap(svg, 4, 2, &fonts()).unwrap();
    assert_eq!(b, vec![vec![true, true, false, false], vec![true, true, false, false]]);
}

#[test]
fn svg_to_bitmap_falls_back_on_unparsable_document() {
    let f = fonts();
    let bad = svg_to_bitmap("this is not a drawing", 40, 30, &f).unwrap();
    let fallback = svg_to_bitmap(FALLBACK_SVG, 40, 30, &f).unwrap();
    assert_eq!(bad, fallback);
    assert_eq!(bad.len(), 30);
    assert!(bad.iter().all(|row| row.len() == 40));
}

#[test]
fn svg_to_bitmap_rejects_empty_canvas() {
    assert_eq!(svg_to_bitmap(FALLBACK_SVG, 0, 10, &fonts()), Err(RasterError::InvalidSize));
    assert_eq!(svg_to_bitmap(FALLBACK_SVG, 10, 0, &fonts()), Err(RasterError::InvalidSize));
}

#[test]
fn dedup_removes_consecutive_repeats_only() {
    let pts = vec![(0, 0), (0, 0), (1, 0), (1, 0), (1, 0), (0, 0), (2, 2)];
    assert_eq!(dedup_polyline(&pts), vec![(0, 0), (1, 0), (0, 0), (2, 2)]);
    assert_eq!(dedup_polyline(&vec![]), vec![]);
    assert_eq!(dedup_polyline(&vec![(3, 3), (3, 3)]), vec![(3, 3)]);
}

#[test]
fn closed_path_has_no_repeated_point() {
    // a square whose closing point repeats the start, with a doubled corner
    let square = vec![(0, 0), (10, 0), (10, 0), (10, 10), (0, 10), (0, 0)];
    let out = prune_polylines(&vec![square, vec![(5, 5)]]);
    assert_eq!(out, vec![vec![(0, 0), (10, 0), (10, 10), (0, 10), (0, 0)], vec![(5, 5)]]);
    for pl in &out {
        for w in pl.windows(2) {
            assert_ne!(w[0], w[1]);
        }
    }
}

#[test]
fn svg_to_bitmap_succeeds_on_any_makeable_canvas() {
    let f = fonts();
    let b = svg_to_bitmap("<svg", 1, 1, &f).unwrap();
    assert_eq!(b, vec![vec![false]]);
    let b = svg_to_bitmap(FALLBACK_SVG, 768, 1024, &f).unwrap();
    assert_eq!(b.len(), 1024);
    assert!(b.iter().all(|row| row.len() == 768));
}

#[test]
fn fallback_drawing_fits_the_canvas() {
    assert!(FALLBACK_SVG.contains("width='768'"));
    assert!(FALLBACK_SVG.contains("height='1024'"));
}

#[test]
fn svg_to_bitmap_rejects_canvas_beyond_renderer_bounds() {
    assert_eq!(svg_to_bitmap(FALLBACK_SVG, 429496730, 1, &fonts()), Err(RasterError::InvalidSize));
    assert_eq!(svg_to_bitmap(FALLBACK_SVG, 1, 429496730, &fonts()), Err(RasterError::InvalidSize));
}

#[test]
fn pruned_polyline_draws_the_same() {
    let pl = vec![(0, 0), (0, 0), (4, 0), (4, 0), (4, 3), (0, 0)];
    let mut a = Pen::new(DeviceModel::Remarkable2);
    a.draw_svg(&vec![pl.clone()]);
    let mut b = Pen::new(DeviceModel::Remarkable2);
    b.draw_svg(&prune_polylines(&vec![pl]));
    assert_eq!(a.take_actions(), b.take_actions());
}
