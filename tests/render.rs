use mandel::color::{hsv_to_rgb, ColorRgb, MixRatio};
use mandel::escape::{escape_color, escape_time};
use mandel::plane::map_pixel;
use mandel::raster::{merge_part, Canvas, MergeError};
use mandel::render::{render, render_tile, RenderError};
use mandel::tiles::{partition, PartitionError, Tile};

fn mandel_pixel(width: u32, max_iter: u16, radius: f64, mix: MixRatio) -> impl Fn(u32, u32) -> ColorRgb {
    move |x: u32, y: u32| {
        let p = map_pixel(width, x, y);
        let c0 = (p.re_num as f64 / p.den as f64, p.im_num as f64 / p.den as f64);
        let e = escape_time(
            (0.0f64, 0.0f64),
            max_iter,
            |c: &(f64, f64)| (c.0 * c.0 + c.1 * c.1).sqrt() > radius,
            |c: (f64, f64)| (c.0 * c.0 - c.1 * c.1 + c0.0, 2.0 * c.0 * c.1 + c0.1),
        );
        escape_color(e, mix)
    }
}

fn pixel_of(bytes: &[u8], width: u32, x: u32, y: u32) -> ColorRgb {
    let k = 3 * (y as usize * width as usize + x as usize);
    (bytes[k], bytes[k + 1], bytes[k + 2])
}

#[test]
fn tile_colours_row_by_row() {
    let t = Tile { id: 1, column_start: 10, column_end: 20 };
    let v = render_tile(t, 3, &|x: u32, y: u32| (x as u8, y as u8, 7));
    assert_eq!(v.len(), 30);
    assert_eq!(v[0], (10, 0, 7));
    assert_eq!(v[9], (19, 0, 7));
    assert_eq!(v[11], (11, 1, 7));
    assert_eq!(v[29], (19, 2, 7));
}

#[test]
fn empty_tile_has_no_colours() {
    let t = Tile { id: 0, column_start: 5, column_end: 5 };
    assert!(render_tile(t, 4, &|_x: u32, _y: u32| (1, 1, 1)).is_empty());
}

#[test]
fn new_canvas_is_black() {
    let c = Canvas::new(3, 2).unwrap();
    assert_eq!(c.into_bytes(), vec![0u8; 18]);
}

#[test]
fn oversized_canvas_is_refused() {
    assert!(Canvas::new(u32::MAX, u32::MAX).is_none());
}

#[test]
fn merge_places_tile_at_its_columns() {
    let mut c = Canvas::new(4, 2).unwrap();
    let t = Tile { id: 1, column_start: 2, column_end: 4 };
    let colors = vec![(1, 2, 3), (4, 5, 6), (7, 8, 9), (10, 11, 12)];
    assert_eq!(merge_part(&mut c, t, &colors), Ok(()));
    let b = c.into_bytes();
    assert_eq!(pixel_of(&b, 4, 0, 0), (0, 0, 0));
    assert_eq!(pixel_of(&b, 4, 2, 0), (1, 2, 3));
    assert_eq!(pixel_of(&b, 4, 3, 0), (4, 5, 6));
    assert_eq!(pixel_of(&b, 4, 1, 1), (0, 0, 0));
    assert_eq!(pixel_of(&b, 4, 2, 1), (7, 8, 9));
    assert_eq!(pixel_of(&b, 4, 3, 1), (10, 11, 12));
}

#[test]
fn merge_refuses_tile_outside_image() {
    let mut c = Canvas::new(4, 2).unwrap();
    let t = Tile { id: 2, column_start: 4, column_end: 6 };
    assert_eq!(merge_part(&mut c, t, &vec![(1, 1, 1); 4]), Err(MergeError::TileOutOfBounds));
    let t = Tile { id: 0, column_start: 3, column_end: 2 };
    assert_eq!(merge_part(&mut c, t, &vec![]), Err(MergeError::TileOutOfBounds));
    assert_eq!(c.into_bytes(), vec![0u8; 24]);
}

#[test]
fn merge_refuses_wrong_length() {
    let mut c = Canvas::new(4, 2).unwrap();
    let t = Tile { id: 0, column_start: 0, column_end: 2 };
    assert_eq!(merge_part(&mut c, t, &vec![(1, 1, 1); 3]), Err(MergeError::WrongLength));
    assert_eq!(c.into_bytes(), vec![0u8; 24]);
}

#[test]
fn merge_order_does_not_matter() {
    let tiles = partition(8, 4).unwrap();
    let f = |x: u32, y: u32| (x as u8, y as u8, (x * y) as u8);
    let parts: Vec<(Tile, Vec<ColorRgb>)> = tiles.iter().map(|t| (*t, render_tile(*t, 3, &f))).collect();
    let mut a = Canvas::new(8, 3).unwrap();
    for (t, cs) in parts.iter() {
        merge_part(&mut a, *t, cs).unwrap();
    }
    let mut b = Canvas::new(8, 3).unwrap();
    for (t, cs) in parts.iter().rev() {
        merge_part(&mut b, *t, cs).unwrap();
    }
    assert_eq!(a.into_bytes(), b.into_bytes());
}

#[test]
fn render_reports_partition_errors() {
    let f = |_x: u32, _y: u32| (0, 0, 0);
    assert_eq!(render(40, 40, 0, &f).err(), Some(RenderError::Partition(PartitionError::NoWorkers)));
    assert_eq!(render(40, 40, 3, &f).err(), Some(RenderError::Partition(PartitionError::Indivisible)));
}

#[test]
fn render_reports_oversized_image() {
    let f = |_x: u32, _y: u32| (0, 0, 0);
    assert_eq!(render(u32::MAX, u32::MAX, 1, &f).err(), Some(RenderError::TooLarge));
}

#[test]
fn tiled_render_equals_single_tile_render() {
    let mix = MixRatio::new(3, 10).unwrap();
    let f = mandel_pixel(40, 50, 2.0, mix);
    let one = render(40, 40, 1, &f).unwrap().into_bytes();
    for &threads in &[2u32, 4, 5, 8, 20, 40] {
        let many = render(40, 40, threads, &f).unwrap().into_bytes();
        assert_eq!(one, many);
    }
}

#[test]
fn end_to_end_forty_by_forty() {
    let mix = MixRatio::new(1, 1).unwrap();
    let f = mandel_pixel(40, 50, 2.0, mix);
    let img = render(40, 40, 4, &f).unwrap().into_bytes();
    assert_eq!(img.len(), 40 * 40 * 3);
    // (0, 0) maps to -3 - i, outside the radius: it diverges at the second check
    assert_eq!(pixel_of(&img, 40, 0, 0), hsv_to_rgb(2, mix));
    assert_eq!(pixel_of(&img, 40, 0, 0), (127, 4, 0));
    // (30, 10) maps to the origin, which stays bounded: black
    assert_eq!(pixel_of(&img, 40, 30, 10), (0, 0, 0));
    for y in 0..40u32 {
        for x in 0..40u32 {
            assert_eq!(pixel_of(&img, 40, x, y), f(x, y));
        }
    }
}

#[test]
fn tile_render_is_repeatable() {
    let mix = MixRatio::new(3, 10).unwrap();
    let f = mandel_pixel(40, 50, 2.0, mix);
    for t in partition(40, 4).unwrap() {
        assert_eq!(render_tile(t, 40, &f), render_tile(t, 40, &f));
    }
}

#[test]
fn canvas_row_too_wide_is_refused() {
    let f = |_x: u32, _y: u32| (0, 0, 0);
    if usize::MAX as u128 / 3 < u32::MAX as u128 {
        assert!(Canvas::new(u32::MAX, 0).is_none());
        assert_eq!(render(u32::MAX, 0, 1, &f).err(), Some(RenderError::TooLarge));
    } else {
        assert!(Canvas::new(u32::MAX, 0).is_some());
        assert!(render(u32::MAX, 0, 1, &f).is_ok());
    }
}
