use mosaic::buffer::PixelBuffer;
use mosaic::error::MosaicError;
use mosaic::grid::GridIndexer;
use mosaic::matcher::build_mosaic;
use mosaic::parse::parse_vec2;
use mosaic::vec2::{Rect, Vec2};

const PARSE_ERR: &str = "Expects inputs like \"4x4\"";

fn solid_rows(colors: [[u8; 3]; 4], w: usize, h: usize) -> Vec<u8> {
    // four quadrant colors: top-left, top-right, bottom-left, bottom-right
    let mut data = Vec::new();
    for y in 0..h {
        for x in 0..w {
            let q = if y < h / 2 {
                if x < w / 2 {
                    0
                } else {
                    1
                }
            } else {
                if x < w / 2 {
                    2
                } else {
                    3
                }
            };
            data.extend_from_slice(&colors[q]);
        }
    }
    data
}

fn buf(w: usize, h: usize, data: Vec<u8>) -> PixelBuffer {
    PixelBuffer::from_raw(Vec2::new(w, h), data).expect("dimensions match data")
}

#[test]
fn vec2_constructors() {
    let v = Vec2::new(3usize, 7usize);
    assert_eq!(v.x, 3);
    assert_eq!(v.y, 7);
    let s = Vec2::splat(5usize);
    assert_eq!((s.x, s.y), (5, 5));
    assert_eq!(v.with_x(9).x, 9);
    assert_eq!(v.with_x(9).y, 7);
    assert_eq!(v.with_y(9).y, 9);
    assert_eq!(v.with_y(9).x, 3);
    let ex = Vec2::x(4u16);
    assert_eq!((ex.x, ex.y), (4, 0));
    let ey = Vec2::y(4u16);
    assert_eq!((ey.x, ey.y), (0, 4));
}

#[test]
fn vec2_from_tuple() {
    assert_eq!(Vec2::from((3usize, 4usize)), Vec2::new(3, 4));
}

#[test]
fn vec2_zip_map_join() {
    let a = Vec2::new(1usize, 2usize);
    let b = Vec2::new(10u8, 20u8);
    let z = a.zip(b);
    assert_eq!(z.x, (1, 10u8));
    assert_eq!(z.y, (2, 20u8));
    let m = a.map(|v| v + 1);
    assert_eq!((m.x, m.y), (2, 3));
    let mx = a.map_x(|v| v * 10);
    assert_eq!((mx.x, mx.y), (10, 2));
    let my = a.map_y(|v| v * 10);
    assert_eq!((my.x, my.y), (1, 20));
    let j = a.join(Vec2::new(4usize, 5usize), |p, q| p + q);
    assert_eq!((j.x, j.y), (5, 7));
}

#[test]
fn vec2_arithmetic() {
    let a = Vec2::new(6usize, 8usize);
    let b = Vec2::new(2usize, 4usize);
    assert_eq!(a.add(b), Vec2::new(8, 12));
    assert_eq!(a.sub(b), Vec2::new(4, 4));
    assert_eq!(a.mul(b), Vec2::new(12, 32));
    assert_eq!(a.div(b), Vec2::new(3, 2));
    let mut c = a;
    c.add_assign(b);
    assert_eq!(c, Vec2::new(8, 12));
    c.sub_assign(b);
    assert_eq!(c, a);
    c.mul_assign(b);
    assert_eq!(c, Vec2::new(12, 32));
    c.div_assign(b);
    assert_eq!(c, a);
}

#[test]
fn vec2_algebraic_identities() {
    // a + b - b == a, a * splat(1) == a, commutativity of add and mul
    let a = Vec2::new(13usize, 44usize);
    let b = Vec2::new(5usize, 9usize);
    assert_eq!(a.add(b).sub(b), a);
    assert_eq!(a.mul(Vec2::splat(1)), a);
    assert_eq!(a.add(b), b.add(a));
    assert_eq!(a.mul(b), b.mul(a));
}

#[test]
fn vec2_area_and_row_major() {
    assert_eq!(Vec2::new(4usize, 3usize).area(), 12);
    assert_eq!(Vec2::new(0usize, 9usize).area(), 0);
    assert_eq!(Vec2::new(2usize, 3usize).index_row_major(5), 17);
    assert_eq!(Vec2::new(0usize, 0usize).index_row_major(5), 0);
}

#[test]
fn row_major_indices_dense_and_distinct() {
    // every coordinate of a 4x3 grid gets a distinct index in [0, 12)
    let (w, h) = (4usize, 3usize);
    let mut seen = vec![false; w * h];
    for y in 0..h {
        for x in 0..w {
            let i = Vec2::new(x, y).index_row_major(w);
            assert!(i < w * h);
            assert!(!seen[i]);
            seen[i] = true;
        }
    }
    assert!(seen.iter().all(|&s| s));
}

#[test]
fn shrink_centered_insets_each_side() {
    let r = Rect { pos: Vec2::new(5usize, 6usize), size: Vec2::new(10usize, 8usize) };
    let s = r.shrink_centered(Vec2::new(1, 2));
    assert_eq!(s.pos, Vec2::new(6, 8));
    assert_eq!(s.size, Vec2::new(8, 4));
    // the inverse (growing by the same factor) restores the region
    let back = Rect { pos: s.pos.sub(Vec2::new(1, 2)), size: s.size.add(Vec2::new(2, 4)) };
    assert_eq!(back, r);
    // a zero factor changes nothing
    assert_eq!(r.shrink_centered(Vec2::splat(0)), r);
}

#[test]
fn parse_vec2_accepts_well_formed_sizes() {
    assert_eq!(parse_vec2("4x4"), Ok(Vec2::new(4usize, 4usize)));
    assert_eq!(parse_vec2("2x3"), Ok(Vec2::new(2usize, 3usize)));
    assert_eq!(parse_vec2("0x0"), Ok(Vec2::new(0usize, 0usize)));
    assert_eq!(parse_vec2("+12x+007"), Ok(Vec2::new(12usize, 7usize)));
}

#[test]
fn parse_vec2_rejects_malformed_sizes() {
    for bad in ["", "4", "4x", "x4", "x", "ax4", "4xb", "4 x 4", "-1x4", "4x4x4", "++4x4"] {
        assert_eq!(parse_vec2(bad), Err(PARSE_ERR.to_owned()), "input {bad:?}");
    }
}

#[test]
fn parse_vec2_rejects_overflow() {
    assert_eq!(
        parse_vec2("99999999999999999999999999x1"),
        Err(PARSE_ERR.to_owned())
    );
}

#[test]
fn grid_indexer_rejects_zero_tiles() {
    let t = Vec2::new(8usize, 8usize);
    assert_eq!(
        GridIndexer::new(t, Vec2::new(0, 2)),
        Err(MosaicError::ConfigurationError)
    );
    assert_eq!(
        GridIndexer::new(t, Vec2::new(2, 0)),
        Err(MosaicError::ConfigurationError)
    );
    assert_eq!(
        GridIndexer::new(t, Vec2::new(0, 0)),
        Err(MosaicError::ConfigurationError)
    );
    assert!(GridIndexer::new(t, Vec2::new(1, 1)).is_ok());
}

#[test]
fn grid_size_rounds_up() {
    let g = GridIndexer::new(Vec2::new(10usize, 7usize), Vec2::new(4, 4)).unwrap();
    assert_eq!(g.grid_size(), Vec2::new(3, 2));
    let g = GridIndexer::new(Vec2::new(8usize, 8usize), Vec2::new(4, 4)).unwrap();
    assert_eq!(g.grid_size(), Vec2::new(2, 2));
    let g = GridIndexer::new(Vec2::new(0usize, 5usize), Vec2::new(4, 4)).unwrap();
    assert_eq!(g.grid_size(), Vec2::new(0, 2));
}

#[test]
fn region_at_clips_edge_tiles() {
    let g = GridIndexer::new(Vec2::new(10usize, 7usize), Vec2::new(4, 4)).unwrap();
    let r = g.region_at(Vec2::new(0, 0));
    assert_eq!(r.pos, Vec2::new(0, 0));
    assert_eq!(r.size, Vec2::new(4, 4));
    let r = g.region_at(Vec2::new(2, 1));
    assert_eq!(r.pos, Vec2::new(8, 4));
    assert_eq!(r.size, Vec2::new(2, 3));
}

#[test]
fn regions_enumerate_row_major_and_tile_exactly() {
    let g = GridIndexer::new(Vec2::new(5usize, 3usize), Vec2::new(2, 2)).unwrap();
    let rs = g.regions();
    let coords: Vec<_> = rs.iter().map(|(c, _)| (c.x, c.y)).collect();
    assert_eq!(coords, vec![(0, 0), (1, 0), (2, 0), (0, 1), (1, 1), (2, 1)]);
    // no gaps, no overlaps: each template pixel lies in exactly one region
    for py in 0..3usize {
        for px in 0..5usize {
            let n = rs
                .iter()
                .filter(|(_, r)| {
                    r.pos.x <= px && px < r.pos.x + r.size.x && r.pos.y <= py
                        && py < r.pos.y + r.size.y
                })
                .count();
            assert_eq!(n, 1, "pixel ({px},{py})");
        }
    }
    // the region areas sum to the template area
    let total: usize = rs.iter().map(|(_, r)| r.size.area()).sum();
    assert_eq!(total, 15);
}

#[test]
fn pixel_buffer_round_trip() {
    assert!(PixelBuffer::from_raw(Vec2::new(2usize, 2usize), vec![0; 11]).is_none());
    assert!(PixelBuffer::from_raw(Vec2::new(2usize, 2usize), vec![0; 12]).is_some());
    let mut b = buf(2, 2, vec![0; 12]);
    assert_eq!(b.size(), Vec2::new(2, 2));
    b.set_pixel(Vec2::new(1, 0), (9, 8, 7));
    assert_eq!(b.get_pixel(Vec2::new(1, 0)), (9, 8, 7));
    assert_eq!(b.get_pixel(Vec2::new(0, 0)), (0, 0, 0));
    assert_eq!(b.get_pixel(Vec2::new(1, 1)), (0, 0, 0));
    let raw = b.into_raw();
    assert_eq!(raw, vec![0, 0, 0, 9, 8, 7, 0, 0, 0, 0, 0, 0]);
}

#[test]
fn build_mosaic_zero_tile_is_configuration_error() {
    let t = buf(4, 4, vec![0; 48]);
    let sources = vec![buf(4, 4, vec![0; 48])];
    assert!(matches!(
        build_mosaic(&t, &sources, Vec2::new(0, 0)),
        Err(MosaicError::ConfigurationError)
    ));
    assert!(matches!(
        build_mosaic(&t, &sources, Vec2::new(0, 2)),
        Err(MosaicError::ConfigurationError)
    ));
}

#[test]
fn build_mosaic_without_sources_is_insufficient() {
    let t = buf(4, 4, vec![0; 48]);
    assert!(matches!(
        build_mosaic(&t, &Vec::new(), Vec2::new(2, 2)),
        Err(MosaicError::InsufficientSourceMaterial)
    ));
}

#[test]
fn build_mosaic_with_undersized_sources_is_insufficient() {
    let t = buf(4, 4, vec![0; 48]);
    // a 1x1 source holds no full 2x2 tile
    let sources = vec![buf(1, 1, vec![1, 2, 3])];
    assert!(matches!(
        build_mosaic(&t, &sources, Vec2::new(2, 2)),
        Err(MosaicError::InsufficientSourceMaterial)
    ));
}

#[test]
fn build_mosaic_reproduces_quadrant_template() {
    // tile size 2x2; a 4x4 template of four distinct solid quadrants and one
    // source holding exactly those four tiles: the output equals the template
    let colors = [[255, 0, 0], [0, 255, 0], [0, 0, 255], [255, 255, 255]];
    let tdata = solid_rows(colors, 4, 4);
    let t = buf(4, 4, tdata.clone());
    let sources = vec![buf(4, 4, solid_rows(colors, 4, 4))];
    let out = build_mosaic(&t, &sources, Vec2::new(2, 2)).unwrap();
    assert_eq!(out.size(), Vec2::new(4, 4));
    assert_eq!(out.into_raw(), tdata);
}

#[test]
fn build_mosaic_fills_partial_edge_tiles() {
    // 3x3 template, 2x2 tiles, one solid gray source tile: all gray output
    let t = buf(3, 3, vec![0; 27]);
    let sources = vec![buf(2, 2, vec![7; 12])];
    let out = build_mosaic(&t, &sources, Vec2::new(2, 2)).unwrap();
    assert_eq!(out.into_raw(), vec![7; 27]);
}

#[test]
fn build_mosaic_is_deterministic() {
    let colors = [[10, 20, 30], [40, 50, 60], [70, 80, 90], [1, 2, 3]];
    let t = buf(4, 4, solid_rows(colors, 4, 4));
    let sources = vec![
        buf(4, 4, solid_rows([[9, 9, 9], [8, 8, 8], [7, 7, 7], [6, 6, 6]], 4, 4)),
        buf(2, 2, vec![42; 12]),
    ];
    let a = build_mosaic(&t, &sources, Vec2::new(2, 2)).unwrap().into_raw();
    let b = build_mosaic(&t, &sources, Vec2::new(2, 2)).unwrap().into_raw();
    assert_eq!(a, b);
}

#[test]
fn build_mosaic_picks_nearest_mean_color() {
    // template: solid (100,100,100); candidates: (90,90,90) and (120,120,120)
    let t = buf(2, 2, vec![100; 12]);
    let sources = vec![buf(2, 2, vec![90; 12]), buf(2, 2, vec![120; 12])];
    let out = build_mosaic(&t, &sources, Vec2::new(2, 2)).unwrap();
    assert_eq!(out.into_raw(), vec![90; 12]);
}

#[test]
fn build_mosaic_breaks_ties_by_first_candidate() {
    // two candidates at the same distance: the earlier source wins
    let t = buf(2, 2, vec![100; 12]);
    let sources = vec![buf(2, 2, vec![90; 12]), buf(2, 2, vec![110; 12])];
    let out = build_mosaic(&t, &sources, Vec2::new(2, 2)).unwrap();
    assert_eq!(out.into_raw(), vec![90; 12]);
}
