use pixelloop::engine::renderer::RendererSystem;
use pixelloop::graphics::{Color, Sprite};
use pixelloop::math::Vec2;

fn zeroed(width: u32, height: u32) -> RendererSystem {
    let r = RendererSystem::new(width, height);
    assert_eq!(r.buffer_len(), (width * height * 4) as usize);
    r
}

fn px(r: &RendererSystem, x: u32, y: u32) -> [u8; 4] {
    r.pixel_at(x, y).unwrap().unpack()
}

const ZERO: [u8; 4] = [0, 0, 0, 0];

#[test]
fn rect_inside_sets_exactly_its_pixels() {
    // A fully in-bounds rectangle sets exactly size.x * size.y pixels and
    // leaves all others unchanged.
    let mut r = zeroed(10, 10);
    let red = Color::red();
    r.draw_rect(&Vec2::new(2, 3), &Vec2::new(4, 5), &red);
    let mut painted = 0;
    for y in 0..10u32 {
        for x in 0..10u32 {
            let inside = (2..6).contains(&x) && (3..8).contains(&y);
            if px(&r, x, y) == red.unpack() {
                painted += 1;
                assert!(inside, "unexpected painted pixel ({x},{y})");
            } else {
                assert!(!inside, "missing painted pixel ({x},{y})");
                assert_eq!(px(&r, x, y), ZERO);
            }
        }
    }
    assert_eq!(painted, 4 * 5);
}

#[test]
fn rect_outside_is_clipped() {
    // Only the in-bounds intersection is modified; nothing panics.
    let mut r = zeroed(4, 4);
    let c = Color::from_rgb(1, 2, 3);
    r.draw_rect(&Vec2::new(-2, -2), &Vec2::new(4, 4), &c);
    for y in 0..4u32 {
        for x in 0..4u32 {
            if x < 2 && y < 2 {
                assert_eq!(px(&r, x, y), c.unpack());
            } else {
                assert_eq!(px(&r, x, y), ZERO);
            }
        }
    }
    // A rectangle fully outside the bounds changes nothing.
    let mut r2 = zeroed(4, 4);
    r2.draw_rect(&Vec2::new(100, 100), &Vec2::new(5, 5), &c);
    r2.draw_rect(&Vec2::new(-10, 0), &Vec2::new(5, 4), &c);
    for y in 0..4u32 {
        for x in 0..4u32 {
            assert_eq!(px(&r2, x, y), ZERO);
        }
    }
}

#[test]
fn horizontal_line_five_pixels() {
    // draw_line((0,0),(4,0)) sets exactly (0,0)..=(4,0).
    let mut r = zeroed(10, 10);
    let red = Color::red();
    r.draw_line(&Vec2::new(0, 0), &Vec2::new(4, 0), &red);
    for y in 0..10u32 {
        for x in 0..10u32 {
            if y == 0 && x <= 4 {
                assert_eq!(px(&r, x, y), red.unpack(), "({x},{y})");
            } else {
                assert_eq!(px(&r, x, y), ZERO, "({x},{y})");
            }
        }
    }
}

#[test]
fn shallow_line_one_pixel_per_column() {
    // draw_line((0,0),(4,2)) rasterizes a monotonic 8-connected path with
    // exactly one pixel per column; the error-accumulator tie-break puts it
    // through (0,0),(1,1),(2,1),(3,2),(4,2).
    let mut r = zeroed(10, 10);
    let c = Color::from_rgb(9, 9, 9);
    r.draw_line(&Vec2::new(0, 0), &Vec2::new(4, 2), &c);
    let expected = [(0u32, 0u32), (1, 1), (2, 1), (3, 2), (4, 2)];
    for x in 0..5u32 {
        let mut rows = Vec::new();
        for y in 0..10u32 {
            if px(&r, x, y) == c.unpack() {
                rows.push(y);
            }
        }
        assert_eq!(rows.len(), 1, "column {x} must hold exactly one pixel");
        assert_eq!((x, rows[0]), expected[x as usize]);
    }
    for x in 5..10u32 {
        for y in 0..10u32 {
            assert_eq!(px(&r, x, y), ZERO);
        }
    }
}

#[test]
fn steep_line_one_pixel_per_row() {
    // A steep line steps the y axis every iteration and the x axis by the
    // error accumulator: (0,0)..(2,4) passes through exactly one pixel per
    // row and ends at the second endpoint.
    let mut r = zeroed(10, 10);
    let c = Color::from_rgb(5, 5, 5);
    r.draw_line(&Vec2::new(0, 0), &Vec2::new(2, 4), &c);
    let expected = [(0u32, 0u32), (1, 1), (1, 2), (2, 3), (2, 4)];
    for y in 0..5u32 {
        let mut cols = Vec::new();
        for x in 0..10u32 {
            if px(&r, x, y) == c.unpack() {
                cols.push(x);
            }
        }
        assert_eq!(cols.len(), 1, "row {y} must hold exactly one pixel");
        assert_eq!((cols[0], y), expected[y as usize]);
    }
}

#[test]
fn reversed_line_reaches_both_endpoints() {
    let mut r = zeroed(10, 10);
    let c = Color::from_rgb(6, 6, 6);
    r.draw_line(&Vec2::new(4, 3), &Vec2::new(0, 0), &c);
    assert_eq!(px(&r, 4, 3), c.unpack());
    assert_eq!(px(&r, 0, 0), c.unpack());
    let mut painted = 0;
    for y in 0..10u32 {
        for x in 0..10u32 {
            if px(&r, x, y) == c.unpack() {
                painted += 1;
            }
        }
    }
    assert_eq!(painted, 5);
}

#[test]
fn circle_covers_distance_at_most_radius() {
    // Every pixel within distance 3 of (10,10) is set; every pixel farther
    // away is unchanged.
    let mut r = zeroed(32, 32);
    let c = Color::blue();
    r.draw_circle(&Vec2::new(10, 10), 3, &c);
    for y in 0..32i64 {
        for x in 0..32i64 {
            let d2 = (x - 10) * (x - 10) + (y - 10) * (y - 10);
            if d2 <= 9 {
                assert_eq!(px(&r, x as u32, y as u32), c.unpack(), "({x},{y})");
            } else {
                assert_eq!(px(&r, x as u32, y as u32), ZERO, "({x},{y})");
            }
        }
    }
}

#[test]
fn circle_clipped_at_border() {
    let mut r = zeroed(4, 4);
    let c = Color::green();
    r.draw_circle(&Vec2::new(0, 0), 2, &c);
    for y in 0..4i64 {
        for x in 0..4i64 {
            let d2 = x * x + y * y;
            if d2 <= 4 {
                assert_eq!(px(&r, x as u32, y as u32), c.unpack());
            } else {
                assert_eq!(px(&r, x as u32, y as u32), ZERO);
            }
        }
    }
}

#[test]
fn sprite_blit_and_clip() {
    let bytes: Vec<u8> = (0u8..16).collect();
    let s = Sprite::from_raw(2, 2, &bytes).unwrap();
    let mut r = zeroed(4, 4);
    r.draw_sprite(&Vec2::new(1, 1), &s);
    for y in 0..4u32 {
        for x in 0..4u32 {
            if (1..3).contains(&x) && (1..3).contains(&y) {
                let i = ((y - 1) * 2 + (x - 1)) as usize;
                assert_eq!(px(&r, x, y), s.rgba[i].unpack());
            } else {
                assert_eq!(px(&r, x, y), ZERO);
            }
        }
    }
    // A sprite hanging over the left edge is clipped, not wrapped.
    let mut r2 = zeroed(4, 4);
    r2.draw_sprite(&Vec2::new(-1, 0), &s);
    assert_eq!(px(&r2, 0, 0), s.rgba[1].unpack());
    assert_eq!(px(&r2, 0, 1), s.rgba[3].unpack());
    for y in 0..4u32 {
        for x in 1..4u32 {
            assert_eq!(px(&r2, x, y), ZERO);
        }
    }
}

#[test]
fn clear_overwrites_every_pixel() {
    let mut r = zeroed(3, 5);
    r.draw_rect(&Vec2::new(0, 0), &Vec2::new(2, 2), &Color::red());
    r.clear_screen(&[7, 8, 9, 10]);
    for y in 0..5u32 {
        for x in 0..3u32 {
            assert_eq!(px(&r, x, y), [7, 8, 9, 10]);
        }
    }
}

#[test]
fn resize_reallocates_and_new_bounds_hold() {
    // After a resize to (7,5) the buffer holds exactly 7*5*4 bytes and
    // drawing respects the new bounds.
    let mut r = zeroed(4, 4);
    r.draw_rect(&Vec2::new(0, 0), &Vec2::new(4, 4), &Color::red());
    r.resize(7, 5).unwrap();
    assert_eq!(r.width(), 7);
    assert_eq!(r.height(), 5);
    assert_eq!(r.buffer_len(), 7 * 5 * 4);
    assert_eq!(r.frame().len(), 7 * 5 * 4);
    for y in 0..5u32 {
        for x in 0..7u32 {
            assert_eq!(px(&r, x, y), ZERO);
        }
    }
    assert!(r.pixel_at(7, 0).is_none());
    assert!(r.pixel_at(0, 5).is_none());
    let c = Color::from_rgb(4, 4, 4);
    r.draw_rect(&Vec2::new(6, 4), &Vec2::new(3, 3), &c);
    assert_eq!(px(&r, 6, 4), c.unpack());
    for y in 0..5u32 {
        for x in 0..7u32 {
            if !(x == 6 && y == 4) {
                assert_eq!(px(&r, x, y), ZERO);
            }
        }
    }
}

#[test]
fn resize_too_large_fails_and_keeps_buffer() {
    let mut r = zeroed(4, 4);
    assert!(r.resize(u32::MAX, u32::MAX).is_err());
    assert_eq!(r.width(), 4);
    assert_eq!(r.height(), 4);
    assert_eq!(r.buffer_len(), 4 * 4 * 4);
}

#[test]
fn pixel_at_out_of_bounds_is_none() {
    let r = zeroed(2, 2);
    assert!(r.pixel_at(2, 0).is_none());
    assert!(r.pixel_at(0, 2).is_none());
    assert!(r.pixel_at(1, 1).is_some());
}
