use fbplay::blit::{placement, render_frame, render_sequence, write_gray, Geometry, Surface};
use fbplay::pixmap::{Pixmap, RGB};

fn px(r: u8, g: u8, b: u8) -> RGB {
    RGB { r, g, b }
}

fn geom(xres: u32, yres: u32, line_length: u32, bpp: u32) -> Geometry {
    Geometry {
        xres,
        yres,
        xres_virtual: xres,
        yres_virtual: yres,
        xoffset: 0,
        yoffset: 0,
        bits_per_pixel: bpp,
        line_length,
    }
}

fn surface(g: Geometry) -> Surface {
    let size = (g.yres_virtual as usize) * (g.line_length as usize);
    Surface { geom: g, buffer: vec![0u8; size] }
}

#[test]
fn grayscale_values_land_in_all_three_lanes() {
    let img = Pixmap {
        format: "P6".to_string(),
        w: 2,
        h: 2,
        max_color_val: 255,
        data: vec![px(255, 0, 0), px(0, 255, 0), px(0, 0, 255), px(255, 255, 255)],
    };
    let mut s = surface(geom(2, 2, 8, 32));
    let (sx, sy) = placement(&s.geom, img.w, img.h);
    assert_eq!((sx, sy), (0, 0));
    render_frame(&mut s, &img, sx, sy);
    assert_eq!(
        s.buffer,
        vec![
            85, 85, 85, 0, 85, 85, 85, 0, // row 0: pixels 85, 85
            85, 85, 85, 0, 255, 255, 255, 0, // row 1: pixels 85, 255
        ]
    );
}

#[test]
fn at_reduces_each_pixel_to_its_truncating_average() {
    let img = Pixmap {
        format: "P6".to_string(),
        w: 2,
        h: 2,
        max_color_val: 255,
        data: vec![px(255, 0, 0), px(0, 255, 0), px(0, 0, 255), px(255, 255, 255)],
    };
    assert_eq!(img.at(0, 0), 85);
    assert_eq!(img.at(1, 0), 85);
    assert_eq!(img.at(0, 1), 85);
    assert_eq!(img.at(1, 1), 255);
    let odd = Pixmap {
        format: "P6".to_string(),
        w: 1,
        h: 1,
        max_color_val: 255,
        data: vec![px(1, 2, 4)],
    };
    assert_eq!(odd.at(0, 0), 2); // floor(7 / 3)
}

#[test]
fn placement_centers_by_integer_division() {
    let g = geom(100, 80, 400, 32);
    assert_eq!(placement(&g, 10, 8), (45, 36));
    assert_eq!(placement(&g, 7, 3), (47, 39));
    // An image larger than the surface gets a negative corner.
    assert_eq!(placement(&g, 300, 200), (-100, -60));
}

#[test]
fn small_image_lands_centered() {
    let img = Pixmap {
        format: "P6".to_string(),
        w: 1,
        h: 1,
        max_color_val: 255,
        data: vec![px(99, 0, 0)],
    };
    let mut s = surface(geom(4, 4, 16, 32));
    let (sx, sy) = placement(&s.geom, img.w, img.h);
    assert_eq!((sx, sy), (2, 2));
    render_frame(&mut s, &img, sx, sy);
    let off = 2 * 4 + 2 * 16;
    for (i, b) in s.buffer.iter().enumerate() {
        if i >= off && i < off + 3 {
            assert_eq!(*b, 33); // floor(99 / 3)
        } else {
            assert_eq!(*b, 0);
        }
    }
}

#[test]
fn oversized_image_is_clipped_to_the_visible_surface() {
    let img = Pixmap {
        format: "P6".to_string(),
        w: 6,
        h: 6,
        max_color_val: 255,
        data: vec![px(30, 30, 30); 36],
    };
    let mut s = surface(geom(2, 2, 8, 32));
    let (sx, sy) = placement(&s.geom, img.w, img.h);
    assert_eq!((sx, sy), (-2, -2));
    render_frame(&mut s, &img, sx, sy);
    assert_eq!(s.buffer.len(), 16);
    assert_eq!(
        s.buffer,
        vec![30, 30, 30, 0, 30, 30, 30, 0, 30, 30, 30, 0, 30, 30, 30, 0]
    );
}

#[test]
fn writes_past_the_buffer_are_skipped() {
    let mut g = geom(2, 2, 8, 32);
    g.yoffset = 1_000_000; // every offset lands far outside the buffer
    let img = Pixmap {
        format: "P6".to_string(),
        w: 2,
        h: 2,
        max_color_val: 255,
        data: vec![px(255, 255, 255); 4],
    };
    let mut s = surface(g);
    render_frame(&mut s, &img, 0, 0);
    assert_eq!(s.buffer, vec![0u8; 16]);
}

#[test]
fn depth_support_is_explicit() {
    assert!(fbplay::blit::depth_supported(&geom(2, 2, 8, 32)));
    assert!(!fbplay::blit::depth_supported(&geom(2, 2, 8, 16)));
    assert!(!fbplay::blit::depth_supported(&geom(2, 2, 8, 24)));
}

#[test]
fn other_pixel_depths_are_a_silent_no_op() {
    let img = Pixmap {
        format: "P6".to_string(),
        w: 2,
        h: 2,
        max_color_val: 255,
        data: vec![px(255, 255, 255); 4],
    };
    let mut s = surface(geom(2, 2, 8, 16));
    render_frame(&mut s, &img, 0, 0);
    assert_eq!(s.buffer, vec![0u8; 16]);
}

#[test]
fn empty_sequence_renders_zero_frames() {
    let mut s = surface(geom(2, 2, 8, 32));
    render_sequence(&mut s, &Vec::new());
    assert_eq!(s.buffer, vec![0u8; 16]);
}

#[test]
fn sequence_draws_frames_in_order() {
    let f1 = Pixmap {
        format: "P6".to_string(),
        w: 1,
        h: 1,
        max_color_val: 255,
        data: vec![px(30, 30, 30)],
    };
    let f2 = Pixmap {
        format: "P6".to_string(),
        w: 1,
        h: 1,
        max_color_val: 255,
        data: vec![px(90, 90, 90)],
    };
    let mut s = surface(geom(1, 1, 4, 32));
    render_sequence(&mut s, &vec![f1, f2]);
    // The later frame overwrites the earlier one.
    assert_eq!(s.buffer, vec![90, 90, 90, 0]);
}

#[test]
fn write_gray_respects_the_pan_offset() {
    let mut g = geom(2, 2, 8, 32);
    g.xoffset = 1;
    let mut s = Surface { geom: g, buffer: vec![0u8; 16] };
    write_gray(&mut s, 0, 1, 7);
    // offset = (0 + 1) * 4 + (1 + 0) * 8 = 12
    assert_eq!(s.buffer, vec![0, 0, 0, 0, 0, 0, 0, 0, 0, 0, 0, 0, 7, 7, 7, 0]);
}
