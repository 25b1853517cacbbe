use rbar::compositor::{blend, blend_alpha, blend_channel, center_offsets, default_backdrop, Color};

fn backdrop_canvas_bytes() -> [u8; 4] {
    let c = default_backdrop();
    [c.b, c.g, c.r, c.a]
}

fn solid_foreground(w: u32, h: u32, rgba: [u8; 4]) -> Vec<u8> {
    let mut fg = Vec::new();
    for _ in 0..(w as usize * h as usize) {
        fg.extend_from_slice(&rgba);
    }
    fg
}

fn blank_canvas(w: u32, h: u32) -> Vec<u8> {
    vec![0u8; 4 * w as usize * h as usize]
}

#[test]
fn deterministic_same_inputs_same_bytes() {
    let fg = solid_foreground(3, 2, [9, 77, 201, 130]);
    let mut c1 = blank_canvas(5, 4);
    let mut c2 = blank_canvas(5, 4);
    blend(&mut c1, 5, 4, default_backdrop(), &fg, 3, 2);
    blend(&mut c2, 5, 4, default_backdrop(), &fg, 3, 2);
    assert_eq!(c1, c2);
}

#[test]
fn idempotent_on_fresh_canvases() {
    let fg = solid_foreground(2, 2, [250, 1, 128, 3]);
    let mut first = blank_canvas(4, 4);
    blend(&mut first, 4, 4, default_backdrop(), &fg, 2, 2);
    let snapshot = first.clone();
    let mut again = blank_canvas(4, 4);
    blend(&mut again, 4, 4, default_backdrop(), &fg, 2, 2);
    assert_eq!(snapshot, again);
}

#[test]
fn opaque_pixel_replaces_destination() {
    let fg = solid_foreground(1, 1, [10, 20, 30, 255]);
    let mut canvas = blank_canvas(1, 1);
    blend(&mut canvas, 1, 1, default_backdrop(), &fg, 1, 1);
    // canvas order is blue, green, red, alpha
    assert_eq!(canvas, vec![30, 20, 10, 255]);
}

#[test]
fn transparent_pixel_leaves_backdrop() {
    let fg = solid_foreground(1, 1, [10, 20, 30, 0]);
    let mut canvas = blank_canvas(1, 1);
    blend(&mut canvas, 1, 1, default_backdrop(), &fg, 1, 1);
    assert_eq!(canvas, backdrop_canvas_bytes().to_vec());
}

#[test]
fn translucent_pixel_exact_formula_value() {
    // red at alpha 128 over the gray backdrop at alpha 196:
    // denominator 255*128 + 196*127 = 57532
    // red   = (255*128*255 + 128*196*127) / 57532 = 200
    // green = (  0         + 128*196*127) / 57532 = 55
    // blue  = same as green = 55
    // alpha = 57532 / 255 = 225
    let fg = solid_foreground(1, 1, [255, 0, 0, 128]);
    let mut canvas = blank_canvas(1, 1);
    blend(&mut canvas, 1, 1, default_backdrop(), &fg, 1, 1);
    assert_eq!(canvas, vec![55, 55, 200, 225]);
}

#[test]
fn channel_helpers_match_formula() {
    assert_eq!(blend_channel(255, 128, 128, 196), 200);
    assert_eq!(blend_channel(0, 128, 128, 196), 55);
    assert_eq!(blend_alpha(128, 196), 225);
    assert_eq!(blend_alpha(255, 196), 255);
    assert_eq!(blend_channel(77, 255, 128, 196), 77);
}

#[test]
fn centering_offsets() {
    assert_eq!(center_offsets(100, 100, 50, 50), (25, 25));
    assert_eq!(center_offsets(800, 600, 400, 300), (200, 150));
    assert_eq!(center_offsets(1920, 1080, 400, 300), (760, 390));
}

#[test]
fn oversize_foreground_does_not_panic_or_paint() {
    // wider than the canvas in one dimension
    let fg = solid_foreground(101, 100, [1, 2, 3, 255]);
    let mut canvas = blank_canvas(100, 100);
    blend(&mut canvas, 100, 100, default_backdrop(), &fg, 101, 100);
    let bd = backdrop_canvas_bytes();
    for px in canvas.chunks_exact(4) {
        assert_eq!(px, &bd);
    }
    assert_eq!(center_offsets(100, 100, 101, 100).0, 100);
}

fn check_centered_opaque(cw: u32, ch: u32, fw: u32, fh: u32, x0: u32, y0: u32) {
    let fg = solid_foreground(fw, fh, [10, 20, 30, 255]);
    let mut canvas = blank_canvas(cw, ch);
    blend(&mut canvas, cw, ch, default_backdrop(), &fg, fw, fh);
    let bd = backdrop_canvas_bytes();
    for y in 0..ch {
        for x in 0..cw {
            let i = 4 * (y as usize * cw as usize + x as usize);
            let px = &canvas[i..i + 4];
            let inside = x >= x0 && x < x0 + fw && y >= y0 && y < y0 + fh;
            if inside {
                assert_eq!(px, &[30, 20, 10, 255]);
            } else {
                assert_eq!(px, &bd);
            }
        }
    }
}

#[test]
fn two_outputs_show_image_centered() {
    // output A: 800x600 with a 400x300 opaque image at (200,150)-(600,450)
    check_centered_opaque(800, 600, 400, 300, 200, 150);
    // output B: 1920x1080 with the same image at (760,390)-(1160,690)
    check_centered_opaque(1920, 1080, 400, 300, 760, 390);
}
