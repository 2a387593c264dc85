use ray_tracer::canvas::Canvas;
use ray_tracer::canvas::ops::DrawOp;

/// Alpha of every pixel as a fraction of full opacity.
fn alpha_of(canvas: &Canvas) -> Vec<f32> {
    canvas.alpha().iter().map(|&a| a as f32 / 255.0).collect()
}

#[test]
fn canvas_creation() {
    let canvas = Canvas::new(100, 100);
    assert_eq!(canvas.dimensions(), (100, 100));
    assert_eq!(canvas.pixels().len(), 100 * 100 * 4);
    assert_eq!((&alpha_of(&canvas)).len(), 100 * 100);
}

#[test]
fn canvas_clear() {
    let canvas = Canvas::new(10, 10)
        .draw(DrawOp::Clear(255, 0, 0, 255))
        .execute_ops();

    // Check first pixel
    assert_eq!(&canvas.pixels()[0..4], &[255, 0, 0, 255]);
    // Check last pixel
    let last_idx = 10 * 10 * 4 - 4;
    assert_eq!(&canvas.pixels()[last_idx..last_idx + 4], &[255, 0, 0, 255]);
    // Check alpha
    assert_eq!((&alpha_of(&canvas))[0], 1.0);
    assert_eq!((&alpha_of(&canvas))[99], 1.0);
}

#[test]
fn canvas_set_pixel() {
    let canvas = Canvas::new(10, 10)
        .draw(DrawOp::Pixel { x: 5, y: 5, r: 100, g: 150, b: 200, a: 128 })
        .execute_ops();

    let idx = (5 * 10 + 5) * 4;
    assert_eq!(&canvas.pixels()[idx..idx + 4], &[100, 150, 200, 128]);
    assert!(((&alpha_of(&canvas))[5 * 10 + 5] - 128.0 / 255.0).abs() < 0.01);
}

#[test]
fn canvas_hline() {
    let canvas = Canvas::new(10, 10)
        .draw(DrawOp::HLine { x: 2, y: 5, length: 5, r: 255, g: 0, b: 0, a: 255 })
        .execute_ops();

    for x in 2..7 {
        let idx = (5 * 10 + x) * 4;
        assert_eq!(&canvas.pixels()[idx..idx + 4], &[255, 0, 0, 255]);
    }
}

#[test]
fn canvas_vline() {
    let canvas = Canvas::new(10, 10)
        .draw(DrawOp::VLine { x: 5, y: 2, length: 5, r: 0, g: 255, b: 0, a: 255 })
        .execute_ops();

    for y in 2..7 {
        let idx = (y * 10 + 5) * 4;
        assert_eq!(&canvas.pixels()[idx..idx + 4], &[0, 255, 0, 255]);
    }
}

#[test]
fn canvas_rect() {
    let canvas = Canvas::new(10, 10)
        .draw(DrawOp::Rect { x: 2, y: 2, width: 4, height: 3, r: 50, g: 100, b: 150, a: 200 })
        .execute_ops();

    // Check corners
    let top_left = (2 * 10 + 2) * 4;
    assert_eq!(&canvas.pixels()[top_left..top_left + 4], &[50, 100, 150, 200]);

    let bottom_right = (4 * 10 + 5) * 4;
    assert_eq!(&canvas.pixels()[bottom_right..bottom_right + 4], &[50, 100, 150, 200]);
}

#[test]
fn canvas_circle() {
    let canvas = Canvas::new(50, 50)
        .draw(DrawOp::Circle { cx: 25, cy: 25, radius: 10, r: 255, g: 255, b: 255, a: 255 })
        .execute_ops();

    // Check that top point is drawn
    let top_idx = (15 * 50 + 25) * 4;
    assert_eq!(&canvas.pixels()[top_idx..top_idx + 4], &[255, 255, 255, 255]);
}

#[test]
fn canvas_filled_circle() {
    let canvas = Canvas::new(50, 50)
        .draw(DrawOp::FilledCircle { cx: 25, cy: 25, radius: 5, r: 100, g: 100, b: 100, a: 255 })
        .execute_ops();

    // Check center
    let center_idx = (25 * 50 + 25) * 4;
    assert_eq!(&canvas.pixels()[center_idx..center_idx + 4], &[100, 100, 100, 255]);

    // Check a point inside radius
    let inside_idx = (23 * 50 + 25) * 4;
    assert_eq!(&canvas.pixels()[inside_idx..inside_idx + 4], &[100, 100, 100, 255]);
}

#[test]
fn canvas_line() {
    let canvas = Canvas::new(50, 50)
        .draw(DrawOp::Line { x1: 10, y1: 10, x2: 20, y2: 20, r: 128, g: 128, b: 128, a: 255 })
        .execute_ops();

    // Check start point
    let start_idx = (10 * 50 + 10) * 4;
    assert_eq!(&canvas.pixels()[start_idx..start_idx + 4], &[128, 128, 128, 255]);

    // Check end point
    let end_idx = (20 * 50 + 20) * 4;
    assert_eq!(&canvas.pixels()[end_idx..end_idx + 4], &[128, 128, 128, 255]);
}

#[test]
fn canvas_multiple_ops() {
    let canvas = Canvas::new(50, 50)
        .draw(DrawOp::Clear(0, 0, 0, 255))
        .draw(DrawOp::Rect { x: 10, y: 10, width: 30, height: 30, r: 255, g: 0, b: 0, a: 255 })
        .draw(DrawOp::FilledCircle { cx: 25, cy: 25, radius: 10, r: 0, g: 255, b: 0, a: 255 })
        .execute_ops();

    // Check background (should be black)
    let bg_idx = 0;
    assert_eq!(&canvas.pixels()[bg_idx..bg_idx + 4], &[0, 0, 0, 255]);

    // Check rectangle corner (red, but might be overwritten by circle)
    let rect_idx = (10 * 50 + 10) * 4;
    assert_eq!(&canvas.pixels()[rect_idx..rect_idx + 4], &[255, 0, 0, 255]);

    // Check circle center (green)
    let center_idx = (25 * 50 + 25) * 4;
    assert_eq!(&canvas.pixels()[center_idx..center_idx + 4], &[0, 255, 0, 255]);
}

#[test]
fn canvas_bounds_checking() {
    let canvas = Canvas::new(10, 10)
        .draw(DrawOp::Pixel { x: 100, y: 100, r: 255, g: 0, b: 0, a: 255 })
        .execute_ops();

    // Should not crash - bounds checked
    assert_eq!(canvas.pixels().len(), 10 * 10 * 4);
}

#[test]
fn canvas_alpha_transparency() {
    let canvas = Canvas::new(10, 10)
        .draw(DrawOp::Clear(255, 255, 255, 0))
        .execute_ops();

    // All pixels should be transparent
    for alpha in (&alpha_of(&canvas)) {
        assert_eq!(*alpha, 0.0);
    }
}

#[test]
fn test_canvas_new() {
    let canvas = Canvas::new(640, 480);
    assert_eq!(canvas.dimensions(), (640, 480));
    assert_eq!(canvas.pixels().len(), 640 * 480 * 4);
    assert_eq!((&alpha_of(&canvas)).len(), 640 * 480);
}

#[test]
fn test_canvas_clear_opaque() {
    let executed = Canvas::new(100, 100)
        .draw(DrawOp::Clear(255, 128, 64, 255))
        .execute_ops();

    let pixels = executed.pixels();
    let alpha = (&alpha_of(&executed));

    assert_eq!(&pixels[0..4], &[255, 128, 64, 255]);
    assert_eq!(alpha[0], 1.0);

    let mid_idx = (50 * 100 + 50) * 4;
    assert_eq!(&pixels[mid_idx..mid_idx + 4], &[255, 128, 64, 255]);

    let last_idx = (100 * 100 - 1) * 4;
    assert_eq!(&pixels[last_idx..last_idx + 4], &[255, 128, 64, 255]);
}

#[test]
fn test_canvas_clear_transparent() {
    let canvas = Canvas::new(50, 50)
        .draw(DrawOp::Clear(100, 100, 100, 0))
        .execute_ops();

    let alpha = (&alpha_of(&canvas));

    for a in alpha {
        assert_eq!(*a, 0.0);
    }
}

#[test]
fn test_canvas_clear_semi_transparent() {
    let canvas = Canvas::new(50, 50)
        .draw(DrawOp::Clear(200, 150, 100, 128))
        .execute_ops();

    let alpha = (&alpha_of(&canvas));
    let expected_alpha = 128.0 / 255.0;

    for a in alpha {
        assert!((*a - expected_alpha).abs() < 0.01);
    }
}

#[test]
fn test_canvas_pixel_in_bounds() {
    let canvas = Canvas::new(100, 100)
        .draw(DrawOp::Pixel { x: 50, y: 50, r: 255, g: 0, b: 128, a: 200 })
        .execute_ops();

    let idx = (50 * 100 + 50) * 4;
    let pixels = canvas.pixels();

    assert_eq!(&pixels[idx..idx + 4], &[255, 0, 128, 200]);
    assert!(((&alpha_of(&canvas))[50 * 100 + 50] - 200.0 / 255.0).abs() < 0.01);
}

#[test]
fn test_canvas_pixel_out_of_bounds() {
    let canvas = Canvas::new(10, 10)
        .draw(DrawOp::Pixel { x: 100, y: 100, r: 255, g: 0, b: 0, a: 255 })
        .execute_ops();

    assert_eq!(canvas.pixels().len(), 10 * 10 * 4);
}

#[test]
fn test_canvas_pixel_edge_cases() {
    let canvas = Canvas::new(100, 100)
        .draw(DrawOp::Pixel { x: 0, y: 0, r: 255, g: 0, b: 0, a: 255 })
        .draw(DrawOp::Pixel { x: 99, y: 99, r: 0, g: 255, b: 0, a: 255 })
        .draw(DrawOp::Pixel { x: 0, y: 99, r: 0, g: 0, b: 255, a: 255 })
        .draw(DrawOp::Pixel { x: 99, y: 0, r: 255, g: 255, b: 0, a: 255 })
        .execute_ops();

    let pixels = canvas.pixels();

    assert_eq!(&pixels[0..4], &[255, 0, 0, 255]);

    let br_idx = (99 * 100 + 99) * 4;
    assert_eq!(&pixels[br_idx..br_idx + 4], &[0, 255, 0, 255]);

    let bl_idx = (99 * 100 + 0) * 4;
    assert_eq!(&pixels[bl_idx..bl_idx + 4], &[0, 0, 255, 255]);

    let tr_idx = (0 * 100 + 99) * 4;
    assert_eq!(&pixels[tr_idx..tr_idx + 4], &[255, 255, 0, 255]);
}

#[test]
fn test_canvas_hline_basic() {
    let canvas = Canvas::new(100, 100)
        .draw(DrawOp::HLine { x: 10, y: 50, length: 20, r: 255, g: 0, b: 0, a: 255 })
        .execute_ops();

    let pixels = canvas.pixels();

    for x in 10..30 {
        let idx = (50 * 100 + x) * 4;
        assert_eq!(&pixels[idx..idx + 4], &[255, 0, 0, 255], "Failed at x={}", x);
    }
}

#[test]
fn test_canvas_hline_zero_length() {
    let canvas = Canvas::new(100, 100)
        .draw(DrawOp::HLine { x: 10, y: 50, length: 0, r: 255, g: 0, b: 0, a: 255 })
        .execute_ops();

    assert_eq!(canvas.pixels().len(), 100 * 100 * 4);
}

#[test]
fn test_canvas_vline_basic() {
    let canvas = Canvas::new(100, 100)
        .draw(DrawOp::VLine { x: 50, y: 10, length: 20, r: 0, g: 255, b: 0, a: 255 })
        .execute_ops();

    let pixels = canvas.pixels();

    for y in 10..30 {
        let idx = (y * 100 + 50) * 4;
        assert_eq!(&pixels[idx..idx + 4], &[0, 255, 0, 255], "Failed at y={}", y);
    }
}

#[test]
fn test_canvas_vline_zero_length() {
    let canvas = Canvas::new(100, 100)
        .draw(DrawOp::VLine { x: 50, y: 10, length: 0, r: 0, g: 255, b: 0, a: 255 })
        .execute_ops();

    assert_eq!(canvas.pixels().len(), 100 * 100 * 4);
}

#[test]
fn test_canvas_line_horizontal() {
    let canvas = Canvas::new(100, 100)
        .draw(DrawOp::Line { x1: 10, y1: 50, x2: 30, y2: 50, r: 128, g: 128, b: 128, a: 255 })
        .execute_ops();

    let pixels = canvas.pixels();

    let start_idx = (50 * 100 + 10) * 4;
    assert_eq!(&pixels[start_idx..start_idx + 4], &[128, 128, 128, 255]);

    let end_idx = (50 * 100 + 30) * 4;
    assert_eq!(&pixels[end_idx..end_idx + 4], &[128, 128, 128, 255]);
}

#[test]
fn test_canvas_line_vertical() {
    let canvas = Canvas::new(100, 100)
        .draw(DrawOp::Line { x1: 50, y1: 10, x2: 50, y2: 30, r: 128, g: 128, b: 128, a: 255 })
        .execute_ops();

    let pixels = canvas.pixels();

    let start_idx = (10 * 100 + 50) * 4;
    assert_eq!(&pixels[start_idx..start_idx + 4], &[128, 128, 128, 255]);

    let end_idx = (30 * 100 + 50) * 4;
    assert_eq!(&pixels[end_idx..end_idx + 4], &[128, 128, 128, 255]);
}

#[test]
fn test_canvas_line_diagonal() {
    let canvas = Canvas::new(100, 100)
        .draw(DrawOp::Line { x1: 10, y1: 10, x2: 30, y2: 30, r: 255, g: 255, b: 0, a: 255 })
        .execute_ops();

    let pixels = canvas.pixels();

    let start_idx = (10 * 100 + 10) * 4;
    assert_eq!(&pixels[start_idx..start_idx + 4], &[255, 255, 0, 255]);

    let end_idx = (30 * 100 + 30) * 4;
    assert_eq!(&pixels[end_idx..end_idx + 4], &[255, 255, 0, 255]);

    let mid_idx = (20 * 100 + 20) * 4;
    assert_eq!(&pixels[mid_idx..mid_idx + 4], &[255, 255, 0, 255]);
}

#[test]
fn test_canvas_line_single_point() {
    let canvas = Canvas::new(100, 100)
        .draw(DrawOp::Line { x1: 50, y1: 50, x2: 50, y2: 50, r: 200, g: 100, b: 50, a: 255 })
        .execute_ops();

    let pixels = canvas.pixels();
    let idx = (50 * 100 + 50) * 4;
    assert_eq!(&pixels[idx..idx + 4], &[200, 100, 50, 255]);
}

#[test]
fn test_canvas_rect_basic() {
    let canvas = Canvas::new(100, 100)
        .draw(DrawOp::Rect { x: 10, y: 10, width: 20, height: 15, r: 100, g: 150, b: 200, a: 255 })
        .execute_ops();

    let pixels = canvas.pixels();

    // Check corners
    let tl_idx = (10 * 100 + 10) * 4;
    assert_eq!(&pixels[tl_idx..tl_idx + 4], &[100, 150, 200, 255]);

    let tr_idx = (10 * 100 + 29) * 4;
    assert_eq!(&pixels[tr_idx..tr_idx + 4], &[100, 150, 200, 255]);

    let bl_idx = (24 * 100 + 10) * 4;
    assert_eq!(&pixels[bl_idx..bl_idx + 4], &[100, 150, 200, 255]);

    let br_idx = (24 * 100 + 29) * 4;
    assert_eq!(&pixels[br_idx..br_idx + 4], &[100, 150, 200, 255]);

    // Check center
    let center_idx = (17 * 100 + 20) * 4;
    assert_eq!(&pixels[center_idx..center_idx + 4], &[100, 150, 200, 255]);
}

#[test]
fn test_canvas_rect_zero_size() {
    let canvas = Canvas::new(100, 100)
        .draw(DrawOp::Rect { x: 10, y: 10, width: 0, height: 0, r: 255, g: 0, b: 0, a: 255 })
        .execute_ops();

    assert_eq!(canvas.pixels().len(), 100 * 100 * 4);
}

#[test]
fn test_canvas_rect_single_pixel() {
    let canvas = Canvas::new(100, 100)
        .draw(DrawOp::Rect { x: 50, y: 50, width: 1, height: 1, r: 255, g: 128, b: 64, a: 255 })
        .execute_ops();

    let pixels = canvas.pixels();
    let idx = (50 * 100 + 50) * 4;
    assert_eq!(&pixels[idx..idx + 4], &[255, 128, 64, 255]);
}

#[test]
fn test_canvas_rect_partial_out_of_bounds() {
    let canvas = Canvas::new(100, 100)
        .draw(DrawOp::Rect { x: 90, y: 90, width: 20, height: 20, r: 255, g: 0, b: 0, a: 255 })
        .execute_ops();

    let pixels = canvas.pixels();

    // Should draw the visible portion
    let idx = (90 * 100 + 90) * 4;
    assert_eq!(&pixels[idx..idx + 4], &[255, 0, 0, 255]);
}

#[test]
fn test_canvas_circle_basic() {
    let canvas = Canvas::new(100, 100)
        .draw(DrawOp::Circle { cx: 50, cy: 50, radius: 20, r: 255, g: 255, b: 255, a: 255 })
        .execute_ops();

    let pixels = canvas.pixels();

    // Check top point (approximately)
    let top_idx = (30 * 100 + 50) * 4;
    assert_eq!(&pixels[top_idx..top_idx + 4], &[255, 255, 255, 255]);

    // Check right point (approximately)
    let right_idx = (50 * 100 + 70) * 4;
    assert_eq!(&pixels[right_idx..right_idx + 4], &[255, 255, 255, 255]);
}

#[test]
fn test_canvas_circle_zero_radius() {
    let canvas = Canvas::new(100, 100)
        .draw(DrawOp::Circle { cx: 50, cy: 50, radius: 0, r: 255, g: 0, b: 0, a: 255 })
        .execute_ops();

    // Should handle gracefully
    assert_eq!(canvas.pixels().len(), 100 * 100 * 4);
}

#[test]
fn test_canvas_filled_circle_basic() {
    let canvas = Canvas::new(100, 100)
        .draw(DrawOp::FilledCircle { cx: 50, cy: 50, radius: 10, r: 100, g: 100, b: 100, a: 255 })
        .execute_ops();

    let pixels = canvas.pixels();

    // Check center
    let center_idx = (50 * 100 + 50) * 4;
    assert_eq!(&pixels[center_idx..center_idx + 4], &[100, 100, 100, 255]);

    // Check point inside
    let inside_idx = (48 * 100 + 50) * 4;
    assert_eq!(&pixels[inside_idx..inside_idx + 4], &[100, 100, 100, 255]);

    // Check point on edge
    let edge_idx = (40 * 100 + 50) * 4;
    assert_eq!(&pixels[edge_idx..edge_idx + 4], &[100, 100, 100, 255]);
}

#[test]
fn test_canvas_filled_circle_coverage() {
    let canvas = Canvas::new(100, 100)
        .draw(DrawOp::Clear(0, 0, 0, 255))
        .draw(DrawOp::FilledCircle { cx: 50, cy: 50, radius: 5, r: 255, g: 255, b: 255, a: 255 })
        .execute_ops();

    let pixels = canvas.pixels();
    let mut filled_count = 0;

    for y in 0..100 {
        for x in 0..100 {
            let idx = (y * 100 + x) * 4;
            if pixels[idx] == 255 {
                filled_count += 1;
            }
        }
    }

    // Should be roughly pi * r^2 = pi * 25 ≈ 78
    assert!(filled_count > 70 && filled_count < 85);
}

#[test]
fn test_canvas_multiple_operations_sequential() {
    let canvas = Canvas::new(100, 100)
        .draw(DrawOp::Clear(255, 255, 255, 255))
        .draw(DrawOp::Rect { x: 20, y: 20, width: 60, height: 60, r: 0, g: 0, b: 255, a: 255 })
        .draw(DrawOp::FilledCircle { cx: 50, cy: 50, radius: 20, r: 255, g: 0, b: 0, a: 255 })
        .execute_ops();

    let pixels = canvas.pixels();

    // Background (white)
    let bg_idx = (0 * 100 + 0) * 4;
    assert_eq!(&pixels[bg_idx..bg_idx + 4], &[255, 255, 255, 255]);

    // Rectangle area (blue)
    let rect_idx = (25 * 100 + 25) * 4;
    assert_eq!(&pixels[rect_idx..rect_idx + 4], &[0, 0, 255, 255]);

    // Circle center (red - overwrites blue)
    let circle_idx = (50 * 100 + 50) * 4;
    assert_eq!(&pixels[circle_idx..circle_idx + 4], &[255, 0, 0, 255]);
}

#[test]
fn test_canvas_layered_transparency() {
    let canvas = Canvas::new(50, 50)
        .draw(DrawOp::Clear(0, 0, 0, 255))
        .draw(DrawOp::Rect { x: 10, y: 10, width: 30, height: 30, r: 255, g: 0, b: 0, a: 128 })
        .execute_ops();

    let alpha = (&alpha_of(&canvas));

    // Inside rectangle - semi-transparent
    let inside_alpha = alpha[15 * 50 + 15];
    assert!((inside_alpha - 128.0 / 255.0).abs() < 0.01);

    // Outside rectangle - opaque
    let outside_alpha = alpha[0];
    assert_eq!(outside_alpha, 1.0);
}

#[test]
fn test_canvas_complex_scene() {
    let canvas = Canvas::new(200, 200)
        .draw(DrawOp::Clear(50, 50, 50, 255))
        .draw(DrawOp::Rect { x: 20, y: 20, width: 160, height: 160, r: 100, g: 100, b: 200, a: 255 })
        .draw(DrawOp::FilledCircle { cx: 100, cy: 100, radius: 50, r: 255, g: 200, b: 0, a: 255 })
        .draw(DrawOp::Circle { cx: 100, cy: 100, radius: 70, r: 255, g: 255, b: 255, a: 255 })
        .draw(DrawOp::Line { x1: 50, y1: 50, x2: 150, y2: 150, r: 255, g: 0, b: 0, a: 255 })
        .execute_ops();

    let pixels = canvas.pixels();

    // Verify different regions have expected colors
    assert_eq!(canvas.pixels().len(), 200 * 200 * 4);

    // Center should be red from diagonal line (drawn last, overwrites circle)
    let center_idx = (100 * 200 + 100) * 4;
    assert_eq!(&pixels[center_idx..center_idx + 4], &[255, 0, 0, 255]);

    // Check a point in the yellow circle that isn't on the line
    let circle_point_idx = (95 * 200 + 100) * 4;
    assert_eq!(&pixels[circle_point_idx..circle_point_idx + 4], &[255, 200, 0, 255]);
}

#[test]
fn test_canvas_functional_composition() {
    let canvas = Canvas::new(50, 50)
        .draw(DrawOp::Clear(0, 0, 0, 255))
        .draw(DrawOp::Rect { x: 10, y: 10, width: 30, height: 30, r: 255, g: 0, b: 0, a: 255 })
        .draw(DrawOp::Circle { cx: 25, cy: 25, radius: 10, r: 0, g: 255, b: 0, a: 255 });

    // Operations should be queued, not executed
    assert_eq!(canvas.dimensions(), (50, 50));

    let executed = canvas.execute_ops();
    let pixels = executed.pixels();

    // Background
    let bg_idx = 0;
    assert_eq!(&pixels[bg_idx..bg_idx + 4], &[0, 0, 0, 255]);

    // Rectangle area
    let rect_idx = (15 * 50 + 15) * 4;
    assert_eq!(&pixels[rect_idx..rect_idx + 4], &[255, 0, 0, 255]);
}

#[test]
fn test_canvas_drawop_equality() {
    let op1 = DrawOp::Clear(255, 0, 0, 255);
    let op2 = DrawOp::Clear(255, 0, 0, 255);
    let op3 = DrawOp::Clear(0, 255, 0, 255);

    assert_eq!(op1, op2);
    assert_ne!(op1, op3);
}

#[test]
fn test_canvas_stress_many_operations() {
    let mut canvas = Canvas::new(500, 500)
        .draw(DrawOp::Clear(0, 0, 0, 255));

    // Add 100 random draw operations
    for i in 0..100 {
        let x = (i * 7) % 500;
        let y = (i * 11) % 500;
        canvas = canvas.draw(DrawOp::Pixel { x, y, r: 255, g: 255, b: 255, a: 255 });
    }

    let executed = canvas.execute_ops();
    assert_eq!(executed.pixels().len(), 500 * 500 * 4);
}

#[test]
fn test_canvas_performance_large() {
    let canvas = Canvas::new(1920, 1080)
        .draw(DrawOp::Clear(128, 128, 128, 255))
        .execute_ops();

    assert_eq!(canvas.pixels().len(), 1920 * 1080 * 4);
    assert_eq!((&alpha_of(&canvas)).len(), 1920 * 1080);
}

#[test]
fn test_line_octant_0() {
    // Octant 0: dx > dy, moving right and slightly up
    let canvas = Canvas::new(100, 100)
        .draw(DrawOp::Line { x1: 10, y1: 50, x2: 40, y2: 40, r: 255, g: 0, b: 0, a: 255 })
        .execute_ops();

    let pixels = canvas.pixels();
    let start = (50 * 100 + 10) * 4;
    let end = (40 * 100 + 40) * 4;

    assert_eq!(&pixels[start..start + 4], &[255, 0, 0, 255]);
    assert_eq!(&pixels[end..end + 4], &[255, 0, 0, 255]);
}

#[test]
fn test_line_octant_1() {
    // Octant 1: dy > dx, moving right and up
    let canvas = Canvas::new(100, 100)
        .draw(DrawOp::Line { x1: 50, y1: 80, x2: 60, y2: 50, r: 0, g: 255, b: 0, a: 255 })
        .execute_ops();

    let pixels = canvas.pixels();
    let start = (80 * 100 + 50) * 4;
    let end = (50 * 100 + 60) * 4;

    assert_eq!(&pixels[start..start + 4], &[0, 255, 0, 255]);
    assert_eq!(&pixels[end..end + 4], &[0, 255, 0, 255]);
}

#[test]
fn test_line_octant_2() {
    // Octant 2: dy > dx, moving left and up
    let canvas = Canvas::new(100, 100)
        .draw(DrawOp::Line { x1: 60, y1: 80, x2: 50, y2: 50, r: 0, g: 0, b: 255, a: 255 })
        .execute_ops();

    let pixels = canvas.pixels();
    let start = (80 * 100 + 60) * 4;
    let end = (50 * 100 + 50) * 4;

    assert_eq!(&pixels[start..start + 4], &[0, 0, 255, 255]);
    assert_eq!(&pixels[end..end + 4], &[0, 0, 255, 255]);
}

#[test]
fn test_line_octant_3() {
    // Octant 3: dx > dy, moving left and slightly up
    let canvas = Canvas::new(100, 100)
        .draw(DrawOp::Line { x1: 70, y1: 50, x2: 40, y2: 40, r: 255, g: 255, b: 0, a: 255 })
        .execute_ops();

    let pixels = canvas.pixels();
    let start = (50 * 100 + 70) * 4;
    let end = (40 * 100 + 40) * 4;

    assert_eq!(&pixels[start..start + 4], &[255, 255, 0, 255]);
    assert_eq!(&pixels[end..end + 4], &[255, 255, 0, 255]);
}

#[test]
fn test_line_octant_4() {
    // Octant 4: dx > dy, moving left and slightly down
    let canvas = Canvas::new(100, 100)
        .draw(DrawOp::Line { x1: 70, y1: 40, x2: 40, y2: 50, r: 255, g: 0, b: 255, a: 255 })
        .execute_ops();

    let pixels = canvas.pixels();
    let start = (40 * 100 + 70) * 4;
    let end = (50 * 100 + 40) * 4;

    assert_eq!(&pixels[start..start + 4], &[255, 0, 255, 255]);
    assert_eq!(&pixels[end..end + 4], &[255, 0, 255, 255]);
}

#[test]
fn test_line_octant_5() {
    // Octant 5: dy > dx, moving left and down
    let canvas = Canvas::new(100, 100)
        .draw(DrawOp::Line { x1: 60, y1: 40, x2: 50, y2: 70, r: 0, g: 255, b: 255, a: 255 })
        .execute_ops();

    let pixels = canvas.pixels();
    let start = (40 * 100 + 60) * 4;
    let end = (70 * 100 + 50) * 4;

    assert_eq!(&pixels[start..start + 4], &[0, 255, 255, 255]);
    assert_eq!(&pixels[end..end + 4], &[0, 255, 255, 255]);
}

#[test]
fn test_line_octant_6() {
    // Octant 6: dy > dx, moving right and down
    let canvas = Canvas::new(100, 100)
        .draw(DrawOp::Line { x1: 40, y1: 40, x2: 50, y2: 70, r: 128, g: 128, b: 128, a: 255 })
        .execute_ops();

    let pixels = canvas.pixels();
    let start = (40 * 100 + 40) * 4;
    let end = (70 * 100 + 50) * 4;

    assert_eq!(&pixels[start..start + 4], &[128, 128, 128, 255]);
    assert_eq!(&pixels[end..end + 4], &[128, 128, 128, 255]);
}

#[test]
fn test_line_octant_7() {
    // Octant 7: dx > dy, moving right and slightly down
    let canvas = Canvas::new(100, 100)
        .draw(DrawOp::Line { x1: 10, y1: 40, x2: 40, y2: 50, r: 200, g: 100, b: 50, a: 255 })
        .execute_ops();

    let pixels = canvas.pixels();
    let start = (40 * 100 + 10) * 4;
    let end = (50 * 100 + 40) * 4;

    assert_eq!(&pixels[start..start + 4], &[200, 100, 50, 255]);
    assert_eq!(&pixels[end..end + 4], &[200, 100, 50, 255]);
}

#[test]
fn test_line_with_negative_intermediate() {
    // Line that would have negative coordinates during calculation
    let canvas = Canvas::new(100, 100)
        .draw(DrawOp::Line { x1: 5, y1: 5, x2: 0, y2: 0, r: 255, g: 0, b: 0, a: 255 })
        .execute_ops();

    let pixels = canvas.pixels();
    let origin = 0;
    assert_eq!(&pixels[origin..origin + 4], &[255, 0, 0, 255]);
}

#[test]
fn test_line_steep_slope() {
    // Very steep line (close to vertical)
    let canvas = Canvas::new(100, 100)
        .draw(DrawOp::Line { x1: 50, y1: 10, x2: 51, y2: 80, r: 255, g: 128, b: 0, a: 255 })
        .execute_ops();

    let pixels = canvas.pixels();
    let start = (10 * 100 + 50) * 4;
    let end = (80 * 100 + 51) * 4;

    assert_eq!(&pixels[start..start + 4], &[255, 128, 0, 255]);
    assert_eq!(&pixels[end..end + 4], &[255, 128, 0, 255]);
}

#[test]
fn test_line_shallow_slope() {
    // Very shallow line (close to horizontal)
    let canvas = Canvas::new(100, 100)
        .draw(DrawOp::Line { x1: 10, y1: 50, x2: 80, y2: 51, r: 0, g: 128, b: 255, a: 255 })
        .execute_ops();

    let pixels = canvas.pixels();
    let start = (50 * 100 + 10) * 4;
    let end = (51 * 100 + 80) * 4;

    assert_eq!(&pixels[start..start + 4], &[0, 128, 255, 255]);
    assert_eq!(&pixels[end..end + 4], &[0, 128, 255, 255]);
}

#[test]
fn test_circle_very_large_radius() {
    let canvas = Canvas::new(100, 100)
        .draw(DrawOp::Circle { cx: 50, cy: 50, radius: 1000, r: 255, g: 0, b: 0, a: 255 })
        .execute_ops();

    // Should not crash
    assert_eq!(canvas.pixels().len(), 100 * 100 * 4);
}

#[test]
fn test_filled_circle_partially_offscreen() {
    let canvas = Canvas::new(100, 100)
        .draw(DrawOp::FilledCircle { cx: 5, cy: 5, radius: 10, r: 255, g: 0, b: 0, a: 255 })
        .execute_ops();

    let pixels = canvas.pixels();

    // Center should be drawn
    let center = (5 * 100 + 5) * 4;
    assert_eq!(&pixels[center..center + 4], &[255, 0, 0, 255]);

    // Should not crash even though part is offscreen
    assert_eq!(pixels.len(), 100 * 100 * 4);
}

#[test]
fn test_circle_completely_offscreen() {
    let canvas = Canvas::new(100, 100)
        .draw(DrawOp::Circle { cx: 200, cy: 200, radius: 10, r: 255, g: 0, b: 0, a: 255 })
        .execute_ops();

    // Should handle gracefully
    assert_eq!(canvas.pixels().len(), 100 * 100 * 4);
}

#[test]
fn test_rectangle_completely_offscreen() {
    let canvas = Canvas::new(100, 100)
        .draw(DrawOp::Rect { x: 200, y: 200, width: 50, height: 50, r: 255, g: 0, b: 0, a: 255 })
        .execute_ops();

    // Should not crash
    assert_eq!(canvas.pixels().len(), 100 * 100 * 4);
}

#[test]
fn test_canvas_no_operations() {
    let canvas = Canvas::new(50, 50).execute_ops();

    // Should return valid canvas with black pixels
    assert_eq!(canvas.pixels().len(), 50 * 50 * 4);
    assert_eq!((&alpha_of(&canvas)).len(), 50 * 50);

    // All pixels should be zero (default)
    assert_eq!(&canvas.pixels()[0..4], &[0, 0, 0, 0]);
}

#[test]
fn test_execute_ops_multiple_times() {
    let canvas = Canvas::new(20, 20)
        .draw(DrawOp::Clear(100, 100, 100, 255));

    let executed1 = canvas.execute_ops();
    let executed2 = executed1.execute_ops(); // Execute again on already executed canvas

    // Should work without adding new operations
    assert_eq!(&executed2.pixels()[0..4], &[100, 100, 100, 255]);
}

#[test]
fn test_canvas_clone_preserves_state() {
    let canvas1 = Canvas::new(30, 30)
        .draw(DrawOp::Clear(255, 0, 0, 255))
        .draw(DrawOp::Pixel { x: 15, y: 15, r: 0, g: 255, b: 0, a: 255 });

    let canvas2 = canvas1.clone();

    let executed1 = canvas1.execute_ops();
    let executed2 = canvas2.execute_ops();

    // Both should have the same result
    let idx = (15 * 30 + 15) * 4;
    assert_eq!(&executed1.pixels()[idx..idx + 4], &executed2.pixels()[idx..idx + 4]);
}

#[test]
fn test_alpha_values_precision() {
    let canvas = Canvas::new(10, 10);

    // Test various alpha values
    let alphas = [0, 1, 127, 128, 254, 255];

    for &alpha in &alphas {
        let c = canvas
            .clone()
            .draw(DrawOp::Clear(100, 100, 100, alpha))
            .execute_ops();

        let expected_alpha = alpha as f32 / 255.0;
        assert!(((&alpha_of(&c))[0] - expected_alpha).abs() < 0.001);
    }
}

#[test]
fn test_overlapping_shapes_alpha() {
    let canvas = Canvas::new(100, 100)
        .draw(DrawOp::Clear(0, 0, 0, 255))
        .draw(DrawOp::Rect { x: 20, y: 20, width: 40, height: 40, r: 255, g: 0, b: 0, a: 128 })
        .draw(DrawOp::Rect { x: 30, y: 30, width: 40, height: 40, r: 0, g: 255, b: 0, a: 128 })
        .execute_ops();

    let pixels = canvas.pixels();
    let alpha = (&alpha_of(&canvas));

    // Overlap region - second rect overwrites first
    let overlap_idx = (35 * 100 + 35) * 4;
    assert_eq!(&pixels[overlap_idx..overlap_idx + 4], &[0, 255, 0, 128]);
    assert!((alpha[35 * 100 + 35] - 128.0 / 255.0).abs() < 0.01);
}

#[test]
fn test_canvas_1x1() {
    let canvas = Canvas::new(1, 1)
        .draw(DrawOp::Pixel { x: 0, y: 0, r: 123, g: 45, b: 67, a: 255 })
        .execute_ops();

    assert_eq!(&canvas.pixels()[0..4], &[123, 45, 67, 255]);
    assert_eq!((&alpha_of(&canvas))[0], 1.0);
}

#[test]
fn test_canvas_rectangular_dimensions() {
    let canvas = Canvas::new(200, 50)
        .draw(DrawOp::HLine { x: 0, y: 25, length: 200, r: 255, g: 0, b: 0, a: 255 })
        .execute_ops();

    let pixels = canvas.pixels();

    // Check start of line
    let start = (25 * 200 + 0) * 4;
    assert_eq!(&pixels[start..start + 4], &[255, 0, 0, 255]);

    // Check end of line
    let end = (25 * 200 + 199) * 4;
    assert_eq!(&pixels[end..end + 4], &[255, 0, 0, 255]);
}

#[test]
fn executing_in_two_batches_equals_one_batch() {
    let a = DrawOp::Rect { x: 2, y: 2, width: 5, height: 5, r: 1, g: 2, b: 3, a: 4 };
    let b = DrawOp::Line { x1: 0, y1: 9, x2: 9, y2: 0, r: 9, g: 8, b: 7, a: 6 };
    let once = Canvas::new(10, 10).draw(a).draw(b).execute_ops();
    let twice = Canvas::new(10, 10).draw(a).execute_ops().draw(b).execute_ops();
    assert_eq!(once.pixels(), twice.pixels());
}

#[test]
fn no_operations_leave_the_buffer_unchanged() {
    let base = Canvas::new(8, 8).draw(DrawOp::Clear(4, 5, 6, 7)).execute_ops();
    let again = base.execute_ops();
    assert_eq!(base.pixels(), again.pixels());
}

#[test]
fn pixels_outside_the_shape_are_untouched() {
    let canvas = Canvas::new(20, 20)
        .draw(DrawOp::Clear(1, 1, 1, 1))
        .draw(DrawOp::FilledCircle { cx: 10, cy: 10, radius: 3, r: 200, g: 0, b: 0, a: 255 })
        .execute_ops();
    let p = canvas.pixels();
    for y in 0..20usize {
        for x in 0..20usize {
            let dx = x as i64 - 10;
            let dy = y as i64 - 10;
            let idx = (y * 20 + x) * 4;
            if dx * dx + dy * dy <= 9 {
                assert_eq!(&p[idx..idx + 4], &[200, 0, 0, 255]);
            } else {
                assert_eq!(&p[idx..idx + 4], &[1, 1, 1, 1]);
            }
        }
    }
}

#[test]
fn circle_outline_touches_its_four_extremes() {
    let canvas = Canvas::new(30, 30)
        .draw(DrawOp::Circle { cx: 15, cy: 15, radius: 7, r: 5, g: 5, b: 5, a: 255 })
        .execute_ops();
    let p = canvas.pixels();
    for (x, y) in [(22usize, 15usize), (8, 15), (15, 22), (15, 8)] {
        let idx = (y * 30 + x) * 4;
        assert_eq!(&p[idx..idx + 4], &[5, 5, 5, 255]);
    }
    let centre = (15 * 30 + 15) * 4;
    assert_eq!(&p[centre..centre + 4], &[0, 0, 0, 0]);
}

#[test]
fn line_stays_in_its_bounding_box() {
    let canvas = Canvas::new(40, 40)
        .draw(DrawOp::Line { x1: 30, y1: 5, x2: 10, y2: 25, r: 9, g: 9, b: 9, a: 9 })
        .execute_ops();
    let p = canvas.pixels();
    let mut count = 0;
    for y in 0..40usize {
        for x in 0..40usize {
            let idx = (y * 40 + x) * 4;
            if p[idx] == 9 {
                count += 1;
                assert!((10..=30).contains(&x) && (5..=25).contains(&y));
            }
        }
    }
    assert_eq!(count, 21);
}

#[test]
fn alpha_follows_the_fourth_byte_of_each_pixel() {
    let canvas = Canvas::new(3, 1)
        .draw(DrawOp::Pixel { x: 1, y: 0, r: 0, g: 0, b: 0, a: 51 })
        .execute_ops();
    assert_eq!(canvas.alpha(), vec![0, 51, 0]);
}

#[test]
fn drawing_an_operation_twice_equals_drawing_it_once() {
    let op = DrawOp::Circle { cx: 6, cy: 6, radius: 4, r: 10, g: 20, b: 30, a: 40 };
    let once = Canvas::new(12, 12).draw(op).execute_ops();
    let twice = Canvas::new(12, 12).draw(op).draw(op).execute_ops();
    assert_eq!(once.pixels(), twice.pixels());
}

#[test]
fn disjoint_or_same_colour_operations_commute() {
    let a = DrawOp::Rect { x: 0, y: 0, width: 3, height: 3, r: 1, g: 0, b: 0, a: 255 };
    let b = DrawOp::Rect { x: 5, y: 5, width: 3, height: 3, r: 0, g: 2, b: 0, a: 255 };
    let ab = Canvas::new(10, 10).draw(a).draw(b).execute_ops();
    let ba = Canvas::new(10, 10).draw(b).draw(a).execute_ops();
    assert_eq!(ab.pixels(), ba.pixels());

    let c = DrawOp::FilledCircle { cx: 4, cy: 4, radius: 3, r: 7, g: 7, b: 7, a: 7 };
    let d = DrawOp::Line { x1: 0, y1: 9, x2: 9, y2: 0, r: 7, g: 7, b: 7, a: 7 };
    let cd = Canvas::new(10, 10).draw(c).draw(d).execute_ops();
    let dc = Canvas::new(10, 10).draw(d).draw(c).execute_ops();
    assert_eq!(cd.pixels(), dc.pixels());
}

#[test]
fn clear_hides_earlier_operations() {
    let cleared = Canvas::new(6, 6)
        .draw(DrawOp::Rect { x: 1, y: 1, width: 3, height: 3, r: 9, g: 9, b: 9, a: 9 })
        .draw(DrawOp::Clear(3, 4, 5, 6))
        .execute_ops();
    let fresh = Canvas::new(6, 6).draw(DrawOp::Clear(3, 4, 5, 6)).execute_ops();
    assert_eq!(cleared.pixels(), fresh.pixels());
}

#[test]
fn circle_outline_is_symmetric_about_its_centre() {
    let canvas = Canvas::new(31, 31)
        .draw(DrawOp::Circle { cx: 15, cy: 15, radius: 11, r: 1, g: 1, b: 1, a: 1 })
        .execute_ops();
    let p = canvas.pixels();
    let on = |x: usize, y: usize| p[(y * 31 + x) * 4] == 1;
    for y in 0..31usize {
        for x in 0..31usize {
            if on(x, y) {
                assert!(on(30 - x, y));
                assert!(on(x, 30 - y));
                assert!(on(y, x));
            }
        }
    }
}

#[test]
fn shallow_line_is_a_connected_path_of_max_delta_plus_one_pixels() {
    let canvas = Canvas::new(20, 10)
        .draw(DrawOp::Line { x1: 2, y1: 1, x2: 9, y2: 4, r: 9, g: 9, b: 9, a: 255 })
        .execute_ops();
    let mut lit: Vec<(i32, i32)> = Vec::new();
    for y in 0..10 {
        for x in 0..20 {
            if canvas.pixels()[(y * 20 + x) * 4 + 3] == 255 {
                lit.push((x as i32, y as i32));
            }
        }
    }
    assert_eq!(lit.len(), 8);
    lit.sort();
    for w in lit.windows(2) {
        assert_eq!(w[1].0 - w[0].0, 1);
        assert!((w[1].1 - w[0].1).abs() <= 1);
    }
    assert_eq!(lit[0], (2, 1));
    assert_eq!(lit[7], (9, 4));
    for &(x, y) in &lit {
        assert!((2 * (7 * (y - 1) - 3 * (x - 2))).abs() <= 7);
    }
}

#[test]
fn circle_row_holds_the_pixels_nearest_the_circle() {
    let canvas = Canvas::new(30, 30)
        .draw(DrawOp::Circle { cx: 15, cy: 15, radius: 5, r: 1, g: 2, b: 3, a: 255 })
        .execute_ops();
    let lit = |x: usize, y: usize| canvas.pixels()[(y * 30 + x) * 4 + 3] == 255;
    let row: Vec<usize> = (0..30).filter(|&x| lit(x, 18)).collect();
    assert_eq!(row, vec![11, 19]);
    let top: Vec<usize> = (0..30).filter(|&x| lit(x, 10)).collect();
    assert_eq!(top, vec![13, 14, 15, 16, 17]);
}
