use ray_tracer::display_context::{DisplayContext, WindowContext, WindowDimensions};
use std::cell::RefCell;

#[test]
fn test_new_creates_context_with_dimensions() {
    let ctx = DisplayContext::new(1920, 1080);
    assert_eq!(ctx.width, 1920);
    assert_eq!(ctx.height, 1080);
}

#[test]
fn test_pixel_count_calculation() {
    let ctx = DisplayContext::new(640, 480);
    assert_eq!(ctx.pixel_count(), 640 * 480);
    assert_eq!(ctx.pixel_count(), 307200);
}

#[test]
fn test_buffer_size_rgba() {
    let ctx = DisplayContext::new(100, 100);
    // 100x100 pixels * 4 bytes per pixel (RGBA)
    assert_eq!(ctx.buffer_size(), 40000);
}

#[test]
fn test_small_dimensions() {
    let ctx = DisplayContext::new(1, 1);
    assert_eq!(ctx.pixel_count(), 1);
    assert_eq!(ctx.buffer_size(), 4);
}

#[test]
fn test_large_dimensions() {
    let ctx = DisplayContext::new(3840, 2160); // 4K
    assert_eq!(ctx.pixel_count(), 8294400);
    assert_eq!(ctx.buffer_size(), 33177600);
}

#[test]
fn test_non_square_dimensions() {
    let ctx = DisplayContext::new(1024, 768);
    assert_eq!(ctx.pixel_count(), 786432);
    assert_eq!(ctx.buffer_size(), 3145728);
}

#[test]
fn test_clone() {
    let ctx1 = DisplayContext::new(800, 600);
    let ctx2 = ctx1.clone();
    assert_eq!(ctx1.width, ctx2.width);
    assert_eq!(ctx1.height, ctx2.height);
    assert_eq!(ctx1.pixel_count(), ctx2.pixel_count());
}

#[test]
fn test_copy_semantics() {
    let ctx1 = DisplayContext::new(1280, 720);
    let ctx2 = ctx1; // Copy, not move

    // Both should be usable
    assert_eq!(ctx1.width, 1280);
    assert_eq!(ctx2.width, 1280);
}

#[test]
fn test_debug_format() {
    let ctx = DisplayContext::new(1024, 768);
    let debug_str = format!("{:?}", ctx);
    assert!(debug_str.contains("DisplayContext"));
    assert!(debug_str.contains("1024"));
    assert!(debug_str.contains("768"));
}

#[test]
fn test_buffer_size_relationship() {
    let ctx = DisplayContext::new(200, 150);
    // buffer_size should always be pixel_count * 4
    assert_eq!(ctx.buffer_size(), ctx.pixel_count() * 4);
}

#[test]
fn test_various_common_resolutions() {
    let resolutions = [
        (640, 480),
        (800, 600),
        (1024, 768),
        (1280, 720),
        (1920, 1080),
        (2560, 1440),
        (3840, 2160),
    ];

    for (width, height) in resolutions {
        let ctx = DisplayContext::new(width, height);
        assert_eq!(ctx.width, width);
        assert_eq!(ctx.height, height);
        assert_eq!(ctx.pixel_count(), (width * height) as usize);
        assert_eq!(ctx.buffer_size(), (width * height * 4) as usize);
    }
}

#[test]
fn test_window_dimensions_new() {
    let dims = WindowDimensions::new(1920, 1080);
    assert_eq!(dims.width, 1920);
    assert_eq!(dims.height, 1080);
}

#[test]
fn test_window_dimensions_clone() {
    let dims1 = WindowDimensions::new(800, 600);
    let dims2 = dims1.clone();
    assert_eq!(dims1.width, dims2.width);
    assert_eq!(dims1.height, dims2.height);
}

#[test]
fn test_window_dimensions_copy() {
    let dims1 = WindowDimensions::new(1024, 768);
    let dims2 = dims1; // Copy

    assert_eq!(dims1.width, 1024);
    assert_eq!(dims2.width, 1024);
}

#[test]
fn test_window_dimensions_debug() {
    let dims = WindowDimensions::new(640, 480);
    let debug_str = format!("{:?}", dims);
    assert!(debug_str.contains("WindowDimensions"));
    assert!(debug_str.contains("640"));
    assert!(debug_str.contains("480"));
}

#[test]
fn test_window_dimensions_various_sizes() {
    let test_cases = [(1, 1), (640, 480), (1280, 720), (1920, 1080), (3840, 2160)];

    for (width, height) in test_cases {
        let dims = WindowDimensions::new(width, height);
        assert_eq!(dims.width, width);
        assert_eq!(dims.height, height);
    }
}

struct MockWindow {
    dims: WindowDimensions,
    draw_called: RefCell<usize>,
    redraw_called: RefCell<usize>,
}

impl MockWindow {
    fn new(width: u32, height: u32) -> Self {
        Self {
            dims: WindowDimensions::new(width, height),
            draw_called: RefCell::new(0),
            redraw_called: RefCell::new(0),
        }
    }

    fn draw_call_count(&self) -> usize {
        *self.draw_called.borrow()
    }

    fn redraw_call_count(&self) -> usize {
        *self.redraw_called.borrow()
    }
}

impl WindowContext for MockWindow {
    fn dimensions(&self) -> WindowDimensions {
        self.dims
    }

    fn draw(&self, _pixels: &[u8]) -> Result<(), String> {
        *self.draw_called.borrow_mut() += 1;
        Ok(())
    }

    fn request_redraw(&self) {
        *self.redraw_called.borrow_mut() += 1;
    }
}

#[test]
fn test_window_context_dimensions() {
    let window = MockWindow::new(1920, 1080);
    let dims = window.dimensions();
    assert_eq!(dims.width, 1920);
    assert_eq!(dims.height, 1080);
}

#[test]
fn test_window_context_draw() {
    let window = MockWindow::new(100, 100);
    let pixels = vec![0u8; 100 * 100 * 4];

    assert_eq!(window.draw_call_count(), 0);

    let result = window.draw(&pixels);
    assert!(result.is_ok());
    assert_eq!(window.draw_call_count(), 1);

    let result = window.draw(&pixels);
    assert!(result.is_ok());
    assert_eq!(window.draw_call_count(), 2);
}

#[test]
fn test_window_context_redraw() {
    let window = MockWindow::new(800, 600);

    assert_eq!(window.redraw_call_count(), 0);

    window.request_redraw();
    assert_eq!(window.redraw_call_count(), 1);

    window.request_redraw();
    window.request_redraw();
    assert_eq!(window.redraw_call_count(), 3);
}

#[test]
fn test_window_context_draw_empty_buffer() {
    let window = MockWindow::new(10, 10);
    let empty_pixels: Vec<u8> = vec![];

    let result = window.draw(&empty_pixels);
    assert!(result.is_ok());
    assert_eq!(window.draw_call_count(), 1);
}

#[test]
fn test_window_context_multiple_operations() {
    let window = MockWindow::new(640, 480);
    let pixels = vec![128u8; 640 * 480 * 4];

    let _ = window.draw(&pixels);
    window.request_redraw();
    let _ = window.draw(&pixels);
    window.request_redraw();
    window.request_redraw();

    assert_eq!(window.draw_call_count(), 2);
    assert_eq!(window.redraw_call_count(), 3);
}

#[test]
fn pixel_count_beyond_u32_on_wide_targets() {
    if usize::BITS == 64 {
        let ctx = DisplayContext::new(65536, 65536);
        assert_eq!(ctx.pixel_count() as u64, 4294967296u64);
        assert_eq!(ctx.buffer_size() as u64, 17179869184u64);
    }
}
