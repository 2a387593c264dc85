use ray_tracer::gpu::{layer_insert_position, resize_target, validate_frame, workgroup_count, DebugParams, FrameError, WORKGROUP_SIZE};

#[test]
fn test_pixel_buffer_validation() {
    let width = 100u32;
    let height = 100u32;
    let expected_size = (width * height * 4) as usize;

    // Correct size
    let pixels = vec![0u8; expected_size];
    assert_eq!(pixels.len(), expected_size);
    assert_eq!(validate_frame(pixels.len(), width, height, width, height), Ok(()));

    // Wrong size
    let wrong_pixels = vec![0u8; expected_size - 1];
    assert_ne!(wrong_pixels.len(), expected_size);
    assert_eq!(
        validate_frame(wrong_pixels.len(), width, height, width, height),
        Err(FrameError::InvalidSize { expected: expected_size, actual: expected_size - 1 })
    );
}

#[test]
fn test_dimensions() {
    let width = 800u32;
    let height = 600u32;

    assert_eq!(width, 800);
    assert_eq!(height, 600);
    assert_eq!(resize_target(width, height), Some((800, 600)));
}

#[test]
fn frame_of_another_size_is_refused_before_its_length_is_checked() {
    assert_eq!(
        validate_frame(0, 640, 480, 800, 600),
        Err(FrameError::DimensionMismatch { width: 640, height: 480, surface_width: 800, surface_height: 600 })
    );
}

#[test]
fn resize_to_zero_keeps_the_surface() {
    assert_eq!(resize_target(0, 600), None);
    assert_eq!(resize_target(800, 0), None);
}

#[test]
fn workgroups_cover_every_pixel() {
    assert_eq!(workgroup_count(800, WORKGROUP_SIZE), 100);
    assert_eq!(workgroup_count(801, WORKGROUP_SIZE), 101);
    assert_eq!(workgroup_count(0, WORKGROUP_SIZE), 0);
    assert_eq!(workgroup_count(1, WORKGROUP_SIZE), 1);
    assert_eq!(workgroup_count(u32::MAX, WORKGROUP_SIZE), 536870912);
}

#[test]
fn debug_params_from_pixel() {
    let on = DebugParams::from_pixel(Some((12, 34)));
    assert_eq!(on.debug_pixel, [12, 34]);
    assert_eq!(on.enabled, 1);
    assert_eq!(on.to_words(), vec![12, 34, 1, 0]);

    let off = DebugParams::from_pixel(None);
    assert_eq!(off.debug_pixel, [0, 0]);
    assert_eq!(off.enabled, 0);
    assert_eq!(off.to_words(), vec![0, 0, 0, 0]);
}

#[test]
fn layers_of_equal_priority_keep_insertion_order() {
    let mut priorities: Vec<i32> = Vec::new();
    let mut names: Vec<&str> = Vec::new();
    for (name, p) in [("a", 5), ("b", 0), ("c", 5), ("d", -1), ("e", 0)] {
        let k = layer_insert_position(&priorities, p);
        priorities.insert(k, p);
        names.insert(k, name);
    }
    assert_eq!(priorities, vec![-1, 0, 0, 5, 5]);
    assert_eq!(names, vec!["d", "b", "e", "a", "c"]);
}

#[test]
fn debug_uniform_bytes_are_its_words_in_memory_order() {
    let d = DebugParams::from_pixel(Some((0x0102_0304, 7)));
    let bytes = d.to_bytes();
    let expected: Vec<u8> = d.to_words().iter().flat_map(|w| w.to_ne_bytes()).collect();
    assert_eq!(bytes.len(), 16);
    assert_eq!(bytes, expected);
}
