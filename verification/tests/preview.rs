use goosy::preview::{downscale_rgba_nearest, preview_due, FrameSizeMismatch};

#[test]
fn nearest_preview_uses_pixels_from_the_expected_source_cells() {
    let source = vec![1, 2, 3, 255, 4, 5, 6, 255, 7, 8, 9, 255, 10, 11, 12, 255];
    let mut preview = Vec::new();
    let dimensions = downscale_rgba_nearest(&source, 2, 2, 2, 2, &mut preview).unwrap();

    assert_eq!(dimensions, (2, 2));
    assert_eq!(preview, source);
}

#[test]
fn halving_keeps_every_other_pixel() {
    let source: Vec<u8> = (0..16u8).flat_map(|p| [p, p, p, 255]).collect();
    let mut preview = vec![9; 3];
    let dimensions = downscale_rgba_nearest(&source, 4, 4, 2, 2, &mut preview).unwrap();
    assert_eq!(dimensions, (2, 2));
    assert_eq!(
        preview,
        vec![0, 0, 0, 255, 2, 2, 2, 255, 8, 8, 8, 255, 10, 10, 10, 255]
    );
}

#[test]
fn frames_of_the_wrong_size_are_refused() {
    let mut preview = vec![7];
    assert_eq!(
        downscale_rgba_nearest(&[0; 15], 2, 2, 1, 1, &mut preview),
        Err(FrameSizeMismatch {
            expected: 16,
            actual: 15,
        })
    );
    assert_eq!(preview, vec![7]);
}

#[test]
fn previews_are_due_at_the_ends_and_every_interval() {
    assert!(preview_due(1, 100, 15));
    assert!(preview_due(100, 100, 15));
    assert!(preview_due(30, 100, 15));
    assert!(!preview_due(31, 100, 15));
}
