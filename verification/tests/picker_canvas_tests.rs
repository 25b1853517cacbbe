use rbar::canvas::{CanvasAllocator, DEFAULT_CAPACITY};
use rbar::picker::{pick_from, pick_random_file, SetupError};

#[test]
fn empty_directory_is_a_fatal_setup_error() {
    let files: Vec<String> = Vec::new();
    assert_eq!(pick_from(&files, 0), Err(SetupError::EmptyDirectory));
    assert_eq!(pick_from(&files, 12345), Err(SetupError::EmptyDirectory));
    assert_eq!(pick_random_file(&files), Err(SetupError::EmptyDirectory));
}

#[test]
fn pick_reduces_the_draw_modulo_the_listing() {
    let files = vec!["a".to_string(), "b".to_string(), "c".to_string()];
    assert_eq!(pick_from(&files, 0).unwrap(), "a");
    assert_eq!(pick_from(&files, 7).unwrap(), "b");
    assert_eq!(pick_from(&files, 2).unwrap(), "c");
    assert_eq!(pick_from(&files, u32::MAX).unwrap(), "a");
}

#[test]
fn random_pick_returns_a_listing_entry() {
    let files = vec!["one".to_string(), "two".to_string(), "three".to_string()];
    for _ in 0..32 {
        let picked = pick_random_file(&files).unwrap();
        assert!(files.contains(&picked));
    }
    let single = vec!["only".to_string()];
    assert_eq!(pick_random_file(&single).unwrap(), "only");
}

#[test]
fn allocator_starts_at_the_default_and_only_grows() {
    let mut a = CanvasAllocator::new();
    assert_eq!(a.capacity_bytes(), DEFAULT_CAPACITY);
    a.ensure_capacity(640, 480);
    assert_eq!(a.capacity_bytes(), DEFAULT_CAPACITY);
    a.ensure_capacity(2560, 1440);
    assert_eq!(a.capacity_bytes(), 2560 * 1440 * 4);
    a.ensure_capacity(100, 100);
    assert_eq!(a.capacity_bytes(), 2560 * 1440 * 4);
}

#[test]
fn allocator_hands_out_exactly_sized_zeroed_canvases() {
    let mut a = CanvasAllocator::new();
    a.ensure_capacity(800, 600);
    let canvas = a.canvas(800, 600);
    assert_eq!(canvas.len(), 800 * 600 * 4);
    assert!(canvas.iter().all(|&b| b == 0));
    let small = a.canvas(2, 3);
    assert_eq!(small.len(), 24);
}
