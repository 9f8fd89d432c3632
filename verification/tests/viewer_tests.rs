use packrat::viewer::Viewer;

fn small_lines() -> Vec<String> {
    vec![
        "Line 1: This is a small text file.".to_string(),
        "Line 2: It has only a few lines.".to_string(),
        "Line 3: Perfect for basic tests.".to_string(),
    ]
}

fn large_lines() -> Vec<String> {
    (1..=100)
        .map(|i| format!("Line {}: This is line {} of the large test file.", i, i))
        .collect()
}

#[test]
fn test_viewer_open_file() {
    let mut viewer = Viewer::new();

    viewer.open_lines("/tmp/small_file.txt".to_string(), small_lines());

    assert_eq!(viewer.file_path().map(|p| p.as_str()), Some("/tmp/small_file.txt"));

    // Verify content is loaded (without asserting exact content or line count)
    let content = viewer.content();
    assert!(!content.is_empty(), "Viewer should have loaded content");
    assert!(
        content.iter().any(|line| line.contains("Line 1")),
        "Content should include text from the file"
    );
}

#[test]
fn test_viewer_scrolling_functionality() {
    let mut viewer = Viewer::new();
    viewer.open_lines("/tmp/large_file.txt".to_string(), large_lines());

    // Test basic scrolling works in the expected direction
    let initial_position = viewer.scroll_position();
    viewer.scroll_down();
    assert!(viewer.scroll_position() > initial_position, "Scrolling down should increase position");

    viewer.scroll_up();
    assert_eq!(viewer.scroll_position(), initial_position, "Scrolling up should decrease position");

    // Test page scrolling moves multiple lines
    let before_page_down = viewer.scroll_position();
    viewer.scroll_page_down(10);
    assert!(viewer.scroll_position() > before_page_down, "Page down should move multiple lines");
    assert!(
        viewer.scroll_position() > before_page_down + 1,
        "Page down should move more than one line"
    );

    let before_page_up = viewer.scroll_position();
    viewer.scroll_page_up(10);
    assert!(viewer.scroll_position() < before_page_up, "Page up should move position back");

    // Test scrolling to extremes
    viewer.scroll_to_top();
    assert_eq!(viewer.scroll_position(), 0, "Scroll to top should set position to 0");

    viewer.scroll_to_bottom();
    assert!(viewer.scroll_position() > 0, "Scroll to bottom should move position to end");
}

#[test]
fn test_viewer_boundary_behaviors() {
    let mut viewer = Viewer::new();
    viewer.open_lines("/tmp/small_file.txt".to_string(), small_lines());

    // Test scrolling beyond file boundaries
    viewer.scroll_to_top();
    for _ in 0..10 {
        viewer.scroll_up();
    }
    assert_eq!(viewer.scroll_position(), 0, "Should not scroll above file start");

    // Scroll beyond end of the file
    viewer.scroll_to_bottom();
    let max_position = viewer.scroll_position();
    for _ in 0..10 {
        viewer.scroll_down();
    }
    assert_eq!(viewer.scroll_position(), max_position, "Should not scroll beyond file end");

    // Test large page moves
    viewer.scroll_to_top();
    viewer.scroll_page_down(1000); // Very large page size
    assert_eq!(viewer.scroll_position(), max_position, "Should limit scrolling to file end");

    viewer.scroll_page_up(1000); // Very large page size
    assert_eq!(viewer.scroll_position(), 0, "Should limit scrolling to file start");
}

#[test]
fn test_viewer_file_switching() {
    let mut viewer = Viewer::new();

    // Open first file
    viewer.open_lines("/tmp/large_file.txt".to_string(), large_lines());
    assert!(viewer.content().len() > 5, "Large file should have multiple lines");

    // Move to a non-zero position
    viewer.scroll_to_position(5);
    assert!(viewer.scroll_position() > 0, "Should have moved to non-zero position");

    // Switch to a different file
    viewer.open_lines("/tmp/small_file.txt".to_string(), small_lines());

    // Should reset scroll position
    assert_eq!(viewer.scroll_position(), 0, "Scroll position should reset when opening a new file");

    // Content should be updated
    assert!(viewer.content().len() < 10, "Small file should have fewer lines");
}

#[test]
fn test_visible_content_window() {
    let mut viewer = Viewer::new();
    viewer.open_lines("/tmp/large_file.txt".to_string(), large_lines());
    viewer.scroll_to_position(95);
    let visible = viewer.visible_content(10);
    // Only the last five lines remain below position 95
    assert_eq!(visible.len(), 5);
    assert!(visible[0].starts_with("Line 96:"));
    assert!(visible[4].starts_with("Line 100:"));
}

#[test]
fn test_cursor_follows_view() {
    let mut viewer = Viewer::new();
    viewer.open_lines("/tmp/large_file.txt".to_string(), large_lines());
    for _ in 0..25 {
        viewer.cursor_down();
    }
    assert_eq!(viewer.cursor_position(), 25);
    // The view followed the cursor beyond the 20-line window
    assert!(viewer.scroll_position() > 0);
    viewer.scroll_to_top();
    assert_eq!(viewer.cursor_position(), 0);
}

#[test]
fn test_index_conversion() {
    let viewer = Viewer::new();
    // to_viewer(to_storage(n)) == n holds for every n
    for n in [0usize, 1, 41, 999] {
        assert_eq!(viewer.to_viewer_index(viewer.to_storage_index(n)), n);
    }
    // the other direction fails in general: storage index 0 is clamped
    assert_eq!(viewer.to_storage_index(viewer.to_viewer_index(0)), 1);
}

#[test]
fn test_selection_token_count_present_iff_selected() {
    let mut viewer = Viewer::new();
    viewer.open_lines("/tmp/small_file.txt".to_string(), small_lines());
    assert!(viewer.selection_token_count().is_none());
    viewer.toggle_selection_mode();
    viewer.cursor_down();
    let count = viewer.selection_token_count();
    assert!(count.is_some());
    assert!(count.unwrap() > 0, "two real lines hold at least one token");
    viewer.clear_selection();
    assert!(viewer.selection_token_count().is_none());
}
