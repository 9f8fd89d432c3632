use packrat::storage::ChunkStorage;
use packrat::viewer::Viewer;

// Test content: 20 numbered lines, as if read from `test_file.txt`
fn test_file_lines() -> Vec<String> {
    (1..=20)
        .map(|i| format!("Line {}: This is test content for line {}.", i, i))
        .collect()
}

const ROOT: &str = "/tmp/chunk_tests_root";
const FILE: &str = "/tmp/chunk_tests_root/test_file.txt";

fn setup() -> (ChunkStorage, Viewer) {
    let mut viewer = Viewer::new();
    viewer.open_lines(FILE.to_string(), test_file_lines());
    (ChunkStorage::new(), viewer)
}

#[test]
fn test_basic_chunk_saving() {
    let (mut chunk_storage, mut viewer) = setup();

    // Select lines 1-4 (internal indices 0-3)
    viewer.toggle_selection_mode();
    viewer.cursor_down(); // Move to line 2 (index 1)
    viewer.cursor_down(); // Move to line 3 (index 2)
    viewer.cursor_down(); // Move to line 4 (index 3)

    // Save the selection as a chunk
    let (chunk_id, _overlap) = viewer.save_selection_as_chunk(&mut chunk_storage, ROOT).unwrap();

    // Verify the chunk was saved (ID is returned)
    assert!(!chunk_id.is_empty(), "Chunk ID should not be empty");

    // Get the chunks from storage
    let chunks = chunk_storage.get_chunks();
    assert_eq!(chunks.len(), 1, "There should be one chunk in storage");

    // Verify the chunk content contains the selected lines
    let chunk = &chunks[0];
    assert!(chunk.content.contains("Line 2: This is test content for line 2."));
    assert!(chunk.content.contains("Line 3: This is test content for line 3."));
    assert!(chunk.content.contains("Line 4: This is test content for line 4."));

    // Verify the line range (stored 1-indexed)
    assert_eq!(chunk.start_line, 1, "Start line should be 1");
    assert_eq!(chunk.end_line, 4, "End line should be 4");

    // Verify the chunking progress
    let covered = viewer.chunked_line_count();
    let chunking_percentage = (covered as f64 / viewer.content().len() as f64) * 100.0;
    assert!(chunking_percentage > 0.0, "Chunking percentage should be greater than 0%");

    // Verify the chunked ranges are correctly tracked (internal 0-indexed)
    let chunked_ranges = viewer.chunked_ranges();
    assert_eq!(chunked_ranges.len(), 1, "Should have one chunked range");
    assert_eq!(chunked_ranges[0], (0, 3), "Chunked range should be (0, 3)");

    // Verify that the lines are marked as chunked (internal 0-indexed)
    assert!(viewer.is_line_chunked(1), "Line 2 should be chunked");
    assert!(viewer.is_line_chunked(2), "Line 3 should be chunked");
    assert!(viewer.is_line_chunked(3), "Line 4 should be chunked");
}

#[test]
fn test_multiple_chunks_saving() {
    let (mut chunk_storage, mut viewer) = setup();

    // Save first chunk (lines 1-3, indices 0-2)
    viewer.toggle_selection_mode();
    viewer.cursor_down(); // Line 2
    viewer.cursor_down(); // Line 3
    let _chunk1 = viewer.save_selection_as_chunk(&mut chunk_storage, ROOT).unwrap();

    // Save second chunk (lines 10-12, indices 9-11)
    viewer.scroll_to_top(); // Reset position
    for _ in 0..9 {
        viewer.cursor_down(); // Move to line 10
    }
    viewer.toggle_selection_mode();
    viewer.cursor_down(); // Line 11
    viewer.cursor_down(); // Line 12
    let _chunk2 = viewer.save_selection_as_chunk(&mut chunk_storage, ROOT).unwrap();

    // Verify both chunks were saved
    let chunks = chunk_storage.get_chunks();
    assert_eq!(chunks.len(), 2, "Should have two chunks in storage");

    // Verify chunk ranges - chunks may be in any order, so check carefully
    // For 1-indexed ranges: lines 1-3 and 10-12
    let expected_ranges = [(1, 3), (10, 12)];
    let actual_ranges: Vec<(usize, usize)> =
        chunks.iter().map(|chunk| (chunk.start_line, chunk.end_line)).collect();

    for expected in expected_ranges.iter() {
        assert!(
            actual_ranges.contains(expected),
            "Expected chunk range {:?} not found in {:?}",
            expected,
            actual_ranges
        );
    }

    // Verify the chunking progress
    let covered = viewer.chunked_line_count();
    let chunking_percentage = (covered as f64 / viewer.content().len() as f64) * 100.0;
    let expected_percentage = (6.0 / 20.0) * 100.0; // 6 lines out of 20 = 30%
    assert!(
        (chunking_percentage - expected_percentage).abs() < 0.01,
        "Chunking percentage should be approximately {}, got {}",
        expected_percentage,
        chunking_percentage
    );

    // Verify the chunked ranges are correctly tracked (internal 0-indexed)
    let chunked_ranges = viewer.chunked_ranges();
    assert_eq!(chunked_ranges.len(), 2, "Should have two chunked ranges");

    let first_range = (0, 2); // Lines 1-3
    let second_range = (9, 11); // Lines 10-12
    assert!(
        chunked_ranges.contains(&first_range),
        "Should have chunked range {:?} for lines 1-3",
        first_range
    );
    assert!(
        chunked_ranges.contains(&second_range),
        "Should have chunked range {:?} for lines 10-12",
        second_range
    );
}

#[test]
fn test_chunking_with_edited_content() {
    let (mut chunk_storage, mut viewer) = setup();

    // Select from the top down to line 7 (index 6)
    viewer.toggle_selection_mode();
    for _ in 0..4 {
        viewer.cursor_down(); // Move to line 5 (index 4)
    }
    viewer.cursor_down(); // Move to line 6 (index 5)
    viewer.cursor_down(); // Move to line 7 (index 6)

    // Verify we have a selection
    assert!(viewer.selection_range().is_some(), "Should have a selection range");

    // Prepare edited content
    let edited_content = vec![
        "Line 5: EDITED content for testing.".to_string(),
        "Line 6: EDITED content for testing.".to_string(),
        "Line 7: EDITED content for testing.".to_string(),
    ];

    // Update the selected content with edited version
    assert!(viewer.update_selected_content(edited_content.clone()));

    // Save the chunk
    let _chunk_id = viewer.save_selection_as_chunk(&mut chunk_storage, ROOT).unwrap();

    // Get the saved chunk
    let chunks = chunk_storage.get_chunks();
    assert_eq!(chunks.len(), 1, "Should have one chunk in storage");

    // Verify the chunk content contains the edited content
    let chunk = &chunks[0];
    assert!(chunk.content.contains("Line 5: EDITED content for testing."));
    assert!(chunk.content.contains("Line 6: EDITED content for testing."));
    assert!(chunk.content.contains("Line 7: EDITED content for testing."));

    // Verify has_edited_content flag
    assert!(viewer.has_edited_content(), "has_edited_content should be true");

    // Verify the edited flag in the chunk
    assert!(chunk.edited, "Chunk edited flag should be true");
}

#[test]
fn test_chunking_overlap_detection() {
    let (mut chunk_storage, mut viewer) = setup();

    // Save first chunk (lines 1-10, indices 0-9)
    viewer.toggle_selection_mode();
    for _ in 0..4 {
        viewer.cursor_down();
    }
    for _ in 0..5 {
        viewer.cursor_down();
    }
    viewer.save_selection_as_chunk(&mut chunk_storage, ROOT).unwrap();

    // Check for overlap (internal 0-indexed values)
    let has_overlap = viewer.check_chunk_overlap(8, 12);
    assert!(has_overlap, "Should detect overlap with existing chunk");

    // Try a non-overlapping range
    let has_overlap = viewer.check_chunk_overlap(16, 19);
    assert!(!has_overlap, "Should not detect overlap with non-overlapping range");

    // Verify the chunk was saved properly
    let chunks = chunk_storage.get_chunks();
    assert_eq!(chunks.len(), 1, "Should have one chunk in storage");

    // Verify chunk range (stored 1-indexed)
    let chunk = &chunks[0];
    assert_eq!(chunk.start_line, 1, "Start line should be 1");
    assert_eq!(chunk.end_line, 10, "End line should be 10");
}

#[test]
fn test_loading_chunk_ranges() {
    let (mut chunk_storage, mut viewer) = setup();

    // Chunk 1: lines 1-4 (indices 0-3)
    viewer.toggle_selection_mode();
    viewer.cursor_down();
    viewer.cursor_down();
    viewer.cursor_down();
    viewer.save_selection_as_chunk(&mut chunk_storage, ROOT).unwrap();

    // Chunk 2: lines 15-17 (indices 14-16)
    viewer.scroll_to_top(); // Reset position
    for _ in 0..14 {
        viewer.cursor_down(); // Move to line 15
    }
    viewer.toggle_selection_mode();
    viewer.cursor_down();
    viewer.cursor_down();
    viewer.save_selection_as_chunk(&mut chunk_storage, ROOT).unwrap();

    // Verify chunks are saved in storage
    let chunks = chunk_storage.get_chunks();
    assert_eq!(chunks.len(), 2, "Should have 2 chunks in storage");

    // Create a new viewer instance to test loading
    let mut new_viewer = Viewer::new();
    new_viewer.open_lines(FILE.to_string(), test_file_lines());

    // Initially should have no ranges
    assert_eq!(
        new_viewer.chunked_ranges().len(),
        0,
        "New viewer should have no chunked ranges initially"
    );

    // Load chunked ranges
    new_viewer.load_chunked_ranges(&chunk_storage, ROOT);

    // Should load both chunks
    assert_eq!(new_viewer.chunked_ranges().len(), 2, "Should have loaded both chunks");

    // Verify the expected ranges are loaded (internal 0-indexed)
    let expected_ranges = [(0, 3), (14, 16)];
    let loaded_ranges = new_viewer.chunked_ranges();

    for expected in &expected_ranges {
        assert!(
            loaded_ranges.contains(expected),
            "Expected range {:?} not found in loaded ranges",
            expected
        );
    }

    // Verify the chunking percentage to ensure chunks were loaded
    let covered = new_viewer.chunked_line_count();
    let chunking_percentage = (covered as f64 / new_viewer.content().len() as f64) * 100.0;

    // 7 lines chunked out of 20
    let expected_percentage = (7.0 / 20.0) * 100.0;
    assert!(
        (chunking_percentage - expected_percentage).abs() < 0.01,
        "Chunking percentage should be {}%, got {}%",
        expected_percentage,
        chunking_percentage
    );
}
