use packrat::config::Config;
use packrat::events::FileEvent;
use packrat::state::{AppMode, AppState};
use packrat::storage::ChunkStorage;
use packrat::tokenizer;
use packrat::viewer::{SaveError, Viewer};

fn twenty_lines() -> Vec<String> {
    (1..=20).map(|i| format!("line number {}", i)).collect()
}

const ROOT: &str = "/tmp/scenario_root";
const FILE: &str = "/tmp/scenario_root/file.txt";

fn coverage_percentage(viewer: &Viewer) -> f64 {
    if viewer.content().is_empty() {
        return 0.0;
    }
    (viewer.chunked_line_count() as f64 / viewer.content().len() as f64) * 100.0
}

#[test]
fn scenario_first_save_covers_twenty_percent() {
    // A 20-line file; select internal range (0,3) and save
    let mut storage = ChunkStorage::new();
    let mut viewer = Viewer::new();
    viewer.open_lines(FILE.to_string(), twenty_lines());

    viewer.toggle_selection_mode();
    viewer.cursor_down();
    viewer.cursor_down();
    viewer.cursor_down();
    let (id, overlap) = viewer.save_selection_as_chunk(&mut storage, ROOT).unwrap();
    assert!(!id.is_empty());
    assert!(!overlap);

    // The stored chunk is 1-indexed
    let chunk = &storage.get_chunks()[0];
    assert_eq!(chunk.start_line, 1);
    assert_eq!(chunk.end_line, 4);
    assert_eq!(chunk.file_path, "file.txt");
    assert_eq!(
        chunk.content,
        "line number 1\nline number 2\nline number 3\nline number 4"
    );

    assert_eq!(coverage_percentage(&viewer), 20.0);
}

#[test]
fn scenario_overlapping_save_flags_and_counts_once() {
    // Save (0,3), then an overlapping (2,5): the save succeeds with the
    // overlap flag set, and coverage counts each line once: 6/20 = 30%
    let mut storage = ChunkStorage::new();
    let mut viewer = Viewer::new();
    viewer.open_lines(FILE.to_string(), twenty_lines());

    viewer.toggle_selection_mode();
    viewer.cursor_down();
    viewer.cursor_down();
    viewer.cursor_down();
    let (_, first_overlap) = viewer.save_selection_as_chunk(&mut storage, ROOT).unwrap();
    assert!(!first_overlap);

    // The save cleared the selection; the cursor sits on index 3
    viewer.cursor_up(); // index 2
    viewer.toggle_selection_mode();
    viewer.cursor_down();
    viewer.cursor_down();
    viewer.cursor_down(); // index 5
    let (_, second_overlap) = viewer.save_selection_as_chunk(&mut storage, ROOT).unwrap();
    assert!(second_overlap, "the second chunk overlaps the first");

    assert_eq!(storage.get_chunks().len(), 2);
    assert_eq!(coverage_percentage(&viewer), 30.0);
}

#[test]
fn scenario_edit_drops_overlapped_and_shifts_later_ranges() {
    // After saving (0,3) and (5,7), replacing line 1 (internal (1,1)) with
    // three lines drops (0,3) and shifts (5,7) to (7,9)
    let mut storage = ChunkStorage::new();
    let mut viewer = Viewer::new();
    viewer.open_lines(FILE.to_string(), twenty_lines());

    viewer.toggle_selection_mode();
    viewer.cursor_down();
    viewer.cursor_down();
    viewer.cursor_down(); // (0,3)
    viewer.save_selection_as_chunk(&mut storage, ROOT).unwrap();

    viewer.cursor_down();
    viewer.cursor_down(); // index 5
    viewer.toggle_selection_mode();
    viewer.cursor_down();
    viewer.cursor_down(); // (5,7)
    viewer.save_selection_as_chunk(&mut storage, ROOT).unwrap();

    assert_eq!(viewer.chunked_ranges(), &vec![(0, 3), (5, 7)]);

    // Select internal (1,1) and replace the one line with three
    viewer.scroll_to_top();
    viewer.cursor_down(); // index 1
    viewer.toggle_selection_mode();
    let replacement = vec![
        "replacement a".to_string(),
        "replacement b".to_string(),
        "replacement c".to_string(),
    ];
    assert!(viewer.update_selected_content(replacement));

    assert_eq!(viewer.content().len(), 22);
    assert_eq!(
        viewer.chunked_ranges(),
        &vec![(7, 9)],
        "the overlapped range is dropped and the later range shifts by +2"
    );
}

#[test]
fn shift_on_edit_concrete_rule() {
    // Ranges [(0,2), (5,7)] and an edit replacing line 1 with two lines
    // (delta +1): (0,2) overlaps the edit and is dropped, (5,7) shifts to
    // (6,8)
    let mut storage = ChunkStorage::new();
    let mut viewer = Viewer::new();
    viewer.open_lines(FILE.to_string(), twenty_lines());

    viewer.toggle_selection_mode();
    viewer.cursor_down();
    viewer.cursor_down(); // (0,2)
    viewer.save_selection_as_chunk(&mut storage, ROOT).unwrap();

    viewer.cursor_down();
    viewer.cursor_down();
    viewer.cursor_down(); // index 5
    viewer.toggle_selection_mode();
    viewer.cursor_down();
    viewer.cursor_down(); // (5,7)
    viewer.save_selection_as_chunk(&mut storage, ROOT).unwrap();

    assert_eq!(viewer.chunked_ranges(), &vec![(0, 2), (5, 7)]);

    viewer.scroll_to_top();
    viewer.cursor_down(); // index 1
    viewer.toggle_selection_mode(); // select (1,1)
    assert!(viewer.update_selected_content(vec!["x".to_string(), "y".to_string()]));

    assert_eq!(viewer.chunked_ranges(), &vec![(6, 8)]);
}

#[test]
fn unchanged_replacement_keeps_ranges_and_clears_edited_flag() {
    // Replacing the selection with the very same lines keeps the range
    // index intact and records no edit
    let mut storage = ChunkStorage::new();
    let mut viewer = Viewer::new();
    viewer.open_lines(FILE.to_string(), twenty_lines());

    viewer.toggle_selection_mode();
    viewer.cursor_down();
    viewer.cursor_down(); // (0,2)
    viewer.save_selection_as_chunk(&mut storage, ROOT).unwrap();
    assert_eq!(viewer.chunked_ranges(), &vec![(0, 2)]);

    viewer.scroll_to_top();
    viewer.cursor_down();
    viewer.toggle_selection_mode(); // select (1,1)
    assert!(viewer.update_selected_content(vec!["line number 2".to_string()]));
    assert!(!viewer.has_edited_content());
    assert_eq!(viewer.chunked_ranges(), &vec![(0, 2)], "same line count: ranges stay");
}

#[test]
fn save_error_variants() {
    let mut storage = ChunkStorage::new();

    // No selection
    let mut viewer = Viewer::new();
    viewer.open_lines(FILE.to_string(), vec!["a".to_string(), "b".to_string()]);
    assert_eq!(
        viewer.save_selection_as_chunk(&mut storage, ROOT),
        Err(SaveError::NoSelection)
    );

    // Selection reaching beyond the document after a shrinking edit
    let mut viewer = Viewer::new();
    viewer.open_lines(FILE.to_string(), twenty_lines());
    for _ in 0..19 {
        viewer.cursor_down();
    }
    viewer.toggle_selection_mode(); // anchor 19
    for _ in 0..19 {
        viewer.cursor_up();
    } // selection (0,19)
    assert!(viewer.update_selected_content(vec!["only line".to_string()]));
    // the anchor at 19 now lies beyond the single remaining line
    assert_eq!(
        viewer.save_selection_as_chunk(&mut storage, ROOT),
        Err(SaveError::InvalidRange)
    );

    // A selection but no open file
    let mut viewer = Viewer {
        file_path: None,
        content: vec!["a".to_string(), "b".to_string()],
        original_content: vec!["a".to_string(), "b".to_string()],
        scroll_position: 0,
        selection_mode: true,
        selection_start: Some(0),
        cursor_position: 1,
        chunked_ranges: Vec::new(),
        has_edited_content: false,
        total_tokens: 0,
        max_tokens_per_chunk: 8192,
    };
    assert_eq!(
        viewer.save_selection_as_chunk(&mut storage, ROOT),
        Err(SaveError::NoFile)
    );

    // Nothing was stored by any failed save
    assert!(storage.get_chunks().is_empty());
}

#[test]
fn overlap_is_symmetric_between_ranges() {
    let mut viewer = Viewer::new();
    viewer.open_lines(FILE.to_string(), twenty_lines());
    viewer.chunked_ranges = vec![(2, 4)];
    assert!(viewer.check_chunk_overlap(0, 2));
    assert!(viewer.check_chunk_overlap(4, 9));
    assert!(!viewer.check_chunk_overlap(5, 9));
    let mut other = Viewer::new();
    other.open_lines(FILE.to_string(), twenty_lines());
    other.chunked_ranges = vec![(0, 2)];
    assert!(other.check_chunk_overlap(2, 4), "overlap holds in both directions");
}

#[test]
fn tokenizer_reporting() {
    assert_eq!(tokenizer::count_tokens(""), 0);
    let a = tokenizer::count_tokens("hello world");
    assert!(a > 0);
    // Counting lines means counting their newline-joined text
    let lines = vec!["first line".to_string(), "second line".to_string()];
    assert_eq!(
        tokenizer::count_tokens_in_lines(&lines),
        tokenizer::count_tokens("first line\nsecond line")
    );
    assert_eq!(tokenizer::format_token_count(0), "0 tokens");
    assert_eq!(tokenizer::format_token_count(1), "1 token");
    assert_eq!(tokenizer::format_token_count(42), "42 tokens");
}

#[test]
fn config_defaults_and_migration() {
    let config = Config::default();
    assert_eq!(config.chunk_file, "chunks.csv");
    assert_eq!(config.max_tokens_per_chunk, 8192);
    assert!(!config.enable_debug);
    assert_eq!(config.debug_dir, "debug");
    assert_eq!(config.source_dir, ".");
    assert!(!config.auto_save_chunks);

    // A named chunk file is left alone
    let mut config = Config::default();
    config.chunk_file = "mine.csv".to_string();
    config.migrate_if_needed();
    assert_eq!(config.chunk_file, "mine.csv");

    // A legacy chunk directory fills an empty chunk file
    let mut config = Config::default();
    config.chunk_file = String::new();
    config.chunk_dir = Some("legacy".to_string());
    config.migrate_if_needed();
    assert_eq!(config.chunk_file, "legacy/chunks.csv");

    // Nothing at all falls back to the default name
    let mut config = Config::default();
    config.chunk_file = String::new();
    config.migrate_if_needed();
    assert_eq!(config.chunk_file, "chunks.csv");
}

#[test]
fn app_state_debug_message() {
    let mut state = AppState::default();
    assert_eq!(state.mode, AppMode::Explorer);
    assert!(!state.should_quit);
    assert!(state.debug_message.is_none());
    assert!(!state.should_clear_debug_message(5));

    state.set_debug_message("hello".to_string(), 5);
    assert_eq!(state.debug_message.as_deref(), Some("hello"));
    let stamped = state.debug_message_time.unwrap();

    // The decision for a given clock reading is exact
    assert!(!state.should_clear_at(stamped, 5));
    assert!(!state.should_clear_at(stamped + 4, 5));
    assert!(state.should_clear_at(stamped + 5, 5));
    // A clock that moved backwards counts as no time passed
    assert!(!state.should_clear_at(stamped.saturating_sub(10), 5));
    assert!(state.should_clear_at(stamped.saturating_sub(10), 0));

    state.clear_debug_message();
    assert!(state.debug_message.is_none());
    assert!(state.debug_message_time.is_none());
}

#[test]
fn viewer_coverage_monotone_under_saves() {
    // Adding chunks never lowers the coverage count
    let mut storage = ChunkStorage::new();
    let mut viewer = Viewer::new();
    viewer.open_lines(FILE.to_string(), twenty_lines());
    let mut last = 0;
    for _ in 0..3 {
        viewer.toggle_selection_mode();
        viewer.cursor_down();
        viewer.cursor_down();
        viewer.save_selection_as_chunk(&mut storage, ROOT).unwrap();
        let covered = viewer.chunked_line_count();
        assert!(covered >= last);
        last = covered;
    }
}

#[test]
fn file_event_carries_paths() {
    let event = FileEvent::Renamed("/tmp/a".to_string(), "/tmp/b".to_string());
    match event {
        FileEvent::Renamed(from, to) => {
            assert_eq!(from, "/tmp/a");
            assert_eq!(to, "/tmp/b");
        }
        _ => panic!("expected a rename event"),
    }
    let created = FileEvent::Created("/tmp/c".to_string());
    assert!(matches!(created, FileEvent::Created(p) if p == "/tmp/c"));
}
