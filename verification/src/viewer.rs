//! The document model: the immutable baseline and mutable working copy of
//! one open file, cursor/scroll/selection state, the in-memory index of
//! already-chunked line ranges, and the save-selection-as-chunk
//! orchestration.
//!
//! Internally every line index is 0-indexed; persisted chunk records are
//! 1-indexed (`to_storage_index` / `to_viewer_index` convert).

use vstd::prelude::*;

use crate::ranges;
use crate::storage::Chunk;
use crate::storage::ChunkStorage;
use crate::storage::chunk_views;
use crate::storage::chunks_for_path;
use crate::text;
use crate::tokenizer;
use crate::utils;

verus! {

/// Why saving the current selection failed.
#[derive(Debug, Clone, Copy, PartialEq, Eq, Structural)]
pub enum SaveError {
    /// No selection is active.
    NoSelection,
    /// The selection reaches beyond the end of the working document.
    InvalidRange,
    /// No file is open.
    NoFile,
}

/// The 1-indexed storage line for a 0-indexed viewer line.
pub open spec fn spec_to_storage(n: int) -> int {
    n + 1
}

/// The 0-indexed viewer line for a 1-indexed storage line, clamping 0.
pub open spec fn spec_to_viewer(n: int) -> int {
    if n > 0 {
        n - 1
    } else {
        0
    }
}

/// Index conversion: taking any viewer line to storage coordinates and
/// back is the identity.  (The other direction is not: storage index 0 is
/// clamped, so `to_storage(to_viewer(0)) == 1`.)
pub proof fn lemma_index_conversion_round_trip(n: int)
    requires
        n >= 0,
    ensures
        spec_to_viewer(spec_to_storage(n)) == n,
{
}

/// Text viewer: one open document with selection, navigation and the
/// per-file index of already-chunked ranges.
pub struct Viewer {
    /// Path of the open file, if any.
    pub file_path: Option<String>,
    /// Working lines: what selections and edits operate on.
    pub content: Vec<String>,
    /// Baseline lines as loaded; used only to detect edits.
    pub original_content: Vec<String>,
    /// First visible line.
    pub scroll_position: usize,
    /// Whether selection mode is active.
    pub selection_mode: bool,
    /// The line where the selection began, while selection mode is active.
    pub selection_start: Option<usize>,
    /// The current cursor line.
    pub cursor_position: usize,
    /// Already-chunked ranges of the open file, 0-indexed inclusive.
    pub chunked_ranges: Vec<(usize, usize)>,
    /// Whether the working copy differs from the baseline since the last
    /// replacement of the selected lines.
    pub has_edited_content: bool,
    /// Cached token count of the whole working document.
    pub total_tokens: usize,
    /// Advisory token budget for one chunk.
    pub max_tokens_per_chunk: usize,
}

impl Viewer {
    /// Structural invariant: an anchor exists exactly while selection mode
    /// is active, and cursor and scroll lie inside the working document
    /// (both 0 when it is empty).
    pub open spec fn wf(self) -> bool {
        &&& self.selection_mode == (self.selection_start is Some)
        &&& (if self.content@.len() == 0 {
            self.cursor_position == 0 && self.scroll_position == 0
        } else {
            self.cursor_position < self.content@.len() && self.scroll_position
                < self.content@.len()
        })
    }

    /// The normalized selection: least and greatest of anchor and cursor,
    /// while a selection is active.
    pub open spec fn spec_selection_range(self) -> Option<(usize, usize)> {
        match self.selection_start {
            None => None,
            Some(anchor) => Some(
                (
                    (if anchor <= self.cursor_position {
                        anchor
                    } else {
                        self.cursor_position
                    }),
                    (if anchor <= self.cursor_position {
                        self.cursor_position
                    } else {
                        anchor
                    }),
                ),
            ),
        }
    }

    /// A fresh viewer: nothing open, everything at its initial state.
    pub fn new() -> (r: Viewer)
        ensures
            r.file_path is None,
            r.content@.len() == 0,
            r.original_content@.len() == 0,
            r.scroll_position == 0,
            r.selection_mode == false,
            r.selection_start is None,
            r.cursor_position == 0,
            r.chunked_ranges@.len() == 0,
            r.has_edited_content == false,
            r.total_tokens == 0,
            r.max_tokens_per_chunk == 8192,
            r.wf(),
    {
        Viewer {
            file_path: None,
            content: Vec::new(),
            original_content: Vec::new(),
            scroll_position: 0,
            selection_mode: false,
            selection_start: None,
            cursor_position: 0,
            chunked_ranges: Vec::new(),
            has_edited_content: false,
            total_tokens: 0,
            max_tokens_per_chunk: 8192,
        }
    }

    /// Converts a 0-indexed viewer line to a 1-indexed storage line.
    pub fn to_storage_index(&self, viewer_index: usize) -> (r: usize)
        requires
            viewer_index < usize::MAX,
        ensures
            r == spec_to_storage(viewer_index as int),
    {
        viewer_index + 1
    }

    /// Converts a 1-indexed storage line to a 0-indexed viewer line.
    pub fn to_viewer_index(&self, storage_index: usize) -> (r: usize)
        ensures
            r == spec_to_viewer(storage_index as int),
    {
        if storage_index > 0 {
            storage_index - 1
        } else {
            0
        }
    }

    /// Sets the advisory token budget for one chunk.
    pub fn set_max_tokens_per_chunk(&mut self, max_tokens: usize)
        ensures
            *final(self) == (Viewer { max_tokens_per_chunk: max_tokens, ..*old(self) }),
    {
        self.max_tokens_per_chunk = max_tokens;
    }

    /// The advisory token budget for one chunk.
    pub fn max_tokens_per_chunk(&self) -> (r: usize)
        ensures
            r == self.max_tokens_per_chunk,
    {
        self.max_tokens_per_chunk
    }

    /// Installs freshly loaded content: baseline and working copies both
    /// become `lines`, all transient state is reset, and the total token
    /// count is refreshed.
    pub fn open_lines(&mut self, path: String, lines: Vec<String>)
        ensures
            final(self).file_path == Some(path),
            final(self).content@ == lines@,
            final(self).original_content@ == lines@,
            final(self).scroll_position == 0,
            final(self).cursor_position == 0,
            final(self).selection_mode == false,
            final(self).selection_start is None,
            final(self).chunked_ranges@.len() == 0,
            final(self).has_edited_content == false,
            final(self).total_tokens == tokenizer::token_count_of(
                text::join_lines(lines.deep_view()),
            ),
            final(self).max_tokens_per_chunk == old(self).max_tokens_per_chunk,
            final(self).wf(),
    {
        let ghost lv = lines.deep_view();
        let baseline = clone_lines(&lines);
        self.file_path = Some(path);
        self.content = lines;
        self.original_content = baseline;
        self.scroll_position = 0;
        self.cursor_position = 0;
        self.selection_mode = false;
        self.selection_start = None;
        self.chunked_ranges = Vec::new();
        self.has_edited_content = false;
        proof {
            assert(self.content.deep_view() =~~= lv);
        }
        self.update_token_counts();
    }

    /// Refreshes the cached token count of the working document.
    fn update_token_counts(&mut self)
        ensures
            final(self).total_tokens == tokenizer::token_count_of(
                text::join_lines(old(self).content.deep_view()),
            ),
            *final(self) == (Viewer { total_tokens: final(self).total_tokens, ..*old(self) }),
    {
        let sl = self.content.as_slice();
        proof {
            assert(sl.deep_view() =~~= self.content.deep_view());
        }
        let total = tokenizer::count_tokens_in_lines(sl);
        self.total_tokens = total;
    }

    /// Toggles selection mode: on (anchoring at the cursor) when off, off
    /// (clearing the anchor) when on; nothing happens on an empty
    /// document.
    pub fn toggle_selection_mode(&mut self)
        requires
            old(self).wf(),
        ensures
            final(self).wf(),
            old(self).content@.len() == 0 ==> *final(self) == *old(self),
            old(self).content@.len() > 0 && !old(self).selection_mode ==> *final(self) == (Viewer {
                selection_mode: true,
                selection_start: Some(old(self).cursor_position),
                ..*old(self)
            }),
            old(self).content@.len() > 0 && old(self).selection_mode ==> *final(self) == (Viewer {
                selection_mode: false,
                selection_start: None,
                ..*old(self)
            }),
    {
        if self.content.len() > 0 {
            if !self.selection_mode {
                self.selection_mode = true;
                self.selection_start = Some(self.cursor_position);
            } else {
                self.selection_mode = false;
                self.selection_start = None;
            }
        }
    }

    /// Whether selection mode is active.
    pub fn is_selection_mode(&self) -> (r: bool)
        ensures
            r == self.selection_mode,
    {
        self.selection_mode
    }

    /// The current cursor line.
    pub fn cursor_position(&self) -> (r: usize)
        ensures
            r == self.cursor_position,
    {
        self.cursor_position
    }

    /// The normalized selection, while one is active.
    pub fn selection_range(&self) -> (r: Option<(usize, usize)>)
        ensures
            r == self.spec_selection_range(),
    {
        match self.selection_start {
            None => None,
            Some(anchor) => {
                if anchor <= self.cursor_position {
                    Some((anchor, self.cursor_position))
                } else {
                    Some((self.cursor_position, anchor))
                }
            },
        }
    }

    /// The token count of the selected lines, while a selection is
    /// active; 0 for a selection that reaches beyond the document.
    pub fn selection_token_count(&self) -> (r: Option<usize>)
        ensures
            r is Some <==> self.spec_selection_range() is Some,
            (match self.spec_selection_range() {
                Some(sel) => r == Some(
                    (if sel.1 >= self.content@.len() {
                        0 as usize
                    } else {
                        (tokenizer::token_count_of(
                            text::join_lines(
                                self.content.deep_view().subrange(sel.0 as int, sel.1 + 1),
                            ),
                        ) as usize)
                    }),
                ),
                None => r is None,
            }),
    {
        let sel = match self.selection_range() {
            Some(sel) => sel,
            None => {
                return None;
            },
        };
        if sel.1 >= self.content.len() {
            return Some(0);
        }
        let selected = clone_line_range(&self.content, sel.0, sel.1 + 1);
        let sl = selected.as_slice();
        proof {
            assert(sl.deep_view() =~~= self.content.deep_view().subrange(sel.0 as int, sel.1 + 1));
        }
        Some(tokenizer::count_tokens_in_lines(sl))
    }

    /// The cached token count of the whole working document.
    pub fn total_token_count(&self) -> (r: usize)
        ensures
            r == self.total_tokens,
    {
        self.total_tokens
    }

    /// Clears the selection and leaves selection mode.
    pub fn clear_selection(&mut self)
        ensures
            *final(self) == (Viewer {
                selection_mode: false,
                selection_start: None,
                ..*old(self)
            }),
    {
        self.selection_mode = false;
        self.selection_start = None;
    }

    /// The path of the open file, if any.
    pub fn file_path(&self) -> (r: Option<&String>)
        ensures
            r is Some <==> self.file_path is Some,
            r is Some ==> r->0 == &self.file_path->0,
    {
        match &self.file_path {
            Some(p) => Some(p),
            None => None,
        }
    }

    /// The working lines.
    pub fn content(&self) -> (r: &Vec<String>)
        ensures
            r@ == self.content@,
    {
        &self.content
    }

    /// The first visible line.
    pub fn scroll_position(&self) -> (r: usize)
        ensures
            r == self.scroll_position,
    {
        self.scroll_position
    }
}

/// Only cursor and scroll may differ between `pre` and `post`.
pub open spec fn nav_only(pre: Viewer, post: Viewer) -> bool {
    post == (Viewer {
        cursor_position: post.cursor_position,
        scroll_position: post.scroll_position,
        ..pre
    })
}

impl Viewer {
    /// Moves the cursor up one line; the view follows it upward.
    pub fn cursor_up(&mut self)
        requires
            old(self).wf(),
        ensures
            final(self).wf(),
            nav_only(*old(self), *final(self)),
            final(self).cursor_position == spec_to_viewer(old(self).cursor_position as int),
            final(self).scroll_position == (if final(self).cursor_position < old(self).scroll_position {
                final(self).cursor_position
            } else {
                old(self).scroll_position
            }),
    {
        self.cursor_position = if self.cursor_position > 0 {
            self.cursor_position - 1
        } else {
            0
        };
        if self.cursor_position < self.scroll_position {
            self.scroll_position = self.cursor_position;
        }
    }

    /// Moves the cursor down one line, clamped to the last line; the view
    /// follows to keep the cursor within a 20-line window.
    pub fn cursor_down(&mut self)
        requires
            old(self).wf(),
        ensures
            final(self).wf(),
            nav_only(*old(self), *final(self)),
            old(self).content@.len() == 0 ==> *final(self) == *old(self),
            old(self).content@.len() > 0 ==> final(self).cursor_position == (if old(self).cursor_position + 1 < old(self).content@.len() {
                old(self).cursor_position + 1
            } else {
                old(self).content@.len() - 1
            }),
            old(self).content@.len() > 0 ==> final(self).scroll_position == (if final(self).cursor_position - old(self).scroll_position >= 20 {
                (if final(self).cursor_position - 19 < old(self).content@.len() - 1 {
                    final(self).cursor_position - 19
                } else {
                    old(self).content@.len() - 1
                })
            } else {
                old(self).scroll_position as int
            }),
    {
        if self.content.len() > 0 {
            let last = self.content.len() - 1;
            self.cursor_position = if self.cursor_position + 1 < self.content.len() {
                self.cursor_position + 1
            } else {
                last
            };
            if self.cursor_position >= self.scroll_position && self.cursor_position
                - self.scroll_position >= 20 {
                let target = self.cursor_position - 19;
                self.scroll_position = if target < last {
                    target
                } else {
                    last
                };
            }
        }
    }

    /// Scrolls the view up one line; a cursor far below follows.
    pub fn scroll_up(&mut self)
        requires
            old(self).wf(),
        ensures
            final(self).wf(),
            nav_only(*old(self), *final(self)),
            final(self).scroll_position == spec_to_viewer(old(self).scroll_position as int),
            final(self).cursor_position == (if old(self).cursor_position > final(self).scroll_position + 20 {
                spec_to_viewer(old(self).cursor_position as int)
            } else {
                old(self).cursor_position as int
            }),
    {
        self.scroll_position = if self.scroll_position > 0 {
            self.scroll_position - 1
        } else {
            0
        };
        if self.cursor_position > self.scroll_position && self.cursor_position
            - self.scroll_position > 20 {
            self.cursor_position = if self.cursor_position > 0 {
                self.cursor_position - 1
            } else {
                0
            };
        }
    }

    /// Scrolls the view down one line, clamped to the last line; a cursor
    /// above the view follows.
    pub fn scroll_down(&mut self)
        requires
            old(self).wf(),
        ensures
            final(self).wf(),
            nav_only(*old(self), *final(self)),
            old(self).content@.len() == 0 ==> *final(self) == *old(self),
            old(self).content@.len() > 0 ==> final(self).scroll_position == (if old(self).scroll_position + 1 < old(self).content@.len() {
                old(self).scroll_position + 1
            } else {
                old(self).content@.len() - 1
            }),
            old(self).content@.len() > 0 ==> final(self).cursor_position == (if old(self).cursor_position < final(self).scroll_position {
                final(self).scroll_position
            } else {
                old(self).cursor_position
            }),
    {
        if self.content.len() > 0 {
            let last = self.content.len() - 1;
            self.scroll_position = if self.scroll_position + 1 < self.content.len() {
                self.scroll_position + 1
            } else {
                last
            };
            if self.cursor_position < self.scroll_position {
                self.cursor_position = self.scroll_position;
            }
        }
    }

    /// Scrolls the view up one page; the cursor moves by the distance
    /// actually scrolled, never above the new view.
    pub fn scroll_page_up(&mut self, page_size: usize)
        requires
            old(self).wf(),
        ensures
            final(self).wf(),
            nav_only(*old(self), *final(self)),
            final(self).scroll_position == (if old(self).scroll_position >= page_size {
                old(self).scroll_position - page_size
            } else {
                0
            }),
            final(self).cursor_position == ({
                let moved = (if old(self).cursor_position >= old(self).scroll_position - final(self).scroll_position {
                    old(self).cursor_position - (old(self).scroll_position - final(self).scroll_position)
                } else {
                    0
                });
                (if moved >= final(self).scroll_position {
                    moved
                } else {
                    final(self).scroll_position as int
                })
            }),
    {
        let old_position = self.scroll_position;
        self.scroll_position = if self.scroll_position >= page_size {
            self.scroll_position - page_size
        } else {
            0
        };
        let scroll_delta = old_position - self.scroll_position;
        let moved = if self.cursor_position >= scroll_delta {
            self.cursor_position - scroll_delta
        } else {
            0
        };
        self.cursor_position = if moved >= self.scroll_position {
            moved
        } else {
            self.scroll_position
        };
    }

    /// Scrolls the view down one page, clamped to the last line; the
    /// cursor moves by the distance actually scrolled, clamped too.
    pub fn scroll_page_down(&mut self, page_size: usize)
        requires
            old(self).wf(),
        ensures
            final(self).wf(),
            nav_only(*old(self), *final(self)),
            old(self).content@.len() == 0 ==> *final(self) == *old(self),
            old(self).content@.len() > 0 ==> final(self).scroll_position == (if old(self).scroll_position + page_size < old(self).content@.len() - 1 {
                old(self).scroll_position + page_size
            } else {
                old(self).content@.len() - 1
            }),
            old(self).content@.len() > 0 ==> final(self).cursor_position == ({
                let delta = final(self).scroll_position - old(self).scroll_position;
                (if delta > 0 {
                    (if old(self).cursor_position + delta < old(self).content@.len() - 1 {
                        old(self).cursor_position + delta
                    } else {
                        old(self).content@.len() - 1
                    })
                } else {
                    old(self).cursor_position as int
                })
            }),
    {
        if self.content.len() > 0 {
            let last = self.content.len() - 1;
            let old_position = self.scroll_position;
            self.scroll_position = if page_size < last - self.scroll_position {
                self.scroll_position + page_size
            } else {
                last
            };
            let scroll_delta = self.scroll_position - old_position;
            if scroll_delta > 0 {
                self.cursor_position = if scroll_delta < last - self.cursor_position {
                    self.cursor_position + scroll_delta
                } else {
                    last
                };
            }
        }
    }

    /// Jumps to the top of the document.
    pub fn scroll_to_top(&mut self)
        requires
            old(self).wf(),
        ensures
            final(self).wf(),
            nav_only(*old(self), *final(self)),
            final(self).scroll_position == 0,
            final(self).cursor_position == 0,
    {
        self.scroll_position = 0;
        self.cursor_position = 0;
    }

    /// Jumps to the bottom of the document.
    pub fn scroll_to_bottom(&mut self)
        requires
            old(self).wf(),
        ensures
            final(self).wf(),
            nav_only(*old(self), *final(self)),
            old(self).content@.len() == 0 ==> *final(self) == *old(self),
            old(self).content@.len() > 0 ==> final(self).scroll_position == old(self).content@.len() - 1 && final(self).cursor_position == old(self).content@.len() - 1,
    {
        if self.content.len() > 0 {
            self.scroll_position = self.content.len() - 1;
            self.cursor_position = self.content.len() - 1;
        }
    }

    /// Scrolls to a given line, clamped to the document; the cursor is
    /// pulled into the 20-line window below the new view if needed.
    pub fn scroll_to_position(&mut self, position: usize)
        requires
            old(self).wf(),
        ensures
            final(self).wf(),
            nav_only(*old(self), *final(self)),
            old(self).content@.len() == 0 ==> *final(self) == *old(self),
            old(self).content@.len() > 0 ==> final(self).scroll_position == (if position < old(self).content@.len() - 1 {
                position as int
            } else {
                old(self).content@.len() - 1
            }),
            old(self).content@.len() > 0 ==> final(self).cursor_position == (if old(self).cursor_position < final(self).scroll_position {
                final(self).scroll_position as int
            } else if old(self).cursor_position - final(self).scroll_position > 20 {
                final(self).scroll_position + 20
            } else {
                old(self).cursor_position as int
            }),
    {
        if self.content.len() > 0 {
            let last = self.content.len() - 1;
            self.scroll_position = if position < last {
                position
            } else {
                last
            };
            if self.cursor_position < self.scroll_position {
                self.cursor_position = self.scroll_position;
            } else if self.cursor_position - self.scroll_position > 20 {
                self.cursor_position = self.scroll_position + 20;
            }
        }
    }

    /// The lines visible in a window of `height` lines from the scroll
    /// position.
    pub fn visible_content(&self, height: usize) -> (r: Vec<String>)
        requires
            self.wf(),
        ensures
            self.content@.len() == 0 ==> r@.len() == 0,
            self.content@.len() > 0 ==> r@ == self.content@.subrange(
                self.scroll_position as int,
                (if self.scroll_position + height < self.content@.len() {
                    self.scroll_position + height
                } else {
                    self.content@.len() as int
                }),
            ),
    {
        if self.content.len() == 0 {
            return Vec::new();
        }
        let start = self.scroll_position;
        let end = if height < self.content.len() - start {
            start + height
        } else {
            self.content.len()
        };
        clone_line_range(&self.content, start, end)
    }
}

/// No selection is active, so there is nothing to save.
pub open spec fn save_no_selection(pre: Viewer) -> bool {
    pre.spec_selection_range() is None
}

/// The selection reaches beyond the end of the working document.
pub open spec fn save_invalid_range(pre: Viewer) -> bool {
    &&& pre.spec_selection_range() is Some
    &&& (pre.spec_selection_range()->0).1 >= pre.content@.len()
}

/// The selection is fine but no file is open to attribute the chunk to.
pub open spec fn save_no_file(pre: Viewer) -> bool {
    &&& pre.spec_selection_range() is Some
    &&& (pre.spec_selection_range()->0).1 < pre.content@.len()
    &&& pre.file_path is None
}

/// What a successful save does: exactly one chunk is appended to the
/// store, holding the selected working lines joined with newlines, the
/// selection's 1-indexed bounds, the path relative to `root`, the current
/// edited flag and no labels; the selection's range joins the in-memory
/// index in internal coordinates, the overlap flag reports whether it
/// overlaps a previously indexed range, and the selection is cleared.
pub open spec fn save_ok_post(
    pre: Viewer,
    pre_chunks: Seq<Chunk>,
    post: Viewer,
    post_chunks: Seq<Chunk>,
    root: Seq<char>,
    id: Seq<char>,
    overlap: bool,
) -> bool {
    let sel = pre.spec_selection_range()->0;
    &&& post_chunks.len() == pre_chunks.len() + 1
    &&& post_chunks.take(pre_chunks.len() as int) == pre_chunks
    &&& post_chunks.last()@.id == id
    &&& post_chunks.last()@.file_path == utils::rel_path(pre.file_path->0@, root)
    &&& post_chunks.last()@.start_line == spec_to_storage(sel.0 as int)
    &&& post_chunks.last()@.end_line == spec_to_storage(sel.1 as int)
    &&& post_chunks.last()@.content == text::join_lines(
        pre.content.deep_view().subrange(sel.0 as int, sel.1 + 1),
    )
    &&& post_chunks.last()@.edited == pre.has_edited_content
    &&& post_chunks.last()@.labels.len() == 0
    &&& overlap == (exists|j: int|
        0 <= j < pre.chunked_ranges@.len() && ranges::range_overlaps(
            sel,
            pre.chunked_ranges@[j],
        ))
    &&& post.chunked_ranges@ == pre.chunked_ranges@.push(sel)
    &&& post == (Viewer {
        chunked_ranges: post.chunked_ranges,
        selection_mode: false,
        selection_start: None,
        ..pre
    })
}

/// What replacing the selected lines does: the selected span of the
/// working copy is spliced out and the edited block spliced in; the
/// edited flag records whether the block differs from the baseline slice
/// it replaces; when the line count changes, every indexed range is
/// shifted or dropped by the shift-or-drop rule; cursor and scroll are
/// clamped to the new document.
pub open spec fn update_post(pre: Viewer, post: Viewer, edited: Seq<String>) -> bool {
    let sel = pre.spec_selection_range()->0;
    let s = sel.0 as int;
    let e = sel.1 as int;
    let delta = edited.len() - (e - s + 1);
    let olen = pre.original_content@.len() as int;
    let bs = (if s < olen {
        s
    } else {
        olen
    });
    let be = (if e + 1 < olen {
        e + 1
    } else {
        olen
    });
    &&& post.content@ == pre.content@.take(s) + edited + pre.content@.skip(e + 1)
    &&& post.has_edited_content == (pre.original_content.deep_view().subrange(bs, be)
        != line_views(edited))
    &&& post.chunked_ranges@ == (if edited.len() == e - s + 1 {
        pre.chunked_ranges@
    } else {
        ranges::shift_ranges(pre.chunked_ranges@, s, e, delta)
    })
    &&& post.cursor_position == (if pre.cursor_position < post.content@.len() {
        pre.cursor_position as int
    } else if post.content@.len() > 0 {
        post.content@.len() - 1
    } else {
        0
    })
    &&& post.scroll_position == (if pre.scroll_position < post.content@.len() {
        pre.scroll_position as int
    } else if post.content@.len() > 0 {
        post.content@.len() - 1
    } else {
        0
    })
    &&& post.file_path == pre.file_path
    &&& post.original_content == pre.original_content
    &&& post.selection_mode == pre.selection_mode
    &&& post.selection_start == pre.selection_start
    &&& post.total_tokens == pre.total_tokens
    &&& post.max_tokens_per_chunk == pre.max_tokens_per_chunk
}

/// The views of a sequence of lines.
pub open spec fn line_views(lines: Seq<String>) -> Seq<Seq<char>> {
    lines.map_values(|l: String| l@)
}

/// The 0-indexed viewer ranges of the chunks stored for `rel`.
pub open spec fn viewer_ranges_of(views: Seq<crate::storage::ChunkView>, rel: Seq<char>) -> Seq<
    (usize, usize),
> {
    chunks_for_path(views, rel).map_values(
        |c: crate::storage::ChunkView|
            (
                (spec_to_viewer(c.start_line) as usize),
                (spec_to_viewer(c.end_line) as usize),
            ),
    )
}

/// Filtering keeps only elements of the original sequence, so a property
/// of every element survives it.
proof fn lemma_filter_preserves<A>(s: Seq<A>, pred: spec_fn(A) -> bool, p: spec_fn(A) -> bool)
    requires
        forall|i: int| 0 <= i < s.len() ==> p(#[trigger] s[i]),
    ensures
        forall|i: int| 0 <= i < s.filter(pred).len() ==> p(#[trigger] s.filter(pred)[i]),
    decreases s.len(),
{
    reveal(Seq::filter);
    if s.len() > 0 {
        assert(forall|i: int| 0 <= i < s.drop_last().len() ==> p(#[trigger] s.drop_last()[i]));
        lemma_filter_preserves(s.drop_last(), pred, p);
        let f = s.filter(pred);
        let fd = s.drop_last().filter(pred);
        assert(p(s.last()));
        assert forall|i: int| 0 <= i < f.len() implies p(f[i]) by {
            if pred(s.last()) {
                assert(f == fd.push(s.last()));
                if i < fd.len() {
                    assert(f[i] == fd[i]);
                } else {
                    assert(f[i] == s.last());
                }
            } else {
                assert(f == fd);
                assert(f[i] == fd[i]);
            }
        }
    }
}

impl Viewer {
    /// Whether the 0-indexed inclusive range overlaps any indexed range.
    pub fn check_chunk_overlap(&self, start_line: usize, end_line: usize) -> (r: bool)
        ensures
            r == (exists|j: int|
                0 <= j < self.chunked_ranges@.len() && ranges::range_overlaps(
                    (start_line, end_line),
                    self.chunked_ranges@[j],
                )),
    {
        let n = self.chunked_ranges.len();
        for k in 0..n
            invariant
                n == self.chunked_ranges@.len(),
                forall|j: int|
                    0 <= j < k ==> !ranges::range_overlaps(
                        (start_line, end_line),
                        self.chunked_ranges@[j],
                    ),
        {
            let (cs, ce) = self.chunked_ranges[k];
            if !(end_line < cs || start_line > ce) {
                assert(ranges::range_overlaps((start_line, end_line), self.chunked_ranges@[
                    k as int]));
                return true;
            }
        }
        false
    }

    /// Whether the 0-indexed line lies in a saved chunk's range.
    pub fn is_line_chunked(&self, line_number: usize) -> (r: bool)
        ensures
            r == ranges::line_covered(self.chunked_ranges@, line_number as int),
    {
        ranges::line_covered_exec(&self.chunked_ranges, line_number)
    }

    /// The indexed ranges of the open file, 0-indexed inclusive.
    pub fn chunked_ranges(&self) -> (r: &Vec<(usize, usize)>)
        ensures
            r@ == self.chunked_ranges@,
    {
        &self.chunked_ranges
    }

    /// Counts the working lines covered by at least one indexed range;
    /// overlap never double-counts.  The numerator of the coverage
    /// percentage.
    pub fn chunked_line_count(&self) -> (r: usize)
        ensures
            r == ranges::covered_count(self.chunked_ranges@, self.content@.len() as nat),
            r <= self.content@.len(),
    {
        ranges::count_covered_lines(&self.chunked_ranges, self.content.len())
    }

    /// Rebuilds the in-memory range index from the store's records for
    /// the open file, converting to internal 0-indexed coordinates;
    /// nothing happens when no file is open.
    #[verifier::loop_isolation(false)]
    pub fn load_chunked_ranges(&mut self, chunk_storage: &ChunkStorage, root_dir: &str)
        requires
            old(self).wf(),
        ensures
            final(self).wf(),
            old(self).file_path is None ==> *final(self) == *old(self),
            old(self).file_path is Some ==> *final(self) == (Viewer {
                chunked_ranges: final(self).chunked_ranges,
                ..*old(self)
            }) && final(self).chunked_ranges@ == viewer_ranges_of(
                chunk_views(chunk_storage.chunks@),
                utils::rel_path(old(self).file_path->0@, root_dir@),
            ),
    {
        let path = match &self.file_path {
            Some(p) => p.clone(),
            None => {
                return ;
            },
        };
        let rel = utils::rel_path_exec(path.as_str(), root_dir);
        let stored = chunk_storage.get_chunked_ranges(rel.as_str());
        let ghost views = chunk_views(chunk_storage.chunks@);
        let ghost selected = chunks_for_path(views, rel@);
        let ghost target = viewer_ranges_of(views, rel@);
        proof {
            assert(forall|i: int|
                0 <= i < views.len() ==> 0 <= (#[trigger] views[i]).start_line <= usize::MAX && 0
                    <= views[i].end_line <= usize::MAX);
            lemma_filter_preserves(
                views,
                |c: crate::storage::ChunkView| c.file_path == rel@,
                |c: crate::storage::ChunkView|
                    0 <= c.start_line <= usize::MAX && 0 <= c.end_line <= usize::MAX,
            );
        }
        let mut out: Vec<(usize, usize)> = Vec::new();
        let m = stored.len();
        proof {
            assert(target.len() == m);
            assert(out@ =~= target.take(0));
        }
        for i in 0..m
            invariant
                out@ == target.take(i as int),
            decreases m - i,
        {
            let (s1, e1) = stored[i];
            let s0 = if s1 > 0 {
                s1 - 1
            } else {
                0
            };
            let e0 = if e1 > 0 {
                e1 - 1
            } else {
                0
            };
            out.push((s0, e0));
            proof {
                assert(selected[i as int].start_line as usize as int == selected[
                    i as int].start_line);
                assert(selected[i as int].end_line as usize as int == selected[i as int].end_line);
                assert(target[i as int] == (s0, e0));
                assert(out@ =~= target.take(i + 1));
            }
        }
        proof {
            assert(target.take(m as int) =~= target);
        }
        self.chunked_ranges = out;
    }

    /// Saves the current selection as a new chunk: appends one record to
    /// the store and the selection's range to the in-memory index, then
    /// clears the selection.  Overlap with existing ranges never blocks a
    /// save; it is only reported.
    pub fn save_selection_as_chunk(
        &mut self,
        chunk_storage: &mut ChunkStorage,
        root_dir: &str,
    ) -> (r: Result<(String, bool), SaveError>)
        requires
            old(self).wf(),
        ensures
            final(self).wf(),
            (match r {
                Result::Ok(p) => !save_no_selection(*old(self)) && !save_invalid_range(*old(self))
                    && !save_no_file(*old(self)) && save_ok_post(
                    *old(self),
                    old(chunk_storage).chunks@,
                    *final(self),
                    final(chunk_storage).chunks@,
                    root_dir@,
                    p.0@,
                    p.1,
                ),
                Result::Err(e) => {
                    &&& *final(self) == *old(self)
                    &&& final(chunk_storage).chunks@ == old(chunk_storage).chunks@
                    &&& (e == SaveError::NoSelection <==> save_no_selection(*old(self)))
                    &&& (e == SaveError::InvalidRange <==> save_invalid_range(*old(self)))
                    &&& (e == SaveError::NoFile <==> save_no_file(*old(self)))
                },
            }),
    {
        let sel = match self.selection_range() {
            Some(s) => s,
            None => {
                return Err(SaveError::NoSelection);
            },
        };
        if sel.1 >= self.content.len() {
            return Err(SaveError::InvalidRange);
        }
        let path = match &self.file_path {
            Some(p) => p.clone(),
            None => {
                return Err(SaveError::NoFile);
            },
        };
        let has_overlap = self.check_chunk_overlap(sel.0, sel.1);
        let selected = clone_line_range(&self.content, sel.0, sel.1 + 1);
        let sl = selected.as_slice();
        proof {
            assert(sl.deep_view() =~~= self.content.deep_view().subrange(sel.0 as int, sel.1 + 1));
        }
        let content_text = text::join_lines_exec(sl);
        let rel = utils::rel_path_exec(path.as_str(), root_dir);
        let chunk = Chunk::new(rel, sel.0 + 1, sel.1 + 1, content_text, self.has_edited_content);
        let id = chunk.id.clone();
        let ghost pre_chunks = chunk_storage.chunks@;
        chunk_storage.add_chunk(chunk);
        self.chunked_ranges.push((sel.0, sel.1));
        self.selection_mode = false;
        self.selection_start = None;
        proof {
            assert(chunk_storage.chunks@.take(pre_chunks.len() as int) =~= pre_chunks);
        }
        Ok((id, has_overlap))
    }

    /// Replaces the selected working lines with an edited block.  Returns
    /// false (changing nothing) without an in-bounds selection; otherwise
    /// splices the block in, records whether it differs from the baseline
    /// slice, applies the shift-or-drop rule to the range index when the
    /// line count changed, and clamps cursor and scroll.
    pub fn update_selected_content(&mut self, edited_content: Vec<String>) -> (r: bool)
        requires
            old(self).wf(),
        ensures
            final(self).wf(),
            r == (old(self).spec_selection_range() is Some && (old(
                self,
            ).spec_selection_range()->0).1 < old(self).content@.len()),
            !r ==> *final(self) == *old(self),
            r ==> update_post(*old(self), *final(self), edited_content@),
    {
        let sel = match self.selection_range() {
            Some(s) => s,
            None => {
                return false;
            },
        };
        let start = sel.0;
        let end = sel.1;
        if end >= self.content.len() {
            return false;
        }
        let olen = self.original_content.len();
        let bs = if start < olen {
            start
        } else {
            olen
        };
        let be = if end < olen {
            end + 1
        } else {
            olen
        };
        let equal = lines_equal(&self.original_content, bs, be, &edited_content);
        proof {
            assert(edited_content.deep_view() =~~= line_views(edited_content@));
        }
        self.has_edited_content = !equal;
        let range_len = end - start + 1;
        let replacement_len = edited_content.len();
        let ghost edited_view = edited_content@;
        let mut new_content = clone_line_range(&self.content, 0, start);
        let mut edited_moved = edited_content;
        new_content.append(&mut edited_moved);
        let mut tail = clone_line_range(&self.content, end + 1, self.content.len());
        new_content.append(&mut tail);
        proof {
            assert(self.content@.subrange(0, start as int) =~= self.content@.take(start as int));
            assert(self.content@.subrange(end + 1, self.content@.len() as int) =~= self.content@
                .skip(end + 1));
        }
        self.content = new_content;
        if range_len != replacement_len {
            let ghost delta = replacement_len - range_len as int;
            let ghost all = self.chunked_ranges@;
            let mut new_ranges: Vec<(usize, usize)> = Vec::new();
            let n = self.chunked_ranges.len();
            proof {
                assert(all.take(0) =~= Seq::<(usize, usize)>::empty());
                assert(new_ranges@ =~= ranges::shift_ranges(all.take(0), start as int, end as int, delta));
            }
            for i in 0..n
                invariant
                    n == self.chunked_ranges@.len(),
                    all == self.chunked_ranges@,
                    0 < range_len <= usize::MAX,
                    range_len == end - start + 1,
                    start <= end,
                    delta == replacement_len - range_len,
                    new_ranges@ == ranges::shift_ranges(all.take(i as int), start as int, end as int, delta),
            {
                let (rs, re) = self.chunked_ranges[i];
                let ghost pre_out = new_ranges@;
                if rs > end {
                    let new_s = shift_index_exec(rs, range_len, replacement_len);
                    let new_e = shift_index_exec(re, range_len, replacement_len);
                    new_ranges.push((new_s, new_e));
                    proof {
                        assert(new_s == ranges::shift_index(rs, delta));
                        assert(new_e == ranges::shift_index(re, delta));
                    }
                } else if re >= start {
                } else {
                    new_ranges.push((rs, re));
                }
                proof {
                    let r0 = all[i as int];
                    assert(all.take(i + 1) =~= all.take(i as int).push(r0));
                    ranges::lemma_shift_ranges_push(
                        all.take(i as int),
                        r0,
                        start as int,
                        end as int,
                        delta,
                    );
                    assert(seq![r0].drop_first() =~= Seq::<(usize, usize)>::empty());
                    assert(ranges::shift_ranges(Seq::<(usize, usize)>::empty(), start as int, end as int, delta)
                        =~= Seq::<(usize, usize)>::empty());
                    if r0.0 > end {
                        assert(ranges::shift_ranges(seq![r0], start as int, end as int, delta)
                            =~= seq![(ranges::shift_index(r0.0, delta), ranges::shift_index(r0.1, delta))]);
                    } else if r0.1 >= start {
                        assert(ranges::shift_ranges(seq![r0], start as int, end as int, delta)
                            =~= Seq::<(usize, usize)>::empty());
                    } else {
                        assert(ranges::shift_ranges(seq![r0], start as int, end as int, delta)
                            =~= seq![r0]);
                    }
                    assert(new_ranges@ =~= ranges::shift_ranges(all.take(i + 1), start as int, end as int, delta));
                }
            }
            proof {
                assert(all.take(n as int) =~= all);
            }
            self.chunked_ranges = new_ranges;
        }
        if self.cursor_position >= self.content.len() {
            self.cursor_position = if self.content.len() > 0 {
                self.content.len() - 1
            } else {
                0
            };
        }
        if self.scroll_position >= self.content.len() {
            self.scroll_position = if self.content.len() > 0 {
                self.content.len() - 1
            } else {
                0
            };
        }
        true
    }

    /// Whether the working copy differs from the baseline since the last
    /// replacement of the selected lines.
    pub fn has_edited_content(&self) -> (r: bool)
        ensures
            r == self.has_edited_content,
    {
        self.has_edited_content
    }
}

/// A line index after the lines of a span of `range_len` lines were
/// replaced by `replacement_len` lines, clamped to the machine range.
fn shift_index_exec(x: usize, range_len: usize, replacement_len: usize) -> (r: usize)
    ensures
        r == ranges::shift_index(x, replacement_len - range_len as int),
{
    if x >= range_len {
        let base = x - range_len;
        if base > usize::MAX - replacement_len {
            usize::MAX
        } else {
            base + replacement_len
        }
    } else {
        let deficit = range_len - x;
        if replacement_len >= deficit {
            replacement_len - deficit
        } else {
            0
        }
    }
}

/// Compares the lines `from..to` of `a` with all of `b`, character for
/// character.
fn lines_equal(a: &Vec<String>, from: usize, to: usize, b: &Vec<String>) -> (r: bool)
    requires
        from <= to <= a@.len(),
    ensures
        r == (a.deep_view().subrange(from as int, to as int) == b.deep_view()),
{
    let ghost target = a.deep_view().subrange(from as int, to as int);
    let n = to - from;
    if b.len() != n {
        proof {
            assert(target.len() == n);
            assert(b.deep_view().len() == b@.len());
        }
        return false;
    }
    for i in 0..n
        invariant
            n == to - from,
            from <= to <= a@.len(),
            b@.len() == n,
            target == a.deep_view().subrange(from as int, to as int),
            forall|j: int| 0 <= j < i ==> target[j] == b.deep_view()[j],
    {
        let equal_here = {
            let x = &a[from + i];
            let y = &b[i];
            x.as_str().unicode_len() == y.as_str().unicode_len() && crate::text::str_eq(
                x.as_str(),
                y.as_str(),
            )
        };
        if !equal_here {
            proof {
                assert(target[i as int] == a.deep_view()[from + i]);
                assert(target[i as int] != b.deep_view()[i as int]);
            }
            return false;
        }
        proof {
            assert(target[i as int] == a.deep_view()[from + i]);
            assert(target[i as int] == b.deep_view()[i as int]);
        }
    }
    proof {
        assert(target =~~= b.deep_view());
    }
    true
}

/// Clones a sequence of lines; the copy holds equal strings.
fn clone_lines(lines: &Vec<String>) -> (r: Vec<String>)
    ensures
        r@ == lines@,
{
    clone_line_range(lines, 0, lines.len())
}

/// Clones the lines `from..to`; the copy holds equal strings.
fn clone_line_range(lines: &Vec<String>, from: usize, to: usize) -> (r: Vec<String>)
    requires
        from <= to <= lines@.len(),
    ensures
        r@ == lines@.subrange(from as int, to as int),
{
    let mut out: Vec<String> = Vec::new();
    for i in from..to
        invariant
            from <= i <= to <= lines@.len(),
            out@ == lines@.subrange(from as int, i as int),
    {
        out.push(lines[i].clone());
        assert(out@ =~= lines@.subrange(from as int, i + 1));
    }
    out
}

} // verus!
