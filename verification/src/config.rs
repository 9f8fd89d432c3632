//! Application configuration: the values the core works from, with the
//! migration from the legacy chunk-directory layout.  Reading and writing
//! configuration files is the embedding application's concern.

use vstd::prelude::*;

use crate::text;
use crate::utils;

verus! {

/// Application configuration.  Paths are plain strings; resolving them
/// against the file system happens outside the core.
pub struct Config {
    /// Path of the file where chunks are stored.
    pub chunk_file: String,
    /// Legacy chunk directory, kept only so old configurations migrate.
    pub chunk_dir: Option<String>,
    /// Advisory token budget for one chunk.
    pub max_tokens_per_chunk: usize,
    /// Whether debug features are enabled.
    pub enable_debug: bool,
    /// Directory for debug output.
    pub debug_dir: String,
    /// Source directory opened on startup.
    pub source_dir: String,
    /// Whether chunks are saved automatically at the token budget.
    pub auto_save_chunks: bool,
}

impl Default for Config {
    /// The default configuration: chunks beside the working directory, an
    /// 8192-token budget, debug features off.
    fn default() -> (r: Config)
        ensures
            r.chunk_file@ == "chunks.csv"@,
            r.chunk_dir is None,
            r.max_tokens_per_chunk == 8192,
            r.enable_debug == false,
            r.debug_dir@ == "debug"@,
            r.source_dir@ == "."@,
            r.auto_save_chunks == false,
    {
        Config {
            chunk_file: text::str_to_string("chunks.csv"),
            chunk_dir: None,
            max_tokens_per_chunk: 8192,
            enable_debug: false,
            debug_dir: text::str_to_string("debug"),
            source_dir: text::str_to_string("."),
            auto_save_chunks: false,
        }
    }
}

impl Config {
    /// Fills an empty `chunk_file` from the legacy `chunk_dir` (or the
    /// default name) so configurations written by older versions keep
    /// working; a configuration that already names a chunk file is left
    /// alone.
    pub fn migrate_if_needed(&mut self)
        ensures
            *final(self) == (Config { chunk_file: final(self).chunk_file, ..*old(self) }),
            old(self).chunk_file@.len() != 0 ==> final(self).chunk_file == old(self).chunk_file,
            old(self).chunk_file@.len() == 0 && old(self).chunk_dir is Some ==> final(self).chunk_file@ == utils::join_path(old(self).chunk_dir->0@, "chunks.csv"@),
            old(self).chunk_file@.len() == 0 && old(self).chunk_dir is None ==> final(self).chunk_file@ == "chunks.csv"@,
    {
        if self.chunk_file.as_str().unicode_len() == 0 {
            match &self.chunk_dir {
                Some(dir) => {
                    self.chunk_file = utils::join_path_exec(dir.as_str(), "chunks.csv");
                },
                None => {
                    self.chunk_file = text::str_to_string("chunks.csv");
                },
            }
        }
    }
}

} // verus!
