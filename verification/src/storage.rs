//! The chunk store: an ordered sequence of chunk records across all files,
//! serialized as a whole to one text (the complete file snapshot) and read
//! back exactly.
//!
//! Reading and writing the backing file itself is the caller's concern;
//! this module owns the in-memory sequence, the record text in both
//! directions, and the per-file queries.

use vstd::prelude::*;

use crate::ranges;
use crate::record;
use crate::text;

verus! {

/// View of a chunk record: every field as mathematical data.
#[verifier::ext_equal]
pub ghost struct ChunkView {
    pub id: Seq<char>,
    pub file_path: Seq<char>,
    pub start_line: int,
    pub end_line: int,
    pub content: Seq<char>,
    pub timestamp: int,
    pub edited: bool,
    pub labels: Seq<Seq<char>>,
}

/// A persisted, immutable record of a saved line range plus its text
/// snapshot.  `start_line` and `end_line` are 1-indexed and inclusive, in
/// storage coordinates; `file_path` is stored relative to the configured
/// root; `content` is the exact saved text, newlines included.
#[derive(Debug, Clone)]
pub struct Chunk {
    pub id: String,
    pub file_path: String,
    pub start_line: usize,
    pub end_line: usize,
    pub content: String,
    pub timestamp: u64,
    pub edited: bool,
    pub labels: Vec<String>,
}

impl View for Chunk {
    type V = ChunkView;

    open spec fn view(&self) -> ChunkView {
        ChunkView {
            id: self.id@,
            file_path: self.file_path@,
            start_line: self.start_line as int,
            end_line: self.end_line as int,
            content: self.content@,
            timestamp: self.timestamp as int,
            edited: self.edited,
            labels: self.labels.deep_view(),
        }
    }
}

/// The views of a sequence of chunks, in order.
pub open spec fn chunk_views(chunks: Seq<Chunk>) -> Seq<ChunkView> {
    chunks.map_values(|c: Chunk| c@)
}

/// The chunks whose stored path is exactly `path`, in store order.
pub open spec fn chunks_for_path(views: Seq<ChunkView>, path: Seq<char>) -> Seq<ChunkView> {
    views.filter(|c: ChunkView| c.file_path == path)
}

/// Relies on `uuid::Uuid::new_v4` and its `Display` impl: a fresh random
/// version-4 UUID in the standard 36-character hyphenated form.  Nothing
/// else is promised of the value; two calls may or may not differ.
#[verifier::external_body]
pub(crate) fn fresh_chunk_id() -> (r: String)
    ensures
        r@.len() == 36,
{
    uuid::Uuid::new_v4().to_string()
}

/// Relies on `std::time::SystemTime::now` and `duration_since`: the clock's
/// reading in whole seconds since the Unix epoch, 0 when the clock reads
/// earlier than the epoch.  Nothing is promised of the value.
#[verifier::external_body]
pub(crate) fn now_epoch_secs() -> u64 {
    std::time::SystemTime::now().duration_since(std::time::UNIX_EPOCH).unwrap_or_default().as_secs()
}

impl Chunk {
    /// Creates a chunk with a fresh id, the current time and no labels;
    /// every other field is exactly as given.
    pub fn new(
        file_path: String,
        start_line: usize,
        end_line: usize,
        content: String,
        edited: bool,
    ) -> (r: Chunk)
        ensures
            r.file_path == file_path,
            r.start_line == start_line,
            r.end_line == end_line,
            r.content == content,
            r.edited == edited,
            r.labels@.len() == 0,
            r.id@.len() == 36,
    {
        Chunk {
            id: fresh_chunk_id(),
            file_path,
            start_line,
            end_line,
            content,
            timestamp: now_epoch_secs(),
            edited,
            labels: Vec::new(),
        }
    }
}

/// Clones a chunk field by field; the copy has the same view.
fn clone_chunk(c: &Chunk) -> (r: Chunk)
    ensures
        r@ == c@,
{
    let labels = c.labels.clone();
    let r = Chunk {
        id: c.id.clone(),
        file_path: c.file_path.clone(),
        start_line: c.start_line,
        end_line: c.end_line,
        content: c.content.clone(),
        timestamp: c.timestamp,
        edited: c.edited,
        labels,
    };
    assert(r@ =~~= c@);
    r
}

/// The whole chunk store held in memory, in insertion order.  Its
/// serialized text is always a complete, independently loadable snapshot
/// of every record.
pub struct ChunkStorage {
    pub chunks: Vec<Chunk>,
}

impl ChunkStorage {
    /// An empty store.
    pub fn new() -> (r: ChunkStorage)
        ensures
            r.chunks@.len() == 0,
    {
        ChunkStorage { chunks: Vec::new() }
    }

    /// Appends a record; existing records are never altered, merged or
    /// deduplicated.
    pub fn add_chunk(&mut self, chunk: Chunk)
        ensures
            final(self).chunks@ == old(self).chunks@.push(chunk),
    {
        self.chunks.push(chunk);
    }

    /// All records, in insertion order.
    pub fn get_chunks(&self) -> (r: &Vec<Chunk>)
        ensures
            r@ == self.chunks@,
    {
        &self.chunks
    }

    /// The records stored for exactly `file_path`, in store order.
    #[verifier::loop_isolation(false)]
    pub fn get_chunks_for_file(&self, file_path: &str) -> (r: Vec<Chunk>)
        ensures
            chunk_views(r@) == chunks_for_path(chunk_views(self.chunks@), file_path@),
    {
        let ghost vs = chunk_views(self.chunks@);
        let ghost pred = |c: ChunkView| c.file_path == file_path@;
        let mut out: Vec<Chunk> = Vec::new();
        let n = self.chunks.len();
        proof {
            reveal(Seq::filter);
            assert(vs.take(0) =~= Seq::<ChunkView>::empty());
            assert(chunk_views(out@) =~= vs.take(0).filter(pred));
        }
        for i in 0..n
            invariant
                chunk_views(out@) == vs.take(i as int).filter(pred),
        {
            let ghost out0 = chunk_views(out@);
            if text::str_eq(self.chunks[i].file_path.as_str(), file_path) {
                let copy = clone_chunk(&self.chunks[i]);
                out.push(copy);
                proof {
                    assert(chunk_views(out@) =~= out0.push(self.chunks@[i as int]@));
                }
            }
            proof {
                reveal(Seq::filter);
                assert(vs.take(i + 1).drop_last() =~= vs.take(i as int));
                assert(vs.take(i + 1).last() == vs[i as int]);
                assert(vs[i as int] == self.chunks@[i as int]@);
                assert(chunk_views(out@) =~= vs.take(i + 1).filter(pred));
            }
        }
        proof {
            assert(vs.take(n as int) =~= vs);
        }
        out
    }

    /// The `(start_line, end_line)` pairs stored for `file_path`, in store
    /// order, still in 1-indexed storage coordinates.
    #[verifier::loop_isolation(false)]
    pub fn get_chunked_ranges(&self, file_path: &str) -> (r: Vec<(usize, usize)>)
        ensures
            r@ == chunks_for_path(chunk_views(self.chunks@), file_path@).map_values(
                |c: ChunkView| ((c.start_line as usize), (c.end_line as usize)),
            ),
    {
        let ghost vs = chunk_views(self.chunks@);
        let ghost pred = |c: ChunkView| c.file_path == file_path@;
        let ghost proj = |c: ChunkView| ((c.start_line as usize), (c.end_line as usize));
        let mut out: Vec<(usize, usize)> = Vec::new();
        let n = self.chunks.len();
        proof {
            reveal(Seq::filter);
            assert(vs.take(0) =~= Seq::<ChunkView>::empty());
            assert(out@ =~= vs.take(0).filter(pred).map_values(proj));
        }
        for i in 0..n
            invariant
                out@ == vs.take(i as int).filter(pred).map_values(proj),
        {
            let ghost out0 = out@;
            if text::str_eq(self.chunks[i].file_path.as_str(), file_path) {
                let c = &self.chunks[i];
                out.push((c.start_line, c.end_line));
            }
            proof {
                reveal(Seq::filter);
                assert(vs.take(i + 1).drop_last() =~= vs.take(i as int));
                assert(vs.take(i + 1).last() == vs[i as int]);
                assert(vs[i as int] == self.chunks@[i as int]@);
                if pred(vs[i as int]) {
                    assert(vs.take(i + 1).filter(pred) == vs.take(i as int).filter(pred).push(
                        vs[i as int],
                    ));
                    assert(out@ =~= vs.take(i + 1).filter(pred).map_values(proj));
                } else {
                    assert(vs.take(i + 1).filter(pred) == vs.take(i as int).filter(pred));
                    assert(out@ =~= vs.take(i + 1).filter(pred).map_values(proj));
                }
            }
        }
        proof {
            assert(vs.take(n as int) =~= vs);
        }
        out
    }

    /// Counts the lines among the file's first `total_lines` that at least
    /// one stored chunk covers.  Chunk bounds are 1-indexed, so a chunk
    /// covers the 0-indexed lines `start_line - 1 ..= end_line - 1`,
    /// clipped to the file; overlapping chunks never count a line twice.
    #[verifier::loop_isolation(false)]
    pub fn chunked_line_count(&self, file_path: &str, total_lines: usize) -> (r: usize)
        ensures
            r == ranges::covered_count(
                storage_cover_ranges(chunk_views(self.chunks@), file_path@),
                total_lines as nat,
            ),
            r <= total_lines,
    {
        let stored = self.get_chunked_ranges(file_path);
        let mut cover: Vec<(usize, usize)> = Vec::new();
        let n = stored.len();
        let ghost target = storage_cover_ranges(chunk_views(self.chunks@), file_path@);
        proof {
            assert(target.len() == stored@.len());
            assert(cover@ =~= target.take(0));
        }
        for i in 0..n
            invariant
                cover@ == target.take(i as int),
        {
            assert(i < stored@.len());
            let (s, e) = stored[i];
            let s0: usize = if s > 0 {
                s - 1
            } else {
                0
            };
            let e0: usize = if e > 0 {
                e - 1
            } else {
                0
            };
            cover.push((s0, e0));
            proof {
                assert(target[i as int] == (s0, e0));
                assert(cover@ =~= target.take(i + 1));
            }
        }
        proof {
            assert(cover@ =~= target);
        }
        ranges::count_covered_lines(&cover, total_lines)
    }
}

/// The labels field as stored: the labels joined with `|`, empty when none.
pub open spec fn labels_field(labels: Seq<Seq<char>>) -> Seq<char> {
    if labels.len() == 0 {
        Seq::empty()
    } else {
        text::join_with(labels, '|')
    }
}

/// The labels a stored field denotes: none for the empty field, otherwise
/// the field split on `|`.
pub open spec fn decode_labels(s: Seq<char>) -> Seq<Seq<char>> {
    if s.len() == 0 {
        Seq::empty()
    } else {
        text::split_with(s, '|')
    }
}

/// The stored text of a boolean field.
pub open spec fn bool_chars(b: bool) -> Seq<char> {
    if b {
        seq!['t', 'r', 'u', 'e']
    } else {
        seq!['f', 'a', 'l', 's', 'e']
    }
}

/// One chunk as the eight fields of its stored row, in order: id, path,
/// start line, end line, content, timestamp, edited, labels.
pub open spec fn chunk_row(c: ChunkView) -> Seq<Seq<char>> {
    seq![
        c.id,
        c.file_path,
        text::dec_digits(c.start_line as nat),
        text::dec_digits(c.end_line as nat),
        c.content,
        text::dec_digits(c.timestamp as nat),
        bool_chars(c.edited),
        labels_field(c.labels),
    ]
}

/// A whole store as text: one row per chunk, in order.
pub open spec fn store_text(chunks: Seq<ChunkView>) -> Seq<char> {
    record::encode_rows(chunks.map_values(|c: ChunkView| chunk_row(c)))
}

/// The chunk a stored row denotes, when it is well formed: exactly eight
/// fields, line numbers and timestamp in machine range, a boolean `edited`.
pub open spec fn decode_row(row: Seq<Seq<char>>) -> Option<ChunkView> {
    if row.len() != 8 {
        None
    } else if !(row[2].len() > 0 && text::all_digits(row[2]) && text::dec_val(row[2])
        <= usize::MAX) {
        None
    } else if !(row[3].len() > 0 && text::all_digits(row[3]) && text::dec_val(row[3])
        <= usize::MAX) {
        None
    } else if !(row[5].len() > 0 && text::all_digits(row[5]) && text::dec_val(row[5])
        <= u64::MAX) {
        None
    } else if row[6] != bool_chars(true) && row[6] != bool_chars(false) {
        None
    } else {
        Some(
            ChunkView {
                id: row[0],
                file_path: row[1],
                start_line: text::dec_val(row[2]),
                end_line: text::dec_val(row[3]),
                content: row[4],
                timestamp: text::dec_val(row[5]),
                edited: row[6] == bool_chars(true),
                labels: decode_labels(row[7]),
            },
        )
    }
}

/// The chunks a row list denotes; any malformed row rejects the whole list.
pub open spec fn decode_rows(rows: Seq<Seq<Seq<char>>>) -> Option<Seq<ChunkView>>
    decreases rows.len(),
{
    if rows.len() == 0 {
        Some(Seq::empty())
    } else {
        match decode_row(rows[0]) {
            None => None,
            Some(c) => match decode_rows(rows.drop_first()) {
                None => None,
                Some(cs) => Some(seq![c] + cs),
            },
        }
    }
}

/// What a store file's text denotes: the recorded chunks, or nothing at
/// all when any record is malformed.
pub open spec fn load_store(s: Seq<char>) -> Option<Seq<ChunkView>> {
    match record::parse_rows(s) {
        None => None,
        Some(rows) => decode_rows(rows),
    }
}

/// Labels survive the store's joined representation: no label holds the
/// `|` separator, and the list is not one single empty label.
pub open spec fn labels_round_trippable(labels: Seq<Seq<char>>) -> bool {
    &&& forall|i: int| 0 <= i < labels.len() ==> !(#[trigger] labels[i]).contains('|')
    &&& !(labels.len() == 1 && labels[0].len() == 0)
}

/// The chunk views a store can represent exactly: fields in machine range
/// and labels representable.
pub open spec fn chunk_serializable(c: ChunkView) -> bool {
    &&& 0 <= c.start_line <= usize::MAX
    &&& 0 <= c.end_line <= usize::MAX
    &&& 0 <= c.timestamp <= u64::MAX
    &&& labels_round_trippable(c.labels)
}

proof fn lemma_labels_round_trip(labels: Seq<Seq<char>>)
    requires
        labels_round_trippable(labels),
    ensures
        decode_labels(labels_field(labels)) == labels,
{
    if labels.len() == 0 {
        assert(decode_labels(labels_field(labels)) =~~= labels);
    } else {
        if labels.len() == 1 {
            assert(labels_field(labels) == labels[0]);
            assert(labels[0].len() > 0);
        } else {
            assert(text::join_with(labels, '|') == labels[0] + seq!['|'] + text::join_with(
                labels.drop_first(),
                '|',
            ));
            assert(labels_field(labels).len() > 0);
        }
        text::lemma_split_join(labels, '|');
    }
}

/// One stored row reads back as the chunk it was written from.
pub proof fn lemma_chunk_row_round_trip(c: ChunkView)
    requires
        chunk_serializable(c),
    ensures
        decode_row(chunk_row(c)) == Some(c),
{
    let row = chunk_row(c);
    assert(row.len() == 8);
    text::lemma_dec_round_trip(c.start_line as nat);
    text::lemma_dec_round_trip(c.end_line as nat);
    text::lemma_dec_round_trip(c.timestamp as nat);
    assert(bool_chars(true).len() == 4);
    assert(bool_chars(false).len() == 5);
    lemma_labels_round_trip(c.labels);
    match decode_row(row) {
        Some(v) => {
            assert(v =~~= c);
        },
        None => {
            assert(false);
        },
    }
}

proof fn lemma_decode_rows_of_chunks(chunks: Seq<ChunkView>)
    requires
        forall|i: int| 0 <= i < chunks.len() ==> chunk_serializable(#[trigger] chunks[i]),
    ensures
        decode_rows(chunks.map_values(|c: ChunkView| chunk_row(c))) == Some(chunks),
    decreases chunks.len(),
{
    let rows = chunks.map_values(|c: ChunkView| chunk_row(c));
    if chunks.len() == 0 {
        assert(rows.len() == 0);
        assert(Seq::<ChunkView>::empty() =~= chunks);
    } else {
        lemma_chunk_row_round_trip(chunks[0]);
        assert(rows[0] == chunk_row(chunks[0]));
        assert(rows.drop_first() =~~= chunks.drop_first().map_values(
            |c: ChunkView| chunk_row(c),
        ));
        lemma_decode_rows_of_chunks(chunks.drop_first());
        assert(seq![chunks[0]] + chunks.drop_first() =~= chunks);
    }
}

/// Round trip: the text written for any serializable chunks reads back as
/// exactly those chunks, field for field — whatever newlines, quotes or
/// commas their contents hold.
pub proof fn lemma_store_round_trip(chunks: Seq<ChunkView>)
    requires
        forall|i: int| 0 <= i < chunks.len() ==> chunk_serializable(#[trigger] chunks[i]),
    ensures
        load_store(store_text(chunks)) == Some(chunks),
{
    let rows = chunks.map_values(|c: ChunkView| chunk_row(c));
    assert forall|i: int| 0 <= i < rows.len() implies (#[trigger] rows[i]).len() >= 1 by {
        assert(rows[i] == chunk_row(chunks[i]));
    }
    record::lemma_parse_rows_of_encoded(rows);
    lemma_decode_rows_of_chunks(chunks);
}

/// Why loading a persisted store failed.
#[derive(Debug, Clone, Copy, PartialEq, Eq, Structural)]
pub enum StoreError {
    /// Some record failed to parse; nothing is loaded from such a store.
    MalformedStore,
}

/// The stored text of a boolean field, as a string.
fn bool_string(b: bool) -> (r: String)
    ensures
        r@ == bool_chars(b),
{
    let mut v: Vec<char> = Vec::new();
    if b {
        v.push('t');
        v.push('r');
        v.push('u');
        v.push('e');
        assert(v@ =~= bool_chars(true));
    } else {
        v.push('f');
        v.push('a');
        v.push('l');
        v.push('s');
        v.push('e');
        assert(v@ =~= bool_chars(false));
    }
    text::string_of(&v)
}

/// The labels field of a row, as a string.
fn labels_string(labels: &Vec<String>) -> (r: String)
    ensures
        r@ == labels_field(labels.deep_view()),
{
    if labels.len() == 0 {
        let r = String::new();
        assert(r@ =~= labels_field(labels.deep_view()));
        r
    } else {
        let sl = labels.as_slice();
        let r = text::join_with_exec(sl, '|');
        proof {
            assert(sl.deep_view() =~~= labels.deep_view());
        }
        r
    }
}

/// Reads one row back as a chunk; `None` exactly when the row is not a
/// well-formed record.
fn decode_row_exec(row: &Vec<Vec<char>>) -> (r: Option<Chunk>)
    ensures
        (match r {
            Some(c) => decode_row(row.deep_view()) == Some(c@),
            None => decode_row(row.deep_view()) is None,
        }),
{
    let ghost rv = row.deep_view();
    proof {
        assert(rv.len() == row@.len());
        assert(forall|i: int| 0 <= i < row@.len() ==> rv[i] == row@[i]@);
    }
    if row.len() != 8 {
        return None;
    }
    let start_u64 = match text::parse_dec(&row[2]) {
        Some(v) => v,
        None => {
            assert(decode_row(rv) is None);
            return None;
        },
    };
    if start_u64 > usize::MAX as u64 {
        assert(decode_row(rv) is None);
        return None;
    }
    let start_line = start_u64 as usize;
    let end_u64 = match text::parse_dec(&row[3]) {
        Some(v) => v,
        None => {
            assert(decode_row(rv) is None);
            return None;
        },
    };
    if end_u64 > usize::MAX as u64 {
        assert(decode_row(rv) is None);
        return None;
    }
    let end_line = end_u64 as usize;
    let timestamp = match text::parse_dec(&row[5]) {
        Some(v) => v,
        None => {
            assert(decode_row(rv) is None);
            return None;
        },
    };
    let ed = &row[6];
    let edited: bool;
    if ed.len() == 4 && ed[0] == 't' && ed[1] == 'r' && ed[2] == 'u' && ed[3] == 'e' {
        proof {
            assert(ed@ =~= bool_chars(true));
        }
        edited = true;
    } else if ed.len() == 5 && ed[0] == 'f' && ed[1] == 'a' && ed[2] == 'l' && ed[3] == 's'
        && ed[4] == 'e' {
        proof {
            assert(ed@ =~= bool_chars(false));
        }
        edited = false;
    } else {
        proof {
            if rv[6] == bool_chars(true) {
                assert(ed@.len() == 4);
                assert(ed@[0] == 't' && ed@[1] == 'r' && ed@[2] == 'u' && ed@[3] == 'e');
                assert(false);
            }
            if rv[6] == bool_chars(false) {
                assert(ed@.len() == 5);
                assert(ed@[0] == 'f' && ed@[1] == 'a' && ed@[2] == 'l' && ed@[3] == 's' && ed@[4]
                    == 'e');
                assert(false);
            }
            assert(decode_row(rv) is None);
        }
        return None;
    }
    let labels: Vec<String> = if row[7].len() == 0 {
        Vec::new()
    } else {
        let joined = text::string_of(&row[7]);
        text::split_with_exec(joined.as_str(), '|')
    };
    let chunk = Chunk {
        id: text::string_of(&row[0]),
        file_path: text::string_of(&row[1]),
        start_line,
        end_line,
        content: text::string_of(&row[4]),
        timestamp,
        edited,
        labels,
    };
    proof {
        match decode_row(rv) {
            Some(v) => {
                assert(chunk@ =~~= v);
            },
            None => {
                assert(false);
            },
        }
    }
    Some(chunk)
}

impl ChunkStorage {
    /// The complete file text for the current records: one row per record,
    /// eight fields each, every field quoted.
    #[verifier::loop_isolation(false)]
    pub fn to_text(&self) -> (r: String)
        ensures
            r@ == store_text(chunk_views(self.chunks@)),
    {
        let ghost vs = chunk_views(self.chunks@);
        let ghost rows = vs.map_values(|c: ChunkView| chunk_row(c));
        let mut out: Vec<char> = Vec::new();
        let n = self.chunks.len();
        proof {
            assert(rows.take(0) =~= Seq::<Seq<Seq<char>>>::empty());
            assert(out@ =~= record::encode_rows(rows.take(0)));
        }
        for k in 0..n
            invariant
                out@ == record::encode_rows(rows.take(k as int)),
        {
            let c = &self.chunks[k];
            let mut fields: Vec<String> = Vec::new();
            fields.push(c.id.clone());
            fields.push(c.file_path.clone());
            fields.push(text::dec_string(c.start_line as u64));
            fields.push(text::dec_string(c.end_line as u64));
            fields.push(c.content.clone());
            fields.push(text::dec_string(c.timestamp));
            fields.push(bool_string(c.edited));
            fields.push(labels_string(&c.labels));
            proof {
                assert(vs[k as int] == self.chunks@[k as int]@);
                assert(rows[k as int] == chunk_row(vs[k as int]));
                assert(fields.deep_view() =~~= chunk_row(vs[k as int]));
            }
            record::push_row(&mut out, &fields);
            proof {
                record::lemma_encode_rows_push(rows.take(k as int), rows[k as int]);
                assert(rows.take(k + 1) =~= rows.take(k as int).push(rows[k as int]));
                assert(out@ =~= record::encode_rows(rows.take(k + 1)));
            }
        }
        proof {
            assert(rows.take(n as int) =~= rows);
        }
        text::string_of(&out)
    }

    /// Parses a whole store text.  `Ok` exactly when every record parses;
    /// one malformed record rejects the whole store rather than losing it.
    #[verifier::loop_isolation(false)]
    pub fn from_text(text_in: &str) -> (r: Result<ChunkStorage, StoreError>)
        ensures
            (match r {
                Ok(s) => load_store(text_in@) == Some(chunk_views(s.chunks@)),
                Err(e) => e == StoreError::MalformedStore && load_store(text_in@) is None,
            }),
    {
        let chars = text::chars_of(text_in);
        let rows = match record::parse_rows_exec(&chars) {
            Some(rows) => rows,
            None => {
                return Err(StoreError::MalformedStore);
            },
        };
        let ghost rvs = rows.deep_view();
        let mut chunks: Vec<Chunk> = Vec::new();
        let n = rows.len();
        proof {
            assert(rvs.len() == n);
            assert(forall|i: int| 0 <= i < n ==> rvs[i] == (#[trigger] rows@[i]).deep_view());
            assert(rvs.skip(0) =~~= rvs);
            assert(chunk_views(chunks@) =~~= Seq::<ChunkView>::empty());
        }
        for k in 0..n
            invariant
                (match decode_rows(rvs.skip(k as int)) {
                    Some(cs) => decode_rows(rvs) == Some(chunk_views(chunks@) + cs),
                    None => decode_rows(rvs) is None,
                }),
        {
            let ghost s = rvs.skip(k as int);
            let ghost chunks0 = chunk_views(chunks@);
            proof {
                assert(s.len() == n - k);
                assert(s[0] == rvs[k as int]);
                assert(s.drop_first() =~~= rvs.skip(k + 1));
                assert(rvs[k as int] == rows@[k as int].deep_view());
            }
            match decode_row_exec(&rows[k]) {
                None => {
                    proof {
                        assert(decode_row(s[0]) is None);
                        assert(decode_rows(s) is None);
                    }
                    return Err(StoreError::MalformedStore);
                },
                Some(c) => {
                    let ghost cv = c@;
                    chunks.push(c);
                    proof {
                        assert(decode_row(s[0]) == Some(cv));
                        assert(chunk_views(chunks@) =~~= chunks0.push(cv));
                        match decode_rows(rvs.skip(k + 1)) {
                            Some(cs2) => {
                                assert(decode_rows(s) == Some(seq![cv] + cs2));
                                assert(chunks0 + (seq![cv] + cs2) =~~= chunk_views(chunks@)
                                    + cs2);
                            },
                            None => {
                                assert(decode_rows(s) is None);
                            },
                        }
                    }
                },
            }
        }
        proof {
            assert(rvs.skip(n as int).len() == 0);
            assert(decode_rows(rvs.skip(n as int)) == Some(Seq::<ChunkView>::empty()));
            assert(chunk_views(chunks@) + Seq::<ChunkView>::empty() =~~= chunk_views(chunks@));
        }
        Ok(ChunkStorage { chunks })
    }
}

/// Coverage monotonicity: recording one more chunk never decreases the
/// covered-line count of any file, so no file's coverage percentage ever
/// drops; for the chunk's own file the count grows by exactly the lines of
/// the chunk's range that were not covered before (and for other files it
/// does not change at all).
pub proof fn lemma_add_chunk_coverage_monotone(
    views: Seq<ChunkView>,
    c: ChunkView,
    path: Seq<char>,
    total: nat,
)
    ensures
        ranges::covered_count(storage_cover_ranges(views, path), total) <= ranges::covered_count(
            storage_cover_ranges(views.push(c), path),
            total,
        ),
        c.file_path == path ==> ranges::covered_count(
            storage_cover_ranges(views.push(c), path),
            total,
        ) == ranges::covered_count(storage_cover_ranges(views, path), total)
            + ranges::newly_covered_count(
            storage_cover_ranges(views, path),
            cover_range_of(c),
            total,
        ),
        c.file_path != path ==> storage_cover_ranges(views.push(c), path) == storage_cover_ranges(
            views,
            path,
        ),
{
    reveal(Seq::filter);
    let pred = |x: ChunkView| x.file_path == path;
    assert(views.push(c).drop_last() =~= views);
    assert(views.push(c).last() == c);
    if c.file_path == path {
        assert(views.push(c).filter(pred) == views.filter(pred).push(c));
        assert(storage_cover_ranges(views.push(c), path) =~= storage_cover_ranges(
            views,
            path,
        ).push(cover_range_of(c)));
        ranges::lemma_coverage_monotone(storage_cover_ranges(views, path), cover_range_of(c), total);
    } else {
        assert(views.push(c).filter(pred) == views.filter(pred));
        assert(storage_cover_ranges(views.push(c), path) =~= storage_cover_ranges(views, path));
    }
}

/// The 0-indexed inclusive cover range of one stored chunk: its 1-indexed
/// bounds moved down by one (clipped at zero).
pub open spec fn cover_range_of(c: ChunkView) -> (usize, usize) {
    (
        (if c.start_line as usize > 0 {
            (c.start_line as usize - 1) as usize
        } else {
            0 as usize
        }),
        (if c.end_line as usize > 0 {
            (c.end_line as usize - 1) as usize
        } else {
            0 as usize
        }),
    )
}

/// The 0-indexed inclusive cover ranges of the chunks stored for `path`:
/// each chunk's 1-indexed bounds moved down by one (clipped at zero).
pub open spec fn storage_cover_ranges(views: Seq<ChunkView>, path: Seq<char>) -> Seq<
    (usize, usize),
> {
    chunks_for_path(views, path).map_values(|c: ChunkView| cover_range_of(c))
}

} // verus!
