//! Small path and display helpers: relative paths under a root, the
//! generated file name for an exported chunk, and string truncation.

use vstd::prelude::*;

use crate::text;

verus! {

/// A path separator; both POSIX and Windows separators are recognized.
pub open spec fn is_sep(c: char) -> bool {
    c == '/' || c == '\\'
}

/// `path` lies under `root`: `root` is a prefix and the cut falls on a
/// component boundary.
pub open spec fn path_in_root(path: Seq<char>, root: Seq<char>) -> bool {
    &&& root.len() <= path.len()
    &&& path.take(root.len() as int) == root
    &&& (path.len() == root.len() || is_sep(path[root.len() as int]) || (root.len() > 0 && is_sep(
        root[root.len() - 1],
    )))
}

/// `s` without one leading separator, if any.
pub open spec fn strip_leading_sep(s: Seq<char>) -> Seq<char> {
    if s.len() > 0 && is_sep(s[0]) {
        s.drop_first()
    } else {
        s
    }
}

/// The stored form of a file path: relative to `root` when it lies under
/// it, unchanged otherwise.
pub open spec fn rel_path(path: Seq<char>, root: Seq<char>) -> Seq<char> {
    if path_in_root(path, root) {
        strip_leading_sep(path.skip(root.len() as int))
    } else {
        path
    }
}

/// Decides whether `q` is a prefix of `p`.
fn is_prefix(p: &Vec<char>, q: &Vec<char>) -> (r: bool)
    ensures
        r == (q@.len() <= p@.len() && p@.take(q@.len() as int) == q@),
{
    let nq = q.len();
    if nq > p.len() {
        return false;
    }
    let mut ok = true;
    for i in 0..nq
        invariant
            nq <= p@.len(),
            nq == q@.len(),
            ok == (forall|j: int| 0 <= j < i ==> p@[j] == q@[j]),
    {
        if p[i] != q[i] {
            ok = false;
        }
    }
    proof {
        if ok {
            assert(p@.take(nq as int) =~= q@);
        } else {
            let j = choose|j: int| !(0 <= j < nq ==> p@[j] == q@[j]);
            assert(p@.take(nq as int)[j] != q@[j]);
        }
    }
    ok
}

/// Makes `path` relative to `root` where possible; otherwise returns it
/// unchanged.
pub fn rel_path_exec(path: &str, root: &str) -> (r: String)
    ensures
        r@ == rel_path(path@, root@),
{
    let p = text::chars_of(path);
    let q = text::chars_of(root);
    let np = p.len();
    let nq = q.len();
    let in_root = is_prefix(&p, &q);
    if in_root {
        assert(path@.take(nq as int) == root@);
        let boundary: bool = if np == nq {
            true
        } else if p[nq] == '/' || p[nq] == '\\' {
            true
        } else if nq > 0 && (q[nq - 1] == '/' || q[nq - 1] == '\\') {
            true
        } else {
            false
        };
        if boundary {
            assert(path_in_root(path@, root@));
            let mut start = nq;
            if start < np && (p[start] == '/' || p[start] == '\\') {
                start = start + 1;
            }
            let mut out: Vec<char> = Vec::new();
            for i in start..np
                invariant
                    start <= np,
                    np == p@.len(),
                    p@ == path@,
                    out@ == path@.subrange(start as int, i as int),
            {
                out.push(p[i]);
                assert(out@ =~= path@.subrange(start as int, i + 1));
            }
            proof {
                assert(path@.subrange(start as int, np as int) =~= strip_leading_sep(
                    path@.skip(nq as int),
                ));
            }
            return text::string_of(&out);
        }
        assert(!path_in_root(path@, root@));
    } else {
        assert(!path_in_root(path@, root@));
    }
    let mut out: Vec<char> = Vec::new();
    for i in 0..np
        invariant
            np == p@.len(),
            p@ == path@,
            out@ == path@.take(i as int),
    {
        out.push(p[i]);
        assert(out@ =~= path@.take(i + 1));
    }
    assert(out@ =~= path@);
    text::string_of(&out)
}

/// A file name appended to a directory path, with a separator between
/// them unless the directory already ends in one or is empty.
pub open spec fn join_path(dir: Seq<char>, name: Seq<char>) -> Seq<char> {
    if dir.len() == 0 {
        name
    } else if is_sep(dir[dir.len() - 1]) {
        dir + name
    } else {
        dir + seq!['/'] + name
    }
}

/// Joins a directory path and a file name.
pub fn join_path_exec(dir: &str, name: &str) -> (r: String)
    ensures
        r@ == join_path(dir@, name@),
{
    let d = text::chars_of(dir);
    let n = text::chars_of(name);
    let mut out: Vec<char> = Vec::new();
    let nd = d.len();
    for i in 0..nd
        invariant
            nd == d@.len(),
            d@ == dir@,
            out@ == dir@.take(i as int),
    {
        out.push(d[i]);
        assert(out@ =~= dir@.take(i + 1));
    }
    assert(out@ =~= dir@);
    if nd > 0 {
        let last = d[nd - 1];
        if !(last == '/' || last == '\\') {
            out.push('/');
        }
    }
    let nn = n.len();
    let ghost base = out@;
    for i in 0..nn
        invariant
            nn == n@.len(),
            n@ == name@,
            out@ == base + name@.take(i as int),
    {
        out.push(n[i]);
        assert(out@ =~= base + name@.take(i + 1));
    }
    proof {
        assert(name@.take(nn as int) =~= name@);
        assert(out@ =~= join_path(dir@, name@));
    }
    text::string_of(&out)
}

/// A character as it appears in a generated file name: ASCII letters and
/// digits kept, everything else an underscore.
pub open spec fn sanitize_char(c: char) -> char {
    if ('a' <= c && c <= 'z') || ('A' <= c && c <= 'Z') || ('0' <= c && c <= '9') {
        c
    } else {
        '_'
    }
}

/// Windows separators rewritten to the POSIX one.
pub open spec fn normalize_seps(s: Seq<char>) -> Seq<char> {
    s.map_values(|c: char| if c == '\\' { '/' } else { c })
}

/// The generated file name for an exported chunk: the path's components
/// under `root`, sanitized and joined with underscores, then the 1-indexed
/// line range and a `.txt` suffix.
pub open spec fn spec_chunk_filename(
    path: Seq<char>,
    root: Seq<char>,
    start: int,
    end: int,
) -> Seq<char> {
    let rel = rel_path(path, root);
    let comps = text::split_with(normalize_seps(rel), '/').filter(|p: Seq<char>| p.len() > 0);
    text::join_with(comps.map_values(|p: Seq<char>| p.map_values(|c: char| sanitize_char(c))), '_')
        + seq!['_'] + text::dec_digits((start + 1) as nat) + seq!['-'] + text::dec_digits(
        (end + 1) as nat,
    ) + seq!['.', 't', 'x', 't']
}

fn sanitize_part(part: &str) -> (r: Vec<char>)
    ensures
        r@ == part@.map_values(|c: char| sanitize_char(c)),
{
    let chars = text::chars_of(part);
    let n = chars.len();
    let mut out: Vec<char> = Vec::new();
    for i in 0..n
        invariant
            n == chars@.len(),
            chars@ == part@,
            out@ == part@.take(i as int).map_values(|c: char| sanitize_char(c)),
    {
        let c = chars[i];
        let s: char = if (('a' <= c && c <= 'z') || ('A' <= c && c <= 'Z') || ('0' <= c && c
            <= '9')) {
            c
        } else {
            '_'
        };
        assert(s == sanitize_char(part@[i as int]));
        out.push(s);
        assert(out@ =~= part@.take(i + 1).map_values(|c: char| sanitize_char(c)));
    }
    assert(part@.take(n as int) =~= part@);
    out
}

/// Builds the export file name for the chunk of `path` (relative to
/// `root`) covering the 0-indexed inclusive lines `start_line..=end_line`;
/// the name carries the 1-indexed range.
#[verifier::loop_isolation(false)]
pub fn generate_chunk_filename(path: &str, root: &str, start_line: usize, end_line: usize) -> (r:
    String)
    requires
        start_line < usize::MAX,
        end_line < usize::MAX,
    ensures
        r@ == spec_chunk_filename(path@, root@, start_line as int, end_line as int),
{
    let rel = rel_path_exec(path, root);
    let rel_chars = text::chars_of(rel.as_str());
    let n = rel_chars.len();
    let mut norm: Vec<char> = Vec::new();
    for i in 0..n
        invariant
            norm@ == normalize_seps(rel@.take(i as int)),
        decreases n - i,
    {
        let c = rel_chars[i];
        norm.push(if c == '\\' {
            '/'
        } else {
            c
        });
        assert(norm@ =~= normalize_seps(rel@.take(i + 1)));
    }
    assert(rel@.take(n as int) =~= rel@);
    let norm_s = text::string_of(&norm);
    let parts = text::split_with_exec(norm_s.as_str(), '/');
    let ghost pv = parts.deep_view();
    let ghost keep = |p: Seq<char>| p.len() > 0;
    let ghost sani = |p: Seq<char>| p.map_values(|c: char| sanitize_char(c));
    let m = parts.len();
    let mut out: Vec<char> = Vec::new();
    let mut any = false;
    proof {
        reveal(Seq::filter);
        assert(pv.take(0) =~~= Seq::<Seq<char>>::empty());
        assert(out@ =~= text::join_with(pv.take(0).filter(keep).map_values(sani), '_'));
    }
    for i in 0..m
        invariant
            out@ == text::join_with(pv.take(i as int).filter(keep).map_values(sani), '_'),
            any == (pv.take(i as int).filter(keep).len() > 0),
        decreases m - i,
    {
        let ghost done = pv.take(i as int).filter(keep).map_values(sani);
        proof {
            reveal(Seq::filter);
            assert(pv.take(i + 1).drop_last() =~~= pv.take(i as int));
            assert(pv.take(i + 1).last() == pv[i as int]);
            assert(pv[i as int] == parts@[i as int]@);
        }
        if parts[i].as_str().unicode_len() > 0 {
            if any {
                out.push('_');
            }
            let mut s = sanitize_part(parts[i].as_str());
            out.append(&mut s);
            proof {
                assert(pv.take(i + 1).filter(keep) == pv.take(i as int).filter(keep).push(
                    pv[i as int],
                ));
                assert(pv.take(i + 1).filter(keep).map_values(sani) =~~= done.push(
                    sani(pv[i as int]),
                ));
                text::lemma_join_push(done, sani(pv[i as int]), '_');
            }
            any = true;
        } else {
            proof {
                assert(pv[i as int].len() == 0);
                assert(pv.take(i + 1).filter(keep) == pv.take(i as int).filter(keep));
            }
        }
    }
    proof {
        assert(pv.take(m as int) =~~= pv);
    }
    out.push('_');
    text::push_dec_digits((start_line + 1) as u64, &mut out);
    out.push('-');
    text::push_dec_digits((end_line + 1) as u64, &mut out);
    out.push('.');
    out.push('t');
    out.push('x');
    out.push('t');
    proof {
        assert(out@ =~= spec_chunk_filename(path@, root@, start_line as int, end_line as int));
    }
    text::string_of(&out)
}

/// A string shortened for display: unchanged when it fits in `max_len`
/// characters, otherwise cut to `max_len` with a trailing ellipsis when
/// there is room for one.
pub open spec fn spec_truncate(s: Seq<char>, max_len: nat) -> Seq<char> {
    if s.len() <= max_len {
        s
    } else if max_len < 3 {
        s.take(max_len as int)
    } else {
        s.take(max_len - 3) + seq!['.', '.', '.']
    }
}

/// Shortens `s` for display to at most `max_len` characters.
pub fn truncate_string(s: &str, max_len: usize) -> (r: String)
    ensures
        r@ == spec_truncate(s@, max_len as nat),
{
    let chars = text::chars_of(s);
    let n = chars.len();
    if n <= max_len {
        let mut out: Vec<char> = Vec::new();
        for i in 0..n
            invariant
                n == chars@.len(),
                chars@ == s@,
                out@ == s@.take(i as int),
        {
            out.push(chars[i]);
            assert(out@ =~= s@.take(i + 1));
        }
        assert(out@ =~= s@);
        text::string_of(&out)
    } else {
        let limit: usize = if max_len < 3 {
            max_len
        } else {
            max_len - 3
        };
        let mut out: Vec<char> = Vec::new();
        for i in 0..limit
            invariant
                limit <= n,
                n == chars@.len(),
                chars@ == s@,
                out@ == s@.take(i as int),
        {
            out.push(chars[i]);
            assert(out@ =~= s@.take(i + 1));
        }
        if max_len >= 3 {
            out.push('.');
            out.push('.');
            out.push('.');
            assert(out@ =~= spec_truncate(s@, max_len as nat));
        } else {
            assert(out@ =~= spec_truncate(s@, max_len as nat));
        }
        text::string_of(&out)
    }
}

} // verus!
