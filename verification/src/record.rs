//! The persisted record format: comma-separated rows of quoted fields.
//!
//! Every field is written quoted, with embedded quotes doubled, so commas,
//! quotes and newlines inside a field round-trip exactly; rows end with a
//! newline.  The reader accepts exactly this shape and nothing else, so a
//! malformed store is rejected rather than partially read.

use vstd::prelude::*;

verus! {

/// `s` with every quote doubled.
pub open spec fn escape_quotes(s: Seq<char>) -> Seq<char>
    decreases s.len(),
{
    if s.len() == 0 {
        Seq::empty()
    } else {
        (if s[0] == '"' {
            seq!['"', '"']
        } else {
            seq![s[0]]
        }) + escape_quotes(s.drop_first())
    }
}

/// A field as written: quoted, embedded quotes doubled.
pub open spec fn quote_field(s: Seq<char>) -> Seq<char> {
    seq!['"'] + escape_quotes(s) + seq!['"']
}

/// The fields of one row, quoted and joined with commas.
pub open spec fn encode_fields(fields: Seq<Seq<char>>) -> Seq<char>
    decreases fields.len(),
{
    if fields.len() == 0 {
        Seq::empty()
    } else if fields.len() == 1 {
        quote_field(fields[0])
    } else {
        quote_field(fields[0]) + seq![','] + encode_fields(fields.drop_first())
    }
}

/// One row as written: its fields, then a newline.
pub open spec fn encode_row(fields: Seq<Seq<char>>) -> Seq<char> {
    encode_fields(fields) + seq!['\n']
}

/// A whole file: the rows, one after the other.
pub open spec fn encode_rows(rows: Seq<Seq<Seq<char>>>) -> Seq<char>
    decreases rows.len(),
{
    if rows.len() == 0 {
        Seq::empty()
    } else {
        encode_row(rows[0]) + encode_rows(rows.drop_first())
    }
}

/// Reads a field body after its opening quote: the value, and what follows
/// the closing quote.  `None` when the quote is never closed.
pub open spec fn parse_quoted(s: Seq<char>) -> Option<(Seq<char>, Seq<char>)>
    decreases s.len(),
{
    if s.len() == 0 {
        None
    } else if s[0] == '"' {
        if s.len() >= 2 && s[1] == '"' {
            match parse_quoted(s.skip(2)) {
                None => None,
                Some(p) => Some((seq!['"'] + p.0, p.1)),
            }
        } else {
            Some((Seq::empty(), s.drop_first()))
        }
    } else {
        match parse_quoted(s.drop_first()) {
            None => None,
            Some(p) => Some((seq![s[0]] + p.0, p.1)),
        }
    }
}

/// Reads one quoted field from the front of `s`.
pub open spec fn parse_field(s: Seq<char>) -> Option<(Seq<char>, Seq<char>)> {
    if s.len() == 0 || s[0] != '"' {
        None
    } else {
        parse_quoted(s.drop_first())
    }
}

/// Reads one row from the front of `s`: its fields, and what follows the
/// row's terminating newline (a final row may end at the end of input).
pub open spec fn parse_row(s: Seq<char>) -> Option<(Seq<Seq<char>>, Seq<char>)>
    decreases s.len(),
{
    match parse_field(s) {
        None => None,
        Some(p) => {
            let f = p.0;
            let rest = p.1;
            if rest.len() == 0 {
                Some((seq![f], rest))
            } else if rest[0] == ',' {
                if rest.len() < s.len() {
                    match parse_row(rest.drop_first()) {
                        None => None,
                        Some(q) => Some((seq![f] + q.0, q.1)),
                    }
                } else {
                    None
                }
            } else if rest[0] == '\n' {
                Some((seq![f], rest.drop_first()))
            } else {
                None
            }
        },
    }
}

/// Reads a whole file as rows; empty input is the empty row list.
pub open spec fn parse_rows(s: Seq<char>) -> Option<Seq<Seq<Seq<char>>>>
    decreases s.len(),
{
    if s.len() == 0 {
        Some(Seq::empty())
    } else {
        match parse_row(s) {
            None => None,
            Some(p) => {
                if p.1.len() < s.len() {
                    match parse_rows(p.1) {
                        None => None,
                        Some(rows) => Some(seq![p.0] + rows),
                    }
                } else {
                    None
                }
            },
        }
    }
}

pub proof fn lemma_escape_quotes_push(s: Seq<char>, c: char)
    ensures
        escape_quotes(s.push(c)) == escape_quotes(s) + (if c == '"' {
            seq!['"', '"']
        } else {
            seq![c]
        }),
    decreases s.len(),
{
    let exp = if c == '"' {
        seq!['"', '"']
    } else {
        seq![c]
    };
    if s.len() == 0 {
        assert(s.push(c).drop_first() =~= Seq::<char>::empty());
        assert(s.push(c)[0] == c);
        assert(escape_quotes(Seq::<char>::empty()) == Seq::<char>::empty());
        assert(escape_quotes(s.push(c)) =~= escape_quotes(s) + exp);
    } else {
        assert(s.push(c).drop_first() =~= s.drop_first().push(c));
        assert(s.push(c)[0] == s[0]);
        lemma_escape_quotes_push(s.drop_first(), c);
        let exp0 = if s[0] == '"' {
            seq!['"', '"']
        } else {
            seq![s[0]]
        };
        assert(escape_quotes(s.push(c)) == exp0 + escape_quotes(s.drop_first().push(c)));
        assert(escape_quotes(s.drop_first().push(c)) == escape_quotes(s.drop_first()) + exp);
        assert(escape_quotes(s) == exp0 + escape_quotes(s.drop_first()));
        assert(exp0 + (escape_quotes(s.drop_first()) + exp) =~= (exp0 + escape_quotes(
            s.drop_first(),
        )) + exp);
    }
}

proof fn lemma_parse_quoted_of_escaped(v: Seq<char>, rest: Seq<char>)
    requires
        rest.len() == 0 || rest[0] != '"',
    ensures
        parse_quoted(escape_quotes(v) + seq!['"'] + rest) == Some((v, rest)),
    decreases v.len(),
{
    let s = escape_quotes(v) + seq!['"'] + rest;
    if v.len() == 0 {
        assert(s =~= seq!['"'] + rest);
        assert(s[0] == '"');
        assert(s.len() >= 2 ==> s[1] == rest[0]);
        assert(s.drop_first() =~= rest);
    } else if v[0] == '"' {
        assert(v.drop_first().len() < v.len());
        assert(escape_quotes(v) =~= seq!['"', '"'] + escape_quotes(v.drop_first()));
        assert(s[0] == '"');
        assert(s[1] == '"');
        assert(s.len() >= 2);
        assert(s.skip(2) =~= escape_quotes(v.drop_first()) + seq!['"'] + rest);
        lemma_parse_quoted_of_escaped(v.drop_first(), rest);
        assert(seq!['"'] + v.drop_first() =~= v);
    } else {
        assert(escape_quotes(v) =~= seq![v[0]] + escape_quotes(v.drop_first()));
        assert(s[0] == v[0]);
        assert(s[0] != '"');
        assert(s.drop_first() =~= escape_quotes(v.drop_first()) + seq!['"'] + rest);
        lemma_parse_quoted_of_escaped(v.drop_first(), rest);
        assert(seq![v[0]] + v.drop_first() =~= v);
    }
}

/// A quoted field reads back as the value it was written from, whatever the
/// value holds, provided what follows does not begin with a quote.
pub proof fn lemma_parse_field_of_quoted(v: Seq<char>, rest: Seq<char>)
    requires
        rest.len() == 0 || rest[0] != '"',
    ensures
        parse_field(quote_field(v) + rest) == Some((v, rest)),
{
    let s = quote_field(v) + rest;
    assert(s[0] == '"');
    assert(s.drop_first() =~= escape_quotes(v) + seq!['"'] + rest);
    lemma_parse_quoted_of_escaped(v, rest);
}

pub proof fn lemma_quote_field_len(v: Seq<char>)
    ensures
        quote_field(v).len() >= 2,
        escape_quotes(v).len() >= v.len(),
    decreases v.len(),
{
    if v.len() > 0 {
        lemma_quote_field_len(v.drop_first());
    }
}

/// An encoded row reads back as its fields, with what follows untouched.
pub proof fn lemma_parse_row_of_encoded(fields: Seq<Seq<char>>, rest: Seq<char>)
    requires
        fields.len() >= 1,
    ensures
        parse_row(encode_row(fields) + rest) == Some((fields, rest)),
    decreases fields.len(),
{
    let s = encode_row(fields) + rest;
    if fields.len() == 1 {
        let tail = seq!['\n'] + rest;
        assert(s =~= quote_field(fields[0]) + tail);
        lemma_parse_field_of_quoted(fields[0], tail);
        assert(tail[0] == '\n');
        assert(tail.drop_first() =~= rest);
        assert(seq![fields[0]] =~= fields);
    } else {
        let tail = seq![','] + encode_row(fields.drop_first()) + rest;
        assert(s =~= quote_field(fields[0]) + tail);
        lemma_parse_field_of_quoted(fields[0], tail);
        assert(tail[0] == ',');
        lemma_quote_field_len(fields[0]);
        assert(tail.len() < s.len());
        assert(tail.drop_first() =~= encode_row(fields.drop_first()) + rest);
        lemma_parse_row_of_encoded(fields.drop_first(), rest);
        assert(seq![fields[0]] + fields.drop_first() =~= fields);
    }
}

pub proof fn lemma_encode_row_len(fields: Seq<Seq<char>>)
    requires
        fields.len() >= 1,
    ensures
        encode_row(fields).len() >= 3,
    decreases fields.len(),
{
    lemma_quote_field_len(fields[0]);
}

/// A whole encoded file reads back as exactly the rows it was written from.
pub proof fn lemma_parse_rows_of_encoded(rows: Seq<Seq<Seq<char>>>)
    requires
        forall|i: int| 0 <= i < rows.len() ==> (#[trigger] rows[i]).len() >= 1,
    ensures
        parse_rows(encode_rows(rows)) == Some(rows),
    decreases rows.len(),
{
    if rows.len() == 0 {
        assert(parse_rows(encode_rows(rows)) =~~= Some(Seq::<Seq<Seq<char>>>::empty()));
    } else {
        let s = encode_rows(rows);
        let rest = encode_rows(rows.drop_first());
        assert(s =~= encode_row(rows[0]) + rest);
        lemma_parse_row_of_encoded(rows[0], rest);
        lemma_encode_row_len(rows[0]);
        assert(rest.len() < s.len());
        lemma_parse_rows_of_encoded(rows.drop_first());
        assert(seq![rows[0]] + rows.drop_first() =~= rows);
    }
}

pub proof fn lemma_encode_rows_push(rows: Seq<Seq<Seq<char>>>, r: Seq<Seq<char>>)
    ensures
        encode_rows(rows.push(r)) == encode_rows(rows) + encode_row(r),
    decreases rows.len(),
{
    if rows.len() == 0 {
        assert(rows.push(r).drop_first() =~= Seq::<Seq<Seq<char>>>::empty());
        assert(rows.push(r)[0] == r);
        assert(encode_rows(Seq::<Seq<Seq<char>>>::empty()) == Seq::<char>::empty());
        assert(encode_rows(rows.push(r)) =~= encode_rows(rows) + encode_row(r));
    } else {
        assert(rows.push(r).drop_first() =~= rows.drop_first().push(r));
        assert(rows.push(r)[0] == rows[0]);
        lemma_encode_rows_push(rows.drop_first(), r);
        assert(encode_rows(rows.push(r)) == encode_row(rows[0]) + encode_rows(
            rows.drop_first().push(r),
        ));
        assert(encode_rows(rows) == encode_row(rows[0]) + encode_rows(rows.drop_first()));
        assert(encode_row(rows[0]) + (encode_rows(rows.drop_first()) + encode_row(r))
            =~= (encode_row(rows[0]) + encode_rows(rows.drop_first())) + encode_row(r));
    }
}

/// Appends one field of a row, quoted with quotes doubled.
pub fn push_quoted_field(out: &mut Vec<char>, field: &str)
    ensures
        final(out)@ == old(out)@ + quote_field(field@),
{
    let chars = crate::text::chars_of(field);
    out.push('"');
    let n = chars.len();
    for i in 0..n
        invariant
            n == chars@.len(),
            chars@ == field@,
            out@ == old(out)@ + seq!['"'] + escape_quotes(field@.take(i as int)),
    {
        let c = chars[i];
        proof {
            assert(field@.take(i + 1) =~= field@.take(i as int).push(field@[i as int]));
            lemma_escape_quotes_push(field@.take(i as int), field@[i as int]);
        }
        if c == '"' {
            out.push('"');
            out.push('"');
        } else {
            out.push(c);
        }
        assert(out@ =~= old(out)@ + seq!['"'] + escape_quotes(field@.take(i + 1)));
    }
    out.push('"');
    proof {
        assert(field@.take(n as int) =~= field@);
        assert(out@ =~= old(out)@ + quote_field(field@));
    }
}

/// Appends one whole row: each field quoted, commas between, newline after.
pub fn push_row(out: &mut Vec<char>, fields: &Vec<String>)
    requires
        fields@.len() >= 1,
    ensures
        final(out)@ == old(out)@ + encode_row(fields.deep_view()),
{
    let ghost fv = fields.deep_view();
    let n = fields.len();
    proof {
        assert(fv.len() == n);
        assert(forall|j: int| 0 <= j < n ==> fv[j] == fields@[j]@);
    }
    for i in 0..n
        invariant
            n == fields@.len(),
            n >= 1,
            fv == fields.deep_view(),
            fv.len() == n,
            forall|j: int| 0 <= j < n ==> fv[j] == fields@[j]@,
            out@ == old(out)@ + spec_row_prefix(fv, i as int),
    {
        if i > 0 {
            out.push(',');
        }
        push_quoted_field(out, fields[i].as_str());
        proof {
            lemma_row_prefix_step(fv, i as int);
            assert(out@ =~= old(out)@ + spec_row_prefix(fv, i + 1));
        }
    }
    out.push('\n');
    proof {
        lemma_row_prefix_full(fv);
        assert(out@ =~= old(out)@ + encode_row(fv));
    }
}

/// Reads a field body beginning at `start`, just after the opening quote;
/// on success returns the field value and the position after the closing
/// quote.
pub fn parse_quoted_exec(chars: &Vec<char>, start: usize) -> (r: Option<(Vec<char>, usize)>)
    requires
        start <= chars@.len(),
    ensures
        (match r {
            Some(p) => start < p.1 <= chars@.len() && parse_quoted(chars@.skip(start as int))
                == Some((p.0@, chars@.skip(p.1 as int))),
            None => parse_quoted(chars@.skip(start as int)) is None,
        }),
{
    let n = chars.len();
    let mut i = start;
    let mut out: Vec<char> = Vec::new();
    while i < n
        invariant
            start <= i <= n,
            n == chars@.len(),
            (match parse_quoted(chars@.skip(i as int)) {
                Some(p) => parse_quoted(chars@.skip(start as int)) == Some((out@ + p.0, p.1)),
                None => parse_quoted(chars@.skip(start as int)) is None,
            }),
        decreases n - i,
    {
        let ghost s = chars@.skip(i as int);
        let ghost out0 = out@;
        proof {
            assert(s.len() == n - i);
            assert(s[0] == chars@[i as int]);
            assert(s.drop_first() =~= chars@.skip(i + 1));
        }
        let c = chars[i];
        if c == '"' {
            if i + 1 < n && chars[i + 1] == '"' {
                proof {
                    assert(s.len() >= 2);
                    assert(s[1] == chars@[i + 1]);
                    assert(s.skip(2) =~= chars@.skip(i + 2));
                }
                out.push('"');
                i = i + 2;
                proof {
                    match parse_quoted(chars@.skip(i as int)) {
                        Some(q) => {
                            assert(parse_quoted(s) == Some((seq!['"'] + q.0, q.1)));
                            assert(out0 + (seq!['"'] + q.0) =~= out@ + q.0);
                        },
                        None => {
                            assert(parse_quoted(s) is None);
                        },
                    }
                }
            } else {
                proof {
                    assert(!(s.len() >= 2 && s[1] == '"'));
                    assert(parse_quoted(s) == Some((Seq::<char>::empty(), chars@.skip(i + 1))));
                    assert(out@ + Seq::<char>::empty() =~= out@);
                }
                let next = i + 1;
                return Some((out, next));
            }
        } else {
            out.push(c);
            i = i + 1;
            proof {
                match parse_quoted(chars@.skip(i as int)) {
                    Some(q) => {
                        assert(parse_quoted(s) == Some((seq![s[0]] + q.0, q.1)));
                        assert(out0 + (seq![s[0]] + q.0) =~= out@ + q.0);
                    },
                    None => {
                        assert(parse_quoted(s) is None);
                    },
                }
            }
        }
    }
    proof {
        assert(chars@.skip(i as int).len() == 0);
        assert(parse_quoted(chars@.skip(i as int)) is None);
    }
    None
}

/// Reads one row beginning at `start`; on success returns its fields and
/// the position after the row.
pub fn parse_row_exec(chars: &Vec<char>, start: usize) -> (r: Option<(Vec<Vec<char>>, usize)>)
    requires
        start <= chars@.len(),
    ensures
        (match r {
            Some(p) => start < p.1 <= chars@.len() && parse_row(chars@.skip(start as int)) == Some(
                (p.0.deep_view(), chars@.skip(p.1 as int)),
            ),
            None => parse_row(chars@.skip(start as int)) is None,
        }),
{
    let n = chars.len();
    let mut fields: Vec<Vec<char>> = Vec::new();
    let mut i = start;
    loop
        invariant
            start <= i <= n,
            n == chars@.len(),
            i > start || fields@.len() == 0,
            (match parse_row(chars@.skip(i as int)) {
                Some(p) => parse_row(chars@.skip(start as int)) == Some(
                    (fields.deep_view() + p.0, p.1),
                ),
                None => parse_row(chars@.skip(start as int)) is None,
            }),
        decreases n - i,
    {
        let ghost s = chars@.skip(i as int);
        let ghost fields0 = fields.deep_view();
        if i == n {
            proof {
                assert(s.len() == 0);
                assert(parse_field(s) is None);
                assert(parse_row(s) is None);
            }
            return None;
        }
        proof {
            assert(s[0] == chars@[i as int]);
            assert(s.drop_first() =~= chars@.skip(i + 1));
        }
        if chars[i] != '"' {
            proof {
                assert(parse_field(s) is None);
                assert(parse_row(s) is None);
            }
            return None;
        }
        match parse_quoted_exec(chars, i + 1) {
            None => {
                proof {
                    assert(parse_field(s) is None);
                    assert(parse_row(s) is None);
                }
                return None;
            },
            Some((v, next)) => {
                proof {
                    assert(parse_field(s) == Some((v@, chars@.skip(next as int))));
                }
                let ghost rest = chars@.skip(next as int);
                fields.push(v);
                proof {
                    assert(fields.deep_view() =~~= fields0.push(v@));
                }
                if next == n {
                    proof {
                        assert(rest.len() == 0);
                        assert(parse_row(s) == Some((seq![v@], rest)));
                        assert(fields0 + seq![v@] =~~= fields.deep_view());
                    }
                    return Some((fields, next));
                }
                let c = chars[next];
                proof {
                    assert(rest[0] == chars@[next as int]);
                    assert(rest.drop_first() =~= chars@.skip(next + 1));
                    assert(rest.len() < s.len());
                }
                if c == ',' {
                    i = next + 1;
                    proof {
                        match parse_row(chars@.skip(i as int)) {
                            Some(q) => {
                                assert(parse_row(s) == Some((seq![v@] + q.0, q.1)));
                                assert(fields0 + (seq![v@] + q.0) =~~= fields.deep_view() + q.0);
                            },
                            None => {
                                assert(parse_row(s) is None);
                            },
                        }
                    }
                } else if c == '\n' {
                    proof {
                        assert(parse_row(s) == Some((seq![v@], rest.drop_first())));
                        assert(fields0 + seq![v@] =~~= fields.deep_view());
                    }
                    let next2 = next + 1;
                    return Some((fields, next2));
                } else {
                    proof {
                        assert(parse_row(s) is None);
                    }
                    return None;
                }
            },
        }
    }
}

/// Reads a whole file as rows; `None` on any malformed text.
pub fn parse_rows_exec(chars: &Vec<char>) -> (r: Option<Vec<Vec<Vec<char>>>>)
    ensures
        (match r {
            Some(rows) => parse_rows(chars@) == Some(rows.deep_view()),
            None => parse_rows(chars@) is None,
        }),
{
    let n = chars.len();
    let mut rows: Vec<Vec<Vec<char>>> = Vec::new();
    let mut i: usize = 0;
    proof {
        assert(chars@.skip(0) =~= chars@);
    }
    while i < n
        invariant
            i <= n,
            n == chars@.len(),
            (match parse_rows(chars@.skip(i as int)) {
                Some(rs) => parse_rows(chars@) == Some(rows.deep_view() + rs),
                None => parse_rows(chars@) is None,
            }),
        decreases n - i,
    {
        let ghost s = chars@.skip(i as int);
        let ghost rows0 = rows.deep_view();
        assert(s.len() > 0);
        match parse_row_exec(chars, i) {
            None => {
                proof {
                    assert(parse_rows(s) is None);
                }
                return None;
            },
            Some((fields, next)) => {
                proof {
                    assert(parse_row(s) == Some((fields.deep_view(), chars@.skip(next as int))));
                    assert(chars@.skip(next as int).len() < s.len());
                }
                let ghost fv = fields.deep_view();
                rows.push(fields);
                proof {
                    assert(rows.deep_view() =~~= rows0.push(fv));
                }
                i = next;
                proof {
                    match parse_rows(chars@.skip(i as int)) {
                        Some(rs2) => {
                            assert(parse_rows(s) == Some(seq![fv] + rs2));
                            assert(rows0 + (seq![fv] + rs2) =~~= rows.deep_view() + rs2);
                        },
                        None => {
                            assert(parse_rows(s) is None);
                        },
                    }
                }
            },
        }
    }
    proof {
        assert(chars@.skip(i as int).len() == 0);
        assert(parse_rows(chars@.skip(i as int)) == Some(Seq::<Seq<Seq<char>>>::empty()));
        assert(rows.deep_view() + Seq::<Seq<Seq<char>>>::empty() =~~= rows.deep_view());
    }
    Some(rows)
}

/// The first `i` fields of a row as written, without the trailing newline.
pub open spec fn spec_row_prefix(fields: Seq<Seq<char>>, i: int) -> Seq<char>
    decreases i,
{
    if i <= 0 {
        Seq::empty()
    } else if i == 1 {
        quote_field(fields[0])
    } else {
        spec_row_prefix(fields, i - 1) + seq![','] + quote_field(fields[i - 1])
    }
}

proof fn lemma_row_prefix_step(fields: Seq<Seq<char>>, i: int)
    requires
        0 <= i,
    ensures
        spec_row_prefix(fields, i + 1) == if i == 0 {
            quote_field(fields[0])
        } else {
            spec_row_prefix(fields, i) + seq![','] + quote_field(fields[i])
        },
{
}

proof fn lemma_row_prefix_full(fields: Seq<Seq<char>>)
    requires
        fields.len() >= 1,
    ensures
        encode_row(fields) == spec_row_prefix(fields, fields.len() as int) + seq!['\n'],
    decreases fields.len(),
{
    lemma_fields_prefix(fields, fields.len() as int);
    assert(encode_row(fields) =~= spec_row_prefix(fields, fields.len() as int) + seq!['\n']);
}

proof fn lemma_fields_prefix(fields: Seq<Seq<char>>, n: int)
    requires
        1 <= n == fields.len(),
    ensures
        encode_fields(fields) == spec_row_prefix(fields, n),
    decreases n,
{
    if n == 1 {
    } else {
        let rest = fields.drop_first();
        lemma_fields_prefix(rest, n - 1);
        assert(lemma_prefix_shift_holds(fields, n - 1)) by {
            lemma_prefix_shift(fields, n - 1);
        }
        assert(encode_fields(fields) =~= spec_row_prefix(fields, n));
    }
}

spec fn lemma_prefix_shift_holds(fields: Seq<Seq<char>>, i: int) -> bool {
    quote_field(fields[0]) + seq![','] + spec_row_prefix(fields.drop_first(), i) == spec_row_prefix(
        fields,
        i + 1,
    )
}

proof fn lemma_prefix_shift(fields: Seq<Seq<char>>, i: int)
    requires
        1 <= i < fields.len(),
    ensures
        lemma_prefix_shift_holds(fields, i),
    decreases i,
{
    if i == 1 {
        assert(fields.drop_first()[0] == fields[1]);
        assert(spec_row_prefix(fields, 1) == quote_field(fields[0]));
        assert(spec_row_prefix(fields.drop_first(), 1) == quote_field(fields.drop_first()[0]));
        assert(spec_row_prefix(fields, 2) == spec_row_prefix(fields, 1) + seq![','] + quote_field(
            fields[1],
        ));
        assert(quote_field(fields[0]) + seq![','] + spec_row_prefix(fields.drop_first(), 1)
            =~= spec_row_prefix(fields, 2));
    } else {
        lemma_prefix_shift(fields, i - 1);
        assert(fields.drop_first()[i - 1] == fields[i]);
        assert(quote_field(fields[0]) + seq![','] + spec_row_prefix(fields.drop_first(), i)
            =~= spec_row_prefix(fields, i + 1));
    }
}

} // verus!
