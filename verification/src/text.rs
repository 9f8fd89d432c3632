//! Character-level text helpers: converting between strings and character
//! vectors, joining and splitting on a separator, and decimal numerals.
//!
//! Everything here is stated over `Seq<char>`, the view of `String` and
//! `&str`, so the record format and its round-trip proof can be exact.

use vstd::prelude::*;

verus! {

/// Relies on `str::chars` with `Iterator::collect`: the result holds the
/// characters of `s`, in order.
#[verifier::external_body]
pub(crate) fn chars_of(s: &str) -> (r: Vec<char>)
    ensures
        r@ == s@,
{
    s.chars().collect()
}

/// Relies on `String`'s `FromIterator<char>` impl (via `Iterator::collect`):
/// collecting characters yields the string of exactly those characters.
#[verifier::external_body]
pub(crate) fn string_of(chars: &Vec<char>) -> (r: String)
    ensures
        r@ == chars@,
{
    chars.iter().collect()
}

/// Relies on `str`'s `PartialEq` impl: string slices are equal exactly when
/// they hold the same characters.
#[verifier::external_body]
pub(crate) fn str_eq(a: &str, b: &str) -> (r: bool)
    ensures
        r == (a@ == b@),
{
    a == b
}

/// An owned copy of a string slice.
pub fn str_to_string(s: &str) -> (r: String)
    ensures
        r@ == s@,
{
    let chars = chars_of(s);
    string_of(&chars)
}

/// The parts joined with `sep` between consecutive parts.
pub open spec fn join_with(parts: Seq<Seq<char>>, sep: char) -> Seq<char>
    decreases parts.len(),
{
    if parts.len() == 0 {
        Seq::empty()
    } else if parts.len() == 1 {
        parts[0]
    } else {
        parts[0] + seq![sep] + join_with(parts.drop_first(), sep)
    }
}

/// The parts of `s` delimited by `sep`; always at least one part, and an
/// empty `s` is the single empty part.
pub open spec fn split_with(s: Seq<char>, sep: char) -> Seq<Seq<char>>
    decreases s.len(),
{
    if s.len() == 0 {
        seq![Seq::<char>::empty()]
    } else {
        let rest = split_with(s.drop_first(), sep);
        if s[0] == sep {
            seq![Seq::<char>::empty()] + rest
        } else {
            seq![seq![s[0]] + rest[0]] + rest.drop_first()
        }
    }
}

pub proof fn lemma_split_with_len(s: Seq<char>, sep: char)
    ensures
        split_with(s, sep).len() >= 1,
    decreases s.len(),
{
    if s.len() > 0 {
        lemma_split_with_len(s.drop_first(), sep);
    }
}

/// Splitting a separator-free sequence gives that sequence as the one part.
pub proof fn lemma_split_no_sep(s: Seq<char>, sep: char)
    requires
        !s.contains(sep),
    ensures
        split_with(s, sep) == seq![s],
    decreases s.len(),
{
    if s.len() == 0 {
        assert(split_with(s, sep) =~~= seq![s]);
    } else {
        assert(s[0] != sep);
        assert(!s.drop_first().contains(sep)) by {
            if s.drop_first().contains(sep) {
                let j = choose|j: int| 0 <= j < s.drop_first().len() && s.drop_first()[j] == sep;
                assert(s[j + 1] == sep);
            }
        }
        lemma_split_no_sep(s.drop_first(), sep);
        assert(split_with(s, sep) =~~= seq![s]);
    }
}

/// Splitting `head + [sep] + tail` yields `head` followed by the parts of
/// `tail`, when `head` is separator-free.
pub proof fn lemma_split_sep_concat(head: Seq<char>, tail: Seq<char>, sep: char)
    requires
        !head.contains(sep),
    ensures
        split_with(head + seq![sep] + tail, sep) == seq![head] + split_with(tail, sep),
    decreases head.len(),
{
    let s = head + seq![sep] + tail;
    if head.len() == 0 {
        assert(s[0] == sep);
        assert(s.drop_first() =~= tail);
        assert(split_with(s, sep) =~~= seq![head] + split_with(tail, sep));
    } else {
        assert(s[0] == head[0]);
        assert(s[0] != sep);
        assert(!head.drop_first().contains(sep)) by {
            if head.drop_first().contains(sep) {
                let j = choose|j: int|
                    0 <= j < head.drop_first().len() && head.drop_first()[j] == sep;
                assert(head[j + 1] == sep);
            }
        }
        assert(s.drop_first() =~= head.drop_first() + seq![sep] + tail);
        lemma_split_sep_concat(head.drop_first(), tail, sep);
        lemma_split_with_len(tail, sep);
        assert(split_with(s, sep) =~~= seq![head] + split_with(tail, sep));
    }
}

/// Joining then splitting returns the original parts, provided no part
/// contains the separator and the parts are not the single empty part.
pub proof fn lemma_split_join(parts: Seq<Seq<char>>, sep: char)
    requires
        parts.len() >= 1,
        forall|i: int| 0 <= i < parts.len() ==> !(#[trigger] parts[i]).contains(sep),
    ensures
        split_with(join_with(parts, sep), sep) == parts,
    decreases parts.len(),
{
    if parts.len() == 1 {
        lemma_split_no_sep(parts[0], sep);
        assert(split_with(join_with(parts, sep), sep) =~~= parts);
    } else {
        lemma_split_sep_concat(parts[0], join_with(parts.drop_first(), sep), sep);
        lemma_split_join(parts.drop_first(), sep);
        assert(split_with(join_with(parts, sep), sep) =~~= parts);
    }
}

/// Appending a part to a non-empty part list appends `sep` and the part to
/// the joined text.
pub proof fn lemma_join_push(parts: Seq<Seq<char>>, p: Seq<char>, sep: char)
    ensures
        join_with(parts.push(p), sep) == if parts.len() == 0 {
            p
        } else {
            join_with(parts, sep) + seq![sep] + p
        },
    decreases parts.len(),
{
    if parts.len() == 0 {
        assert(join_with(parts.push(p), sep) =~= p);
    } else if parts.len() == 1 {
        assert(parts.push(p).drop_first() =~= seq![p]);
        assert(parts.push(p)[0] == parts[0]);
        assert(join_with(seq![p], sep) == p);
        assert(join_with(parts.push(p), sep) =~= parts[0] + seq![sep] + p);
    } else {
        assert(parts.push(p).drop_first() =~= parts.drop_first().push(p));
        lemma_join_push(parts.drop_first(), p, sep);
        assert(join_with(parts.push(p), sep) =~= join_with(parts, sep) + seq![sep] + p);
    }
}

/// Joins the given lines with `sep` between consecutive lines.
pub fn join_with_exec(lines: &[String], sep: char) -> (r: String)
    ensures
        r@ == join_with(lines.deep_view(), sep),
{
    let ghost parts = lines.deep_view();
    let mut out: Vec<char> = Vec::new();
    let n = lines.len();
    assert(parts.len() == n) by {
        assert(forall|i: int| 0 <= i < n ==> parts[i] == lines@[i]@);
    }
    for i in 0..n
        invariant
            n == lines@.len(),
            parts == lines.deep_view(),
            parts.len() == n,
            forall|j: int| 0 <= j < n ==> parts[j] == lines@[j]@,
            out@ == join_with(parts.take(i as int), sep),
    {
        if i > 0 {
            out.push(sep);
        }
        let mut line_chars = chars_of(lines[i].as_str());
        out.append(&mut line_chars);
        proof {
            assert(parts.take(i + 1) =~= parts.take(i as int).push(parts[i as int]));
            lemma_join_push(parts.take(i as int), parts[i as int], sep);
        }
    }
    assert(parts.take(n as int) =~= parts);
    string_of(&out)
}

/// The lines of a document joined with a newline between consecutive lines.
pub open spec fn join_lines(lines: Seq<Seq<char>>) -> Seq<char> {
    join_with(lines, '\n')
}

/// Joins lines with newlines, as the saved content of a chunk is formed.
pub fn join_lines_exec(lines: &[String]) -> (r: String)
    ensures
        r@ == join_lines(lines.deep_view()),
{
    join_with_exec(lines, '\n')
}

/// Splits on `sep`, the inverse of joining when no part holds `sep`.
pub fn split_with_exec(s: &str, sep: char) -> (r: Vec<String>)
    ensures
        r.deep_view() == split_with(s@, sep),
{
    let chars = chars_of(s);
    let ghost full = s@;
    let n = chars.len();
    let mut parts: Vec<String> = Vec::new();
    let mut cur: Vec<char> = Vec::new();
    proof {
        assert(full.skip(0) =~= full);
        lemma_split_with_len(full, sep);
        assert(parts.deep_view() =~= Seq::<Seq<char>>::empty());
        assert(cur@ + split_with(full, sep)[0] =~= split_with(full, sep)[0]);
        assert(split_with(full, sep) =~~= parts.deep_view() + seq![
            cur@ + split_with(full, sep)[0],
        ] + split_with(full, sep).drop_first());
    }
    for i in 0..n
        invariant
            n == chars@.len(),
            chars@ == full,
            split_with(full, sep) == parts.deep_view() + seq![
                cur@ + split_with(full.skip(i as int), sep)[0],
            ] + split_with(full.skip(i as int), sep).drop_first(),
            split_with(full.skip(i as int), sep).len() >= 1,
    {
        let ghost suffix = full.skip(i as int);
        let ghost suffix2 = full.skip(i + 1);
        proof {
            assert(suffix.len() > 0);
            assert(suffix[0] == full[i as int]);
            assert(suffix.drop_first() =~= suffix2);
            lemma_split_with_len(suffix2, sep);
        }
        let ghost cur0 = cur@;
        let c = chars[i];
        if c == sep {
            let done = string_of(&cur);
            parts.push(done);
            cur = Vec::new();
            proof {
                assert(split_with(suffix, sep) =~= seq![Seq::<char>::empty()] + split_with(
                    suffix2,
                    sep,
                ));
                assert(parts.deep_view() =~= parts.deep_view().drop_last().push(
                    parts@.last()@,
                ));
                assert(split_with(full, sep) =~= parts.deep_view() + seq![
                    cur@ + split_with(suffix2, sep)[0],
                ] + split_with(suffix2, sep).drop_first());
            }
        } else {
            cur.push(c);
            proof {
                assert(split_with(suffix, sep) =~= seq![seq![suffix[0]] + split_with(
                    suffix2,
                    sep,
                )[0]] + split_with(suffix2, sep).drop_first());
                assert(cur@ + split_with(suffix2, sep)[0] =~= cur0 + split_with(suffix, sep)[0])
                    by {
                    assert(cur@ == cur0.push(c));
                }
                assert(split_with(full, sep) =~= parts.deep_view() + seq![
                    cur@ + split_with(suffix2, sep)[0],
                ] + split_with(suffix2, sep).drop_first());
            }
        }
    }
    let done = string_of(&cur);
    parts.push(done);
    proof {
        assert(full.skip(n as int) =~= Seq::<char>::empty());
        assert(split_with(Seq::<char>::empty(), sep) =~= seq![Seq::<char>::empty()]);
        assert(parts.deep_view() =~= split_with(full, sep));
    }
    parts
}

/// The character for the decimal digit `d`.
pub open spec fn digit_char(d: int) -> char {
    if d == 0 {
        '0'
    } else if d == 1 {
        '1'
    } else if d == 2 {
        '2'
    } else if d == 3 {
        '3'
    } else if d == 4 {
        '4'
    } else if d == 5 {
        '5'
    } else if d == 6 {
        '6'
    } else if d == 7 {
        '7'
    } else if d == 8 {
        '8'
    } else {
        '9'
    }
}

/// The usual decimal numeral for `n`: no sign, no leading zero except for
/// `0` itself.
pub open spec fn dec_digits(n: nat) -> Seq<char>
    decreases n,
{
    if n < 10 {
        seq![digit_char(n as int)]
    } else {
        dec_digits(n / 10) + seq![digit_char((n % 10) as int)]
    }
}

pub open spec fn is_digit(c: char) -> bool {
    '0' <= c && c <= '9'
}

pub open spec fn digit_val(c: char) -> int {
    c as int - '0' as int
}

pub open spec fn all_digits(s: Seq<char>) -> bool {
    forall|i: int| 0 <= i < s.len() ==> is_digit(#[trigger] s[i])
}

/// The value of a sequence of decimal digits, most significant first.
pub open spec fn dec_val(s: Seq<char>) -> int
    decreases s.len(),
{
    if s.len() == 0 {
        0
    } else {
        dec_val(s.drop_last()) * 10 + digit_val(s.last())
    }
}

pub proof fn lemma_dec_val_nonneg(s: Seq<char>)
    requires
        all_digits(s),
    ensures
        dec_val(s) >= 0,
    decreases s.len(),
{
    if s.len() > 0 {
        assert(all_digits(s.drop_last())) by {
            assert(forall|i: int| 0 <= i < s.len() - 1 ==> s.drop_last()[i] == s[i]);
        }
        lemma_dec_val_nonneg(s.drop_last());
    }
}

/// A digit prefix is worth no more than the whole numeral.
pub proof fn lemma_dec_val_prefix_le(s: Seq<char>, i: int)
    requires
        all_digits(s),
        0 <= i <= s.len(),
    ensures
        dec_val(s.take(i)) <= dec_val(s),
    decreases s.len() - i,
{
    if i < s.len() {
        assert(s.take(i + 1).drop_last() =~= s.take(i));
        assert(s.take(i + 1).last() == s[i]);
        assert(all_digits(s.take(i))) by {
            assert(forall|j: int| 0 <= j < i ==> s.take(i)[j] == s[j]);
        }
        lemma_dec_val_nonneg(s.take(i));
        assert(dec_val(s.take(i)) <= dec_val(s.take(i + 1))) by {
            assert(dec_val(s.take(i + 1)) == dec_val(s.take(i)) * 10 + digit_val(s[i]));
            assert(digit_val(s[i]) >= 0);
            assert(dec_val(s.take(i)) * 10 >= dec_val(s.take(i))) by (nonlinear_arith)
                requires
                    dec_val(s.take(i)) >= 0,
            ;
        }
        lemma_dec_val_prefix_le(s, i + 1);
        assert(s.take(s.len() as int) =~= s);
    } else {
        assert(s.take(i) =~= s);
    }
}

/// Reading back the decimal numeral of `n` yields `n`.
pub proof fn lemma_dec_round_trip(n: nat)
    ensures
        all_digits(dec_digits(n)),
        dec_digits(n).len() >= 1,
        dec_val(dec_digits(n)) == n,
    decreases n,
{
    if n < 10 {
        let s = dec_digits(n);
        assert(s =~= seq![digit_char(n as int)]);
        assert(s.drop_last() =~= Seq::<char>::empty());
        assert(s.last() == digit_char(n as int));
        assert(dec_val(Seq::<char>::empty()) == 0);
        assert(dec_val(s) == digit_val(digit_char(n as int)));
    } else {
        lemma_dec_round_trip(n / 10);
        let a = dec_digits(n / 10);
        let c = digit_char((n % 10) as int);
        let s = dec_digits(n);
        assert(s == a + seq![c]);
        assert(s.drop_last() =~= a);
        assert(s.last() == c);
        assert(dec_val(s) == dec_val(a) * 10 + digit_val(c));
        assert(digit_val(c) == n % 10);
        assert((n / 10) * 10 + n % 10 == n) by {
            vstd::arithmetic::div_mod::lemma_fundamental_div_mod(n as int, 10);
        }
        assert(all_digits(s)) by {
            assert(forall|i: int| 0 <= i < a.len() ==> s[i] == a[i]);
            assert(s[s.len() - 1] == c);
        }
    }
}

fn digit_char_exec(d: u64) -> (c: char)
    requires
        d < 10,
    ensures
        c == digit_char(d as int),
{
    if d == 0 {
        '0'
    } else if d == 1 {
        '1'
    } else if d == 2 {
        '2'
    } else if d == 3 {
        '3'
    } else if d == 4 {
        '4'
    } else if d == 5 {
        '5'
    } else if d == 6 {
        '6'
    } else if d == 7 {
        '7'
    } else if d == 8 {
        '8'
    } else {
        '9'
    }
}

/// Appends the decimal numeral of `n` to `out`.
pub fn push_dec_digits(n: u64, out: &mut Vec<char>)
    ensures
        final(out)@ == old(out)@ + dec_digits(n as nat),
    decreases n,
{
    if n < 10 {
        out.push(digit_char_exec(n));
    } else {
        push_dec_digits(n / 10, out);
        out.push(digit_char_exec(n % 10));
        assert(final(out)@ =~= old(out)@ + dec_digits(n as nat));
    }
}

/// The decimal numeral of `n` as a string.
pub fn dec_string(n: u64) -> (r: String)
    ensures
        r@ == dec_digits(n as nat),
{
    let mut out: Vec<char> = Vec::new();
    push_dec_digits(n, &mut out);
    assert(out@ =~= dec_digits(n as nat));
    string_of(&out)
}

/// Reads a decimal numeral: `Some` exactly on non-empty all-digit sequences
/// whose value fits in a `u64`.
pub fn parse_dec(s: &Vec<char>) -> (r: Option<u64>)
    ensures
        r is Some <==> s@.len() > 0 && all_digits(s@) && dec_val(s@) <= u64::MAX,
        r is Some ==> r->0 == dec_val(s@),
{
    let n = s.len();
    if n == 0 {
        return None;
    }
    let mut acc: u64 = 0;
    for i in 0..n
        invariant
            n == s@.len(),
            all_digits(s@.take(i as int)),
            acc == dec_val(s@.take(i as int)),
    {
        let c = s[i];
        if c < '0' || c > '9' {
            assert(!is_digit(s@[i as int]));
            return None;
        }
        let d: u64 = (c as u32 as u64) - ('0' as u32 as u64);
        assert(d == digit_val(s@[i as int]));
        assert(d < 10);
        if acc > (u64::MAX - d) / 10 {
            proof {
                assert(s@.take(i + 1).drop_last() =~= s@.take(i as int));
                assert(s@.take(i + 1).last() == s@[i as int]);
                assert(dec_val(s@.take(i + 1)) == acc * 10 + d);
                assert(acc * 10 + d > u64::MAX) by (nonlinear_arith)
                    requires
                        acc > (u64::MAX - d) / 10,
                        d < 10,
                        acc >= 0,
                ;
                if all_digits(s@) {
                    assert(all_digits(s@.take(i + 1)));
                    lemma_dec_val_prefix_le(s@, i + 1);
                }
            }
            return None;
        }
        proof {
            assert(acc * 10 + d <= u64::MAX) by (nonlinear_arith)
                requires
                    acc <= (u64::MAX - d) / 10,
                    d < 10,
                    acc >= 0,
            ;
        }
        acc = acc * 10 + d;
        proof {
            assert(s@.take(i + 1).drop_last() =~= s@.take(i as int));
            assert(s@.take(i + 1).last() == s@[i as int]);
        }
    }
    assert(s@.take(n as int) =~= s@);
    Some(acc)
}

} // verus!
