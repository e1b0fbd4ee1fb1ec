//! Framing of the line-delimited event log.
//!
//! The log holds one JSON record per line. A recording that crashed may end
//! in a torn or garbled line, so reading must salvage what it can: blank
//! lines are skipped here, and each remaining line is handed to the record
//! parser on its own, so that a corrupt line costs only itself.

use vstd::prelude::*;

verus! {

/// Unicode `White_Space` characters (what `char::is_whitespace` accepts).
pub open spec fn is_whitespace(c: char) -> bool {
    let u = c as u32;
    ||| 0x09 <= u <= 0x0D
    ||| u == 0x20
    ||| u == 0x85
    ||| u == 0xA0
    ||| u == 0x1680
    ||| 0x2000 <= u <= 0x200A
    ||| u == 0x2028
    ||| u == 0x2029
    ||| u == 0x202F
    ||| u == 0x205F
    ||| u == 0x3000
}

/// The lines of `s` from position `i` on, where the line under way began at
/// `start`: lines end at `'\n'`, a `'\r'` just before the `'\n'` is not part
/// of the line, and text after the last `'\n'` is a final line if non-empty.
/// Each line is given as the half-open range of its characters.
pub open spec fn lines_from(s: Seq<char>, start: int, i: int) -> Seq<(int, int)>
    decreases s.len() - i,
{
    if i >= s.len() {
        if start < s.len() { seq![(start, s.len() as int)] } else { Seq::empty() }
    } else if s[i] == '\n' {
        let end = if i > start && s[i - 1] == '\r' { i - 1 } else { i };
        seq![(start, end)] + lines_from(s, i + 1, i + 1)
    } else {
        lines_from(s, start, i + 1)
    }
}

/// The lines of `s`.
pub open spec fn lines(s: Seq<char>) -> Seq<(int, int)> {
    lines_from(s, 0, 0)
}

/// The range holds a character that is not whitespace.
pub open spec fn has_content(s: Seq<char>, span: (int, int)) -> bool {
    exists|k: int| span.0 <= k < span.1 && !is_whitespace(#[trigger] s[k])
}

pub open spec fn has_content_fn(s: Seq<char>) -> spec_fn((int, int)) -> bool {
    |span: (int, int)| has_content(s, span)
}

/// The lines of `s` that are not blank, in order.
pub open spec fn record_lines(s: Seq<char>) -> Seq<(int, int)> {
    lines(s).filter(has_content_fn(s))
}

/// The spans moved `n` characters to the right.
pub open spec fn shift_spans(v: Seq<(int, int)>, n: int) -> Seq<(int, int)> {
    v.map_values(|sp: (int, int)| (sp.0 + n, sp.1 + n))
}

proof fn lemma_shift_push(v: Seq<(int, int)>, x: (int, int), n: int)
    ensures
        shift_spans(v.push(x), n) == shift_spans(v, n).push((x.0 + n, x.1 + n)),
{
    assert(shift_spans(v.push(x), n) =~= shift_spans(v, n).push((x.0 + n, x.1 + n)));
}

proof fn lemma_shift_add(v: Seq<(int, int)>, w: Seq<(int, int)>, n: int)
    ensures
        shift_spans(v + w, n) == shift_spans(v, n) + shift_spans(w, n),
{
    assert(shift_spans(v + w, n) =~= shift_spans(v, n) + shift_spans(w, n));
}

/// Every line found from `i` on, with the line under way begun at `start`,
/// lies within `[start, s.len()]`.
proof fn lemma_lines_within(s: Seq<char>, start: int, i: int)
    requires
        0 <= start <= i <= s.len(),
    ensures
        forall|j: int| 0 <= j < lines_from(s, start, i).len() ==> start <= (#[trigger] lines_from(s, start, i)[j]).0
            <= lines_from(s, start, i)[j].1 <= s.len(),
    decreases s.len() - i,
{
    if i < s.len() {
        if s[i] == '\n' {
            lemma_lines_within(s, i + 1, i + 1);
            let end = if i > start && s[i - 1] == '\r' { i - 1 } else { i };
            let rest = lines_from(s, i + 1, i + 1);
            let all = lines_from(s, start, i);
            assert(all == seq![(start, end)] + rest);
            assert forall|j: int| 0 <= j < all.len() implies start <= (#[trigger] all[j]).0 <= all[j].1 <= s.len() by {
                if j > 0 {
                    assert(all[j] == rest[j - 1]);
                }
            }
        } else {
            lemma_lines_within(s, start, i + 1);
            assert(lines_from(s, start, i) == lines_from(s, start, i + 1));
        }
    } else {
        let all = lines_from(s, start, i);
        if start < s.len() {
            assert(all == seq![(start, s.len() as int)]);
        } else {
            assert(all.len() == 0);
        }
    }
}

/// The lines of `t` seen inside `s + t`, where `s` ends with a line break.
proof fn lemma_lines_of_tail(s: Seq<char>, t: Seq<char>, a: int, b: int)
    requires
        0 <= a <= b <= t.len(),
    ensures
        lines_from(s + t, s.len() + a, s.len() + b) == shift_spans(lines_from(t, a, b), s.len() as int),
    decreases t.len() - b,
{
    let u = s + t;
    let n = s.len() as int;
    if b < t.len() {
        assert(u[n + b] == t[b]);
        if t[b] == '\n' {
            if b > a {
                assert(u[n + b - 1] == t[b - 1]);
            }
            lemma_lines_of_tail(s, t, b + 1, b + 1);
            let end = if b > a && t[b - 1] == '\r' { b - 1 } else { b };
            lemma_shift_add(seq![(a, end)], lines_from(t, b + 1, b + 1), n);
            assert(shift_spans(seq![(a, end)], n) =~= seq![(n + a, n + end)]);
        } else {
            lemma_lines_of_tail(s, t, a, b + 1);
        }
    } else {
        if a < t.len() {
            assert(shift_spans(seq![(a, t.len() as int)], n) =~= seq![(n + a, u.len() as int)]);
        } else {
            assert(shift_spans(Seq::<(int, int)>::empty(), n) =~= Seq::<(int, int)>::empty());
        }
    }
}

/// Inside `s + t`, the lines found while scanning `s` are the lines of `s`,
/// and once `s` is done the lines of `t` follow, as long as `s` ends with a
/// line break.
proof fn lemma_lines_of_concat(s: Seq<char>, t: Seq<char>, start: int, i: int)
    requires
        0 <= start <= i <= s.len(),
        s.len() == 0 || s.last() == '\n',
        i == s.len() ==> start == s.len(),
    ensures
        lines_from(s + t, start, i) == lines_from(s, start, i) + shift_spans(lines(t), s.len() as int),
    decreases s.len() - i,
{
    let u = s + t;
    let n = s.len() as int;
    if i == n {
        lemma_lines_of_tail(s, t, 0, 0);
        assert(lines_from(s, start, i) =~= Seq::<(int, int)>::empty());
        assert(lines_from(u, start, i) =~= Seq::<(int, int)>::empty() + shift_spans(lines(t), n));
    } else {
        assert(u[i] == s[i]);
        if s[i] == '\n' {
            if i > start {
                assert(u[i - 1] == s[i - 1]);
            }
            lemma_lines_of_concat(s, t, i + 1, i + 1);
            let end = if i > start && s[i - 1] == '\r' { i - 1 } else { i };
            assert(seq![(start, end)] + (lines_from(s, i + 1, i + 1) + shift_spans(lines(t), n))
                =~= (seq![(start, end)] + lines_from(s, i + 1, i + 1)) + shift_spans(lines(t), n));
        } else {
            assert(i + 1 < n || s.last() == s[i]);
            lemma_lines_of_concat(s, t, start, i + 1);
        }
    }
}

/// Filtering by two predicates that agree on every element gives one result.
proof fn lemma_filter_agreeing(v: Seq<(int, int)>, p: spec_fn((int, int)) -> bool, q: spec_fn((int, int)) -> bool)
    requires
        forall|j: int| 0 <= j < v.len() ==> p(#[trigger] v[j]) == q(v[j]),
    ensures
        v.filter(p) == v.filter(q),
    decreases v.len(),
{
    if v.len() > 0 {
        let w = v.drop_last();
        assert(v == w.push(v.last()));
        assert forall|j: int| 0 <= j < w.len() implies p(#[trigger] w[j]) == q(w[j]) by {
            assert(w[j] == v[j]);
        }
        lemma_filter_agreeing(w, p, q);
        w.lemma_filter_push(v.last(), p);
        w.lemma_filter_push(v.last(), q);
    } else {
        reveal(Seq::filter);
    }
}

/// Records of `t` seen inside `s + t` are the records of `t`, moved over.
proof fn lemma_filter_shifted(s: Seq<char>, t: Seq<char>, v: Seq<(int, int)>)
    requires
        forall|j: int| 0 <= j < v.len() ==> 0 <= (#[trigger] v[j]).0 <= v[j].1 <= t.len(),
    ensures
        shift_spans(v, s.len() as int).filter(has_content_fn(s + t)) == shift_spans(v.filter(has_content_fn(t)), s.len() as int),
    decreases v.len(),
{
    let n = s.len() as int;
    let u = s + t;
    if v.len() > 0 {
        let w = v.drop_last();
        let x = v.last();
        assert(v == w.push(x));
        assert forall|j: int| 0 <= j < w.len() implies 0 <= (#[trigger] w[j]).0 <= w[j].1 <= t.len() by {
            assert(w[j] == v[j]);
        }
        lemma_filter_shifted(s, t, w);
        lemma_shift_push(w, x, n);
        shift_spans(w, n).lemma_filter_push((x.0 + n, x.1 + n), has_content_fn(u));
        w.lemma_filter_push(x, has_content_fn(t));
        assert(has_content(u, (x.0 + n, x.1 + n)) == has_content(t, x)) by {
            if has_content(u, (x.0 + n, x.1 + n)) {
                let k = choose|k: int| x.0 + n <= k < x.1 + n && !is_whitespace(#[trigger] u[k]);
                assert(u[k] == t[k - n]);
                assert(x.0 <= k - n < x.1);
            }
            if has_content(t, x) {
                let k = choose|k: int| x.0 <= k < x.1 && !is_whitespace(#[trigger] t[k]);
                assert(u[k + n] == t[k]);
            }
        }
        if has_content(t, x) {
            lemma_shift_push(w.filter(has_content_fn(t)), x, n);
        }
    } else {
        reveal(Seq::filter);
        assert(shift_spans(v, n) =~= Seq::<(int, int)>::empty());
    }
}

/// A torn or garbled tail cannot disturb the records before it: when `s` is
/// empty or ends with a line break, the records of `s + t` are the records of
/// `s` followed by the records of `t` (moved right by the length of `s`).
pub proof fn lemma_complete_lines_survive_any_tail(s: Seq<char>, t: Seq<char>)
    requires
        s.len() == 0 || s.last() == '\n',
    ensures
        record_lines(s + t) == record_lines(s) + shift_spans(record_lines(t), s.len() as int),
{
    let u = s + t;
    let n = s.len() as int;
    lemma_lines_of_concat(s, t, 0, 0);
    Seq::filter_distributes_over_add(lines(s), shift_spans(lines(t), n), has_content_fn(u));
    lemma_lines_within(s, 0, 0);
    assert forall|j: int| 0 <= j < lines(s).len() implies has_content_fn(u)(#[trigger] lines(s)[j])
        == has_content_fn(s)(lines(s)[j]) by {
        let x = lines(s)[j];
        if has_content(u, x) {
            let k = choose|k: int| x.0 <= k < x.1 && !is_whitespace(#[trigger] u[k]);
            assert(u[k] == s[k]);
        }
        if has_content(s, x) {
            let k = choose|k: int| x.0 <= k < x.1 && !is_whitespace(#[trigger] s[k]);
            assert(u[k] == s[k]);
        }
    }
    lemma_filter_agreeing(lines(s), has_content_fn(u), has_content_fn(s));
    lemma_lines_within(t, 0, 0);
    lemma_filter_shifted(s, t, lines(t));
}

/// Records written one per line, each followed by a line break.
pub open spec fn joined_lines(records: Seq<Seq<char>>) -> Seq<char>
    decreases records.len(),
{
    if records.len() == 0 {
        Seq::empty()
    } else {
        joined_lines(records.drop_last()) + records.last() + seq!['\n']
    }
}

/// Where each record sits in `joined_lines(records)`.
pub open spec fn joined_spans(records: Seq<Seq<char>>) -> Seq<(int, int)>
    decreases records.len(),
{
    if records.len() == 0 {
        Seq::empty()
    } else {
        let before = joined_lines(records.drop_last()).len() as int;
        joined_spans(records.drop_last()).push((before, before + records.last().len()))
    }
}

/// A record that survives framing intact: no line break inside it, no
/// carriage return at its end, and some non-whitespace character.
pub open spec fn frameable(r: Seq<char>) -> bool {
    &&& forall|k: int| 0 <= k < r.len() ==> r[k] != '\n'
    &&& (r.len() > 0 ==> r.last() != '\r')
    &&& exists|k: int| 0 <= k < r.len() && !is_whitespace(#[trigger] r[k])
}

/// Without a line break between `i` and `n`, scanning on to `n` finds the
/// same lines.
proof fn lemma_no_break_until(s: Seq<char>, start: int, i: int, n: int)
    requires
        0 <= start <= i <= n <= s.len(),
        forall|k: int| i <= k < n ==> s[k] != '\n',
    ensures
        lines_from(s, start, i) == lines_from(s, start, n),
    decreases n - i,
{
    if i < n {
        lemma_no_break_until(s, start, i + 1, n);
    }
}

proof fn lemma_single_record(r: Seq<char>)
    requires
        frameable(r),
    ensures
        record_lines(r + seq!['\n']) == seq![(0int, r.len() as int)],
{
    let t = r + seq!['\n'];
    let n = r.len() as int;
    assert forall|k: int| 0 <= k < n implies t[k] != '\n' by {
        assert(t[k] == r[k]);
    }
    lemma_no_break_until(t, 0, 0, n);
    assert(t[n] == '\n');
    if n > 0 {
        assert(t[n - 1] == r.last());
    }
    assert(lines_from(t, n + 1, n + 1) =~= Seq::<(int, int)>::empty());
    assert(lines(t) == seq![(0int, n)] + Seq::<(int, int)>::empty());
    assert(lines(t) =~= seq![(0int, n)]);
    let k = choose|k: int| 0 <= k < r.len() && !is_whitespace(#[trigger] r[k]);
    assert(t[k] == r[k]);
    assert(has_content(t, (0int, n)));
    reveal_with_fuel(Seq::filter, 2);
    assert(lines(t).drop_last() =~= Seq::<(int, int)>::empty());
}

/// Records written one per line are read back one per line: when no record
/// holds a line break, ends in a carriage return, or is blank, the records
/// found in the joined text are exactly the written ones, in order.
pub proof fn lemma_written_records_read_back(records: Seq<Seq<char>>)
    requires
        forall|i: int| 0 <= i < records.len() ==> frameable(#[trigger] records[i]),
    ensures
        record_lines(joined_lines(records)) == joined_spans(records),
    decreases records.len(),
{
    if records.len() == 0 {
        assert(lines(Seq::<char>::empty()) =~= Seq::<(int, int)>::empty());
        reveal(Seq::filter);
    } else {
        let rest = records.drop_last();
        let r = records.last();
        assert forall|i: int| 0 <= i < rest.len() implies frameable(#[trigger] rest[i]) by {
            assert(rest[i] == records[i]);
        }
        lemma_written_records_read_back(rest);
        let s = joined_lines(rest);
        let t = r + seq!['\n'];
        assert(joined_lines(records) == s + t);
        if rest.len() > 0 {
            assert(s.last() == '\n');
        }
        lemma_complete_lines_survive_any_tail(s, t);
        lemma_single_record(r);
        assert(shift_spans(seq![(0int, r.len() as int)], s.len() as int) =~= seq![(s.len() as int, (s.len() + r.len()) as int)]);
        assert(joined_spans(records) =~= joined_spans(rest) + seq![(s.len() as int, (s.len() + r.len()) as int)]);
    }
}

pub open spec fn span_view(p: (usize, usize)) -> (int, int) {
    (p.0 as int, p.1 as int)
}

fn char_is_whitespace(c: char) -> (r: bool)
    ensures
        r == is_whitespace(c),
{
    let u = c as u32;
    (0x09 <= u && u <= 0x0D) || u == 0x20 || u == 0x85 || u == 0xA0 || u == 0x1680
        || (0x2000 <= u && u <= 0x200A) || u == 0x2028 || u == 0x2029 || u == 0x202F
        || u == 0x205F || u == 0x3000
}

/// The character ranges of the non-blank lines of a line-delimited log, in
/// order: each is one record for the parser.
pub fn record_line_spans(text: &[char]) -> (out: Vec<(usize, usize)>)
    ensures
        out@.map_values(|p: (usize, usize)| span_view(p)) == record_lines(text@),
{
    let ghost s = text@;
    let ghost keep = has_content_fn(s);
    let mut out: Vec<(usize, usize)> = Vec::new();
    let mut start: usize = 0;
    let mut content = false;
    let mut i: usize = 0;
    while i < text.len()
        invariant
            s == text@,
            keep == has_content_fn(s),
            start <= i <= text.len(),
            content == has_content(s, (start as int, i as int)),
            out@.map_values(|p: (usize, usize)| span_view(p)) + lines_from(s, start as int, i as int).filter(keep)
                == lines(s).filter(keep),
        decreases text.len() - i,
    {
        let ghost before = out@.map_values(|p: (usize, usize)| span_view(p));
        let c = text[i];
        if c == '\n' {
            let end: usize = if i > start && text[i - 1] == '\r' { i - 1 } else { i };
            let ghost line = (start as int, end as int);
            assert(has_content(s, line) == content) by {
                if content {
                    let k = choose|k: int| start <= k < i && !is_whitespace(#[trigger] s[k]);
                    if end < i {
                        assert(s[i - 1] == '\r');
                        assert(k != i - 1);
                    }
                    assert(line.0 <= k < line.1);
                }
            }
            let ghost rest = lines_from(s, i + 1, i + 1);
            assert(lines_from(s, start as int, i as int) == seq![line] + rest);
            proof {
                Seq::filter_distributes_over_add(seq![line], rest, keep);
                reveal_with_fuel(Seq::filter, 2);
                assert(seq![line].drop_last() =~= Seq::<(int, int)>::empty());
            }
            if content {
                out.push((start, end));
                assert(out@.map_values(|p: (usize, usize)| span_view(p)) =~= before.push(line));
                assert(seq![line].filter(keep) == seq![line]);
                assert(before + (seq![line] + rest.filter(keep)) == before.push(line) + rest.filter(keep));
            } else {
                assert(seq![line].filter(keep) =~= Seq::<(int, int)>::empty());
                assert(seq![line].filter(keep) + rest.filter(keep) == rest.filter(keep));
            }
            start = i + 1;
            content = false;
        } else {
            assert(lines_from(s, start as int, i as int) == lines_from(s, start as int, i + 1));
            if !char_is_whitespace(c) {
                content = true;
                assert(has_content(s, (start as int, i + 1)));
            } else {
                assert(has_content(s, (start as int, i + 1)) == content) by {
                    if has_content(s, (start as int, i + 1)) {
                        let k = choose|k: int| start <= k < i + 1 && !is_whitespace(#[trigger] s[k]);
                        assert(k != i);
                    }
                }
            }
        }
        i = i + 1;
    }
    let ghost before = out@.map_values(|p: (usize, usize)| span_view(p));
    let ghost tail = lines_from(s, start as int, i as int);
    proof {
        reveal_with_fuel(Seq::filter, 2);
    }
    if start < text.len() && content {
        out.push((start, text.len()));
        assert(tail == seq![(start as int, text.len() as int)]);
        assert(seq![(start as int, text.len() as int)].drop_last() =~= Seq::<(int, int)>::empty());
        assert(tail.filter(keep) == tail);
        assert(out@.map_values(|p: (usize, usize)| span_view(p)) =~= before.push((start as int, text.len() as int)));
        assert(before + tail.filter(keep) == before.push((start as int, text.len() as int)));
    } else if start < text.len() {
        assert(tail == seq![(start as int, text.len() as int)]);
        assert(seq![(start as int, text.len() as int)].drop_last() =~= Seq::<(int, int)>::empty());
        assert(tail.filter(keep) =~= Seq::<(int, int)>::empty());
        assert(before + tail.filter(keep) =~= before);
    } else {
        assert(tail =~= Seq::<(int, int)>::empty());
        assert(tail.filter(keep) =~= Seq::<(int, int)>::empty());
        assert(before + tail.filter(keep) =~= before);
    }
    out
}

} // verus!
