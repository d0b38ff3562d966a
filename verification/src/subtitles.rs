//! Minimal SRT/VTT subtitle parser: just enough to extract `(start_ms, text)`
//! cues for the full-text subtitle index.

use vstd::prelude::*;
use crate::text::{
    chars_of, find_char, find_from, is_whitespace, is_ws, last_char_before, last_of,
    lemma_find_from, parse_i64, parse_i64_spec, slice_chars, string_of, trim, trim_chars,
    append_chars, is_trimmed, lemma_last_of, lemma_trim_of_trimmed, all_digits, digits_value,
    is_digit, skip_ws, skip_ws_back,
};

verus! {

// ---------------------------------------------------------------------------
// Lines
// ---------------------------------------------------------------------------

/// A line without the `\r` of a `\r\n` ending.
pub open spec fn strip_cr(seg: Seq<char>) -> Seq<char> {
    if seg.len() > 0 && seg.last() == '\r' {
        seg.drop_last()
    } else {
        seg
    }
}

/// `str::lines` from index `i`: split at `\n`, dropping a `\r` right before
/// it; a final line ending is optional.
pub open spec fn lines_from(s: Seq<char>, i: int) -> Seq<Seq<char>>
    decreases s.len() - i,
{
    if i < 0 || i >= s.len() {
        Seq::empty()
    } else {
        let j = find_from(s, '\n', i);
        proof {
            lemma_find_from(s, '\n', i);
        }
        if j < s.len() {
            seq![strip_cr(s.subrange(i, j))] + lines_from(s, j + 1)
        } else {
            seq![s.subrange(i, s.len() as int)]
        }
    }
}

pub open spec fn lines_spec(s: Seq<char>) -> Seq<Seq<char>> {
    lines_from(s, 0)
}

pub open spec fn views(v: Seq<Vec<char>>) -> Seq<Seq<char>> {
    v.map_values(|l: Vec<char>| l@)
}

/// `str::lines` on a character vector.
pub fn split_lines(v: &Vec<char>) -> (r: Vec<Vec<char>>)
    ensures
        views(r@) == lines_spec(v@),
{
    let mut out: Vec<Vec<char>> = Vec::new();
    let mut start: usize = 0;
    while start < v.len()
        invariant
            start <= v.len(),
            views(out@) + lines_from(v@, start as int) == lines_spec(v@),
        decreases v.len() - start,
    {
        let j = find_char(v, '\n', start);
        proof {
            lemma_find_from(v@, '\n', start as int);
        }
        let ghost before = views(out@);
        if j < v.len() {
            let mut seg = slice_chars(v, start, j);
            if seg.len() > 0 && seg[seg.len() - 1] == '\r' {
                seg.pop();
            }
            assert(seg@ == strip_cr(v@.subrange(start as int, j as int)));
            out.push(seg);
            assert(views(out@) =~= before.push(seg@));
            assert(before + lines_from(v@, start as int) =~= views(out@) + lines_from(
                v@,
                j + 1,
            ));
            start = j + 1;
        } else {
            let seg = slice_chars(v, start, v.len());
            out.push(seg);
            assert(views(out@) =~= before.push(seg@));
            assert(lines_from(v@, v.len() as int) =~= Seq::<Seq<char>>::empty());
            assert(before + lines_from(v@, start as int) =~= views(out@) + lines_from(
                v@,
                v.len() as int,
            ));
            start = v.len();
        }
    }
    assert(lines_from(v@, start as int) =~= Seq::<Seq<char>>::empty());
    assert(views(out@) + Seq::<Seq<char>>::empty() =~= views(out@));
    out
}


// ---------------------------------------------------------------------------
// Cue text cleaning
// ---------------------------------------------------------------------------

/// Dropping `<...>` tags, left to right: the text kept so far and whether a
/// tag is open.
pub open spec fn strip_tags_state(s: Seq<char>) -> (Seq<char>, bool)
    decreases s.len(),
{
    if s.len() == 0 {
        (Seq::empty(), false)
    } else {
        let (o, t) = strip_tags_state(s.drop_last());
        let c = s.last();
        if c == '<' {
            (o, true)
        } else if c == '>' {
            (o, false)
        } else if !t {
            (o.push(c), false)
        } else {
            (o, t)
        }
    }
}

/// Collapsing white space, left to right: the words joined by single spaces
/// so far, and whether white space followed the last word.
pub open spec fn collapse_state(s: Seq<char>) -> (Seq<char>, bool)
    decreases s.len(),
{
    if s.len() == 0 {
        (Seq::empty(), false)
    } else {
        let (o, p) = collapse_state(s.drop_last());
        let c = s.last();
        if is_ws(c) {
            (o, o.len() > 0)
        } else if p {
            (o + seq![' ', c], false)
        } else {
            (o.push(c), false)
        }
    }
}

/// Strip `<...>` tags, then collapse white space: the words of what is left
/// (split at Unicode white space), joined by single spaces.
pub open spec fn clean_spec(s: Seq<char>) -> Seq<char> {
    collapse_state(strip_tags_state(s).0).0
}

/// No `<` or `>` anywhere.
pub open spec fn no_angle(s: Seq<char>) -> bool {
    forall|k: int| 0 <= k < s.len() ==> #[trigger] s[k] != '<' && s[k] != '>'
}

/// Words separated by single spaces: the only white space is `' '`, never
/// at either end and never doubled.
pub open spec fn is_collapsed(s: Seq<char>) -> bool {
    &&& forall|k: int| 0 <= k < s.len() && is_ws(#[trigger] s[k]) ==> s[k] == ' '
    &&& s.len() > 0 ==> s[0] != ' ' && s[s.len() - 1] != ' '
    &&& forall|k: int| 0 <= k < s.len() - 1 && #[trigger] s[k] == ' ' ==> s[k + 1] != ' '
}

pub proof fn lemma_strip_tags_no_angle(s: Seq<char>)
    ensures
        no_angle(strip_tags_state(s).0),
    decreases s.len(),
{
    if s.len() > 0 {
        lemma_strip_tags_no_angle(s.drop_last());
    }
}

pub proof fn lemma_collapse(s: Seq<char>)
    ensures
        is_collapsed(collapse_state(s).0),
        collapse_state(s).1 ==> collapse_state(s).0.len() > 0,
        no_angle(s) ==> no_angle(collapse_state(s).0),
    decreases s.len(),
{
    if s.len() > 0 {
        let d = s.drop_last();
        lemma_collapse(d);
        let (o, p) = collapse_state(d);
        let c = s.last();
        if no_angle(s) {
            assert(s[s.len() - 1] == c);
            assert(no_angle(d)) by {
                assert forall|k: int| 0 <= k < d.len() implies #[trigger] d[k] != '<' && d[k]
                    != '>' by {
                    assert(d[k] == s[k]);
                }
            }
        }
        if is_ws(c) {
        } else if p {
            let n = o + seq![' ', c];
            assert(n[o.len() as int] == ' ');
            assert(n[o.len() as int + 1] == c);
            assert forall|k: int| 0 <= k < n.len() - 1 && #[trigger] n[k] == ' ' implies n[k
                + 1] != ' ' by {
                if k < o.len() - 1 {
                    assert(n[k] == o[k] && n[k + 1] == o[k + 1]);
                } else if k == o.len() - 1 {
                    assert(n[k] == o[k]);
                }
            }
            assert forall|k: int| 0 <= k < n.len() && is_ws(#[trigger] n[k]) implies n[k]
                == ' ' by {
                if k < o.len() {
                    assert(n[k] == o[k]);
                }
            }
            assert(n[0] == o[0]);
            if no_angle(s) {
                assert forall|k: int| 0 <= k < n.len() implies #[trigger] n[k] != '<' && n[k]
                    != '>' by {
                    if k < o.len() {
                        assert(n[k] == o[k]);
                    }
                }
            }
        } else {
            let n = o.push(c);
            assert forall|k: int| 0 <= k < n.len() - 1 && #[trigger] n[k] == ' ' implies n[k
                + 1] != ' ' by {
                if k < o.len() - 1 {
                    assert(n[k] == o[k] && n[k + 1] == o[k + 1]);
                } else {
                    assert(n[k + 1] == c);
                }
            }
            assert forall|k: int| 0 <= k < n.len() && is_ws(#[trigger] n[k]) implies n[k]
                == ' ' by {
                if k < o.len() {
                    assert(n[k] == o[k]);
                }
            }
            if o.len() > 0 {
                assert(n[0] == o[0]);
            }
            if no_angle(s) {
                assert forall|k: int| 0 <= k < n.len() implies #[trigger] n[k] != '<' && n[k]
                    != '>' by {
                    if k < o.len() {
                        assert(n[k] == o[k]);
                    }
                }
            }
        }
    }
}

/// What `clean` returns has no tag characters and is a sequence of words
/// separated by single spaces.
pub proof fn lemma_clean(s: Seq<char>)
    ensures
        no_angle(clean_spec(s)),
        is_collapsed(clean_spec(s)),
{
    lemma_strip_tags_no_angle(s);
    lemma_collapse(strip_tags_state(s).0);
}

/// Strip `<...>` tags and collapse whitespace.
pub fn clean(v: &Vec<char>) -> (r: Vec<char>)
    ensures
        r@ == clean_spec(v@),
        no_angle(r@),
        is_collapsed(r@),
{
    let mut kept: Vec<char> = Vec::new();
    let mut in_tag = false;
    let mut i: usize = 0;
    assert(v@.take(0) =~= Seq::<char>::empty());
    while i < v.len()
        invariant
            i <= v.len(),
            (kept@, in_tag) == strip_tags_state(v@.take(i as int)),
        decreases v.len() - i,
    {
        let c = v[i];
        assert(v@.take(i + 1).drop_last() =~= v@.take(i as int));
        assert(v@.take(i + 1).last() == c);
        if c == '<' {
            in_tag = true;
        } else if c == '>' {
            in_tag = false;
        } else if !in_tag {
            kept.push(c);
        }
        i += 1;
    }
    assert(v@.take(v.len() as int) =~= v@);
    let mut out: Vec<char> = Vec::new();
    let mut pending = false;
    let mut k: usize = 0;
    assert(kept@.take(0) =~= Seq::<char>::empty());
    while k < kept.len()
        invariant
            k <= kept.len(),
            (out@, pending) == collapse_state(kept@.take(k as int)),
        decreases kept.len() - k,
    {
        let c = kept[k];
        assert(kept@.take(k + 1).drop_last() =~= kept@.take(k as int));
        assert(kept@.take(k + 1).last() == c);
        if is_whitespace(c) {
            pending = out.len() > 0;
        } else if pending {
            out.push(' ');
            out.push(c);
            pending = false;
        } else {
            out.push(c);
        }
        assert(out@ == collapse_state(kept@.take(k + 1)).0) by {
            if !is_ws(c) && collapse_state(kept@.take(k as int)).1 {
                assert(collapse_state(kept@.take(k as int)).0 + seq![' ', c] =~= out@);
            }
        }
        k += 1;
    }
    assert(kept@.take(kept.len() as int) =~= kept@);
    proof {
        lemma_clean(v@);
    }
    out
}


// ---------------------------------------------------------------------------
// Timestamps
// ---------------------------------------------------------------------------

/// The string with every `,` turned into `.`.
pub open spec fn replace_commas(s: Seq<char>) -> Seq<char> {
    s.map_values(|c: char| if c == ',' { '.' } else { c })
}

/// `(before, after)` split at the last `:`; `(None, s)` when there is none.
pub open spec fn split_last_colon(s: Seq<char>) -> (Option<Seq<char>>, Seq<char>) {
    let k = last_of(s, ':', s.len() as int);
    if k >= 0 {
        (Some(s.subrange(0, k)), s.subrange(k + 1, s.len() as int))
    } else {
        (None, s)
    }
}

/// `d` right-padded with `'0'` to three characters (`d` has at most three).
pub open spec fn pad3(d: Seq<char>) -> Seq<char> {
    if d.len() == 0 {
        seq!['0', '0', '0']
    } else if d.len() == 1 {
        d + seq!['0', '0']
    } else if d.len() == 2 {
        d.push('0')
    } else {
        d
    }
}

/// Milliseconds from the fractional part: its first three characters,
/// right-padded with zeros, as an integer (0 when that does not parse).
pub open spec fn millis_of(frac: Seq<char>) -> int {
    let d = if frac.len() <= 3 {
        frac
    } else {
        frac.take(3)
    };
    match parse_i64_spec(pad3(d)) {
        Some(m) => m,
        None => 0,
    }
}

/// A timestamp field: trimmed, then parsed as an `i64`.
pub open spec fn field_value(f: Seq<char>) -> Option<int> {
    parse_i64_spec(trim(f))
}

/// `HH:MM:SS,mmm` / `HH:MM:SS.mmm` / `MM:SS.mmm` as `(hours, minutes,
/// seconds, millis)`. Commas count as dots; the part before the first dot is
/// split at `:` from the right (missing hour and minute fields are 0, extra
/// fields on the left are ignored).
pub open spec fn parse_ts_raw(s: Seq<char>) -> Option<(int, int, int, int)> {
    let s2 = replace_commas(s);
    let q = find_from(s2, '.', 0);
    let hms = s2.subrange(0, q);
    let frac = if q < s2.len() {
        s2.subrange(q + 1, s2.len() as int)
    } else {
        seq!['0']
    };
    let secf = split_last_colon(hms).1;
    let minf = match split_last_colon(hms).0 {
        Some(r) => split_last_colon(r).1,
        None => seq!['0'],
    };
    let hourf = match split_last_colon(hms).0 {
        Some(r) => match split_last_colon(r).0 {
            Some(r2) => split_last_colon(r2).1,
            None => seq!['0'],
        },
        None => seq!['0'],
    };
    match (field_value(secf), field_value(minf), field_value(hourf)) {
        (Some(sec), Some(min), Some(hour)) => Some((hour, min, sec, millis_of(frac))),
        _ => None,
    }
}

pub open spec fn in_i64(x: int) -> bool {
    i64::MIN <= x <= i64::MAX
}

/// Every step of `(hour * 3600 + min * 60 + sec) * 1000 + millis` stays in
/// the range of `i64`.
pub open spec fn ts_fits(t: (int, int, int, int)) -> bool {
    let (h, m, s, ms) = t;
    &&& in_i64(h * 3600)
    &&& in_i64(m * 60)
    &&& in_i64(h * 3600 + m * 60)
    &&& in_i64(h * 3600 + m * 60 + s)
    &&& in_i64((h * 3600 + m * 60 + s) * 1000)
    &&& in_i64((h * 3600 + m * 60 + s) * 1000 + ms)
}

pub open spec fn ts_value(t: (int, int, int, int)) -> int {
    let (h, m, s, ms) = t;
    (h * 3600 + m * 60 + s) * 1000 + ms
}

/// Index of the first `-->` at or after `i`, or -1.
pub open spec fn arrow_from(s: Seq<char>, i: int) -> int
    decreases s.len() - i,
{
    if i < 0 || i + 3 > s.len() {
        -1
    } else if s[i] == '-' && s[i + 1] == '-' && s[i + 2] == '>' {
        i
    } else {
        arrow_from(s, i + 1)
    }
}

/// A cue-timing line (`start --> end [settings]`): its start timestamp.
pub open spec fn parse_start_raw(line: Seq<char>) -> Option<(int, int, int, int)> {
    let p = arrow_from(line, 0);
    if p < 0 {
        None
    } else {
        parse_ts_raw(trim(line.subrange(0, p)))
    }
}

/// Outcome of reading a timestamp.
pub enum Timing {
    /// Not a timestamp.
    Invalid,
    /// A timestamp whose millisecond value leaves the range of `i64`.
    Overflow,
    /// A timestamp, in milliseconds.
    Millis(i64),
}

pub open spec fn timing_matches(r: Timing, raw: Option<(int, int, int, int)>) -> bool {
    match r {
        Timing::Invalid => raw is None,
        Timing::Overflow => raw matches Some(t) && !ts_fits(t),
        Timing::Millis(ms) => raw matches Some(t) && ts_fits(t) && ms == ts_value(t),
    }
}

fn split_last_colon_exec(s: &Vec<char>) -> (r: (Option<Vec<char>>, Vec<char>))
    ensures
        r.0 matches Some(b) ==> split_last_colon(s@).0 == Some(b@),
        r.0 is None ==> split_last_colon(s@).0 is None,
        r.1@ == split_last_colon(s@).1,
{
    let lc = last_char_before(s, ':', s.len());
    proof {
        crate::text::lemma_last_of(s@, ':', s.len() as int);
    }
    match lc {
        Some(k) => (Some(slice_chars(s, 0, k)), slice_chars(s, k + 1, s.len())),
        None => {
            let mut copy: Vec<char> = Vec::new();
            crate::text::append_chars(&mut copy, s);
            assert(copy@ =~= s@);
            (None, copy)
        },
    }
}

fn zero_field() -> (r: Vec<char>)
    ensures
        r@ == seq!['0'],
{
    let mut r: Vec<char> = Vec::new();
    r.push('0');
    r
}

fn field_value_exec(f: &Vec<char>) -> (r: Option<i64>)
    ensures
        r matches Some(n) ==> field_value(f@) == Some(n as int),
        r is None ==> field_value(f@) is None,
{
    let t = trim_chars(f);
    parse_i64(&t)
}

fn millis_exec(frac: &Vec<char>) -> (r: i64)
    ensures
        r == millis_of(frac@),
{
    let n = if frac.len() <= 3 {
        frac.len()
    } else {
        3
    };
    let mut d = slice_chars(frac, 0, n);
    assert(frac.len() <= 3 ==> d@ =~= frac@);
    let ghost d0 = d@;
    while d.len() < 3
        invariant
            d0.len() <= 3,
            d.len() <= 3,
            d0.len() <= d.len(),
            d@ == d0 + Seq::new((d.len() - d0.len()) as nat, |_i: int| '0'),
        decreases 3 - d.len(),
    {
        let ghost before = d@;
        d.push('0');
        assert(d@ =~= d0 + Seq::new((d.len() - d0.len()) as nat, |_i: int| '0'));
    }
    assert(d@ =~= pad3(d0));
    match parse_i64(&d) {
        Some(m) => m,
        None => 0,
    }
}

/// Parse a timestamp into milliseconds.
pub fn parse_ts(s: &Vec<char>) -> (r: Timing)
    ensures
        timing_matches(r, parse_ts_raw(s@)),
{
    let mut s2: Vec<char> = Vec::new();
    let mut i: usize = 0;
    while i < s.len()
        invariant
            i <= s.len(),
            s2@ == replace_commas(s@.take(i as int)),
        decreases s.len() - i,
    {
        let c = s[i];
        s2.push(if c == ',' { '.' } else { c });
        assert(s2@ =~= replace_commas(s@.take(i + 1)));
        i += 1;
    }
    assert(s@.take(s.len() as int) =~= s@);
    let q = find_char(&s2, '.', 0);
    let hms = slice_chars(&s2, 0, q);
    let frac = if q < s2.len() {
        slice_chars(&s2, q + 1, s2.len())
    } else {
        zero_field()
    };
    let (rest1, secf) = split_last_colon_exec(&hms);
    let (minf, hourf) = match rest1 {
        Some(r) => {
            let (rest2, minf) = split_last_colon_exec(&r);
            let hourf = match rest2 {
                Some(r2) => split_last_colon_exec(&r2).1,
                None => zero_field(),
            };
            (minf, hourf)
        },
        None => (zero_field(), zero_field()),
    };
    let sec = match field_value_exec(&secf) {
        Some(x) => x,
        None => {
            return Timing::Invalid;
        },
    };
    let min = match field_value_exec(&minf) {
        Some(x) => x,
        None => {
            return Timing::Invalid;
        },
    };
    let hour = match field_value_exec(&hourf) {
        Some(x) => x,
        None => {
            return Timing::Invalid;
        },
    };
    let millis = millis_exec(&frac);
    let ghost t = (hour as int, min as int, sec as int, millis as int);
    assert(parse_ts_raw(s@) == Some(t));
    let a = match hour.checked_mul(3600) {
        Some(x) => x,
        None => {
            return Timing::Overflow;
        },
    };
    let b = match min.checked_mul(60) {
        Some(x) => x,
        None => {
            return Timing::Overflow;
        },
    };
    let c = match a.checked_add(b) {
        Some(x) => x,
        None => {
            return Timing::Overflow;
        },
    };
    let d = match c.checked_add(sec) {
        Some(x) => x,
        None => {
            return Timing::Overflow;
        },
    };
    let e = match d.checked_mul(1000) {
        Some(x) => x,
        None => {
            return Timing::Overflow;
        },
    };
    match e.checked_add(millis) {
        Some(x) => Timing::Millis(x),
        None => Timing::Overflow,
    }
}

/// If `line` is a cue-timing line (`start --> end [settings]`), its start.
pub fn parse_start(line: &Vec<char>) -> (r: Timing)
    ensures
        timing_matches(r, parse_start_raw(line@)),
{
    let mut p: usize = 0;
    while p <= line.len() && line.len() - p >= 3 && !(line[p] == '-' && line[p + 1] == '-'
        && line[p + 2] == '>')
        invariant
            p <= line.len(),
            arrow_from(line@, 0) == arrow_from(line@, p as int),
        decreases line.len() - p,
    {
        p += 1;
    }
    if line.len() - p < 3 {
        return Timing::Invalid;
    }
    let left = slice_chars(line, 0, p);
    let t = trim_chars(&left);
    parse_ts(&t)
}


// ---------------------------------------------------------------------------
// Cues
// ---------------------------------------------------------------------------

/// A line that is empty after trimming ends a cue's text.
pub open spec fn is_blank(l: Seq<char>) -> bool {
    trim(l).len() == 0
}

/// First index at or after `j` holding a blank line, or the number of lines.
pub open spec fn text_end(ls: Seq<Seq<char>>, j: int) -> int
    decreases ls.len() - j,
{
    if 0 <= j < ls.len() && !is_blank(ls[j]) {
        text_end(ls, j + 1)
    } else {
        j
    }
}

pub proof fn lemma_text_end(ls: Seq<Seq<char>>, j: int)
    requires
        0 <= j <= ls.len(),
    ensures
        j <= text_end(ls, j) <= ls.len(),
    decreases ls.len() - j,
{
    if j < ls.len() && !is_blank(ls[j]) {
        lemma_text_end(ls, j + 1);
    }
}

/// The lines joined with single spaces between them.
pub open spec fn join_space(ls: Seq<Seq<char>>) -> Seq<char>
    decreases ls.len(),
{
    if ls.len() == 0 {
        Seq::empty()
    } else if ls.len() == 1 {
        ls[0]
    } else {
        join_space(ls.drop_last()) + seq![' '] + ls.last()
    }
}

/// The cues found from line `i` on: each timing line starts a cue whose text
/// is the following lines up to a blank one, joined and cleaned; cues whose
/// text comes out empty are dropped.
pub open spec fn cues_from(ls: Seq<Seq<char>>, i: int) -> Seq<(int, Seq<char>)>
    decreases ls.len() - i,
{
    if i < 0 || i >= ls.len() {
        Seq::empty()
    } else {
        match parse_start_raw(ls[i]) {
            None => cues_from(ls, i + 1),
            Some(t) => {
                let j = text_end(ls, i + 1);
                proof {
                    lemma_text_end(ls, i + 1);
                }
                let text = clean_spec(join_space(ls.subrange(i + 1, j)));
                if text.len() > 0 {
                    seq![(ts_value(t), text)] + cues_from(ls, j)
                } else {
                    cues_from(ls, j)
                }
            },
        }
    }
}

/// Every timing line met from line `i` on has a millisecond value in the
/// range of `i64`.
pub open spec fn timings_fit_from(ls: Seq<Seq<char>>, i: int) -> bool
    decreases ls.len() - i,
{
    if i < 0 || i >= ls.len() {
        true
    } else {
        match parse_start_raw(ls[i]) {
            None => timings_fit_from(ls, i + 1),
            Some(t) => {
                proof {
                    lemma_text_end(ls, i + 1);
                }
                ts_fits(t) && timings_fit_from(ls, text_end(ls, i + 1))
            },
        }
    }
}

/// The cues of subtitle file contents.
pub open spec fn parse_spec(content: Seq<char>) -> Seq<(int, Seq<char>)> {
    cues_from(lines_spec(content), 0)
}

/// Every cue timing in the contents has a millisecond value that fits `i64`.
pub open spec fn timings_fit(content: Seq<char>) -> bool {
    timings_fit_from(lines_spec(content), 0)
}


/// A cue's text: non-empty, free of tag characters, and words separated by
/// single spaces.
pub open spec fn cue_text_ok(t: Seq<char>) -> bool {
    t.len() > 0 && no_angle(t) && is_collapsed(t)
}

proof fn lemma_cues_from_clean(ls: Seq<Seq<char>>, i: int)
    ensures
        forall|k: int|
            0 <= k < cues_from(ls, i).len() ==> cue_text_ok(#[trigger] cues_from(ls, i)[k].1),
    decreases ls.len() - i,
{
    if 0 <= i < ls.len() {
        match parse_start_raw(ls[i]) {
            None => {
                lemma_cues_from_clean(ls, i + 1);
                assert(cues_from(ls, i) == cues_from(ls, i + 1));
            },
            Some(t) => {
                let j = text_end(ls, i + 1);
                lemma_text_end(ls, i + 1);
                lemma_cues_from_clean(ls, j);
                let text = clean_spec(join_space(ls.subrange(i + 1, j)));
                lemma_clean(join_space(ls.subrange(i + 1, j)));
                if text.len() > 0 {
                    let rest = cues_from(ls, j);
                    let all = seq![(ts_value(t), text)] + rest;
                    assert(cues_from(ls, i) == all);
                    assert forall|k: int| 0 <= k < all.len() implies cue_text_ok(
                        #[trigger] all[k].1,
                    ) by {
                        if k > 0 {
                            assert(all[k] == rest[k - 1]);
                        }
                    }
                } else {
                    assert(cues_from(ls, i) == cues_from(ls, j));
                }
            },
        }
    }
}

/// Every cue that parsing yields has a non-empty text without tag
/// characters, made of words separated by single spaces.
pub proof fn law_cue_texts_are_clean(content: Seq<char>)
    ensures
        forall|k: int|
            0 <= k < parse_spec(content).len() ==> cue_text_ok(#[trigger] parse_spec(content)[k].1),
{
    lemma_cues_from_clean(lines_spec(content), 0);
}

pub open spec fn cue_views(v: Seq<(i64, String)>) -> Seq<(int, Seq<char>)> {
    v.map_values(|p: (i64, String)| (p.0 as int, p.1@))
}

fn is_blank_line(l: &Vec<char>) -> (r: bool)
    ensures
        r == is_blank(l@),
{
    trim_chars(l).len() == 0
}

/// The lines `ls[a..b]` joined with single spaces.
fn join_lines(ls: &Vec<Vec<char>>, a: usize, b: usize) -> (r: Vec<char>)
    requires
        a <= b <= ls.len(),
    ensures
        r@ == join_space(views(ls@).subrange(a as int, b as int)),
{
    let mut out: Vec<char> = Vec::new();
    let mut k = a;
    assert(views(ls@).subrange(a as int, a as int) =~= Seq::<Seq<char>>::empty());
    while k < b
        invariant
            a <= k <= b <= ls.len(),
            out@ == join_space(views(ls@).subrange(a as int, k as int)),
        decreases b - k,
    {
        let ghost sub = views(ls@).subrange(a as int, k + 1);
        assert(sub.drop_last() =~= views(ls@).subrange(a as int, k as int));
        assert(sub.last() == ls@[k as int]@);
        if k > a {
            out.push(' ');
        }
        append_chars(&mut out, &ls[k]);
        if k == a {
            assert(sub.len() == 1);
            assert(out@ =~= sub[0]);
        } else {
            assert(out@ =~= join_space(sub.drop_last()) + seq![' '] + sub.last());
        }
        k += 1;
    }
    out
}

/// Parse subtitle file contents into `(start_ms, text)` cues. Handles both
/// SRT (`00:00:01,000`) and VTT (`00:00:01.000`) timing, joins multi-line cue
/// text, and strips inline tags. `None` when a cue timing's millisecond value
/// does not fit in an `i64`.
pub fn parse_checked(content: &str) -> (r: Option<Vec<(i64, String)>>)
    ensures
        r is Some <==> timings_fit(content@),
        r matches Some(c) ==> cue_views(c@) == parse_spec(content@),
        r matches Some(c) ==> forall|k: int| 0 <= k < c@.len() ==> cue_text_ok(#[trigger] c@[k].1@),
{
    let v = chars_of(content);
    let ls = split_lines(&v);
    let ghost lines = lines_spec(v@);
    let mut cues: Vec<(i64, String)> = Vec::new();
    let mut i: usize = 0;
    while i < ls.len()
        invariant
            i <= ls.len(),
            views(ls@) == lines,
            lines == lines_spec(content@),
            lines.len() == ls.len(),
            cue_views(cues@) + cues_from(lines, i as int) == cues_from(lines, 0),
            timings_fit_from(lines, 0) == timings_fit_from(lines, i as int),
        decreases ls.len() - i,
    {
        assert(lines[i as int] == ls@[i as int]@);
        let ghost before = cue_views(cues@);
        match parse_start(&ls[i]) {
            Timing::Invalid => {
                i += 1;
            },
            Timing::Overflow => {
                assert(!timings_fit_from(lines, i as int));
                return None;
            },
            Timing::Millis(start) => {
                let mut j = i + 1;
                while j < ls.len() && !is_blank_line(&ls[j])
                    invariant
                        i + 1 <= j <= ls.len(),
                        views(ls@) == lines,
                        lines.len() == ls.len(),
                        text_end(lines, (i + 1) as int) == text_end(lines, j as int),
                    decreases ls.len() - j,
                {
                    assert(lines[j as int] == ls@[j as int]@);
                    j += 1;
                }
                proof {
                    if j < ls.len() {
                        assert(lines[j as int] == ls@[j as int]@);
                    }
                }
                let joined = join_lines(&ls, i + 1, j);
                let text = clean(&joined);
                if text.len() > 0 {
                    let st = string_of(&text);
                    cues.push((start, st));
                    assert(cue_views(cues@) =~= before.push((start as int, text@)));
                    assert(before + cues_from(lines, i as int) =~= cue_views(cues@) + cues_from(
                        lines,
                        j as int,
                    ));
                }
                i = j;
            },
        }
    }
    assert(cues_from(lines, i as int) =~= Seq::<(int, Seq<char>)>::empty());
    assert(cue_views(cues@) + Seq::<(int, Seq<char>)>::empty() =~= cue_views(cues@));
    proof {
        law_cue_texts_are_clean(content@);
        assert forall|k: int| 0 <= k < cues@.len() implies cue_text_ok(#[trigger] cues@[k].1@) by {
            assert(cue_views(cues@)[k].1 == cues@[k].1@);
            assert(cue_views(cues@)[k] == parse_spec(content@)[k]);
        }
    }
    Some(cues)
}

/// Parse subtitle file contents into `(start_ms, text)` cues. Handles both
/// SRT (`00:00:01,000`) and VTT (`00:00:01.000`) timing, joins multi-line cue
/// text, and strips inline tags.
pub fn parse(content: &str) -> (r: Vec<(i64, String)>)
    requires
        timings_fit(content@),
    ensures
        cue_views(r@) == parse_spec(content@),
        forall|k: int| 0 <= k < r@.len() ==> cue_text_ok(#[trigger] r@[k].1@),
{
    match parse_checked(content) {
        Some(c) => c,
        None => Vec::new(),
    }
}


// ---------------------------------------------------------------------------
// The value of a timing line
// ---------------------------------------------------------------------------

proof fn lemma_last_colon_at(s: Seq<char>, k: int)
    requires
        0 <= k < s.len(),
        s[k] == ':',
        forall|j: int| k < j < s.len() ==> s[j] != ':',
    ensures
        last_of(s, ':', s.len() as int) == k,
{
    lemma_last_of(s, ':', s.len() as int);
    let r = last_of(s, ':', s.len() as int);
    if r < k {
        assert(s[k] != ':');
    }
}

proof fn lemma_no_colon(s: Seq<char>)
    requires
        all_digits(s),
    ensures
        last_of(s, ':', s.len() as int) == -1,
{
    lemma_last_of(s, ':', s.len() as int);
    let r = last_of(s, ':', s.len() as int);
    if r >= 0 {
        assert(is_digit(s[r]));
    }
}

/// A run of digits whose value fits `i64` is a field worth that value.
proof fn lemma_digit_field(x: Seq<char>)
    requires
        x.len() >= 1,
        all_digits(x),
        digits_value(x) <= i64::MAX,
    ensures
        field_value(x) == Some(digits_value(x) as int),
{
    assert(is_digit(x[0]) && is_digit(x[x.len() - 1]));
    lemma_trim_of_trimmed(x);
}

proof fn lemma_three_digits(x: Seq<char>)
    requires
        x.len() == 3,
        all_digits(x),
    ensures
        digits_value(x) <= 999,
        millis_of(x) == digits_value(x),
{
    assert(is_digit(x[0]) && is_digit(x[1]) && is_digit(x[2]));
    assert(x.drop_last().drop_last().drop_last() =~= Seq::<char>::empty());
    assert(digits_value(x.drop_last().drop_last().drop_last()) == 0);
    assert(digits_value(x.drop_last().drop_last()) <= 9);
    assert(digits_value(x.drop_last()) <= 99);
    assert(digits_value(x) <= 999);
    assert(is_digit(x[0]));
}

proof fn lemma_arrow_after(line: Seq<char>, i: int, p: int)
    requires
        0 <= i <= p,
        p + 3 <= line.len(),
        line[p] == '-' && line[p + 1] == '-' && line[p + 2] == '>',
        forall|j: int| i <= j < p ==> line[j] != '-',
    ensures
        arrow_from(line, i) == p,
    decreases p - i,
{
    if i < p {
        lemma_arrow_after(line, i + 1, p);
    }
}

/// A timing line `h:m:s,ms --> ...` (fields made of digits, three digits of
/// milliseconds) starts at `(h * 3600 + m * 60 + s) * 1000 + ms`
/// milliseconds: every hour counts 3,600,000 and every minute 60,000.
pub proof fn law_timing_line_start(
    h: Seq<char>,
    m: Seq<char>,
    s: Seq<char>,
    ms: Seq<char>,
    rest: Seq<char>,
)
    requires
        h.len() >= 1 && all_digits(h) && digits_value(h) <= i64::MAX,
        m.len() >= 1 && all_digits(m) && digits_value(m) <= i64::MAX,
        s.len() >= 1 && all_digits(s) && digits_value(s) <= i64::MAX,
        ms.len() == 3 && all_digits(ms),
    ensures
        ({
            let line = h + seq![':'] + m + seq![':'] + s + seq![','] + ms + seq![' ', '-', '-', '>', ' ']
                + rest;
            &&& parse_start_raw(line) == Some(
                (digits_value(h) as int, digits_value(m) as int, digits_value(s) as int, digits_value(ms) as int),
            )
            &&& ts_value(parse_start_raw(line).unwrap()) == (digits_value(h) * 3600 + digits_value(m)
                * 60 + digits_value(s)) * 1000 + digits_value(ms)
        }),
{
    let hm = h + seq![':'] + m;
    let u = hm + seq![':'] + s;
    let t = u + seq![','] + ms;
    let line = h + seq![':'] + m + seq![':'] + s + seq![','] + ms + seq![' ', '-', '-', '>', ' ']
        + rest;
    assert(line =~= t + seq![' ', '-', '-', '>', ' '] + rest);
    // the arrow follows the timestamp and a space
    assert forall|j: int| 0 <= j < t.len() + 1 implies line[j] != '-' by {
        if j < h.len() {
            assert(is_digit(h[j]));
        } else if j < hm.len() && j > h.len() {
            assert(is_digit(m[j - h.len() - 1]));
        } else if j > hm.len() && j < u.len() {
            assert(is_digit(s[j - hm.len() - 1]));
        } else if j > u.len() && j < t.len() {
            assert(is_digit(ms[j - u.len() - 1]));
        }
    }
    lemma_arrow_after(line, 0, (t.len() + 1) as int);
    let left = line.subrange(0, (t.len() + 1) as int);
    assert(left =~= t.push(' '));
    // trimming drops the space only
    assert(is_digit(h[0]) && is_digit(ms[2]));
    assert(skip_ws(left, 0) == 0);
    assert(skip_ws_back(left, left.len() as int) == t.len()) by {
        assert(skip_ws_back(left, t.len() as int) == t.len());
    }
    assert(trim(left) =~= t);
    // commas become dots
    let s2 = u + seq!['.'] + ms;
    assert(replace_commas(t) =~= s2) by {
        assert forall|j: int| 0 <= j < t.len() implies replace_commas(t)[j] == s2[j] by {
            if j < h.len() {
                assert(is_digit(h[j]));
            } else if j < hm.len() && j > h.len() {
                assert(is_digit(m[j - h.len() - 1]));
            } else if j > hm.len() && j < u.len() {
                assert(is_digit(s[j - hm.len() - 1]));
            } else if j > u.len() && j < t.len() {
                assert(is_digit(ms[j - u.len() - 1]));
            }
        }
    }
    // the first dot ends the hours-minutes-seconds part
    lemma_find_from(s2, '.', 0);
    let q = find_from(s2, '.', 0);
    assert forall|j: int| 0 <= j < u.len() implies s2[j] != '.' by {
        if j < h.len() {
            assert(is_digit(h[j]));
        } else if j < hm.len() && j > h.len() {
            assert(is_digit(m[j - h.len() - 1]));
        } else if j > hm.len() && j < u.len() {
            assert(is_digit(s[j - hm.len() - 1]));
        }
    }
    assert(s2[u.len() as int] == '.');
    if q < u.len() {
        assert(s2[q] == '.');
    }
    assert(q == u.len());
    assert(s2.subrange(0, q) =~= u);
    assert(s2.subrange(q + 1, s2.len() as int) =~= ms);
    // splitting at colons from the right
    assert forall|j: int| hm.len() < j < u.len() implies u[j] != ':' by {
        assert(is_digit(s[j - hm.len() - 1]));
    }
    lemma_last_colon_at(u, hm.len() as int);
    assert(u.subrange(0, hm.len() as int) =~= hm);
    assert(u.subrange((hm.len() + 1) as int, u.len() as int) =~= s);
    assert forall|j: int| h.len() < j < hm.len() implies hm[j] != ':' by {
        assert(is_digit(m[j - h.len() - 1]));
    }
    lemma_last_colon_at(hm, h.len() as int);
    assert(hm.subrange(0, h.len() as int) =~= h);
    assert(hm.subrange((h.len() + 1) as int, hm.len() as int) =~= m);
    lemma_no_colon(h);
    lemma_digit_field(h);
    lemma_digit_field(m);
    lemma_digit_field(s);
    lemma_three_digits(ms);
}


/// A WebVTT timing line without hours, `m:s.ms --> ...` (fields made of
/// digits, three digits of milliseconds), starts at `(m * 60 + s) * 1000 +
/// ms` milliseconds: the missing hour field counts as zero.
pub proof fn law_short_timing_line_start(m: Seq<char>, s: Seq<char>, ms: Seq<char>, rest: Seq<char>)
    requires
        m.len() >= 1 && all_digits(m) && digits_value(m) <= i64::MAX,
        s.len() >= 1 && all_digits(s) && digits_value(s) <= i64::MAX,
        ms.len() == 3 && all_digits(ms),
    ensures
        ({
            let line = m + seq![':'] + s + seq!['.'] + ms + seq![' ', '-', '-', '>', ' '] + rest;
            &&& parse_start_raw(line) == Some(
                (0int, digits_value(m) as int, digits_value(s) as int, digits_value(ms) as int),
            )
            &&& ts_value(parse_start_raw(line).unwrap()) == (digits_value(m) * 60 + digits_value(s))
                * 1000 + digits_value(ms)
        }),
{
    let u = m + seq![':'] + s;
    let t = u + seq!['.'] + ms;
    let line = m + seq![':'] + s + seq!['.'] + ms + seq![' ', '-', '-', '>', ' '] + rest;
    assert(line =~= t + seq![' ', '-', '-', '>', ' '] + rest);
    // the arrow follows the timestamp and a space
    assert forall|j: int| 0 <= j < t.len() + 1 implies line[j] != '-' by {
        if j < m.len() {
            assert(is_digit(m[j]));
        } else if j > m.len() && j < u.len() {
            assert(is_digit(s[j - m.len() - 1]));
        } else if j > u.len() && j < t.len() {
            assert(is_digit(ms[j - u.len() - 1]));
        }
    }
    lemma_arrow_after(line, 0, (t.len() + 1) as int);
    let left = line.subrange(0, (t.len() + 1) as int);
    assert(left =~= t.push(' '));
    // trimming drops the space only
    assert(is_digit(m[0]) && is_digit(ms[2]));
    assert(skip_ws(left, 0) == 0);
    assert(skip_ws_back(left, left.len() as int) == t.len()) by {
        assert(skip_ws_back(left, t.len() as int) == t.len());
    }
    assert(trim(left) =~= t);
    // there is no comma to replace
    assert(replace_commas(t) =~= t) by {
        assert forall|j: int| 0 <= j < t.len() implies replace_commas(t)[j] == t[j] by {
            if j < m.len() {
                assert(is_digit(m[j]));
            } else if j > m.len() && j < u.len() {
                assert(is_digit(s[j - m.len() - 1]));
            } else if j > u.len() && j < t.len() {
                assert(is_digit(ms[j - u.len() - 1]));
            }
        }
    }
    // the first dot ends the minutes-seconds part
    lemma_find_from(t, '.', 0);
    let q = find_from(t, '.', 0);
    assert forall|j: int| 0 <= j < u.len() implies t[j] != '.' by {
        if j < m.len() {
            assert(is_digit(m[j]));
        } else if j > m.len() && j < u.len() {
            assert(is_digit(s[j - m.len() - 1]));
        }
    }
    assert(t[u.len() as int] == '.');
    if q < u.len() {
        assert(t[q] == '.');
    }
    assert(q == u.len());
    assert(t.subrange(0, q) =~= u);
    assert(t.subrange(q + 1, t.len() as int) =~= ms);
    // one colon: minutes and seconds, no hours
    assert forall|j: int| m.len() < j < u.len() implies u[j] != ':' by {
        assert(is_digit(s[j - m.len() - 1]));
    }
    lemma_last_colon_at(u, m.len() as int);
    assert(u.subrange(0, m.len() as int) =~= m);
    assert(u.subrange((m.len() + 1) as int, u.len() as int) =~= s);
    lemma_no_colon(m);
    let zero = seq!['0'];
    assert(all_digits(zero)) by {
        assert(is_digit(zero[0]));
    }
    assert(digits_value(zero) == 0) by {
        assert(zero.drop_last() =~= Seq::<char>::empty());
        assert(digits_value(zero.drop_last()) == 0);
        assert(zero.last() == '0');
        assert(crate::text::digit_value('0') == 0);
    }
    lemma_digit_field(zero);
    lemma_digit_field(m);
    lemma_digit_field(s);
    lemma_three_digits(ms);
}

} // verus!
