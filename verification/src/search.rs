//! Full-text search input handling. Free-form user input becomes a safe
//! FTS5 MATCH expression: each word becomes a quoted prefix term restricted
//! to one column. Running the query happens outside the library.

use vstd::prelude::*;
use crate::text::{is_ws, is_whitespace, chars_of, string_of, append_chars};

verus! {

/// Unicode `Alphabetic` or `Numeric`, the property behind
/// `char::is_alphanumeric`.
pub uninterp spec fn alphanumeric(c: char) -> bool;

/// Calls `char::is_alphanumeric`. Claimed of it: the result is the named
/// property `alphanumeric`, which on ASCII holds exactly of letters and
/// digits. Nothing more is stated of other characters.
#[verifier::external_body]
fn is_alphanumeric(c: char) -> (r: bool)
    ensures
        r == alphanumeric(c),
        (c as u32) < 128 ==> (r <==> (('a' <= c && c <= 'z') || ('A' <= c && c <= 'Z') || ('0'
            <= c && c <= '9'))),
{
    c.is_alphanumeric()
}

/// Splitting the first `n` characters at white space: finished words and
/// the word in progress.
pub open spec fn words_state(s: Seq<char>, n: int) -> (Seq<Seq<char>>, Seq<char>)
    decreases n,
{
    if n <= 0 || n > s.len() {
        (Seq::empty(), Seq::empty())
    } else {
        let (done, cur) = words_state(s, n - 1);
        if is_ws(s[n - 1]) {
            (if cur.len() > 0 {
                done.push(cur)
            } else {
                done
            }, Seq::empty())
        } else {
            (done, cur.push(s[n - 1]))
        }
    }
}

/// `str::split_whitespace`: the maximal runs of non-white-space characters.
pub open spec fn words(s: Seq<char>) -> Seq<Seq<char>> {
    let (done, cur) = words_state(s, s.len() as int);
    if cur.len() > 0 {
        done.push(cur)
    } else {
        done
    }
}

pub open spec fn has_alnum(w: Seq<char>) -> bool {
    exists|i: int| 0 <= i < w.len() && alphanumeric(#[trigger] w[i])
}

/// `w` with every `"` doubled.
pub open spec fn escape_quotes(w: Seq<char>) -> Seq<char>
    decreases w.len(),
{
    if w.len() == 0 {
        Seq::empty()
    } else {
        escape_quotes(w.drop_last()) + if w.last() == '"' {
            seq!['"', '"']
        } else {
            seq![w.last()]
        }
    }
}

/// The prefix term for a word: `"word"*`.
pub open spec fn prefix_term(w: Seq<char>) -> Seq<char> {
    seq!['"'] + escape_quotes(w) + seq!['"', '*']
}

/// The terms for the first `n` words, joined by single spaces.
pub open spec fn terms_upto(ws: Seq<Seq<char>>, n: int) -> Seq<char>
    decreases n,
{
    if n <= 0 || n > ws.len() {
        Seq::empty()
    } else if !has_alnum(ws[n - 1]) {
        terms_upto(ws, n - 1)
    } else if terms_upto(ws, n - 1).len() == 0 {
        prefix_term(ws[n - 1])
    } else {
        terms_upto(ws, n - 1) + seq![' '] + prefix_term(ws[n - 1])
    }
}

/// The MATCH expression for `input` restricted to `column`, or `None` when
/// no word has a letter or digit.
pub open spec fn match_expr_spec(input: Seq<char>, column: Seq<char>) -> Option<Seq<char>> {
    let ws = words(input);
    let t = terms_upto(ws, ws.len() as int);
    if t.len() == 0 {
        None
    } else {
        Some(column + seq![' ', ':', ' ', '('] + t + seq![')'])
    }
}

proof fn lemma_prefix_term_nonempty(w: Seq<char>)
    ensures
        prefix_term(w).len() >= 3,
{
}

proof fn lemma_terms_empty(ws: Seq<Seq<char>>, n: int)
    requires
        0 <= n <= ws.len(),
    ensures
        terms_upto(ws, n).len() == 0 <==> forall|k: int| 0 <= k < n ==> !has_alnum(#[trigger] ws[k]),
    decreases n,
{
    if n > 0 {
        lemma_terms_empty(ws, n - 1);
        if has_alnum(ws[n - 1]) {
            lemma_prefix_term_nonempty(ws[n - 1]);
        }
    }
}

fn words_of(s: &Vec<char>) -> (r: Vec<Vec<char>>)
    ensures
        r@.map_values(|w: Vec<char>| w@) == words(s@),
{
    let mut done: Vec<Vec<char>> = Vec::new();
    let mut cur: Vec<char> = Vec::new();
    let mut i: usize = 0;
    while i < s.len()
        invariant
            i <= s@.len(),
            words_state(s@, i as int) == (done@.map_values(|w: Vec<char>| w@), cur@),
        decreases s@.len() - i,
    {
        let c = s[i];
        if is_whitespace(c) {
            if cur.len() > 0 {
                let ghost before = done@;
                let w = cur;
                cur = Vec::new();
                done.push(w);
                assert(done@.map_values(|w: Vec<char>| w@) =~= before.map_values(|w: Vec<char>| w@).push(
                    w@,
                ));
            }
        } else {
            cur.push(c);
        }
        i += 1;
    }
    if cur.len() > 0 {
        let ghost before = done@;
        done.push(cur);
        assert(done@.map_values(|w: Vec<char>| w@) =~= before.map_values(|w: Vec<char>| w@).push(
            cur@,
        ));
    }
    done
}

fn word_has_alnum(w: &Vec<char>) -> (r: bool)
    ensures
        r == has_alnum(w@),
{
    let mut i: usize = 0;
    while i < w.len()
        invariant
            i <= w@.len(),
            forall|k: int| 0 <= k < i ==> !alphanumeric(#[trigger] w@[k]),
        decreases w@.len() - i,
    {
        if is_alphanumeric(w[i]) {
            return true;
        }
        i += 1;
    }
    false
}

fn push_prefix_term(out: &mut Vec<char>, w: &Vec<char>)
    ensures
        final(out)@ == old(out)@ + prefix_term(w@),
{
    let ghost start = out@;
    out.push('"');
    let mut i: usize = 0;
    while i < w.len()
        invariant
            i <= w@.len(),
            out@ == start + seq!['"'] + escape_quotes(w@.take(i as int)),
        decreases w@.len() - i,
    {
        let c = w[i];
        assert(w@.take(i + 1).drop_last() =~= w@.take(i as int));
        if c == '"' {
            out.push('"');
            out.push('"');
        } else {
            out.push(c);
        }
        i += 1;
        assert(out@ =~= start + seq!['"'] + escape_quotes(w@.take(i as int)));
    }
    assert(w@.take(w@.len() as int) =~= w@);
    out.push('"');
    out.push('*');
    assert(out@ =~= start + prefix_term(w@));
}

/// Build a safe FTS5 MATCH expression from free-form user input: each word
/// with a letter or digit becomes a quoted prefix term restricted to
/// `column`. `None` when there are no usable words.
pub fn fts_match_expr(input: &str, column: &str) -> (r: Option<String>)
    ensures
        match r {
            Some(e) => match_expr_spec(input@, column@) == Some(e@),
            None => match_expr_spec(input@, column@).is_none(),
        },
{
    let ws = words_of(&chars_of(input));
    let ghost wv = ws@.map_values(|w: Vec<char>| w@);
    let mut terms: Vec<char> = Vec::new();
    let mut k: usize = 0;
    while k < ws.len()
        invariant
            k <= ws@.len(),
            wv == ws@.map_values(|w: Vec<char>| w@),
            terms@ == terms_upto(wv, k as int),
        decreases ws@.len() - k,
    {
        assert(ws@[k as int]@ == wv[k as int]);
        if word_has_alnum(&ws[k]) {
            if terms.len() > 0 {
                terms.push(' ');
            }
            push_prefix_term(&mut terms, &ws[k]);
        }
        k += 1;
    }
    if terms.len() == 0 {
        return None;
    }
    let mut e = chars_of(column);
    e.push(' ');
    e.push(':');
    e.push(' ');
    e.push('(');
    append_chars(&mut e, &terms);
    e.push(')');
    assert(e@ =~= column@ + seq![' ', ':', ' ', '('] + terms@ + seq![')']);
    Some(string_of(&e))
}

/// No expression is produced exactly when no word of the input has a letter
/// or digit; every produced expression is restricted to the column.
pub proof fn law_match_expr_some_iff_usable_word(input: Seq<char>, column: Seq<char>)
    ensures
        match_expr_spec(input, column).is_none() <==> forall|k: int|
            0 <= k < words(input).len() ==> !has_alnum(#[trigger] words(input)[k]),
        match_expr_spec(input, column) matches Some(e) ==> e.take(column.len() as int) == column,
{
    lemma_terms_empty(words(input), words(input).len() as int);
    if let Some(e) = match_expr_spec(input, column) {
        assert(e.take(column.len() as int) =~= column);
    }
}


proof fn lemma_words_state_of_word(w: Seq<char>, n: int)
    requires
        0 <= n <= w.len(),
        forall|i: int| 0 <= i < w.len() ==> !is_ws(#[trigger] w[i]),
    ensures
        words_state(w, n) == (Seq::<Seq<char>>::empty(), w.take(n)),
    decreases n,
{
    if n > 0 {
        lemma_words_state_of_word(w, n - 1);
        assert(w.take(n - 1).push(w[n - 1]) =~= w.take(n));
    }
}

proof fn lemma_escape_without_quotes(w: Seq<char>)
    requires
        forall|i: int| 0 <= i < w.len() ==> #[trigger] w[i] != '"',
    ensures
        escape_quotes(w) == w,
    decreases w.len(),
{
    if w.len() > 0 {
        lemma_escape_without_quotes(w.drop_last());
        assert(w.drop_last() + seq![w.last()] =~= w);
    }
}

/// A single word with a letter or digit and no quote becomes the one prefix
/// term `column : ("word"*)`.
pub proof fn law_single_word_expr(word: Seq<char>, column: Seq<char>)
    requires
        has_alnum(word),
        forall|i: int| 0 <= i < word.len() ==> !is_ws(#[trigger] word[i]) && word[i] != '"',
    ensures
        match_expr_spec(word, column) == Some(
            column + seq![' ', ':', ' ', '(', '"'] + word + seq!['"', '*', ')'],
        ),
{
    lemma_words_state_of_word(word, word.len() as int);
    assert(word.take(word.len() as int) =~= word);
    assert(word.len() > 0);
    let ws = words(word);
    assert(ws =~= seq![word]);
    assert(terms_upto(ws, 0).len() == 0);
    assert(terms_upto(ws, 1) == prefix_term(word));
    lemma_escape_without_quotes(word);
    assert(column + seq![' ', ':', ' ', '('] + prefix_term(word) + seq![')'] =~= column + seq![
        ' ',
        ':',
        ' ',
        '(',
        '"',
    ] + word + seq!['"', '*', ')']);
}

} // verus!
