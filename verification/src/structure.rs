//! Turning raw file and folder names into ordered, cleaned titles.

use vstd::prelude::*;
use crate::text::{
    all_digits, chars_of, digits_to_i64, digits_value, is_ascii_digit, is_ascii_whitespace_char,
    is_ascii_ws, is_digit, is_trimmed, lemma_trim_is_trimmed, lowercase, slice_chars, string_of,
    contains_run, decimal, is_ws, lemma_decimal, lemma_digits_canonical, lemma_digits_value_drop_zero,
    lemma_digits_value_zero, lemma_trim_of_trimmed,
    to_lowercase, trim, trim_chars,
};

verus! {

// ---------------------------------------------------------------------------
// Scanning helpers over character sequences
// ---------------------------------------------------------------------------

/// First index at or after `i` that holds an ASCII digit (or the length).
pub open spec fn skip_non_digits(s: Seq<char>, i: int) -> int
    decreases s.len() - i,
{
    if 0 <= i < s.len() && !is_digit(s[i]) {
        skip_non_digits(s, i + 1)
    } else {
        i
    }
}

/// First index at or after `i` that does not hold an ASCII digit.
pub open spec fn skip_digits(s: Seq<char>, i: int) -> int
    decreases s.len() - i,
{
    if 0 <= i < s.len() && is_digit(s[i]) {
        skip_digits(s, i + 1)
    } else {
        i
    }
}

/// First index at or after `i` that does not hold ASCII white space.
pub open spec fn skip_ascii_ws(s: Seq<char>, i: int) -> int
    decreases s.len() - i,
{
    if 0 <= i < s.len() && is_ascii_ws(s[i]) {
        skip_ascii_ws(s, i + 1)
    } else {
        i
    }
}

/// The separators that may follow a numeric prefix in a title.
pub open spec fn is_title_sep(c: char) -> bool {
    c == ' ' || c == '.' || c == '-' || c == '_' || c == ')' || c == ']' || c == ':' || c == '\t'
        || c == '|'
}

/// First index at or after `i` that does not hold a title separator.
pub open spec fn skip_seps(s: Seq<char>, i: int) -> int
    decreases s.len() - i,
{
    if 0 <= i < s.len() && is_title_sep(s[i]) {
        skip_seps(s, i + 1)
    } else {
        i
    }
}

/// Index of the last `.` among the first `j` characters, or -1.
pub open spec fn last_dot_before(s: Seq<char>, j: int) -> int
    decreases j,
{
    if j <= 0 || j > s.len() {
        -1
    } else if s[j - 1] == '.' {
        j - 1
    } else {
        last_dot_before(s, j - 1)
    }
}

/// Index of the last `.` in `s`, or -1.
pub open spec fn last_dot(s: Seq<char>) -> int {
    last_dot_before(s, s.len() as int)
}

// ---------------------------------------------------------------------------
// leading_number
// ---------------------------------------------------------------------------

/// The first run of ASCII digits in `s`, as an integer; `None` when there is
/// no digit, or when the run's value does not fit in an `i64`.
pub open spec fn leading_number_spec(s: Seq<char>) -> Option<int> {
    let a = skip_non_digits(s, 0);
    let b = skip_digits(s, a);
    if a == b {
        None
    } else if digits_value(s.subrange(a, b)) <= i64::MAX {
        Some(digits_value(s.subrange(a, b)) as int)
    } else {
        None
    }
}

/// First integer appearing in a name (`"01 - Intro"` → 1, `"Section 3"` → 3).
/// `None` when there are no digits.
pub fn leading_number(name: &str) -> (r: Option<i64>)
    ensures
        r matches Some(n) ==> leading_number_spec(name@) == Some(n as int),
        r is None ==> leading_number_spec(name@) is None,
{
    let v = chars_of(name);
    leading_number_chars(&v)
}

pub fn leading_number_chars(v: &Vec<char>) -> (r: Option<i64>)
    ensures
        r matches Some(n) ==> leading_number_spec(v@) == Some(n as int),
        r is None ==> leading_number_spec(v@) is None,
{
    let mut i: usize = 0;
    while i < v.len() && !is_ascii_digit(v[i])
        invariant
            i <= v.len(),
            skip_non_digits(v@, 0) == skip_non_digits(v@, i as int),
        decreases v.len() - i,
    {
        i += 1;
    }
    let start = i;
    while i < v.len() && is_ascii_digit(v[i])
        invariant
            start <= i <= v.len(),
            start == skip_non_digits(v@, 0),
            skip_digits(v@, start as int) == skip_digits(v@, i as int),
            all_digits(v@.subrange(start as int, i as int)),
        decreases v.len() - i,
    {
        assert(v@.subrange(start as int, i + 1) =~= v@.subrange(start as int, i as int).push(
            v@[i as int],
        ));
        i += 1;
    }
    if start == i {
        None
    } else {
        digits_to_i64(v, start, i)
    }
}

// ---------------------------------------------------------------------------
// clean_title
// ---------------------------------------------------------------------------

/// The name without its extension: everything before the last `.`, unless
/// that dot is the first character (or there is none).
pub open spec fn title_stem(s: Seq<char>) -> Seq<char> {
    let d = last_dot(s);
    if d > 0 {
        s.subrange(0, d)
    } else {
        s
    }
}

/// Display title: drop the extension, then strip a leading numeric prefix and
/// the separators after it; finally trim white space. A numeric prefix with
/// no separator after it is kept (`"1984"` stays `"1984"`).
pub open spec fn clean_title_spec(name: Seq<char>) -> Seq<char> {
    let stem = title_stem(name);
    let i0 = skip_ascii_ws(stem, 0);
    let i = skip_digits(stem, i0);
    let k = skip_seps(stem, i);
    if i > i0 && k > i {
        trim(stem.subrange(k, stem.len() as int))
    } else {
        trim(stem)
    }
}

/// Display title: drop the extension, then strip a leading numeric prefix and
/// its separator (`"001 Welcome.mp4"` → `"Welcome"`, `"1 - Intro"` → `"Intro"`).
/// Leaves numeric-only titles like `"1984"` intact (no separator follows).
pub fn clean_title(file_name: &str) -> (r: String)
    ensures
        r@ == clean_title_spec(file_name@),
        is_trimmed(r@),
{
    let v = chars_of(file_name);
    let t = clean_title_chars(&v);
    string_of(&t)
}

/// The name without its extension.
pub fn title_stem_chars(v: &Vec<char>) -> (r: Vec<char>)
    ensures
        r@ == title_stem(v@),
{
    let mut j: usize = v.len();
    while j > 0 && v[j - 1] != '.'
        invariant
            j <= v.len(),
            last_dot(v@) == last_dot_before(v@, j as int),
        decreases j,
    {
        j -= 1;
    }
    let stem_end: usize = if j > 1 {
        j - 1
    } else {
        v.len()
    };
    let stem = slice_chars(v, 0, stem_end);
    assert(stem@ == title_stem(v@)) by {
        if j > 1 {
            assert(last_dot(v@) == j - 1);
        } else {
            assert(last_dot(v@) <= 0);
            assert(v@.subrange(0, v.len() as int) =~= v@);
        }
    }
    stem
}

pub fn clean_title_chars(v: &Vec<char>) -> (r: Vec<char>)
    ensures
        r@ == clean_title_spec(v@),
        is_trimmed(r@),
{
    let stem = title_stem_chars(v);
    let mut i: usize = 0;
    while i < stem.len() && is_ascii_whitespace_char(stem[i])
        invariant
            i <= stem.len(),
            skip_ascii_ws(stem@, 0) == skip_ascii_ws(stem@, i as int),
        decreases stem.len() - i,
    {
        i += 1;
    }
    let digits_start = i;
    while i < stem.len() && is_ascii_digit(stem[i])
        invariant
            digits_start <= i <= stem.len(),
            skip_digits(stem@, digits_start as int) == skip_digits(stem@, i as int),
        decreases stem.len() - i,
    {
        i += 1;
    }
    let mut k = i;
    while k < stem.len() && is_sep_char(stem[k])
        invariant
            i <= k <= stem.len(),
            skip_seps(stem@, i as int) == skip_seps(stem@, k as int),
        decreases stem.len() - k,
    {
        k += 1;
    }
    let r = if i > digits_start && k > i {
        let rest = slice_chars(&stem, k, stem.len());
        trim_chars(&rest)
    } else {
        trim_chars(&stem)
    };
    proof {
        lemma_trim_is_trimmed(stem@.subrange(k as int, stem@.len() as int));
        lemma_trim_is_trimmed(stem@);
    }
    r
}

pub fn is_sep_char(c: char) -> (b: bool)
    ensures
        b == is_title_sep(c),
{
    c == ' ' || c == '.' || c == '-' || c == '_' || c == ')' || c == ']' || c == ':' || c == '\t'
        || c == '|'
}

// ---------------------------------------------------------------------------
// sort_key
// ---------------------------------------------------------------------------

/// The sort key of a name: numbered names first (by number), unnumbered
/// after, and the lower-cased name as the tiebreak.
pub open spec fn sort_key_spec(s: Seq<char>) -> (bool, int, Seq<char>) {
    let n = leading_number_spec(s);
    (
        n is None,
        match n {
            Some(x) => x,
            None => 0,
        },
        lowercase(s),
    )
}

/// Sort key: numbered items first (ascending), unnumbered after, alphabetical
/// as the tiebreak. Use with `sort_by_key`.
pub fn sort_key(name: &str) -> (r: (bool, i64, String))
    ensures
        r.0 == sort_key_spec(name@).0,
        r.1 == sort_key_spec(name@).1,
        r.2@ == sort_key_spec(name@).2,
{
    let v = chars_of(name);
    let (b, n, low) = sort_key_chars(&v);
    (b, n, string_of(&low))
}

pub fn sort_key_chars(v: &Vec<char>) -> (r: (bool, i64, Vec<char>))
    ensures
        r.0 == sort_key_spec(v@).0,
        r.1 == sort_key_spec(v@).1,
        r.2@ == sort_key_spec(v@).2,
{
    let n = leading_number_chars(v);
    let low = to_lowercase(v);
    match n {
        Some(x) => (false, x, low),
        None => (true, 0, low),
    }
}

} // verus!

verus! {

// ---------------------------------------------------------------------------
// Ordering of sort keys
// ---------------------------------------------------------------------------

/// Lexicographic order on character sequences by code point, which is the
/// order of `String`'s `Ord` (UTF-8 preserves code point order).
pub open spec fn chars_lt(a: Seq<char>, b: Seq<char>) -> bool
    decreases a.len(),
{
    if a.len() == 0 {
        b.len() > 0
    } else if b.len() == 0 {
        false
    } else if (a[0] as u32) < (b[0] as u32) {
        true
    } else if a[0] == b[0] {
        chars_lt(a.drop_first(), b.drop_first())
    } else {
        false
    }
}

/// The tuple order of `(bool, i64, String)` keys.
pub open spec fn key_lt(a: (bool, int, Seq<char>), b: (bool, int, Seq<char>)) -> bool {
    ||| (!a.0 && b.0)
    ||| (a.0 == b.0 && a.1 < b.1)
    ||| (a.0 == b.0 && a.1 == b.1 && chars_lt(a.2, b.2))
}

/// `a < b` on character vectors, by code point.
pub fn chars_less(a: &Vec<char>, b: &Vec<char>) -> (r: bool)
    ensures
        r == chars_lt(a@, b@),
{
    let mut i: usize = 0;
    assert(a@.skip(0) =~= a@);
    assert(b@.skip(0) =~= b@);
    while i < a.len() && i < b.len() && a[i] == b[i]
        invariant
            i <= a.len(),
            i <= b.len(),
            chars_lt(a@, b@) == chars_lt(a@.skip(i as int), b@.skip(i as int)),
        decreases a.len() - i,
    {
        assert(a@.skip(i as int).drop_first() =~= a@.skip(i + 1));
        assert(b@.skip(i as int).drop_first() =~= b@.skip(i + 1));
        i += 1;
    }
    if i == a.len() {
        i < b.len()
    } else if i == b.len() {
        false
    } else {
        (a[i] as u32) < (b[i] as u32)
    }
}

/// The order of `sort_key` results.
pub fn key_less(a: &(bool, i64, Vec<char>), b: &(bool, i64, Vec<char>)) -> (r: bool)
    ensures
        r == key_lt((a.0, a.1 as int, a.2@), (b.0, b.1 as int, b.2@)),
{
    if !a.0 && b.0 {
        true
    } else if a.0 != b.0 {
        false
    } else if a.1 < b.1 {
        true
    } else if a.1 != b.1 {
        false
    } else {
        chars_less(&a.2, &b.2)
    }
}

// ---------------------------------------------------------------------------
// Laws
// ---------------------------------------------------------------------------

pub proof fn lemma_skip_digits_to(s: Seq<char>, i: int, j: int)
    requires
        0 <= i <= j <= s.len(),
        forall|k: int| i <= k < j ==> is_digit(#[trigger] s[k]),
        j == s.len() || !is_digit(s[j]),
    ensures
        skip_digits(s, i) == j,
    decreases j - i,
{
    if i < j {
        lemma_skip_digits_to(s, i + 1, j);
    }
}

pub proof fn lemma_skip_digits_bounds(s: Seq<char>, i: int)
    requires
        0 <= i <= s.len(),
    ensures
        i <= skip_digits(s, i) <= s.len(),
        forall|k: int| i <= k < skip_digits(s, i) ==> is_digit(#[trigger] s[k]),
    decreases s.len() - i,
{
    if i < s.len() && is_digit(s[i]) {
        lemma_skip_digits_bounds(s, i + 1);
    }
}

pub proof fn lemma_skip_non_digits_bounds(s: Seq<char>, i: int)
    requires
        0 <= i <= s.len(),
    ensures
        i <= skip_non_digits(s, i) <= s.len(),
    decreases s.len() - i,
{
    if i < s.len() && !is_digit(s[i]) {
        lemma_skip_non_digits_bounds(s, i + 1);
    }
}

/// First index at or after `i` that does not hold `'0'`.
pub open spec fn skip_zeros(s: Seq<char>, i: int) -> int
    decreases s.len() - i,
{
    if 0 <= i < s.len() && s[i] == '0' {
        skip_zeros(s, i + 1)
    } else {
        i
    }
}

proof fn lemma_strip_zeros(r: Seq<char>, i: int)
    requires
        0 <= i <= r.len(),
        all_digits(r),
    ensures
        i <= skip_zeros(r, i) <= r.len(),
        skip_zeros(r, i) < r.len() ==> r[skip_zeros(r, i)] != '0',
        digits_value(r.subrange(i, r.len() as int)) == digits_value(
            r.subrange(skip_zeros(r, i), r.len() as int),
        ),
    decreases r.len() - i,
{
    if i < r.len() && r[i] == '0' {
        let t = r.subrange(i, r.len() as int);
        assert(all_digits(t)) by {
            assert forall|k: int| 0 <= k < t.len() implies is_digit(#[trigger] t[k]) by {
                assert(t[k] == r[i + k]);
            }
        }
        lemma_digits_value_drop_zero(t);
        assert(t.drop_first() =~= r.subrange(i + 1, r.len() as int));
        lemma_strip_zeros(r, i + 1);
    }
}

/// A pure decimal string parses back to exactly its number.
pub proof fn law_leading_number_of_decimal(n: nat)
    requires
        n <= i64::MAX,
    ensures
        leading_number_spec(decimal(n)) == Some(n as int),
{
    lemma_decimal(n);
    let d = decimal(n);
    assert(is_digit(d[0]));
    assert(skip_non_digits(d, 0) == 0);
    lemma_skip_digits_to(d, 0, d.len() as int);
    assert(d.subrange(0, d.len() as int) =~= d);
}

/// When a name has a leading number, that number's decimal representation
/// occurs in the name.
pub proof fn law_leading_number_occurs(s: Seq<char>)
    ensures
        leading_number_spec(s) matches Some(n) ==> contains_run(s, decimal(n as nat)),
{
    let a = skip_non_digits(s, 0);
    lemma_skip_non_digits_bounds(s, 0);
    let b = skip_digits(s, a);
    lemma_skip_digits_bounds(s, a);
    if let Some(n) = leading_number_spec(s) {
        let r = s.subrange(a, b);
        assert(all_digits(r)) by {
            assert forall|k: int| 0 <= k < r.len() implies is_digit(#[trigger] r[k]) by {
                assert(r[k] == s[a + k]);
            }
        }
        assert(digits_value(r) == n);
        if n == 0 {
            lemma_digits_value_zero(r);
            assert(decimal(0) =~= seq!['0']);
            assert(s.subrange(b - 1, b) =~= seq!['0']);
            assert(s.subrange(b - 1, (b - 1) + decimal(0).len()) == decimal(0));
        } else {
            lemma_strip_zeros(r, 0);
            assert(r.subrange(0, r.len() as int) =~= r);
            let z = skip_zeros(r, 0);
            let t = r.subrange(z, r.len() as int);
            if z == r.len() {
                assert(t.len() == 0);
                assert(digits_value(t) == 0);
            }
            assert(z < r.len());
            assert(t[0] != '0');
            assert(all_digits(t)) by {
                assert forall|k: int| 0 <= k < t.len() implies is_digit(#[trigger] t[k]) by {
                    assert(t[k] == r[z + k]);
                }
            }
            lemma_digits_canonical(t);
            assert(decimal(n as nat) == t);
            assert(s.subrange(a + z, b) =~= t);
            assert(s.subrange(a + z, (a + z) + decimal(n as nat).len()) == decimal(n as nat));
        }
    }
}

pub open spec fn is_ascii_letter(c: char) -> bool {
    ('a' <= c && c <= 'z') || ('A' <= c && c <= 'Z')
}

/// `"<n> <word>.mp4"` with an alphabetic word cleans to just the word.
pub proof fn law_clean_title_strips_numeric_prefix(n: nat, word: Seq<char>)
    requires
        word.len() >= 1,
        forall|i: int| 0 <= i < word.len() ==> is_ascii_letter(#[trigger] word[i]),
    ensures
        clean_title_spec(decimal(n) + seq![' '] + word + seq!['.', 'm', 'p', '4']) == word,
{
    lemma_decimal(n);
    let d = decimal(n);
    let name = d + seq![' '] + word + seq!['.', 'm', 'p', '4'];
    let len = name.len() as int;
    let dot = len - 4;
    assert(name[len - 1] == '4');
    assert(name[len - 2] == 'p');
    assert(name[len - 3] == 'm');
    assert(name[dot] == '.');
    assert(last_dot_before(name, len) == last_dot_before(name, len - 1));
    assert(last_dot_before(name, len - 1) == last_dot_before(name, len - 2));
    assert(last_dot_before(name, len - 2) == last_dot_before(name, len - 3));
    assert(last_dot_before(name, len - 3) == dot);
    let stem = name.subrange(0, dot);
    assert(stem =~= d + seq![' '] + word);
    assert(title_stem(name) == stem);
    assert(stem[0] == d[0]);
    assert(skip_ascii_ws(stem, 0) == 0);
    assert(stem[d.len() as int] == ' ');
    assert forall|k: int| 0 <= k < d.len() implies is_digit(#[trigger] stem[k]) by {
        assert(stem[k] == d[k]);
    }
    lemma_skip_digits_to(stem, 0, d.len() as int);
    let i = d.len() as int;
    assert(stem[i + 1] == word[0]);
    assert(!is_title_sep(word[0]));
    assert(skip_seps(stem, i + 1) == i + 1);
    assert(skip_seps(stem, i) == i + 1);
    assert(stem.subrange(i + 1, stem.len() as int) =~= word);
    assert(!is_ws(word[0]) && !is_ws(word[word.len() - 1]));
    lemma_trim_of_trimmed(word);
}

/// Sorting by `sort_key` puts every numbered name before every unnumbered
/// one, and numbered names in non-decreasing order of their numbers.
pub proof fn law_sort_key_numbered_first(a: Seq<char>, b: Seq<char>)
    ensures
        !key_lt(sort_key_spec(b), sort_key_spec(a)) ==> {
            &&& (leading_number_spec(a) is None ==> leading_number_spec(b) is None)
            &&& (leading_number_spec(a) is Some && leading_number_spec(b) is Some
                ==> leading_number_spec(a)->0 <= leading_number_spec(b)->0)
        },
{
}

/// A cleaned title never starts or ends with white space.
pub proof fn law_clean_title_is_trimmed(name: Seq<char>)
    ensures
        is_trimmed(clean_title_spec(name)),
        trim(clean_title_spec(name)) == clean_title_spec(name),
{
    let stem = title_stem(name);
    let i0 = skip_ascii_ws(stem, 0);
    let i = skip_digits(stem, i0);
    let k = skip_seps(stem, i);
    if i > i0 && k > i {
        lemma_trim_is_trimmed(stem.subrange(k, stem.len() as int));
    } else {
        lemma_trim_is_trimmed(stem);
    }
    lemma_trim_of_trimmed(clean_title_spec(name));
}

} // verus!
