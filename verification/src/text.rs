//! Character-level helpers shared by the parsers: whitespace, digits,
//! trimming, decimal numbers and conversions between `&str`, `Vec<char>`
//! and `String`.

use vstd::prelude::*;

verus! {

broadcast use vstd::string::axiom_spec_iter;

// ---------------------------------------------------------------------------
// Character classes
// ---------------------------------------------------------------------------

/// Unicode `White_Space`, the property behind `char::is_whitespace`.
pub open spec fn is_ws(c: char) -> bool {
    ||| ('\u{9}' <= c && c <= '\u{d}')
    ||| c == ' '
    ||| c == '\u{85}'
    ||| c == '\u{a0}'
    ||| c == '\u{1680}'
    ||| ('\u{2000}' <= c && c <= '\u{200a}')
    ||| c == '\u{2028}'
    ||| c == '\u{2029}'
    ||| c == '\u{202f}'
    ||| c == '\u{205f}'
    ||| c == '\u{3000}'
}

/// ASCII white space in the sense of `char::is_whitespace` restricted to
/// ASCII (tab, line feed, vertical tab, form feed, carriage return, space).
pub open spec fn is_ascii_ws(c: char) -> bool {
    ('\u{9}' <= c && c <= '\u{d}') || c == ' '
}

pub open spec fn is_digit(c: char) -> bool {
    '0' <= c && c <= '9'
}

pub open spec fn is_ascii_char(c: char) -> bool {
    (c as u32) < 128
}

pub open spec fn all_ascii(s: Seq<char>) -> bool {
    forall|i: int| 0 <= i < s.len() ==> is_ascii_char(#[trigger] s[i])
}

pub open spec fn ascii_lower_char(c: char) -> char {
    if 'A' <= c && c <= 'Z' {
        ((c as u32) + 32) as char
    } else {
        c
    }
}

pub open spec fn ascii_lower(s: Seq<char>) -> Seq<char> {
    s.map_values(|c: char| ascii_lower_char(c))
}

pub fn is_whitespace(c: char) -> (b: bool)
    ensures
        b == is_ws(c),
{
    ('\u{9}' <= c && c <= '\u{d}') || c == ' ' || c == '\u{85}' || c == '\u{a0}' || c == '\u{1680}'
        || ('\u{2000}' <= c && c <= '\u{200a}') || c == '\u{2028}' || c == '\u{2029}' || c
        == '\u{202f}' || c == '\u{205f}' || c == '\u{3000}'
}

pub fn is_ascii_whitespace_char(c: char) -> (b: bool)
    ensures
        b == is_ascii_ws(c),
{
    ('\u{9}' <= c && c <= '\u{d}') || c == ' '
}

pub fn is_ascii_digit(c: char) -> (b: bool)
    ensures
        b == is_digit(c),
{
    '0' <= c && c <= '9'
}

pub open spec fn digit_value(c: char) -> int {
    (c as u32) - ('0' as u32)
}

// ---------------------------------------------------------------------------
// Conversions
// ---------------------------------------------------------------------------

/// The characters of `s`, in order.
pub fn chars_of(s: &str) -> (v: Vec<char>)
    ensures
        v@ == s@,
{
    let mut v: Vec<char> = Vec::new();
    for c in it: s.chars()
        invariant
            v@ == it.seq().take(it.index() as int),
    {
        v.push(c);
    }
    v
}

/// `String::push`: appends one character.
#[verifier::external_body]
pub fn push_char(s: &mut String, c: char)
    ensures
        final(s)@ == old(s)@.push(c),
{
    s.push(c);
}

/// A `String` holding exactly the characters of `v`.
pub fn string_of(v: &Vec<char>) -> (s: String)
    ensures
        s@ == v@,
{
    let mut s = String::new();
    let mut i: usize = 0;
    while i < v.len()
        invariant
            i <= v.len(),
            s@ == v@.take(i as int),
        decreases v.len() - i,
    {
        push_char(&mut s, v[i]);
        assert(v@.take(i as int).push(v@[i as int]) =~= v@.take(i + 1));
        i += 1;
    }
    assert(v@.take(v.len() as int) =~= v@);
    s
}

/// The characters `v[a..b]`.
pub fn slice_chars(v: &Vec<char>, a: usize, b: usize) -> (r: Vec<char>)
    requires
        a <= b <= v.len(),
    ensures
        r@ == v@.subrange(a as int, b as int),
{
    let mut r: Vec<char> = Vec::new();
    let mut i = a;
    while i < b
        invariant
            a <= i <= b <= v.len(),
            r@ == v@.subrange(a as int, i as int),
        decreases b - i,
    {
        r.push(v[i]);
        assert(v@.subrange(a as int, i as int).push(v@[i as int]) =~= v@.subrange(
            a as int,
            i + 1,
        ));
        i += 1;
    }
    r
}

/// `v` followed by the characters of `s`.
pub fn append_chars(v: &mut Vec<char>, s: &Vec<char>)
    ensures
        final(v)@ == old(v)@ + s@,
{
    let ghost start = v@;
    let mut i: usize = 0;
    while i < s.len()
        invariant
            i <= s.len(),
            v@ == start + s@.take(i as int),
        decreases s.len() - i,
    {
        v.push(s[i]);
        assert(start + s@.take(i as int).push(s@[i as int]) =~= start + s@.take(i + 1));
        i += 1;
    }
    assert(s@.take(s.len() as int) =~= s@);
}


/// Whether `v` holds exactly the characters of `lit`.
pub fn eq_chars(v: &Vec<char>, lit: &[char]) -> (r: bool)
    ensures
        r == (v@ == lit@),
{
    if v.len() != lit.len() {
        return false;
    }
    let mut i: usize = 0;
    while i < v.len()
        invariant
            i <= v.len() == lit@.len(),
            forall|k: int| 0 <= k < i ==> v@[k] == lit@[k],
        decreases v.len() - i,
    {
        if v[i] != lit[i] {
            return false;
        }
        i += 1;
    }
    assert(v@ =~= lit@);
    true
}

pub fn chars_eq(a: &Vec<char>, b: &Vec<char>) -> (r: bool)
    ensures
        r == (a@ == b@),
{
    if a.len() != b.len() {
        return false;
    }
    let mut i: usize = 0;
    while i < a.len()
        invariant
            i <= a.len() == b.len(),
            forall|k: int| 0 <= k < i ==> a@[k] == b@[k],
        decreases a.len() - i,
    {
        if a[i] != b[i] {
            return false;
        }
        i += 1;
    }
    assert(a@ =~= b@);
    true
}

/// The lower-case form of a string, as `str::to_lowercase` computes it
/// (Unicode `Lowercase` mapping).
pub uninterp spec fn lowercase(s: Seq<char>) -> Seq<char>;

/// Calls `str::to_lowercase`. Claimed of it: the result is the named
/// function `lowercase` of the characters, and on ASCII-only input it maps
/// `A`..`Z` to `a`..`z` and keeps every other character. Nothing more is
/// stated of non-ASCII input.
#[verifier::external_body]
pub fn to_lowercase(v: &Vec<char>) -> (r: Vec<char>)
    ensures
        r@ == lowercase(v@),
        all_ascii(v@) ==> r@ == ascii_lower(v@),
{
    let s: String = v.iter().collect();
    s.to_lowercase().chars().collect()
}


// ---------------------------------------------------------------------------
// Searching
// ---------------------------------------------------------------------------

/// Index of the first `c` at or after `i`, or the length.
pub open spec fn find_from(s: Seq<char>, c: char, i: int) -> int
    decreases s.len() - i,
{
    if i < 0 || i >= s.len() {
        s.len() as int
    } else if s[i] == c {
        i
    } else {
        find_from(s, c, i + 1)
    }
}

/// Index of the last `c` among the first `j` characters, or -1.
pub open spec fn last_of(s: Seq<char>, c: char, j: int) -> int
    decreases j,
{
    if j <= 0 || j > s.len() {
        -1
    } else if s[j - 1] == c {
        j - 1
    } else {
        last_of(s, c, j - 1)
    }
}

pub proof fn lemma_find_from(s: Seq<char>, c: char, i: int)
    requires
        0 <= i <= s.len(),
    ensures
        i <= find_from(s, c, i) <= s.len(),
        find_from(s, c, i) < s.len() ==> s[find_from(s, c, i)] == c,
        forall|k: int| i <= k < find_from(s, c, i) ==> s[k] != c,
    decreases s.len() - i,
{
    if i < s.len() && s[i] != c {
        lemma_find_from(s, c, i + 1);
    }
}

pub proof fn lemma_last_of(s: Seq<char>, c: char, j: int)
    requires
        0 <= j <= s.len(),
    ensures
        -1 <= last_of(s, c, j) < j,
        last_of(s, c, j) >= 0 ==> s[last_of(s, c, j)] == c,
        forall|k: int| last_of(s, c, j) < k < j ==> s[k] != c,
    decreases j,
{
    if j > 0 && s[j - 1] != c {
        lemma_last_of(s, c, j - 1);
    }
}

/// Index of the first `c` in `v` at or after `from`, or the length.
pub fn find_char(v: &Vec<char>, c: char, from: usize) -> (r: usize)
    requires
        from <= v.len(),
    ensures
        r == find_from(v@, c, from as int),
        from <= r <= v.len(),
{
    let mut i = from;
    while i < v.len() && v[i] != c
        invariant
            from <= i <= v.len(),
            find_from(v@, c, from as int) == find_from(v@, c, i as int),
        decreases v.len() - i,
    {
        i += 1;
    }
    i
}

/// Index of the last `c` among `v[..j]`, if any.
pub fn last_char_before(v: &Vec<char>, c: char, j: usize) -> (r: Option<usize>)
    requires
        j <= v.len(),
    ensures
        r matches Some(k) ==> last_of(v@, c, j as int) == k,
        r is None ==> last_of(v@, c, j as int) == -1,
{
    let mut i = j;
    while i > 0 && v[i - 1] != c
        invariant
            i <= j <= v.len(),
            last_of(v@, c, j as int) == last_of(v@, c, i as int),
        decreases i,
    {
        i -= 1;
    }
    if i == 0 {
        None
    } else {
        Some(i - 1)
    }
}

// ---------------------------------------------------------------------------
// Trimming
// ---------------------------------------------------------------------------

/// First index at or after `i` that does not hold white space.
pub open spec fn skip_ws(s: Seq<char>, i: int) -> int
    decreases s.len() - i,
{
    if 0 <= i < s.len() && is_ws(s[i]) {
        skip_ws(s, i + 1)
    } else {
        i
    }
}

/// One past the last index before `j` that does not hold white space.
pub open spec fn skip_ws_back(s: Seq<char>, j: int) -> int
    decreases j,
{
    if 0 < j <= s.len() && is_ws(s[j - 1]) {
        skip_ws_back(s, j - 1)
    } else {
        j
    }
}

/// `str::trim`: the string without leading and trailing white space.
pub open spec fn trim(s: Seq<char>) -> Seq<char> {
    let a = skip_ws(s, 0);
    let b = skip_ws_back(s, s.len() as int);
    if a < b {
        s.subrange(a, b)
    } else {
        Seq::empty()
    }
}

pub open spec fn is_trimmed(s: Seq<char>) -> bool {
    s.len() == 0 || (!is_ws(s[0]) && !is_ws(s[s.len() - 1]))
}

pub proof fn lemma_skip_ws_bounds(s: Seq<char>, i: int)
    requires
        0 <= i <= s.len(),
    ensures
        i <= skip_ws(s, i) <= s.len(),
        skip_ws(s, i) < s.len() ==> !is_ws(s[skip_ws(s, i)]),
        forall|k: int| i <= k < skip_ws(s, i) ==> is_ws(#[trigger] s[k]),
    decreases s.len() - i,
{
    if i < s.len() && is_ws(s[i]) {
        lemma_skip_ws_bounds(s, i + 1);
    }
}

pub proof fn lemma_skip_ws_back_bounds(s: Seq<char>, j: int)
    requires
        0 <= j <= s.len(),
    ensures
        0 <= skip_ws_back(s, j) <= j,
        skip_ws_back(s, j) > 0 ==> !is_ws(s[skip_ws_back(s, j) - 1]),
        forall|k: int| skip_ws_back(s, j) <= k < j ==> is_ws(#[trigger] s[k]),
    decreases j,
{
    if 0 < j && is_ws(s[j - 1]) {
        lemma_skip_ws_back_bounds(s, j - 1);
    }
}

/// The result of `trim` never starts or ends with white space.
pub proof fn lemma_trim_is_trimmed(s: Seq<char>)
    ensures
        is_trimmed(trim(s)),
{
    lemma_skip_ws_bounds(s, 0);
    lemma_skip_ws_back_bounds(s, s.len() as int);
}

/// Trimming a string without outer white space leaves it unchanged.
pub proof fn lemma_trim_of_trimmed(s: Seq<char>)
    requires
        is_trimmed(s),
    ensures
        trim(s) == s,
{
    if s.len() > 0 {
        assert(skip_ws(s, 0) == 0);
        assert(skip_ws_back(s, s.len() as int) == s.len());
        assert(s.subrange(0, s.len() as int) =~= s);
    }
}

/// `str::trim` on a character vector.
pub fn trim_chars(v: &Vec<char>) -> (r: Vec<char>)
    ensures
        r@ == trim(v@),
{
    let mut a: usize = 0;
    while a < v.len() && is_whitespace(v[a])
        invariant
            a <= v.len(),
            skip_ws(v@, 0) == skip_ws(v@, a as int),
        decreases v.len() - a,
    {
        a += 1;
    }
    let mut b: usize = v.len();
    while b > 0 && is_whitespace(v[b - 1])
        invariant
            b <= v.len(),
            skip_ws_back(v@, v.len() as int) == skip_ws_back(v@, b as int),
        decreases b,
    {
        b -= 1;
    }
    if a < b {
        slice_chars(v, a, b)
    } else {
        Vec::new()
    }
}

// ---------------------------------------------------------------------------
// Decimal numbers
// ---------------------------------------------------------------------------

pub open spec fn all_digits(s: Seq<char>) -> bool {
    forall|i: int| 0 <= i < s.len() ==> is_digit(#[trigger] s[i])
}

/// The value of a run of decimal digits.
pub open spec fn digits_value(s: Seq<char>) -> nat
    decreases s.len(),
{
    if s.len() == 0 {
        0
    } else {
        (10 * digits_value(s.drop_last()) + digit_value(s.last())) as nat
    }
}


/// The digit character for `d < 10`.
pub open spec fn digit_char(d: nat) -> char {
    (d + 48) as char
}

/// The decimal representation of `n`, without leading zeros (what
/// `n.to_string()` gives for a non-negative integer).
pub open spec fn decimal(n: nat) -> Seq<char>
    decreases n,
{
    if n < 10 {
        seq![digit_char(n)]
    } else {
        decimal(n / 10).push(digit_char(n % 10))
    }
}

/// The decimal text of `n` (`n.to_string()`).
pub fn decimal_of(n: u64) -> (r: Vec<char>)
    ensures
        r@ == decimal(n as nat),
    decreases n,
{
    let d = (n % 10) as u8;
    let c = (d + 48) as char;
    assert(c == digit_char((n % 10) as nat));
    if n < 10 {
        let mut v: Vec<char> = Vec::new();
        v.push(c);
        assert(v@ =~= seq![digit_char(n as nat)]);
        v
    } else {
        let mut v = decimal_of(n / 10);
        v.push(c);
        v
    }
}

/// The decimal text of a signed integer: a `-` before the magnitude of a
/// negative one.
pub open spec fn signed_decimal(x: int) -> Seq<char> {
    if x < 0 {
        seq!['-'] + decimal((-x) as nat)
    } else {
        decimal(x as nat)
    }
}

/// `x.to_string()` for an `i64`.
pub fn signed_decimal_of(x: i64) -> (r: Vec<char>)
    ensures
        r@ == signed_decimal(x as int),
{
    if x < 0 {
        let m = (-(x as i128)) as u64;
        let mut v: Vec<char> = Vec::new();
        v.push('-');
        let d = decimal_of(m);
        append_chars(&mut v, &d);
        assert(v@ =~= seq!['-'] + decimal((-x) as nat));
        v
    } else {
        decimal_of(x as u64)
    }
}

/// `t` occurs in `s` as a contiguous run.
pub open spec fn contains_run(s: Seq<char>, t: Seq<char>) -> bool {
    exists|i: int| 0 <= i && i + t.len() <= s.len() && #[trigger] s.subrange(i, i + t.len()) == t
}

pub proof fn lemma_digit_char(d: nat)
    requires
        d < 10,
    ensures
        is_digit(digit_char(d)),
        digit_value(digit_char(d)) == d,
        d != 0 ==> digit_char(d) != '0',
{
}

pub proof fn lemma_digit_char_of(c: char)
    requires
        is_digit(c),
    ensures
        0 <= digit_value(c) < 10,
        digit_char(digit_value(c) as nat) == c,
        digit_value(c) == 0 <==> c == '0',
{
}

/// The decimal representation is a non-empty digit run without a leading
/// zero (unless it is `"0"`), whose value is `n`.
pub proof fn lemma_decimal(n: nat)
    ensures
        decimal(n).len() >= 1,
        all_digits(decimal(n)),
        digits_value(decimal(n)) == n,
        n != 0 ==> decimal(n)[0] != '0',
    decreases n,
{
    if n < 10 {
        lemma_digit_char(n);
        assert(seq![digit_char(n)].drop_last() =~= Seq::<char>::empty());
        lemma_digits_value_push(Seq::<char>::empty(), digit_char(n));
        assert(Seq::<char>::empty().push(digit_char(n)) =~= seq![digit_char(n)]);
    } else {
        lemma_decimal(n / 10);
        lemma_digit_char(n % 10);
        let d = decimal(n / 10);
        lemma_digits_value_push(d, digit_char(n % 10));
        assert(decimal(n) == d.push(digit_char(n % 10)));
        assert(d.push(digit_char(n % 10)).drop_last() =~= d);
        assert(all_digits(decimal(n))) by {
            assert forall|i: int| 0 <= i < decimal(n).len() implies is_digit(
                #[trigger] decimal(n)[i],
            ) by {
                if i < d.len() {
                    assert(decimal(n)[i] == d[i]);
                }
            }
        }
        assert(n == 10 * (n / 10) + n % 10);
    }
}

/// A digit run's value is at least one when its first digit is not zero.
pub proof fn lemma_digits_value_positive(s: Seq<char>)
    requires
        s.len() >= 1,
        all_digits(s),
        s[0] != '0',
    ensures
        digits_value(s) >= 1,
    decreases s.len(),
{
    if s.len() == 1 {
        lemma_digit_char_of(s[0]);
        assert(s.drop_last().len() == 0);
    } else {
        let dl = s.drop_last();
        assert(dl[0] == s[0]);
        assert(all_digits(dl)) by {
            assert forall|i: int| 0 <= i < dl.len() implies is_digit(#[trigger] dl[i]) by {
                assert(dl[i] == s[i]);
            }
        }
        lemma_digits_value_positive(dl);
        lemma_digit_char_of(s.last());
    }
}

/// A leading zero does not change a digit run's value.
pub proof fn lemma_digits_value_drop_zero(s: Seq<char>)
    requires
        s.len() >= 1,
        all_digits(s),
        s[0] == '0',
    ensures
        digits_value(s) == digits_value(s.drop_first()),
    decreases s.len(),
{
    if s.len() == 1 {
        assert(s.drop_last() =~= Seq::<char>::empty());
        assert(s.drop_first() =~= Seq::<char>::empty());
        assert(s.last() == '0');
        assert(digits_value(s) == 10 * digits_value(s.drop_last()) + digit_value(s.last()));
        assert(digits_value(s) == 0);
        assert(digits_value(s.drop_first()) == 0);
    } else {
        let dl = s.drop_last();
        assert(dl[0] == '0');
        assert(all_digits(dl)) by {
            assert forall|i: int| 0 <= i < dl.len() implies is_digit(#[trigger] dl[i]) by {
                assert(dl[i] == s[i]);
            }
        }
        lemma_digits_value_drop_zero(dl);
        assert(s.drop_first().drop_last() =~= dl.drop_first());
        assert(s.drop_first().last() == s.last());
        lemma_digit_char_of(s.last());
        assert(dl.push(s.last()) =~= s);
        lemma_digits_value_push(dl, s.last());
        assert(dl.drop_first().push(s.last()) =~= s.drop_first());
        lemma_digits_value_push(dl.drop_first(), s.last());
    }
}

/// A digit run whose value is zero ends in `'0'`.
pub proof fn lemma_digits_value_zero(s: Seq<char>)
    requires
        s.len() >= 1,
        all_digits(s),
        digits_value(s) == 0,
    ensures
        s.last() == '0',
{
    lemma_digit_char_of(s.last());
}

/// Leading zeros do not change a digit run's value; without them the run is
/// the decimal representation of its value.
pub proof fn lemma_digits_canonical(s: Seq<char>)
    requires
        s.len() >= 1,
        all_digits(s),
        s[0] != '0',
    ensures
        decimal(digits_value(s)) == s,
    decreases s.len(),
{
    if s.len() == 1 {
        lemma_digit_char_of(s[0]);
        assert(s.drop_last() =~= Seq::<char>::empty());
        assert(digits_value(s) == 10 * digits_value(s.drop_last()) + digit_value(s.last()));
        assert(digits_value(s) == digit_value(s[0]));
        assert(decimal(digits_value(s)) =~= s);
    } else {
        let dl = s.drop_last();
        assert(dl[0] == s[0]);
        assert(all_digits(dl)) by {
            assert forall|i: int| 0 <= i < dl.len() implies is_digit(#[trigger] dl[i]) by {
                assert(dl[i] == s[i]);
            }
        }
        lemma_digits_canonical(dl);
        lemma_digits_value_positive(dl);
        lemma_digit_char_of(s.last());
        let x = digits_value(dl);
        let d = digit_value(s.last());
        assert(digits_value(s) == 10 * x + d);
        assert((10 * x + d) / 10 == x && (10 * x + d) % 10 == d) by (nonlinear_arith)
            requires
                0 <= d < 10,
                x >= 0,
        ;
        assert(dl.push(s.last()) =~= s);
    }
}

/// `i64::from_str`: an optional `+` or `-`, then at least one ASCII digit and
/// nothing else, with a value in the range of `i64`.
pub open spec fn parse_i64_spec(s: Seq<char>) -> Option<int> {
    if s.len() == 0 {
        None
    } else {
        let neg = s[0] == '-';
        let body = if s[0] == '-' || s[0] == '+' {
            s.drop_first()
        } else {
            s
        };
        if body.len() == 0 || !all_digits(body) {
            None
        } else {
            let v: int = if neg {
                -digits_value(body)
            } else {
                digits_value(body) as int
            };
            if i64::MIN <= v <= i64::MAX {
                Some(v)
            } else {
                None
            }
        }
    }
}

pub proof fn lemma_digits_value_push(s: Seq<char>, c: char)
    requires
        is_digit(c),
    ensures
        digits_value(s.push(c)) == 10 * digits_value(s) + digit_value(c),
{
    assert(s.push(c).drop_last() =~= s);
}

/// Digit values of a longer run are never smaller.
/// Parses `v[a..b]` as a run of digits whose value may not exceed `cap`:
/// `None` exactly when it does.
pub fn digits_capped(v: &Vec<char>, a: usize, b: usize, cap: u64) -> (r: Option<u64>)
    requires
        a <= b <= v.len(),
        all_digits(v@.subrange(a as int, b as int)),
    ensures
        r matches Some(n) ==> n == digits_value(v@.subrange(a as int, b as int)),
        r is None <==> digits_value(v@.subrange(a as int, b as int)) > cap,
{
    let mut val: u64 = 0;
    let mut over = false;
    let mut i = a;
    while i < b
        invariant
            a <= i <= b <= v.len(),
            all_digits(v@.subrange(a as int, b as int)),
            !over ==> val == digits_value(v@.subrange(a as int, i as int)),
            !over ==> val <= cap,
            over ==> digits_value(v@.subrange(a as int, i as int)) > cap,
        decreases b - i,
    {
        let c = v[i];
        assert(v@.subrange(a as int, b as int)[i - a] == c);
        let ghost pre = v@.subrange(a as int, i as int);
        assert(v@.subrange(a as int, i + 1) =~= pre.push(c));
        proof {
            lemma_digits_value_push(pre, c);
        }
        let d: u64 = (c as u32 - '0' as u32) as u64;
        if !over {
            if d > cap || val > (cap - d) / 10 {
                over = true;
            } else {
                val = val * 10 + d;
            }
        }
        i += 1;
    }
    if over {
        None
    } else {
        Some(val)
    }
}

/// Parses `v[a..b]` as a non-negative run of digits: `None` when the value
/// exceeds `i64::MAX`.
pub fn digits_to_i64(v: &Vec<char>, a: usize, b: usize) -> (r: Option<i64>)
    requires
        a <= b <= v.len(),
        all_digits(v@.subrange(a as int, b as int)),
    ensures
        r matches Some(n) ==> n == digits_value(v@.subrange(a as int, b as int)),
        r is None <==> digits_value(v@.subrange(a as int, b as int)) > i64::MAX,
{
    match digits_capped(v, a, b, 0x7fff_ffff_ffff_ffff) {
        Some(n) => Some(n as i64),
        None => None,
    }
}

/// Whether `v[a..b]` holds only ASCII digits.
pub fn all_digits_in(v: &Vec<char>, a: usize, b: usize) -> (r: bool)
    requires
        a <= b <= v.len(),
    ensures
        r == all_digits(v@.subrange(a as int, b as int)),
{
    let mut i = a;
    while i < b
        invariant
            a <= i <= b <= v.len(),
            all_digits(v@.subrange(a as int, i as int)),
        decreases b - i,
    {
        if !is_ascii_digit(v[i]) {
            assert(v@.subrange(a as int, b as int)[i - a] == v@[i as int]);
            return false;
        }
        assert(v@.subrange(a as int, i + 1) =~= v@.subrange(a as int, i as int).push(
            v@[i as int],
        ));
        i += 1;
    }
    true
}

/// `i64::from_str` on a character vector.
pub fn parse_i64(v: &Vec<char>) -> (r: Option<i64>)
    ensures
        r matches Some(n) ==> parse_i64_spec(v@) == Some(n as int),
        r is None ==> parse_i64_spec(v@) is None,
{
    if v.len() == 0 {
        return None;
    }
    let neg = v[0] == '-';
    let start: usize = if v[0] == '-' || v[0] == '+' {
        1
    } else {
        0
    };
    let ghost body = if v@[0] == '-' || v@[0] == '+' {
        v@.drop_first()
    } else {
        v@
    };
    assert(body =~= v@.subrange(start as int, v.len() as int));
    if start == v.len() {
        return None;
    }
    if !all_digits_in(v, start, v.len()) {
        return None;
    }
    if neg {
        match digits_capped(v, start, v.len(), 0x8000_0000_0000_0000) {
            Some(m) => {
                if m == 0x8000_0000_0000_0000 {
                    Some(i64::MIN)
                } else {
                    Some(-(m as i64))
                }
            },
            None => None,
        }
    } else {
        digits_to_i64(v, start, v.len())
    }
}

} // verus!
