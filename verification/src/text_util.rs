//! Character and string utilities the extractor and the sort rely on:
//! decimal parsing and formatting, whitespace classification, trimming,
//! word splitting and lexicographic comparison, all with exact contracts.

use vstd::prelude::*;

verus! {

// ---------------------------------------------------------------------
// Character classes
// ---------------------------------------------------------------------

/// The Unicode white-space characters, as `str::trim` and
/// `str::split_whitespace` understand them.
pub open spec fn is_space_char(c: char) -> bool {
    c == ' ' || c == '\t' || c == '\n' || c == '\r' || c == '\u{000B}'
        || c == '\u{000C}' || c == '\u{0085}' || c == '\u{00A0}' || c == '\u{1680}'
        || c == '\u{2000}' || c == '\u{2001}' || c == '\u{2002}' || c == '\u{2003}'
        || c == '\u{2004}' || c == '\u{2005}' || c == '\u{2006}' || c == '\u{2007}'
        || c == '\u{2008}' || c == '\u{2009}' || c == '\u{200A}' || c == '\u{2028}'
        || c == '\u{2029}' || c == '\u{202F}' || c == '\u{205F}' || c == '\u{3000}'
}

/// The ASCII white-space characters, as `str::split_ascii_whitespace`
/// understands them.
pub open spec fn is_ascii_space_char(c: char) -> bool {
    c == ' ' || c == '\t' || c == '\n' || c == '\r' || c == '\u{000C}'
}

/// White space under either alphabet, chosen by `ascii_only`.
pub open spec fn is_space_kind(c: char, ascii_only: bool) -> bool {
    if ascii_only {
        is_ascii_space_char(c)
    } else {
        is_space_char(c)
    }
}

pub fn is_space(c: char, ascii_only: bool) -> (r: bool)
    ensures
        r == is_space_kind(c, ascii_only),
{
    if ascii_only {
        c == ' ' || c == '\t' || c == '\n' || c == '\r' || c == '\u{000C}'
    } else {
        c == ' ' || c == '\t' || c == '\n' || c == '\r' || c == '\u{000B}'
            || c == '\u{000C}' || c == '\u{0085}' || c == '\u{00A0}' || c == '\u{1680}'
            || c == '\u{2000}' || c == '\u{2001}' || c == '\u{2002}' || c == '\u{2003}'
            || c == '\u{2004}' || c == '\u{2005}' || c == '\u{2006}' || c == '\u{2007}'
            || c == '\u{2008}' || c == '\u{2009}' || c == '\u{200A}' || c == '\u{2028}'
            || c == '\u{2029}' || c == '\u{202F}' || c == '\u{205F}' || c == '\u{3000}'
    }
}

// ---------------------------------------------------------------------
// Decimal digits
// ---------------------------------------------------------------------

pub open spec fn is_digit_char(c: char) -> bool {
    48 <= c as u32 <= 57
}

pub open spec fn digit_value(c: char) -> nat {
    (c as u32 - 48) as nat
}

pub open spec fn all_digit_chars(s: Seq<char>) -> bool {
    forall|i: int| 0 <= i < s.len() ==> is_digit_char(#[trigger] s[i])
}

/// The number a sequence of decimal digits denotes.
pub open spec fn digits_value(s: Seq<char>) -> nat
    decreases s.len(),
{
    if s.len() == 0 {
        0
    } else {
        digits_value(s.drop_last()) * 10 + digit_value(s.last())
    }
}

/// Extending a digit string to the right never shrinks its value.
proof fn lemma_digits_value_take_le(s: Seq<char>, i: int)
    requires
        0 <= i <= s.len(),
    ensures
        digits_value(s.take(i)) <= digits_value(s),
    decreases s.len() - i,
{
    if i < s.len() {
        assert(s.take(i + 1).drop_last() =~= s.take(i));
        assert(digits_value(s.take(i + 1)) == digits_value(s.take(i)) * 10 + digit_value(
            s.take(i + 1).last(),
        ));
        lemma_digits_value_take_le(s, i + 1);
    } else {
        assert(s.take(i) =~= s);
    }
}

/// Parses a non-empty all-digit string as a `u32`; anything else,
/// including overflow, yields `None`.
pub fn parse_u32_digits(s: &str) -> (r: Option<u32>)
    ensures
        match r {
            Some(v) => s@.len() > 0 && all_digit_chars(s@) && digits_value(s@) <= u32::MAX
                && v == digits_value(s@),
            None => s@.len() == 0 || !all_digit_chars(s@) || digits_value(s@) > u32::MAX,
        },
{
    let n: usize = s.unicode_len();
    if n == 0 {
        return None;
    }
    let mut val: u64 = 0;
    let mut i: usize = 0;
    while i < n
        invariant
            0 <= i <= n,
            n == s@.len(),
            all_digit_chars(s@.take(i as int)),
            val == digits_value(s@.take(i as int)),
            val <= u32::MAX,
        decreases n - i,
    {
        let c = s.get_char(i);
        let cv = c as u32;
        if cv < 48 || cv > 57 {
            assert(!is_digit_char(s@[i as int]));
            return None;
        }
        let d: u64 = (cv - 48) as u64;
        let next: u64 = val * 10 + d;
        assert(s@.take(i + 1).drop_last() =~= s@.take(i as int));
        assert(s@.take(i + 1).last() == s@[i as int]);
        if next > u32::MAX as u64 {
            proof {
                lemma_digits_value_take_le(s@, i + 1);
            }
            return None;
        }
        val = next;
        i = i + 1;
    }
    assert(s@.take(n as int) =~= s@);
    Some(val as u32)
}

// ---------------------------------------------------------------------
// Decimal formatting
// ---------------------------------------------------------------------

/// The character for one decimal digit.
pub open spec fn digit_char_of(d: nat) -> char {
    if d == 0 {
        '0'
    } else if d == 1 {
        '1'
    } else if d == 2 {
        '2'
    } else if d == 3 {
        '3'
    } else if d == 4 {
        '4'
    } else if d == 5 {
        '5'
    } else if d == 6 {
        '6'
    } else if d == 7 {
        '7'
    } else if d == 8 {
        '8'
    } else {
        '9'
    }
}

/// The decimal rendering of a natural number, without sign or padding.
pub open spec fn dec_str_of(n: nat) -> Seq<char>
    decreases n,
{
    if n < 10 {
        seq![digit_char_of(n)]
    } else {
        dec_str_of(n / 10).push(digit_char_of(n % 10))
    }
}

fn digit_to_str(d: u32) -> (r: &'static str)
    requires
        d < 10,
    ensures
        r@ =~= seq![digit_char_of(d as nat)],
{
    proof {
        reveal_strlit("0");
        reveal_strlit("1");
        reveal_strlit("2");
        reveal_strlit("3");
        reveal_strlit("4");
        reveal_strlit("5");
        reveal_strlit("6");
        reveal_strlit("7");
        reveal_strlit("8");
        reveal_strlit("9");
    }
    if d == 0 {
        "0"
    } else if d == 1 {
        "1"
    } else if d == 2 {
        "2"
    } else if d == 3 {
        "3"
    } else if d == 4 {
        "4"
    } else if d == 5 {
        "5"
    } else if d == 6 {
        "6"
    } else if d == 7 {
        "7"
    } else if d == 8 {
        "8"
    } else {
        "9"
    }
}

/// Renders a `u32` in decimal.
pub fn u32_to_string(n: u32) -> (r: String)
    ensures
        r@ == dec_str_of(n as nat),
    decreases n,
{
    if n < 10 {
        digit_to_str(n).to_owned()
    } else {
        let mut s = u32_to_string(n / 10);
        s.append(digit_to_str(n % 10));
        proof {
            assert(dec_str_of((n / 10) as nat).push(digit_char_of((n % 10) as nat)) =~= dec_str_of(
                (n / 10) as nat,
            ) + seq![digit_char_of((n % 10) as nat)]);
        }
        s
    }
}

// ---------------------------------------------------------------------
// Lexicographic order on character sequences
// ---------------------------------------------------------------------

/// Lexicographic order by code point; agrees with the standard library's
/// order on `String`, since UTF-8 byte order follows code-point order.
pub open spec fn lex_le(a: Seq<char>, b: Seq<char>) -> bool
    decreases a.len(),
{
    if a.len() == 0 {
        true
    } else if b.len() == 0 {
        false
    } else if (a[0] as u32) < (b[0] as u32) {
        true
    } else if (b[0] as u32) < (a[0] as u32) {
        false
    } else {
        lex_le(a.drop_first(), b.drop_first())
    }
}

pub proof fn lemma_lex_le_total(a: Seq<char>, b: Seq<char>)
    ensures
        lex_le(a, b) || lex_le(b, a),
    decreases a.len(),
{
    if a.len() > 0 && b.len() > 0 && (a[0] as u32) == (b[0] as u32) {
        lemma_lex_le_total(a.drop_first(), b.drop_first());
    }
}

pub proof fn lemma_lex_le_trans(a: Seq<char>, b: Seq<char>, c: Seq<char>)
    requires
        lex_le(a, b),
        lex_le(b, c),
    ensures
        lex_le(a, c),
    decreases a.len(),
{
    if a.len() > 0 && b.len() > 0 && c.len() > 0 && (a[0] as u32) == (b[0] as u32) && (b[0] as u32)
        == (c[0] as u32) {
        lemma_lex_le_trans(a.drop_first(), b.drop_first(), c.drop_first());
    }
}

/// If the first `i` characters agree, the comparison is decided by the
/// remainders.
proof fn lemma_lex_le_skip(a: Seq<char>, b: Seq<char>, i: int)
    requires
        0 <= i <= a.len(),
        i <= b.len(),
        forall|k: int| 0 <= k < i ==> a[k] == b[k],
    ensures
        lex_le(a, b) == lex_le(a.skip(i), b.skip(i)),
    decreases i,
{
    if i > 0 {
        lemma_lex_le_skip(a.drop_first(), b.drop_first(), i - 1);
        assert(a.drop_first().skip(i - 1) =~= a.skip(i));
        assert(b.drop_first().skip(i - 1) =~= b.skip(i));
    } else {
        assert(a.skip(0) =~= a);
        assert(b.skip(0) =~= b);
    }
}

/// Compares two strings in lexicographic code-point order.
pub fn str_lex_le(a: &str, b: &str) -> (r: bool)
    ensures
        r == lex_le(a@, b@),
{
    let an: usize = a.unicode_len();
    let bn: usize = b.unicode_len();
    let mut i: usize = 0;
    loop
        invariant
            0 <= i <= an,
            i <= bn,
            an == a@.len(),
            bn == b@.len(),
            forall|k: int| 0 <= k < i ==> a@[k] == b@[k],
        ensures
            lex_le(a@.skip(i as int), b@.skip(i as int)) == lex_le(a@, b@),
            (i == an || i == bn) || (a@[i as int] as u32) != (b@[i as int] as u32),
        decreases an - i,
    {
        proof {
            lemma_lex_le_skip(a@, b@, i as int);
        }
        if i == an || i == bn {
            break;
        }
        let ca = a.get_char(i);
        let cb = b.get_char(i);
        if ca as u32 != cb as u32 {
            break;
        }
        i = i + 1;
    }
    proof {
        lemma_lex_le_skip(a@, b@, i as int);
    }
    if i == an {
        assert(a@.skip(i as int).len() == 0);
        true
    } else if i == bn {
        assert(b@.skip(i as int).len() == 0);
        assert(a@.skip(i as int).len() > 0);
        false
    } else {
        let ca = a.get_char(i);
        let cb = b.get_char(i);
        assert(a@.skip(i as int)[0] == a@[i as int]);
        assert(b@.skip(i as int)[0] == b@[i as int]);
        (ca as u32) < (cb as u32)
    }
}

/// Character-wise string equality.
pub fn str_eq(a: &str, b: &str) -> (r: bool)
    ensures
        r == (a@ == b@),
{
    let an: usize = a.unicode_len();
    let bn: usize = b.unicode_len();
    if an != bn {
        assert(a@ != b@) by {
            if a@ == b@ {
                assert(a@.len() == b@.len());
            }
        }
        return false;
    }
    let mut i: usize = 0;
    while i < an
        invariant
            0 <= i <= an,
            an == a@.len(),
            bn == b@.len(),
            an == bn,
            forall|k: int| 0 <= k < i ==> a@[k] == b@[k],
        decreases an - i,
    {
        let ca = a.get_char(i);
        let cb = b.get_char(i);
        if ca as u32 != cb as u32 {
            assert(a@ != b@) by {
                if a@ == b@ {
                    assert(a@[i as int] == b@[i as int]);
                }
            }
            return false;
        }
        i = i + 1;
    }
    assert(a@ =~= b@);
    true
}

// ---------------------------------------------------------------------
// Trimming
// ---------------------------------------------------------------------

pub open spec fn trim_front(s: Seq<char>) -> Seq<char>
    decreases s.len(),
{
    if s.len() > 0 && is_space_char(s[0]) {
        trim_front(s.drop_first())
    } else {
        s
    }
}

pub open spec fn trim_back(s: Seq<char>) -> Seq<char>
    decreases s.len(),
{
    if s.len() > 0 && is_space_char(s.last()) {
        trim_back(s.drop_last())
    } else {
        s
    }
}

/// What `str::trim` leaves: the input with leading and trailing white
/// space removed.
pub open spec fn trim_spec(s: Seq<char>) -> Seq<char> {
    trim_back(trim_front(s))
}

proof fn lemma_trim_front_chars(s: Seq<char>, lo: int)
    requires
        0 <= lo <= s.len(),
        forall|k: int| 0 <= k < lo ==> is_space_char(#[trigger] s[k]),
        lo == s.len() || !is_space_char(s[lo]),
    ensures
        trim_front(s) == s.skip(lo),
    decreases lo,
{
    if lo > 0 {
        lemma_trim_front_chars(s.drop_first(), lo - 1);
        assert(s.drop_first().skip(lo - 1) =~= s.skip(lo));
    } else {
        assert(s.skip(0) =~= s);
    }
}

proof fn lemma_trim_back_chars(s: Seq<char>, hi: int)
    requires
        0 <= hi <= s.len(),
        forall|k: int| hi <= k < s.len() ==> is_space_char(#[trigger] s[k]),
        hi == 0 || !is_space_char(s[hi - 1]),
    ensures
        trim_back(s) == s.take(hi),
    decreases s.len() - hi,
{
    if hi < s.len() {
        lemma_trim_back_chars(s.drop_last(), hi);
        assert(s.drop_last().take(hi) =~= s.take(hi));
    } else {
        assert(s.take(hi) =~= s);
    }
}

/// Removes leading and trailing white space, like `str::trim`.
pub fn trim_str(s: &str) -> (r: String)
    ensures
        r@ == trim_spec(s@),
{
    let n: usize = s.unicode_len();
    let mut lo: usize = 0;
    while lo < n && is_space(s.get_char(lo), false)
        invariant
            0 <= lo <= n,
            n == s@.len(),
            forall|k: int| 0 <= k < lo ==> is_space_char(#[trigger] s@[k]),
        decreases n - lo,
    {
        lo = lo + 1;
    }
    proof {
        lemma_trim_front_chars(s@, lo as int);
    }
    if lo == n {
        assert(trim_spec(s@) =~= Seq::<char>::empty());
        return String::new();
    }
    let mut hi: usize = n;
    while hi > lo && is_space(s.get_char(hi - 1), false)
        invariant
            lo <= hi <= n,
            n == s@.len(),
            lo < n,
            forall|k: int| hi <= k < n ==> is_space_char(#[trigger] s@[k]),
        decreases hi,
    {
        hi = hi - 1;
    }
    assert(!is_space_char(s@[lo as int]));
    assert(hi > lo);
    proof {
        lemma_trim_back_chars(s@.skip(lo as int), hi - lo as int);
        assert(s@.skip(lo as int).take(hi - lo as int) =~= s@.subrange(lo as int, hi as int));
    }
    let part = s.substring_char(lo, hi);
    part.to_owned()
}

// ---------------------------------------------------------------------
// Word splitting
// ---------------------------------------------------------------------

/// Length of the maximal non-space prefix.
pub open spec fn word_span(s: Seq<char>, ascii_only: bool) -> nat
    decreases s.len(),
{
    if s.len() == 0 || is_space_kind(s[0], ascii_only) {
        0
    } else {
        (1 + word_span(s.drop_first(), ascii_only)) as nat
    }
}

pub proof fn lemma_word_span_le(s: Seq<char>, ascii_only: bool)
    ensures
        word_span(s, ascii_only) <= s.len(),
    decreases s.len(),
{
    if s.len() > 0 && !is_space_kind(s[0], ascii_only) {
        lemma_word_span_le(s.drop_first(), ascii_only);
    }
}

/// The words of a string: its maximal runs of non-space characters, in
/// order, as `split_whitespace` and `split_ascii_whitespace` yield them.
pub open spec fn words_of(s: Seq<char>, ascii_only: bool) -> Seq<Seq<char>>
    decreases s.len(),
    via words_of_decreases
{
    if s.len() == 0 {
        Seq::empty()
    } else if is_space_kind(s[0], ascii_only) {
        words_of(s.drop_first(), ascii_only)
    } else {
        seq![s.take(word_span(s, ascii_only) as int)] + words_of(
            s.skip(word_span(s, ascii_only) as int),
            ascii_only,
        )
    }
}

#[via_fn]
proof fn words_of_decreases(s: Seq<char>, ascii_only: bool) {
    if s.len() > 0 && !is_space_kind(s[0], ascii_only) {
        lemma_word_span_le(s, ascii_only);
    }
}

proof fn lemma_word_span_val(t: Seq<char>, ascii_only: bool, k: int)
    requires
        0 <= k <= t.len(),
        forall|x: int| 0 <= x < k ==> !is_space_kind(#[trigger] t[x], ascii_only),
        k == t.len() || is_space_kind(t[k], ascii_only),
    ensures
        word_span(t, ascii_only) == k,
    decreases k,
{
    if k > 0 {
        lemma_word_span_val(t.drop_first(), ascii_only, k - 1);
    }
}

/// Splits into white-space-separated words.
pub fn split_words(s: &str, ascii_only: bool) -> (r: Vec<String>)
    ensures
        r@.map_values(|w: String| w@) == words_of(s@, ascii_only),
{
    let n: usize = s.unicode_len();
    let mut out: Vec<String> = Vec::new();
    let mut i: usize = 0;
    proof {
        assert(s@.skip(0) =~= s@);
        assert(out@.map_values(|w: String| w@) =~= Seq::<Seq<char>>::empty());
        assert(Seq::<Seq<char>>::empty() + words_of(s@, ascii_only) =~= words_of(s@, ascii_only));
    }
    while i < n
        invariant
            0 <= i <= n,
            n == s@.len(),
            out@.map_values(|w: String| w@) + words_of(s@.skip(i as int), ascii_only) == words_of(
                s@,
                ascii_only,
            ),
        decreases n - i,
    {
        let c = s.get_char(i);
        if is_space(c, ascii_only) {
            proof {
                assert(s@.skip(i as int)[0] == s@[i as int]);
                assert(s@.skip(i as int).drop_first() =~= s@.skip(i + 1));
            }
            i = i + 1;
        } else {
            let mut j: usize = i + 1;
            while j < n && !is_space(s.get_char(j), ascii_only)
                invariant
                    i < j <= n,
                    n == s@.len(),
                    forall|x: int|
                        i <= x < j ==> !is_space_kind(#[trigger] s@[x], ascii_only),
                decreases n - j,
            {
                j = j + 1;
            }
            proof {
                let t = s@.skip(i as int);
                assert(forall|x: int| 0 <= x < j - i ==> t[x] == s@[x + i]);
                lemma_word_span_val(t, ascii_only, j - i as int);
                assert(t.take(j - i as int) =~= s@.subrange(i as int, j as int));
                assert(t.skip(j - i as int) =~= s@.skip(j as int));
            }
            let w = s.substring_char(i, j).to_owned();
            let ghost prev = out@.map_values(|w: String| w@);
            out.push(w);
            proof {
                assert(out@.map_values(|w: String| w@) =~= prev + seq![s@.subrange(
                    i as int,
                    j as int,
                )]);
                assert(prev + seq![s@.subrange(i as int, j as int)] + words_of(
                    s@.skip(j as int),
                    ascii_only,
                ) =~= prev + (seq![s@.subrange(i as int, j as int)] + words_of(
                    s@.skip(j as int),
                    ascii_only,
                )));
            }
            i = j;
        }
    }
    assert(s@.skip(n as int) =~= Seq::<char>::empty());
    assert(out@.map_values(|w: String| w@) + Seq::<Seq<char>>::empty() =~= out@.map_values(
        |w: String| w@,
    ));
    out
}

// ---------------------------------------------------------------------
// Substring search
// ---------------------------------------------------------------------

pub open spec fn match_at(s: Seq<char>, pat: Seq<char>, i: int) -> bool {
    0 <= i && i + pat.len() <= s.len() && s.subrange(i, i + pat.len()) == pat
}

/// The first match of `pat` at or after position `i`, if any.
pub open spec fn find_pat_from(s: Seq<char>, pat: Seq<char>, i: int) -> Option<int>
    recommends
        0 <= i,
    decreases s.len() + 1 - i,
{
    if i < 0 || i + pat.len() > s.len() {
        None
    } else if match_at(s, pat, i) {
        Some(i)
    } else {
        find_pat_from(s, pat, i + 1)
    }
}

/// Checks whether `pat` occurs in `s` starting exactly at `at`.
fn matches_here(s: &str, pat: &str, at: usize) -> (r: bool)
    requires
        at + pat@.len() <= s@.len(),
        s@.len() <= usize::MAX,
    ensures
        r == match_at(s@, pat@, at as int),
{
    let pn: usize = pat.unicode_len();
    let mut k: usize = 0;
    while k < pn
        invariant
            0 <= k <= pn,
            pn == pat@.len(),
            at + pn <= s@.len(),
            s@.len() <= usize::MAX,
            forall|x: int| 0 <= x < k ==> s@[at + x] == pat@[x],
        decreases pn - k,
    {
        let cs = s.get_char(at + k);
        let cp = pat.get_char(k);
        if cs as u32 != cp as u32 {
            assert(!match_at(s@, pat@, at as int)) by {
                if match_at(s@, pat@, at as int) {
                    assert(s@.subrange(at as int, at + pat@.len())[k as int] == pat@[k as int]);
                }
            }
            return false;
        }
        k = k + 1;
    }
    assert(s@.subrange(at as int, at + pat@.len()) =~= pat@);
    true
}

/// Finds the first occurrence of `pat` in `s` at or after `from`.
pub fn find_substr_from(s: &str, pat: &str, from: usize) -> (r: Option<usize>)
    ensures
        match r {
            Some(i) => from <= i && find_pat_from(s@, pat@, from as int) == Some(i as int)
                && match_at(s@, pat@, i as int),
            None => find_pat_from(s@, pat@, from as int) is None,
        },
{
    let n: usize = s.unicode_len();
    let pn: usize = pat.unicode_len();
    if pn > n || from > n - pn {
        assert(find_pat_from(s@, pat@, from as int) is None) by {
            lemma_find_pat_none(s@, pat@, from as int);
        }
        return None;
    }
    if pn == 0 {
        assert(s@.subrange(from as int, from as int) =~= pat@);
        return Some(from);
    }
    let mut i: usize = from;
    while i <= n - pn
        invariant
            from <= i,
            1 <= pn <= n,
            i <= n - pn + 1,
            n == s@.len(),
            pn == pat@.len(),
            find_pat_from(s@, pat@, from as int) == find_pat_from(s@, pat@, i as int),
        decreases n - i,
    {
        if matches_here(s, pat, i) {
            return Some(i);
        }
        i = i + 1;
    }
    None
}

proof fn lemma_find_pat_none(s: Seq<char>, pat: Seq<char>, i: int)
    requires
        i + pat.len() > s.len() || i < 0,
    ensures
        find_pat_from(s, pat, i) is None,
{
}

/// What stands between the first occurrence of `pat` and the next one
/// (or the end), as `s.split(pat)` would yield it second; `None` when
/// `pat` does not occur.
pub open spec fn segment_after_first_spec(s: Seq<char>, pat: Seq<char>) -> Option<Seq<char>> {
    match find_pat_from(s, pat, 0) {
        None => None,
        Some(i) => {
            let e = i + pat.len();
            match find_pat_from(s, pat, e) {
                None => Some(s.skip(e)),
                Some(j) => Some(s.subrange(e, j)),
            }
        },
    }
}

/// The text between the first occurrence of `pat` and the next one or
/// the end of `s`.
pub fn segment_after_first(s: &str, pat: &str) -> (r: Option<String>)
    ensures
        match r {
            Some(v) => segment_after_first_spec(s@, pat@) == Some(v@),
            None => segment_after_first_spec(s@, pat@) is None,
        },
{
    let n: usize = s.unicode_len();
    let pn: usize = pat.unicode_len();
    match find_substr_from(s, pat, 0) {
        None => None,
        Some(i) => {
            let e = i + pn;
            assert(e <= n);
            match find_substr_from(s, pat, e) {
                None => {
                    let part = s.substring_char(e, n);
                    assert(part@ =~= s@.skip(e as int));
                    Some(part.to_owned())
                },
                Some(j) => {
                    assert(e <= j && j + pn <= n);
                    let part = s.substring_char(e, j);
                    Some(part.to_owned())
                },
            }
        },
    }
}

} // verus!
