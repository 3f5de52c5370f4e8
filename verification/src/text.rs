//! Character-level text helpers shared by the document parser and the
//! path rules: Unicode whitespace, trimming, word splitting, `/`-separated
//! path segments, decimal numbers and UTF-8 lengths.
use vstd::prelude::*;
use vstd::utf8::*;

verus! {

broadcast use vstd::seq_lib::group_seq_properties;

/// The characters that `char::is_whitespace` accepts (the Unicode
/// `White_Space` property).
pub open spec fn is_space(c: char) -> bool {
    ||| ('\u{9}' <= c && c <= '\u{d}')
    ||| c == ' '
    ||| c == '\u{85}'
    ||| c == '\u{a0}'
    ||| c == '\u{1680}'
    ||| ('\u{2000}' <= c && c <= '\u{200a}')
    ||| c == '\u{2028}'
    ||| c == '\u{2029}'
    ||| c == '\u{202f}'
    ||| c == '\u{205f}'
    ||| c == '\u{3000}'
}

pub fn space(c: char) -> (b: bool)
    ensures
        b == is_space(c),
{
    ('\u{9}' <= c && c <= '\u{d}') || c == ' ' || c == '\u{85}' || c == '\u{a0}' || c
        == '\u{1680}' || ('\u{2000}' <= c && c <= '\u{200a}') || c == '\u{2028}' || c
        == '\u{2029}' || c == '\u{202f}' || c == '\u{205f}' || c == '\u{3000}'
}

/// The characters of a string slice, in order.
pub fn chars_of(s: &str) -> (v: Vec<char>)
    ensures
        v@ == s@,
{
    let mut v: Vec<char> = Vec::new();
    for c in it: s.chars()
        invariant
            v@ == it.seq().take(it.index() as int),
            it.seq() == s@,
    {
        v.push(c);
    }
    v
}

/// Collects characters into a `String` (std's `FromIterator<char>`).
#[verifier::external_body]
pub(crate) fn string_of(chars: &[char]) -> (s: String)
    ensures
        s@ == chars@,
{
    chars.iter().collect()
}

/// A `String` holding the given literal.
pub fn text(s: &str) -> (r: String)
    ensures
        r@ == s@,
{
    s.to_owned()
}

/// A `String` holding the literal `s` followed by the characters `tail`.
pub fn text_with(s: &str, tail: &[char]) -> (r: String)
    ensures
        r@ == s@ + tail@,
{
    let mut v = chars_of(s);
    let mut i: usize = 0;
    while i < tail.len()
        invariant
            i <= tail@.len(),
            v@ == s@ + tail@.take(i as int),
        decreases tail@.len() - i,
    {
        v.push(tail[i]);
        i += 1;
    }
    assert(tail@.take(tail@.len() as int) == tail@);
    string_of(&v)
}

/// Whether two character sequences are equal.
pub fn same(a: &[char], b: &[char]) -> (r: bool)
    ensures
        r == (a@ == b@),
{
    if a.len() != b.len() {
        return false;
    }
    let mut i: usize = 0;
    while i < a.len()
        invariant
            a@.len() == b@.len(),
            i <= a@.len(),
            forall|k: int| 0 <= k < i ==> a@[k] == b@[k],
        decreases a@.len() - i,
    {
        if a[i] != b[i] {
            return false;
        }
        i += 1;
    }
    assert(a@ =~= b@);
    true
}

/// Whether the characters equal the given literal.
pub fn is_text(a: &[char], s: &str) -> (r: bool)
    ensures
        r == (a@ == s@),
{
    let v = chars_of(s);
    same(a, &v)
}

/// The characters `s[from..to]`.
pub fn slice_of(s: &[char], from: usize, to: usize) -> (r: Vec<char>)
    requires
        from <= to <= s@.len(),
    ensures
        r@ == s@.subrange(from as int, to as int),
{
    let mut r: Vec<char> = Vec::new();
    let mut i = from;
    while i < to
        invariant
            from <= i <= to <= s@.len(),
            r@ == s@.subrange(from as int, i as int),
        decreases to - i,
    {
        r.push(s[i]);
        i += 1;
    }
    r
}

/// The number of leading whitespace characters.
pub open spec fn lead(s: Seq<char>) -> nat
    decreases s.len(),
{
    if s.len() > 0 && is_space(s[0]) {
        1 + lead(s.drop_first())
    } else {
        0
    }
}

/// The number of trailing whitespace characters.
pub open spec fn trail(s: Seq<char>) -> nat
    decreases s.len(),
{
    if s.len() > 0 && is_space(s.last()) {
        1 + trail(s.drop_last())
    } else {
        0
    }
}

/// `str::trim_start`.
pub open spec fn trim_start(s: Seq<char>) -> Seq<char> {
    s.skip(lead(s) as int)
}

/// `str::trim_end`.
pub open spec fn trim_end(s: Seq<char>) -> Seq<char> {
    s.take(s.len() - trail(s))
}

/// `str::trim`.
pub open spec fn trim(s: Seq<char>) -> Seq<char> {
    trim_end(trim_start(s))
}

pub proof fn lemma_lead_bound(s: Seq<char>)
    ensures
        lead(s) <= s.len(),
        forall|k: int| 0 <= k < lead(s) ==> is_space(#[trigger] s[k]),
        lead(s) < s.len() ==> !is_space(s[lead(s) as int]),
    decreases s.len(),
{
    if s.len() > 0 && is_space(s[0]) {
        lemma_lead_bound(s.drop_first());
        assert forall|k: int| 0 <= k < lead(s) implies is_space(#[trigger] s[k]) by {
            if k > 0 {
                assert(s[k] == s.drop_first()[k - 1]);
            }
        }
    }
}

pub proof fn lemma_trail_bound(s: Seq<char>)
    ensures
        trail(s) <= s.len(),
        forall|k: int| s.len() - trail(s) <= k < s.len() ==> is_space(#[trigger] s[k]),
        trail(s) < s.len() ==> !is_space(s[s.len() - trail(s) - 1]),
    decreases s.len(),
{
    if s.len() > 0 && is_space(s.last()) {
        lemma_trail_bound(s.drop_last());
        assert forall|k: int| s.len() - trail(s) <= k < s.len() implies is_space(
            #[trigger] s[k],
        ) by {
            if k < s.len() - 1 {
                assert(s[k] == s.drop_last()[k]);
            }
        }
    }
}

/// Leading whitespace of `s[i..]` is `lead(s[i..])`, one character at a time.
proof fn lemma_lead_step(s: Seq<char>, i: int)
    requires
        0 <= i < s.len(),
        is_space(s[i]),
    ensures
        lead(s.subrange(i, s.len() as int)) == 1 + lead(s.subrange(i + 1, s.len() as int)),
{
    assert(s.subrange(i, s.len() as int).drop_first() =~= s.subrange(i + 1, s.len() as int));
}

proof fn lemma_trail_step(s: Seq<char>, j: int)
    requires
        0 < j <= s.len(),
        is_space(s[j - 1]),
    ensures
        trail(s.subrange(0, j)) == 1 + trail(s.subrange(0, j - 1)),
{
    assert(s.subrange(0, j).drop_last() =~= s.subrange(0, j - 1));
}

/// The number of leading whitespace characters of `s[from..to]`.
pub fn lead_of(s: &[char], from: usize, to: usize) -> (n: usize)
    requires
        from <= to <= s@.len(),
    ensures
        n == lead(s@.subrange(from as int, to as int)),
        n <= to - from,
{
    let ghost t = s@.subrange(from as int, to as int);
    let mut i = from;
    while i < to && space(s[i])
        invariant
            from <= i <= to <= s@.len(),
            t == s@.subrange(from as int, to as int),
            lead(t) == (i - from) + lead(t.subrange(i - from, t.len() as int)),
        decreases to - i,
    {
        proof {
            lemma_lead_step(t, i - from);
        }
        i += 1;
    }
    proof {
        let rest = t.subrange(i - from, t.len() as int);
        if i < to {
            assert(rest[0] == s@[i as int]);
        } else {
            assert(rest.len() == 0);
        }
    }
    i - from
}

/// The number of trailing whitespace characters of `s[from..to]`.
pub fn trail_of(s: &[char], from: usize, to: usize) -> (n: usize)
    requires
        from <= to <= s@.len(),
    ensures
        n == trail(s@.subrange(from as int, to as int)),
        n <= to - from,
{
    let ghost t = s@.subrange(from as int, to as int);
    let mut j = to;
    while j > from && space(s[j - 1])
        invariant
            from <= j <= to <= s@.len(),
            t == s@.subrange(from as int, to as int),
            trail(t) == (to - j) + trail(t.subrange(0, j - from)),
        decreases j - from,
    {
        proof {
            lemma_trail_step(t, j - from);
        }
        j -= 1;
    }
    proof {
        let rest = t.subrange(0, j - from);
        if j > from {
            assert(rest.last() == s@[j - 1]);
        } else {
            assert(rest.len() == 0);
        }
    }
    to - j
}

pub proof fn lemma_trim_parts(s: Seq<char>)
    ensures
        lead(s) + trail(trim_start(s)) <= s.len(),
        trim(s) == s.subrange(lead(s) as int, s.len() - trail(trim_start(s))),
{
    lemma_lead_bound(s);
    lemma_trail_bound(trim_start(s));
    assert(trim(s) =~= s.subrange(lead(s) as int, s.len() - trail(trim_start(s))));
}

/// The bounds `(start, end)` of `trim(s[from..to])` within `s`.
pub fn trim_bounds(s: &[char], from: usize, to: usize) -> (r: (usize, usize))
    requires
        from <= to <= s@.len(),
    ensures
        from <= r.0 <= r.1 <= to,
        r.0 == from + lead(s@.subrange(from as int, to as int)),
        s@.subrange(r.0 as int, r.1 as int) == trim(s@.subrange(from as int, to as int)),
{
    let ghost t = s@.subrange(from as int, to as int);
    let a = lead_of(s, from, to);
    let start = from + a;
    let b = trail_of(s, start, to);
    proof {
        lemma_trim_parts(t);
        assert(trim_start(t) =~= s@.subrange(start as int, to as int));
        assert(s@.subrange(start as int, (to - b) as int) =~= t.subrange(
            a as int,
            t.len() - trail(trim_start(t)),
        ));
    }
    (start, to - b)
}

/// `s.trim()` as characters.
pub fn trimmed(s: &[char]) -> (r: Vec<char>)
    ensures
        r@ == trim(s@),
{
    let (a, b) = trim_bounds(s, 0, s.len());
    assert(s@.subrange(0, s@.len() as int) == s@);
    slice_of(s, a, b)
}

/// Whether every character is whitespace, i.e. `s.trim().is_empty()`.
pub open spec fn blank(s: Seq<char>) -> bool {
    forall|k: int| 0 <= k < s.len() ==> is_space(#[trigger] s[k])
}

pub fn is_blank(s: &[char]) -> (r: bool)
    ensures
        r == blank(s@),
{
    let mut i: usize = 0;
    while i < s.len()
        invariant
            i <= s@.len(),
            forall|k: int| 0 <= k < i ==> is_space(#[trigger] s@[k]),
        decreases s@.len() - i,
    {
        if !space(s[i]) {
            return false;
        }
        i += 1;
    }
    true
}

/// Whether `pat` occurs in `s` as a contiguous run.
pub open spec fn has_run(s: Seq<char>, pat: Seq<char>) -> bool {
    exists|i: int| 0 <= i && i + pat.len() <= s.len() && #[trigger] s.subrange(i, i + pat.len()) == pat
}

pub fn contains_run(s: &[char], pat: &[char]) -> (r: bool)
    ensures
        r == has_run(s@, pat@),
{
    if pat.len() > s.len() {
        return false;
    }
    let mut i: usize = 0;
    let n = s.len();
    let last = n - pat.len();
    while i <= last
        invariant
            n == s@.len(),
            pat@.len() <= s@.len(),
            last == s@.len() - pat@.len(),
            i <= last,
            forall|k: int|
                0 <= k < i ==> #[trigger] s@.subrange(k, k + pat@.len()) != pat@,
        decreases last + 1 - i,
    {
        assert(i + pat@.len() <= s@.len());
        let piece = slice_of(s, i, i + pat.len());
        if same(&piece, pat) {
            return true;
        }
        if i == last {
            return false;
        }
        i += 1;
    }
    false
}

/// The index of the first occurrence of `c` at or after `from`, if any.
pub fn find_char(s: &[char], from: usize, c: char) -> (r: Option<usize>)
    requires
        from <= s@.len(),
    ensures
        match r {
            Some(i) => from <= i < s@.len() && s@[i as int] == c && forall|k: int|
                from <= k < i ==> s@[k] != c,
            None => forall|k: int| from <= k < s@.len() ==> s@[k] != c,
        },
{
    let mut i = from;
    while i < s.len()
        invariant
            from <= i <= s@.len(),
            forall|k: int| from <= k < i ==> s@[k] != c,
        decreases s@.len() - i,
    {
        if s[i] == c {
            return Some(i);
        }
        i += 1;
    }
    None
}

/// `s.split_once(c)`: the parts before and after the first `c`.
pub open spec fn split_once(s: Seq<char>, c: char) -> Option<(Seq<char>, Seq<char>)> {
    if s.contains(c) {
        let i = s.index_of(c);
        Some((s.take(i), s.skip(i + 1)))
    } else {
        None
    }
}

/// Whether a character is an ASCII lowercase letter or digit.
pub open spec fn kebab_char(c: char) -> bool {
    ('a' <= c && c <= 'z') || ('0' <= c && c <= '9')
}

/// Lowercase kebab-case: nonempty parts of lowercase letters and digits
/// joined by single hyphens.
pub open spec fn is_kebab(s: Seq<char>) -> bool {
    &&& s.len() > 0
    &&& s[0] != '-'
    &&& s.last() != '-'
    &&& forall|k: int| 0 <= k < s.len() ==> kebab_char(#[trigger] s[k]) || s[k] == '-'
    &&& forall|k: int| 0 <= k < s.len() - 1 ==> !(#[trigger] s[k] == '-' && s[k + 1] == '-')
}

pub fn kebab(s: &[char]) -> (r: bool)
    ensures
        r == is_kebab(s@),
{
    if s.len() == 0 || s[0] == '-' || s[s.len() - 1] == '-' {
        return false;
    }
    let mut i: usize = 0;
    while i < s.len()
        invariant
            s@.len() > 0,
            i <= s@.len(),
            forall|k: int| 0 <= k < i ==> kebab_char(#[trigger] s@[k]) || s@[k] == '-',
            forall|k: int| 0 <= k < i && k < s@.len() - 1 ==> !(#[trigger] s@[k] == '-' && s@[k + 1] == '-'),
        decreases s@.len() - i,
    {
        let c = s[i];
        if !(('a' <= c && c <= 'z') || ('0' <= c && c <= '9') || c == '-') {
            return false;
        }
        if c == '-' && i + 1 < s.len() && s[i + 1] == '-' {
            return false;
        }
        i += 1;
    }
    true
}

/// Whether a character is an ASCII digit.
pub open spec fn digit(c: char) -> bool {
    '0' <= c && c <= '9'
}

/// The value of a string of ASCII digits.
pub open spec fn digits_value(s: Seq<char>) -> nat
    decreases s.len(),
{
    if s.len() == 0 {
        0
    } else {
        10 * digits_value(s.drop_last()) + ((s.last() as nat) - ('0' as nat)) as nat
    }
}

pub(crate) proof fn lemma_digits_monotone(s: Seq<char>, i: int)
    requires
        0 <= i <= s.len(),
        forall|k: int| 0 <= k < s.len() ==> digit(#[trigger] s[k]),
    ensures
        digits_value(s.take(i)) <= digits_value(s),
    decreases s.len() - i,
{
    if i < s.len() {
        lemma_digits_monotone(s, i + 1);
        assert(s.take(i + 1).drop_last() =~= s.take(i));
    } else {
        assert(s.take(i) =~= s);
    }
}

/// Parses ASCII digits as a `u32`, or `None` when the value does not fit.
pub fn parse_u32(s: &[char]) -> (r: Option<u32>)
    requires
        forall|k: int| 0 <= k < s@.len() ==> digit(#[trigger] s@[k]),
    ensures
        match r {
            Some(v) => v == digits_value(s@),
            None => digits_value(s@) > u32::MAX,
        },
{
    let mut v: u64 = 0;
    let mut i: usize = 0;
    while i < s.len()
        invariant
            i <= s@.len(),
            forall|k: int| 0 <= k < s@.len() ==> digit(#[trigger] s@[k]),
            v == digits_value(s@.take(i as int)),
            v <= u32::MAX,
        decreases s@.len() - i,
    {
        let d = (s[i] as u32 - '0' as u32) as u64;
        assert(s@.take(i + 1).drop_last() =~= s@.take(i as int));
        v = v * 10 + d;
        i += 1;
        if v > u32::MAX as u64 {
            proof {
                lemma_digits_monotone(s@, i as int);
            }
            return None;
        }
    }
    assert(s@.take(s@.len() as int) =~= s@);
    Some(v as u32)
}

/// Parses a string of ASCII digits as a `usize`: its value, or `None`
/// when a character is not a digit, the string is empty, or the value does
/// not fit.
pub fn parse_usize(s: &[char]) -> (r: Option<usize>)
    ensures
        match r {
            Some(v) => s@.len() > 0 && (forall|k: int| 0 <= k < s@.len() ==> digit(#[trigger] s@[k]))
                && v == digits_value(s@),
            None => !(s@.len() > 0 && (forall|k: int| 0 <= k < s@.len() ==> digit(#[trigger] s@[k]))
                && digits_value(s@) <= usize::MAX),
        },
{
    if s.len() == 0 {
        return None;
    }
    let mut k: usize = 0;
    while k < s.len()
        invariant
            k <= s@.len(),
            forall|j: int| 0 <= j < k ==> digit(#[trigger] s@[j]),
        decreases s@.len() - k,
    {
        if !('0' <= s[k] && s[k] <= '9') {
            return None;
        }
        k += 1;
    }
    let mut v: u128 = 0;
    let mut i: usize = 0;
    while i < s.len()
        invariant
            i <= s@.len(),
            forall|k: int| 0 <= k < s@.len() ==> digit(#[trigger] s@[k]),
            v == digits_value(s@.take(i as int)),
            v <= usize::MAX,
        decreases s@.len() - i,
    {
        let d = (s[i] as u32 - '0' as u32) as u128;
        assert(s@.take(i + 1).drop_last() =~= s@.take(i as int));
        v = v * 10 + d;
        i += 1;
        if v > usize::MAX as u128 {
            proof {
                lemma_digits_monotone(s@, i as int);
            }
            return None;
        }
    }
    assert(s@.take(s@.len() as int) =~= s@);
    Some(v as usize)
}

/// The decimal digits of a number.
pub open spec fn decimal(n: nat) -> Seq<char>
    decreases n,
{
    if n < 10 {
        seq![(('0' as nat) + n) as char]
    } else {
        decimal(n / 10) + seq![(('0' as nat) + n % 10) as char]
    }
}

/// `n.to_string()` as characters.
pub fn decimal_of(n: usize) -> (r: Vec<char>)
    ensures
        r@ == decimal(n as nat),
    decreases n,
{
    if n < 10 {
        let mut r = Vec::new();
        r.push(char_of_digit(n));
        r
    } else {
        let mut r = decimal_of(n / 10);
        r.push(char_of_digit(n % 10));
        r
    }
}

fn char_of_digit(d: usize) -> (c: char)
    requires
        d < 10,
    ensures
        c == (('0' as nat) + d) as char,
{
    if d == 0 { '0' }
    else if d == 1 { '1' }
    else if d == 2 { '2' }
    else if d == 3 { '3' }
    else if d == 4 { '4' }
    else if d == 5 { '5' }
    else if d == 6 { '6' }
    else if d == 7 { '7' }
    else if d == 8 { '8' }
    else { '9' }
}

/// The number of line breaks.
pub open spec fn newlines(s: Seq<char>) -> nat
    decreases s.len(),
{
    if s.len() == 0 {
        0
    } else {
        newlines(s.drop_last()) + if s.last() == '\n' { 1nat } else { 0nat }
    }
}

/// The number of line breaks in `s[..to]`.
pub fn count_newlines(s: &[char], to: usize) -> (n: usize)
    requires
        to <= s@.len(),
    ensures
        n == newlines(s@.take(to as int)),
        n <= to,
{
    let mut n: usize = 0;
    let mut i: usize = 0;
    while i < to
        invariant
            i <= to <= s@.len(),
            n == newlines(s@.take(i as int)),
            n <= i,
        decreases to - i,
    {
        assert(s@.take(i + 1).drop_last() =~= s@.take(i as int));
        if s[i] == '\n' {
            n += 1;
        }
        i += 1;
    }
    n
}

/// The number of bytes in the UTF-8 encoding of a character.
pub open spec fn width(c: char) -> nat {
    if (c as u32) < 0x80 {
        1
    } else if (c as u32) < 0x800 {
        2
    } else if (c as u32) < 0x10000 {
        3
    } else {
        4
    }
}

/// The number of bytes in the UTF-8 encoding of a character sequence.
pub open spec fn utf8_len(s: Seq<char>) -> nat
    decreases s.len(),
{
    if s.len() == 0 {
        0
    } else {
        width(s[0]) + utf8_len(s.drop_first())
    }
}

proof fn lemma_width(c: char)
    ensures
        encode_scalar(c as u32).len() == width(c),
{
    char_is_scalar(c);
}

pub proof fn lemma_utf8_len(s: Seq<char>)
    ensures
        encode_utf8(s).len() == utf8_len(s),
    decreases s.len(),
{
    if s.len() > 0 {
        lemma_width(s[0]);
        lemma_utf8_len(s.drop_first());
    }
}

pub proof fn lemma_encode_concat(a: Seq<char>, b: Seq<char>)
    ensures
        encode_utf8(a + b) == encode_utf8(a) + encode_utf8(b),
    decreases a.len(),
{
    if a.len() == 0 {
        assert(a + b =~= b);
    } else {
        lemma_encode_concat(a.drop_first(), b);
        assert((a + b).drop_first() =~= a.drop_first() + b);
        assert(encode_utf8(a + b) =~= encode_utf8(a) + encode_utf8(b));
    }
}

pub proof fn lemma_utf8_len_concat(a: Seq<char>, b: Seq<char>)
    ensures
        utf8_len(a + b) == utf8_len(a) + utf8_len(b),
{
    lemma_encode_concat(a, b);
    lemma_utf8_len(a);
    lemma_utf8_len(b);
    lemma_utf8_len(a + b);
}

pub fn char_width(c: char) -> (w: usize)
    ensures
        w == width(c),
{
    if (c as u32) < 0x80 {
        1
    } else if (c as u32) < 0x800 {
        2
    } else if (c as u32) < 0x10000 {
        3
    } else {
        4
    }
}

/// The UTF-8 length of `s[from..to]`, which stays below `limit`.
pub fn utf8_len_of(s: &[char], from: usize, to: usize) -> (n: usize)
    requires
        from <= to <= s@.len(),
        utf8_len(s@) <= usize::MAX,
    ensures
        n == utf8_len(s@.subrange(from as int, to as int)),
{
    let mut n: usize = 0;
    let mut i = from;
    proof {
        lemma_utf8_len_sub_bound(s@, from as int, to as int);
    }
    while i < to
        invariant
            from <= i <= to <= s@.len(),
            n == utf8_len(s@.subrange(from as int, i as int)),
            utf8_len(s@.subrange(from as int, to as int)) <= usize::MAX,
        decreases to - i,
    {
        proof {
            let a = s@.subrange(from as int, i as int);
            let one = seq![s@[i as int]];
            assert(s@.subrange(from as int, i + 1) =~= a + one);
            lemma_utf8_len_concat(a, one);
            lemma_utf8_len_concat(s@.subrange(from as int, i + 1), s@.subrange(i + 1, to as int));
            assert(s@.subrange(from as int, to as int) =~= s@.subrange(from as int, i + 1)
                + s@.subrange(i + 1, to as int));
            assert(utf8_len(one) == width(s@[i as int])) by {
                reveal_with_fuel(utf8_len, 2);
                assert(one.drop_first().len() == 0);
            }
        }
        n = n + char_width(s[i]);
        i += 1;
    }
    n
}

pub proof fn lemma_utf8_len_sub_bound(s: Seq<char>, from: int, to: int)
    requires
        0 <= from <= to <= s.len(),
    ensures
        utf8_len(s.subrange(from, to)) <= utf8_len(s),
{
    assert(s =~= s.subrange(0, from) + s.subrange(from, to) + s.subrange(to, s.len() as int));
    lemma_utf8_len_concat(s.subrange(0, from), s.subrange(from, to));
    lemma_utf8_len_concat(s.subrange(0, from) + s.subrange(from, to), s.subrange(to, s.len() as int));
}


/// Appends the characters of `s`.
pub fn append(v: &mut Vec<char>, s: &str)
    ensures
        final(v)@ == old(v)@ + s@,
{
    let tail = chars_of(s);
    let ghost start = v@;
    let mut i: usize = 0;
    while i < tail.len()
        invariant
            i <= tail@.len(),
            tail@ == s@,
            v@ == start + tail@.take(i as int),
        decreases tail@.len() - i,
    {
        v.push(tail[i]);
        i += 1;
    }
    assert(tail@.take(tail@.len() as int) =~= tail@);
}


/// The byte offset at which the first `k` characters end.
pub open spec fn byte_at(s: Seq<char>, k: int) -> int {
    vstd::utf8::encode_utf8(s.take(k)).len() as int
}

/// A byte offset that ends a whole number of characters is a character
/// boundary of the encoding.
pub proof fn lemma_prefix_boundary(s: Seq<char>, k: int)
    requires
        0 <= k <= s.len(),
    ensures
        vstd::utf8::is_char_boundary(vstd::utf8::encode_utf8(s), byte_at(s, k)),
        byte_at(s, k) <= vstd::utf8::encode_utf8(s).len(),
    decreases k,
{
    vstd::utf8::encode_utf8_valid_utf8(s);
    let bytes = vstd::utf8::encode_utf8(s);
    if k == 0 {
        assert(s.take(0) =~= Seq::<char>::empty());
        assert(vstd::utf8::encode_utf8(s.take(0)) =~= Seq::<u8>::empty());
    } else {
        let t = s.drop_first();
        vstd::utf8::encode_utf8_first_scalar(s);
        assert(vstd::utf8::pop_first_scalar(bytes) =~= vstd::utf8::encode_utf8(t));
        lemma_prefix_boundary(t, k - 1);
        assert(s.take(k).drop_first() =~= t.take(k - 1));
        assert(s.take(k)[0] == s[0]);
        assert(vstd::utf8::encode_utf8(s.take(k)) == vstd::utf8::encode_scalar(s[0] as u32)
            + vstd::utf8::encode_utf8(t.take(k - 1)));
        assert(bytes == vstd::utf8::encode_scalar(s[0] as u32) + vstd::utf8::encode_utf8(t));
    }
}

/// A span of `source` that an excerpt can mark: in order, within the text,
/// and on character boundaries.
pub open spec fn markable(source: Seq<char>, start: usize, end: usize) -> bool {
    &&& start <= end <= vstd::utf8::encode_utf8(source).len()
    &&& vstd::utf8::is_char_boundary(vstd::utf8::encode_utf8(source), start as int)
    &&& vstd::utf8::is_char_boundary(vstd::utf8::encode_utf8(source), end as int)
}

} // verus!
