//! Character and string helpers shared by the lexer, parser, validator and
//! renderers: Unicode classification from std, ASCII case folding, trimming,
//! whitespace splitting and UTF-8 byte lengths, all stated over `Seq<char>`.
use vstd::prelude::*;

verus! {

// ─── Unicode facts from std ─────────────────────────────────

/// `char::is_alphanumeric`: the Unicode `Alphabetic` or `Numeric` property.
pub uninterp spec fn unicode_alphanumeric(c: char) -> bool;

/// `char::is_whitespace`: the Unicode `White_Space` property, held by U+0009 to U+000D,
/// U+0020, U+0085, U+00A0, U+1680, U+2000 to U+200A, U+2028, U+2029, U+202F, U+205F and
/// U+3000.
pub open spec fn unicode_whitespace(c: char) -> bool {
    let u = c as u32;
    (0x09 <= u && u <= 0x0D) || u == 0x20 || u == 0x85 || u == 0xA0 || u == 0x1680 || (0x2000 <= u && u
        <= 0x200A) || u == 0x2028 || u == 0x2029 || u == 0x202F || u == 0x205F || u == 0x3000
}

/// `str::to_lowercase`: the full Unicode lowercase mapping of a string.
pub uninterp spec fn unicode_lowercase(s: Seq<char>) -> Seq<char>;

/// `str::to_uppercase`: the full Unicode uppercase mapping of a string.
pub uninterp spec fn unicode_uppercase(s: Seq<char>) -> Seq<char>;

/// Calls `char::is_alphanumeric`; its result is the named Unicode property, which among
/// ASCII characters holds exactly of the letters and digits.
#[verifier::external_body]
pub fn is_alphanumeric(c: char) -> (b: bool)
    ensures
        b == unicode_alphanumeric(c),
        (c as u32) < 128 ==> (b <==> ascii_alphabetic(c) || ascii_digit(c)),
{
    c.is_alphanumeric()
}

/// Whether `c` has the Unicode `White_Space` property (`char::is_whitespace`).
pub fn is_whitespace(c: char) -> (b: bool)
    ensures
        b == unicode_whitespace(c),
{
    let u = c as u32;
    (0x09 <= u && u <= 0x0D) || u == 0x20 || u == 0x85 || u == 0xA0 || u == 0x1680 || (0x2000 <= u && u
        <= 0x200A) || u == 0x2028 || u == 0x2029 || u == 0x202F || u == 0x205F || u == 0x3000
}

/// Calls `str::to_lowercase`; the result is the named lowercase mapping of `s`, which on
/// ASCII text maps 'A'..='Z' to 'a'..='z' and keeps every other character.
#[verifier::external_body]
pub fn to_lowercase(s: &str) -> (r: String)
    ensures
        r@ == unicode_lowercase(s@),
        is_ascii(s@) ==> r@ == ascii_lowercase(s@),
{
    s.to_lowercase()
}

/// Calls `str::to_uppercase`; the result is the named uppercase mapping of `s`, which on
/// ASCII text maps 'a'..='z' to 'A'..='Z' and keeps every other character.
#[verifier::external_body]
pub fn to_uppercase(s: &str) -> (r: String)
    ensures
        r@ == unicode_uppercase(s@),
        is_ascii(s@) ==> r@ == ascii_uppercase(s@),
{
    s.to_uppercase()
}

/// Calls `String::push`, which appends one character.
#[verifier::external_body]
pub fn push_char(s: &mut String, c: char)
    ensures
        final(s)@ == old(s)@.push(c),
{
    s.push(c);
}

/// `c` in ASCII lowercase (`char::to_ascii_lowercase`): 'A'..='Z' map to 'a'..='z', all
/// else is unchanged.
pub fn to_ascii_lowercase(c: char) -> (r: char)
    ensures
        r == ascii_lower(c),
{
    if 'A' <= c && c <= 'Z' {
        let b = (c as u8) + 32;
        b as char
    } else {
        c
    }
}

// ─── ASCII ──────────────────────────────────────────────────

pub open spec fn ascii_lower(c: char) -> char {
    if 'A' <= c && c <= 'Z' {
        ((c as u32) + 32) as char
    } else {
        c
    }
}

pub open spec fn ascii_upper(c: char) -> char {
    if 'a' <= c && c <= 'z' {
        ((c as u32) - 32) as char
    } else {
        c
    }
}

/// Whether every character of `s` is ASCII.
pub open spec fn is_ascii(s: Seq<char>) -> bool {
    forall|i: int| 0 <= i < s.len() ==> (#[trigger] s[i] as u32) < 128
}

pub open spec fn ascii_lowercase(s: Seq<char>) -> Seq<char> {
    s.map_values(|c: char| ascii_lower(c))
}

pub open spec fn ascii_uppercase(s: Seq<char>) -> Seq<char> {
    s.map_values(|c: char| ascii_upper(c))
}

pub open spec fn ascii_alphabetic(c: char) -> bool {
    ('A' <= c && c <= 'Z') || ('a' <= c && c <= 'z')
}

pub open spec fn ascii_digit(c: char) -> bool {
    '0' <= c && c <= '9'
}

pub fn is_ascii_alphabetic(c: char) -> (b: bool)
    ensures
        b == ascii_alphabetic(c),
{
    ('A' <= c && c <= 'Z') || ('a' <= c && c <= 'z')
}

pub fn is_ascii_digit(c: char) -> (b: bool)
    ensures
        b == ascii_digit(c),
{
    '0' <= c && c <= '9'
}

// ─── UTF-8 length ───────────────────────────────────────────

/// Number of bytes of the UTF-8 encoding of one character.
pub open spec fn utf8_width(c: char) -> nat {
    let u = c as u32;
    if u < 0x80 {
        1
    } else if u < 0x800 {
        2
    } else if u < 0x10000 {
        3
    } else {
        4
    }
}

/// Number of bytes of the UTF-8 encoding of a string (what `str::len` returns).
pub open spec fn utf8_len(s: Seq<char>) -> nat
    decreases s.len(),
{
    if s.len() == 0 {
        0
    } else {
        utf8_len(s.drop_last()) + utf8_width(s.last())
    }
}

pub fn char_width(c: char) -> (w: usize)
    ensures
        w == utf8_width(c),
        1 <= w <= 4,
{
    let u = c as u32;
    if u < 0x80 {
        1
    } else if u < 0x800 {
        2
    } else if u < 0x10000 {
        3
    } else {
        4
    }
}

pub proof fn lemma_utf8_len_push(s: Seq<char>, c: char)
    ensures
        utf8_len(s.push(c)) == utf8_len(s) + utf8_width(c),
{
    assert(s.push(c).drop_last() =~= s);
}

pub proof fn lemma_utf8_len_bounds(s: Seq<char>)
    ensures
        s.len() <= utf8_len(s) <= 4 * s.len(),
    decreases s.len(),
{
    if s.len() > 0 {
        lemma_utf8_len_bounds(s.drop_last());
    }
}

pub proof fn lemma_utf8_len_concat(a: Seq<char>, b: Seq<char>)
    ensures
        utf8_len(a + b) == utf8_len(a) + utf8_len(b),
    decreases b.len(),
{
    if b.len() == 0 {
        assert(a + b =~= a);
    } else {
        lemma_utf8_len_concat(a, b.drop_last());
        assert((a + b).drop_last() =~= a + b.drop_last());
    }
}

/// Byte length of the characters of `v` in `a..b`.
pub fn utf8_len_of(v: &Vec<char>, a: usize, b: usize) -> (n: usize)
    requires
        a <= b <= v.len(),
        utf8_len(v@.subrange(a as int, b as int)) <= usize::MAX,
    ensures
        n == utf8_len(v@.subrange(a as int, b as int)),
{
    let mut n: usize = 0;
    let mut i: usize = a;
    while i < b
        invariant
            a <= i <= b <= v.len(),
            utf8_len(v@.subrange(a as int, b as int)) <= usize::MAX,
            n == utf8_len(v@.subrange(a as int, i as int)),
        decreases b - i,
    {
        proof {
            assert(v@.subrange(a as int, i + 1) =~= v@.subrange(a as int, i as int).push(v@[i as int]));
            lemma_utf8_len_push(v@.subrange(a as int, i as int), v@[i as int]);
            assert(v@.subrange(a as int, b as int) =~= v@.subrange(a as int, i + 1) + v@.subrange(i + 1, b as int));
            lemma_utf8_len_concat(v@.subrange(a as int, i + 1), v@.subrange(i + 1, b as int));
        }
        n = n + char_width(v[i]);
        i = i + 1;
    }
    n
}

/// Byte length of a string given as characters.
pub fn str_utf8_len(s: &str) -> (n: usize)
    requires
        utf8_len(s@) <= usize::MAX,
    ensures
        n == utf8_len(s@),
{
    let v = chars_of(s);
    assert(v@.subrange(0, v@.len() as int) =~= s@);
    utf8_len_of(&v, 0, v.len())
}

/// Byte lengths of prefixes grow strictly with the number of characters.
pub proof fn lemma_utf8_take_strict(s: Seq<char>, k1: int, k2: int)
    requires
        0 <= k1 < k2 <= s.len(),
    ensures
        utf8_len(s.take(k1)) < utf8_len(s.take(k2)),
{
    assert(s.take(k2) =~= s.take(k1) + s.subrange(k1, k2));
    lemma_utf8_len_concat(s.take(k1), s.subrange(k1, k2));
    lemma_utf8_len_bounds(s.subrange(k1, k2));
}

/// Whether `s` can be cut after its first `n` bytes (`&s[..n]` panics inside a character).
pub open spec fn cuttable(s: Seq<char>, n: nat) -> bool {
    utf8_len(s) <= n || exists|k: int| 0 <= k <= s.len() && utf8_len(s.take(k)) == n
}

/// The first `n` bytes of `s`, or all of it when it is shorter (`&s[..s.len().min(n)]`).
pub open spec fn byte_prefix(s: Seq<char>, n: nat) -> Seq<char> {
    if utf8_len(s) <= n {
        s
    } else {
        s.take(choose|k: int| 0 <= k <= s.len() && utf8_len(s.take(k)) == n)
    }
}

/// `&s[..s.len().min(n)]` as a `String`.
pub fn byte_prefix_of(s: &str, n: usize) -> (r: String)
    requires
        cuttable(s@, n as nat),
    ensures
        r@ == byte_prefix(s@, n as nat),
{
    let cs = chars_of(s);
    let mut k: usize = 0;
    let mut b: u128 = 0;
    while k < cs.len() && b < n as u128
        invariant
            cs@ == s@,
            k <= cs.len(),
            b == utf8_len(s@.take(k as int)),
            k > 0 ==> utf8_len(s@.take(k - 1)) < n,
        decreases cs.len() - k,
    {
        proof {
            assert(s@.take(k + 1) =~= s@.take(k as int).push(s@[k as int]));
            lemma_utf8_len_push(s@.take(k as int), s@[k as int]);
        }
        b = b + char_width(cs[k]) as u128;
        k = k + 1;
    }
    if k == cs.len() && b <= n as u128 {
        assert(s@.take(k as int) =~= s@);
        return string_of(s);
    }
    proof {
        if k == cs.len() {
            assert(s@.take(k as int) =~= s@);
        }
        assert(utf8_len(s@) > n) by {
            if k < cs.len() {
                lemma_utf8_take_strict(s@, k as int, s@.len() as int);
                assert(s@.take(s@.len() as int) =~= s@);
            }
        }
        let k0 = choose|k0: int| 0 <= k0 <= s@.len() && utf8_len(s@.take(k0)) == n;
        if k0 < k {
            if k0 < k - 1 {
                lemma_utf8_take_strict(s@, k0, k - 1);
            }
        } else if k0 > k {
            lemma_utf8_take_strict(s@, k as int, k0);
        }
        assert(k0 == k);
        assert(cs@.subrange(0, k as int) =~= s@.take(k as int));
    }
    string_from(&cs, 0, k)
}

/// Whether `s` can be cut after its first `n` bytes: it is no longer, or a character ends
/// exactly there.
pub fn is_cuttable(s: &str, n: usize) -> (b: bool)
    ensures
        b == cuttable(s@, n as nat),
{
    let cs = chars_of(s);
    let mut k: usize = 0;
    let mut b: u128 = 0;
    while k < cs.len() && b < n as u128
        invariant
            cs@ == s@,
            k <= cs.len(),
            b == utf8_len(s@.take(k as int)),
            k > 0 ==> utf8_len(s@.take(k - 1)) < n,
        decreases cs.len() - k,
    {
        proof {
            assert(s@.take(k + 1) =~= s@.take(k as int).push(s@[k as int]));
            lemma_utf8_len_push(s@.take(k as int), s@[k as int]);
        }
        b = b + char_width(cs[k]) as u128;
        k = k + 1;
    }
    if k == cs.len() && b <= n as u128 {
        assert(s@.take(k as int) =~= s@);
        return true;
    }
    proof {
        if k == cs.len() {
            assert(s@.take(k as int) =~= s@);
        }
        if k < cs.len() {
            lemma_utf8_take_strict(s@, k as int, s@.len() as int);
            assert(s@.take(s@.len() as int) =~= s@);
        }
        assert(utf8_len(s@) > n || b == n);
        if b != n {
            assert(b > n);
            assert forall|k0: int| 0 <= k0 <= s@.len() implies utf8_len(#[trigger] s@.take(k0)) != n by {
                if k0 < k {
                    if k0 < k - 1 {
                        lemma_utf8_take_strict(s@, k0, k - 1);
                    }
                } else if k0 > k {
                    lemma_utf8_take_strict(s@, k as int, k0);
                }
            }
        }
    }
    b == n as u128
}

/// The byte length of `s`, or 2^32 when it is at least that long.
pub fn utf8_len_capped(s: &str) -> (n: u64)
    ensures
        n == if utf8_len(s@) < 0x1_0000_0000 {
            utf8_len(s@)
        } else {
            0x1_0000_0000
        },
{
    let cs = chars_of(s);
    let mut n: u64 = 0;
    let mut k: usize = 0;
    while k < cs.len()
        invariant
            cs@ == s@,
            k <= cs.len(),
            n == if utf8_len(s@.take(k as int)) < 0x1_0000_0000 {
                utf8_len(s@.take(k as int))
            } else {
                0x1_0000_0000
            },
        decreases cs.len() - k,
    {
        proof {
            assert(s@.take(k + 1) =~= s@.take(k as int).push(s@[k as int]));
            lemma_utf8_len_push(s@.take(k as int), s@[k as int]);
        }
        let w = char_width(cs[k]) as u64;
        n = if n + w < 0x1_0000_0000 {
            n + w
        } else {
            0x1_0000_0000
        };
        k = k + 1;
    }
    assert(s@.take(k as int) =~= s@);
    n
}

// ─── Building strings ───────────────────────────────────────

pub fn chars_of(s: &str) -> (v: Vec<char>)
    ensures
        v@ == s@,
{
    let mut v: Vec<char> = Vec::new();
    for c in it: s.chars()
        invariant
            v@ == it.seq().take(it.index() as int),
    {
        v.push(c);
    }
    assert(v@ == s@);
    v
}

pub fn append_str(dst: &mut String, s: &str)
    ensures
        final(dst)@ == old(dst)@ + s@,
{
    let ghost start = dst@;
    for c in it: s.chars()
        invariant
            dst@ == start + it.seq().take(it.index() as int),
    {
        push_char(dst, c);
        proof {
            assert(it.seq().take(it.index() as int + 1) =~= it.seq().take(it.index() as int).push(c));
        }
    }
    assert(dst@ =~= start + s@);
}

pub fn string_of(s: &str) -> (r: String)
    ensures
        r@ == s@,
{
    let mut r = String::new();
    append_str(&mut r, s);
    r
}

/// The characters of `v` in `a..b` as a `String`.
pub fn string_from(v: &Vec<char>, a: usize, b: usize) -> (r: String)
    requires
        a <= b <= v.len(),
    ensures
        r@ == v@.subrange(a as int, b as int),
{
    let mut r = String::new();
    let mut i = a;
    while i < b
        invariant
            a <= i <= b <= v.len(),
            r@ == v@.subrange(a as int, i as int),
        decreases b - i,
    {
        push_char(&mut r, v[i]);
        i = i + 1;
        assert(r@ =~= v@.subrange(a as int, i as int));
    }
    r
}

/// A copy of a `String`.
pub fn copy_string(s: &String) -> (r: String)
    ensures
        r@ == s@,
{
    string_of(s.as_str())
}

/// Equality of the characters of two strings.
pub fn str_eq(a: &str, b: &str) -> (r: bool)
    ensures
        r == (a@ == b@),
{
    let va = chars_of(a);
    let vb = chars_of(b);
    if va.len() != vb.len() {
        return false;
    }
    let mut i: usize = 0;
    while i < va.len()
        invariant
            va@ == a@,
            vb@ == b@,
            va.len() == vb.len(),
            i <= va.len(),
            forall|k: int| 0 <= k < i ==> va@[k] == vb@[k],
        decreases va.len() - i,
    {
        if va[i] != vb[i] {
            return false;
        }
        i = i + 1;
    }
    assert(a@ =~= b@);
    true
}

// ─── Trimming ───────────────────────────────────────────────

/// `s` without its leading whitespace.
pub open spec fn trim_start(s: Seq<char>) -> Seq<char>
    decreases s.len(),
{
    if s.len() > 0 && unicode_whitespace(s[0]) {
        trim_start(s.drop_first())
    } else {
        s
    }
}

/// `s` without its trailing whitespace.
pub open spec fn trim_end(s: Seq<char>) -> Seq<char>
    decreases s.len(),
{
    if s.len() > 0 && unicode_whitespace(s.last()) {
        trim_end(s.drop_last())
    } else {
        s
    }
}

/// `s` without leading and trailing whitespace (what `str::trim` returns).
pub open spec fn trim(s: Seq<char>) -> Seq<char> {
    trim_end(trim_start(s))
}

proof fn lemma_trim_start_from(s: Seq<char>, i: int)
    requires
        0 <= i <= s.len(),
        forall|k: int| 0 <= k < i ==> unicode_whitespace(s[k]),
        i == s.len() || !unicode_whitespace(s[i]),
    ensures
        trim_start(s) == s.subrange(i, s.len() as int),
    decreases i,
{
    if i == 0 {
        assert(s.subrange(0, s.len() as int) =~= s);
    } else {
        let t = s.drop_first();
        lemma_trim_start_from(t, i - 1);
        assert(t.subrange(i - 1, t.len() as int) =~= s.subrange(i, s.len() as int));
    }
}

proof fn lemma_trim_end_to(s: Seq<char>, j: int)
    requires
        0 <= j <= s.len(),
        forall|k: int| j <= k < s.len() ==> unicode_whitespace(s[k]),
        j == 0 || !unicode_whitespace(s[j - 1]),
    ensures
        trim_end(s) == s.subrange(0, j),
    decreases s.len() - j,
{
    if j == s.len() {
        assert(s.subrange(0, j) =~= s);
    } else {
        let t = s.drop_last();
        lemma_trim_end_to(t, j);
        assert(t.subrange(0, j) =~= s.subrange(0, j));
    }
}

/// Bounds `i..j` of `v[a..b]` with its leading and trailing whitespace removed.
pub fn trim_bounds(v: &Vec<char>, a: usize, b: usize) -> (r: (usize, usize))
    requires
        a <= b <= v.len(),
    ensures
        a <= r.0 <= r.1 <= b,
        v@.subrange(r.0 as int, r.1 as int) == trim(v@.subrange(a as int, b as int)),
{
    let ghost s = v@.subrange(a as int, b as int);
    let mut i = a;
    while i < b && is_whitespace(v[i])
        invariant
            a <= i <= b <= v.len(),
            forall|k: int| a <= k < i ==> unicode_whitespace(v@[k]),
        decreases b - i,
    {
        i = i + 1;
    }
    proof {
        lemma_trim_start_from(s, i - a);
        assert(s.subrange(i - a, s.len() as int) =~= v@.subrange(i as int, b as int));
    }
    let mut j = b;
    while j > i && is_whitespace(v[j - 1])
        invariant
            a <= i <= j <= b <= v.len(),
            forall|k: int| j <= k < b ==> unicode_whitespace(v@[k]),
        decreases j - i,
    {
        j = j - 1;
    }
    proof {
        let t = v@.subrange(i as int, b as int);
        lemma_trim_end_to(t, j - i);
        assert(t.subrange(0, j - i) =~= v@.subrange(i as int, j as int));
    }
    (i, j)
}

/// `str::trim` followed by `to_string`.
pub fn trim_string(s: &str) -> (r: String)
    ensures
        r@ == trim(s@),
{
    let v = chars_of(s);
    let (i, j) = trim_bounds(&v, 0, v.len());
    assert(v@.subrange(0, v@.len() as int) =~= s@);
    string_from(&v, i, j)
}

// ─── Splitting on whitespace ────────────────────────────────

/// Index of the first whitespace character at or after `i`, or the length.
pub open spec fn word_stop(s: Seq<char>, i: int) -> int
    decreases s.len() - i,
{
    if i < s.len() && !unicode_whitespace(s[i]) {
        word_stop(s, i + 1)
    } else {
        i
    }
}

/// Index of the first non-whitespace character at or after `i`, or the length.
pub open spec fn space_stop(s: Seq<char>, i: int) -> int
    decreases s.len() - i,
{
    if i < s.len() && unicode_whitespace(s[i]) {
        space_stop(s, i + 1)
    } else {
        i
    }
}

pub proof fn lemma_word_stop(s: Seq<char>, i: int)
    requires
        0 <= i <= s.len(),
    ensures
        i <= word_stop(s, i) <= s.len(),
        forall|k: int| i <= k < word_stop(s, i) ==> !unicode_whitespace(s[k]),
        word_stop(s, i) < s.len() ==> unicode_whitespace(s[word_stop(s, i)]),
    decreases s.len() - i,
{
    if i < s.len() && !unicode_whitespace(s[i]) {
        lemma_word_stop(s, i + 1);
    }
}

pub proof fn lemma_space_stop(s: Seq<char>, i: int)
    requires
        0 <= i <= s.len(),
    ensures
        i <= space_stop(s, i) <= s.len(),
        forall|k: int| i <= k < space_stop(s, i) ==> unicode_whitespace(s[k]),
        space_stop(s, i) < s.len() ==> !unicode_whitespace(s[space_stop(s, i)]),
    decreases s.len() - i,
{
    if i < s.len() && unicode_whitespace(s[i]) {
        lemma_space_stop(s, i + 1);
    }
}

/// The whitespace-separated words of `s` from index `i` on (what
/// `str::split_whitespace` yields): maximal runs of non-whitespace characters.
pub open spec fn words_from(s: Seq<char>, i: int) -> Seq<Seq<char>>
    decreases s.len() - i,
{
    let a = space_stop(s, i);
    if 0 <= i && a < s.len() {
        let b = word_stop(s, a);
        proof {
            lemma_space_stop(s, i);
            lemma_word_stop(s, a);
        }
        seq![s.subrange(a, b)] + words_from(s, b)
    } else {
        seq![]
    }
}

pub open spec fn words(s: Seq<char>) -> Seq<Seq<char>> {
    words_from(s, 0)
}

/// Every word is at least one character long.
pub proof fn lemma_words_nonempty(s: Seq<char>, i: int)
    ensures
        forall|k: int| 0 <= k < words_from(s, i).len() ==> #[trigger] words_from(s, i)[k].len() > 0,
    decreases s.len() - i,
{
    let a = space_stop(s, i);
    if 0 <= i && a < s.len() {
        lemma_space_stop(s, i);
        lemma_word_stop(s, a);
        let b = word_stop(s, a);
        lemma_words_nonempty(s, b);
        assert(b > a);
        let ws = words_from(s, i);
        assert(ws == seq![s.subrange(a, b)] + words_from(s, b));
        assert forall|k: int| 0 <= k < ws.len() implies #[trigger] ws[k].len() > 0 by {
            if k > 0 {
                assert(ws[k] == words_from(s, b)[k - 1]);
            }
        }
    }
}

/// Start of the next word at or after `i`, and its end; `None` when no word is left.
pub fn next_word(v: &Vec<char>, i: usize) -> (r: Option<(usize, usize)>)
    requires
        i <= v.len(),
    ensures
        match r {
            Some((a, b)) => a == space_stop(v@, i as int) && b == word_stop(v@, a as int) && i
                <= a < b <= v.len(),
            None => space_stop(v@, i as int) == v.len(),
        },
{
    let mut a = i;
    while a < v.len() && is_whitespace(v[a])
        invariant
            i <= a <= v.len(),
            space_stop(v@, i as int) == space_stop(v@, a as int),
        decreases v.len() - a,
    {
        a = a + 1;
    }
    if a == v.len() {
        return None;
    }
    let mut b = a;
    while b < v.len() && !is_whitespace(v[b])
        invariant
            a <= b <= v.len(),
            a < v.len(),
            !unicode_whitespace(v@[a as int]),
            word_stop(v@, a as int) == word_stop(v@, b as int),
            b == a || a < b,
        decreases v.len() - b,
    {
        b = b + 1;
    }
    Some((a, b))
}

/// The words of a string, as produced by `str::split_whitespace`.
pub fn split_whitespace(s: &str) -> (ws: Vec<String>)
    ensures
        ws@.len() == words(s@).len(),
        forall|k: int| 0 <= k < ws@.len() ==> #[trigger] ws@[k]@ == words(s@)[k],
{
    let v = chars_of(s);
    let mut ws: Vec<String> = Vec::new();
    let mut i: usize = 0;
    loop
        invariant
            v@ == s@,
            i <= v.len(),
            words(s@) == ws@.map_values(|w: String| w@) + words_from(s@, i as int),
        decreases v.len() - i,
    {
        match next_word(&v, i) {
            None => {
                assert(words_from(s@, i as int) =~= seq![]);
                assert(words(s@) =~= ws@.map_values(|w: String| w@));
                return ws;
            },
            Some((a, b)) => {
                let w = string_from(&v, a, b);
                let ghost before = ws@.map_values(|w: String| w@);
                ws.push(w);
                assert(ws@.map_values(|w: String| w@) =~= before.push(w@));
                assert(words_from(s@, i as int) =~= seq![s@.subrange(a as int, b as int)]
                    + words_from(s@, b as int));
                i = b;
            },
        }
    }
}


// ─── Lines ──────────────────────────────────────────────────

/// Index of the first newline at or after `i`, or the length.
pub open spec fn line_stop(s: Seq<char>, i: int) -> int
    decreases s.len() - i,
{
    if 0 <= i < s.len() && s[i] != '\n' {
        line_stop(s, i + 1)
    } else {
        i
    }
}

pub proof fn lemma_line_stop(s: Seq<char>, i: int)
    requires
        0 <= i <= s.len(),
    ensures
        i <= line_stop(s, i) <= s.len(),
        forall|k: int| i <= k < line_stop(s, i) ==> s[k] != '\n',
        line_stop(s, i) < s.len() ==> s[line_stop(s, i)] == '\n',
    decreases s.len() - i,
{
    if i < s.len() && s[i] != '\n' {
        lemma_line_stop(s, i + 1);
    }
}

/// A line ended by `\r\n` without its carriage return.
pub open spec fn without_cr(t: Seq<char>) -> Seq<char> {
    if t.len() > 0 && t.last() == '\r' {
        t.drop_last()
    } else {
        t
    }
}

/// The lines of `s` from index `i` on, as `str::lines` yields them: `s` split at each
/// `\n`, a `\r` just before the `\n` dropped, and no empty line after a final `\n`. The
/// last line, when no `\n` ends it, is kept as it is.
pub open spec fn lines_from(s: Seq<char>, i: int) -> Seq<Seq<char>>
    decreases s.len() + 1 - i,
{
    if 0 <= i < s.len() {
        let j = line_stop(s, i);
        proof {
            lemma_line_stop(s, i);
        }
        seq![
            if j < s.len() {
                without_cr(s.subrange(i, j))
            } else {
                s.subrange(i, j)
            },
        ] + lines_from(s, j + 1)
    } else {
        seq![]
    }
}

pub open spec fn lines_of(s: Seq<char>) -> Seq<Seq<char>> {
    lines_from(s, 0)
}

/// The lines of a string, as `str::lines` yields them.
pub fn lines(s: &str) -> (ls: Vec<String>)
    ensures
        ls@.map_values(|l: String| l@) == lines_of(s@),
{
    let v = chars_of(s);
    let mut ls: Vec<String> = Vec::new();
    let mut i: usize = 0;
    while i < v.len()
        invariant
            v@ == s@,
            i <= v.len(),
            lines_of(s@) == ls@.map_values(|l: String| l@) + lines_from(s@, i as int),
        decreases v.len() - i,
    {
        let mut j = i;
        while j < v.len() && v[j] != '\n'
            invariant
                i <= j <= v.len(),
                i < v.len(),
                line_stop(v@, i as int) == line_stop(v@, j as int),
            decreases v.len() - j,
        {
            j = j + 1;
        }
        proof {
            lemma_line_stop(v@, i as int);
        }
        let end = if j < v.len() && j > i && v[j - 1] == '\r' {
            j - 1
        } else {
            j
        };
        let line = string_from(&v, i, end);
        let ghost before = ls@.map_values(|l: String| l@);
        ls.push(line);
        proof {
            assert(ls@.map_values(|l: String| l@) =~= before.push(line@));
            if j < v.len() {
                assert(line@ =~= without_cr(s@.subrange(i as int, j as int)));
            } else {
                assert(line@ =~= s@.subrange(i as int, j as int));
            }
            assert(lines_from(s@, i as int) =~= seq![line@] + lines_from(s@, j + 1));
        }
        if j < v.len() {
            i = j + 1;
        } else {
            assert(lines_from(s@, j + 1) =~= seq![]);
            i = j;
        }
    }
    assert(lines_from(s@, i as int) =~= seq![]);
    assert(lines_of(s@) =~= ls@.map_values(|l: String| l@));
    ls
}

// ─── Decimal numbers ────────────────────────────────────────

pub open spec fn digit_char(d: nat) -> char {
    ((d + 48) as u8) as char
}

/// The decimal digits of `n`, as `format!("{}", n)` writes them.
pub open spec fn decimal(n: nat) -> Seq<char>
    decreases n,
{
    if n < 10 {
        seq![digit_char(n)]
    } else {
        decimal(n / 10).push(digit_char(n % 10))
    }
}

fn digit(d: u64) -> (c: char)
    requires
        d < 10,
    ensures
        c == digit_char(d as nat),
{
    let b: u8 = 48u8 + (d as u8);
    b as char
}

/// Appends the decimal digits of `n`.
pub fn append_decimal(dst: &mut String, n: usize)
    ensures
        final(dst)@ == old(dst)@ + decimal(n as nat),
{
    append_decimal_u64(dst, n as u64);
}

/// Appends `n` in decimal.
pub fn append_decimal_u64(dst: &mut String, n: u64)
    ensures
        final(dst)@ == old(dst)@ + decimal(n as nat),
    decreases n,
{
    if n < 10 {
        push_char(dst, digit(n));
        assert(final(dst)@ =~= old(dst)@ + decimal(n as nat)) by {
            assert(decimal(n as nat) =~= seq![digit_char(n as nat)]);
        };
    } else {
        append_decimal_u64(dst, n / 10);
        let ghost mid = dst@;
        push_char(dst, digit(n % 10));
        assert(dst@ =~= old(dst)@ + decimal(n as nat));
    }
}


/// The decimal digits of `v`, after a '-' when it is negative.
pub open spec fn signed_decimal(v: int) -> Seq<char> {
    if v < 0 {
        seq!['-'] + decimal((-v) as nat)
    } else {
        decimal(v as nat)
    }
}

/// Appends `v` in decimal (`format!("{}", v)` for an `i32`).
pub fn append_signed_decimal(dst: &mut String, v: i32)
    ensures
        final(dst)@ == old(dst)@ + signed_decimal(v as int),
{
    if v < 0 {
        push_char(dst, '-');
        let m = (-(v as i64)) as usize;
        append_decimal(dst, m);
        assert(final(dst)@ =~= old(dst)@ + signed_decimal(v as int));
    } else {
        append_decimal(dst, v as usize);
    }
}

} // verus!
