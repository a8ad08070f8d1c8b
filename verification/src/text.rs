//! Character-level text utilities: character classes, first-index scans,
//! trimming bounds, substring search, case-insensitive comparison, and
//! string builders. The extractors and sanitizers are written over these.

use vstd::prelude::*;
use vstd::std_specs::iter::IteratorSpec;

verus! {

broadcast use vstd::string::group_string_axioms;

// ---------------------------------------------------------------------------
// Character classes
// ---------------------------------------------------------------------------

/// A whitespace character (the Unicode `White_Space` set, as `str::trim`
/// understands it).
pub open spec fn is_space_char(c: char) -> bool {
    let u = c as u32;
    u == 0x09 || u == 0x0A || u == 0x0B || u == 0x0C || u == 0x0D || u == 0x20 || u == 0x85
        || u == 0xA0 || u == 0x1680 || (0x2000 <= u && u <= 0x200A) || u == 0x2028 || u == 0x2029
        || u == 0x202F || u == 0x205F || u == 0x3000
}

/// Runtime test for [`is_space_char`].
pub fn is_space(c: char) -> (r: bool)
    ensures
        r == is_space_char(c),
{
    let u = c as u32;
    u == 0x09 || u == 0x0A || u == 0x0B || u == 0x0C || u == 0x0D || u == 0x20 || u == 0x85
        || u == 0xA0 || u == 0x1680 || (0x2000 <= u && u <= 0x200A) || u == 0x2028 || u == 0x2029
        || u == 0x202F || u == 0x205F || u == 0x3000
}

/// An ASCII word character: a letter, a digit or an underscore. Fence
/// language tags are made of these.
pub open spec fn is_word_char(c: char) -> bool {
    let u = c as u32;
    (0x30 <= u && u <= 0x39) || (0x41 <= u && u <= 0x5A) || (0x61 <= u && u <= 0x7A) || u == 0x5F
}

/// Runtime test for [`is_word_char`].
pub fn is_word(c: char) -> (r: bool)
    ensures
        r == is_word_char(c),
{
    let u = c as u32;
    (0x30 <= u && u <= 0x39) || (0x41 <= u && u <= 0x5A) || (0x61 <= u && u <= 0x7A) || u == 0x5F
}

/// The code point of `c` with an ASCII upper-case letter folded to lower
/// case; other characters are left as they are.
pub open spec fn lower_code(c: char) -> int {
    let u = c as u32;
    if 0x41 <= u && u <= 0x5A {
        u + 0x20
    } else {
        u as int
    }
}

/// Two characters are equal up to ASCII case.
pub open spec fn chars_eq_nocase(a: char, b: char) -> bool {
    lower_code(a) == lower_code(b)
}

/// Two character sequences are equal up to ASCII case.
pub open spec fn seq_eq_nocase(a: Seq<char>, b: Seq<char>) -> bool {
    a.len() == b.len() && (forall|i: int| 0 <= i < a.len() ==> chars_eq_nocase(a[i], b[i]))
}

/// Compares a character vector against a string, ignoring ASCII case.
pub fn eq_nocase(a: &Vec<char>, b: &str) -> (r: bool)
    ensures
        r == seq_eq_nocase(a@, b@),
{
    let bn = b.unicode_len();
    if a.len() != bn {
        return false;
    }
    let mut i: usize = 0;
    while i < bn
        invariant
            0 <= i <= bn,
            a@.len() == bn,
            b@.len() == bn,
            forall|j: int| 0 <= j < i ==> chars_eq_nocase(a@[j], b@[j]),
        decreases bn - i,
    {
        let ca = a[i] as u32;
        let cb = b.get_char(i) as u32;
        let la = if 0x41 <= ca && ca <= 0x5A {
            ca + 0x20
        } else {
            ca
        };
        let lb = if 0x41 <= cb && cb <= 0x5A {
            cb + 0x20
        } else {
            cb
        };
        if la != lb {
            return false;
        }
        i += 1;
    }
    true
}

// ---------------------------------------------------------------------------
// First-index scans
// ---------------------------------------------------------------------------

/// The least index at which `p` holds, or `l.len()` if it holds nowhere.
pub open spec fn first_where(l: Seq<char>, p: spec_fn(char) -> bool) -> int
    decreases l.len(),
{
    if l.len() == 0 {
        0
    } else if p(l[0]) {
        0
    } else {
        1 + first_where(l.drop_first(), p)
    }
}

/// [`first_where`] lies in `[0, l.len()]`, nothing before it satisfies `p`,
/// and if it is in range then `p` holds there.
pub proof fn lemma_first_where(l: Seq<char>, p: spec_fn(char) -> bool)
    ensures
        0 <= first_where(l, p) <= l.len(),
        forall|j: int| 0 <= j < first_where(l, p) ==> !p(l[j]),
        first_where(l, p) < l.len() ==> p(l[first_where(l, p)]),
    decreases l.len(),
{
    if l.len() == 0 {
    } else if p(l[0]) {
    } else {
        lemma_first_where(l.drop_first(), p);
        assert forall|j: int| 0 <= j < first_where(l, p) implies !p(l[j]) by {
            if j >= 1 {
                assert(l.drop_first()[j - 1] == l[j]);
            }
        }
        if first_where(l, p) < l.len() {
            assert(l.drop_first()[first_where(l, p) - 1] == l[first_where(l, p)]);
        }
    }
}

/// An index before which `p` never holds, and at which it holds (unless it is
/// the length), is exactly [`first_where`].
pub proof fn lemma_first_where_unique(l: Seq<char>, p: spec_fn(char) -> bool, i: int)
    requires
        0 <= i <= l.len(),
        forall|j: int| 0 <= j < i ==> !p(l[j]),
        i < l.len() ==> p(l[i]),
    ensures
        first_where(l, p) == i,
    decreases l.len(),
{
    if l.len() == 0 {
    } else if p(l[0]) {
        assert(i == 0);
    } else {
        assert(i >= 1);
        assert forall|j: int| 0 <= j < i - 1 implies !p(l.drop_first()[j]) by {
            assert(l.drop_first()[j] == l[j + 1]);
        }
        if i - 1 < l.drop_first().len() {
            assert(l.drop_first()[i - 1] == l[i]);
        }
        lemma_first_where_unique(l.drop_first(), p, i - 1);
    }
}

/// The end of `l` once trailing whitespace is dropped: one past the last
/// non-whitespace character, or `0` if there is none.
pub open spec fn trim_end_idx(l: Seq<char>) -> int
    decreases l.len(),
{
    if l.len() == 0 {
        0
    } else if is_space_char(l[l.len() - 1]) {
        trim_end_idx(l.drop_last())
    } else {
        l.len() as int
    }
}

/// An index after which everything is whitespace, and just before which (if
/// anywhere) something is not, is exactly [`trim_end_idx`].
pub proof fn lemma_trim_end_unique(l: Seq<char>, e: int)
    requires
        0 <= e <= l.len(),
        forall|j: int| e <= j < l.len() ==> is_space_char(l[j]),
        e > 0 ==> !is_space_char(l[e - 1]),
    ensures
        trim_end_idx(l) == e,
    decreases l.len(),
{
    if l.len() == 0 {
    } else if is_space_char(l[l.len() - 1]) {
        assert(e < l.len());
        assert forall|j: int| e <= j < l.drop_last().len() implies is_space_char(
            l.drop_last()[j],
        ) by {
            assert(l.drop_last()[j] == l[j]);
        }
        if e > 0 {
            assert(l.drop_last()[e - 1] == l[e - 1]);
        }
        lemma_trim_end_unique(l.drop_last(), e);
    } else {
        assert(e == l.len());
    }
}

// ---------------------------------------------------------------------------
// Trimming
// ---------------------------------------------------------------------------

/// The bounds of `l` once leading and trailing whitespace is dropped; an
/// all-whitespace sequence trims to the empty range.
pub open spec fn trim_start_idx(l: Seq<char>) -> int {
    first_where(l, |c: char| !is_space_char(c))
}

/// `l` with leading and trailing whitespace removed, as `str::trim` does.
pub open spec fn spec_trim(l: Seq<char>) -> Seq<char> {
    let s = trim_start_idx(l);
    let e = trim_end_idx(l);
    if 0 <= s < e <= l.len() {
        l.subrange(s, e)
    } else {
        Seq::empty()
    }
}

// ---------------------------------------------------------------------------
// Substring search
// ---------------------------------------------------------------------------

/// `n` occurs somewhere in `h` as a contiguous run.
pub open spec fn contains_seq(h: Seq<char>, n: Seq<char>) -> bool {
    exists|i: int| 0 <= i && i + n.len() <= h.len() && #[trigger] h.subrange(i, i + n.len() as int)
        == n
}

/// Substring search: does `needle` occur in `hay`?
pub fn contains_chars(hay: &Vec<char>, needle: &str) -> (r: bool)
    ensures
        r == contains_seq(hay@, needle@),
{
    let m = needle.unicode_len();
    let n = hay.len();
    if m > n {
        return false;
    }
    if m == 0 {
        proof {
            assert(hay@.subrange(0, 0 + needle@.len() as int) =~= needle@);
        }
        return true;
    }
    let mut i: usize = 0;
    while i <= n - m
        invariant
            0 <= i <= n - m + 1,
            1 <= m <= n,
            n == hay@.len(),
            m == needle@.len(),
            forall|k: int| 0 <= k < i ==> #[trigger] hay@.subrange(k, k + m as int) != needle@,
        decreases n - i,
    {
        let mut j: usize = 0;
        let mut matched = true;
        while j < m
            invariant
                0 <= j <= m,
                i + m <= n,
                n == hay@.len(),
                m == needle@.len(),
                matched ==> forall|t: int| 0 <= t < j ==> hay@[i + t] == needle@[t],
                !matched ==> hay@.subrange(i as int, i + m as int) != needle@,
            decreases m - j,
        {
            if hay[i + j] != needle.get_char(j) {
                proof {
                    assert(hay@.subrange(i as int, i + m as int)[j as int] == hay@[i + j]);
                }
                matched = false;
                j = m;
            } else {
                j += 1;
            }
        }
        if matched {
            proof {
                assert(hay@.subrange(i as int, i + m as int) =~= needle@);
            }
            return true;
        }
        i += 1;
    }
    proof {
        assert forall|k: int| 0 <= k && k + needle@.len() <= hay@.len() implies #[trigger] hay@
            .subrange(k, k + needle@.len() as int) != needle@ by {
            assert(k < i);
        }
    }
    false
}

// ---------------------------------------------------------------------------
// Scans over a character vector
// ---------------------------------------------------------------------------

/// Within `[a, b)`, the least absolute index whose character is `c0`, or `b`.
pub fn scan_eq(chars: &Vec<char>, a: usize, b: usize, c0: char) -> (t: usize)
    requires
        a <= b <= chars@.len(),
    ensures
        a <= t <= b,
        forall|j: int| a <= j < t ==> chars@[j] != c0,
        t < b ==> chars@[t as int] == c0,
{
    let mut i: usize = a;
    while i < b && chars[i] != c0
        invariant
            a <= i <= b,
            b <= chars@.len(),
            forall|j: int| a <= j < i ==> chars@[j] != c0,
        decreases b - i,
    {
        i += 1;
    }
    i
}

/// Within `[a, b)`, the least absolute index whose character is not `c0`,
/// or `b`.
pub fn scan_neq(chars: &Vec<char>, a: usize, b: usize, c0: char) -> (t: usize)
    requires
        a <= b <= chars@.len(),
    ensures
        a <= t <= b,
        forall|j: int| a <= j < t ==> chars@[j] == c0,
        t < b ==> chars@[t as int] != c0,
{
    let mut i: usize = a;
    while i < b && chars[i] == c0
        invariant
            a <= i <= b,
            b <= chars@.len(),
            forall|j: int| a <= j < i ==> chars@[j] == c0,
        decreases b - i,
    {
        i += 1;
    }
    i
}

/// Within `[a, b)`, the least absolute index whose character is not
/// whitespace, or `b`.
pub fn scan_not_ws(chars: &Vec<char>, a: usize, b: usize) -> (t: usize)
    requires
        a <= b <= chars@.len(),
    ensures
        a <= t <= b,
        forall|j: int| a <= j < t ==> is_space_char(chars@[j]),
        t < b ==> !is_space_char(chars@[t as int]),
{
    let mut i: usize = a;
    while i < b && is_space(chars[i])
        invariant
            a <= i <= b,
            b <= chars@.len(),
            forall|j: int| a <= j < i ==> is_space_char(chars@[j]),
        decreases b - i,
    {
        i += 1;
    }
    i
}

/// Within `[a, b)`, the least absolute index whose character is whitespace,
/// or `b`.
pub fn scan_ws(chars: &Vec<char>, a: usize, b: usize) -> (t: usize)
    requires
        a <= b <= chars@.len(),
    ensures
        a <= t <= b,
        forall|j: int| a <= j < t ==> !is_space_char(chars@[j]),
        t < b ==> is_space_char(chars@[t as int]),
{
    let mut i: usize = a;
    while i < b && !is_space(chars[i])
        invariant
            a <= i <= b,
            b <= chars@.len(),
            forall|j: int| a <= j < i ==> !is_space_char(chars@[j]),
        decreases b - i,
    {
        i += 1;
    }
    i
}

/// Within `[a, b)`, the least absolute index whose character is not a word
/// character, or `b`.
pub fn scan_not_word(chars: &Vec<char>, a: usize, b: usize) -> (t: usize)
    requires
        a <= b <= chars@.len(),
    ensures
        a <= t <= b,
        forall|j: int| a <= j < t ==> is_word_char(chars@[j]),
        t < b ==> !is_word_char(chars@[t as int]),
{
    let mut i: usize = a;
    while i < b && is_word(chars[i])
        invariant
            a <= i <= b,
            b <= chars@.len(),
            forall|j: int| a <= j < i ==> is_word_char(chars@[j]),
        decreases b - i,
    {
        i += 1;
    }
    i
}

/// Within `[a, b)`, one past the last non-whitespace character, or `a` if the
/// whole range is whitespace.
pub fn scan_end_ws(chars: &Vec<char>, a: usize, b: usize) -> (t: usize)
    requires
        a <= b <= chars@.len(),
    ensures
        a <= t <= b,
        forall|j: int| t <= j < b ==> is_space_char(chars@[j]),
        t > a ==> !is_space_char(chars@[t - 1]),
{
    let mut i: usize = b;
    while i > a && is_space(chars[i - 1])
        invariant
            a <= i <= b,
            b <= chars@.len(),
            forall|j: int| i <= j < b ==> is_space_char(chars@[j]),
        decreases i,
    {
        i -= 1;
    }
    i
}

// ---------------------------------------------------------------------------
// String builders
// ---------------------------------------------------------------------------

/// Relies on `String::push`: appends exactly the given character to the end
/// of the string.
#[verifier::external_body]
pub(crate) fn push_char(s: &mut String, c: char)
    ensures
        final(s)@ == old(s)@ + seq![c],
{
    s.push(c);
}

/// A fresh string holding `chars[from..to]`.
pub fn string_from_range(chars: &Vec<char>, from: usize, to: usize) -> (r: String)
    requires
        from <= to <= chars@.len(),
    ensures
        r@ == chars@.subrange(from as int, to as int),
{
    let mut s = String::new();
    let mut i: usize = from;
    while i < to
        invariant
            from <= i <= to <= chars@.len(),
            s@ == chars@.subrange(from as int, i as int),
        decreases to - i,
    {
        push_char(&mut s, chars[i]);
        proof {
            assert(chars@.subrange(from as int, i + 1 as int) =~= chars@.subrange(
                from as int,
                i as int,
            ) + seq![chars@[i as int]]);
        }
        i += 1;
    }
    s
}

/// A fresh character vector holding `chars[from..to]`.
pub fn vec_from_range(chars: &Vec<char>, from: usize, to: usize) -> (r: Vec<char>)
    requires
        from <= to <= chars@.len(),
    ensures
        r@ == chars@.subrange(from as int, to as int),
{
    let mut v: Vec<char> = Vec::new();
    let mut i: usize = from;
    while i < to
        invariant
            from <= i <= to <= chars@.len(),
            v@ == chars@.subrange(from as int, i as int),
        decreases to - i,
    {
        v.push(chars[i]);
        proof {
            assert(chars@.subrange(from as int, i + 1 as int) =~= chars@.subrange(
                from as int,
                i as int,
            ) + seq![chars@[i as int]]);
        }
        i += 1;
    }
    v
}

/// Appends `chars[from..to]` to `s`.
pub fn append_range(s: &mut String, chars: &Vec<char>, from: usize, to: usize)
    requires
        from <= to <= chars@.len(),
    ensures
        final(s)@ == old(s)@ + chars@.subrange(from as int, to as int),
{
    let mut i: usize = from;
    while i < to
        invariant
            from <= i <= to <= chars@.len(),
            s@ == old(s)@ + chars@.subrange(from as int, i as int),
        decreases to - i,
    {
        push_char(s, chars[i]);
        proof {
            assert(chars@.subrange(from as int, i + 1 as int) =~= chars@.subrange(
                from as int,
                i as int,
            ) + seq![chars@[i as int]]);
            assert(old(s)@ + chars@.subrange(from as int, i + 1 as int) =~= (old(s)@
                + chars@.subrange(from as int, i as int)) + seq![chars@[i as int]]);
        }
        i += 1;
    }
    proof {
        assert(s@ =~= old(s)@ + chars@.subrange(from as int, to as int));
    }
}

// ---------------------------------------------------------------------------
// Decimal rendering
// ---------------------------------------------------------------------------

/// The decimal digit character for `d < 10`.
pub open spec fn dec_digit(d: nat) -> char
    recommends
        d < 10,
{
    if d == 0 {
        '0'
    } else if d == 1 {
        '1'
    } else if d == 2 {
        '2'
    } else if d == 3 {
        '3'
    } else if d == 4 {
        '4'
    } else if d == 5 {
        '5'
    } else if d == 6 {
        '6'
    } else if d == 7 {
        '7'
    } else if d == 8 {
        '8'
    } else {
        '9'
    }
}

/// The usual decimal rendering of `n`, without leading zeros.
pub open spec fn dec_str(n: nat) -> Seq<char>
    decreases n,
{
    if n < 10 {
        seq![dec_digit(n)]
    } else {
        dec_str(n / 10) + seq![dec_digit(n % 10)]
    }
}

/// The digit character for `d < 10`.
fn dec_digit_char(d: u64) -> (c: char)
    requires
        d < 10,
    ensures
        c == dec_digit(d as nat),
{
    match d {
        0 => '0',
        1 => '1',
        2 => '2',
        3 => '3',
        4 => '4',
        5 => '5',
        6 => '6',
        7 => '7',
        8 => '8',
        _ => '9',
    }
}

/// Appends the decimal rendering of `n` to `s`.
pub fn push_dec(s: &mut String, n: u64)
    ensures
        final(s)@ == old(s)@ + dec_str(n as nat),
    decreases n,
{
    if n < 10 {
        push_char(s, dec_digit_char(n));
    } else {
        push_dec(s, n / 10);
        push_char(s, dec_digit_char(n % 10));
        proof {
            assert(old(s)@ + dec_str((n / 10) as nat) + seq![dec_digit((n % 10) as nat)] =~= old(
                s,
            )@ + (dec_str((n / 10) as nat) + seq![dec_digit((n % 10) as nat)]));
        }
    }
}

// ---------------------------------------------------------------------------
// Conversion from &str
// ---------------------------------------------------------------------------

/// The characters of `s`, one per element.
pub fn str_chars(s: &str) -> (r: Vec<char>)
    ensures
        r@ == s@,
{
    let mut it = s.chars();
    let mut v: Vec<char> = Vec::new();
    loop
        invariant
            it.obeys_prophetic_iter_laws(),
            it.decrease() is Some,
            v@ + it.remaining() == s@,
        ensures
            v@ == s@,
        decreases it.decrease()->0,
    {
        let ghost prev = it.remaining();
        match it.next() {
            Some(c) => {
                v.push(c);
                proof {
                    assert(v@ + it.remaining() =~= v@.drop_last() + (seq![c] + it.remaining()));
                    assert(seq![c] + it.remaining() =~= prev);
                }
            },
            None => {
                proof {
                    assert(v@ + it.remaining() =~= v@);
                }
                break ;
            },
        }
    }
    v
}

} // verus!
