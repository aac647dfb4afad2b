//! Text primitives over character sequences.
//!
//! Strings are modelled by their view, a `Seq<char>`; the executable code works on
//! `Vec<char>` copies and turns them back into `String`s at the edge.
use vstd::prelude::*;

verus! {

// ---------------------------------------------------------------------------
// Conversions between `str`/`String` and character vectors
// ---------------------------------------------------------------------------

/// The characters of a string slice, in order.
pub fn chars_of(s: &str) -> (r: Vec<char>)
    ensures
        r@ == s@,
{
    let mut r: Vec<char> = Vec::new();
    for c in it: s.chars()
        invariant
            r@ == it.seq().take(it.index() as int),
    {
        r.push(c);
    }
    r
}

/// Builds a `String` from characters (`String::from_iter`); std documents that the
/// string holds exactly those characters in order.
#[verifier::external_body]
pub(crate) fn string_from_chars(v: Vec<char>) -> (r: String)
    ensures
        r@ == v@,
{
    String::from_iter(v)
}

/// Appends the characters of `s` to `out`.
pub fn push_str(out: &mut Vec<char>, s: &str)
    ensures
        final(out)@ == old(out)@ + s@,
{
    for c in it: s.chars()
        invariant
            out@ == old(out)@ + it.seq().take(it.index() as int),
    {
        out.push(c);
    }
}

/// Appends the characters of `s` to `out`.
pub fn push_chars(out: &mut Vec<char>, s: &Vec<char>)
    ensures
        final(out)@ == old(out)@ + s@,
{
    let mut i: usize = 0;
    while i < s.len()
        invariant
            i <= s.len(),
            out@ == old(out)@ + s@.take(i as int),
        decreases s.len() - i,
    {
        out.push(s[i]);
        i += 1;
        assert(s@.take(i as int) =~= s@.take(i - 1) + seq![s@[i - 1]]);
    }
    assert(s@.take(s.len() as int) =~= s@);
}

/// The sub-vector `s[from..to]`.
pub fn slice_vec(s: &Vec<char>, from: usize, to: usize) -> (r: Vec<char>)
    requires
        from <= to <= s.len(),
    ensures
        r@ == s@.subrange(from as int, to as int),
{
    let mut r: Vec<char> = Vec::new();
    let mut i: usize = from;
    while i < to
        invariant
            from <= i <= to <= s.len(),
            r@ == s@.subrange(from as int, i as int),
        decreases to - i,
    {
        r.push(s[i]);
        i += 1;
        assert(r@ =~= s@.subrange(from as int, i as int));
    }
    r
}

/// Two character vectors hold the same characters.
pub fn chars_eq(a: &Vec<char>, b: &Vec<char>) -> (r: bool)
    ensures
        r == (a@ == b@),
{
    if a.len() != b.len() {
        return false;
    }
    let mut i: usize = 0;
    while i < a.len()
        invariant
            a.len() == b.len(),
            i <= a.len(),
            forall|j: int| 0 <= j < i ==> a@[j] == b@[j],
        decreases a.len() - i,
    {
        if a[i] != b[i] {
            return false;
        }
        i += 1;
    }
    assert(a@ =~= b@);
    true
}

/// Two strings hold the same characters.
pub fn str_eq(a: &str, b: &str) -> (r: bool)
    ensures
        r == (a@ == b@),
{
    let av = chars_of(a);
    let bv = chars_of(b);
    chars_eq(&av, &bv)
}

// ---------------------------------------------------------------------------
// Prefixes, suffixes and occurrences
// ---------------------------------------------------------------------------

pub open spec fn starts_with(s: Seq<char>, p: Seq<char>) -> bool {
    p.len() <= s.len() && s.subrange(0, p.len() as int) == p
}

pub open spec fn ends_with(s: Seq<char>, p: Seq<char>) -> bool {
    p.len() <= s.len() && s.subrange(s.len() - p.len(), s.len() as int) == p
}

/// `p` occurs in `s` starting at index `i`.
pub open spec fn occurs_at(s: Seq<char>, p: Seq<char>, i: int) -> bool {
    0 <= i && i + p.len() <= s.len() && s.subrange(i, i + p.len()) == p
}

/// The first index `>= i` where `p` occurs in `s`.
pub open spec fn find_from(s: Seq<char>, p: Seq<char>, i: int) -> Option<int>
    decreases s.len() + 1 - i,
{
    if i < 0 || i + p.len() > s.len() {
        None
    } else if occurs_at(s, p, i) {
        Some(i)
    } else {
        find_from(s, p, i + 1)
    }
}

/// The first index where `p` occurs in `s` (`str::find`, in characters).
pub open spec fn find(s: Seq<char>, p: Seq<char>) -> Option<int> {
    find_from(s, p, 0)
}

pub open spec fn contains(s: Seq<char>, p: Seq<char>) -> bool {
    find(s, p) is Some
}

/// The last index of character `c` in `s` (`str::rfind` with a `char`).
pub open spec fn rfind_char(s: Seq<char>, c: char) -> Option<int>
    decreases s.len(),
{
    if s.len() == 0 {
        None
    } else if s.last() == c {
        Some(s.len() - 1)
    } else {
        rfind_char(s.drop_last(), c)
    }
}

/// The first index of character `c` in `s`.
pub open spec fn find_char(s: Seq<char>, c: char) -> Option<int> {
    find(s, seq![c])
}

pub proof fn lemma_find_from_props(s: Seq<char>, p: Seq<char>, i: int)
    requires
        0 <= i,
    ensures
        find_from(s, p, i) matches Some(k) ==> i <= k && occurs_at(s, p, k) && forall|j: int|
            i <= j < k ==> !occurs_at(s, p, j),
        find_from(s, p, i) is None ==> forall|j: int| i <= j ==> !occurs_at(s, p, j),
    decreases s.len() + 1 - i,
{
    if i + p.len() > s.len() {
    } else if occurs_at(s, p, i) {
    } else {
        lemma_find_from_props(s, p, i + 1);
    }
}

pub proof fn lemma_find_props(s: Seq<char>, p: Seq<char>)
    ensures
        find(s, p) matches Some(k) ==> 0 <= k && k + p.len() <= s.len() && s.subrange(k, k + p.len()) == p
            && forall|j: int| 0 <= j < k ==> !occurs_at(s, p, j),
        find(s, p) is None ==> forall|j: int| 0 <= j ==> !occurs_at(s, p, j),
{
    lemma_find_from_props(s, p, 0);
}

pub proof fn lemma_rfind_char_props(s: Seq<char>, c: char)
    ensures
        rfind_char(s, c) matches Some(k) ==> 0 <= k < s.len() && s[k] == c && forall|j: int|
            k < j < s.len() ==> s[j] != c,
        rfind_char(s, c) is None ==> forall|j: int| 0 <= j < s.len() ==> s[j] != c,
    decreases s.len(),
{
    if s.len() == 0 {
    } else if s.last() == c {
    } else {
        let t = s.drop_last();
        lemma_rfind_char_props(t, c);
        assert forall|j: int| 0 <= j < t.len() implies t[j] == s[j] by {}
    }
}

/// `p` occurs in `s` at index `i`.
pub fn matches_at(s: &Vec<char>, p: &Vec<char>, i: usize) -> (r: bool)
    ensures
        r == occurs_at(s@, p@, i as int),
{
    if i > s.len() || p.len() > s.len() - i {
        return false;
    }
    let mut j: usize = 0;
    while j < p.len()
        invariant
            i + p.len() <= s.len(),
            j <= p.len(),
            forall|k: int| 0 <= k < j ==> s@[i + k] == p@[k],
        decreases p.len() - j,
    {
        if s[i + j] != p[j] {
            assert(s@.subrange(i as int, i + p.len())[j as int] != p@[j as int]);
            return false;
        }
        j += 1;
    }
    assert(s@.subrange(i as int, i + p.len()) =~= p@);
    true
}

/// The first index `>= from` where `p` occurs in `s`.
pub fn find_vec_from(s: &Vec<char>, p: &Vec<char>, from: usize) -> (r: Option<usize>)
    ensures
        r matches Some(k) ==> find_from(s@, p@, from as int) == Some(k as int),
        r is None ==> find_from(s@, p@, from as int) is None,
{
    if from > s.len() || p.len() > s.len() - from {
        return None;
    }
    let last = s.len() - p.len();
    let mut i: usize = from;
    loop
        invariant
            from <= i <= last,
            last + p.len() == s.len(),
            find_from(s@, p@, from as int) == find_from(s@, p@, i as int),
        decreases last - i,
    {
        if matches_at(s, p, i) {
            return Some(i);
        }
        if i == last {
            assert(find_from(s@, p@, i + 1) is None);
            return None;
        }
        i += 1;
    }
}

/// The first index where `p` occurs in `s`.
pub fn find_vec(s: &Vec<char>, p: &Vec<char>) -> (r: Option<usize>)
    ensures
        r matches Some(k) ==> find(s@, p@) == Some(k as int),
        r is None ==> find(s@, p@) is None,
{
    find_vec_from(s, p, 0)
}

/// The first index of `c` in `s`.
pub fn find_char_vec(s: &Vec<char>, c: char) -> (r: Option<usize>)
    ensures
        r matches Some(k) ==> find_char(s@, c) == Some(k as int),
        r is None ==> find_char(s@, c) is None,
{
    let p: Vec<char> = vec![c];
    assert(p@ =~= seq![c]);
    find_vec(s, &p)
}

/// The last index of `c` in `s`.
pub fn rfind_char_vec(s: &Vec<char>, c: char) -> (r: Option<usize>)
    ensures
        r matches Some(k) ==> rfind_char(s@, c) == Some(k as int),
        r is None ==> rfind_char(s@, c) is None,
{
    let mut i: usize = s.len();
    assert(s@.take(s.len() as int) =~= s@);
    while i > 0
        invariant
            i <= s.len(),
            rfind_char(s@, c) == rfind_char(s@.take(i as int), c),
        decreases i,
    {
        assert(s@.take(i as int).drop_last() =~= s@.take(i - 1));
        if s[i - 1] == c {
            return Some(i - 1);
        }
        i -= 1;
    }
    None
}

pub fn starts_with_vec(s: &Vec<char>, p: &Vec<char>) -> (r: bool)
    ensures
        r == starts_with(s@, p@),
{
    matches_at(s, p, 0)
}

pub fn ends_with_vec(s: &Vec<char>, p: &Vec<char>) -> (r: bool)
    ensures
        r == ends_with(s@, p@),
{
    if p.len() > s.len() {
        return false;
    }
    matches_at(s, p, s.len() - p.len())
}

pub fn contains_vec(s: &Vec<char>, p: &Vec<char>) -> (r: bool)
    ensures
        r == contains(s@, p@),
{
    find_vec(s, p).is_some()
}

// ---------------------------------------------------------------------------
// Replacement
// ---------------------------------------------------------------------------

/// `str::replacen(p, t, 1)`: replaces the first occurrence of `p` by `t`.
pub open spec fn replace_first(s: Seq<char>, p: Seq<char>, t: Seq<char>) -> Seq<char> {
    match find(s, p) {
        Some(i) => s.subrange(0, i) + t + s.subrange(i + p.len(), s.len() as int),
        None => s,
    }
}

/// `str::replace(p, t)` for a non-empty pattern: replaces every occurrence, scanning
/// from the left without overlaps.
pub open spec fn replace_all(s: Seq<char>, p: Seq<char>, t: Seq<char>) -> Seq<char>
    decreases s.len(),
{
    if p.len() == 0 {
        s
    } else {
        match find(s, p) {
            Some(i) => if 0 <= i && i + p.len() <= s.len() {
                s.subrange(0, i) + t + replace_all(s.subrange(i + p.len(), s.len() as int), p, t)
            } else {
                s
            },
            None => s,
        }
    }
}

pub fn replace_first_vec(s: &Vec<char>, p: &Vec<char>, t: &Vec<char>) -> (r: Vec<char>)
    ensures
        r@ == replace_first(s@, p@, t@),
{
    proof {
        lemma_find_props(s@, p@);
    }
    match find_vec(s, p) {
        Some(i) => {
            let mut r = slice_vec(s, 0, i);
            push_chars(&mut r, t);
            let rest = slice_vec(s, i + p.len(), s.len());
            push_chars(&mut r, &rest);
            r
        },
        None => s.clone(),
    }
}

pub fn replace_all_vec(s: &Vec<char>, p: &Vec<char>, t: &Vec<char>) -> (r: Vec<char>)
    requires
        p.len() > 0,
    ensures
        r@ == replace_all(s@, p@, t@),
{
    let mut out: Vec<char> = Vec::new();
    let mut pos: usize = 0;
    assert(s@.subrange(0, s.len() as int) =~= s@);
    assert(out@ + s@ =~= s@);
    while pos <= s.len()
        invariant
            p.len() > 0,
            pos <= s.len(),
            replace_all(s@, p@, t@) == out@ + replace_all(s@.subrange(pos as int, s.len() as int), p@, t@),
        decreases s.len() - pos,
    {
        let rest = slice_vec(s, pos, s.len());
        proof {
            lemma_find_props(rest@, p@);
        }
        match find_vec(&rest, p) {
            Some(i) => {
                let head = slice_vec(&rest, 0, i);
                push_chars(&mut out, &head);
                push_chars(&mut out, t);
                proof {
                    assert(rest@.subrange(i + p.len(), rest.len() as int) =~= s@.subrange(
                        pos + i + p.len(),
                        s.len() as int,
                    ));
                }
                pos = pos + i + p.len();
            },
            None => {
                push_chars(&mut out, &rest);
                return out;
            },
        }
    }
    out
}

// ---------------------------------------------------------------------------
// Whitespace and trimming
// ---------------------------------------------------------------------------

/// `char::is_whitespace`: the Unicode `White_Space` property.
pub open spec fn is_ws(c: char) -> bool {
    let u = c as u32;
    (0x09 <= u && u <= 0x0D) || u == 0x20 || u == 0x85 || u == 0xA0 || u == 0x1680 || (0x2000
        <= u && u <= 0x200A) || u == 0x2028 || u == 0x2029 || u == 0x202F || u == 0x205F || u
        == 0x3000
}

pub fn is_whitespace(c: char) -> (r: bool)
    ensures
        r == is_ws(c),
{
    let u = c as u32;
    (0x09 <= u && u <= 0x0D) || u == 0x20 || u == 0x85 || u == 0xA0 || u == 0x1680 || (0x2000
        <= u && u <= 0x200A) || u == 0x2028 || u == 0x2029 || u == 0x202F || u == 0x205F || u
        == 0x3000
}

/// `str::trim_start`.
pub open spec fn trim_start(s: Seq<char>) -> Seq<char>
    decreases s.len(),
{
    if s.len() > 0 && is_ws(s[0]) {
        trim_start(s.drop_first())
    } else {
        s
    }
}

/// `str::trim_end`.
pub open spec fn trim_end(s: Seq<char>) -> Seq<char>
    decreases s.len(),
{
    if s.len() > 0 && is_ws(s.last()) {
        trim_end(s.drop_last())
    } else {
        s
    }
}

/// `str::trim`.
pub open spec fn trim(s: Seq<char>) -> Seq<char> {
    trim_end(trim_start(s))
}

/// `str::trim_start_matches` with a `char` pattern.
pub open spec fn trim_start_char(s: Seq<char>, c: char) -> Seq<char>
    decreases s.len(),
{
    if s.len() > 0 && s[0] == c {
        trim_start_char(s.drop_first(), c)
    } else {
        s
    }
}

/// `str::trim_end_matches` with a `char` pattern.
pub open spec fn trim_end_char(s: Seq<char>, c: char) -> Seq<char>
    decreases s.len(),
{
    if s.len() > 0 && s.last() == c {
        trim_end_char(s.drop_last(), c)
    } else {
        s
    }
}

/// `str::trim_start_matches` with a non-empty string pattern.
pub open spec fn trim_start_str(s: Seq<char>, p: Seq<char>) -> Seq<char>
    decreases s.len(),
{
    if p.len() > 0 && starts_with(s, p) {
        trim_start_str(s.subrange(p.len() as int, s.len() as int), p)
    } else {
        s
    }
}

pub fn trim_start_vec(s: &Vec<char>) -> (r: Vec<char>)
    ensures
        r@ == trim_start(s@),
{
    let mut i: usize = 0;
    assert(s@.subrange(0, s.len() as int) =~= s@);
    while i < s.len() && is_whitespace(s[i])
        invariant
            i <= s.len(),
            trim_start(s@) == trim_start(s@.subrange(i as int, s.len() as int)),
        decreases s.len() - i,
    {
        assert(s@.subrange(i as int, s.len() as int).drop_first() =~= s@.subrange(
            i + 1,
            s.len() as int,
        ));
        i += 1;
    }
    slice_vec(s, i, s.len())
}

pub fn trim_end_vec(s: &Vec<char>) -> (r: Vec<char>)
    ensures
        r@ == trim_end(s@),
{
    let mut j: usize = s.len();
    assert(s@.subrange(0, s.len() as int) =~= s@);
    while j > 0 && is_whitespace(s[j - 1])
        invariant
            j <= s.len(),
            trim_end(s@) == trim_end(s@.subrange(0, j as int)),
        decreases j,
    {
        assert(s@.subrange(0, j as int).drop_last() =~= s@.subrange(0, j - 1));
        j -= 1;
    }
    slice_vec(s, 0, j)
}

pub fn trim_vec(s: &Vec<char>) -> (r: Vec<char>)
    ensures
        r@ == trim(s@),
{
    let t = trim_start_vec(s);
    trim_end_vec(&t)
}

pub fn trim_start_char_vec(s: &Vec<char>, c: char) -> (r: Vec<char>)
    ensures
        r@ == trim_start_char(s@, c),
{
    let mut i: usize = 0;
    assert(s@.subrange(0, s.len() as int) =~= s@);
    while i < s.len() && s[i] == c
        invariant
            i <= s.len(),
            trim_start_char(s@, c) == trim_start_char(s@.subrange(i as int, s.len() as int), c),
        decreases s.len() - i,
    {
        assert(s@.subrange(i as int, s.len() as int).drop_first() =~= s@.subrange(
            i + 1,
            s.len() as int,
        ));
        i += 1;
    }
    slice_vec(s, i, s.len())
}

pub fn trim_end_char_vec(s: &Vec<char>, c: char) -> (r: Vec<char>)
    ensures
        r@ == trim_end_char(s@, c),
{
    let mut j: usize = s.len();
    assert(s@.subrange(0, s.len() as int) =~= s@);
    while j > 0 && s[j - 1] == c
        invariant
            j <= s.len(),
            trim_end_char(s@, c) == trim_end_char(s@.subrange(0, j as int), c),
        decreases j,
    {
        assert(s@.subrange(0, j as int).drop_last() =~= s@.subrange(0, j - 1));
        j -= 1;
    }
    slice_vec(s, 0, j)
}

pub fn trim_start_str_vec(s: &Vec<char>, p: &Vec<char>) -> (r: Vec<char>)
    ensures
        r@ == trim_start_str(s@, p@),
{
    if p.len() == 0 {
        return s.clone();
    }
    let mut i: usize = 0;
    assert(s@.subrange(0, s.len() as int) =~= s@);
    while i <= s.len()
        invariant
            p.len() > 0,
            i <= s.len(),
            trim_start_str(s@, p@) == trim_start_str(s@.subrange(i as int, s.len() as int), p@),
        decreases s.len() - i,
    {
        if matches_at(s, p, i) {
            proof {
                let t = s@.subrange(i as int, s.len() as int);
                assert(t.subrange(0, p.len() as int) =~= s@.subrange(i as int, i + p.len()));
                assert(t.subrange(p.len() as int, t.len() as int) =~= s@.subrange(
                    i + p.len(),
                    s.len() as int,
                ));
            }
            i = i + p.len();
        } else {
            proof {
                let t = s@.subrange(i as int, s.len() as int);
                if starts_with(t, p@) {
                    assert(s@.subrange(i as int, i + p.len()) =~= t.subrange(0, p.len() as int));
                }
            }
            return slice_vec(s, i, s.len());
        }
    }
    slice_vec(s, i, s.len())
}

// ---------------------------------------------------------------------------
// ASCII classes and decimal numbers
// ---------------------------------------------------------------------------

pub open spec fn is_digit(c: char) -> bool {
    '0' <= c && c <= '9'
}

pub open spec fn digit_value(c: char) -> nat {
    (c as u32 - '0' as u32) as nat
}

pub open spec fn digit_char(d: nat) -> char {
    ((d + 48) as u32) as char
}

/// The decimal representation of `n` (`u64`'s `Display`).
pub open spec fn decimal(n: nat) -> Seq<char>
    decreases n,
{
    if n < 10 {
        seq![digit_char(n)]
    } else {
        decimal(n / 10) + seq![digit_char(n % 10)]
    }
}

/// Appends the decimal representation of `n`.
pub fn push_decimal(out: &mut Vec<char>, n: u64)
    ensures
        final(out)@ == old(out)@ + decimal(n as nat),
    decreases n,
{
    if n >= 10 {
        push_decimal(out, n / 10);
    }
    let d = (n % 10) as u32 + 48;
    let c = char_from_ascii(d);
    out.push(c);
    proof {
        assert(c == digit_char((n % 10) as nat));
        if n >= 10 {
            assert(old(out)@ + decimal(n as nat) =~= old(out)@ + decimal((n / 10) as nat) + seq![c]);
        } else {
            assert(old(out)@ + decimal(n as nat) =~= old(out)@ + seq![c]);
        }
    }
}

/// The character with a given ASCII code.
pub fn char_from_ascii(u: u32) -> (c: char)
    requires
        u < 128,
    ensures
        c == (u as char),
        c as u32 == u,
{
    let b = u as u8;
    let c = b as char;
    assert(b == u);
    c
}

/// The value of a sequence of decimal digits.
pub open spec fn digits_value(ds: Seq<char>) -> nat
    decreases ds.len(),
{
    if ds.len() == 0 {
        0
    } else {
        digits_value(ds.drop_last()) * 10 + digit_value(ds.last())
    }
}

pub open spec fn all_digits(ds: Seq<char>) -> bool {
    forall|i: int| 0 <= i < ds.len() ==> is_digit(#[trigger] ds[i])
}

/// `u64::from_str` (decimal, an optional leading `+`).
pub open spec fn parse_u64(s: Seq<char>) -> Option<u64> {
    let ds = if s.len() > 0 && s[0] == '+' {
        s.drop_first()
    } else {
        s
    };
    if ds.len() > 0 && all_digits(ds) && digits_value(ds) <= u64::MAX {
        Some(digits_value(ds) as u64)
    } else {
        None
    }
}

/// `i32::from_str` (decimal, an optional leading `+` or `-`).
pub open spec fn parse_i32(s: Seq<char>) -> Option<i32> {
    if s.len() > 0 && s[0] == '-' {
        let ds = s.drop_first();
        if ds.len() > 0 && all_digits(ds) && digits_value(ds) <= 0x8000_0000 {
            Some((0 - digits_value(ds)) as i32)
        } else {
            None
        }
    } else {
        let ds = if s.len() > 0 && s[0] == '+' {
            s.drop_first()
        } else {
            s
        };
        if ds.len() > 0 && all_digits(ds) && digits_value(ds) <= 0x7FFF_FFFF {
            Some(digits_value(ds) as i32)
        } else {
            None
        }
    }
}

pub proof fn lemma_digits_value_prefix_le(ds: Seq<char>, i: int)
    requires
        0 <= i <= ds.len(),
    ensures
        digits_value(ds.take(i)) <= digits_value(ds),
    decreases ds.len() - i,
{
    if i < ds.len() {
        lemma_digits_value_prefix_le(ds, i + 1);
        assert(ds.take(i + 1).drop_last() =~= ds.take(i));
    } else {
        assert(ds.take(i) =~= ds);
    }
}

/// The value of the digits `ds` if they are all decimal digits and the value is at most
/// `bound`.
pub fn digits_value_bounded(ds: &Vec<char>, bound: u64) -> (r: Option<u64>)
    ensures
        r matches Some(v) ==> all_digits(ds@) && digits_value(ds@) <= bound && v == digits_value(
            ds@,
        ),
        r is None ==> !(all_digits(ds@) && digits_value(ds@) <= bound),
{
    let mut v: u64 = 0;
    let mut i: usize = 0;
    while i < ds.len()
        invariant
            i <= ds.len(),
            all_digits(ds@.take(i as int)),
            v == digits_value(ds@.take(i as int)),
            v <= bound,
        decreases ds.len() - i,
    {
        let c = ds[i];
        proof {
            assert(ds@.take(i + 1).drop_last() =~= ds@.take(i as int));
        }
        if !('0' <= c && c <= '9') {
            assert(!is_digit(ds@[i as int]));
            return None;
        }
        let d = (c as u32 - '0' as u32) as u64;
        if d > bound {
            proof {
                lemma_digits_value_prefix_le(ds@, i + 1);
            }
            return None;
        }
        if v > (bound - d) / 10 {
            proof {
                assert(v * 10 + d > bound) by (nonlinear_arith)
                    requires
                        v > (bound - d) / 10,
                        d <= 9,
                        d <= bound || true,
                ;
                lemma_digits_value_prefix_le(ds@, i + 1);
            }
            return None;
        }
        proof {
            assert(v * 10 + d <= bound) by (nonlinear_arith)
                requires
                    v <= (bound - d) / 10,
                    d <= bound,
            ;
        }
        v = v * 10 + d;
        i += 1;
        proof {
            assert forall|j: int| 0 <= j < i implies is_digit(#[trigger] ds@.take(i as int)[j]) by {
                if j < i - 1 {
                    assert(ds@.take(i as int)[j] == ds@.take(i - 1)[j]);
                }
            }
        }
    }
    assert(ds@.take(ds.len() as int) =~= ds@);
    Some(v)
}

/// `s.parse::<u64>().ok()`.
pub fn parse_u64_str(s: &str) -> (r: Option<u64>)
    ensures
        r == parse_u64(s@),
{
    let v = chars_of(s);
    let ds = if v.len() > 0 && v[0] == '+' {
        slice_vec(&v, 1, v.len())
    } else {
        v.clone()
    };
    proof {
        if v.len() > 0 && v@[0] == '+' {
            assert(ds@ =~= v@.drop_first());
        }
    }
    if ds.len() == 0 {
        return None;
    }
    digits_value_bounded(&ds, u64::MAX)
}

/// `s.parse::<i32>().ok()`.
pub fn parse_i32_str(s: &str) -> (r: Option<i32>)
    ensures
        r == parse_i32(s@),
{
    let v = chars_of(s);
    if v.len() > 0 && v[0] == '-' {
        let ds = slice_vec(&v, 1, v.len());
        assert(ds@ =~= v@.drop_first());
        if ds.len() == 0 {
            return None;
        }
        match digits_value_bounded(&ds, 0x8000_0000) {
            Some(m) => {
                let r = (0i64 - m as i64) as i32;
                Some(r)
            },
            None => None,
        }
    } else {
        let ds = if v.len() > 0 && v[0] == '+' {
            slice_vec(&v, 1, v.len())
        } else {
            v.clone()
        };
        proof {
            if v.len() > 0 && v@[0] == '+' {
                assert(ds@ =~= v@.drop_first());
            }
        }
        if ds.len() == 0 {
            return None;
        }
        match digits_value_bounded(&ds, 0x7FFF_FFFF) {
            Some(m) => Some(m as i32),
            None => None,
        }
    }
}


// ---------------------------------------------------------------------------
// Words
// ---------------------------------------------------------------------------

/// The word being read, as a list of zero or one words.
pub open spec fn pending_word(cur: Seq<char>) -> Seq<Seq<char>> {
    if cur.len() > 0 {
        seq![cur]
    } else {
        Seq::empty()
    }
}

/// The words of `s` after the partial word `cur`: maximal runs of characters that are
/// not whitespace.
pub open spec fn words_from(s: Seq<char>, cur: Seq<char>) -> Seq<Seq<char>>
    decreases s.len(),
{
    if s.len() == 0 {
        pending_word(cur)
    } else if is_ws(s[0]) {
        pending_word(cur) + words_from(s.drop_first(), Seq::empty())
    } else {
        words_from(s.drop_first(), cur.push(s[0]))
    }
}

/// `str::split_whitespace`.
pub open spec fn words(s: Seq<char>) -> Seq<Seq<char>> {
    words_from(s, Seq::empty())
}

pub fn split_words(s: &str) -> (r: Vec<Vec<char>>)
    ensures
        r@.map_values(|w: Vec<char>| w@) == words(s@),
{
    let c = chars_of(s);
    let n = c.len();
    let mut out: Vec<Vec<char>> = Vec::new();
    let mut cur: Vec<char> = Vec::new();
    let mut i: usize = 0;
    assert(c@.subrange(0, n as int) =~= c@);
    assert(out@.map_values(|w: Vec<char>| w@) =~= Seq::<Seq<char>>::empty());
    assert(cur@ =~= Seq::<char>::empty());
    assert(Seq::<Seq<char>>::empty() + words_from(c@, Seq::empty()) =~= words_from(c@, Seq::empty()));
    while i < n
        invariant
            i <= n,
            n == c@.len(),
            c@ == s@,
            words(s@) == out@.map_values(|w: Vec<char>| w@) + words_from(c@.subrange(i as int, n as int), cur@),
        decreases n - i,
    {
        let ghost rest = c@.subrange(i as int, n as int);
        assert(rest.drop_first() =~= c@.subrange(i + 1, n as int));
        assert(rest[0] == c@[i as int]);
        let ch = c[i];
        if is_whitespace(ch) {
            if cur.len() > 0 {
                let ghost before = out@.map_values(|w: Vec<char>| w@);
                out.push(cur);
                assert(out@.map_values(|w: Vec<char>| w@) =~= before + pending_word(cur@));
            } else {
                assert(pending_word(cur@) =~= Seq::<Seq<char>>::empty());
                assert(out@.map_values(|w: Vec<char>| w@) + pending_word(cur@) =~= out@.map_values(|w: Vec<char>| w@));
            }
            cur = Vec::new();
        } else {
            cur.push(ch);
        }
        i += 1;
    }
    let ghost before = out@.map_values(|w: Vec<char>| w@);
    if cur.len() > 0 {
        out.push(cur);
        assert(out@.map_values(|w: Vec<char>| w@) =~= before + pending_word(cur@));
    } else {
        assert(before + pending_word(cur@) =~= before);
    }
    out
}


// ---------------------------------------------------------------------------
// Splitting at a character
// ---------------------------------------------------------------------------

/// The pieces of `s` between occurrences of `c`, after the partial piece `cur`.
pub open spec fn split_from(s: Seq<char>, c: char, cur: Seq<char>) -> Seq<Seq<char>>
    decreases s.len(),
{
    if s.len() == 0 {
        seq![cur]
    } else if s[0] == c {
        seq![cur] + split_from(s.drop_first(), c, Seq::empty())
    } else {
        split_from(s.drop_first(), c, cur.push(s[0]))
    }
}

/// `str::split` with a `char` pattern.
pub open spec fn split_on(s: Seq<char>, c: char) -> Seq<Seq<char>> {
    split_from(s, c, Seq::empty())
}

pub fn split_char(s: &str, c: char) -> (r: Vec<Vec<char>>)
    ensures
        r@.map_values(|w: Vec<char>| w@) == split_on(s@, c),
{
    let v = chars_of(s);
    let n = v.len();
    let mut out: Vec<Vec<char>> = Vec::new();
    let mut cur: Vec<char> = Vec::new();
    let mut i: usize = 0;
    assert(v@.subrange(0, n as int) =~= v@);
    assert(out@.map_values(|w: Vec<char>| w@) =~= Seq::<Seq<char>>::empty());
    assert(cur@ =~= Seq::<char>::empty());
    assert(Seq::<Seq<char>>::empty() + split_from(v@, c, Seq::empty()) =~= split_from(v@, c, Seq::empty()));
    while i < n
        invariant
            i <= n,
            n == v@.len(),
            v@ == s@,
            split_on(s@, c) == out@.map_values(|w: Vec<char>| w@) + split_from(v@.subrange(i as int, n as int), c, cur@),
        decreases n - i,
    {
        let ghost rest = v@.subrange(i as int, n as int);
        assert(rest.drop_first() =~= v@.subrange(i + 1, n as int));
        assert(rest[0] == v@[i as int]);
        let ch = v[i];
        if ch == c {
            let ghost before = out@.map_values(|w: Vec<char>| w@);
            let ghost cv = cur@;
            out.push(cur);
            assert(out@.map_values(|w: Vec<char>| w@) =~= before + seq![cv]);
            cur = Vec::new();
            assert(cur@ =~= Seq::<char>::empty());
        } else {
            cur.push(ch);
        }
        i += 1;
    }
    let ghost before = out@.map_values(|w: Vec<char>| w@);
    let ghost cv = cur@;
    out.push(cur);
    assert(out@.map_values(|w: Vec<char>| w@) =~= before + seq![cv]);
    out
}


/// `str::trim_end_matches` with a non-empty string pattern.
pub open spec fn trim_end_str(s: Seq<char>, p: Seq<char>) -> Seq<char>
    decreases s.len(),
{
    if p.len() > 0 && ends_with(s, p) {
        trim_end_str(s.subrange(0, s.len() - p.len()), p)
    } else {
        s
    }
}

pub fn trim_end_str_vec(s: &Vec<char>, p: &Vec<char>) -> (r: Vec<char>)
    ensures
        r@ == trim_end_str(s@, p@),
{
    if p.len() == 0 {
        return s.clone();
    }
    let mut j: usize = s.len();
    assert(s@.subrange(0, s.len() as int) =~= s@);
    while j >= p.len()
        invariant
            p.len() > 0,
            j <= s.len(),
            trim_end_str(s@, p@) == trim_end_str(s@.subrange(0, j as int), p@),
        decreases j,
    {
        let k = j - p.len();
        let t = Ghost(s@.subrange(0, j as int));
        if matches_at(s, p, k) {
            proof {
                assert(t@.subrange(t@.len() - p@.len(), t@.len() as int) =~= s@.subrange(k as int, j as int));
                assert(t@.subrange(0, t@.len() - p@.len()) =~= s@.subrange(0, k as int));
            }
            j = k;
        } else {
            proof {
                if ends_with(t@, p@) {
                    assert(s@.subrange(k as int, k + p.len()) =~= t@.subrange(t@.len() - p@.len(), t@.len() as int));
                }
            }
            return slice_vec(s, 0, j);
        }
    }
    slice_vec(s, 0, j)
}

} // verus!
