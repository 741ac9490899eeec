//! Character-level text primitives shared by the parsers and formatters.
//!
//! Everything here works on the `Seq<char>` view of strings. Whitespace is
//! the Unicode `White_Space` property, which is what `char::is_whitespace`,
//! `str::trim` and `str::split_whitespace` use.

use vstd::prelude::*;

verus! {

broadcast use vstd::string::group_string_axioms;

/// The Unicode `White_Space` property.
pub open spec fn is_ws(c: char) -> bool {
    let u = c as u32;
    ||| 0x09 <= u <= 0x0d
    ||| u == 0x20
    ||| u == 0x85
    ||| u == 0xa0
    ||| u == 0x1680
    ||| 0x2000 <= u <= 0x200a
    ||| u == 0x2028
    ||| u == 0x2029
    ||| u == 0x202f
    ||| u == 0x205f
    ||| u == 0x3000
}

pub fn is_whitespace(c: char) -> (r: bool)
    ensures
        r == is_ws(c),
{
    let u = c as u32;
    (0x09 <= u && u <= 0x0d) || u == 0x20 || u == 0x85 || u == 0xa0 || u == 0x1680 || (0x2000
        <= u && u <= 0x200a) || u == 0x2028 || u == 0x2029 || u == 0x202f || u == 0x205f || u
        == 0x3000
}

/// First index at or after `i` that does not hold whitespace (or the end).
pub open spec fn skip_ws(s: Seq<char>, i: int) -> int
    decreases s.len() - i,
{
    if 0 <= i < s.len() && is_ws(s[i]) {
        skip_ws(s, i + 1)
    } else {
        i
    }
}

/// Walking back from `j` (not below `lo`), the end of the text once
/// trailing whitespace is dropped.
pub open spec fn back_ws(s: Seq<char>, lo: int, j: int) -> int
    decreases j - lo,
{
    if lo < j && j <= s.len() && is_ws(s[j - 1]) {
        back_ws(s, lo, j - 1)
    } else {
        j
    }
}

/// First index at or after `i` that holds whitespace (or the end).
pub open spec fn word_end(s: Seq<char>, i: int) -> int
    decreases s.len() - i,
{
    if 0 <= i < s.len() && !is_ws(s[i]) {
        word_end(s, i + 1)
    } else {
        i
    }
}

/// `str::trim`: leading and trailing whitespace removed.
pub open spec fn trim(s: Seq<char>) -> Seq<char> {
    let a = skip_ws(s, 0);
    s.subrange(a, back_ws(s, a, s.len() as int))
}

/// `str::trim_end`: trailing whitespace removed.
pub open spec fn trim_end(s: Seq<char>) -> Seq<char> {
    s.subrange(0, back_ws(s, 0, s.len() as int))
}

/// `str::trim_start`: leading whitespace removed.
pub open spec fn trim_start(s: Seq<char>) -> Seq<char> {
    s.subrange(skip_ws(s, 0), s.len() as int)
}

pub proof fn lemma_skip_ws(s: Seq<char>, i: int)
    requires
        0 <= i <= s.len(),
    ensures
        i <= skip_ws(s, i) <= s.len(),
        forall|k: int| i <= k < skip_ws(s, i) ==> is_ws(#[trigger] s[k]),
        skip_ws(s, i) < s.len() ==> !is_ws(s[skip_ws(s, i)]),
    decreases s.len() - i,
{
    if i < s.len() && is_ws(s[i]) {
        lemma_skip_ws(s, i + 1);
    }
}

pub proof fn lemma_back_ws(s: Seq<char>, lo: int, j: int)
    requires
        0 <= lo <= j <= s.len(),
    ensures
        lo <= back_ws(s, lo, j) <= j,
        forall|k: int| back_ws(s, lo, j) <= k < j ==> is_ws(#[trigger] s[k]),
        back_ws(s, lo, j) > lo ==> !is_ws(s[back_ws(s, lo, j) - 1]),
    decreases j - lo,
{
    if lo < j && is_ws(s[j - 1]) {
        lemma_back_ws(s, lo, j - 1);
    }
}

pub proof fn lemma_word_end(s: Seq<char>, i: int)
    requires
        0 <= i <= s.len(),
    ensures
        i <= word_end(s, i) <= s.len(),
        forall|k: int| i <= k < word_end(s, i) ==> !is_ws(#[trigger] s[k]),
        word_end(s, i) < s.len() ==> is_ws(s[word_end(s, i)]),
    decreases s.len() - i,
{
    if i < s.len() && !is_ws(s[i]) {
        lemma_word_end(s, i + 1);
    }
}

/// `str::split_whitespace`, from index `i` on: the maximal runs of
/// non-whitespace characters, in order.
pub open spec fn words_from(s: Seq<char>, i: int) -> Seq<Seq<char>>
    decreases s.len() - i,
{
    if 0 <= i <= s.len() {
        let a = skip_ws(s, i);
        if a < s.len() {
            proof {
                lemma_skip_ws(s, i);
                lemma_word_end(s, a + 1);
            }
            let b = word_end(s, a);
            seq![s.subrange(a, b)] + words_from(s, b)
        } else {
            seq![]
        }
    } else {
        seq![]
    }
}

/// `str::split_whitespace`.
pub open spec fn words(s: Seq<char>) -> Seq<Seq<char>> {
    words_from(s, 0)
}

/// The characters of `s`, in order.
pub fn chars_of(s: &str) -> (v: Vec<char>)
    ensures
        v@ == s@,
{
    let mut v: Vec<char> = Vec::new();
    for c in it: s.chars()
        invariant
            v@ == it.seq().take(it.index() as int),
            it.seq() == s@,
    {
        v.push(c);
    }
    v
}

pub fn skip_ws_at(v: &Vec<char>, i: usize) -> (r: usize)
    requires
        i <= v@.len(),
    ensures
        r == skip_ws(v@, i as int),
        i <= r <= v@.len(),
{
    proof {
        lemma_skip_ws(v@, i as int);
    }
    let mut k = i;
    while k < v.len() && is_whitespace(v[k])
        invariant
            i <= k <= v@.len(),
            skip_ws(v@, k as int) == skip_ws(v@, i as int),
        decreases v@.len() - k,
    {
        k += 1;
    }
    k
}

pub fn back_ws_at(v: &Vec<char>, lo: usize, j: usize) -> (r: usize)
    requires
        lo <= j <= v@.len(),
    ensures
        r == back_ws(v@, lo as int, j as int),
        lo <= r <= j,
{
    proof {
        lemma_back_ws(v@, lo as int, j as int);
    }
    let mut k = j;
    while k > lo && is_whitespace(v[k - 1])
        invariant
            lo <= k <= j,
            j <= v@.len(),
            back_ws(v@, lo as int, k as int) == back_ws(v@, lo as int, j as int),
        decreases k,
    {
        k -= 1;
    }
    k
}

pub fn word_end_at(v: &Vec<char>, i: usize) -> (r: usize)
    requires
        i <= v@.len(),
    ensures
        r == word_end(v@, i as int),
        i <= r <= v@.len(),
{
    proof {
        lemma_word_end(v@, i as int);
    }
    let mut k = i;
    while k < v.len() && !is_whitespace(v[k])
        invariant
            i <= k <= v@.len(),
            word_end(v@, k as int) == word_end(v@, i as int),
        decreases v@.len() - k,
    {
        k += 1;
    }
    k
}

/// Number of whitespace-separated words (`split_whitespace().count()`).
pub fn word_count(s: &str) -> (n: usize)
    ensures
        n == words(s@).len(),
{
    let v = chars_of(s);
    let mut i: usize = 0;
    let mut n: usize = 0;
    loop
        invariant
            i <= v@.len(),
            n <= i,
            v@ == s@,
            n + words_from(v@, i as int).len() == words(v@).len(),
        decreases v@.len() - i,
    {
        let a = skip_ws_at(&v, i);
        proof {
            lemma_skip_ws(v@, i as int);
        }
        if a >= v.len() {
            assert(words_from(v@, i as int) =~= Seq::<Seq<char>>::empty());
            return n;
        }
        let b = word_end_at(&v, a + 1);
        proof {
            lemma_word_end(v@, a as int);
            assert(word_end(v@, a as int) == b);
            assert(words_from(v@, i as int) == seq![v@.subrange(a as int, b as int)] + words_from(
                v@,
                b as int,
            ));
        }
        n += 1;
        i = b;
    }
}

/// Index of the first `c` in `s[i..hi]` (or `hi` when there is none).
pub open spec fn find_from(s: Seq<char>, c: char, i: int, hi: int) -> int
    decreases hi - i,
{
    if i < hi && s[i] != c {
        find_from(s, c, i + 1, hi)
    } else {
        i
    }
}

pub proof fn lemma_find_from(s: Seq<char>, c: char, i: int, hi: int)
    requires
        0 <= i <= hi <= s.len(),
    ensures
        i <= find_from(s, c, i, hi) <= hi,
        forall|k: int| i <= k < find_from(s, c, i, hi) ==> #[trigger] s[k] != c,
        find_from(s, c, i, hi) < hi ==> s[find_from(s, c, i, hi)] == c,
    decreases hi - i,
{
    if i < hi && s[i] != c {
        lemma_find_from(s, c, i + 1, hi);
    }
}

/// Index of the first `c` in `v[i..hi]` (or `hi`).
pub fn find_at(v: &Vec<char>, c: char, i: usize, hi: usize) -> (r: usize)
    requires
        i <= hi <= v@.len(),
    ensures
        r == find_from(v@, c, i as int, hi as int),
        i <= r <= hi,
{
    proof {
        lemma_find_from(v@, c, i as int, hi as int);
    }
    let mut k = i;
    while k < hi && v[k] != c
        invariant
            i <= k <= hi,
            hi <= v@.len(),
            find_from(v@, c, k as int, hi as int) == find_from(v@, c, i as int, hi as int),
        decreases hi - k,
    {
        k += 1;
    }
    k
}

/// `str::split` on one character, from index `i` on: the pieces between
/// occurrences of `c`, the last piece running to the end.
pub open spec fn split_from(s: Seq<char>, c: char, i: int) -> Seq<Seq<char>>
    decreases s.len() - i,
{
    if 0 <= i <= s.len() {
        let j = find_from(s, c, i, s.len() as int);
        if j < s.len() {
            proof {
                lemma_find_from(s, c, i, s.len() as int);
            }
            seq![s.subrange(i, j)] + split_from(s, c, j + 1)
        } else {
            seq![s.subrange(i, s.len() as int)]
        }
    } else {
        seq![]
    }
}

/// `str::split` on one character.
pub open spec fn split_on(s: Seq<char>, c: char) -> Seq<Seq<char>> {
    split_from(s, c, 0)
}

/// A copy of `v[lo..hi]`.
pub fn copy_range(v: &Vec<char>, lo: usize, hi: usize) -> (r: Vec<char>)
    requires
        lo <= hi <= v@.len(),
    ensures
        r@ == v@.subrange(lo as int, hi as int),
{
    let mut r: Vec<char> = Vec::new();
    let mut k = lo;
    while k < hi
        invariant
            lo <= k <= hi,
            hi <= v@.len(),
            r@ == v@.subrange(lo as int, k as int),
        decreases hi - k,
    {
        r.push(v[k]);
        proof {
            assert(v@.subrange(lo as int, k + 1) =~= v@.subrange(lo as int, k as int).push(
                v@[k as int],
            ));
        }
        k += 1;
    }
    r
}

/// `str::trim` on a character vector.
pub fn trim_vec(v: &Vec<char>) -> (r: Vec<char>)
    ensures
        r@ == trim(v@),
{
    let a = skip_ws_at(v, 0);
    let b = back_ws_at(v, a, v.len());
    copy_range(v, a, b)
}

/// `str::trim_end` on a character vector.
pub fn trim_end_vec(v: &Vec<char>) -> (r: Vec<char>)
    ensures
        r@ == trim_end(v@),
{
    let b = back_ws_at(v, 0, v.len());
    copy_range(v, 0, b)
}

/// A fresh `String` with the characters of `v`.
pub fn string_of_vec(v: &Vec<char>) -> (r: String)
    ensures
        r@ == v@,
{
    let r = string_of(v, 0, v.len());
    proof {
        assert(v@.subrange(0, v@.len() as int) == v@);
    }
    r
}

/// Appends one character (`String::push`).
#[verifier::external_body]
pub(crate) fn push_char(s: &mut String, c: char)
    ensures
        final(s)@ == old(s)@.push(c),
{
    s.push(c);
}

/// Appends `v[lo..hi]` to `out`.
pub fn push_range(out: &mut String, v: &Vec<char>, lo: usize, hi: usize)
    requires
        lo <= hi <= v@.len(),
    ensures
        final(out)@ == old(out)@ + v@.subrange(lo as int, hi as int),
{
    let mut k = lo;
    while k < hi
        invariant
            lo <= k <= hi,
            hi <= v@.len(),
            out@ == old(out)@ + v@.subrange(lo as int, k as int),
        decreases hi - k,
    {
        push_char(out, v[k]);
        proof {
            assert(v@.subrange(lo as int, k + 1) == v@.subrange(lo as int, k as int).push(
                v@[k as int],
            ));
        }
        k += 1;
    }
}

/// Appends every character of `s` to `out`.
pub fn push_str(out: &mut String, s: &str)
    ensures
        final(out)@ == old(out)@ + s@,
{
    let v = chars_of(s);
    push_range(out, &v, 0, v.len());
    proof {
        assert(v@.subrange(0, v@.len() as int) == v@);
    }
}

/// A fresh `String` holding `v[lo..hi]`.
pub fn string_of(v: &Vec<char>, lo: usize, hi: usize) -> (r: String)
    requires
        lo <= hi <= v@.len(),
    ensures
        r@ == v@.subrange(lo as int, hi as int),
{
    let mut r = String::new();
    push_range(&mut r, v, lo, hi);
    proof {
        assert(r@ == Seq::<char>::empty() + v@.subrange(lo as int, hi as int));
    }
    r
}

/// A fresh `String` with the same characters as `s`.
pub fn string_from(s: &str) -> (r: String)
    ensures
        r@ == s@,
{
    let mut r = String::new();
    push_str(&mut r, s);
    proof {
        assert(r@ == Seq::<char>::empty() + s@);
    }
    r
}

/// The ASCII digit for `d` (`0 <= d < 10`).
pub open spec fn digit(d: nat) -> char {
    (48 + d) as char
}

/// Decimal rendering of `n` (what `{}` prints for an unsigned integer).
pub open spec fn decimal(n: nat) -> Seq<char>
    decreases n,
{
    if n < 10 {
        seq![digit(n)]
    } else {
        decimal(n / 10).push(digit(n % 10))
    }
}

/// Decimal rendering zero-padded to at least two characters (`{:02}`).
pub open spec fn decimal2(n: nat) -> Seq<char> {
    if n < 10 {
        seq!['0', digit(n)]
    } else {
        decimal(n)
    }
}

fn digit_char(d: u64) -> (c: char)
    requires
        d < 10,
    ensures
        c == digit(d as nat),
{
    if d == 0 {
        '0'
    } else if d == 1 {
        '1'
    } else if d == 2 {
        '2'
    } else if d == 3 {
        '3'
    } else if d == 4 {
        '4'
    } else if d == 5 {
        '5'
    } else if d == 6 {
        '6'
    } else if d == 7 {
        '7'
    } else if d == 8 {
        '8'
    } else {
        '9'
    }
}

/// Appends the decimal rendering of `n`.
pub fn push_decimal(out: &mut String, n: u64)
    ensures
        final(out)@ == old(out)@ + decimal(n as nat),
    decreases n,
{
    if n >= 10 {
        push_decimal(out, n / 10);
    }
    push_char(out, digit_char(n % 10));
    proof {
        if n >= 10 {
            assert(decimal(n as nat) == decimal((n / 10) as nat).push(digit((n % 10) as nat)));
        }
    }
}

/// Appends the decimal rendering of `n`, zero-padded to two characters.
pub fn push_decimal2(out: &mut String, n: u64)
    ensures
        final(out)@ == old(out)@ + decimal2(n as nat),
{
    if n < 10 {
        push_char(out, '0');
    }
    push_decimal(out, n);
    proof {
        if n < 10 {
            assert(decimal(n as nat) == seq![digit(n as nat)]);
        }
    }
}

/// Appends the decimal rendering of a 128-bit `n`.
pub fn push_decimal_wide(out: &mut String, n: u128)
    ensures
        final(out)@ == old(out)@ + decimal(n as nat),
    decreases n,
{
    if n >= 10 {
        push_decimal_wide(out, n / 10);
    }
    let d = (n % 10) as u64;
    push_char(out, digit_char(d));
    proof {
        if n >= 10 {
            assert(decimal(n as nat) == decimal((n / 10) as nat).push(digit((n % 10) as nat)));
        }
    }
}

} // verus!
