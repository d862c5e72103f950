//! Text as sequences of characters: the operations on lines of NC programs that the
//! parsers of this crate are built from, each with its meaning stated over `Seq<char>`.
use vstd::prelude::*;

verus! {

// ───────────────────────────── conversions ─────────────────────────────

/// `String::push` appends one character at the end of the string (std documentation:
/// "Appends the given char to the end of this String").
pub assume_specification[ String::push ](s: &mut String, ch: char)
    ensures
        final(s)@ == old(s)@.push(ch),
;

/// The characters of `s`, in order.
pub fn to_chars(s: &str) -> (v: Vec<char>)
    ensures
        v@ == s@,
{
    let mut v: Vec<char> = Vec::new();
    for c in it: s.chars()
        invariant
            v@ == it.seq().take(it.index() as int),
    {
        v.push(c);
    }
    v
}

/// A `String` holding exactly the characters of `v`.
pub fn from_chars(v: &[char]) -> (s: String)
    ensures
        s@ == v@,
{
    let mut s = String::new();
    let mut i: usize = 0;
    while i < v.len()
        invariant
            i <= v@.len(),
            s@ == v@.take(i as int),
        decreases v@.len() - i,
    {
        s.push(v[i]);
        i += 1;
        assert(s@ == v@.take(i as int));
    }
    assert(v@.take(v@.len() as int) == v@);
    s
}

/// The characters of `v[from..to]` as a new vector.
pub fn slice_chars(v: &[char], from: usize, to: usize) -> (r: Vec<char>)
    requires
        from <= to <= v@.len(),
    ensures
        r@ == v@.subrange(from as int, to as int),
{
    let mut r: Vec<char> = Vec::new();
    let mut i: usize = from;
    while i < to
        invariant
            from <= i <= to <= v@.len(),
            r@ == v@.subrange(from as int, i as int),
        decreases to - i,
    {
        r.push(v[i]);
        i += 1;
        assert(r@ == v@.subrange(from as int, i as int));
    }
    r
}

/// Whether the two character sequences are equal.
pub fn chars_eq(a: &[char], b: &[char]) -> (r: bool)
    ensures
        r == (a@ == b@),
{
    if a.len() != b.len() {
        return false;
    }
    let mut i: usize = 0;
    while i < a.len()
        invariant
            a@.len() == b@.len(),
            i <= a@.len(),
            forall|j: int| 0 <= j < i ==> a@[j] == b@[j],
        decreases a@.len() - i,
    {
        if a[i] != b[i] {
            return false;
        }
        i += 1;
    }
    assert(a@ =~= b@);
    true
}

// ───────────────────────────── white space ─────────────────────────────

/// Whether `c` has the Unicode `White_Space` property, which is what
/// `char::is_whitespace` tests.
pub open spec fn is_white(c: char) -> bool {
    let u = c as u32;
    ||| 0x09 <= u <= 0x0D
    ||| u == 0x20
    ||| u == 0x85
    ||| u == 0xA0
    ||| u == 0x1680
    ||| 0x2000 <= u <= 0x200A
    ||| u == 0x2028
    ||| u == 0x2029
    ||| u == 0x202F
    ||| u == 0x205F
    ||| u == 0x3000
}

/// Executable form of [`is_white`].
pub fn is_white_char(c: char) -> (r: bool)
    ensures
        r == is_white(c),
{
    let u = c as u32;
    (0x09 <= u && u <= 0x0D) || u == 0x20 || u == 0x85 || u == 0xA0 || u == 0x1680 || (0x2000
        <= u && u <= 0x200A) || u == 0x2028 || u == 0x2029 || u == 0x202F || u == 0x205F || u
        == 0x3000
}

/// `s` without its leading white space (`str::trim_start`).
pub open spec fn trim_start(s: Seq<char>) -> Seq<char>
    decreases s.len(),
{
    if s.len() > 0 && is_white(s[0]) {
        trim_start(s.drop_first())
    } else {
        s
    }
}

/// `s` without its trailing white space (`str::trim_end`).
pub open spec fn trim_end(s: Seq<char>) -> Seq<char>
    decreases s.len(),
{
    if s.len() > 0 && is_white(s.last()) {
        trim_end(s.drop_last())
    } else {
        s
    }
}

/// `s` without leading and trailing white space (`str::trim`).
pub open spec fn trim(s: Seq<char>) -> Seq<char> {
    trim_end(trim_start(s))
}

/// `s` without the leading copies of `c` (`str::trim_start_matches(c)`).
pub open spec fn trim_start_char(s: Seq<char>, c: char) -> Seq<char>
    decreases s.len(),
{
    if s.len() > 0 && s[0] == c {
        trim_start_char(s.drop_first(), c)
    } else {
        s
    }
}

/// `s` without the trailing copies of `c` (`str::trim_end_matches(c)`).
pub open spec fn trim_end_char(s: Seq<char>, c: char) -> Seq<char>
    decreases s.len(),
{
    if s.len() > 0 && s.last() == c {
        trim_end_char(s.drop_last(), c)
    } else {
        s
    }
}

/// `s` without leading and trailing copies of `c` (`str::trim_matches(c)`).
pub open spec fn trim_char(s: Seq<char>, c: char) -> Seq<char> {
    trim_end_char(trim_start_char(s, c), c)
}

proof fn lemma_trim_start_skip(s: Seq<char>, i: int)
    requires
        0 <= i < s.len(),
        is_white(s[i]),
    ensures
        trim_start(s.skip(i)) == trim_start(s.skip(i + 1)),
{
    assert(s.skip(i).drop_first() =~= s.skip(i + 1));
}

proof fn lemma_trim_end_take(s: Seq<char>, i: int)
    requires
        0 < i <= s.len(),
        is_white(s[i - 1]),
    ensures
        trim_end(s.take(i)) == trim_end(s.take(i - 1)),
{
    assert(s.take(i).drop_last() =~= s.take(i - 1));
}

proof fn lemma_trim_start_char_skip(s: Seq<char>, c: char, i: int)
    requires
        0 <= i < s.len(),
        s[i] == c,
    ensures
        trim_start_char(s.skip(i), c) == trim_start_char(s.skip(i + 1), c),
{
    assert(s.skip(i).drop_first() =~= s.skip(i + 1));
}

proof fn lemma_trim_end_char_take(s: Seq<char>, c: char, i: int)
    requires
        0 < i <= s.len(),
        s[i - 1] == c,
    ensures
        trim_end_char(s.take(i), c) == trim_end_char(s.take(i - 1), c),
{
    assert(s.take(i).drop_last() =~= s.take(i - 1));
}

/// `trim_start` as a new vector.
pub fn trim_start_vec(v: &[char]) -> (r: Vec<char>)
    ensures
        r@ == trim_start(v@),
{
    let mut i: usize = 0;
    assert(v@.skip(0) =~= v@);
    while i < v.len() && is_white_char(v[i])
        invariant
            i <= v@.len(),
            trim_start(v@) == trim_start(v@.skip(i as int)),
        decreases v@.len() - i,
    {
        proof {
            lemma_trim_start_skip(v@, i as int);
        }
        i += 1;
    }
    let r = slice_chars(v, i, v.len());
    assert(r@ =~= v@.skip(i as int));
    r
}

/// `trim_end` as a new vector.
pub fn trim_end_vec(v: &[char]) -> (r: Vec<char>)
    ensures
        r@ == trim_end(v@),
{
    let mut i: usize = v.len();
    assert(v@.take(v@.len() as int) =~= v@);
    while i > 0 && is_white_char(v[i - 1])
        invariant
            i <= v@.len(),
            trim_end(v@) == trim_end(v@.take(i as int)),
        decreases i,
    {
        proof {
            lemma_trim_end_take(v@, i as int);
        }
        i -= 1;
    }
    let r = slice_chars(v, 0, i);
    assert(r@ =~= v@.take(i as int));
    r
}

/// `trim` as a new vector.
pub fn trim_vec(v: &[char]) -> (r: Vec<char>)
    ensures
        r@ == trim(v@),
{
    let a = trim_start_vec(v);
    trim_end_vec(&a)
}

/// `trim_start_char` as a new vector.
pub fn trim_start_char_vec(v: &[char], c: char) -> (r: Vec<char>)
    ensures
        r@ == trim_start_char(v@, c),
{
    let mut i: usize = 0;
    assert(v@.skip(0) =~= v@);
    while i < v.len() && v[i] == c
        invariant
            i <= v@.len(),
            trim_start_char(v@, c) == trim_start_char(v@.skip(i as int), c),
        decreases v@.len() - i,
    {
        proof {
            lemma_trim_start_char_skip(v@, c, i as int);
        }
        i += 1;
    }
    let r = slice_chars(v, i, v.len());
    assert(r@ =~= v@.skip(i as int));
    r
}

/// `trim_end_char` as a new vector.
pub fn trim_end_char_vec(v: &[char], c: char) -> (r: Vec<char>)
    ensures
        r@ == trim_end_char(v@, c),
{
    let mut i: usize = v.len();
    assert(v@.take(v@.len() as int) =~= v@);
    while i > 0 && v[i - 1] == c
        invariant
            i <= v@.len(),
            trim_end_char(v@, c) == trim_end_char(v@.take(i as int), c),
        decreases i,
    {
        proof {
            lemma_trim_end_char_take(v@, c, i as int);
        }
        i -= 1;
    }
    let r = slice_chars(v, 0, i);
    assert(r@ =~= v@.take(i as int));
    r
}

/// `trim_char` as a new vector.
pub fn trim_char_vec(v: &[char], c: char) -> (r: Vec<char>)
    ensures
        r@ == trim_char(v@, c),
{
    let a = trim_start_char_vec(v, c);
    trim_end_char_vec(&a, c)
}

// ───────────────────────────── searching ─────────────────────────────

/// `i` is the first position of `c` in `s`.
pub open spec fn first_at(s: Seq<char>, c: char, i: int) -> bool {
    &&& 0 <= i < s.len()
    &&& s[i] == c
    &&& forall|j: int| 0 <= j < i ==> s[j] != c
}

/// The position of the first `c` in `s` (`str::find(c)`, counted in characters).
pub open spec fn find_char(s: Seq<char>, c: char) -> Option<int> {
    if exists|i: int| #[trigger] first_at(s, c, i) {
        Some(choose|i: int| #[trigger] first_at(s, c, i))
    } else {
        None
    }
}

/// What [`find_char`] gives is the first position of `c`, and it gives nothing only
/// when `c` does not occur.
pub proof fn lemma_find_char(s: Seq<char>, c: char)
    ensures
        match find_char(s, c) {
            Some(p) => first_at(s, c, p),
            None => forall|j: int| 0 <= j < s.len() ==> s[j] != c,
        },
{
    if find_char(s, c) is None {
        assert forall|j: int| 0 <= j < s.len() implies s[j] != c by {
            if s[j] == c {
                lemma_least_occurrence(s, c, j);
            }
        }
    }
}

/// `find_char` gives the first position of `c`, whichever way that position is known.
pub proof fn lemma_find_char_first(s: Seq<char>, c: char, j: int)
    requires
        first_at(s, c, j),
    ensures
        find_char(s, c) == Some(j),
{
    lemma_find_char(s, c);
    if let Some(p) = find_char(s, c) {
        if p < j {
            assert(s[p] != c);
        }
        if j < p {
            assert(s[j] != c);
        }
    } else {
        assert(s[j] != c);
    }
}

proof fn lemma_least_occurrence(s: Seq<char>, c: char, j: int)
    requires
        0 <= j < s.len(),
        s[j] == c,
    ensures
        exists|i: int| #[trigger] first_at(s, c, i),
    decreases j,
{
    if exists|m: int| 0 <= m < j && s[m] == c {
        let m = choose|m: int| 0 <= m < j && s[m] == c;
        lemma_least_occurrence(s, c, m);
    } else {
        assert(first_at(s, c, j));
    }
}

/// A first position is what [`find_char`] gives.
pub proof fn lemma_find_char_at(s: Seq<char>, c: char, i: int)
    requires
        first_at(s, c, i),
    ensures
        find_char(s, c) == Some(i),
{
    let k = choose|k: int| #[trigger] first_at(s, c, k);
    assert(first_at(s, c, k));
    if k < i {
        assert(s[k] != c);
    } else if k > i {
        assert(s[i] != c);
    }
}

/// When `c` does not occur, [`find_char`] gives nothing.
pub proof fn lemma_find_char_none(s: Seq<char>, c: char)
    requires
        forall|j: int| 0 <= j < s.len() ==> s[j] != c,
    ensures
        find_char(s, c) is None,
{
    lemma_find_char(s, c);
}

/// `Some(i)` read as a mathematical integer.
pub open spec fn opt_int(o: Option<usize>) -> Option<int> {
    match o {
        Some(i) => Some(i as int),
        None => None,
    }
}

/// Executable form of [`find_char`].
pub fn find_char_vec(v: &[char], c: char) -> (r: Option<usize>)
    ensures
        opt_int(r) == find_char(v@, c),
{
    let mut i: usize = 0;
    while i < v.len()
        invariant
            i <= v@.len(),
            forall|j: int| 0 <= j < i ==> v@[j] != c,
        decreases v@.len() - i,
    {
        if v[i] == c {
            proof {
                lemma_find_char_at(v@, c, i as int);
            }
            return Some(i);
        }
        i += 1;
    }
    proof {
        lemma_find_char_none(v@, c);
    }
    None
}

/// Whether `c` occurs in `v`.
pub fn contains_char_vec(v: &[char], c: char) -> (r: bool)
    ensures
        r == v@.contains(c),
{
    let f = find_char_vec(v, c);
    proof {
        lemma_find_char(v@, c);
    }
    f.is_some()
}

/// Whether `s` starts with the character `c`.
pub open spec fn starts_with_char(s: Seq<char>, c: char) -> bool {
    s.len() > 0 && s[0] == c
}

/// `p` occurs in `s` at position `i`.
pub open spec fn matches_at(s: Seq<char>, p: Seq<char>, i: int) -> bool {
    &&& 0 <= i
    &&& i + p.len() <= s.len()
    &&& s.subrange(i, i + p.len()) == p
}

/// `i` is the first position at which `p` occurs in `s`.
pub open spec fn first_match_at(s: Seq<char>, p: Seq<char>, i: int) -> bool {
    &&& matches_at(s, p, i)
    &&& forall|j: int| 0 <= j < i ==> !#[trigger] matches_at(s, p, j)
}

/// Whether `p` occurs in `s` (`str::contains(p)`).
pub open spec fn contains_sub(s: Seq<char>, p: Seq<char>) -> bool {
    exists|i: int| #[trigger] matches_at(s, p, i)
}

/// The first position at which `p` occurs in `s` (`str::find(p)`, counted in characters).
pub open spec fn find_sub(s: Seq<char>, p: Seq<char>) -> Option<int> {
    if exists|i: int| #[trigger] first_match_at(s, p, i) {
        Some(choose|i: int| #[trigger] first_match_at(s, p, i))
    } else {
        None
    }
}

proof fn lemma_least_match(s: Seq<char>, p: Seq<char>, j: int)
    requires
        matches_at(s, p, j),
    ensures
        exists|i: int| #[trigger] first_match_at(s, p, i),
    decreases j,
{
    if exists|m: int| 0 <= m < j && #[trigger] matches_at(s, p, m) {
        let m = choose|m: int| 0 <= m < j && #[trigger] matches_at(s, p, m);
        lemma_least_match(s, p, m);
    } else {
        assert(first_match_at(s, p, j));
    }
}

/// What [`find_sub`] gives is the first position of `p`, and it gives nothing only when
/// `p` does not occur.
pub proof fn lemma_find_sub(s: Seq<char>, p: Seq<char>)
    ensures
        match find_sub(s, p) {
            Some(i) => first_match_at(s, p, i),
            None => !contains_sub(s, p),
        },
        find_sub(s, p) is Some <==> contains_sub(s, p),
{
    if contains_sub(s, p) {
        let j = choose|j: int| #[trigger] matches_at(s, p, j);
        lemma_least_match(s, p, j);
    }
}

/// A first match position is what [`find_sub`] gives.
pub proof fn lemma_find_sub_at(s: Seq<char>, p: Seq<char>, i: int)
    requires
        first_match_at(s, p, i),
    ensures
        find_sub(s, p) == Some(i),
{
    let k = choose|k: int| #[trigger] first_match_at(s, p, k);
    assert(first_match_at(s, p, k));
    if k < i {
        assert(!matches_at(s, p, k));
    } else if k > i {
        assert(!matches_at(s, p, i));
    }
}

/// Whether `p` occurs in `v` at position `i`.
pub fn matches_at_vec(v: &[char], p: &[char], i: usize) -> (r: bool)
    ensures
        r == matches_at(v@, p@, i as int),
{
    if i > v.len() || p.len() > v.len() - i {
        return false;
    }
    let mut k: usize = 0;
    assert(v@.len() == v.len());
    while k < p.len()
        invariant
            i + p@.len() <= v@.len(),
            v@.len() == v.len(),
            k <= p@.len(),
            forall|m: int| 0 <= m < k ==> v@[i + m] == p@[m],
        decreases p@.len() - k,
    {
        if v[i + k] != p[k] {
            assert(v@.subrange(i as int, i + p@.len())[k as int] != p@[k as int]);
            return false;
        }
        k += 1;
    }
    assert(v@.subrange(i as int, i + p@.len()) =~= p@);
    true
}

/// Executable form of [`find_sub`].
pub fn find_sub_vec(v: &[char], p: &[char]) -> (r: Option<usize>)
    ensures
        opt_int(r) == find_sub(v@, p@),
{
    let mut i: usize = 0;
    while i < v.len()
        invariant
            i <= v@.len(),
            forall|j: int| 0 <= j < i ==> !#[trigger] matches_at(v@, p@, j),
        decreases v@.len() - i,
    {
        if matches_at_vec(v, p, i) {
            proof {
                lemma_find_sub_at(v@, p@, i as int);
            }
            return Some(i);
        }
        i += 1;
    }
    if matches_at_vec(v, p, i) {
        proof {
            lemma_find_sub_at(v@, p@, i as int);
        }
        return Some(i);
    }
    proof {
        lemma_find_sub(v@, p@);
        if contains_sub(v@, p@) {
            let j = choose|j: int| #[trigger] matches_at(v@, p@, j);
            assert(j <= v@.len());
            assert(!matches_at(v@, p@, j));
        }
    }
    None
}

/// Whether `p` occurs in `v`.
pub fn contains_sub_vec(v: &[char], p: &[char]) -> (r: bool)
    ensures
        r == contains_sub(v@, p@),
{
    let f = find_sub_vec(v, p);
    proof {
        lemma_find_sub(v@, p@);
    }
    f.is_some()
}

// ───────────────────────────── numbers ─────────────────────────────

/// Whether `c` is an ASCII decimal digit (`char::is_ascii_digit`).
pub open spec fn is_digit(c: char) -> bool {
    '0' <= c && c <= '9'
}

/// The value of the ASCII digit `c`.
pub open spec fn digit_value(c: char) -> nat {
    (c as u32 - '0' as u32) as nat
}

/// Every character of `s` is an ASCII digit.
pub open spec fn all_digits(s: Seq<char>) -> bool {
    forall|i: int| 0 <= i < s.len() ==> is_digit(#[trigger] s[i])
}

/// The number of ASCII digits at the start of `s` (`take_while(is_ascii_digit)`).
pub open spec fn digit_run(s: Seq<char>) -> nat
    decreases s.len(),
{
    if s.len() > 0 && is_digit(s[0]) {
        1 + digit_run(s.drop_first())
    } else {
        0
    }
}

/// The number written in decimal by the digits `s`.
pub open spec fn digits_value(s: Seq<char>) -> nat
    decreases s.len(),
{
    if s.len() == 0 {
        0
    } else {
        digits_value(s.drop_last()) * 10 + digit_value(s.last())
    }
}

/// What `s.parse::<u32>()` gives: an optional `+` sign, then one or more ASCII digits
/// whose value fits in a `u32`.
pub open spec fn parse_u32(s: Seq<char>) -> Option<u32> {
    let d = if s.len() > 1 && s[0] == '+' {
        s.drop_first()
    } else {
        s
    };
    if d.len() > 0 && all_digits(d) && digits_value(d) <= u32::MAX {
        Some(digits_value(d) as u32)
    } else {
        None
    }
}

/// What `s.parse::<usize>()` gives: an optional `+` sign, then one or more ASCII digits
/// whose value fits in a `usize`.
pub open spec fn parse_usize(s: Seq<char>) -> Option<usize> {
    let d = if s.len() > 1 && s[0] == '+' {
        s.drop_first()
    } else {
        s
    };
    if d.len() > 0 && all_digits(d) && digits_value(d) <= usize::MAX {
        Some(digits_value(d) as usize)
    } else {
        None
    }
}

proof fn lemma_digit_run_skip(s: Seq<char>, i: int)
    requires
        0 <= i < s.len(),
        is_digit(s[i]),
    ensures
        digit_run(s.skip(i)) == 1 + digit_run(s.skip(i + 1)),
{
    assert(s.skip(i).drop_first() =~= s.skip(i + 1));
}

/// The length of the run of ASCII digits at the start of `v`.
pub fn digit_run_vec(v: &[char]) -> (n: usize)
    ensures
        n == digit_run(v@),
        n <= v@.len(),
        all_digits(v@.take(n as int)),
{
    let mut i: usize = 0;
    assert(v@.skip(0) =~= v@);
    while i < v.len() && v[i] >= '0' && v[i] <= '9'
        invariant
            i <= v@.len(),
            digit_run(v@) == i + digit_run(v@.skip(i as int)),
            forall|j: int| 0 <= j < i ==> is_digit(#[trigger] v@[j]),
        decreases v@.len() - i,
    {
        proof {
            lemma_digit_run_skip(v@, i as int);
        }
        i += 1;
    }
    i
}

proof fn lemma_digits_value_take(s: Seq<char>, k: int)
    requires
        0 <= k < s.len(),
    ensures
        digits_value(s.take(k + 1)) == digits_value(s.take(k)) * 10 + digit_value(s[k]),
{
    assert(s.take(k + 1).drop_last() =~= s.take(k));
}

proof fn lemma_digits_value_grows(s: Seq<char>, k: int)
    requires
        0 <= k <= s.len(),
    ensures
        digits_value(s) >= digits_value(s.take(k)),
    decreases s.len() - k,
{
    if k < s.len() {
        lemma_digits_value_take(s, k);
        lemma_digits_value_grows(s, k + 1);
    } else {
        assert(s.take(k) =~= s);
    }
}

/// The value of the ASCII digit `c`.
fn digit_of(c: char) -> (d: u32)
    requires
        is_digit(c),
    ensures
        d == digit_value(c),
        d < 10,
{
    (c as u32) - ('0' as u32)
}

/// The value of the digits `v[from..]`, when it is at most `limit`.
fn digits_value_upto(v: &[char], from: usize, limit: u64) -> (r: Option<u64>)
    requires
        from <= v@.len(),
        10 <= limit <= u64::MAX / 16,
    ensures
        match r {
            Some(x) => all_digits(v@.skip(from as int)) && x == digits_value(v@.skip(from as int))
                && x <= limit,
            None => !all_digits(v@.skip(from as int)) || digits_value(v@.skip(from as int))
                > limit,
        },
{
    let ghost d = v@.skip(from as int);
    let mut acc: u64 = 0;
    let mut i: usize = from;
    assert(d.take(0) =~= Seq::<char>::empty());
    while i < v.len()
        invariant
            from <= i <= v@.len(),
            d == v@.skip(from as int),
            10 <= limit <= u64::MAX / 16,
            all_digits(d.take(i - from)),
            acc == digits_value(d.take(i - from)),
            acc <= limit,
        decreases v@.len() - i,
    {
        let c = v[i];
        if !(c >= '0' && c <= '9') {
            assert(d[i - from] == c);
            return None;
        }
        let dv = digit_of(c);
        proof {
            lemma_digits_value_take(d, i - from);
            assert(d[i - from] == c);
        }
        if acc > (limit - dv as u64) / 10 {
            proof {
                assert(acc * 10 + dv > limit) by (nonlinear_arith)
                    requires
                        acc > (limit - dv) / 10,
                        dv <= limit || dv > limit,
                ;
                if all_digits(d) {
                    lemma_digits_value_grows(d, i - from + 1);
                }
            }
            return None;
        }
        proof {
            assert(acc * 10 + dv <= limit) by (nonlinear_arith)
                requires
                    acc <= (limit - dv) / 10,
                    dv <= limit,
            ;
        }
        acc = acc * 10 + dv as u64;
        i += 1;
        assert(all_digits(d.take(i - from))) by {
            assert forall|j: int| 0 <= j < i - from implies is_digit(#[trigger] d.take(i - from)[j]) by {
                if j < i - 1 - from {
                    assert(d.take(i - from)[j] == d.take(i - 1 - from)[j]);
                }
            }
        }
    }
    assert(d.take(i - from) =~= d);
    Some(acc)
}

/// Executable form of [`parse_u32`].
pub fn parse_u32_chars(v: &[char]) -> (r: Option<u32>)
    ensures
        r == parse_u32(v@),
{
    let start: usize = if v.len() > 1 && v[0] == '+' { 1 } else { 0 };
    assert(start == 1 ==> v@.skip(1) =~= v@.drop_first());
    assert(v@.skip(0) =~= v@);
    if start == v.len() {
        return None;
    }
    match digits_value_upto(v, start, 0xFFFF_FFFF) {
        Some(x) => Some(x as u32),
        None => None,
    }
}

/// Executable form of [`parse_usize`].
pub fn parse_usize_chars(v: &[char]) -> (r: Option<usize>)
    ensures
        r == parse_usize(v@),
{
    let start: usize = if v.len() > 1 && v[0] == '+' { 1 } else { 0 };
    assert(start == 1 ==> v@.skip(1) =~= v@.drop_first());
    assert(v@.skip(0) =~= v@);
    if start == v.len() {
        return None;
    }
    if usize::MAX as u64 <= u64::MAX / 16 {
        match digits_value_upto(v, start, usize::MAX as u64) {
            Some(x) => Some(x as usize),
            None => None,
        }
    } else {
        // a 64-bit `usize`: the value is bounded by `u64::MAX / 16` first, the
        // remaining digits are checked one by one
        parse_usize_wide(v, start)
    }
}

/// `parse_usize` on the digits `v[start..]` when `usize` is wider than `u64::MAX / 16`.
fn parse_usize_wide(v: &[char], start: usize) -> (r: Option<usize>)
    requires
        start < v@.len(),
        start <= 1,
        start == 1 <==> (v@.len() > 1 && v@[0] == '+'),
    ensures
        r == parse_usize(v@),
{
    let ghost d = v@.skip(start as int);
    assert(start == 1 ==> d =~= v@.drop_first());
    assert(start == 0 ==> d =~= v@);
    let mut acc: usize = 0;
    let mut i: usize = start;
    assert(d.take(0) =~= Seq::<char>::empty());
    while i < v.len()
        invariant
            start <= i <= v@.len(),
            start <= 1,
            start == 1 <==> (v@.len() > 1 && v@[0] == '+'),
            start == 1 ==> d == v@.drop_first(),
            start == 0 ==> d == v@,
            d == v@.skip(start as int),
            all_digits(d.take(i - start)),
            acc == digits_value(d.take(i - start)),
        decreases v@.len() - i,
    {
        let c = v[i];
        if !(c >= '0' && c <= '9') {
            assert(d[i - start] == c);
            return None;
        }
        let dv = digit_of(c);
        proof {
            lemma_digits_value_take(d, i - start);
            assert(d[i - start] == c);
        }
        if acc > (usize::MAX - dv as usize) / 10 {
            proof {
                assert(acc * 10 + dv > usize::MAX) by (nonlinear_arith)
                    requires
                        acc > (usize::MAX - dv) / 10,
                        dv < 10,
                ;
                if all_digits(d) {
                    lemma_digits_value_grows(d, i - start + 1);
                }
            }
            return None;
        }
        proof {
            assert(acc * 10 + dv <= usize::MAX) by (nonlinear_arith)
                requires
                    acc <= (usize::MAX - dv) / 10,
                    dv < 10,
            ;
        }
        acc = acc * 10 + dv as usize;
        i += 1;
        assert(all_digits(d.take(i - start))) by {
            assert forall|j: int| 0 <= j < i - start implies is_digit(#[trigger] d.take(i - start)[j]) by {
                if j < i - 1 - start {
                    assert(d.take(i - start)[j] == d.take(i - 1 - start)[j]);
                }
            }
        }
    }
    assert(d.take(i - start) =~= d);
    Some(acc)
}

/// The character of the decimal digit `n`.
pub open spec fn digit_char(n: nat) -> char {
    if n == 0 { '0' }
    else if n == 1 { '1' }
    else if n == 2 { '2' }
    else if n == 3 { '3' }
    else if n == 4 { '4' }
    else if n == 5 { '5' }
    else if n == 6 { '6' }
    else if n == 7 { '7' }
    else if n == 8 { '8' }
    else { '9' }
}

/// The decimal digits of `n`, most significant first, without leading zeros
/// (`format!("{}", n)`).
pub open spec fn decimal(n: nat) -> Seq<char>
    decreases n,
{
    if n < 10 {
        seq![digit_char(n)]
    } else {
        decimal(n / 10).push(digit_char(n % 10))
    }
}

/// `s` preceded by as many `'0'` as it takes to reach `width` characters
/// (the zero padding of `format!("{:0w$}", ..)`).
pub open spec fn zero_pad(s: Seq<char>, width: nat) -> Seq<char> {
    if s.len() < width {
        Seq::new((width - s.len()) as nat, |i: int| '0') + s
    } else {
        s
    }
}

fn digit_char_exec(n: u32) -> (c: char)
    requires
        n < 10,
    ensures
        c == digit_char(n as nat),
{
    if n == 0 { '0' }
    else if n == 1 { '1' }
    else if n == 2 { '2' }
    else if n == 3 { '3' }
    else if n == 4 { '4' }
    else if n == 5 { '5' }
    else if n == 6 { '6' }
    else if n == 7 { '7' }
    else if n == 8 { '8' }
    else { '9' }
}

/// Appends the decimal digits of `n` to `out`.
pub fn push_decimal(out: &mut Vec<char>, n: u32)
    ensures
        final(out)@ == old(out)@ + decimal(n as nat),
    decreases n,
{
    if n >= 10 {
        push_decimal(out, n / 10);
        out.push(digit_char_exec(n % 10));
        assert(decimal(n as nat) == decimal((n / 10) as nat).push(digit_char((n % 10) as nat)));
    } else {
        out.push(digit_char_exec(n));
    }
}

/// Appends the decimal digits of `n`, zero padded to `width` characters, to `out`.
pub fn push_padded(out: &mut Vec<char>, n: u32, width: usize)
    ensures
        final(out)@ == old(out)@ + zero_pad(decimal(n as nat), width as nat),
{
    let mut digits: Vec<char> = Vec::new();
    push_decimal(&mut digits, n);
    assert(digits@ =~= decimal(n as nat));
    if digits.len() < width {
        let pad = width - digits.len();
        let mut k: usize = 0;
        let ghost start = out@;
        while k < pad
            invariant
                k <= pad,
                out@ == start + Seq::new(k as nat, |i: int| '0'),
            decreases pad - k,
        {
            out.push('0');
            k += 1;
            assert(out@ =~= start + Seq::new(k as nat, |i: int| '0'));
        }
    }
    let ghost mid = out@;
    let mut j: usize = 0;
    while j < digits.len()
        invariant
            j <= digits@.len(),
            out@ == mid + digits@.take(j as int),
        decreases digits@.len() - j,
    {
        out.push(digits[j]);
        j += 1;
        assert(out@ =~= mid + digits@.take(j as int));
    }
    assert(digits@.take(digits@.len() as int) =~= digits@);
    assert(out@ =~= old(out)@ + zero_pad(decimal(n as nat), width as nat));
}

/// Appends the characters of `s` to `out`.
pub fn push_all(out: &mut Vec<char>, s: &[char])
    ensures
        final(out)@ == old(out)@ + s@,
{
    let mut j: usize = 0;
    while j < s.len()
        invariant
            j <= s@.len(),
            out@ == old(out)@ + s@.take(j as int),
        decreases s@.len() - j,
    {
        out.push(s[j]);
        j += 1;
        assert(out@ =~= old(out)@ + s@.take(j as int));
    }
    assert(s@.take(s@.len() as int) =~= s@);
}

// ───────────────────────────── splitting ─────────────────────────────

/// The first piece of `s` split at `c` (`s.split(c).next()`): the text before the
/// first `c`, or all of `s`.
pub open spec fn before_char(s: Seq<char>, c: char) -> Seq<char> {
    match find_char(s, c) {
        Some(p) => s.take(p),
        None => s,
    }
}

/// The second piece of `s` split at `c` (`s.split(c).nth(1)`): the text between the
/// first and the second `c` (or the end), present only when `c` occurs.
pub open spec fn second_piece(s: Seq<char>, c: char) -> Option<Seq<char>> {
    match find_char(s, c) {
        Some(p) => Some(before_char(s.skip(p + 1), c)),
        None => None,
    }
}

/// The second piece of `s` split at the text `pat` (`s.split(pat).nth(1)`).
pub open spec fn second_piece_sub(s: Seq<char>, pat: Seq<char>) -> Option<Seq<char>> {
    match find_sub(s, pat) {
        Some(p) => {
            let rest = s.skip(p + pat.len());
            Some(
                match find_sub(rest, pat) {
                    Some(q) => rest.take(q),
                    None => rest,
                },
            )
        },
        None => None,
    }
}

/// The text after the first `c` in `s` (`&s[s.find(c)? + 1..]`).
pub open spec fn after_char(s: Seq<char>, c: char) -> Option<Seq<char>> {
    match find_char(s, c) {
        Some(p) => Some(s.skip(p + 1)),
        None => None,
    }
}

/// Executable form of [`before_char`].
pub fn before_char_vec(v: &[char], c: char) -> (r: Vec<char>)
    ensures
        r@ == before_char(v@, c),
{
    match find_char_vec(v, c) {
        Some(p) => {
            proof {
                lemma_find_char(v@, c);
            }
            slice_chars(v, 0, p)
        },
        None => {
            let r = slice_chars(v, 0, v.len());
            assert(r@ =~= v@);
            r
        },
    }
}

/// Executable form of [`after_char`].
pub fn after_char_vec(v: &[char], c: char) -> (r: Option<Vec<char>>)
    ensures
        match r {
            Some(x) => after_char(v@, c) == Some(x@),
            None => after_char(v@, c) is None,
        },
{
    match find_char_vec(v, c) {
        Some(p) => {
            proof {
                lemma_find_char(v@, c);
            }
            assert(v@.len() == v.len());
            let x = slice_chars(v, p + 1, v.len());
            assert(x@ =~= v@.skip(p + 1));
            Some(x)
        },
        None => None,
    }
}

/// Executable form of [`second_piece`].
pub fn second_piece_vec(v: &[char], c: char) -> (r: Option<Vec<char>>)
    ensures
        match r {
            Some(x) => second_piece(v@, c) == Some(x@),
            None => second_piece(v@, c) is None,
        },
{
    match after_char_vec(v, c) {
        Some(rest) => Some(before_char_vec(&rest, c)),
        None => None,
    }
}

/// Executable form of [`second_piece_sub`].
pub fn second_piece_sub_vec(v: &[char], pat: &[char]) -> (r: Option<Vec<char>>)
    ensures
        match r {
            Some(x) => second_piece_sub(v@, pat@) == Some(x@),
            None => second_piece_sub(v@, pat@) is None,
        },
{
    match find_sub_vec(v, pat) {
        Some(p) => {
            proof {
                lemma_find_sub(v@, pat@);
            }
            assert(v@.len() == v.len());
            let rest = slice_chars(v, p + pat.len(), v.len());
            assert(rest@ =~= v@.skip(p + pat@.len()));
            match find_sub_vec(&rest, pat) {
                Some(q) => {
                    proof {
                        lemma_find_sub(rest@, pat@);
                    }
                    Some(slice_chars(&rest, 0, q))
                },
                None => Some(rest),
            }
        },
        None => None,
    }
}

/// The number of characters at the start of `s` that are not white space.
pub open spec fn word_run(s: Seq<char>) -> nat
    decreases s.len(),
{
    if s.len() > 0 && !is_white(s[0]) {
        1 + word_run(s.drop_first())
    } else {
        0
    }
}

/// The first white-space separated word of `s` (`s.split_whitespace().next()`).
pub open spec fn first_word(s: Seq<char>) -> Option<Seq<char>> {
    let t = trim_start(s);
    if t.len() == 0 {
        None
    } else {
        Some(t.take(word_run(t) as int))
    }
}

proof fn lemma_word_run_skip(s: Seq<char>, i: int)
    requires
        0 <= i < s.len(),
        !is_white(s[i]),
    ensures
        word_run(s.skip(i)) == 1 + word_run(s.skip(i + 1)),
{
    assert(s.skip(i).drop_first() =~= s.skip(i + 1));
}

/// Executable form of [`first_word`].
pub fn first_word_vec(v: &[char]) -> (r: Option<Vec<char>>)
    ensures
        match r {
            Some(x) => first_word(v@) == Some(x@),
            None => first_word(v@) is None,
        },
{
    let t = trim_start_vec(v);
    if t.len() == 0 {
        return None;
    }
    let mut i: usize = 0;
    assert(t@.skip(0) =~= t@);
    while i < t.len() && !is_white_char(t[i])
        invariant
            i <= t@.len(),
            word_run(t@) == i + word_run(t@.skip(i as int)),
        decreases t@.len() - i,
    {
        proof {
            lemma_word_run_skip(t@, i as int);
        }
        i += 1;
    }
    Some(slice_chars(&t, 0, i))
}

/// `s` with every occurrence of `pat` replaced by `rep`, scanning from the left
/// (`str::replace(pat, rep)` for a non-empty `pat`).
pub open spec fn replace_all(s: Seq<char>, pat: Seq<char>, rep: Seq<char>) -> Seq<char>
    decreases s.len(),
{
    if pat.len() == 0 {
        s
    } else {
        match find_sub(s, pat) {
            Some(p) => {
                proof {
                    lemma_find_sub(s, pat);
                }
                s.take(p) + rep + replace_all(s.skip(p + pat.len()), pat, rep)
            },
            None => s,
        }
    }
}

/// Executable form of [`replace_all`].
pub fn replace_all_vec(v: &[char], pat: &[char], rep: &[char]) -> (r: Vec<char>)
    requires
        pat@.len() > 0,
    ensures
        r@ == replace_all(v@, pat@, rep@),
{
    let mut out: Vec<char> = Vec::new();
    let mut rest = slice_chars(v, 0, v.len());
    assert(rest@ =~= v@);
    while rest.len() > 0
        invariant
            pat@.len() > 0,
            replace_all(v@, pat@, rep@) == out@ + replace_all(rest@, pat@, rep@),
        decreases rest@.len(),
    {
        match find_sub_vec(&rest, pat) {
            Some(p) => {
                proof {
                    lemma_find_sub(rest@, pat@);
                }
                let head = slice_chars(&rest, 0, p);
                push_all(&mut out, &head);
                push_all(&mut out, rep);
                let tail = slice_chars(&rest, p + pat.len(), rest.len());
                assert(tail@ =~= rest@.skip(p + pat@.len()));
                assert(out@ + replace_all(tail@, pat@, rep@) =~= (out@.subrange(
                    0,
                    out@.len() - head@.len() - rep@.len(),
                )) + replace_all(rest@, pat@, rep@));
                rest = tail;
            },
            None => {
                push_all(&mut out, &rest);
                let empty: Vec<char> = Vec::new();
                proof {
                    lemma_find_sub(empty@, pat@);
                    assert(replace_all(empty@, pat@, rep@) =~= empty@);
                }
                return out;
            },
        }
    }
    proof {
        lemma_find_sub(rest@, pat@);
        assert(out@ + replace_all(rest@, pat@, rep@) =~= out@);
    }
    out
}

/// `s` with its last character dropped when that is a carriage return.
pub open spec fn strip_cr(s: Seq<char>) -> Seq<char> {
    if s.len() > 0 && s.last() == '\r' {
        s.drop_last()
    } else {
        s
    }
}

/// The lines of `s` (`str::lines`): pieces ended by `'\n'` or `"\r\n"`; the last
/// line needs no ending, and an ending at the very end adds no empty line.
pub open spec fn lines_of(s: Seq<char>) -> Seq<Seq<char>>
    decreases s.len(),
{
    if s.len() == 0 {
        seq![]
    } else {
        match find_char(s, '\n') {
            Some(p) => {
                proof {
                    lemma_find_char(s, '\n');
                }
                seq![strip_cr(s.take(p))] + lines_of(s.skip(p + 1))
            },
            None => seq![s],
        }
    }
}

/// The characters of each vector.
pub open spec fn char_seqs(v: Seq<Vec<char>>) -> Seq<Seq<char>> {
    v.map_values(|x: Vec<char>| x@)
}

/// The characters of each string.
pub open spec fn string_seqs(v: Seq<String>) -> Seq<Seq<char>> {
    v.map_values(|x: String| x@)
}

/// Executable form of [`lines_of`].
pub fn split_lines(v: &[char]) -> (r: Vec<Vec<char>>)
    ensures
        char_seqs(r@) == lines_of(v@),
{
    let mut out: Vec<Vec<char>> = Vec::new();
    let mut start: usize = 0;
    let mut i: usize = 0;
    assert(v@.skip(0) =~= v@);
    while i < v.len()
        invariant
            start <= i <= v@.len(),
            forall|j: int| start <= j < i ==> v@[j] != '\n',
            lines_of(v@) == char_seqs(out@) + lines_of(v@.skip(start as int)),
        decreases v@.len() - i,
    {
        if v[i] == '\n' {
            let ghost rest = v@.skip(start as int);
            proof {
                assert(first_at(rest, '\n', i - start));
                lemma_find_char_at(rest, '\n', i - start);
                assert(rest.take(i - start) =~= v@.subrange(start as int, i as int));
                assert(rest.skip(i - start + 1) =~= v@.skip(i + 1));
            }
            let mut end = i;
            if end > start && v[end - 1] == '\r' {
                end = end - 1;
            }
            let line = slice_chars(v, start, end);
            assert(line@ =~= strip_cr(v@.subrange(start as int, i as int)));
            let ghost before = char_seqs(out@);
            out.push(line);
            assert(char_seqs(out@) =~= before.push(line@));
            start = i + 1;
        }
        i += 1;
    }
    if start < v.len() {
        let ghost rest = v@.skip(start as int);
        proof {
            lemma_find_char_none(rest, '\n');
        }
        let line = slice_chars(v, start, v.len());
        assert(line@ =~= rest);
        let ghost before = char_seqs(out@);
        out.push(line);
        assert(char_seqs(out@) =~= before.push(line@));
    } else {
        assert(v@.skip(start as int).len() == 0);
    }
    assert(char_seqs(out@) =~= lines_of(v@));
    out
}

/// The lines joined with `sep` between them (`[..].join(sep)`).
pub open spec fn join(lines: Seq<Seq<char>>, sep: Seq<char>) -> Seq<char>
    decreases lines.len(),
{
    if lines.len() == 0 {
        seq![]
    } else if lines.len() == 1 {
        lines[0]
    } else {
        join(lines.drop_last(), sep) + sep + lines.last()
    }
}

/// Executable form of [`join`].
pub fn join_strings(lines: &[String], sep: &[char]) -> (r: String)
    ensures
        r@ == join(string_seqs(lines@), sep@),
{
    let mut out: Vec<char> = Vec::new();
    let mut i: usize = 0;
    while i < lines.len()
        invariant
            i <= lines@.len(),
            out@ == join(string_seqs(lines@).take(i as int), sep@),
        decreases lines@.len() - i,
    {
        let line = to_chars(lines[i].as_str());
        if i > 0 {
            push_all(&mut out, sep);
        }
        push_all(&mut out, &line);
        assert(string_seqs(lines@).take(i + 1).drop_last() =~= string_seqs(lines@).take(i as int));
        i += 1;
    }
    assert(string_seqs(lines@).take(lines@.len() as int) =~= string_seqs(lines@));
    from_chars(&out)
}

// ───────────────────────────── case ─────────────────────────────

/// A character in ASCII lower case (`char::to_ascii_lowercase`).
pub open spec fn ascii_lower(c: char) -> char {
    if 65 <= (c as u32) && (c as u32) <= 90 {
        (((c as u32) + 32) as u8) as char
    } else {
        c
    }
}

/// A text in ASCII lower case (`str::to_ascii_lowercase`).
pub open spec fn ascii_lowercase(s: Seq<char>) -> Seq<char> {
    s.map_values(|c: char| ascii_lower(c))
}

/// A text in ASCII lower case (see [`ascii_lowercase`]).
pub fn ascii_lowercase_chars(v: &[char]) -> (r: Vec<char>)
    ensures
        r@ == ascii_lowercase(v@),
{
    let mut r: Vec<char> = Vec::new();
    let mut i: usize = 0;
    while i < v.len()
        invariant
            i <= v@.len(),
            r@ == ascii_lowercase(v@.take(i as int)),
        decreases v@.len() - i,
    {
        let c = v[i];
        let u = c as u32;
        let l = if 65 <= u && u <= 90 {
            ((u + 32) as u8) as char
        } else {
            c
        };
        r.push(l);
        assert(r@ =~= ascii_lowercase(v@.take(i + 1)));
        i += 1;
    }
    assert(v@.take(i as int) =~= v@);
    r
}

/// Whether every character of a text is ASCII.
pub open spec fn all_ascii(s: Seq<char>) -> bool {
    forall|i: int| 0 <= i < s.len() ==> (#[trigger] s[i] as u32) < 0x80
}

/// What `str::to_lowercase` gives for a text: its Unicode lower-case form.
pub uninterp spec fn lowercased(s: Seq<char>) -> Seq<char>;

/// Whether the lower-case form of a text is known to be its ASCII lower case: it is,
/// when the text is all ASCII (a fact learnt from each call of [`to_lowercase`]).
pub open spec fn lowercase_known(s: Seq<char>) -> bool {
    all_ascii(s) ==> lowercased(s) == ascii_lowercase(s)
}

/// Calls `str::to_lowercase`; the result is the [`lowercased`] form of `s`, a function
/// of `s` alone. For ASCII text it is the ASCII lower case of each character, as the
/// standard library documents; nothing is claimed here of other characters.
#[verifier::external_body]
pub(crate) fn to_lowercase(s: &str) -> (r: String)
    ensures
        r@ == lowercased(s@),
        all_ascii(s@) ==> r@ == ascii_lowercase(s@),
{
    s.to_lowercase()
}

} // verus!
