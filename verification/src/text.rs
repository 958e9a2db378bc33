//! Character-level string operations with exact specifications.
//!
//! Strings are handled as sequences of `char`s (the view of `str` and
//! `String`). Positions in these specifications are character positions;
//! because every cut happens at a character boundary, the strings produced
//! are the same as those produced by byte-offset slicing.

use vstd::prelude::*;

verus! {

broadcast use vstd::string::group_string_axioms;

// ---------------------------------------------------------------------------
// Specifications
// ---------------------------------------------------------------------------

/// `i` is the first position of `c` in `s`.
pub open spec fn is_first_char(s: Seq<char>, c: char, i: int) -> bool {
    &&& 0 <= i < s.len()
    &&& s[i] == c
    &&& forall|j: int| 0 <= j < i ==> s[j] != c
}

/// `i` is the last position of `c` in `s`.
pub open spec fn is_last_char(s: Seq<char>, c: char, i: int) -> bool {
    &&& 0 <= i < s.len()
    &&& s[i] == c
    &&& forall|j: int| i < j < s.len() ==> s[j] != c
}

/// The first position of `c` in `s`, if `c` occurs (like `str::find` with a `char`).
pub open spec fn find_char(s: Seq<char>, c: char) -> Option<int> {
    if exists|i: int| is_first_char(s, c, i) {
        Some(choose|i: int| is_first_char(s, c, i))
    } else {
        None
    }
}

/// The last position of `c` in `s`, if `c` occurs (like `str::rfind` with a `char`).
pub open spec fn rfind_char(s: Seq<char>, c: char) -> Option<int> {
    if exists|i: int| is_last_char(s, c, i) {
        Some(choose|i: int| is_last_char(s, c, i))
    } else {
        None
    }
}

/// `p` occurs in `s` starting at position `i`.
pub open spec fn occurs_at(s: Seq<char>, p: Seq<char>, i: int) -> bool {
    0 <= i && i + p.len() <= s.len() && s.subrange(i, i + p.len()) == p
}

/// `i` is the first position at which `p` occurs in `s`.
pub open spec fn is_first_occurrence(s: Seq<char>, p: Seq<char>, i: int) -> bool {
    &&& occurs_at(s, p, i)
    &&& forall|j: int| 0 <= j < i ==> !occurs_at(s, p, j)
}

/// The first position at which `p` occurs in `s` (like `str::find` with a `&str`).
pub open spec fn find_seq(s: Seq<char>, p: Seq<char>) -> Option<int> {
    if exists|i: int| is_first_occurrence(s, p, i) {
        Some(choose|i: int| is_first_occurrence(s, p, i))
    } else {
        None
    }
}

/// `s` begins with `p`.
pub open spec fn starts_with(s: Seq<char>, p: Seq<char>) -> bool {
    p.len() <= s.len() && s.take(p.len() as int) == p
}

/// `'0'..='9'`.
pub open spec fn is_ascii_digit(c: char) -> bool {
    '0' <= c && c <= '9'
}

/// Every character of `s` is an ASCII digit.
pub open spec fn all_digits(s: Seq<char>) -> bool {
    forall|i: int| 0 <= i < s.len() ==> is_ascii_digit(#[trigger] s[i])
}

/// The digit character for `d < 10`.
pub open spec fn digit_char(d: nat) -> char {
    ((d + 48) as u32) as char
}

/// The value of an ASCII digit character.
pub open spec fn digit_value(c: char) -> nat {
    ((c as u32) - 48) as nat
}

/// The decimal notation of `n`, without sign or leading zeros (like `to_string`).
pub open spec fn decimal(n: nat) -> Seq<char>
    decreases n,
{
    if n < 10 {
        seq![digit_char(n)]
    } else {
        decimal(n / 10).push(digit_char(n % 10))
    }
}

/// The number denoted by a string of ASCII digits.
pub open spec fn digits_value(s: Seq<char>) -> nat
    decreases s.len(),
{
    if s.len() == 0 {
        0
    } else {
        digits_value(s.drop_last()) * 10 + digit_value(s.last())
    }
}

/// What `str::parse::<u32>` yields: an optional `+` followed by at least one
/// ASCII digit, denoting a number that fits in a `u32`.
pub open spec fn parse_u32(s: Seq<char>) -> Option<u32> {
    let d = if s.len() > 0 && s[0] == '+' {
        s.drop_first()
    } else {
        s
    };
    if d.len() > 0 && all_digits(d) && digits_value(d) <= u32::MAX {
        Some(digits_value(d) as u32)
    } else {
        None
    }
}

/// `s` with every leading `c` removed (like `trim_start_matches(c)`).
pub open spec fn trim_start_char(s: Seq<char>, c: char) -> Seq<char>
    decreases s.len(),
{
    if s.len() > 0 && s[0] == c {
        trim_start_char(s.drop_first(), c)
    } else {
        s
    }
}

/// `s` with every trailing `c` removed (like `trim_end_matches(c)`).
pub open spec fn trim_end_char(s: Seq<char>, c: char) -> Seq<char>
    decreases s.len(),
{
    if s.len() > 0 && s.last() == c {
        trim_end_char(s.drop_last(), c)
    } else {
        s
    }
}

/// The characters with the Unicode `White_Space` property (`char::is_whitespace`).
pub open spec fn is_whitespace(c: char) -> bool {
    let u = c as u32;
    ||| 0x09 <= u <= 0x0d
    ||| u == 0x20
    ||| u == 0x85
    ||| u == 0xa0
    ||| u == 0x1680
    ||| 0x2000 <= u <= 0x200a
    ||| u == 0x2028
    ||| u == 0x2029
    ||| u == 0x202f
    ||| u == 0x205f
    ||| u == 0x3000
}

/// `s` without leading white space.
pub open spec fn trim_start_ws(s: Seq<char>) -> Seq<char>
    decreases s.len(),
{
    if s.len() > 0 && is_whitespace(s[0]) {
        trim_start_ws(s.drop_first())
    } else {
        s
    }
}

/// `s` without trailing white space.
pub open spec fn trim_end_ws(s: Seq<char>) -> Seq<char>
    decreases s.len(),
{
    if s.len() > 0 && is_whitespace(s.last()) {
        trim_end_ws(s.drop_last())
    } else {
        s
    }
}

/// `s` without leading and trailing white space (like `str::trim`).
pub open spec fn trim_ws(s: Seq<char>) -> Seq<char> {
    trim_end_ws(trim_start_ws(s))
}

/// Every non-overlapping occurrence of `p` in `s`, scanning from the left,
/// replaced by `r` (like `str::replace` with a non-empty pattern).
pub open spec fn replace_all(s: Seq<char>, p: Seq<char>, r: Seq<char>) -> Seq<char>
    decreases s.len(),
{
    if s.len() == 0 || p.len() == 0 {
        s
    } else if starts_with(s, p) {
        r + replace_all(s.skip(p.len() as int), p, r)
    } else {
        seq![s[0]] + replace_all(s.drop_first(), p, r)
    }
}

/// The pieces of `s` between the occurrences of `c` (like `str::split` with a `char`).
pub open spec fn split_char(s: Seq<char>, c: char) -> Seq<Seq<char>>
    decreases s.len(),
{
    match find_char(s, c) {
        Some(i) => seq![s.take(i)] + split_char(s.skip(i + 1), c),
        None => seq![s],
    }
}

/// The text of `s` before the first `c` (the first piece of `split(c)`).
pub open spec fn before_char(s: Seq<char>, c: char) -> Seq<char> {
    match find_char(s, c) {
        Some(i) => s.take(i),
        None => s,
    }
}

// ---------------------------------------------------------------------------
// Lemmas
// ---------------------------------------------------------------------------

/// The first occurrence of a character is unique and found by `find_char`.
pub proof fn lemma_find_char(s: Seq<char>, c: char, i: int)
    requires
        is_first_char(s, c, i),
    ensures
        find_char(s, c) == Some(i),
{
    let k = choose|k: int| is_first_char(s, c, k);
    assert(is_first_char(s, c, k));
    if k < i {
        assert(s[k] != c);
    } else if k > i {
        assert(s[i] != c);
    }
}

/// A character that does not occur is not found.
pub proof fn lemma_find_char_none(s: Seq<char>, c: char)
    requires
        forall|j: int| 0 <= j < s.len() ==> s[j] != c,
    ensures
        find_char(s, c) is None,
{
}

/// What `find_char` yields, stated by its defining property.
pub proof fn lemma_find_char_some(s: Seq<char>, c: char)
    requires
        find_char(s, c) is Some,
    ensures
        is_first_char(s, c, find_char(s, c)->0),
{
}

/// The last occurrence of a character is unique and found by `rfind_char`.
pub proof fn lemma_rfind_char(s: Seq<char>, c: char, i: int)
    requires
        is_last_char(s, c, i),
    ensures
        rfind_char(s, c) == Some(i),
{
    let k = choose|k: int| is_last_char(s, c, k);
    assert(is_last_char(s, c, k));
    if k < i {
        assert(s[i] != c);
    } else if k > i {
        assert(s[k] != c);
    }
}

/// The first occurrence of a pattern is unique and found by `find_seq`.
pub proof fn lemma_find_seq(s: Seq<char>, p: Seq<char>, i: int)
    requires
        is_first_occurrence(s, p, i),
    ensures
        find_seq(s, p) == Some(i),
{
    let k = choose|k: int| is_first_occurrence(s, p, k);
    assert(is_first_occurrence(s, p, k));
    if k < i {
        assert(!occurs_at(s, p, k));
    } else if k > i {
        assert(!occurs_at(s, p, i));
    }
}

/// Each character of a decimal notation is a digit.
pub proof fn lemma_decimal_digits(n: nat)
    ensures
        all_digits(decimal(n)),
        1 <= decimal(n).len(),
    decreases n,
{
    if n >= 10 {
        lemma_decimal_digits(n / 10);
    }
}

/// A decimal notation denotes its number.
pub proof fn lemma_decimal_value(n: nat)
    ensures
        digits_value(decimal(n)) == n,
    decreases n,
{
    let d = decimal(n);
    if n >= 10 {
        lemma_decimal_value(n / 10);
        assert(d.drop_last() == decimal(n / 10));
        let c = digit_char(n % 10);
        assert(d.last() == c);
        assert((c as u32) == n % 10 + 48);
        assert(n == (n / 10) * 10 + n % 10);
    } else {
        let c = digit_char(n);
        assert((c as u32) == n + 48);
        assert(d.drop_last() =~= Seq::<char>::empty());
        assert(digits_value(d.drop_last()) == 0);
    }
}

/// The decimal notation of a `u32` has at most ten digits.
pub proof fn lemma_decimal_len_u32(n: nat)
    requires
        n <= u32::MAX,
    ensures
        decimal(n).len() <= 10,
{
    assert(pow10(10) == 10000000000) by {
        reveal_with_fuel(pow10, 11);
    }
    lemma_decimal_len_bound(n, 10);
}

proof fn lemma_decimal_len_bound(n: nat, k: nat)
    requires
        1 <= k,
        n < pow10(k),
    ensures
        decimal(n).len() <= k,
    decreases n,
{
    if n >= 10 {
        assert(k >= 2) by {
            if k == 1 {
                assert(pow10(1) == 10) by {
                    reveal_with_fuel(pow10, 2);
                }
            }
        }
        assert(n / 10 < pow10((k - 1) as nat)) by {
            assert(pow10(k) == 10 * pow10((k - 1) as nat));
        }
        lemma_decimal_len_bound(n / 10, (k - 1) as nat);
    }
}

/// Ten to the power `k`.
pub open spec fn pow10(k: nat) -> nat
    decreases k,
{
    if k == 0 {
        1
    } else {
        10 * pow10((k - 1) as nat)
    }
}

/// Decimal notations of different numbers differ.
pub proof fn lemma_decimal_injective(a: nat, b: nat)
    requires
        decimal(a) == decimal(b),
    ensures
        a == b,
{
    lemma_decimal_value(a);
    lemma_decimal_value(b);
}

/// A decimal notation does not begin with `+`.
pub proof fn lemma_decimal_no_sign(n: nat)
    ensures
        decimal(n)[0] != '+',
        decimal(n)[0] != '/',
{
    lemma_decimal_digits(n);
    assert(is_ascii_digit(decimal(n)[0]));
}

/// `parse_u32` reads back the decimal notation of a `u32`.
pub proof fn lemma_parse_decimal(n: u32)
    ensures
        parse_u32(decimal(n as nat)) == Some(n),
{
    lemma_decimal_digits(n as nat);
    lemma_decimal_value(n as nat);
    lemma_decimal_no_sign(n as nat);
}

/// A string with no occurrence of `c` is not split.
pub proof fn lemma_split_char_none(s: Seq<char>, c: char)
    requires
        forall|j: int| 0 <= j < s.len() ==> s[j] != c,
    ensures
        split_char(s, c) == seq![s],
{
}

/// Splitting `a`, then `c`, then `b` yields `a` as first piece when `a` holds no `c`.
pub proof fn lemma_split_char_cons(a: Seq<char>, b: Seq<char>, c: char)
    requires
        forall|j: int| 0 <= j < a.len() ==> a[j] != c,
    ensures
        split_char(a + seq![c] + b, c) == seq![a] + split_char(b, c),
{
    let s = a + seq![c] + b;
    assert(is_first_char(s, c, a.len() as int));
    lemma_find_char(s, c, a.len() as int);
    assert(s.take(a.len() as int) == a);
    assert(s.skip(a.len() + 1 as int) == b);
}

/// A character that occurs in `s` has a first occurrence.
pub proof fn lemma_find_char_exists(s: Seq<char>, c: char, j: int)
    requires
        0 <= j < s.len(),
        s[j] == c,
    ensures
        find_char(s, c) is Some,
    decreases j,
{
    if exists|k: int| 0 <= k < j && s[k] == c {
        let k = choose|k: int| 0 <= k < j && s[k] == c;
        lemma_find_char_exists(s, c, k);
    } else {
        lemma_find_char(s, c, j);
    }
}

/// The text before the first `c` holds no `c` and is a prefix of `s`.
pub proof fn lemma_before_char_free(s: Seq<char>, c: char)
    ensures
        forall|j: int| 0 <= j < before_char(s, c).len() ==> before_char(s, c)[j] != c,
        before_char(s, c).len() <= s.len(),
        forall|j: int| 0 <= j < before_char(s, c).len() ==> before_char(s, c)[j] == s[j],
{
    if find_char(s, c) is Some {
        lemma_find_char_some(s, c);
    } else {
        assert forall|j: int| 0 <= j < s.len() implies s[j] != c by {
            if s[j] == c {
                lemma_find_char_exists(s, c, j);
            }
        }
    }
}

/// No piece of `split_char(s, c)` holds `c`.
pub proof fn lemma_split_char_pieces_free(s: Seq<char>, c: char)
    ensures
        forall|k: int, j: int|
            0 <= k < split_char(s, c).len() && 0 <= j < split_char(s, c)[k].len()
                ==> #[trigger] split_char(s, c)[k][j] != c,
    decreases s.len(),
{
    let parts = split_char(s, c);
    match find_char(s, c) {
        Some(i) => {
            lemma_find_char_some(s, c);
            let rest = s.skip(i + 1);
            lemma_split_char_pieces_free(rest, c);
            assert forall|k: int, j: int|
                0 <= k < parts.len() && 0 <= j < parts[k].len() implies #[trigger] parts[k][j]
                != c by {
                if k == 0 {
                    assert(parts[0] == s.take(i));
                } else {
                    assert(parts[k] == split_char(rest, c)[k - 1]);
                }
            }
        },
        None => {
            assert forall|j: int| 0 <= j < s.len() implies s[j] != c by {
                if s[j] == c {
                    lemma_find_char_exists(s, c, j);
                }
            }
            assert(parts == seq![s]);
        },
    }
}

// ---------------------------------------------------------------------------
// Executable operations
// ---------------------------------------------------------------------------

/// Copies the characters of `s` into a vector.
pub fn chars_of(s: &str) -> (v: Vec<char>)
    ensures
        v@ == s@,
{
    let mut v: Vec<char> = Vec::new();
    for c in it: s.chars()
        invariant
            v@ == it.seq().take(it.index() as int),
            it.seq() == s@,
    {
        v.push(c);
    }
    v
}

/// Builds a `String` holding exactly the given characters, in order
/// (`<String as FromIterator<char>>::from_iter`).
#[verifier::external_body]
fn collect_string(v: Vec<char>) -> (s: String)
    ensures
        s@ == v@,
{
    String::from_iter(v)
}

/// A `String` holding exactly the characters of `v`.
pub fn string_from_chars(v: &Vec<char>) -> (s: String)
    ensures
        s@ == v@,
{
    let copy = sub_chars(v, 0, v.len());
    proof {
        assert(copy@ =~= v@);
    }
    collect_string(copy)
}

/// Appends `src` to `dst`.
pub fn push_all(dst: &mut Vec<char>, src: &Vec<char>)
    ensures
        final(dst)@ == old(dst)@ + src@,
{
    let ghost start = dst@;
    let mut i: usize = 0;
    while i < src.len()
        invariant
            0 <= i <= src.len(),
            dst@ == start + src@.take(i as int),
        decreases src.len() - i,
    {
        dst.push(src[i]);
        proof {
            assert(src@.take(i + 1) == src@.take(i as int).push(src@[i as int]));
        }
        i = i + 1;
    }
    proof {
        assert(src@.take(src.len() as int) == src@);
    }
}

/// Appends the characters of `s` to `dst`.
pub fn push_str(dst: &mut Vec<char>, s: &str)
    ensures
        final(dst)@ == old(dst)@ + s@,
{
    let cs = chars_of(s);
    push_all(dst, &cs);
}

/// Whether two character sequences are equal.
pub fn chars_eq(a: &Vec<char>, b: &Vec<char>) -> (r: bool)
    ensures
        r == (a@ == b@),
{
    if a.len() != b.len() {
        return false;
    }
    let mut i: usize = 0;
    while i < a.len()
        invariant
            a.len() == b.len(),
            0 <= i <= a.len(),
            forall|j: int| 0 <= j < i ==> a@[j] == b@[j],
        decreases a.len() - i,
    {
        if a[i] != b[i] {
            return false;
        }
        i = i + 1;
    }
    proof {
        assert(a@ =~= b@);
    }
    true
}

/// Whether a string equals a character sequence.
pub fn str_eq_chars(a: &str, b: &Vec<char>) -> (r: bool)
    ensures
        r == (a@ == b@),
{
    let ca = chars_of(a);
    chars_eq(&ca, b)
}

/// The characters of `v` from `from` up to, not including, `to`.
pub fn sub_chars(v: &Vec<char>, from: usize, to: usize) -> (r: Vec<char>)
    requires
        from <= to <= v.len(),
    ensures
        r@ == v@.subrange(from as int, to as int),
{
    let mut r: Vec<char> = Vec::new();
    let mut i: usize = from;
    while i < to
        invariant
            from <= i <= to <= v.len(),
            r@ == v@.subrange(from as int, i as int),
        decreases to - i,
    {
        r.push(v[i]);
        proof {
            assert(v@.subrange(from as int, i + 1) == v@.subrange(from as int, i as int).push(
                v@[i as int],
            ));
        }
        i = i + 1;
    }
    r
}

/// The first position of `c` in `v`.
pub fn find_char_exec(v: &Vec<char>, c: char) -> (r: Option<usize>)
    ensures
        match r {
            Some(i) => find_char(v@, c) == Some(i as int),
            None => find_char(v@, c) is None,
        },
{
    let mut i: usize = 0;
    while i < v.len()
        invariant
            0 <= i <= v.len(),
            forall|j: int| 0 <= j < i ==> v@[j] != c,
        decreases v.len() - i,
    {
        if v[i] == c {
            proof {
                lemma_find_char(v@, c, i as int);
            }
            return Some(i);
        }
        i = i + 1;
    }
    proof {
        lemma_find_char_none(v@, c);
    }
    None
}

/// The last position of `c` in `v`.
pub fn rfind_char_exec(v: &Vec<char>, c: char) -> (r: Option<usize>)
    ensures
        match r {
            Some(i) => rfind_char(v@, c) == Some(i as int),
            None => rfind_char(v@, c) is None,
        },
{
    let mut i: usize = v.len();
    while i > 0
        invariant
            0 <= i <= v.len(),
            forall|j: int| i <= j < v.len() ==> v@[j] != c,
        decreases i,
    {
        if v[i - 1] == c {
            proof {
                lemma_rfind_char(v@, c, i - 1);
            }
            return Some(i - 1);
        }
        i = i - 1;
    }
    proof {
        if exists|k: int| is_last_char(v@, c, k) {
            let k = choose|k: int| is_last_char(v@, c, k);
            assert(v@[k] != c);
        }
    }
    None
}

/// Whether `p` occurs in `v` at position `i`.
pub fn occurs_at_exec(v: &Vec<char>, p: &Vec<char>, i: usize) -> (r: bool)
    ensures
        r == occurs_at(v@, p@, i as int),
{
    if i > v.len() || p.len() > v.len() - i {
        return false;
    }
    let mut k: usize = 0;
    while k < p.len()
        invariant
            i + p.len() <= v.len(),
            0 <= k <= p.len(),
            forall|j: int| 0 <= j < k ==> v@[i + j] == p@[j],
        decreases p.len() - k,
    {
        if v[i + k] != p[k] {
            proof {
                assert(v@.subrange(i as int, i + p.len())[k as int] != p@[k as int]);
            }
            return false;
        }
        k = k + 1;
    }
    proof {
        assert(v@.subrange(i as int, i + p.len()) =~= p@);
    }
    true
}

/// The first position at which `p` occurs in `v`.
pub fn find_seq_exec(v: &Vec<char>, p: &Vec<char>) -> (r: Option<usize>)
    ensures
        match r {
            Some(i) => find_seq(v@, p@) == Some(i as int),
            None => find_seq(v@, p@) is None,
        },
{
    if p.len() > v.len() {
        proof {
            if exists|k: int| is_first_occurrence(v@, p@, k) {
                let k = choose|k: int| is_first_occurrence(v@, p@, k);
                assert(occurs_at(v@, p@, k));
            }
        }
        return None;
    }
    let last = v.len() - p.len();
    let mut i: usize = 0;
    loop
        invariant
            0 <= i <= last,
            last + p.len() == v.len(),
            forall|j: int| 0 <= j < i ==> !occurs_at(v@, p@, j),
        ensures
            forall|j: int| 0 <= j <= last ==> !occurs_at(v@, p@, j),
        decreases last - i,
    {
        if occurs_at_exec(v, p, i) {
            proof {
                lemma_find_seq(v@, p@, i as int);
            }
            return Some(i);
        }
        if i == last {
            break;
        }
        i = i + 1;
    }
    proof {
        if exists|k: int| is_first_occurrence(v@, p@, k) {
            let k = choose|k: int| is_first_occurrence(v@, p@, k);
            assert(!occurs_at(v@, p@, k));
        }
    }
    None
}

/// The decimal digit character for `d < 10`.
pub fn digit_char_exec(d: u64) -> (c: char)
    requires
        d < 10,
    ensures
        c == digit_char(d as nat),
{
    if d == 0 {
        '0'
    } else if d == 1 {
        '1'
    } else if d == 2 {
        '2'
    } else if d == 3 {
        '3'
    } else if d == 4 {
        '4'
    } else if d == 5 {
        '5'
    } else if d == 6 {
        '6'
    } else if d == 7 {
        '7'
    } else if d == 8 {
        '8'
    } else {
        '9'
    }
}

/// Appends the decimal notation of `n` to `out`.
pub fn push_decimal(out: &mut Vec<char>, n: u64)
    ensures
        final(out)@ == old(out)@ + decimal(n as nat),
    decreases n,
{
    if n >= 10 {
        push_decimal(out, n / 10);
    }
    let c = digit_char_exec(n % 10);
    out.push(c);
    proof {
        if n >= 10 {
            assert(decimal(n as nat) == decimal((n / 10) as nat).push(digit_char((n % 10) as nat)));
        }
    }
}

/// The decimal notation of `n`.
pub fn decimal_chars(n: u64) -> (v: Vec<char>)
    ensures
        v@ == decimal(n as nat),
{
    let mut v: Vec<char> = Vec::new();
    push_decimal(&mut v, n);
    assert(v@ =~= decimal(n as nat));
    v
}

/// Whether `c` is an ASCII digit.
pub fn is_ascii_digit_exec(c: char) -> (r: bool)
    ensures
        r == is_ascii_digit(c),
{
    '0' <= c && c <= '9'
}

/// The number denoted by the digits of `v` from `from` on, capped at `u32::MAX + 1`,
/// provided they are all digits.
fn digits_value_capped(v: &Vec<char>, from: usize) -> (r: Option<u64>)
    requires
        from <= v.len(),
    ensures
        match r {
            Some(x) => all_digits(v@.skip(from as int)) && x == (if digits_value(
                v@.skip(from as int),
            ) > u32::MAX {
                u32::MAX as nat + 1
            } else {
                digits_value(v@.skip(from as int))
            }),
            None => !all_digits(v@.skip(from as int)),
        },
{
    let cap: u64 = 0x1_0000_0000;
    let ghost d = v@.skip(from as int);
    let mut acc: u64 = 0;
    let mut i: usize = from;
    while i < v.len()
        invariant
            from <= i <= v.len(),
            d == v@.skip(from as int),
            all_digits(d.take(i - from)),
            acc == (if digits_value(d.take(i - from)) >= cap {
                cap as nat
            } else {
                digits_value(d.take(i - from))
            }),
            cap == 0x1_0000_0000,
        decreases v.len() - i,
    {
        let c = v[i];
        if !is_ascii_digit_exec(c) {
            proof {
                assert(d[i - from] == c);
            }
            return None;
        }
        let dv: u64 = (c as u32 - '0' as u32) as u64;
        let t: u64 = acc * 10 + dv;
        acc = if t > cap {
            cap
        } else {
            t
        };
        proof {
            let pre = d.take(i - from);
            let post = d.take(i - from + 1);
            assert(post.drop_last() == pre);
            assert(post.last() == c);
            assert(digit_value(c) == dv);
            assert(digits_value(post) == digits_value(pre) * 10 + dv);
            assert(all_digits(post)) by {
                assert forall|k: int| 0 <= k < post.len() implies is_ascii_digit(
                    #[trigger] post[k],
                ) by {
                    if k < pre.len() {
                        assert(post[k] == pre[k]);
                    }
                }
            }
        }
        i = i + 1;
    }
    proof {
        assert(d.take(i - from) == d);
    }
    Some(acc)
}

/// Parses a `u32` the way `str::parse::<u32>` does.
pub fn parse_u32_exec(v: &Vec<char>) -> (r: Option<u32>)
    ensures
        r == parse_u32(v@),
{
    let from: usize = if v.len() > 0 && v[0] == '+' {
        1
    } else {
        0
    };
    proof {
        assert(v@.skip(0) == v@);
        if from == 1 {
            assert(v@.skip(1) == v@.drop_first());
        }
    }
    if from == v.len() {
        return None;
    }
    match digits_value_capped(v, from) {
        None => None,
        Some(x) => {
            if x > 0xffff_ffff {
                None
            } else {
                Some(x as u32)
            }
        },
    }
}

/// The canonical decimal notation's number: `Some(n)` exactly when `v` is the
/// decimal notation of `n` (no sign, no leading zeros).
pub fn parse_canonical_u32(v: &Vec<char>) -> (r: Option<u32>)
    ensures
        match r {
            Some(n) => v@ == decimal(n as nat),
            None => forall|n: u32| v@ != decimal(n as nat),
        },
{
    if v.len() == 0 || v.len() > 10 {
        proof {
            assert forall|n: u32| v@ != decimal(n as nat) by {
                lemma_decimal_digits(n as nat);
                lemma_decimal_len_u32(n as nat);
            }
        }
        return None;
    }
    match digits_value_capped(v, 0) {
        None => {
            proof {
                assert(v@.skip(0) == v@);
                assert forall|n: u32| v@ != decimal(n as nat) by {
                    lemma_decimal_digits(n as nat);
                }
            }
            None
        },
        Some(x) => {
            proof {
                assert(v@.skip(0) == v@);
            }
            if x > 0xffff_ffff {
                proof {
                    assert forall|n: u32| v@ != decimal(n as nat) by {
                        lemma_decimal_value(n as nat);
                    }
                }
                return None;
            }
            let n = x as u32;
            let d = decimal_chars(n as u64);
            if chars_eq(&d, v) {
                Some(n)
            } else {
                proof {
                    assert forall|m: u32| v@ != decimal(m as nat) by {
                        lemma_decimal_value(m as nat);
                    }
                }
                None
            }
        },
    }
}

/// `v` with every trailing `c` removed.
pub fn trim_end_char_exec(v: &Vec<char>, c: char) -> (r: Vec<char>)
    ensures
        r@ == trim_end_char(v@, c),
{
    let mut k: usize = v.len();
    proof {
        assert(v@.take(k as int) == v@);
    }
    while k > 0 && v[k - 1] == c
        invariant
            0 <= k <= v.len(),
            trim_end_char(v@.take(k as int), c) == trim_end_char(v@, c),
        decreases k,
    {
        proof {
            let t = v@.take(k as int);
            assert(t.drop_last() == v@.take(k - 1));
            assert(t.last() == c);
        }
        k = k - 1;
    }
    proof {
        let t = v@.take(k as int);
        if k > 0 {
            assert(t.last() == v@[k - 1]);
        }
        assert(trim_end_char(t, c) == t);
    }
    sub_chars(v, 0, k)
}

/// `v` with every leading `c` removed.
pub fn trim_start_char_exec(v: &Vec<char>, c: char) -> (r: Vec<char>)
    ensures
        r@ == trim_start_char(v@, c),
{
    let mut k: usize = 0;
    proof {
        assert(v@.skip(0) == v@);
    }
    while k < v.len() && v[k] == c
        invariant
            0 <= k <= v.len(),
            trim_start_char(v@.skip(k as int), c) == trim_start_char(v@, c),
        decreases v.len() - k,
    {
        proof {
            let t = v@.skip(k as int);
            assert(t.drop_first() == v@.skip(k + 1));
            assert(t[0] == c);
        }
        k = k + 1;
    }
    proof {
        let t = v@.skip(k as int);
        if k < v.len() {
            assert(t[0] == v@[k as int]);
        }
        assert(trim_start_char(t, c) == t);
        assert(v@.subrange(k as int, v.len() as int) == t);
    }
    sub_chars(v, k, v.len())
}

/// Whether `c` has the Unicode `White_Space` property.
pub fn is_whitespace_exec(c: char) -> (r: bool)
    ensures
        r == is_whitespace(c),
{
    let u = c as u32;
    (0x09 <= u && u <= 0x0d) || u == 0x20 || u == 0x85 || u == 0xa0 || u == 0x1680 || (0x2000
        <= u && u <= 0x200a) || u == 0x2028 || u == 0x2029 || u == 0x202f || u == 0x205f || u
        == 0x3000
}

/// `v` without leading and trailing white space.
pub fn trim_ws_exec(v: &Vec<char>) -> (r: Vec<char>)
    ensures
        r@ == trim_ws(v@),
{
    let mut lo: usize = 0;
    proof {
        assert(v@.skip(0) == v@);
    }
    while lo < v.len() && is_whitespace_exec(v[lo])
        invariant
            0 <= lo <= v.len(),
            trim_start_ws(v@.skip(lo as int)) == trim_start_ws(v@),
        decreases v.len() - lo,
    {
        proof {
            let t = v@.skip(lo as int);
            assert(t.drop_first() == v@.skip(lo + 1));
            assert(t[0] == v@[lo as int]);
        }
        lo = lo + 1;
    }
    proof {
        let t = v@.skip(lo as int);
        if lo < v.len() {
            assert(t[0] == v@[lo as int]);
        }
        assert(trim_start_ws(t) == t);
    }
    let ghost mid = v@.skip(lo as int);
    let mut hi: usize = v.len();
    proof {
        assert(v@.subrange(lo as int, hi as int) == mid);
    }
    while hi > lo && is_whitespace_exec(v[hi - 1])
        invariant
            0 <= lo <= hi <= v.len(),
            mid == v@.skip(lo as int),
            trim_end_ws(v@.subrange(lo as int, hi as int)) == trim_end_ws(mid),
        decreases hi - lo,
    {
        proof {
            let t = v@.subrange(lo as int, hi as int);
            assert(t.drop_last() == v@.subrange(lo as int, hi - 1));
            assert(t.last() == v@[hi - 1]);
        }
        hi = hi - 1;
    }
    proof {
        let t = v@.subrange(lo as int, hi as int);
        if hi > lo {
            assert(t.last() == v@[hi - 1]);
        }
        assert(trim_end_ws(t) == t);
    }
    sub_chars(v, lo, hi)
}

/// `v` with every non-overlapping occurrence of a non-empty `p` replaced by `r`,
/// scanning from the left.
pub fn replace_all_exec(v: &Vec<char>, p: &Vec<char>, r: &Vec<char>) -> (out: Vec<char>)
    requires
        p.len() > 0,
    ensures
        out@ == replace_all(v@, p@, r@),
{
    let mut out: Vec<char> = Vec::new();
    let mut i: usize = 0;
    proof {
        assert(v@.skip(0) == v@);
    }
    while i < v.len()
        invariant
            0 <= i <= v.len(),
            p.len() > 0,
            out@ + replace_all(v@.skip(i as int), p@, r@) == replace_all(v@, p@, r@),
        decreases v.len() - i,
    {
        let ghost rest = v@.skip(i as int);
        if occurs_at_exec(v, p, i) {
            proof {
                assert(rest.take(p.len() as int) == v@.subrange(i as int, i + p.len()));
                assert(starts_with(rest, p@));
                assert(rest.skip(p.len() as int) == v@.skip(i + p.len()));
                assert(replace_all(rest, p@, r@) == r@ + replace_all(
                    v@.skip(i + p.len()),
                    p@,
                    r@,
                ));
                assert(out@ + r@ + replace_all(v@.skip(i + p.len()), p@, r@) == out@ + (r@
                    + replace_all(v@.skip(i + p.len()), p@, r@)));
            }
            push_all(&mut out, r);
            i = i + p.len();
        } else {
            proof {
                if starts_with(rest, p@) {
                    assert(rest.take(p.len() as int) == v@.subrange(i as int, i + p.len()));
                }
                assert(rest.drop_first() == v@.skip(i + 1));
                assert(rest[0] == v@[i as int]);
                assert(replace_all(rest, p@, r@) == seq![v@[i as int]] + replace_all(
                    v@.skip(i + 1),
                    p@,
                    r@,
                ));
                assert(out@.push(v@[i as int]) + replace_all(v@.skip(i + 1), p@, r@) == out@ + (
                seq![v@[i as int]] + replace_all(v@.skip(i + 1), p@, r@)));
            }
            out.push(v[i]);
            i = i + 1;
        }
    }
    proof {
        assert(v@.skip(i as int).len() == 0);
        assert(out@ + seq![] == out@);
    }
    out
}

/// The pieces of `v` between the occurrences of `c`.
pub fn split_char_exec(v: &Vec<char>, c: char) -> (parts: Vec<Vec<char>>)
    ensures
        parts.len() == split_char(v@, c).len(),
        forall|k: int| 0 <= k < parts.len() ==> #[trigger] parts[k]@ == split_char(v@, c)[k],
{
    let mut parts: Vec<Vec<char>> = Vec::new();
    let ghost mut done: Seq<Seq<char>> = seq![];
    let mut start: usize = 0;
    let mut i: usize = 0;
    proof {
        assert(v@.skip(0) == v@);
    }
    while i < v.len()
        invariant
            0 <= start <= i <= v.len(),
            parts.len() == done.len(),
            forall|k: int| 0 <= k < parts.len() ==> #[trigger] parts[k]@ == done[k],
            forall|j: int| start <= j < i ==> v@[j] != c,
            done + split_char(v@.skip(start as int), c) == split_char(v@, c),
        decreases v.len() - i,
    {
        if v[i] == c {
            let piece = sub_chars(v, start, i);
            proof {
                let rest = v@.skip(start as int);
                let a = v@.subrange(start as int, i as int);
                let b = v@.skip(i + 1);
                assert(rest == a + seq![c] + b);
                assert forall|j: int| 0 <= j < a.len() implies a[j] != c by {
                    assert(a[j] == v@[start + j]);
                }
                lemma_split_char_cons(a, b, c);
                assert(done.push(a) + split_char(b, c) == done + (seq![a] + split_char(b, c)));
                done = done.push(a);
            }
            parts.push(piece);
            start = i + 1;
        }
        i = i + 1;
    }
    let last = sub_chars(v, start, v.len());
    proof {
        let rest = v@.skip(start as int);
        assert(rest == v@.subrange(start as int, v.len() as int));
        assert forall|j: int| 0 <= j < rest.len() implies rest[j] != c by {
            assert(rest[j] == v@[start + j]);
        }
        lemma_split_char_none(rest, c);
        done = done.push(rest);
    }
    parts.push(last);
    parts
}

/// The text of `v` before the first `c`.
pub fn before_char_exec(v: &Vec<char>, c: char) -> (r: Vec<char>)
    ensures
        r@ == before_char(v@, c),
{
    match find_char_exec(v, c) {
        Some(i) => {
            proof {
                lemma_find_char_some(v@, c);
            }
            let r = sub_chars(v, 0, i);
            assert(r@ == v@.take(i as int));
            r
        },
        None => {
            let r = sub_chars(v, 0, v.len());
            assert(r@ == v@);
            r
        },
    }
}

} // verus!
