//! Character and string helpers shared by the parsers and formatters.

use vstd::prelude::*;

verus! {

/// Unicode `White_Space` property, the set that `char::is_whitespace` and
/// `str::trim` use.
pub open spec fn is_ws(c: char) -> bool {
    let v = c as u32;
    ||| 0x09 <= v <= 0x0D
    ||| v == 0x20
    ||| v == 0x85
    ||| v == 0xA0
    ||| v == 0x1680
    ||| 0x2000 <= v <= 0x200A
    ||| v == 0x2028
    ||| v == 0x2029
    ||| v == 0x202F
    ||| v == 0x205F
    ||| v == 0x3000
}

/// A sequence made of whitespace only (the empty sequence included).
pub open spec fn all_ws(s: Seq<char>) -> bool {
    forall|i: int| 0 <= i < s.len() ==> is_ws(#[trigger] s[i])
}

/// Whether a string is empty once trimmed.
pub open spec fn is_blank_seq(s: Seq<char>) -> bool {
    all_ws(s)
}

/// Drops leading whitespace.
pub open spec fn trim_start(s: Seq<char>) -> Seq<char>
    decreases s.len(),
{
    if s.len() > 0 && is_ws(s[0]) {
        trim_start(s.drop_first())
    } else {
        s
    }
}

/// Drops trailing whitespace.
pub open spec fn trim_end(s: Seq<char>) -> Seq<char>
    decreases s.len(),
{
    if s.len() > 0 && is_ws(s.last()) {
        trim_end(s.drop_last())
    } else {
        s
    }
}

/// What `str::trim` returns.
pub open spec fn trim(s: Seq<char>) -> Seq<char> {
    trim_end(trim_start(s))
}

/// Whether `c` is one of the characters of `s`.
pub open spec fn has_ws(s: Seq<char>) -> bool {
    exists|i: int| 0 <= i < s.len() && is_ws(#[trigger] s[i])
}

/// Decimal digit character.
pub open spec fn digit_char(d: int) -> char {
    if d == 0 { '0' }
    else if d == 1 { '1' }
    else if d == 2 { '2' }
    else if d == 3 { '3' }
    else if d == 4 { '4' }
    else if d == 5 { '5' }
    else if d == 6 { '6' }
    else if d == 7 { '7' }
    else if d == 8 { '8' }
    else { '9' }
}

/// Decimal representation of a natural number, as `to_string` writes it.
pub open spec fn dec_nat(n: nat) -> Seq<char>
    decreases n,
{
    if n < 10 {
        seq![digit_char(n as int)]
    } else {
        dec_nat(n / 10).push(digit_char((n % 10) as int))
    }
}

/// Reading back the decimal digits of a number gives the number.
pub proof fn lemma_dec_nat_value(n: nat)
    ensures
        digits_value(dec_nat(n)) == n,
        dec_nat(n).len() > 0,
    decreases n,
{
    if n < 10 {
        let s = dec_nat(n);
        assert(s.drop_last() =~= Seq::<char>::empty());
        assert(s.last() == digit_char(n as int));
        assert(digit_val(digit_char(n as int)) == n);
        assert(digits_value(s) == digits_value(s.drop_last()) * 10 + digit_val(s.last()));
    } else {
        lemma_dec_nat_value(n / 10);
        let s = dec_nat(n);
        assert(s.drop_last() =~= dec_nat(n / 10));
        assert(s.last() == digit_char((n % 10) as int));
        assert(digit_val(digit_char((n % 10) as int)) == n % 10);
        assert(digits_value(s) == digits_value(s.drop_last()) * 10 + digit_val(s.last()));
        assert((n / 10) * 10 + n % 10 == n) by (nonlinear_arith);
    }
}

/// The decimal text of a number is one or more decimal digits.
pub proof fn lemma_dec_nat_digits(n: nat)
    ensures
        dec_nat(n).len() > 0,
        all_digits(dec_nat(n)),
    decreases n,
{
    if n >= 10 {
        lemma_dec_nat_digits(n / 10);
        let s = dec_nat(n);
        assert forall|i: int| 0 <= i < s.len() implies is_digit(#[trigger] s[i]) by {
            if i < s.len() - 1 {
                assert(s[i] == dec_nat(n / 10)[i]);
            }
        }
    }
}

/// Different numbers are written differently.
pub proof fn lemma_dec_nat_injective(a: nat, b: nat)
    requires
        dec_nat(a) == dec_nat(b),
    ensures
        a == b,
{
    lemma_dec_nat_value(a);
    lemma_dec_nat_value(b);
}

/// A fixed prefix followed by a number's digits names that number alone.
pub proof fn lemma_numbered_injective(prefix: Seq<char>, a: nat, b: nat)
    requires
        prefix + dec_nat(a) == prefix + dec_nat(b),
    ensures
        a == b,
{
    assert(dec_nat(a) =~= (prefix + dec_nat(a)).subrange(prefix.len() as int, (prefix + dec_nat(a)).len() as int));
    assert(dec_nat(b) =~= (prefix + dec_nat(b)).subrange(prefix.len() as int, (prefix + dec_nat(b)).len() as int));
    lemma_dec_nat_injective(a, b);
}

/// Decimal representation of an integer, with a leading `-` when negative.
pub open spec fn dec_int(n: int) -> Seq<char> {
    if n < 0 {
        seq!['-'] + dec_nat((-n) as nat)
    } else {
        dec_nat(n as nat)
    }
}

/// The decimal digit character for `d`.
pub fn digit_to_char(d: u64) -> (c: char)
    requires
        d < 10,
    ensures
        c == digit_char(d as int),
{
    if d == 0 { '0' }
    else if d == 1 { '1' }
    else if d == 2 { '2' }
    else if d == 3 { '3' }
    else if d == 4 { '4' }
    else if d == 5 { '5' }
    else if d == 6 { '6' }
    else if d == 7 { '7' }
    else if d == 8 { '8' }
    else { '9' }
}

/// Decimal text of `n`.
pub fn dec_u64(n: u64) -> (r: String)
    ensures
        r@ == dec_nat(n as nat),
    decreases n,
{
    if n < 10 {
        let mut s = String::new();
        push_char(&mut s, digit_to_char(n));
        proof { assert(s@ =~= seq![digit_char(n as int)]); }
        s
    } else {
        let mut s = dec_u64(n / 10);
        push_char(&mut s, digit_to_char(n % 10));
        s
    }
}

/// Decimal text of `n`, with a leading `-` when negative.
pub fn dec_i64(n: i64) -> (r: String)
    ensures
        r@ == dec_int(n as int),
{
    if n < 0 {
        let m: u64 = (0i128 - (n as i128)) as u64;
        let digits = dec_u64(m);
        let mut s = String::new();
        push_char(&mut s, '-');
        s.append(digits.as_str());
        proof { assert(s@ =~= seq!['-'] + dec_nat((-n) as nat)); }
        s
    } else {
        dec_u64(n as u64)
    }
}

/// Whether `c` has the White_Space property.
pub fn is_whitespace_char(c: char) -> (r: bool)
    ensures
        r == is_ws(c),
{
    let v = c as u32;
    (0x09 <= v && v <= 0x0D) || v == 0x20 || v == 0x85 || v == 0xA0 || v == 0x1680 || (0x2000
        <= v && v <= 0x200A) || v == 0x2028 || v == 0x2029 || v == 0x202F || v == 0x205F || v
        == 0x3000
}

/// Appends one character to a string.
#[verifier::external_body]
pub(crate) fn push_char(s: &mut String, c: char)
    ensures
        final(s)@ == old(s)@.push(c),
{
    s.push(c);
}

/// The characters of a string, in order.
pub fn chars_of(s: &str) -> (v: Vec<char>)
    ensures
        v@ == s@,
{
    let n = s.unicode_len();
    let mut v: Vec<char> = Vec::new();
    let mut i: usize = 0;
    while i < n
        invariant
            n == s@.len(),
            i <= n,
            v@ == s@.subrange(0, i as int),
        decreases n - i,
    {
        let c = s.get_char(i);
        v.push(c);
        i = i + 1;
    }
    v
}

/// A string holding the given characters.
pub fn string_from_chars(v: &[char]) -> (s: String)
    ensures
        s@ == v@,
{
    let mut s = String::new();
    let mut i: usize = 0;
    while i < v.len()
        invariant
            i <= v.len(),
            s@ == v@.subrange(0, i as int),
        decreases v.len() - i,
    {
        push_char(&mut s, v[i]);
        i = i + 1;
    }
    s
}

/// Whether every character of `s` is whitespace, i.e. `s.trim().is_empty()`.
pub fn is_blank(s: &str) -> (r: bool)
    ensures
        r == is_blank_seq(s@),
{
    let n = s.unicode_len();
    let mut i: usize = 0;
    while i < n
        invariant
            n == s@.len(),
            i <= n,
            forall|j: int| 0 <= j < i ==> is_ws(#[trigger] s@[j]),
        decreases n - i,
    {
        if !is_whitespace_char(s.get_char(i)) {
            return false;
        }
        i = i + 1;
    }
    true
}

/// Character-wise equality of two string slices.
pub fn str_eq(a: &str, b: &str) -> (r: bool)
    ensures
        r == (a@ == b@),
{
    let x = String::from_str(a);
    let y = String::from_str(b);
    x == y
}


/// Index of the first occurrence of `c` in `s`, or `s.len()` when absent.
pub open spec fn first_index(s: Seq<char>, c: char) -> int
    decreases s.len(),
{
    if s.len() == 0 {
        0
    } else if s[0] == c {
        0
    } else {
        1 + first_index(s.drop_first(), c)
    }
}

/// Index of the first whitespace character of `s`, or `s.len()` when absent.
pub open spec fn first_ws(s: Seq<char>) -> int
    decreases s.len(),
{
    if s.len() == 0 {
        0
    } else if is_ws(s[0]) {
        0
    } else {
        1 + first_ws(s.drop_first())
    }
}

/// Characterises `first_index` by the position it returns.
pub proof fn lemma_first_index(s: Seq<char>, c: char, i: int)
    requires
        0 <= i <= s.len(),
        forall|j: int| 0 <= j < i ==> s[j] != c,
        i == s.len() || s[i] == c,
    ensures
        first_index(s, c) == i,
    decreases i,
{
    if i > 0 {
        let t = s.drop_first();
        assert forall|j: int| 0 <= j < i - 1 implies t[j] != c by {
            assert(t[j] == s[j + 1]);
        }
        if i < s.len() {
            assert(t[i - 1] == s[i]);
        }
        lemma_first_index(t, c, i - 1);
    }
}

/// Characterises `first_ws` by the position it returns.
pub proof fn lemma_first_ws(s: Seq<char>, i: int)
    requires
        0 <= i <= s.len(),
        forall|j: int| 0 <= j < i ==> !is_ws(s[j]),
        i == s.len() || is_ws(s[i]),
    ensures
        first_ws(s) == i,
    decreases i,
{
    if i > 0 {
        let t = s.drop_first();
        assert forall|j: int| 0 <= j < i - 1 implies !is_ws(t[j]) by {
            assert(t[j] == s[j + 1]);
        }
        if i < s.len() {
            assert(t[i - 1] == s[i]);
        }
        lemma_first_ws(t, i - 1);
    }
}

/// Trimming the start drops exactly the leading whitespace run.
pub proof fn lemma_trim_start(s: Seq<char>, k: int)
    requires
        0 <= k <= s.len(),
        forall|j: int| 0 <= j < k ==> is_ws(s[j]),
        k == s.len() || !is_ws(s[k]),
    ensures
        trim_start(s) == s.subrange(k, s.len() as int),
    decreases k,
{
    if k == 0 {
        assert(s.subrange(0, s.len() as int) =~= s);
    } else {
        let t = s.drop_first();
        assert forall|j: int| 0 <= j < k - 1 implies is_ws(t[j]) by {
            assert(t[j] == s[j + 1]);
        }
        if k < s.len() {
            assert(t[k - 1] == s[k]);
        }
        lemma_trim_start(t, k - 1);
        assert(t.subrange(k - 1, t.len() as int) =~= s.subrange(k, s.len() as int));
    }
}

/// Trimming the end drops exactly the trailing whitespace run.
pub proof fn lemma_trim_end(s: Seq<char>, e: int)
    requires
        0 <= e <= s.len(),
        forall|j: int| e <= j < s.len() ==> is_ws(s[j]),
        e == 0 || !is_ws(s[e - 1]),
    ensures
        trim_end(s) == s.subrange(0, e),
    decreases s.len() - e,
{
    if e == s.len() {
        assert(s.subrange(0, e) =~= s);
    } else {
        let t = s.drop_last();
        assert forall|j: int| e <= j < t.len() implies is_ws(t[j]) by {
            assert(t[j] == s[j]);
        }
        if e > 0 {
            assert(t[e - 1] == s[e - 1]);
        }
        lemma_trim_end(t, e);
        assert(t.subrange(0, e) =~= s.subrange(0, e));
    }
}

/// The characters `v[a..b]`.
pub fn slice_chars(v: &[char], a: usize, b: usize) -> (r: Vec<char>)
    requires
        a <= b <= v.len(),
    ensures
        r@ == v@.subrange(a as int, b as int),
{
    let mut r: Vec<char> = Vec::new();
    let mut i = a;
    while i < b
        invariant
            a <= i <= b,
            b <= v.len(),
            r@ == v@.subrange(a as int, i as int),
        decreases b - i,
    {
        r.push(v[i]);
        i = i + 1;
    }
    r
}

/// First index of `c` in `v` (or its length).
pub fn find_char(v: &[char], c: char) -> (r: usize)
    ensures
        r == first_index(v@, c),
        r <= v.len(),
{
    let mut i: usize = 0;
    while i < v.len()
        invariant
            i <= v.len(),
            forall|j: int| 0 <= j < i ==> v@[j] != c,
        decreases v.len() - i,
    {
        if v[i] == c {
            proof { lemma_first_index(v@, c, i as int); }
            return i;
        }
        i = i + 1;
    }
    proof { lemma_first_index(v@, c, i as int); }
    i
}

/// First index of a whitespace character in `v` (or its length).
pub fn find_ws(v: &[char]) -> (r: usize)
    ensures
        r == first_ws(v@),
        r <= v.len(),
{
    let mut i: usize = 0;
    while i < v.len()
        invariant
            i <= v.len(),
            forall|j: int| 0 <= j < i ==> !is_ws(v@[j]),
        decreases v.len() - i,
    {
        if is_whitespace_char(v[i]) {
            proof { lemma_first_ws(v@, i as int); }
            return i;
        }
        i = i + 1;
    }
    proof { lemma_first_ws(v@, i as int); }
    i
}

/// `v` without its leading and trailing whitespace.
pub fn trim_chars(v: &[char]) -> (r: Vec<char>)
    ensures
        r@ == trim(v@),
{
    let mut k: usize = 0;
    while k < v.len() && is_whitespace_char(v[k])
        invariant
            k <= v.len(),
            forall|j: int| 0 <= j < k ==> is_ws(v@[j]),
        decreases v.len() - k,
    {
        k = k + 1;
    }
    proof { lemma_trim_start(v@, k as int); }
    let ghost t = v@.subrange(k as int, v.len() as int);
    let mut e: usize = v.len();
    while e > k && is_whitespace_char(v[e - 1])
        invariant
            k <= e <= v.len(),
            t == v@.subrange(k as int, v.len() as int),
            forall|j: int| e <= j < v.len() ==> is_ws(v@[j]),
        decreases e,
    {
        e = e - 1;
    }
    proof {
        assert forall|j: int| e - k <= j < t.len() implies is_ws(t[j]) by {
            assert(t[j] == v@[j + k]);
        }
        if e > k {
            assert(t[e - k - 1] == v@[e - 1]);
        }
        lemma_trim_end(t, (e - k) as int);
        assert(t.subrange(0, (e - k) as int) =~= v@.subrange(k as int, e as int));
    }
    slice_chars(v, k, e)
}

/// ASCII upper-casing of one character.
pub open spec fn upper_char(c: char) -> char {
    if 'a' <= c && c <= 'z' { ((c as u32) - 32) as char } else { c }
}

/// What `str::to_ascii_uppercase` returns.
pub open spec fn upper_ascii(s: Seq<char>) -> Seq<char> {
    s.map_values(|c: char| upper_char(c))
}

/// ASCII upper-casing of one character.
pub fn to_upper_char(c: char) -> (r: char)
    ensures
        r == upper_char(c),
{
    if 'a' <= c && c <= 'z' {
        let v = (c as u32) - 32;
        proof { assert(upper_char(c) == v as char); }
        char_from_ascii(v)
    } else {
        c
    }
}

/// The character with a code point below 128.
fn char_from_ascii(v: u32) -> (r: char)
    requires
        v < 128,
    ensures
        r == v as char,
{
    let b: u8 = v as u8;
    b as char
}

/// ASCII upper-casing of a character sequence.
pub fn upper_chars(v: &[char]) -> (r: Vec<char>)
    ensures
        r@ == upper_ascii(v@),
{
    let mut r: Vec<char> = Vec::new();
    let mut i: usize = 0;
    while i < v.len()
        invariant
            i <= v.len(),
            r@ == upper_ascii(v@.subrange(0, i as int)),
        decreases v.len() - i,
    {
        r.push(to_upper_char(v[i]));
        proof { assert(upper_ascii(v@.subrange(0, i + 1)) =~= upper_ascii(v@.subrange(0, i as int)).push(upper_char(v@[i as int]))); }
        i = i + 1;
    }
    proof { assert(v@.subrange(0, v.len() as int) =~= v@); }
    r
}

/// Whether two character sequences are equal.
pub fn chars_eq(a: &[char], b: &[char]) -> (r: bool)
    ensures
        r == (a@ == b@),
{
    if a.len() != b.len() {
        return false;
    }
    let mut i: usize = 0;
    while i < a.len()
        invariant
            i <= a.len(),
            a.len() == b.len(),
            forall|j: int| 0 <= j < i ==> a@[j] == b@[j],
        decreases a.len() - i,
    {
        if a[i] != b[i] {
            return false;
        }
        i = i + 1;
    }
    assert(a@ =~= b@);
    true
}

/// Whether a character sequence equals the characters of a string.
pub fn chars_eq_str(a: &[char], b: &str) -> (r: bool)
    ensures
        r == (a@ == b@),
{
    let bv = chars_of(b);
    chars_eq(a, bv.as_slice())
}


/// ASCII decimal digit.
pub open spec fn is_digit(c: char) -> bool {
    '0' <= c && c <= '9'
}

/// Every character is a decimal digit.
pub open spec fn all_digits(s: Seq<char>) -> bool {
    forall|i: int| 0 <= i < s.len() ==> is_digit(#[trigger] s[i])
}

/// Value of a decimal digit character.
pub open spec fn digit_val(c: char) -> int {
    (c as u32) - 48
}

/// Value of a string of decimal digits.
pub open spec fn digits_value(s: Seq<char>) -> int
    decreases s.len(),
{
    if s.len() == 0 {
        0
    } else {
        digits_value(s.drop_last()) * 10 + digit_val(s.last())
    }
}

/// The digits after an optional leading `+`.
pub open spec fn unsigned_body(s: Seq<char>) -> Seq<char> {
    if s.len() > 0 && s[0] == '+' { s.drop_first() } else { s }
}

/// What `str::parse` gives for an unsigned integer type whose maximum is
/// `max`: an optional `+`, then at least one digit, value at most `max`.
pub open spec fn parse_unsigned(s: Seq<char>, max: int) -> Option<int> {
    let b = unsigned_body(s);
    if b.len() > 0 && all_digits(b) && digits_value(b) <= max {
        Some(digits_value(b))
    } else {
        None
    }
}

/// What `str::parse::<i64>` gives: an optional sign, then at least one
/// digit, value within `i64`.
pub open spec fn parse_i64_spec(s: Seq<char>) -> Option<int> {
    if s.len() > 0 && s[0] == '-' {
        let b = s.drop_first();
        if b.len() > 0 && all_digits(b) && digits_value(b) <= 0x8000_0000_0000_0000 {
            Some(-digits_value(b))
        } else {
            None
        }
    } else {
        parse_unsigned(s, i64::MAX as int)
    }
}

/// Digit values are non-negative and grow with the prefix.
pub proof fn lemma_digits_prefix(s: Seq<char>, k: int)
    requires
        all_digits(s),
        0 <= k <= s.len(),
    ensures
        0 <= digits_value(s.subrange(0, k)) <= digits_value(s),
    decreases s.len(),
{
    if k == s.len() {
        assert(s.subrange(0, k) =~= s);
        lemma_digits_nonneg(s);
    } else {
        let t = s.drop_last();
        assert forall|i: int| 0 <= i < t.len() implies is_digit(#[trigger] t[i]) by {
            assert(t[i] == s[i]);
        }
        lemma_digits_prefix(t, k);
        assert(t.subrange(0, k) =~= s.subrange(0, k));
        lemma_digits_nonneg(t);
        assert(is_digit(s[s.len() - 1]));
    }
}

/// Digit values are non-negative.
pub proof fn lemma_digits_nonneg(s: Seq<char>)
    requires
        all_digits(s),
    ensures
        digits_value(s) >= 0,
    decreases s.len(),
{
    if s.len() > 0 {
        let t = s.drop_last();
        assert forall|i: int| 0 <= i < t.len() implies is_digit(#[trigger] t[i]) by {
            assert(t[i] == s[i]);
        }
        lemma_digits_nonneg(t);
        assert(is_digit(s[s.len() - 1]));
    }
}

/// Value of `v[start..]` when it is a non-empty run of digits not above `bound`.
pub fn parse_digits(v: &[char], start: usize, bound: u64) -> (r: Option<u64>)
    requires
        start <= v.len(),
    ensures
        ({
            let b = v@.subrange(start as int, v.len() as int);
            match r {
                Some(x) => b.len() > 0 && all_digits(b) && digits_value(b) <= bound && x == digits_value(b),
                None => !(b.len() > 0 && all_digits(b) && digits_value(b) <= bound),
            }
        }),
{
    let ghost b = v@.subrange(start as int, v.len() as int);
    if start == v.len() {
        return None;
    }
    let mut i = start;
    let mut acc: u64 = 0;
    while i < v.len()
        invariant
            start <= i <= v.len(),
            b == v@.subrange(start as int, v.len() as int),
            all_digits(v@.subrange(start as int, i as int)),
            acc == digits_value(v@.subrange(start as int, i as int)),
            acc <= bound,
        decreases v.len() - i,
    {
        let c = v[i];
        if !('0' <= c && c <= '9') {
            proof { assert(b[i - start] == c); }
            return None;
        }
        let d = (c as u32 - 48) as u64;
        proof {
            let p = v@.subrange(start as int, i + 1);
            assert(p.drop_last() =~= v@.subrange(start as int, i as int));
            assert(p.last() == c);
        }
        if d > bound || acc > (bound - d) / 10 {
            proof {
                let p = v@.subrange(start as int, i + 1);
                assert(all_digits(p)) by {
                    assert forall|j: int| 0 <= j < p.len() implies is_digit(#[trigger] p[j]) by {
                        if j < p.len() - 1 { assert(p[j] == v@.subrange(start as int, i as int)[j]); }
                    }
                }
                assert(digits_value(p) > bound) by (nonlinear_arith)
                    requires
                        digits_value(p) == acc * 10 + d,
                        d > bound || acc > (bound - d) / 10,
                        d <= 9,
                        acc >= 0;
                if all_digits(b) {
                    assert(b.subrange(0, i + 1 - start) =~= p);
                    lemma_digits_prefix(b, i + 1 - start);
                }
            }
            return None;
        }
        proof {
            assert(acc * 10 + d <= bound) by (nonlinear_arith)
                requires
                    acc <= (bound - d) / 10,
                    d <= 9,
                    d <= bound || acc == 0;
        }
        acc = acc * 10 + d;
        i = i + 1;
        proof {
            let p = v@.subrange(start as int, i as int);
            assert forall|j: int| 0 <= j < p.len() implies is_digit(#[trigger] p[j]) by {
                if j < p.len() - 1 { assert(p[j] == v@.subrange(start as int, (i - 1) as int)[j]); }
            }
        }
    }
    proof { assert(v@.subrange(start as int, v.len() as int) =~= b); }
    Some(acc)
}

/// Parses an unsigned integer not above `max` (`str::parse` for `u64`,
/// `usize` and the like).
pub fn parse_unsigned_chars(v: &[char], max: u64) -> (r: Option<u64>)
    ensures
        match r {
            Some(m) => parse_unsigned(v@, max as int) == Some(m as int),
            None => parse_unsigned(v@, max as int) is None,
        },
{
    let start: usize = if v.len() > 0 && v[0] == '+' { 1 } else { 0 };
    proof {
        assert(unsigned_body(v@) =~= v@.subrange(start as int, v.len() as int));
    }
    parse_digits(v, start, max)
}

/// Parses a signed 64-bit integer (`str::parse::<i64>`).
pub fn parse_i64_chars(v: &[char]) -> (r: Option<i64>)
    ensures
        match r {
            Some(m) => parse_i64_spec(v@) == Some(m as int),
            None => parse_i64_spec(v@) is None,
        },
{
    if v.len() > 0 && v[0] == '-' {
        proof { assert(v@.drop_first() =~= v@.subrange(1, v.len() as int)); }
        match parse_digits(v, 1, 0x8000_0000_0000_0000u64) {
            Some(m) => {
                if m == 0x8000_0000_0000_0000u64 {
                    Some(i64::MIN)
                } else {
                    let r = 0 - (m as i64);
                    assert(r == (-(m as int)) as i64);
                    Some(r)
                }
            },
            None => None,
        }
    } else {
        match parse_unsigned_chars(v, 0x7fff_ffff_ffff_ffffu64) {
            Some(m) => {
                assert(m <= i64::MAX);
                Some(m as i64)
            },
            None => None,
        }
    }
}


/// The pieces of `s` between occurrences of `sep` (what `str::split` yields).
pub open spec fn pieces(s: Seq<char>, sep: char) -> Seq<Seq<char>>
    decreases s.len(),
{
    let i = first_index(s, sep);
    if i >= s.len() || i < 0 {
        seq![s]
    } else {
        seq![s.subrange(0, i)] + pieces(s.subrange(i + 1, s.len() as int), sep)
    }
}

/// Splits `v` at each `sep`.
pub fn split_chars(v: &[char], sep: char) -> (r: Vec<Vec<char>>)
    ensures
        r@.map_values(|p: Vec<char>| p@) == pieces(v@, sep),
{
    let mut out: Vec<Vec<char>> = Vec::new();
    let mut start: usize = 0;
    let n = v.len();
    proof { assert(v@.subrange(0, n as int) =~= v@); }
    loop
        invariant
            start <= n,
            n == v@.len(),
            pieces(v@, sep) == out@.map_values(|p: Vec<char>| p@) + pieces(v@.subrange(start as int, n as int), sep),
        decreases n - start,
    {
        let rest = slice_chars(v, start, n);
        let i = find_char(rest.as_slice(), sep);
        let ghost before = out@.map_values(|p: Vec<char>| p@);
        proof { lemma_first_index_bounds(rest@, sep); }
        if i >= rest.len() {
            out.push(rest);
            proof {
                assert(out@.map_values(|p: Vec<char>| p@) =~= before.push(v@.subrange(start as int, n as int)));
                assert(before + seq![v@.subrange(start as int, n as int)] =~= before.push(v@.subrange(start as int, n as int)));
            }
            return out;
        }
        let piece = slice_chars(rest.as_slice(), 0, i);
        out.push(piece);
        proof {
            let r = v@.subrange(start as int, n as int);
            assert(rest@ == r);
            assert(r.subrange(i + 1, r.len() as int) =~= v@.subrange(start + i + 1, n as int));
            assert(out@.map_values(|p: Vec<char>| p@) =~= before.push(r.subrange(0, i as int)));
            assert(pieces(r, sep) == seq![r.subrange(0, i as int)] + pieces(r.subrange(i + 1, r.len() as int), sep));
            assert(before + (seq![r.subrange(0, i as int)] + pieces(v@.subrange(start + i + 1, n as int), sep))
                =~= before.push(r.subrange(0, i as int)) + pieces(v@.subrange(start + i + 1, n as int), sep));
        }
        start = start + i + 1;
    }
}

/// `first_index` lies within the sequence bounds.
pub proof fn lemma_first_index_bounds(s: Seq<char>, c: char)
    ensures
        0 <= first_index(s, c) <= s.len(),
        first_index(s, c) < s.len() ==> s[first_index(s, c)] == c,
        forall|j: int| 0 <= j < first_index(s, c) ==> s[j] != c,
    decreases s.len(),
{
    if s.len() > 0 && s[0] != c {
        lemma_first_index_bounds(s.drop_first(), c);
        let t = s.drop_first();
        assert forall|j: int| 0 <= j < first_index(s, c) implies s[j] != c by {
            if j > 0 { assert(s[j] == t[j - 1]); }
        }
    }
}

/// `first_ws` lies within the sequence bounds.
pub proof fn lemma_first_ws_bounds(s: Seq<char>)
    ensures
        0 <= first_ws(s) <= s.len(),
        first_ws(s) < s.len() ==> is_ws(s[first_ws(s)]),
        forall|j: int| 0 <= j < first_ws(s) ==> !is_ws(s[j]),
    decreases s.len(),
{
    if s.len() > 0 && !is_ws(s[0]) {
        lemma_first_ws_bounds(s.drop_first());
        let t = s.drop_first();
        assert forall|j: int| 0 <= j < first_ws(s) implies !is_ws(s[j]) by {
            if j > 0 { assert(s[j] == t[j - 1]); }
        }
    }
}

} // verus!
