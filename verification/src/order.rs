//! Lexicographic order on sequences of numbers, as `Ord` orders byte strings
//! and strings (a string's chars compare by code point, the order of its
//! UTF-8 bytes).

use vstd::prelude::*;

verus! {

/// `a` comes strictly before `b`: at the first difference `a` is smaller, or
/// `a` is a proper prefix of `b`.
pub open spec fn lex_lt(a: Seq<int>, b: Seq<int>) -> bool
    decreases a.len(),
{
    if b.len() == 0 {
        false
    } else if a.len() == 0 {
        true
    } else if a[0] != b[0] {
        a[0] < b[0]
    } else {
        lex_lt(a.drop_first(), b.drop_first())
    }
}

/// Bytes as numbers.
pub open spec fn bytes_key(s: Seq<u8>) -> Seq<int> {
    s.map_values(|x: u8| x as int)
}

/// Characters as their code points.
pub open spec fn chars_key(s: Seq<char>) -> Seq<int> {
    s.map_values(|c: char| c as int)
}

/// No sequence comes before itself.
pub proof fn lemma_lex_irreflexive(a: Seq<int>)
    ensures
        !lex_lt(a, a),
    decreases a.len(),
{
    if a.len() > 0 {
        lemma_lex_irreflexive(a.drop_first());
    }
}

/// The order is transitive.
pub proof fn lemma_lex_transitive(a: Seq<int>, b: Seq<int>, c: Seq<int>)
    requires
        lex_lt(a, b),
        lex_lt(b, c),
    ensures
        lex_lt(a, c),
    decreases a.len(),
{
    if a.len() > 0 && b.len() > 0 && c.len() > 0 && a[0] == b[0] && b[0] == c[0] {
        lemma_lex_transitive(a.drop_first(), b.drop_first(), c.drop_first());
    }
}

/// Of two different sequences, one comes first.
pub proof fn lemma_lex_total(a: Seq<int>, b: Seq<int>)
    requires
        a != b,
    ensures
        lex_lt(a, b) || lex_lt(b, a),
    decreases a.len(),
{
    if a.len() > 0 && b.len() > 0 && a[0] == b[0] {
        if a.drop_first() == b.drop_first() {
            assert(a =~= seq![a[0]] + a.drop_first());
            assert(b =~= seq![b[0]] + b.drop_first());
        }
        lemma_lex_total(a.drop_first(), b.drop_first());
    } else if a.len() == 0 && b.len() == 0 {
        assert(a =~= b);
    }
}

/// Different character sequences have different keys.
pub proof fn lemma_chars_key_injective(a: Seq<char>, b: Seq<char>)
    requires
        chars_key(a) == chars_key(b),
    ensures
        a == b,
{
    assert(a.len() == chars_key(a).len());
    assert(b.len() == chars_key(b).len());
    assert forall|i: int| 0 <= i < a.len() implies a[i] == b[i] by {
        assert(a.len() == b.len()) by {
            assert(chars_key(a).len() == chars_key(b).len());
        }
        assert(chars_key(a)[i] == a[i] as int);
        assert(chars_key(b)[i] == b[i] as int);
        assert(chars_key(a)[i] == chars_key(b)[i]);
    }
    assert(a =~= b);
}

/// Whether `a` comes strictly before `b`.
pub fn lex_less_bytes(a: &[u8], b: &[u8]) -> (r: bool)
    ensures
        r == lex_lt(bytes_key(a@), bytes_key(b@)),
{
    let mut i: usize = 0;
    proof {
        assert(bytes_key(a@).skip(0) =~= bytes_key(a@));
        assert(bytes_key(b@).skip(0) =~= bytes_key(b@));
    }
    while i < a.len() && i < b.len()
        invariant
            i <= a.len(),
            i <= b.len(),
            lex_lt(bytes_key(a@), bytes_key(b@)) == lex_lt(bytes_key(a@).skip(i as int), bytes_key(b@).skip(i as int)),
        decreases a.len() - i,
    {
        if a[i] != b[i] {
            return a[i] < b[i];
        }
        proof {
            assert(bytes_key(a@).skip(i as int).drop_first() =~= bytes_key(a@).skip(i + 1));
            assert(bytes_key(b@).skip(i as int).drop_first() =~= bytes_key(b@).skip(i + 1));
        }
        i = i + 1;
    }
    i < b.len()
}

/// Whether `a` comes strictly before `b`.
pub fn lex_less_chars(a: &[char], b: &[char]) -> (r: bool)
    ensures
        r == lex_lt(chars_key(a@), chars_key(b@)),
{
    let mut i: usize = 0;
    proof {
        assert(chars_key(a@).skip(0) =~= chars_key(a@));
        assert(chars_key(b@).skip(0) =~= chars_key(b@));
    }
    while i < a.len() && i < b.len()
        invariant
            i <= a.len(),
            i <= b.len(),
            lex_lt(chars_key(a@), chars_key(b@)) == lex_lt(chars_key(a@).skip(i as int), chars_key(b@).skip(i as int)),
        decreases a.len() - i,
    {
        let x = a[i];
        let y = b[i];
        if x != y {
            return x < y;
        }
        proof {
            assert(chars_key(a@).skip(i as int).drop_first() =~= chars_key(a@).skip(i + 1));
            assert(chars_key(b@).skip(i as int).drop_first() =~= chars_key(b@).skip(i + 1));
        }
        i = i + 1;
    }
    i < b.len()
}

} // verus!
