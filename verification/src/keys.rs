//! Sort keys: every key of an ordered collection is modelled as a sequence of
//! `u32` codes compared lexicographically. Text is modelled by its code points,
//! which orders strings exactly as `String`'s `Ord` does (UTF-8 byte order and
//! code point order agree).
use vstd::prelude::*;

verus! {

/// Strict lexicographic order on key codes; a proper prefix comes first.
pub open spec fn key_lt(a: Seq<u32>, b: Seq<u32>) -> bool
    decreases a.len(),
{
    if a.len() == 0 {
        b.len() > 0
    } else if b.len() == 0 {
        false
    } else if a[0] == b[0] {
        key_lt(a.drop_first(), b.drop_first())
    } else {
        a[0] < b[0]
    }
}

/// The model of a text: its characters as code points.
pub open spec fn text_model(s: Seq<char>) -> Seq<u32> {
    s.map_values(|c: char| c as u32)
}

pub proof fn lemma_key_lt_irreflexive(a: Seq<u32>)
    ensures
        !key_lt(a, a),
    decreases a.len(),
{
    if a.len() > 0 {
        lemma_key_lt_irreflexive(a.drop_first());
    }
}

pub proof fn lemma_key_lt_asymmetric(a: Seq<u32>, b: Seq<u32>)
    requires
        key_lt(a, b),
    ensures
        !key_lt(b, a),
    decreases a.len(),
{
    if a.len() > 0 && b.len() > 0 && a[0] == b[0] {
        lemma_key_lt_asymmetric(a.drop_first(), b.drop_first());
    }
}

pub proof fn lemma_key_lt_transitive(a: Seq<u32>, b: Seq<u32>, c: Seq<u32>)
    requires
        key_lt(a, b),
        key_lt(b, c),
    ensures
        key_lt(a, c),
    decreases a.len(),
{
    if a.len() > 0 && b.len() > 0 && c.len() > 0 {
        if a[0] == b[0] && b[0] == c[0] {
            lemma_key_lt_transitive(a.drop_first(), b.drop_first(), c.drop_first());
        }
    }
}

pub proof fn lemma_key_lt_total(a: Seq<u32>, b: Seq<u32>)
    requires
        a != b,
    ensures
        key_lt(a, b) || key_lt(b, a),
    decreases a.len(),
{
    if a.len() == 0 && b.len() == 0 {
        assert(a =~= b);
    } else if a.len() > 0 && b.len() > 0 && a[0] == b[0] {
        let a1 = a.drop_first();
        let b1 = b.drop_first();
        if a1 == b1 {
            assert(a1.len() == b1.len());
            assert(a.len() == b.len());
            assert(a =~= b) by {
                assert forall|i: int| 0 <= i < a.len() implies a[i] == b[i] by {
                    if i > 0 {
                        assert(a[i] == a.drop_first()[i - 1]);
                        assert(b[i] == b.drop_first()[i - 1]);
                    }
                }
            }
        }
        lemma_key_lt_total(a.drop_first(), b.drop_first());
    }
}

/// Comparing after a common prefix gives the same answer.
pub proof fn lemma_key_lt_skip(a: Seq<u32>, b: Seq<u32>, i: int)
    requires
        0 <= i <= a.len(),
        i <= b.len(),
        a.take(i) == b.take(i),
    ensures
        key_lt(a, b) == key_lt(a.skip(i), b.skip(i)),
    decreases i,
{
    if i > 0 {
        assert(a[0] == a.take(i)[0]);
        assert(b[0] == b.take(i)[0]);
        assert(a.drop_first().take(i - 1) =~= a.take(i).drop_first());
        assert(b.drop_first().take(i - 1) =~= b.take(i).drop_first());
        lemma_key_lt_skip(a.drop_first(), b.drop_first(), i - 1);
        assert(a.drop_first().skip(i - 1) =~= a.skip(i));
        assert(b.drop_first().skip(i - 1) =~= b.skip(i));
    } else {
        assert(a.skip(0) =~= a);
        assert(b.skip(0) =~= b);
    }
}

/// `key_lt(a, b)` computed on vectors.
pub fn codes_less(a: &Vec<u32>, b: &Vec<u32>) -> (r: bool)
    ensures
        r == key_lt(a@, b@),
{
    let mut i: usize = 0;
    while i < a.len() && i < b.len()
        invariant
            i <= a.len(),
            i <= b.len(),
            a@.take(i as int) == b@.take(i as int),
        decreases a.len() - i,
    {
        if a[i] != b[i] {
            proof {
                lemma_key_lt_skip(a@, b@, i as int);
                assert(a@.skip(i as int)[0] == a@[i as int]);
                assert(b@.skip(i as int)[0] == b@[i as int]);
            }
            return a[i] < b[i];
        }
        assert(a@.take(i + 1) =~= a@.take(i as int).push(a@[i as int]));
        assert(b@.take(i + 1) =~= b@.take(i as int).push(b@[i as int]));
        i = i + 1;
    }
    proof {
        lemma_key_lt_skip(a@, b@, i as int);
    }
    i == a.len() && i < b.len()
}

/// Equality of two key codes computed on vectors.
pub fn codes_equal(a: &Vec<u32>, b: &Vec<u32>) -> (r: bool)
    ensures
        r == (a@ == b@),
{
    if a.len() != b.len() {
        return false;
    }
    let mut i: usize = 0;
    while i < a.len()
        invariant
            i <= a.len(),
            a.len() == b.len(),
            forall|j: int| 0 <= j < i ==> a@[j] == b@[j],
        decreases a.len() - i,
    {
        if a[i] != b[i] {
            return false;
        }
        i = i + 1;
    }
    assert(a@ =~= b@);
    true
}

/// The characters of a text.
pub fn chars_of(s: &str) -> (v: Vec<char>)
    ensures
        v@ == s@,
{
    let mut v: Vec<char> = Vec::new();
    for c in it: s.chars()
        invariant
            it.seq() == s@,
            v@ == it.seq().take(it.index() as int),
    {
        v.push(c);
    }
    v
}

/// The key codes of a text.
pub fn text_codes(s: &str) -> (r: Vec<u32>)
    ensures
        r@ == text_model(s@),
{
    let chars = chars_of(s);
    let mut r: Vec<u32> = Vec::new();
    let mut i: usize = 0;
    while i < chars.len()
        invariant
            i <= chars.len(),
            chars@ == s@,
            r@ == text_model(s@).take(i as int),
        decreases chars.len() - i,
    {
        r.push(chars[i] as u32);
        assert(r@ =~= text_model(s@).take(i + 1));
        i = i + 1;
    }
    assert(r@ =~= text_model(s@));
    r
}

/// Distinct texts have distinct models.
pub proof fn lemma_text_model_injective(a: Seq<char>, b: Seq<char>)
    requires
        text_model(a) == text_model(b),
    ensures
        a == b,
{
    assert(a.len() == text_model(a).len());
    assert(b.len() == text_model(b).len());
    assert forall|i: int| 0 <= i < a.len() implies a[i] == b[i] by {
        assert(text_model(a)[i] == text_model(b)[i]);
        let u = a[i] as u32;
        assert(text_model(a)[i] == a[i] as u32);
        assert(text_model(b)[i] == b[i] as u32);
        vstd::utf8::char_u32_cast(a[i], u);
        vstd::utf8::char_u32_cast(b[i], u);
    }
    assert(a =~= b);
}

} // verus!
