//! Text helpers: decimal formatting, substring search, replacement, blank test.
use vstd::prelude::*;
use crate::keys::chars_of;

verus! {

pub open spec fn digit_char(d: nat) -> char {
    if d == 0 {
        '0'
    } else if d == 1 {
        '1'
    } else if d == 2 {
        '2'
    } else if d == 3 {
        '3'
    } else if d == 4 {
        '4'
    } else if d == 5 {
        '5'
    } else if d == 6 {
        '6'
    } else if d == 7 {
        '7'
    } else if d == 8 {
        '8'
    } else {
        '9'
    }
}

/// The decimal writing of `n`, without leading zeros.
pub open spec fn decimal(n: nat) -> Seq<char>
    decreases n,
{
    if n < 10 {
        seq![digit_char(n)]
    } else {
        decimal(n / 10).push(digit_char(n % 10))
    }
}

pub fn digit(d: u64) -> (c: char)
    requires
        d < 10,
    ensures
        c == digit_char(d as nat),
{
    if d == 0 {
        '0'
    } else if d == 1 {
        '1'
    } else if d == 2 {
        '2'
    } else if d == 3 {
        '3'
    } else if d == 4 {
        '4'
    } else if d == 5 {
        '5'
    } else if d == 6 {
        '6'
    } else if d == 7 {
        '7'
    } else if d == 8 {
        '8'
    } else {
        '9'
    }
}

/// Appends the decimal writing of `n` to `out`.
pub fn push_decimal(out: &mut Vec<char>, n: u64)
    ensures
        final(out)@ == old(out)@ + decimal(n as nat),
    decreases n,
{
    if n < 10 {
        out.push(digit(n));
        assert(decimal(n as nat) =~= seq![digit_char(n as nat)]);
    } else {
        push_decimal(out, n / 10);
        out.push(digit(n % 10));
        assert(decimal(n as nat) == decimal((n / 10) as nat).push(digit_char((n % 10) as nat)));
        assert(final(out)@ =~= old(out)@ + decimal(n as nat));
    }
}

/// Builds a `String` from characters with `String::from_iter`; the text is
/// exactly the characters given.
#[verifier::external_body]
pub(crate) fn string_from_chars(chars: &Vec<char>) -> (s: String)
    ensures
        s@ == chars@,
{
    String::from_iter(chars.iter())
}

/// Appends the characters of `s` to `out`.
pub fn push_str(out: &mut Vec<char>, s: &str)
    ensures
        final(out)@ == old(out)@ + s@,
{
    let chars = chars_of(s);
    let mut i: usize = 0;
    while i < chars.len()
        invariant
            i <= chars.len(),
            chars@ == s@,
            out@ == old(out)@ + s@.take(i as int),
        decreases chars.len() - i,
    {
        out.push(chars[i]);
        assert(s@.take(i + 1) == s@.take(i as int).push(s@[i as int]));
        assert(out@ =~= old(out)@ + s@.take(i + 1));
        i = i + 1;
    }
    assert(s@.take(i as int) =~= s@);
}

/// `needle` occurs in `hay` starting at position `i`.
pub open spec fn occurs_at(hay: Seq<char>, needle: Seq<char>, i: int) -> bool {
    0 <= i && i + needle.len() <= hay.len() && hay.subrange(i, i + needle.len()) == needle
}

/// `needle` occurs in `hay`; the empty text occurs in every text.
pub open spec fn contains_text(hay: Seq<char>, needle: Seq<char>) -> bool {
    exists|i: int| occurs_at(hay, needle, i)
}

fn matches_at(hay: &Vec<char>, needle: &Vec<char>, i: usize) -> (r: bool)
    requires
        i + needle.len() <= hay.len(),
    ensures
        r == occurs_at(hay@, needle@, i as int),
{
    let mut j: usize = 0;
    while j < needle.len()
        invariant
            i + needle.len() <= hay.len(),
            j <= needle.len(),
            forall|k: int| 0 <= k < j ==> hay@[i + k] == needle@[k],
        decreases needle.len() - j,
    {
        if hay[i + j] != needle[j] {
            assert(hay@.subrange(i as int, i + needle@.len())[j as int] != needle@[j as int]);
            return false;
        }
        j = j + 1;
    }
    assert(hay@.subrange(i as int, i + needle@.len()) =~= needle@);
    true
}

/// Whether `needle` occurs in `hay`, as `str::contains` with a text pattern.
pub fn text_contains(hay: &str, needle: &str) -> (r: bool)
    ensures
        r == contains_text(hay@, needle@),
{
    let h = chars_of(hay);
    let n = chars_of(needle);
    if n.len() > h.len() {
        return false;
    }
    let last = h.len() - n.len();
    let mut i: usize = 0;
    loop
        invariant
            h@ == hay@,
            n@ == needle@,
            n.len() <= h.len(),
            last == h.len() - n.len(),
            i <= last,
            forall|k: int| 0 <= k < i ==> !occurs_at(hay@, needle@, k),
        ensures
            i == last,
            forall|k: int| 0 <= k <= i ==> !occurs_at(hay@, needle@, k),
        decreases last - i,
    {
        if matches_at(&h, &n, i) {
            return true;
        }
        if i == last {
            break;
        }
        i = i + 1;
    }
    assert forall|k: int| !occurs_at(hay@, needle@, k) by {
        if k > i {
            assert(k + needle@.len() > hay@.len());
        }
    }
    false
}

/// Every occurrence of `from`, taken from left to right without overlap, is
/// replaced by `to`, as `str::replace` does; an empty pattern occurs before
/// each character and at the end.
pub open spec fn replaced(text: Seq<char>, from: Seq<char>, to: Seq<char>) -> Seq<char>
    decreases text.len(),
{
    if from.len() == 0 {
        if text.len() == 0 {
            to
        } else {
            to + seq![text[0]] + replaced(text.drop_first(), from, to)
        }
    } else if text.len() < from.len() {
        text
    } else if text.take(from.len() as int) == from {
        to + replaced(text.skip(from.len() as int), from, to)
    } else {
        seq![text[0]] + replaced(text.drop_first(), from, to)
    }
}

/// `to` before each character of `text` and at its end: `str::replace` with
/// an empty pattern.
fn interleave(text: &str, to: &str) -> (r: Vec<char>)
    ensures
        r@ == replaced(text@, Seq::<char>::empty(), to@),
{
    let t = chars_of(text);
    let mut out: Vec<char> = Vec::new();
    let mut i: usize = 0;
    assert(text@.skip(0) =~= text@);
    while i < t.len()
        invariant
            t@ == text@,
            i <= t.len(),
            out@ + replaced(text@.skip(i as int), Seq::<char>::empty(), to@) == replaced(text@, Seq::<char>::empty(), to@),
        decreases t.len() - i,
    {
        let ghost rest = text@.skip(i as int);
        assert(rest.drop_first() =~= text@.skip(i + 1));
        assert(rest[0] == t@[i as int]);
        push_str(&mut out, to);
        out.push(t[i]);
        i = i + 1;
        assert(out@ + replaced(text@.skip(i as int), Seq::<char>::empty(), to@) =~= replaced(text@, Seq::<char>::empty(), to@));
    }
    assert(text@.skip(i as int) =~= Seq::<char>::empty());
    push_str(&mut out, to);
    out
}

/// `str::replace`: every occurrence of `from` replaced by `to`.
pub fn replace_text(text: &str, from: &str, to: &str) -> (r: Vec<char>)
    ensures
        r@ == replaced(text@, from@, to@),
{
    let t = chars_of(text);
    let f = chars_of(from);
    if f.len() == 0 {
        assert(from@ =~= Seq::<char>::empty());
        return interleave(text, to);
    }
    let mut out: Vec<char> = Vec::new();
    let mut i: usize = 0;
    assert(text@.skip(0) =~= text@);
    while i < t.len()
        invariant
            t@ == text@,
            f@ == from@,
            f@.len() > 0,
            i <= t.len(),
            out@ + replaced(text@.skip(i as int), from@, to@) == replaced(text@, from@, to@),
        decreases t.len() - i,
    {
        let ghost rest = text@.skip(i as int);
        if f.len() <= t.len() - i && matches_at(&t, &f, i) {
            assert(rest.take(from@.len() as int) =~= text@.subrange(i as int, i + from@.len()));
            assert(rest.skip(from@.len() as int) =~= text@.skip(i + from@.len()));
            push_str(&mut out, to);
            i = i + f.len();
            assert(out@ + replaced(text@.skip(i as int), from@, to@) =~= replaced(text@, from@, to@));
        } else {
            proof {
                if rest.len() >= from@.len() {
                    assert(rest.take(from@.len() as int) =~= text@.subrange(i as int, i + from@.len()));
                }
                assert(rest.drop_first() =~= text@.skip(i + 1));
                if rest.len() < from@.len() {
                    assert(rest.drop_first().len() < from@.len());
                    assert(replaced(rest, from@, to@) == rest);
                    assert(replaced(rest.drop_first(), from@, to@) == rest.drop_first());
                    assert(rest =~= seq![rest[0]] + rest.drop_first());
                }
            }
            out.push(t[i]);
            i = i + 1;
            assert(out@ + replaced(text@.skip(i as int), from@, to@) =~= replaced(text@, from@, to@));
        }
    }
    assert(text@.skip(i as int) =~= Seq::<char>::empty());
    assert(out@ =~= replaced(text@, from@, to@));
    out
}

/// Unicode `White_Space`, the property that `char::is_whitespace` tests.
pub open spec fn is_white_space(c: char) -> bool {
    let u = c as u32;
    ||| 0x9 <= u <= 0xD
    ||| u == 0x20
    ||| u == 0x85
    ||| u == 0xA0
    ||| u == 0x1680
    ||| 0x2000 <= u <= 0x200A
    ||| u == 0x2028
    ||| u == 0x2029
    ||| u == 0x202F
    ||| u == 0x205F
    ||| u == 0x3000
}

/// A text is blank when trimming it leaves nothing: all its characters are white space.
pub open spec fn is_blank(s: Seq<char>) -> bool {
    forall|i: int| 0 <= i < s.len() ==> is_white_space(#[trigger] s[i])
}

pub fn char_is_white_space(c: char) -> (r: bool)
    ensures
        r == is_white_space(c),
{
    let u = c as u32;
    (0x9 <= u && u <= 0xD) || u == 0x20 || u == 0x85 || u == 0xA0 || u == 0x1680 || (0x2000 <= u
        && u <= 0x200A) || u == 0x2028 || u == 0x2029 || u == 0x202F || u == 0x205F || u == 0x3000
}

/// `s.trim().is_empty()`.
pub fn text_is_blank(s: &str) -> (r: bool)
    ensures
        r == is_blank(s@),
{
    let chars = chars_of(s);
    let mut i: usize = 0;
    while i < chars.len()
        invariant
            chars@ == s@,
            i <= chars.len(),
            forall|k: int| 0 <= k < i ==> is_white_space(#[trigger] s@[k]),
        decreases chars.len() - i,
    {
        if !char_is_white_space(chars[i]) {
            return false;
        }
        i = i + 1;
    }
    true
}

/// Equality of two texts.
pub fn text_equal(a: &str, b: &str) -> (r: bool)
    ensures
        r == (a@ == b@),
{
    let x = chars_of(a);
    let y = chars_of(b);
    if x.len() != y.len() {
        return false;
    }
    let mut i: usize = 0;
    while i < x.len()
        invariant
            x@ == a@,
            y@ == b@,
            x.len() == y.len(),
            i <= x.len(),
            forall|k: int| 0 <= k < i ==> x@[k] == y@[k],
        decreases x.len() - i,
    {
        if x[i] != y[i] {
            return false;
        }
        i = i + 1;
    }
    assert(x@ =~= y@);
    true
}

/// The text has no character.
pub fn text_is_empty(s: &str) -> (r: bool)
    ensures
        r == (s@.len() == 0),
{
    chars_of(s).len() == 0
}

/// A copy of a text.
pub fn copy_text(s: &str) -> (r: String)
    ensures
        r@ == s@,
{
    let chars = chars_of(s);
    string_from_chars(&chars)
}


/// Two texts share no character.
pub open spec fn apart(a: Seq<char>, b: Seq<char>) -> bool {
    forall|i: int, j: int| 0 <= i < a.len() && 0 <= j < b.len() ==> a[i] != b[j]
}

/// When what `replaced` gives starts with a text that shares no character
/// with the replacement, the text replaced started with it too.
proof fn lemma_replaced_prefix(text: Seq<char>, from: Seq<char>, to: Seq<char>, w: Seq<char>)
    requires
        from.len() > 0,
        to.len() > 0,
        w.len() <= replaced(text, from, to).len(),
        replaced(text, from, to).take(w.len() as int) == w,
        apart(w, to),
    ensures
        w.len() <= text.len(),
        text.take(w.len() as int) == w,
    decreases text.len(),
{
    let r = replaced(text, from, to);
    if w.len() == 0 {
        assert(text.take(0) =~= w);
    } else if text.len() < from.len() {
    } else if text.take(from.len() as int) == from {
        assert(r == to + replaced(text.skip(from.len() as int), from, to));
        assert(r[0] == to[0]);
        assert(w[0] == r.take(w.len() as int)[0]);
        assert(false);
    } else {
        let rest = replaced(text.drop_first(), from, to);
        assert(r == seq![text[0]] + rest);
        let w1 = w.drop_first();
        assert(rest.take(w1.len() as int) =~= r.take(w.len() as int).drop_first());
        lemma_replaced_prefix(text.drop_first(), from, to, w1);
        assert(w[0] == r.take(w.len() as int)[0]);
        assert(text.take(w.len() as int) =~= seq![text[0]] + text.drop_first().take(w1.len() as int));
        assert(w =~= seq![w[0]] + w1);
    }
}

/// Once every occurrence of `from` is replaced by a text that shares no
/// character with it, `from` occurs nowhere in the result.
pub proof fn lemma_replaced_hides(text: Seq<char>, from: Seq<char>, to: Seq<char>)
    requires
        from.len() > 0,
        to.len() > 0,
        apart(from, to),
    ensures
        !contains_text(replaced(text, from, to), from),
    decreases text.len(),
{
    let r = replaced(text, from, to);
    let n = from.len() as int;
    if text.len() < from.len() {
        assert forall|i: int| !occurs_at(r, from, i) by {}
    } else if text.take(n) == from {
        let rest = replaced(text.skip(n), from, to);
        lemma_replaced_hides(text.skip(n), from, to);
        assert(r == to + rest);
        assert forall|i: int| !occurs_at(r, from, i) by {
            if occurs_at(r, from, i) {
                if i < to.len() {
                    assert(r[i] == to[i]);
                    assert(r.subrange(i, i + n)[0] == r[i]);
                    assert(from[0] != to[i]);
                } else {
                    assert(rest.subrange(i - to.len(), i - to.len() + n) =~= r.subrange(i, i + n));
                    assert(occurs_at(rest, from, i - to.len()));
                }
            }
        }
    } else {
        let rest = replaced(text.drop_first(), from, to);
        lemma_replaced_hides(text.drop_first(), from, to);
        assert(r == seq![text[0]] + rest);
        assert forall|i: int| !occurs_at(r, from, i) by {
            if occurs_at(r, from, i) {
                if i == 0 {
                    let f1 = from.drop_first();
                    assert(apart(f1, to)) by {
                        assert forall|a: int, b: int| 0 <= a < f1.len() && 0 <= b < to.len() implies f1[a] != to[b] by {
                            assert(f1[a] == from[a + 1]);
                        }
                    }
                    assert(rest.take(f1.len() as int) =~= r.subrange(0, n).drop_first());
                    lemma_replaced_prefix(text.drop_first(), from, to, f1);
                    assert(text[0] == r[0]);
                    assert(r[0] == r.subrange(0, n)[0]);
                    assert(text.take(n) =~= seq![text[0]] + text.drop_first().take(f1.len() as int));
                    assert(from =~= seq![from[0]] + f1);
                } else {
                    assert(rest.subrange(i - 1, i - 1 + n) =~= r.subrange(i, i + n));
                    assert(occurs_at(rest, from, i - 1));
                }
            }
        }
    }
}

} // verus!
