//! Text, taken as the sequence of its characters: occurrence of one text in
//! another, and the lexicographic order.

use vstd::prelude::*;

verus! {

/// `needle` stands in `hay` from position `at` on.
pub open spec fn occurs_at(needle: Seq<char>, hay: Seq<char>, at: int) -> bool {
    &&& 0 <= at
    &&& at + needle.len() <= hay.len()
    &&& hay.subrange(at, at + needle.len()) == needle
}

/// `needle` stands somewhere in `hay`.
pub open spec fn occurs_in(needle: Seq<char>, hay: Seq<char>) -> bool {
    exists|at: int| occurs_at(needle, hay, at)
}

/// The lexicographic order by code point, which is also that of the UTF-8 encodings by byte.
pub open spec fn text_le(a: Seq<char>, b: Seq<char>) -> bool
    decreases a.len(),
{
    if a.len() == 0 {
        true
    } else if b.len() == 0 {
        false
    } else if a[0] != b[0] {
        a[0] < b[0]
    } else {
        text_le(a.drop_first(), b.drop_first())
    }
}

/// The characters of `text`, in order.
fn characters(text: &str) -> (chars: Vec<char>)
    ensures
        chars@ == text@,
{
    let mut chars: Vec<char> = Vec::new();
    for c in it: text.chars()
        invariant
            it.seq() == text@,
            chars@ == text@.take(it.index() as int),
    {
        chars.push(c);
    }
    assert(text@.take(text@.len() as int) == text@);
    chars
}

/// Whether `needle` stands in `hay` from position `at` on.
fn matches_at(needle: &Vec<char>, hay: &Vec<char>, at: usize) -> (found: bool)
    requires
        at + needle@.len() <= hay@.len(),
    ensures
        found == occurs_at(needle@, hay@, at as int),
{
    let mut k: usize = 0;
    while k < needle.len()
        invariant
            k <= needle@.len(),
            at + needle@.len() <= hay.len(),
            forall|j: int| 0 <= j < k ==> hay@[at + j] == needle@[j],
        decreases needle@.len() - k,
    {
        if hay[at + k] != needle[k] {
            proof {
                let window = hay@.subrange(at as int, at + needle@.len());
                assert(window[k as int] != needle@[k as int]);
            }
            return false;
        }
        k += 1;
    }
    assert(hay@.subrange(at as int, at + needle@.len()) =~= needle@);
    true
}

/// Whether `needle` stands somewhere in `hay`.
pub fn text_contains(hay: &str, needle: &str) -> (found: bool)
    ensures
        found == occurs_in(needle@, hay@),
{
    let hay_chars = characters(hay);
    let needle_chars = characters(needle);
    let mut at: usize = 0;
    while needle_chars.len() <= hay_chars.len() - at
        invariant
            hay_chars@ == hay@,
            needle_chars@ == needle@,
            at <= hay_chars@.len(),
            forall|k: int| 0 <= k < at ==> !occurs_at(needle@, hay@, k),
        decreases hay_chars@.len() - at,
    {
        if matches_at(&needle_chars, &hay_chars, at) {
            return true;
        }
        if at == hay_chars.len() {
            return false;
        }
        at += 1;
    }
    false
}

/// Whether `a` comes before `b` in the lexicographic order, or is the same.
pub fn text_not_after(a: &str, b: &str) -> (le: bool)
    ensures
        le == text_le(a@, b@),
{
    let a_chars = characters(a);
    let b_chars = characters(b);
    let mut k: usize = 0;
    assert(a@.skip(0) =~= a@);
    assert(b@.skip(0) =~= b@);
    while k < a_chars.len()
        invariant
            a_chars@ == a@,
            b_chars@ == b@,
            k <= a@.len(),
            k <= b@.len(),
            text_le(a@, b@) == text_le(a@.skip(k as int), b@.skip(k as int)),
        decreases a@.len() - k,
    {
        if k == b_chars.len() {
            return false;
        }
        if a_chars[k] != b_chars[k] {
            return a_chars[k] < b_chars[k];
        }
        assert(a@.skip(k as int).drop_first() =~= a@.skip(k + 1));
        assert(b@.skip(k as int).drop_first() =~= b@.skip(k + 1));
        k += 1;
    }
    true
}

/// One text stands in another if the other is made of it with something before and after.
pub proof fn law_occurrence(needle: Seq<char>, hay: Seq<char>)
    ensures
        occurs_in(needle, hay) <==> exists|before: Seq<char>, after: Seq<char>|
            hay == #[trigger] (before + needle + after),
{
    if occurs_in(needle, hay) {
        let at = choose|at: int| occurs_at(needle, hay, at);
        let before = hay.take(at);
        let after = hay.skip(at + needle.len());
        assert(hay.subrange(at, at + needle.len()) == needle);
        assert(hay =~= before + needle + after);
    }
    if exists|before: Seq<char>, after: Seq<char>| hay == #[trigger] (before + needle + after) {
        let (before, after) = choose|before: Seq<char>, after: Seq<char>|
            hay == #[trigger] (before + needle + after);
        let at = before.len() as int;
        assert(hay.subrange(at, at + needle.len()) =~= needle);
        assert(occurs_at(needle, hay, at));
    }
}

/// Of two texts, one is not after the other if it is the beginning of the other, or has the
/// lower character where they first differ.
pub proof fn law_text_order(a: Seq<char>, b: Seq<char>)
    ensures
        text_le(a, b) <==> a.is_prefix_of(b) || exists|p: int|
            #![trigger a[p]]
            0 <= p < a.len() && p < b.len() && a.take(p) == b.take(p) && a[p] < b[p],
    decreases a.len(),
{
    if a.len() == 0 {
        assert(a.is_prefix_of(b));
    } else if b.len() == 0 {
    } else if a[0] != b[0] {
        assert(!a.is_prefix_of(b)) by {
            if a.is_prefix_of(b) {
                assert(b.subrange(0, a.len() as int)[0] == b[0]);
            }
        }
        if a[0] < b[0] {
            assert(a.take(0) =~= b.take(0));
        }
        assert forall|p: int|
            #![trigger a[p]]
            0 <= p < a.len() && p < b.len() && a.take(p) == b.take(p) && a[p] < b[p] implies a[0]
            < b[0] by {
            if p > 0 {
                assert(a.take(p)[0] == b.take(p)[0]);
            }
        }
    } else {
        let (s, t) = (a.drop_first(), b.drop_first());
        law_text_order(s, t);
        assert(a.is_prefix_of(b) == s.is_prefix_of(t)) by {
            if s.is_prefix_of(t) {
                assert forall|k: int| 0 <= k < a.len() implies a[k] == b[k] by {
                    if k > 0 {
                        assert(s[k - 1] == t.subrange(0, s.len() as int)[k - 1]);
                    }
                }
                assert(a =~= b.subrange(0, a.len() as int));
            }
            if a.is_prefix_of(b) {
                assert forall|k: int| 0 <= k < s.len() implies s[k] == t[k] by {
                    assert(a[k + 1] == b.subrange(0, a.len() as int)[k + 1]);
                }
                assert(s =~= t.subrange(0, s.len() as int));
            }
        }
        assert forall|p: int|
            #![trigger s[p]]
            0 <= p < s.len() && p < t.len() && s.take(p) == t.take(p) && s[p] < t[p] implies exists|
            q: int,
        |
            #![trigger a[q]]
            0 <= q < a.len() && q < b.len() && a.take(q) == b.take(q) && a[q] < b[q] by {
            assert forall|k: int| 0 <= k < p + 1 implies a[k] == b[k] by {
                if k > 0 {
                    assert(s.take(p)[k - 1] == t.take(p)[k - 1]);
                }
            }
            assert(a.take(p + 1) =~= b.take(p + 1));
            assert(a[p + 1] < b[p + 1]);
        }
        assert forall|q: int|
            #![trigger a[q]]
            0 <= q < a.len() && q < b.len() && a.take(q) == b.take(q) && a[q] < b[q] implies exists|
            p: int,
        |
            #![trigger s[p]]
            0 <= p < s.len() && p < t.len() && s.take(p) == t.take(p) && s[p] < t[p] by {
            assert forall|k: int| 0 <= k < q - 1 implies s[k] == t[k] by {
                assert(a.take(q)[k + 1] == b.take(q)[k + 1]);
            }
            assert(s.take(q - 1) =~= t.take(q - 1));
            assert(s[q - 1] < t[q - 1]);
        }
    }
}

pub proof fn lemma_text_le_reflexive(a: Seq<char>)
    ensures
        text_le(a, a),
    decreases a.len(),
{
    if a.len() > 0 {
        lemma_text_le_reflexive(a.drop_first());
    }
}

pub proof fn lemma_text_le_antisymmetric(a: Seq<char>, b: Seq<char>)
    requires
        text_le(a, b),
        text_le(b, a),
    ensures
        a == b,
    decreases a.len(),
{
    if a.len() > 0 && b.len() > 0 {
        lemma_text_le_antisymmetric(a.drop_first(), b.drop_first());
        assert(a =~= seq![a[0]] + a.drop_first());
        assert(b =~= seq![b[0]] + b.drop_first());
    } else {
        assert(a =~= b);
    }
}

pub proof fn lemma_text_le_transitive(a: Seq<char>, b: Seq<char>, c: Seq<char>)
    requires
        text_le(a, b),
        text_le(b, c),
    ensures
        text_le(a, c),
    decreases a.len(),
{
    if a.len() > 0 && b.len() > 0 && c.len() > 0 && a[0] == b[0] && b[0] == c[0] {
        lemma_text_le_transitive(a.drop_first(), b.drop_first(), c.drop_first());
    }
}

pub proof fn lemma_text_le_total(a: Seq<char>, b: Seq<char>)
    ensures
        text_le(a, b) || text_le(b, a),
    decreases a.len(),
{
    if a.len() > 0 && b.len() > 0 && a[0] == b[0] {
        lemma_text_le_total(a.drop_first(), b.drop_first());
    }
}

} // verus!
