use vstd::prelude::*;
use vstd::relations::{sorted_by, total_ordering};
use crate::model::point::texts;

verus! {

/// The characters of `s`, in order.
pub fn chars_of(s: &str) -> (v: Vec<char>)
    ensures
        v@ == s@,
{
    let mut v: Vec<char> = Vec::new();
    for c in it: s.chars()
        invariant
            it.seq() == s@,
            v@ == it.seq().take(it.index() as int),
    {
        v.push(c);
    }
    v
}

/// ASCII lowercase of one character; every other character is unchanged.
pub open spec fn ascii_lower(c: char) -> char {
    if 'A' <= c && c <= 'Z' {
        ((c as u32) + 32) as char
    } else {
        c
    }
}

/// ASCII lowercase of a whole text, as `str::to_ascii_lowercase` computes it.
pub open spec fn ascii_lower_seq(s: Seq<char>) -> Seq<char> {
    s.map_values(|c: char| ascii_lower(c))
}

/// Whether `s` equals the lowercase word `word` once `s` is lowercased.
pub fn eq_ignore_ascii_case(s: &Vec<char>, word: &Vec<char>) -> (b: bool)
    ensures
        b == (ascii_lower_seq(s@) == word@),
{
    if s.len() != word.len() {
        assert(ascii_lower_seq(s@).len() != word@.len());
        return false;
    }
    let mut i: usize = 0;
    while i < s.len()
        invariant
            s@.len() == word@.len(),
            i <= s@.len(),
            forall|j: int| 0 <= j < i ==> ascii_lower(s@[j]) == word@[j],
        decreases s@.len() - i,
    {
        let c = s[i];
        let l = if 'A' <= c && c <= 'Z' {
            char_from_ascii_upper(c)
        } else {
            c
        };
        if l != word[i] {
            assert(ascii_lower_seq(s@)[i as int] != word@[i as int]);
            return false;
        }
        i = i + 1;
    }
    assert(ascii_lower_seq(s@) =~= word@);
    true
}

fn char_from_ascii_upper(c: char) -> (l: char)
    requires
        'A' <= c && c <= 'Z',
    ensures
        l == ascii_lower(c),
{
    let code: u32 = (c as u32) + 32;
    let b: u8 = code as u8;
    b as char
}

/// Text order: lexicographic by character code point, a prefix first. For
/// UTF-8 text this is the order of `String`'s `Ord` (byte order).
pub open spec fn text_leq(a: Seq<char>, b: Seq<char>) -> bool
    decreases a.len(),
{
    if a.len() == 0 {
        true
    } else if b.len() == 0 {
        false
    } else if a[0] != b[0] {
        a[0] < b[0]
    } else {
        text_leq(a.drop_first(), b.drop_first())
    }
}

/// Text order as a relation.
pub open spec fn text_order() -> spec_fn(Seq<char>, Seq<char>) -> bool {
    |a: Seq<char>, b: Seq<char>| text_leq(a, b)
}

/// `texts` sorted by text order.
pub open spec fn sorted_texts(v: Seq<Seq<char>>) -> Seq<Seq<char>> {
    v.sort_by(text_order())
}

/// Sorted texts are in text order and hold the same texts, as often each.
pub proof fn lemma_sorted_texts(v: Seq<Seq<char>>)
    ensures
        sorted_by(sorted_texts(v), text_order()),
        sorted_texts(v).to_multiset() == v.to_multiset(),
{
    lemma_text_order_total();
    v.lemma_sort_by_ensures(text_order());
}

proof fn lemma_text_leq_reflexive(a: Seq<char>)
    ensures
        text_leq(a, a),
    decreases a.len(),
{
    if a.len() > 0 {
        lemma_text_leq_reflexive(a.drop_first());
    }
}

proof fn lemma_text_leq_antisymmetric(a: Seq<char>, b: Seq<char>)
    requires
        text_leq(a, b),
        text_leq(b, a),
    ensures
        a == b,
    decreases a.len(),
{
    if a.len() > 0 && b.len() > 0 {
        lemma_text_leq_antisymmetric(a.drop_first(), b.drop_first());
        assert(a =~= seq![a[0]] + a.drop_first());
        assert(b =~= seq![b[0]] + b.drop_first());
    } else {
        assert(a =~= b);
    }
}

proof fn lemma_text_leq_transitive(a: Seq<char>, b: Seq<char>, c: Seq<char>)
    requires
        text_leq(a, b),
        text_leq(b, c),
    ensures
        text_leq(a, c),
    decreases a.len(),
{
    if a.len() > 0 && b.len() > 0 && c.len() > 0 {
        if a[0] == b[0] && b[0] == c[0] {
            lemma_text_leq_transitive(a.drop_first(), b.drop_first(), c.drop_first());
        }
    }
}

proof fn lemma_text_leq_total(a: Seq<char>, b: Seq<char>)
    ensures
        text_leq(a, b) || text_leq(b, a),
    decreases a.len(),
{
    if a.len() > 0 && b.len() > 0 && a[0] == b[0] {
        lemma_text_leq_total(a.drop_first(), b.drop_first());
    }
}

/// Text order is a total order.
pub proof fn lemma_text_order_total()
    ensures
        total_ordering(text_order()),
{
    assert forall|x: Seq<char>| #[trigger] text_order()(x, x) by {
        lemma_text_leq_reflexive(x);
    }
    assert forall|x: Seq<char>, y: Seq<char>|
        #[trigger] text_order()(x, y) && #[trigger] text_order()(y, x) implies x == y by {
        lemma_text_leq_antisymmetric(x, y);
    }
    assert forall|x: Seq<char>, y: Seq<char>, z: Seq<char>|
        #[trigger] text_order()(x, y) && #[trigger] text_order()(y, z) implies text_order()(x, z) by {
        lemma_text_leq_transitive(x, y, z);
    }
    assert forall|x: Seq<char>, y: Seq<char>|
        #[trigger] text_order()(x, y) || #[trigger] text_order()(y, x) by {
        lemma_text_leq_total(x, y);
    }
}

/// Whether `a` comes before or equals `b` in text order.
pub fn text_le(a: &Vec<char>, b: &Vec<char>) -> (r: bool)
    ensures
        r == text_leq(a@, b@),
{
    let mut i: usize = 0;
    assert(a@.skip(0) =~= a@);
    assert(b@.skip(0) =~= b@);
    while i < a.len() && i < b.len() && a[i] == b[i]
        invariant
            i <= a@.len(),
            i <= b@.len(),
            text_leq(a@, b@) == text_leq(a@.skip(i as int), b@.skip(i as int)),
        decreases a@.len() - i,
    {
        assert(a@.skip(i as int).drop_first() =~= a@.skip(i + 1));
        assert(b@.skip(i as int).drop_first() =~= b@.skip(i + 1));
        i = i + 1;
    }
    if i == a.len() {
        true
    } else if i == b.len() {
        false
    } else {
        a[i] < b[i]
    }
}

/// The texts of `v`, sorted by text order (ties keep no particular order;
/// equal texts are interchangeable).
pub fn sort_texts(v: &Vec<String>) -> (out: Vec<String>)
    ensures
        texts(out@) == sorted_texts(texts(v@)),
{
    proof {
        lemma_text_order_total();
    }
    let mut out: Vec<String> = Vec::new();
    proof {
        assert(texts(out@) =~= Seq::<Seq<char>>::empty());
        assert(texts(v@).take(0) =~= Seq::<Seq<char>>::empty());
    }
    for k in 0..v.len()
        invariant
            total_ordering(text_order()),
            sorted_by(texts(out@), text_order()),
            texts(out@).to_multiset() == texts(v@).take(k as int).to_multiset(),
    {
        let s = chars_of(v[k].as_str());
        let mut p: usize = 0;
        while p < out.len() && text_le(&chars_of(out[p].as_str()), &s)
            invariant
                p <= out@.len(),
                k < v@.len(),
                s@ == v@[k as int]@,
                forall|q: int| 0 <= q < p ==> text_leq(#[trigger] texts(out@)[q], s@),
            decreases out@.len() - p,
        {
            p = p + 1;
        }
        let ghost old_out = texts(out@);
        out.insert(p, v[k].clone());
        let ghost new_out = texts(out@);
        proof {
            assert(new_out =~= old_out.insert(p as int, s@));
            assert(texts(v@).take(k + 1) =~= texts(v@).take(k as int).push(s@));
            vstd::seq_lib::to_multiset_insert(old_out, p as int, s@);
            vstd::seq_lib::to_multiset_build(texts(v@).take(k as int), s@);
            assert(old_out.insert(p as int, s@).to_multiset() == old_out.to_multiset().insert(s@));
            assert(texts(v@).take(k as int).push(s@).to_multiset() == texts(v@).take(
                k as int,
            ).to_multiset().insert(s@));
            if p < old_out.len() {
                lemma_text_leq_total(old_out[p as int], s@);
            }
            assert forall|i: int, j: int| 0 <= i < j < new_out.len() implies #[trigger] text_order()(
                new_out[i],
                new_out[j],
            ) by {
                if j < p {
                    assert(text_order()(old_out[i], old_out[j]));
                } else if j == p {
                    assert(text_leq(old_out[i], s@));
                } else if i < p {
                    assert(text_leq(old_out[i], s@));
                    assert(text_leq(s@, old_out[p as int]));
                    if j - 1 > p {
                        assert(text_order()(old_out[p as int], old_out[j - 1]));
                        lemma_text_leq_transitive(s@, old_out[p as int], old_out[j - 1]);
                    }
                    lemma_text_leq_transitive(old_out[i], s@, old_out[j - 1]);
                } else if i == p {
                    assert(text_leq(s@, old_out[p as int]));
                    if j - 1 > p {
                        assert(text_order()(old_out[p as int], old_out[j - 1]));
                        lemma_text_leq_transitive(s@, old_out[p as int], old_out[j - 1]);
                    }
                } else {
                    assert(text_order()(old_out[i - 1], old_out[j - 1]));
                }
            }
        }
    }
    proof {
        assert(texts(v@).take(v@.len() as int) =~= texts(v@));
        texts(v@).lemma_sort_by_ensures(text_order());
        vstd::seq_lib::lemma_sorted_unique(texts(out@), sorted_texts(texts(v@)), text_order());
    }
    out
}

/// The Unicode `White_Space` property, which `char::is_whitespace` tests.
pub open spec fn is_white_space(c: char) -> bool {
    ||| '\u{9}' <= c && c <= '\u{d}'
    ||| c == ' '
    ||| c == '\u{85}'
    ||| c == '\u{a0}'
    ||| c == '\u{1680}'
    ||| '\u{2000}' <= c && c <= '\u{200a}'
    ||| c == '\u{2028}'
    ||| c == '\u{2029}'
    ||| c == '\u{202f}'
    ||| c == '\u{205f}'
    ||| c == '\u{3000}'
}

/// Every character of `s` is white space (so `s.trim()` is empty).
pub open spec fn is_blank_text(s: Seq<char>) -> bool {
    forall|i: int| 0 <= i < s.len() ==> is_white_space(#[trigger] s[i])
}

/// Whether `s` is empty once trimmed.
pub fn is_blank(s: &str) -> (b: bool)
    ensures
        b == is_blank_text(s@),
{
    let c = chars_of(s);
    for i in 0..c.len()
        invariant
            c@ == s@,
            forall|j: int| 0 <= j < i ==> is_white_space(#[trigger] c@[j]),
    {
        let x = c[i];
        let white = ('\u{9}' <= x && x <= '\u{d}') || x == ' ' || x == '\u{85}' || x == '\u{a0}'
            || x == '\u{1680}' || ('\u{2000}' <= x && x <= '\u{200a}') || x == '\u{2028}'
            || x == '\u{2029}' || x == '\u{202f}' || x == '\u{205f}' || x == '\u{3000}';
        if !white {
            assert(!is_white_space(c@[i as int]));
            return false;
        }
    }
    true
}

} // verus!
