use vstd::prelude::*;

use crate::io::text::chars_of;
use crate::model::point::texts;

verus! {

/// Names reserved for tool output (anything starting with `_`) and for the
/// point id (`id`); they are never feature columns.
pub open spec fn is_reserved_name(s: Seq<char>) -> bool {
    s == seq!['i', 'd'] || (s.len() > 0 && s[0] == '_')
}

/// The names that are not reserved, in order.
pub open spec fn feature_names(names: Seq<Seq<char>>) -> Seq<Seq<char>> {
    names.filter(|s: Seq<char>| !is_reserved_name(s))
}

/// The two name lists hold the same names (as sets: order and repeats do not
/// matter).
pub open spec fn same_name_set(a: Seq<Seq<char>>, b: Seq<Seq<char>>) -> bool {
    forall|s: Seq<char>| a.contains(s) <==> b.contains(s)
}

/// A feature name is one of the names it was taken from.
pub proof fn lemma_feature_in_names(names: Seq<Seq<char>>, s: Seq<char>)
    requires
        feature_names(names).contains(s),
    ensures
        names.contains(s),
{
    names.lemma_filter_contains_rev(|s: Seq<char>| !is_reserved_name(s), s);
}

/// No feature name is reserved: `id` and names starting with `_` never
/// become feature columns, and every other name does.
pub proof fn lemma_features_not_reserved(names: Seq<Seq<char>>)
    ensures
        forall|s: Seq<char>| #[trigger] feature_names(names).contains(s) ==> !is_reserved_name(s) && names.contains(s),
        forall|s: Seq<char>| names.contains(s) && !is_reserved_name(s) ==> #[trigger] feature_names(names).contains(s),
{
    broadcast use Seq::lemma_filter_contains_rev;
    assert forall|s: Seq<char>| #[trigger] feature_names(names).contains(s) implies !is_reserved_name(s) && names.contains(s) by {
        let f = feature_names(names);
        let k = choose|k: int| 0 <= k < f.len() && f[k] == s;
        names.lemma_filter_pred(|s: Seq<char>| !is_reserved_name(s), k);
        lemma_feature_in_names(names, s);
    }
    assert forall|s: Seq<char>| names.contains(s) && !is_reserved_name(s) implies #[trigger] feature_names(names).contains(s) by {
        let k = choose|k: int| 0 <= k < names.len() && names[k] == s;
        names.lemma_filter_contains(|s: Seq<char>| !is_reserved_name(s), k);
    }
}

/// Which header names become feature columns, said without `is_reserved_name`:
/// every name other than `id` whose first character is not `_` (the empty
/// name included) is a feature column, and `id` and names starting with `_`
/// are not.
pub proof fn lemma_feature_columns_exactly(names: Seq<Seq<char>>, s: Seq<char>)
    requires
        names.contains(s),
    ensures
        feature_names(names).contains(s) <==> (s != seq!['i', 'd'] && (s.len() == 0 || s[0] != '_')),
{
    lemma_features_not_reserved(names);
}

/// `k` is the first position of `s` in `v`.
pub open spec fn is_first_index(v: Seq<Seq<char>>, s: Seq<char>, k: int) -> bool {
    &&& 0 <= k < v.len()
    &&& v[k] == s
    &&& forall|j: int| 0 <= j < k ==> v[j] != s
}

/// The first position of `s` in `v` (meaningful when `v` contains `s`).
pub open spec fn first_index(v: Seq<Seq<char>>, s: Seq<char>) -> int {
    choose|k: int| is_first_index(v, s, k)
}

/// The first position is unique, so `first_index` names it.
pub proof fn lemma_first_index(v: Seq<Seq<char>>, s: Seq<char>, k: int)
    requires
        is_first_index(v, s, k),
    ensures
        first_index(v, s) == k,
{
    let c = first_index(v, s);
    assert(is_first_index(v, s, c));
    if c < k {
        assert(v[c] != s);
    } else if c > k {
        assert(v[k] != s);
    }
}

/// The `id` column's name.
pub open spec fn id_name() -> Seq<char> {
    seq!['i', 'd']
}

/// Whether `name` is reserved (`id`, or starting with `_`).
pub fn is_reserved(name: &str) -> (b: bool)
    ensures
        b == is_reserved_name(name@),
        b <==> (name@ == seq!['i', 'd'] || (name@.len() > 0 && name@[0] == '_')),
{
    let c = chars_of(name);
    if c.len() > 0 && c[0] == '_' {
        return true;
    }
    let b = c.len() == 2 && c[0] == 'i' && c[1] == 'd';
    if b {
        assert(c@ =~= seq!['i', 'd']);
    }
    b
}

/// The names among `names` that are not reserved, in order.
pub fn feature_columns(names: &Vec<String>) -> (out: Vec<String>)
    ensures
        texts(out@) == feature_names(texts(names@)),
{
    let mut out: Vec<String> = Vec::new();
    let ghost all = texts(names@);
    for k in 0..names.len()
        invariant
            all == texts(names@),
            texts(out@) == feature_names(all.take(k as int)),
    {
        let name = &names[k];
        let reserved = is_reserved(name.as_str());
        proof {
            reveal(Seq::filter);
            assert(all.take(k + 1).drop_last() =~= all.take(k as int));
            assert(all.take(k + 1).last() == name@);
        }
        if !reserved {
            let ghost before = out@;
            out.push(name.clone());
            assert(texts(out@) =~= texts(before).push(name@));
        }
    }
    assert(all.take(names@.len() as int) =~= all);
    out
}

/// The first position of `s` in `v`, if any.
pub fn position_of(v: &Vec<String>, s: &String) -> (r: Option<usize>)
    ensures
        match r {
            Some(k) => is_first_index(texts(v@), s@, k as int),
            None => !texts(v@).contains(s@),
        },
{
    let mut k: usize = 0;
    while k < v.len()
        invariant
            k <= v@.len(),
            forall|j: int| 0 <= j < k ==> texts(v@)[j] != s@,
        decreases v@.len() - k,
    {
        if v[k] == *s {
            return Some(k);
        }
        k = k + 1;
    }
    None
}

/// Whether `s` occurs in `v`.
pub fn contains_name(v: &Vec<String>, s: &String) -> (b: bool)
    ensures
        b == texts(v@).contains(s@),
{
    match position_of(v, s) {
        Some(_) => true,
        None => false,
    }
}

/// Whether every name of `a` occurs in `b`.
fn all_names_in(a: &Vec<String>, b: &Vec<String>) -> (r: bool)
    ensures
        r == forall|s: Seq<char>| texts(a@).contains(s) ==> texts(b@).contains(s),
{
    for k in 0..a.len()
        invariant
            forall|j: int| 0 <= j < k ==> texts(b@).contains(#[trigger] texts(a@)[j]),
    {
        if !contains_name(b, &a[k]) {
            assert(texts(a@).contains(texts(a@)[k as int]));
            return false;
        }
    }
    assert forall|s: Seq<char>| texts(a@).contains(s) implies texts(b@).contains(s) by {
        let j = choose|j: int| 0 <= j < texts(a@).len() && texts(a@)[j] == s;
        assert(texts(b@).contains(texts(a@)[j]));
    }
    true
}

/// Whether `a` and `b` hold the same set of names.
pub fn same_names(a: &Vec<String>, b: &Vec<String>) -> (r: bool)
    ensures
        r == same_name_set(texts(a@), texts(b@)),
{
    all_names_in(a, b) && all_names_in(b, a)
}

/// A copy of a list of names.
pub fn copy_names(v: &Vec<String>) -> (out: Vec<String>)
    ensures
        texts(out@) == texts(v@),
{
    let mut out: Vec<String> = Vec::new();
    for k in 0..v.len()
        invariant
            texts(out@) == texts(v@).take(k as int),
    {
        let ghost before = out@;
        out.push(v[k].clone());
        assert(texts(out@) =~= texts(before).push(v@[k as int]@));
        assert(texts(v@).take(k + 1) =~= texts(v@).take(k as int).push(v@[k as int]@));
    }
    assert(texts(v@).take(v@.len() as int) =~= texts(v@));
    out
}

} // verus!
