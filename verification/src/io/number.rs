use vstd::prelude::*;

use crate::io::text::{ascii_lower, ascii_lower_seq, eq_ignore_ascii_case};

verus! {

// What `str::parse::<f64>` accepts, as the standard library documents it:
//
//   Float  ::= Sign? ( 'inf' | 'infinity' | 'nan' | Number )
//   Number ::= ( Digit+ | Digit+ '.' Digit* | Digit* '.' Digit+ ) Exp?
//   Exp    ::= 'e' Sign? Digit+
//   Sign   ::= [+-]
//   Digit  ::= [0-9]
//
// compared after ASCII lowercasing, with no surrounding whitespace. The
// library decides here whether a field is a number; turning the text into a
// value is left to the caller.

pub open spec fn is_digit(c: char) -> bool {
    '0' <= c && c <= '9'
}

pub open spec fn is_sign(c: char) -> bool {
    c == '+' || c == '-'
}

pub open spec fn is_exp_mark(c: char) -> bool {
    c == 'e' || c == 'E'
}

/// `s` without its leading sign, if it has one.
pub open spec fn unsigned_part(s: Seq<char>) -> Seq<char> {
    if s.len() > 0 && is_sign(s[0]) {
        s.drop_first()
    } else {
        s
    }
}

/// `inf`, `infinity` or `nan`, in any ASCII case.
pub open spec fn special_word(u: Seq<char>) -> bool {
    let l = ascii_lower_seq(u);
    l == seq!['i', 'n', 'f'] || l == seq!['i', 'n', 'f', 'i', 'n', 'i', 't', 'y'] || l == seq![
        'n',
        'a',
        'n',
    ]
}

/// Digits with at most one `.`, and at least one digit.
pub open spec fn mantissa_ok(m: Seq<char>) -> bool {
    &&& forall|i: int| 0 <= i < m.len() ==> is_digit(#[trigger] m[i]) || m[i] == '.'
    &&& forall|i: int, j: int| 0 <= i < j < m.len() ==> !(#[trigger] m[i] == '.' && #[trigger] m[j] == '.')
    &&& exists|i: int| 0 <= i < m.len() && is_digit(#[trigger] m[i])
}

/// An optional sign followed by at least one digit.
pub open spec fn exponent_ok(x: Seq<char>) -> bool {
    let v = unsigned_part(x);
    v.len() > 0 && forall|i: int| 0 <= i < v.len() ==> is_digit(#[trigger] v[i])
}

/// A decimal number: a mantissa, then optionally an exponent mark and an
/// exponent.
pub open spec fn decimal_number(u: Seq<char>) -> bool {
    ||| (forall|i: int| 0 <= i < u.len() ==> !is_exp_mark(#[trigger] u[i])) && mantissa_ok(u)
    ||| exists|p: int|
        0 <= p < u.len() && is_exp_mark(#[trigger] u[p]) && (forall|i: int|
            0 <= i < p ==> !is_exp_mark(#[trigger] u[i])) && mantissa_ok(u.take(p)) && exponent_ok(
            u.skip(p + 1),
        )
}

/// Whether `str::parse::<f64>` accepts `s`.
pub open spec fn float_literal(s: Seq<char>) -> bool {
    let u = unsigned_part(s);
    special_word(u) || decimal_number(u)
}

/// A plain decimal: one or more ASCII digits `0`..`9` with at most one `.`.
pub open spec fn plain_decimal(s: Seq<char>) -> bool {
    &&& forall|i: int| 0 <= i < s.len() ==> ('0' <= #[trigger] s[i] && s[i] <= '9') || s[i] == '.'
    &&& forall|i: int, j: int| 0 <= i < j < s.len() ==> !(#[trigger] s[i] == '.' && #[trigger] s[j] == '.')
    &&& exists|i: int| 0 <= i < s.len() && '0' <= #[trigger] s[i] && s[i] <= '9'
}

/// Every plain decimal is a number, with or without a leading sign, and so
/// is a plain decimal followed by `e` or `E`, an optional sign and ASCII
/// digits. Text with two `.` and nothing but digits and dots is not, nor is
/// the empty text.
#[verifier::rlimit(30)]
pub proof fn lemma_decimals_are_numbers(m: Seq<char>, sign: char, exp: Seq<char>, mark: char, exp_sign: Seq<char>)
    requires
        plain_decimal(m),
    ensures
        float_literal(m),
        (sign == '+' || sign == '-') ==> float_literal(seq![sign] + m),
        (mark == 'e' || mark == 'E') && exp.len() > 0 && (forall|i: int|
            0 <= i < exp.len() ==> '0' <= #[trigger] exp[i] && exp[i] <= '9') && (exp_sign.len() == 0
            || exp_sign == seq!['+'] || exp_sign == seq!['-']) ==> float_literal(
            m + seq![mark] + exp_sign + exp,
        ),
        !float_literal(Seq::<char>::empty()),
{
    assert(!special_word(m)) by {
        assert(ascii_lower_seq(m).len() == m.len());
        let i = choose|i: int| 0 <= i < m.len() && '0' <= #[trigger] m[i] && m[i] <= '9';
        assert(ascii_lower_seq(m)[i] == m[i]);
    }
    assert(unsigned_part(m) =~= m) by {
        if m.len() > 0 {
            assert(('0' <= m[0] && m[0] <= '9') || m[0] == '.');
        }
    }
    assert(forall|i: int| 0 <= i < m.len() ==> !is_exp_mark(#[trigger] m[i]));
    assert(mantissa_ok(m));
    if sign == '+' || sign == '-' {
        assert(unsigned_part(seq![sign] + m) =~= m);
    }
    if (mark == 'e' || mark == 'E') && exp.len() > 0 && (forall|i: int|
        0 <= i < exp.len() ==> '0' <= #[trigger] exp[i] && exp[i] <= '9') && (exp_sign.len() == 0
        || exp_sign == seq!['+'] || exp_sign == seq!['-']) {
        let u = m + seq![mark] + exp_sign + exp;
        let p = m.len() as int;
        assert(unsigned_part(u) =~= u) by {
            if m.len() > 0 {
                assert(u[0] == m[0]);
                assert(('0' <= m[0] && m[0] <= '9') || m[0] == '.');
            }
        }
        assert(is_exp_mark(u[p]));
        assert(u.take(p) =~= m);
        assert(unsigned_part(u.skip(p + 1)) =~= exp) by {
            if exp_sign.len() == 0 {
                assert(u.skip(p + 1) =~= exp);
                if exp.len() > 0 {
                    assert('0' <= exp[0] && exp[0] <= '9');
                }
            } else {
                assert(u.skip(p + 1) =~= exp_sign + exp);
            }
        }
        assert(forall|i: int| 0 <= i < p ==> !is_exp_mark(#[trigger] u[i]) && u[i] == m[i]);
        assert(!special_word(u)) by {
            let i = choose|i: int| 0 <= i < m.len() && '0' <= #[trigger] m[i] && m[i] <= '9';
            assert(u[i] == m[i]);
            assert(ascii_lower_seq(u)[i] == u[i]);
        }
        assert(decimal_number(u));
    }
    assert(!special_word(Seq::<char>::empty())) by {
        assert(ascii_lower_seq(Seq::<char>::empty()).len() == 0);
    }
    assert(unsigned_part(Seq::<char>::empty()) =~= Seq::<char>::empty());
}

/// Text made only of ASCII digits and dots, with two dots, is not a number.
pub proof fn lemma_two_dots_rejected(s: Seq<char>, i: int, j: int)
    requires
        forall|k: int| 0 <= k < s.len() ==> ('0' <= #[trigger] s[k] && s[k] <= '9') || s[k] == '.',
        0 <= i < j < s.len(),
        s[i] == '.',
        s[j] == '.',
    ensures
        !float_literal(s),
{
    assert(unsigned_part(s) =~= s) by {
        assert(('0' <= s[0] && s[0] <= '9') || s[0] == '.');
    }
    assert(!special_word(s)) by {
        assert(ascii_lower_seq(s)[i] == '.');
    }
    assert(forall|k: int| 0 <= k < s.len() ==> !is_exp_mark(#[trigger] s[k]));
    assert(!mantissa_ok(s)) by {
        assert(s[i] == '.' && s[j] == '.');
    }
}

/// A character that is no ASCII letter, no digit, and none of `.`, `+` and
/// `-` makes the whole text no number, wherever it stands (a space, a comma,
/// a `#`, an accented letter).
pub proof fn lemma_stray_character_rejected(s: Seq<char>, k: int)
    requires
        0 <= k < s.len(),
        !('0' <= s[k] && s[k] <= '9'),
        !('a' <= s[k] && s[k] <= 'z'),
        !('A' <= s[k] && s[k] <= 'Z'),
        s[k] != '.',
        s[k] != '+',
        s[k] != '-',
    ensures
        !float_literal(s),
{
    let u = unsigned_part(s);
    let q: int = if s.len() > 0 && is_sign(s[0]) { k - 1 } else { k };
    assert(0 <= q < u.len() && u[q] == s[k]);
    assert(!special_word(u)) by {
        let l = ascii_lower_seq(u);
        assert(l.len() == u.len());
        assert(l[q] == ascii_lower(u[q]));
        assert(l[q] == u[q]);
        let inf: Seq<char> = seq!['i', 'n', 'f'];
        let infinity: Seq<char> = seq!['i', 'n', 'f', 'i', 'n', 'i', 't', 'y'];
        let nan: Seq<char> = seq!['n', 'a', 'n'];
        if l == inf {
            assert(l[q] == inf[q]);
        }
        if l == infinity {
            assert(l[q] == infinity[q]);
        }
        if l == nan {
            assert(l[q] == nan[q]);
        }
    }
    assert(!mantissa_ok(u)) by {
        assert(!is_digit(u[q]) && u[q] != '.');
    }
    assert forall|p: int|
        0 <= p < u.len() && is_exp_mark(#[trigger] u[p]) implies !(mantissa_ok(u.take(p)) && exponent_ok(
        u.skip(p + 1),
    )) by {
        if q < p {
            assert(u.take(p)[q] == u[q]);
        } else if q > p {
            let x = u.skip(p + 1);
            assert(x[q - p - 1] == u[q]);
            let v = unsigned_part(x);
            if x.len() > 0 && is_sign(x[0]) {
                assert(q - p - 1 > 0);
                assert(v[q - p - 2] == u[q]);
            } else {
                assert(v[q - p - 1] == u[q]);
            }
        }
    }
}

/// `inf`, `infinity` and `nan` are numbers in any ASCII case, with or
/// without a leading sign.
pub proof fn lemma_special_words_are_numbers(w: Seq<char>, sign: char)
    requires
        ascii_lower_seq(w) == seq!['i', 'n', 'f'] || ascii_lower_seq(w) == seq![
            'i',
            'n',
            'f',
            'i',
            'n',
            'i',
            't',
            'y',
        ] || ascii_lower_seq(w) == seq!['n', 'a', 'n'],
    ensures
        float_literal(w),
        (sign == '+' || sign == '-') ==> float_literal(seq![sign] + w),
{
    assert(ascii_lower_seq(w).len() == w.len());
    assert(ascii_lower_seq(w)[0] == 'i' || ascii_lower_seq(w)[0] == 'n');
    assert(ascii_lower_seq(w)[0] == ascii_lower(w[0]));
    assert(!is_sign(w[0]));
    assert(unsigned_part(w) == w);
    if sign == '+' || sign == '-' {
        assert(unsigned_part(seq![sign] + w) =~= w);
    }
}

/// Whether `s[lo..hi]` meets `mantissa_ok`.
fn mantissa_in(s: &Vec<char>, lo: usize, hi: usize) -> (b: bool)
    requires
        lo <= hi <= s@.len(),
    ensures
        b == mantissa_ok(s@.subrange(lo as int, hi as int)),
{
    let ghost m = s@.subrange(lo as int, hi as int);
    let mut k = lo;
    let mut seen_dot = false;
    let mut seen_digit = false;
    while k < hi
        invariant
            lo <= k <= hi <= s@.len(),
            m == s@.subrange(lo as int, hi as int),
            forall|i: int| 0 <= i < k - lo ==> is_digit(#[trigger] m[i]) || m[i] == '.',
            forall|i: int, j: int| 0 <= i < j < k - lo ==> !(#[trigger] m[i] == '.' && #[trigger] m[j] == '.'),
            seen_dot == exists|i: int| 0 <= i < k - lo && #[trigger] m[i] == '.',
            seen_digit == exists|i: int| 0 <= i < k - lo && is_digit(#[trigger] m[i]),
        decreases hi - k,
    {
        let c = s[k];
        assert(m[k - lo] == c);
        if c == '.' {
            if seen_dot {
                proof {
                    let i0 = choose|i: int| 0 <= i < k - lo && m[i] == '.';
                    assert(m[i0] == '.' && m[k - lo] == '.');
                }
                return false;
            }
            seen_dot = true;
        } else if '0' <= c && c <= '9' {
            seen_digit = true;
        } else {
            assert(!(is_digit(m[k - lo]) || m[k - lo] == '.'));
            return false;
        }
        k = k + 1;
    }
    seen_digit
}

/// Whether `s[lo..]` meets `exponent_ok`.
fn exponent_in(s: &Vec<char>, lo: usize) -> (b: bool)
    requires
        lo <= s@.len(),
    ensures
        b == exponent_ok(s@.skip(lo as int)),
{
    let ghost x = s@.skip(lo as int);
    let mut k = lo;
    if k < s.len() && (s[k] == '+' || s[k] == '-') {
        k = k + 1;
    }
    assert(unsigned_part(x) =~= s@.skip(k as int));
    if k == s.len() {
        return false;
    }
    let start = k;
    while k < s.len()
        invariant
            start <= k <= s@.len(),
            lo <= start,
            x == s@.skip(lo as int),
            unsigned_part(x) == s@.skip(start as int),
            forall|i: int| start <= i < k ==> is_digit(#[trigger] s@[i]),
        decreases s@.len() - k,
    {
        if !('0' <= s[k] && s[k] <= '9') {
            assert(!is_digit(s@.skip(start as int)[k - start]));
            return false;
        }
        k = k + 1;
    }
    assert forall|i: int| 0 <= i < s@.skip(start as int).len() implies is_digit(
        #[trigger] s@.skip(start as int)[i],
    ) by {
        assert(s@.skip(start as int)[i] == s@[start + i]);
    }
    true
}

/// Whether `str::parse::<f64>` accepts the text `s`.
pub fn is_float_literal(s: &Vec<char>) -> (b: bool)
    ensures
        b == float_literal(s@),
{
    let mut lo: usize = 0;
    if s.len() > 0 && (s[0] == '+' || s[0] == '-') {
        lo = 1;
    }
    let ghost u = unsigned_part(s@);
    assert(u =~= s@.skip(lo as int));
    // the unsigned part, as its own vector
    let mut rest: Vec<char> = Vec::new();
    let mut k = lo;
    while k < s.len()
        invariant
            lo <= k <= s@.len(),
            rest@ == s@.subrange(lo as int, k as int),
        decreases s@.len() - k,
    {
        rest.push(s[k]);
        k = k + 1;
    }
    assert(rest@ =~= u);
    let inf: Vec<char> = vec!['i', 'n', 'f'];
    let infinity: Vec<char> = vec!['i', 'n', 'f', 'i', 'n', 'i', 't', 'y'];
    let nan: Vec<char> = vec!['n', 'a', 'n'];
    assert(inf@ =~= seq!['i', 'n', 'f']);
    assert(infinity@ =~= seq!['i', 'n', 'f', 'i', 'n', 'i', 't', 'y']);
    assert(nan@ =~= seq!['n', 'a', 'n']);
    if eq_ignore_ascii_case(&rest, &inf) || eq_ignore_ascii_case(&rest, &infinity)
        || eq_ignore_ascii_case(&rest, &nan) {
        return true;
    }
    // first exponent mark, if any
    let mut p: usize = 0;
    while p < rest.len() && !(rest[p] == 'e' || rest[p] == 'E')
        invariant
            p <= rest@.len(),
            forall|i: int| 0 <= i < p ==> !is_exp_mark(#[trigger] rest@[i]),
        decreases rest@.len() - p,
    {
        p = p + 1;
    }
    if p == rest.len() {
        assert(rest@.subrange(0, p as int) =~= rest@);
        let b = mantissa_in(&rest, 0, p);
        if !b {
            assert forall|q: int|
                0 <= q < u.len() && is_exp_mark(#[trigger] u[q]) && (forall|i: int|
                    0 <= i < q ==> !is_exp_mark(#[trigger] u[i])) implies !(mantissa_ok(u.take(q))
                && exponent_ok(u.skip(q + 1))) by {}
        }
        b
    } else {
        assert(rest@.subrange(0, p as int) =~= rest@.take(p as int));
        let m = mantissa_in(&rest, 0, p);
        let e = exponent_in(&rest, p + 1);
        let b = m && e;
        assert(is_exp_mark(u[p as int]));
        if !b {
            assert forall|q: int|
                0 <= q < u.len() && is_exp_mark(#[trigger] u[q]) && (forall|i: int|
                    0 <= i < q ==> !is_exp_mark(#[trigger] u[i])) implies !(mantissa_ok(u.take(q))
                && exponent_ok(u.skip(q + 1))) by {
                if q < p {
                } else if q > p {
                    assert(!is_exp_mark(u[p as int]));
                }
            }
        }
        b
    }
}

} // verus!
