//! Numerals as the query language writes them (`-?[0-9]+(\.[0-9]+)?`) and the
//! canonical decimal text under which they are shown.
use vstd::prelude::*;

use crate::text::{is_ascii_digit, push_char};

verus! {

/// Number of leading ASCII digits of `s`.
pub open spec fn lead_digits(s: Seq<char>) -> nat
    decreases s.len(),
{
    if s.len() > 0 && is_ascii_digit(s[0]) {
        1 + lead_digits(s.drop_first())
    } else {
        0
    }
}

/// `s` without leading zeros, keeping at least one digit.
pub open spec fn strip_leading_zeros(s: Seq<char>) -> Seq<char>
    decreases s.len(),
{
    if s.len() > 1 && s[0] == '0' {
        strip_leading_zeros(s.drop_first())
    } else {
        s
    }
}

/// `s` without trailing zeros.
pub open spec fn strip_trailing_zeros(s: Seq<char>) -> Seq<char>
    decreases s.len(),
{
    if s.len() > 0 && s.last() == '0' {
        strip_trailing_zeros(s.drop_last())
    } else {
        s
    }
}

/// Canonical decimal text of a numeral: sign kept, integer part without
/// leading zeros, fraction without trailing zeros (and no `.` when empty).
/// This is how the numeral's value is displayed (`1.50` → `1.5`, `007` → `7`,
/// `2.0` → `2`, `-0` → `-0`).
pub open spec fn canonical_numeral(s: Seq<char>) -> Seq<char> {
    let neg = s.len() > 0 && s[0] == '-';
    let body = if neg {
        s.drop_first()
    } else {
        s
    };
    let d = lead_digits(body) as int;
    let int_part = strip_leading_zeros(body.subrange(0, d));
    let frac = if d < body.len() {
        strip_trailing_zeros(body.subrange(d + 1, body.len() as int))
    } else {
        Seq::<char>::empty()
    };
    let sign = if neg {
        seq!['-']
    } else {
        Seq::<char>::empty()
    };
    if frac.len() > 0 {
        sign + int_part + seq!['.'] + frac
    } else {
        sign + int_part
    }
}

proof fn lemma_lead_digits_skip(s: Seq<char>, k: int)
    requires
        0 <= k <= s.len(),
        forall|j: int| 0 <= j < k ==> is_ascii_digit(#[trigger] s[j]),
    ensures
        lead_digits(s) == k + lead_digits(s.subrange(k, s.len() as int)),
    decreases k,
{
    if k > 0 {
        assert(s.drop_first().subrange(k - 1, s.drop_first().len() as int) == s.subrange(
            k,
            s.len() as int,
        ));
        assert forall|j: int| 0 <= j < k - 1 implies is_ascii_digit(#[trigger] s.drop_first()[j]) by {
            assert(s.drop_first()[j] == s[j + 1]);
        }
        lemma_lead_digits_skip(s.drop_first(), k - 1);
    } else {
        assert(s.subrange(0, s.len() as int) == s);
    }
}

proof fn lemma_strip_leading(s: Seq<char>, k: int)
    requires
        0 <= k < s.len(),
        forall|j: int| 0 <= j < k ==> #[trigger] s[j] == '0',
    ensures
        strip_leading_zeros(s) == strip_leading_zeros(s.subrange(k, s.len() as int)),
    decreases k,
{
    if k > 0 {
        assert(s.drop_first().subrange(k - 1, s.drop_first().len() as int) == s.subrange(
            k,
            s.len() as int,
        ));
        assert forall|j: int| 0 <= j < k - 1 implies #[trigger] s.drop_first()[j] == '0' by {
            assert(s.drop_first()[j] == s[j + 1]);
        }
        lemma_strip_leading(s.drop_first(), k - 1);
    } else {
        assert(s.subrange(0, s.len() as int) == s);
    }
}

proof fn lemma_strip_trailing(s: Seq<char>, k: int)
    requires
        0 <= k <= s.len(),
        forall|j: int| k <= j < s.len() ==> #[trigger] s[j] == '0',
    ensures
        strip_trailing_zeros(s) == strip_trailing_zeros(s.subrange(0, k)),
    decreases s.len() - k,
{
    if k < s.len() {
        assert(s.drop_last().subrange(0, k) == s.subrange(0, k));
        assert forall|j: int| k <= j < s.drop_last().len() implies #[trigger] s.drop_last()[j]
            == '0' by {
            assert(s.drop_last()[j] == s[j]);
        }
        lemma_strip_trailing(s.drop_last(), k);
    } else {
        assert(s.subrange(0, k) == s);
    }
}

/// Appends `s[lo..hi]` to `out`.
fn push_range(out: &mut String, s: &Vec<char>, lo: usize, hi: usize)
    requires
        lo <= hi <= s.len(),
    ensures
        final(out)@ == old(out)@ + s@.subrange(lo as int, hi as int),
{
    crate::text::push_chars(out, s, lo, hi);
}

fn digits_end(s: &Vec<char>, b0: usize) -> (e: usize)
    requires
        b0 <= s.len(),
    ensures
        b0 <= e <= s.len(),
        forall|j: int| b0 <= j < e ==> is_ascii_digit(#[trigger] s@[j]),
        e == s.len() || !is_ascii_digit(s@[e as int]),
{
    let mut e = b0;
    while e < s.len() && '0' <= s[e] && s[e] <= '9'
        invariant
            b0 <= e <= s.len(),
            forall|j: int| b0 <= j < e ==> is_ascii_digit(#[trigger] s@[j]),
        decreases s.len() - e,
    {
        e += 1;
    }
    e
}

fn zeros_end(s: &Vec<char>, b0: usize, e: usize) -> (z: usize)
    requires
        b0 < e <= s.len(),
    ensures
        b0 <= z < e,
        forall|j: int| b0 <= j < z ==> #[trigger] s@[j] == '0',
        z + 1 == e || s@[z as int] != '0',
{
    let mut z = b0;
    while z + 1 < e && s[z] == '0'
        invariant
            b0 <= z < e <= s.len(),
            forall|j: int| b0 <= j < z ==> #[trigger] s@[j] == '0',
        decreases e - z,
    {
        z += 1;
    }
    z
}

fn frac_end(s: &Vec<char>, e: usize) -> (f: usize)
    requires
        e < s.len(),
    ensures
        e + 1 <= f <= s.len(),
        forall|j: int| f <= j < s.len() ==> #[trigger] s@[j] == '0',
        f == e + 1 || s@[f - 1] != '0',
{
    let mut f = s.len();
    while f > e + 1 && s[f - 1] == '0'
        invariant
            e + 1 <= f <= s.len(),
            forall|j: int| f <= j < s.len() ==> #[trigger] s@[j] == '0',
        decreases f,
    {
        f -= 1;
    }
    f
}

proof fn lemma_int_part(g: Seq<char>, b0: int, z: int, e: int)
    requires
        0 <= b0 <= z <= e <= g.len(),
        forall|j: int| b0 <= j < e ==> is_ascii_digit(#[trigger] g[j]),
        e == g.len() || !is_ascii_digit(g[e]),
        forall|j: int| b0 <= j < z ==> #[trigger] g[j] == '0',
        e == b0 ==> z == b0,
        e > b0 ==> z < e && (z + 1 == e || g[z] != '0'),
    ensures
        ({
            let body = g.subrange(b0, g.len() as int);
            let d = lead_digits(body) as int;
            &&& d == e - b0
            &&& strip_leading_zeros(body.subrange(0, d)) == g.subrange(z, e)
        }),
{
    let body = g.subrange(b0, g.len() as int);
    let d = e - b0;
    assert forall|j: int| 0 <= j < d implies is_ascii_digit(#[trigger] body[j]) by {
        assert(body[j] == g[b0 + j]);
    }
    lemma_lead_digits_skip(body, d);
    let rest = body.subrange(d, body.len() as int);
    if rest.len() > 0 {
        assert(rest[0] == g[e]);
    }
    assert(lead_digits(rest) == 0);
    let ip = body.subrange(0, d);
    if d > 0 {
        assert forall|j: int| 0 <= j < z - b0 implies #[trigger] ip[j] == '0' by {
            assert(ip[j] == g[b0 + j]);
        }
        lemma_strip_leading(ip, z - b0);
        let u = ip.subrange(z - b0, d);
        assert(u == g.subrange(z, e));
        assert(strip_leading_zeros(u) == u);
    } else {
        assert(ip.len() == 0);
        assert(g.subrange(z, e).len() == 0);
        assert(ip == g.subrange(z, e));
    }
}

proof fn lemma_frac_part(g: Seq<char>, e: int, f: int)
    requires
        0 <= e < g.len(),
        e + 1 <= f <= g.len(),
        forall|j: int| f <= j < g.len() ==> #[trigger] g[j] == '0',
        f == e + 1 || g[f - 1] != '0',
    ensures
        strip_trailing_zeros(g.subrange(e + 1, g.len() as int)) == g.subrange(e + 1, f),
{
    let fr = g.subrange(e + 1, g.len() as int);
    assert forall|j: int| f - e - 1 <= j < fr.len() implies #[trigger] fr[j] == '0' by {
        assert(fr[j] == g[e + 1 + j]);
    }
    lemma_strip_trailing(fr, f - e - 1);
    let u = fr.subrange(0, f - e - 1);
    assert(u == g.subrange(e + 1, f));
    if u.len() > 0 {
        assert(u.last() == g[f - 1]);
    }
    assert(strip_trailing_zeros(u) == u);
}

/// Appends the canonical text of the numeral `s` to `out`.
pub fn push_canonical_numeral(out: &mut String, s: &Vec<char>)
    ensures
        final(out)@ == old(out)@ + canonical_numeral(s@),
{
    let ghost g = s@;
    let neg = s.len() > 0 && s[0] == '-';
    let b0: usize = if neg {
        1
    } else {
        0
    };
    let e = digits_end(s, b0);
    let z = if e > b0 {
        zeros_end(s, b0, e)
    } else {
        b0
    };
    let has_frac = e < s.len();
    let f = if has_frac {
        frac_end(s, e)
    } else {
        e
    };
    proof {
        lemma_int_part(g, b0 as int, z as int, e as int);
        let body = g.subrange(b0 as int, g.len() as int);
        assert(neg ==> body == g.drop_first());
        assert(!neg ==> body == g);
        if has_frac {
            lemma_frac_part(g, e as int, f as int);
            assert(body.subrange((e - b0) + 1, body.len() as int) == g.subrange(
                e + 1,
                g.len() as int,
            ));
        }
    }
    if neg {
        push_char(out, '-');
    }
    push_range(out, s, z, e);
    if has_frac && f > e + 1 {
        push_char(out, '.');
        push_range(out, s, e + 1, f);
    }
}

} // verus!

verus! {

// ── Text that `str::parse::<f64>` accepts ───────────────────────────────────
/// An exponent `e[+-]?[0-9]+` (already lowercased).
pub open spec fn is_exponent(r: Seq<char>) -> bool {
    r.len() >= 2 && r[0] == 'e' && {
        let rest = if r[1] == '+' || r[1] == '-' {
            r.subrange(2, r.len() as int)
        } else {
            r.drop_first()
        };
        rest.len() >= 1 && crate::text::all_digits(rest)
    }
}

/// `Digit+ | Digit+ '.' Digit* | Digit* '.' Digit+`, then an optional exponent.
pub open spec fn is_decimal(b: Seq<char>) -> bool {
    let d1 = lead_digits(b) as int;
    let r1 = b.subrange(d1, b.len() as int);
    if r1.len() > 0 && r1[0] == '.' {
        let r1b = r1.drop_first();
        let d2 = lead_digits(r1b) as int;
        let r2 = r1b.subrange(d2, r1b.len() as int);
        d1 + d2 >= 1 && (r2.len() == 0 || is_exponent(r2))
    } else {
        d1 >= 1 && (r1.len() == 0 || is_exponent(r1))
    }
}

/// The grammar under which `str::parse::<f64>` succeeds (case-insensitively):
/// `Sign? ('inf' | 'infinity' | 'nan' | Number)`.
pub open spec fn is_float_text(s: Seq<char>) -> bool {
    let l = crate::text::lower(s);
    let b = if l.len() > 0 && (l[0] == '+' || l[0] == '-') {
        l.drop_first()
    } else {
        l
    };
    b == "inf"@ || b == "infinity"@ || b == "nan"@ || is_decimal(b)
}

/// Number of ASCII digits of `s` from index `j` on.
fn lead_digits_from(s: &Vec<char>, j: usize) -> (n: usize)
    requires
        j <= s.len(),
    ensures
        n == lead_digits(s@.subrange(j as int, s.len() as int)),
        j + n <= s.len(),
{
    let mut k = j;
    while k < s.len() && '0' <= s[k] && s[k] <= '9'
        invariant
            j <= k <= s.len(),
            forall|i: int| j <= i < k ==> is_ascii_digit(#[trigger] s@[i]),
        decreases s.len() - k,
    {
        k += 1;
    }
    proof {
        let t = s@.subrange(j as int, s.len() as int);
        assert forall|i: int| 0 <= i < k - j implies is_ascii_digit(#[trigger] t[i]) by {
            assert(t[i] == s@[j + i]);
        }
        lemma_lead_digits_skip(t, (k - j) as int);
        let rest = t.subrange(k - j, t.len() as int);
        if rest.len() > 0 {
            assert(rest[0] == s@[k as int]);
        }
        assert(lead_digits(rest) == 0);
    }
    k - j
}

#[verifier::loop_isolation(false)]
fn exponent_from(s: &Vec<char>, j: usize) -> (b: bool)
    requires
        j <= s.len(),
    ensures
        b == is_exponent(s@.subrange(j as int, s.len() as int)),
{
    let ghost r = s@.subrange(j as int, s.len() as int);
    if s.len() - j < 2 || s[j] != 'e' {
        return false;
    }
    assert(r[0] == s@[j as int] && r[1] == s@[j + 1]);
    let start = if s[j + 1] == '+' || s[j + 1] == '-' {
        j + 2
    } else {
        j + 1
    };
    let ghost rest = s@.subrange(start as int, s.len() as int);
    assert(rest == (if r[1] == '+' || r[1] == '-' {
        r.subrange(2, r.len() as int)
    } else {
        r.drop_first()
    }));
    if start >= s.len() {
        return false;
    }
    let mut k = start;
    while k < s.len()
        invariant
            start <= k <= s.len(),
            forall|i: int| start <= i < k ==> is_ascii_digit(#[trigger] s@[i]),
        decreases s.len() - k,
    {
        if !('0' <= s[k] && s[k] <= '9') {
            assert(rest[k - start] == s@[k as int]);
            return false;
        }
        k += 1;
    }
    assert forall|i: int| 0 <= i < rest.len() implies is_ascii_digit(#[trigger] rest[i]) by {
        assert(rest[i] == s@[start + i]);
    }
    true
}

/// Whether `str::parse::<f64>` accepts `s`.
pub fn float_text(s: &Vec<char>) -> (b: bool)
    ensures
        b == is_float_text(s@),
{
    let l = crate::text::lower_chars(s);
    let signed = l.len() > 0 && (l[0] == '+' || l[0] == '-');
    let start: usize = if signed {
        1
    } else {
        0
    };
    let ghost body = l@.subrange(start as int, l.len() as int);
    assert(signed ==> body == l@.drop_first());
    assert(!signed ==> body == l@);
    let body_v = {
        let mut v: Vec<char> = Vec::new();
        let mut i = start;
        while i < l.len()
            invariant
                start <= i <= l.len(),
                v@ == l@.subrange(start as int, i as int),
            decreases l.len() - i,
        {
            v.push(l[i]);
            i += 1;
        }
        v
    };
    assert(body_v@ == body);
    if crate::text::chars_eq_str(&body_v, "inf") || crate::text::chars_eq_str(&body_v, "infinity")
        || crate::text::chars_eq_str(&body_v, "nan") {
        return true;
    }
    let d1 = lead_digits_from(&body_v, 0);
    assert(body_v@.subrange(0, body_v@.len() as int) == body_v@);
    let ghost r1 = body_v@.subrange(d1 as int, body_v@.len() as int);
    if d1 < body_v.len() && body_v[d1] == '.' {
        assert(r1[0] == body_v@[d1 as int]);
        let d2 = lead_digits_from(&body_v, d1 + 1);
        assert(r1.drop_first() == body_v@.subrange(d1 + 1, body_v@.len() as int));
        let e = d1 + 1 + d2;
        assert(r1.drop_first().subrange(d2 as int, r1.drop_first().len() as int) == body_v@.subrange(
            e as int,
            body_v@.len() as int,
        ));
        d1 + d2 >= 1 && (e == body_v.len() || exponent_from(&body_v, e))
    } else {
        d1 >= 1 && (d1 == body_v.len() || exponent_from(&body_v, d1))
    }
}

} // verus!
