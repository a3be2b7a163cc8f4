//! Characters of strings, and numerals compared by value.

use vstd::prelude::*;
use vstd::string::StrSliceExecFns;

use crate::pattern::is_digit;

verus! {

broadcast use vstd::string::group_string_axioms;

/// The characters of `s`, in order.
pub(crate) fn chars_of(s: &str) -> (v: Vec<char>)
    ensures
        v@ == s@,
{
    let mut v: Vec<char> = Vec::new();
    for c in it: s.chars()
        invariant
            v@ == it.seq().take(it.index() as int),
            it.seq() == s@,
    {
        v.push(c);
    }
    v
}

/// The position of the first dot in `s`, or its length when it has none.
pub open spec fn dot_position(s: Seq<char>) -> nat
    decreases s.len(),
{
    if s.len() == 0 || s[0] == '.' {
        0
    } else {
        1 + dot_position(s.drop_first())
    }
}

/// `t` without its leading zeros.
pub open spec fn without_leading_zeros(t: Seq<char>) -> Seq<char>
    decreases t.len(),
{
    if t.len() > 0 && t[0] == '0' {
        without_leading_zeros(t.drop_first())
    } else {
        t
    }
}

/// `t` without its trailing zeros.
pub open spec fn without_trailing_zeros(t: Seq<char>) -> Seq<char>
    decreases t.len(),
{
    if t.len() > 0 && t.last() == '0' {
        without_trailing_zeros(t.drop_last())
    } else {
        t
    }
}

/// What fixes the value of a numeral: its digits before the dot without
/// leading zeros, and its digits after the dot without trailing zeros. So
/// `1`, `01`, `1.` and `1.0` all have the key of `1`.
pub open spec fn numeral_key(s: Seq<char>) -> (Seq<char>, Seq<char>) {
    let d = dot_position(s);
    let fraction = if d < s.len() { s.skip(d + 1 as int) } else { Seq::empty() };
    (without_leading_zeros(s.take(d as int)), without_trailing_zeros(fraction))
}

proof fn lemma_dot_position(s: Seq<char>, i: nat)
    requires
        i <= s.len(),
        forall|k: int| 0 <= k < i ==> s[k] != '.',
        i == s.len() || s[i as int] == '.',
    ensures
        dot_position(s) == i,
    decreases i,
{
    if i > 0 {
        let t = s.drop_first();
        assert forall|k: int| 0 <= k < i - 1 implies t[k] != '.' by {
            assert(t[k] == s[k + 1]);
        }
        if i < s.len() {
            assert(t[i - 1] == s[i as int]);
        }
        lemma_dot_position(t, (i - 1) as nat);
    }
}

proof fn lemma_leading_zeros(t: Seq<char>, j: nat)
    requires
        j <= t.len(),
        forall|k: int| 0 <= k < j ==> t[k] == '0',
        j == t.len() || t[j as int] != '0',
    ensures
        without_leading_zeros(t) == t.skip(j as int),
    decreases j,
{
    if j == 0 {
        assert(t.skip(0) =~= t);
    } else {
        let u = t.drop_first();
        assert forall|k: int| 0 <= k < j - 1 implies u[k] == '0' by {
            assert(u[k] == t[k + 1]);
        }
        if j < t.len() {
            assert(u[j - 1] == t[j as int]);
        }
        lemma_leading_zeros(u, (j - 1) as nat);
        assert(u.skip(j - 1) =~= t.skip(j as int));
    }
}

proof fn lemma_trailing_zeros(t: Seq<char>, e: nat)
    requires
        e <= t.len(),
        forall|k: int| e <= k < t.len() ==> t[k] == '0',
        e == 0 || t[e - 1] != '0',
    ensures
        without_trailing_zeros(t) == t.take(e as int),
    decreases t.len() - e,
{
    if e == t.len() {
        assert(t.take(e as int) =~= t);
    } else {
        let u = t.drop_last();
        assert forall|k: int| e <= k < u.len() implies u[k] == '0' by {
            assert(u[k] == t[k]);
        }
        if e > 0 {
            assert(u[e - 1] == t[e - 1]);
        }
        lemma_trailing_zeros(u, e);
        assert(u.take(e as int) =~= t.take(e as int));
    }
}

/// The bounds, in `v`, of the two parts of its numeral key.
fn numeral_bounds(v: &Vec<char>) -> (r: (usize, usize, usize, usize))
    ensures
        r.0 <= r.1 <= v.len(),
        r.2 <= r.3 <= v.len(),
        numeral_key(v@) == (v@.subrange(r.0 as int, r.1 as int), v@.subrange(r.2 as int, r.3 as int)),
{
    let len = v.len();
    let mut d: usize = 0;
    while d < len && v[d] != '.'
        invariant
            d <= len,
            len == v.len(),
            forall|k: int| 0 <= k < d ==> v@[k] != '.',
        decreases len - d,
    {
        d = d + 1;
    }
    proof {
        lemma_dot_position(v@, d as nat);
    }
    let mut j: usize = 0;
    while j < d && v[j] == '0'
        invariant
            j <= d <= len,
            len == v.len(),
            forall|k: int| 0 <= k < j ==> v@[k] == '0',
        decreases d - j,
    {
        j = j + 1;
    }
    let ghost whole = v@.take(d as int);
    proof {
        assert forall|k: int| 0 <= k < j implies whole[k] == '0' by {
            assert(whole[k] == v@[k]);
        }
        if j < d {
            assert(whole[j as int] == v@[j as int]);
        }
        lemma_leading_zeros(whole, j as nat);
        assert(whole.skip(j as int) =~= v@.subrange(j as int, d as int));
    }
    let fs: usize = if d < len { d + 1 } else { len };
    let mut e: usize = len;
    while e > fs && v[e - 1] == '0'
        invariant
            fs <= e <= len,
            len == v.len(),
            forall|k: int| e <= k < len ==> v@[k] == '0',
        decreases e - fs,
    {
        e = e - 1;
    }
    let ghost fraction = v@.subrange(fs as int, len as int);
    proof {
        if d < len {
            assert(fraction =~= v@.skip(d + 1 as int));
        } else {
            assert(fraction =~= Seq::<char>::empty());
        }
        assert forall|k: int| e - fs <= k < fraction.len() implies fraction[k] == '0' by {
            assert(fraction[k] == v@[fs + k]);
        }
        if e > fs {
            assert(fraction[e - fs - 1] == v@[e - 1]);
        }
        lemma_trailing_zeros(fraction, (e - fs) as nat);
        assert(fraction.take(e - fs) =~= v@.subrange(fs as int, e as int));
    }
    (j, d, fs, e)
}

fn same_range(a: &Vec<char>, alo: usize, ahi: usize, b: &Vec<char>, blo: usize, bhi: usize) -> (r: bool)
    requires
        alo <= ahi <= a.len(),
        blo <= bhi <= b.len(),
    ensures
        r == (a@.subrange(alo as int, ahi as int) == b@.subrange(blo as int, bhi as int)),
{
    if ahi - alo != bhi - blo {
        assert(a@.subrange(alo as int, ahi as int).len() != b@.subrange(blo as int, bhi as int).len());
        return false;
    }
    let n = ahi - alo;
    let ghost sa = a@.subrange(alo as int, ahi as int);
    let ghost sb = b@.subrange(blo as int, bhi as int);
    let mut k: usize = 0;
    while k < n
        invariant
            sa == a@.subrange(alo as int, ahi as int),
            sb == b@.subrange(blo as int, bhi as int),
            n == ahi - alo,
            n == bhi - blo,
            alo <= ahi <= a.len(),
            blo <= bhi <= b.len(),
            k <= n,
            forall|q: int| 0 <= q < k ==> #[trigger] sa[q] == sb[q],
        decreases n - k,
    {
        if a[alo + k] != b[blo + k] {
            assert(sa[k as int] != sb[k as int]);
            return false;
        }
        k = k + 1;
    }
    assert(a@.subrange(alo as int, ahi as int) =~= b@.subrange(blo as int, bhi as int));
    true
}

/// Whether two numerals have the same value: the same key.
pub fn numerals_equal(a: &String, b: &String) -> (r: bool)
    ensures
        r == (numeral_key(a@) == numeral_key(b@)),
{
    let va = chars_of(a.as_str());
    let vb = chars_of(b.as_str());
    let ka = numeral_bounds(&va);
    let kb = numeral_bounds(&vb);
    let whole = same_range(&va, ka.0, ka.1, &vb, kb.0, kb.1);
    let fraction = same_range(&va, ka.2, ka.3, &vb, kb.2, kb.3);
    whole && fraction
}

/// The digit of a whole part `w` at the place `10^k`: counted from the
/// right, and `0` beyond its first digit.
pub open spec fn whole_place(w: Seq<char>, k: nat) -> char {
    if k < w.len() { w[w.len() - 1 - k] } else { '0' }
}

/// The digit of a fraction `f` at the place `10^-(k+1)`: counted from the
/// left, and `0` beyond its last digit.
pub open spec fn fraction_place(f: Seq<char>, k: nat) -> char {
    if k < f.len() { f[k as int] } else { '0' }
}

/// The numeral written with whole part `w` and, when `dot`, a dot and the
/// fraction `f`.
pub open spec fn numeral_text(w: Seq<char>, dot: bool, f: Seq<char>) -> Seq<char> {
    if dot { w + seq!['.'] + f } else { w }
}

proof fn lemma_whole_places_kept(w: Seq<char>, k: nat)
    ensures
        whole_place(without_leading_zeros(w), k) == whole_place(w, k),
    decreases w.len(),
{
    if w.len() > 0 && w[0] == '0' {
        let u = w.drop_first();
        lemma_whole_places_kept(u, k);
        if k < u.len() {
            assert(u[u.len() - 1 - k] == w[w.len() - 1 - k]);
        }
    }
}

proof fn lemma_fraction_places_kept(f: Seq<char>, k: nat)
    ensures
        fraction_place(without_trailing_zeros(f), k) == fraction_place(f, k),
    decreases f.len(),
{
    if f.len() > 0 && f.last() == '0' {
        let u = f.drop_last();
        lemma_fraction_places_kept(u, k);
        if k < u.len() {
            assert(u[k as int] == f[k as int]);
        }
    }
}

proof fn lemma_no_leading_zero(w: Seq<char>)
    ensures
        without_leading_zeros(w).len() == 0 || without_leading_zeros(w)[0] != '0',
    decreases w.len(),
{
    if w.len() > 0 && w[0] == '0' {
        lemma_no_leading_zero(w.drop_first());
    }
}

proof fn lemma_no_trailing_zero(f: Seq<char>)
    ensures
        without_trailing_zeros(f).len() == 0 || without_trailing_zeros(f).last() != '0',
    decreases f.len(),
{
    if f.len() > 0 && f.last() == '0' {
        lemma_no_trailing_zero(f.drop_last());
    }
}

proof fn lemma_whole_places_determine(x: Seq<char>, y: Seq<char>)
    requires
        x.len() == 0 || x[0] != '0',
        y.len() == 0 || y[0] != '0',
        forall|k: nat| whole_place(x, k) == whole_place(y, k),
    ensures
        x == y,
{
    if x.len() > y.len() {
        assert(whole_place(x, (x.len() - 1) as nat) == x[0]);
        assert(whole_place(y, (x.len() - 1) as nat) == '0');
    } else if y.len() > x.len() {
        assert(whole_place(y, (y.len() - 1) as nat) == y[0]);
        assert(whole_place(x, (y.len() - 1) as nat) == '0');
    } else {
        assert forall|i: int| 0 <= i < x.len() implies x[i] == y[i] by {
            assert(whole_place(x, (x.len() - 1 - i) as nat) == whole_place(y, (x.len() - 1 - i) as nat));
        }
        assert(x =~= y);
    }
}

proof fn lemma_fraction_places_determine(x: Seq<char>, y: Seq<char>)
    requires
        x.len() == 0 || x.last() != '0',
        y.len() == 0 || y.last() != '0',
        forall|k: nat| fraction_place(x, k) == fraction_place(y, k),
    ensures
        x == y,
{
    if x.len() > y.len() {
        assert(fraction_place(x, (x.len() - 1) as nat) == x.last());
        assert(fraction_place(y, (x.len() - 1) as nat) == '0');
    } else if y.len() > x.len() {
        assert(fraction_place(y, (y.len() - 1) as nat) == y.last());
        assert(fraction_place(x, (y.len() - 1) as nat) == '0');
    } else {
        assert forall|i: int| 0 <= i < x.len() implies x[i] == y[i] by {
            assert(fraction_place(x, i as nat) == fraction_place(y, i as nat));
        }
        assert(x =~= y);
    }
}

proof fn lemma_key_of_text(w: Seq<char>, dot: bool, f: Seq<char>)
    requires
        forall|i: int| 0 <= i < w.len() ==> w[i] != '.',
        !dot ==> f.len() == 0,
    ensures
        numeral_key(numeral_text(w, dot, f)) == (without_leading_zeros(w), without_trailing_zeros(f)),
{
    let s = numeral_text(w, dot, f);
    assert forall|k: int| 0 <= k < w.len() implies s[k] != '.' by {
        assert(s[k] == w[k]);
    }
    if dot {
        assert(s[w.len() as int] == '.');
    }
    lemma_dot_position(s, w.len());
    assert(s.take(w.len() as int) =~= w);
    if dot {
        assert(s.skip(w.len() + 1 as int) =~= f);
    } else {
        assert(f =~= Seq::<char>::empty());
    }
}

/// Two numerals have the same key exactly when they have the same digit
/// at every decimal place, missing places counting as `0`: every digit
/// of the whole part and every digit of the fraction counts, and only
/// leading zeros of the whole part and trailing zeros of the fraction do
/// not.
pub proof fn law_numeral_key_by_places(
    w1: Seq<char>,
    dot1: bool,
    f1: Seq<char>,
    w2: Seq<char>,
    dot2: bool,
    f2: Seq<char>,
)
    requires
        forall|i: int| 0 <= i < w1.len() ==> w1[i] != '.',
        forall|i: int| 0 <= i < w2.len() ==> w2[i] != '.',
        !dot1 ==> f1.len() == 0,
        !dot2 ==> f2.len() == 0,
    ensures
        (numeral_key(numeral_text(w1, dot1, f1)) == numeral_key(numeral_text(w2, dot2, f2))) == (
            (forall|k: nat| whole_place(w1, k) == whole_place(w2, k))
            && (forall|k: nat| fraction_place(f1, k) == fraction_place(f2, k))),
{
    lemma_key_of_text(w1, dot1, f1);
    lemma_key_of_text(w2, dot2, f2);
    let a1 = without_leading_zeros(w1);
    let a2 = without_leading_zeros(w2);
    let b1 = without_trailing_zeros(f1);
    let b2 = without_trailing_zeros(f2);
    assert forall|k: nat| whole_place(a1, k) == whole_place(w1, k) && whole_place(a2, k) == whole_place(w2, k) by {
        lemma_whole_places_kept(w1, k);
        lemma_whole_places_kept(w2, k);
    }
    assert forall|k: nat| fraction_place(b1, k) == fraction_place(f1, k) && fraction_place(b2, k) == fraction_place(f2, k) by {
        lemma_fraction_places_kept(f1, k);
        lemma_fraction_places_kept(f2, k);
    }
    let places = (forall|k: nat| whole_place(w1, k) == whole_place(w2, k))
        && (forall|k: nat| fraction_place(f1, k) == fraction_place(f2, k));
    if places {
        lemma_no_leading_zero(w1);
        lemma_no_leading_zero(w2);
        lemma_no_trailing_zero(f1);
        lemma_no_trailing_zero(f2);
        assert forall|k: nat| whole_place(a1, k) == whole_place(a2, k) by {}
        assert forall|k: nat| fraction_place(b1, k) == fraction_place(b2, k) by {}
        lemma_whole_places_determine(a1, a2);
        lemma_fraction_places_determine(b1, b2);
    }
}

/// The value of a decimal digit; `0` for any other character.
pub open spec fn digit_value(c: char) -> int {
    if c == '1' { 1 }
    else if c == '2' { 2 }
    else if c == '3' { 3 }
    else if c == '4' { 4 }
    else if c == '5' { 5 }
    else if c == '6' { 6 }
    else if c == '7' { 7 }
    else if c == '8' { 8 }
    else if c == '9' { 9 }
    else { 0 }
}

/// The whole number that the digits `s` write in base ten.
pub open spec fn digits_value(s: Seq<char>) -> int
    decreases s.len(),
{
    if s.len() == 0 {
        0
    } else {
        digits_value(s.drop_last()) * 10 + digit_value(s.last())
    }
}

/// Ten to the power `n`.
pub open spec fn pow10(n: nat) -> int
    decreases n,
{
    if n == 0 { 1 } else { 10 * pow10((n - 1) as nat) }
}

/// Whether every character of `s` is a decimal digit.
pub open spec fn all_digits(s: Seq<char>) -> bool {
    forall|i: int| 0 <= i < s.len() ==> is_digit(#[trigger] s[i])
}

proof fn lemma_pow10(a: nat, b: nat)
    ensures
        pow10(a + b) == pow10(a) * pow10(b),
        pow10(a) > 0,
    decreases a,
{
    if a > 0 {
        lemma_pow10((a - 1) as nat, b);
        assert(pow10(a + b) == 10 * pow10((a - 1 + b) as nat));
        assert(10 * (pow10((a - 1) as nat) * pow10(b)) == (10 * pow10((a - 1) as nat)) * pow10(b)) by (nonlinear_arith);
        assert(pow10((a - 1) as nat) > 0);
    }
}

proof fn lemma_value_append(x: Seq<char>, y: Seq<char>)
    ensures
        digits_value(x + y) == digits_value(x) * pow10(y.len()) + digits_value(y),
    decreases y.len(),
{
    if y.len() == 0 {
        assert(x + y =~= x);
    } else {
        let y1 = y.drop_last();
        assert((x + y).drop_last() =~= x + y1);
        assert((x + y).last() == y.last());
        lemma_value_append(x, y1);
        let a = digits_value(x);
        let p = pow10(y1.len());
        let b = digits_value(y1);
        let d = digit_value(y.last());
        assert(pow10(y.len()) == 10 * p);
        assert((a * p + b) * 10 + d == a * (10 * p) + (b * 10 + d)) by (nonlinear_arith);
    }
}

proof fn lemma_zeros_value(n: nat)
    ensures
        digits_value(Seq::new(n, |i: int| '0')) == 0,
    decreases n,
{
    if n > 0 {
        assert(Seq::new(n, |i: int| '0').drop_last() =~= Seq::new((n - 1) as nat, |i: int| '0'));
        lemma_zeros_value((n - 1) as nat);
    }
}

proof fn lemma_value_unique(x: Seq<char>, y: Seq<char>)
    requires
        x.len() == y.len(),
        all_digits(x),
        all_digits(y),
        digits_value(x) == digits_value(y),
    ensures
        x == y,
    decreases x.len(),
{
    if x.len() > 0 {
        let x1 = x.drop_last();
        let y1 = y.drop_last();
        let a = digits_value(x1);
        let b = digits_value(y1);
        let d = digit_value(x.last());
        let e = digit_value(y.last());
        assert(is_digit(x[x.len() - 1]));
        assert(is_digit(y[y.len() - 1]));
        assert(0 <= d <= 9 && 0 <= e <= 9);
        assert(a == b) by (nonlinear_arith)
            requires
                a * 10 + d == b * 10 + e,
                0 <= d <= 9,
                0 <= e <= 9,
        ;
        assert(x.last() == y.last());
        assert forall|i: int| 0 <= i < x1.len() implies is_digit(#[trigger] x1[i]) && is_digit(y1[i]) by {
            assert(x1[i] == x[i] && y1[i] == y[i]);
        }
        lemma_value_unique(x1, y1);
        assert forall|i: int| 0 <= i < x.len() implies x[i] == y[i] by {
            if i < x1.len() {
                assert(x1[i] == x[i] && y1[i] == y[i]);
            }
        }
        assert(x =~= y);
    }
}

proof fn lemma_cancel(x: int, y: int, c: int)
    requires
        c > 0,
    ensures
        (x * c == y * c) == (x == y),
{
    if x * c == y * c {
        assert(x == y) by (nonlinear_arith)
            requires
                x * c == y * c,
                c > 0,
        ;
    }
}

/// The numeral `w` (dot `f`) written with `lead` zeros before it and
/// `trail` zeros after it, as one run of digits.
pub open spec fn padded_digits(w: Seq<char>, f: Seq<char>, lead: nat, trail: nat) -> Seq<char> {
    Seq::new(lead, |i: int| '0') + ((w + f) + Seq::new(trail, |i: int| '0'))
}

proof fn lemma_padded(w: Seq<char>, f: Seq<char>, width: nat, places: nat)
    requires
        w.len() <= width,
        f.len() <= places,
        all_digits(w),
        all_digits(f),
    ensures
        ({
            let p = padded_digits(w, f, (width - w.len()) as nat, (places - f.len()) as nat);
            &&& p.len() == width + places
            &&& all_digits(p)
            &&& digits_value(p) == digits_value(w + f) * pow10((places - f.len()) as nat)
            &&& forall|i: int| 0 <= i < width ==> #[trigger] p[i] == whole_place(w, (width - 1 - i) as nat)
            &&& forall|i: int| width <= i < width + places ==> #[trigger] p[i] == fraction_place(f, (i - width) as nat)
        }),
{
    let lead = (width - w.len()) as nat;
    let trail = (places - f.len()) as nat;
    let z = Seq::new(lead, |i: int| '0');
    let z2 = Seq::new(trail, |i: int| '0');
    let m = (w + f) + z2;
    let p = padded_digits(w, f, lead, trail);
    lemma_value_append(z, m);
    lemma_zeros_value(lead);
    lemma_value_append(w + f, z2);
    lemma_zeros_value(trail);
    assert forall|i: int| 0 <= i < p.len() implies is_digit(#[trigger] p[i]) by {
        if i >= lead + w.len() && i < lead + w.len() + f.len() {
            assert(p[i] == f[i - lead - w.len()]);
        } else if i >= lead && i < lead + w.len() {
            assert(p[i] == w[i - lead]);
        }
    }
    assert forall|i: int| 0 <= i < width implies #[trigger] p[i] == whole_place(w, (width - 1 - i) as nat) by {
        if i >= lead {
            assert(p[i] == w[i - lead]);
        }
    }
    assert forall|i: int| width <= i < width + places implies #[trigger] p[i] == fraction_place(f, (i - width) as nat) by {
        if i < width + f.len() {
            assert(p[i] == f[i - width]);
        }
    }
}

/// Two numerals of decimal digits have the same key exactly when they
/// write the same number: with whole parts `w1`, `w2` and fractions `f1`,
/// `f2`, when `(w1 f1) / 10^|f1|` equals `(w2 f2) / 10^|f2|`, each read as
/// a whole number in base ten.
pub proof fn law_numeral_key_by_value(
    w1: Seq<char>,
    dot1: bool,
    f1: Seq<char>,
    w2: Seq<char>,
    dot2: bool,
    f2: Seq<char>,
)
    requires
        all_digits(w1),
        all_digits(f1),
        all_digits(w2),
        all_digits(f2),
        !dot1 ==> f1.len() == 0,
        !dot2 ==> f2.len() == 0,
    ensures
        (numeral_key(numeral_text(w1, dot1, f1)) == numeral_key(numeral_text(w2, dot2, f2))) == (
            digits_value(w1 + f1) * pow10(f2.len()) == digits_value(w2 + f2) * pow10(f1.len())),
{
    assert forall|i: int| 0 <= i < w1.len() implies w1[i] != '.' by {
        assert(is_digit(w1[i]));
    }
    assert forall|i: int| 0 <= i < w2.len() implies w2[i] != '.' by {
        assert(is_digit(w2[i]));
    }
    law_numeral_key_by_places(w1, dot1, f1, w2, dot2, f2);
    let width: nat = if w1.len() >= w2.len() { w1.len() } else { w2.len() };
    let places: nat = if f1.len() >= f2.len() { f1.len() } else { f2.len() };
    lemma_padded(w1, f1, width, places);
    lemma_padded(w2, f2, width, places);
    let p1 = padded_digits(w1, f1, (width - w1.len()) as nat, (places - f1.len()) as nat);
    let p2 = padded_digits(w2, f2, (width - w2.len()) as nat, (places - f2.len()) as nat);
    let v1 = digits_value(w1 + f1);
    let v2 = digits_value(w2 + f2);
    let t1 = (places - f1.len()) as nat;
    let t2 = (places - f2.len()) as nat;
    lemma_pow10(f1.len(), t1);
    lemma_pow10(f2.len(), t2);
    lemma_pow10(places, 0);
    assert(f1.len() + t1 == places && f2.len() + t2 == places);
    let q1 = pow10(f1.len());
    let q2 = pow10(f2.len());
    let r1 = pow10(t1);
    let r2 = pow10(t2);
    let big = pow10(places);
    // both sides scaled to `places` fraction digits
    assert(q1 * q2 > 0) by (nonlinear_arith)
        requires
            q1 > 0,
            q2 > 0,
    ;
    lemma_cancel(v1 * r1, v2 * r2, q1 * q2);
    assert(v1 * r1 * (q1 * q2) == (v1 * q2) * (q1 * r1)) by (nonlinear_arith);
    assert(v2 * r2 * (q1 * q2) == (v2 * q1) * (q2 * r2)) by (nonlinear_arith);
    assert(q1 * r1 == big && q2 * r2 == big);
    lemma_cancel(v1 * q2, v2 * q1, big);
    let same_value = v1 * q2 == v2 * q1;
    assert(same_value == (digits_value(p1) == digits_value(p2)));
    let places_equal = (forall|k: nat| whole_place(w1, k) == whole_place(w2, k))
        && (forall|k: nat| fraction_place(f1, k) == fraction_place(f2, k));
    if places_equal {
        assert forall|i: int| 0 <= i < p1.len() implies p1[i] == p2[i] by {
            if i < width {
                assert(whole_place(w1, (width - 1 - i) as nat) == whole_place(w2, (width - 1 - i) as nat));
            } else {
                assert(fraction_place(f1, (i - width) as nat) == fraction_place(f2, (i - width) as nat));
            }
        }
        assert(p1 =~= p2);
    }
    if same_value {
        lemma_value_unique(p1, p2);
        assert forall|k: nat| whole_place(w1, k) == whole_place(w2, k) by {
            if k < width {
                assert(p1[width - 1 - k as int] == p2[width - 1 - k as int]);
            }
        }
        assert forall|k: nat| fraction_place(f1, k) == fraction_place(f2, k) by {
            if k < places {
                assert(p1[width + k as int] == p2[width + k as int]);
            }
        }
    }
}

} // verus!
