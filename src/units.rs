//! Decimal rendering and parsing of base-unit amounts, in integer arithmetic.
use vstd::prelude::*;
use crate::amount::{Amount, amount_bound};
use crate::error::Web3Error;
use vstd::arithmetic::div_mod::lemma_fundamental_div_mod_converse;

verus! {

pub open spec fn pow10(e: nat) -> nat
    decreases e,
{
    if e == 0 {
        1
    } else {
        10 * pow10((e - 1) as nat)
    }
}

pub open spec fn is_digit(c: char) -> bool {
    '0' <= c && c <= '9'
}

pub open spec fn all_digits(s: Seq<char>) -> bool {
    forall|i: int| 0 <= i < s.len() ==> is_digit(#[trigger] s[i])
}

pub open spec fn digit_of(c: char) -> nat {
    (c as int - '0' as int) as nat
}

pub open spec fn digit_char(d: nat) -> char {
    if d == 0 {
        '0'
    } else if d == 1 {
        '1'
    } else if d == 2 {
        '2'
    } else if d == 3 {
        '3'
    } else if d == 4 {
        '4'
    } else if d == 5 {
        '5'
    } else if d == 6 {
        '6'
    } else if d == 7 {
        '7'
    } else if d == 8 {
        '8'
    } else {
        '9'
    }
}

/// The number that a string of decimal digits denotes, most significant first.
pub open spec fn digits_value(s: Seq<char>) -> nat
    decreases s.len(),
{
    if s.len() == 0 {
        0
    } else {
        digits_value(s.drop_last()) * 10 + digit_of(s.last())
    }
}

/// The decimal digits of `n`, left-padded with zeros to at least `w` digits.
pub open spec fn padded_digits(n: nat, w: nat) -> Seq<char>
    decreases n + w,
{
    if n < 10 && w <= 1 {
        seq![digit_char(n)]
    } else {
        padded_digits(n / 10, if w > 0 { (w - 1) as nat } else { 0 }).push(digit_char(n % 10))
    }
}

/// `s` without its trailing `'0'` characters.
pub open spec fn trim_zeros(s: Seq<char>) -> Seq<char>
    decreases s.len(),
{
    if s.len() > 0 && s.last() == '0' {
        trim_zeros(s.drop_last())
    } else {
        s
    }
}

/// The display form of `a` base units, with `decimals` digits per display unit: all of the
/// fraction below one unit, at most `short_frac` fraction digits from one unit up, trailing
/// zeros and a bare point removed.
pub open spec fn display_text(a: nat, decimals: nat, short_frac: nat) -> Seq<char> {
    let all = padded_digits(a, decimals + 1);
    let cut = all.len() - decimals;
    let whole = all.take(cut);
    let frac = all.skip(cut);
    let kept = if a >= pow10(decimals) && short_frac < decimals {
        frac.take(short_frac as int)
    } else {
        frac
    };
    let t = trim_zeros(kept);
    if t.len() == 0 {
        whole
    } else {
        whole + seq!['.'] + t
    }
}

/// `s` splits at a decimal point `p` into a whole and a fraction, both non-empty digits.
pub open spec fn split_at_point(s: Seq<char>, p: int) -> bool {
    &&& 0 < p < s.len() - 1
    &&& s[p] == '.'
    &&& all_digits(s.take(p))
    &&& all_digits(s.skip(p + 1))
}

/// How many fraction digits count: the first `decimals` of them; the rest are cut off.
pub open spec fn kept_fraction(frac_len: int, decimals: nat) -> int {
    if frac_len <= decimals {
        frac_len
    } else {
        decimals as int
    }
}

/// The number of base units that a display string denotes, if it is well formed: the whole
/// and fraction digits times `10^decimals`, fraction digits past `decimals` cut off.
pub open spec fn display_value(s: Seq<char>, decimals: nat) -> Option<nat> {
    if s.len() > 0 && all_digits(s) {
        Some(digits_value(s) * pow10(decimals))
    } else if exists|p: int| split_at_point(s, p) {
        let p = choose|p: int| split_at_point(s, p);
        let k = kept_fraction(s.len() - p - 1, decimals);
        Some(digits_value(s.take(p) + s.skip(p + 1).take(k)) * pow10((decimals - k) as nat))
    } else {
        None
    }
}

pub proof fn lemma_digit_char(d: nat)
    requires
        d < 10,
    ensures
        is_digit(digit_char(d)),
        digit_of(digit_char(d)) == d,
{
}

pub proof fn lemma_pow10_pos(a: nat)
    ensures
        pow10(a) > 0,
    decreases a,
{
    if a > 0 {
        lemma_pow10_pos((a - 1) as nat);
    }
}

pub proof fn lemma_pow10_add(a: nat, b: nat)
    ensures
        pow10(a + b) == pow10(a) * pow10(b),
    decreases b,
{
    if b == 0 {
        assert(pow10(0) == 1);
    } else {
        lemma_pow10_add(a, (b - 1) as nat);
        assert(pow10(b) == 10 * pow10((b - 1) as nat));
        assert(pow10(a + b) == 10 * pow10((a + b - 1) as nat));
        assert(pow10(a) * (10 * pow10((b - 1) as nat)) == 10 * (pow10(a) * pow10(
            (b - 1) as nat,
        ))) by (nonlinear_arith);
    }
}

/// Appending digits shifts the value of what stands before them.
pub proof fn lemma_value_concat(t: Seq<char>, u: Seq<char>)
    ensures
        digits_value(t + u) == digits_value(t) * pow10(u.len()) + digits_value(u),
    decreases u.len(),
{
    if u.len() == 0 {
        assert(t + u =~= t);
        assert(pow10(0) == 1);
    } else {
        assert(pow10(u.len()) == 10 * pow10((u.len() - 1) as nat));
        let u1 = u.drop_last();
        assert((t + u).drop_last() =~= t + u1);
        assert((t + u).last() == u.last());
        lemma_value_concat(t, u1);
        let x = digits_value(t);
        let p = pow10(u1.len());
        let y = digits_value(u1);
        assert((x * p + y) * 10 == x * (10 * p) + y * 10) by (nonlinear_arith);
    }
}

/// A string of `n` digits denotes a number below `10^n`.
pub proof fn lemma_value_bound(s: Seq<char>)
    requires
        all_digits(s),
    ensures
        digits_value(s) < pow10(s.len()),
    decreases s.len(),
{
    if s.len() > 0 {
        let s1 = s.drop_last();
        assert(all_digits(s1)) by {
            assert forall|i: int| 0 <= i < s1.len() implies is_digit(s1[i]) by {
                assert(s1[i] == s[i]);
            }
        }
        assert(is_digit(s[s.len() - 1]));
        lemma_value_bound(s1);
        assert(digits_value(s1) + 1 <= pow10(s1.len()));
        assert(digits_value(s1) * 10 + 10 <= pow10(s1.len()) * 10) by (nonlinear_arith)
            requires
                digits_value(s1) + 1 <= pow10(s1.len()),
        ;
    }
}

/// A string of `'0'` characters denotes zero, and only such a string does.
pub proof fn lemma_value_zero(s: Seq<char>)
    requires
        all_digits(s),
    ensures
        (digits_value(s) == 0) == (forall|i: int| 0 <= i < s.len() ==> s[i] == '0'),
    decreases s.len(),
{
    if s.len() > 0 {
        let s1 = s.drop_last();
        assert(all_digits(s1)) by {
            assert forall|i: int| 0 <= i < s1.len() implies is_digit(s1[i]) by {
                assert(s1[i] == s[i]);
            }
        }
        assert(is_digit(s[s.len() - 1]));
        lemma_value_zero(s1);
        if digits_value(s) == 0 {
            assert forall|i: int| 0 <= i < s.len() implies s[i] == '0' by {
                if i < s.len() - 1 {
                    assert(s1[i] == s[i]);
                }
            }
        } else if forall|i: int| 0 <= i < s.len() ==> s[i] == '0' {
            assert forall|i: int| 0 <= i < s1.len() implies s1[i] == '0' by {
                assert(s1[i] == s[i]);
            }
            assert(s[s.len() - 1] == '0');
        }
    }
}

/// `padded_digits` is a string of digits, at least as long as asked, denoting `n`.
pub proof fn lemma_padded(n: nat, w: nat)
    ensures
        all_digits(padded_digits(n, w)),
        digits_value(padded_digits(n, w)) == n,
        padded_digits(n, w).len() >= w,
        padded_digits(n, w).len() >= 1,
    decreases n + w,
{
    let s = padded_digits(n, w);
    lemma_digit_char(n % 10);
    if n < 10 && w <= 1 {
        assert(s.drop_last() =~= Seq::<char>::empty());
        assert(digits_value(Seq::<char>::empty()) == 0);
        assert(s.last() == digit_char(n));
    } else {
        let w1: nat = if w > 0 { (w - 1) as nat } else { 0 };
        lemma_padded(n / 10, w1);
        let s1 = padded_digits(n / 10, w1);
        assert(s.drop_last() =~= s1);
        assert(s.last() == digit_char(n % 10));
        assert(digits_value(s) == digits_value(s1) * 10 + digit_of(digit_char(n % 10)));
        assert forall|i: int| 0 <= i < s.len() implies is_digit(s[i]) by {
            if i < s1.len() {
                assert(s[i] == s1[i]);
            }
        }
    }
}

/// `trim_zeros(s)` is a prefix of `s` followed by zeros only, and ends in no zero.
pub proof fn lemma_trim(s: Seq<char>)
    ensures
        trim_zeros(s).len() <= s.len(),
        trim_zeros(s) =~= s.take(trim_zeros(s).len() as int),
        forall|i: int| trim_zeros(s).len() <= i < s.len() ==> s[i] == '0',
        trim_zeros(s).len() == 0 || trim_zeros(s).last() != '0',
    decreases s.len(),
{
    if s.len() > 0 && s.last() == '0' {
        let s1 = s.drop_last();
        lemma_trim(s1);
        assert forall|i: int| trim_zeros(s).len() <= i < s.len() implies s[i] == '0' by {
            if i < s.len() - 1 {
                assert(s1[i] == s[i]);
            }
        }
    } else {
        assert(s.take(s.len() as int) =~= s);
    }
}

fn digit_char_exec(d: u64) -> (r: char)
    requires
        d < 10,
    ensures
        r == digit_char(d as nat),
{
    if d == 0 {
        '0'
    } else if d == 1 {
        '1'
    } else if d == 2 {
        '2'
    } else if d == 3 {
        '3'
    } else if d == 4 {
        '4'
    } else if d == 5 {
        '5'
    } else if d == 6 {
        '6'
    } else if d == 7 {
        '7'
    } else if d == 8 {
        '8'
    } else {
        '9'
    }
}

/// Relies on std's `FromIterator<char> for String`: the string holds the characters in order.
#[verifier::external_body]
fn string_from_chars(v: &Vec<char>) -> (r: String)
    ensures
        r@ == v@,
{
    v.iter().collect()
}

/// Appends `src[from..to]` to `out`.
fn push_range(out: &mut Vec<char>, src: &Vec<char>, from: usize, to: usize)
    requires
        from <= to <= src.len(),
    ensures
        final(out)@ == old(out)@ + src@.subrange(from as int, to as int),
{
    let mut i = from;
    while i < to
        invariant
            from <= i <= to <= src.len(),
            out@ == old(out)@ + src@.subrange(from as int, i as int),
        decreases to - i,
    {
        out.push(src[i]);
        i = i + 1;
        assert(out@ =~= old(out)@ + src@.subrange(from as int, i as int));
    }
}

pub open spec fn reversed(s: Seq<char>) -> Seq<char> {
    Seq::new(s.len(), |i: int| s[s.len() - 1 - i])
}

/// The decimal digits of `a`, left-padded with zeros to at least `width` digits.
fn padded_digits_exec(a: &Amount, width: u64) -> (r: Vec<char>)
    ensures
        r@ == padded_digits(a@, width as nat),
{
    let mut x = *a;
    let mut w = width;
    let mut rev: Vec<char> = Vec::new();
    let ten = Amount::from_u64(10);
    loop
        invariant_except_break
            padded_digits(a@, width as nat) == padded_digits(x@, w as nat) + reversed(rev@),
        invariant
            ten@ == 10,
        ensures
            padded_digits(a@, width as nat) == reversed(rev@),
        decreases x@ + w,
    {
        let (q, r) = x.div_rem_10();
        let c = digit_char_exec(r);
        let ghost old_rev = rev@;
        rev.push(c);
        assert(reversed(rev@) =~= seq![c] + reversed(old_rev));
        if x.lt(&ten) && w <= 1 {
            assert(padded_digits(x@, w as nat) == seq![c]);
            assert(padded_digits(a@, width as nat) =~= reversed(rev@));
            break;
        }
        let ghost old_x = x@;
        let ghost old_w = w;
        x = q;
        w = if w > 0 { w - 1 } else { 0 };
        assert(padded_digits(old_x, old_w as nat) == padded_digits(x@, w as nat).push(c));
        assert(padded_digits(a@, width as nat) =~= padded_digits(x@, w as nat) + reversed(rev@));
    }
    let n = rev.len();
    let mut out: Vec<char> = Vec::new();
    let mut i: usize = 0;
    while i < n
        invariant
            n == rev.len(),
            i <= n,
            out@ =~= reversed(rev@).take(i as int),
        decreases n - i,
    {
        out.push(rev[n - 1 - i]);
        i = i + 1;
        assert(out@ =~= reversed(rev@).take(i as int));
    }
    assert(reversed(rev@).take(n as int) =~= reversed(rev@));
    out
}

/// Renders `a` base units in display units of `10^decimals` base units: all of the fraction
/// below one display unit, at most `short_frac` fraction digits from one unit up (cut, not
/// rounded), without trailing zeros or a bare point. Zero renders as `"0"`.
pub fn to_display(a: &Amount, decimals: u32, short_frac: u32) -> (r: String)
    ensures
        r@ == display_text(a@, decimals as nat, short_frac as nat),
{
    let ghost dn = decimals as nat;
    let all = padded_digits_exec(a, decimals as u64 + 1);
    proof {
        lemma_padded(a@, dn + 1);
    }
    let n = all.len();
    let d = decimals as usize;
    let cut = n - d;
    let ghost whole = all@.take(cut as int);
    let ghost frac = all@.skip(cut as int);
    let mut i: usize = 0;
    while i < cut && all[i] == '0'
        invariant
            i <= cut <= n == all.len(),
            forall|j: int| 0 <= j < i ==> all@[j] == '0',
        decreases cut - i,
    {
        i = i + 1;
    }
    let big = i < cut;
    proof {
        assert(whole + frac =~= all@);
        assert(all_digits(whole)) by {
            assert forall|j: int| 0 <= j < whole.len() implies is_digit(whole[j]) by {
                assert(whole[j] == all@[j]);
            }
        }
        assert(all_digits(frac)) by {
            assert forall|j: int| 0 <= j < frac.len() implies is_digit(frac[j]) by {
                assert(frac[j] == all@[cut + j]);
            }
        }
        lemma_value_concat(whole, frac);
        lemma_value_bound(frac);
        lemma_value_zero(whole);
        let vw = digits_value(whole);
        let p = pow10(dn);
        if big {
            assert(whole[i as int] == all@[i as int]);
            assert(vw >= 1);
            assert(vw * p >= p) by (nonlinear_arith)
                requires
                    vw >= 1,
            ;
        } else {
            assert forall|j: int| 0 <= j < whole.len() implies whole[j] == '0' by {
                assert(whole[j] == all@[j]);
            }
            assert(vw == 0);
            assert(vw * p == 0) by (nonlinear_arith)
                requires
                    vw == 0,
            ;
        }
        assert(big == (a@ >= pow10(dn)));
    }
    let m: usize = if big && short_frac < decimals {
        short_frac as usize
    } else {
        d
    };
    let ghost kept = frac.take(m as int);
    assert(kept.take(m as int) =~= kept);
    let mut e = m;
    while e > 0 && all[cut + e - 1] == '0'
        invariant
            e <= m <= d,
            cut + d == n == all.len(),
            kept == frac.take(m as int),
            frac == all@.skip(cut as int),
            trim_zeros(kept) == trim_zeros(kept.take(e as int)),
        decreases e,
    {
        assert(kept.take(e as int).drop_last() =~= kept.take(e - 1));
        assert(kept.take(e as int).last() == all@[cut + e - 1]);
        e = e - 1;
    }
    proof {
        assert(kept.take(0) =~= Seq::<char>::empty());
        if e > 0 {
            assert(kept.take(e as int).last() == all@[cut + e - 1]);
        }
        assert(trim_zeros(kept) == kept.take(e as int));
        assert(kept.take(e as int) =~= all@.subrange(cut as int, cut + e));
        assert(whole =~= all@.subrange(0, cut as int));
    }
    let mut out: Vec<char> = Vec::new();
    push_range(&mut out, &all, 0, cut);
    if e > 0 {
        out.push('.');
        push_range(&mut out, &all, cut, cut + e);
    }
    proof {
        let kept2 = if a@ >= pow10(dn) && (short_frac as nat) < dn {
            frac.take(short_frac as int)
        } else {
            frac
        };
        assert(frac.take(dn as int) =~= frac);
        assert(kept2 == kept);
        assert(padded_digits(a@, dn + 1) == all@);
        assert(display_text(a@, dn, short_frac as nat) == (if trim_zeros(kept).len() == 0 {
            whole
        } else {
            whole + seq!['.'] + trim_zeros(kept)
        }));
        if e == 0 {
            assert(out@ =~= whole);
        } else {
            assert(out@ =~= whole + seq!['.'] + kept.take(e as int));
        }
    }
    string_from_chars(&out)
}

/// Whether `v[from..to]` holds decimal digits only.
fn all_digits_in(v: &Vec<char>, from: usize, to: usize) -> (r: bool)
    requires
        from <= to <= v.len(),
    ensures
        r == all_digits(v@.subrange(from as int, to as int)),
{
    let mut i = from;
    while i < to
        invariant
            from <= i <= to <= v.len(),
            forall|j: int| from <= j < i ==> is_digit(#[trigger] v@[j]),
        decreases to - i,
    {
        if !('0' <= v[i] && v[i] <= '9') {
            assert(v@.subrange(from as int, to as int)[i - from] == v@[i as int]);
            return false;
        }
        i = i + 1;
    }
    assert forall|j: int| 0 <= j < to - from implies is_digit(
        #[trigger] v@.subrange(from as int, to as int)[j],
    ) by {
        assert(v@.subrange(from as int, to as int)[j] == v@[from + j]);
    }
    true
}

/// The amount that a string of digits denotes, or `None` when it needs more than 256 bits.
fn digits_to_amount(v: &Vec<char>) -> (r: Option<Amount>)
    requires
        all_digits(v@),
    ensures
        match r {
            Some(x) => x@ == digits_value(v@),
            None => digits_value(v@) >= amount_bound(),
        },
{
    let mut acc = Amount::zero();
    let mut i: usize = 0;
    assert(v@.take(0) =~= Seq::<char>::empty());
    while i < v.len()
        invariant
            i <= v.len(),
            all_digits(v@),
            acc@ == digits_value(v@.take(i as int)),
        decreases v.len() - i,
    {
        let c = v[i];
        assert(is_digit(v@[i as int]));
        let dg = (c as u32 - '0' as u32) as u64;
        let ghost head = v@.take(i as int + 1);
        assert(head.drop_last() =~= v@.take(i as int));
        assert(head.last() == c);
        match acc.checked_mul_add(10, dg) {
            Some(x) => {
                acc = x;
            },
            None => {
                proof {
                    let tail = v@.skip(i as int + 1);
                    assert(head + tail =~= v@);
                    lemma_value_concat(head, tail);
                    lemma_pow10_pos(tail.len());
                    let h = digits_value(head);
                    let q = pow10(tail.len());
                    assert(h * q >= h) by (nonlinear_arith)
                        requires
                            q >= 1,
                    ;
                }
                return None;
            },
        }
        i = i + 1;
    }
    assert(v@.take(v.len() as int) =~= v@);
    Some(acc)
}

pub open spec fn zeros(k: nat) -> Seq<char> {
    Seq::new(k, |i: int| '0')
}

/// Parses a display string (digits, optionally a point and more digits) into base units: the
/// value times `10^decimals`, in integer arithmetic, fraction digits past `decimals` cut off.
pub fn from_display(s: &str, decimals: u32) -> (r: Result<Amount, Web3Error>)
    ensures
        match r {
            Ok(x) => display_value(s@, decimals as nat) == Some(x@),
            Err(e) => e == Web3Error::InvalidAmount && match display_value(s@, decimals as nat) {
                Some(v) => v >= amount_bound(),
                None => true,
            },
        },
{
    let ghost dn = decimals as nat;
    let n = s.unicode_len();
    let mut cs: Vec<char> = Vec::new();
    let mut i: usize = 0;
    while i < n
        invariant
            n == s@.len(),
            i <= n,
            cs@ =~= s@.take(i as int),
        decreases n - i,
    {
        cs.push(s.get_char(i));
        i = i + 1;
    }
    assert(cs@ =~= s@);
    let mut p: usize = 0;
    while p < n && cs[p] != '.'
        invariant
            n == cs.len(),
            p <= n,
            forall|j: int| 0 <= j < p ==> cs@[j] != '.',
        decreases n - p,
    {
        p = p + 1;
    }
    let d = decimals as usize;
    let mut digits: Vec<char> = Vec::new();
    let z: usize;
    if p == n {
        let ok = n > 0 && all_digits_in(&cs, 0, n);
        proof {
            assert(cs@.subrange(0, n as int) =~= s@);
            assert forall|q: int| !split_at_point(s@, q) by {
                if 0 <= q < n {
                    assert(cs@[q] != '.');
                }
            }
        }
        if !ok {
            return Err(Web3Error::InvalidAmount);
        }
        push_range(&mut digits, &cs, 0, n);
        z = d;
    } else {
        let ok = p > 0 && p + 1 < n && all_digits_in(&cs, 0, p) && all_digits_in(&cs, p + 1, n);
        proof {
            assert(!is_digit(s@[p as int]));
            assert(cs@.subrange(0, p as int) =~= s@.take(p as int));
            assert(cs@.subrange(p + 1, n as int) =~= s@.skip(p + 1));
            assert forall|q: int| #[trigger] split_at_point(s@, q) implies q == p by {
                if q < p {
                    assert(cs@[q] != '.');
                } else if q > p {
                    assert(s@.take(q)[p as int] == '.');
                }
            }
        }
        if !ok {
            return Err(Web3Error::InvalidAmount);
        }
        assert(split_at_point(s@, p as int));
        let k: usize = if n - p - 1 <= d {
            n - p - 1
        } else {
            d
        };
        push_range(&mut digits, &cs, 0, p);
        push_range(&mut digits, &cs, p + 1, p + 1 + k);
        z = d - k;
    }
    let ghost base = digits@;
    assert(all_digits(base)) by {
        assert forall|j: int| 0 <= j < base.len() implies is_digit(base[j]) by {
            if p == n {
                assert(base[j] == cs@.subrange(0, n as int)[j]);
            } else if j < p {
                assert(base[j] == cs@.subrange(0, p as int)[j]);
            } else {
                assert(base[j] == cs@[j + 1]);
                assert(cs@.subrange(p + 1, n as int)[j - p] == cs@[j + 1]);
            }
        }
    }
    let mut k: usize = 0;
    while k < z
        invariant
            k <= z,
            digits@ =~= base + zeros(k as nat),
        decreases z - k,
    {
        digits.push('0');
        k = k + 1;
        assert(digits@ =~= base + zeros(k as nat));
    }
    proof {
        lemma_value_concat(base, zeros(z as nat));
        lemma_value_zero(zeros(z as nat));
        assert(digits_value(zeros(z as nat)) == 0);
        assert forall|j: int| 0 <= j < digits@.len() implies is_digit(digits@[j]) by {
            if j >= base.len() {
                assert(digits@[j] == '0');
            } else {
                assert(digits@[j] == base[j]);
            }
        }
        if p == n {
            assert(base =~= s@);
        } else {
            assert(base =~= s@.take(p as int) + s@.skip(p + 1).take(
                kept_fraction(n - p - 1, dn),
            ));
        }
    }
    match digits_to_amount(&digits) {
        Some(x) => Ok(x),
        None => Err(Web3Error::InvalidAmount),
    }
}

/// Rendering an amount for display and parsing the rendering gives the amount back, whenever
/// the rendering drops no non-zero digit: below one display unit, when the short fraction
/// keeps every digit, or when the digits past the short fraction are zero.
pub proof fn lemma_display_round_trip(a: nat, decimals: nat, short_frac: nat)
    requires
        a < pow10(decimals) || short_frac >= decimals || a % pow10(
            (decimals - short_frac) as nat,
        ) == 0,
    ensures
        display_value(display_text(a, decimals, short_frac), decimals) == Some(a),
{
    let d = decimals;
    let all = padded_digits(a, d + 1);
    lemma_padded(a, d + 1);
    let cut = all.len() - d;
    let whole = all.take(cut);
    let frac = all.skip(cut);
    assert(whole + frac =~= all);
    assert(all_digits(whole)) by {
        assert forall|j: int| 0 <= j < whole.len() implies is_digit(whole[j]) by {
            assert(whole[j] == all[j]);
        }
    }
    assert(all_digits(frac)) by {
        assert forall|j: int| 0 <= j < frac.len() implies is_digit(frac[j]) by {
            assert(frac[j] == all[cut + j]);
        }
    }
    lemma_value_concat(whole, frac);
    let m: nat = if a >= pow10(d) && short_frac < d { short_frac } else { d };
    let kept = frac.take(m as int);
    let rest = frac.skip(m as int);
    assert(kept + rest =~= frac);
    assert(all_digits(kept)) by {
        assert forall|j: int| 0 <= j < kept.len() implies is_digit(kept[j]) by {
            assert(kept[j] == frac[j]);
        }
    }
    assert(all_digits(rest)) by {
        assert forall|j: int| 0 <= j < rest.len() implies is_digit(rest[j]) by {
            assert(rest[j] == frac[m + j]);
        }
    }
    lemma_value_concat(kept, rest);
    lemma_value_bound(rest);
    let t = trim_zeros(kept);
    lemma_trim(kept);
    let tz = kept.skip(t.len() as int);
    assert(t + tz =~= kept);
    assert(all_digits(tz) && forall|j: int| 0 <= j < tz.len() ==> tz[j] == '0') by {
        assert forall|j: int| 0 <= j < tz.len() implies tz[j] == '0' by {
            assert(tz[j] == kept[t.len() + j]);
        }
    }
    lemma_value_zero(tz);
    lemma_value_concat(t, tz);
    assert(all_digits(t)) by {
        assert forall|j: int| 0 <= j < t.len() implies is_digit(t[j]) by {
            assert(t[j] == kept[j]);
        }
    }
    let w = digits_value(whole);
    let k = digits_value(kept);
    let r = digits_value(rest);
    let tv = digits_value(t);
    let tl = t.len();
    let pd = pow10(d);
    let pm = pow10(m);
    let pdm = pow10((d - m) as nat);
    let pmt = pow10((m - tl) as nat);
    let pdt = pow10((d - tl) as nat);
    let pt = pow10(tl);
    lemma_pow10_add(m, (d - m) as nat);
    lemma_pow10_add((m - tl) as nat, (d - m) as nat);
    lemma_pow10_add(tl, (d - tl) as nat);
    lemma_pow10_pos((d - m) as nat);
    assert(m + (d - m) == d);
    assert((m - tl) + (d - m) == d - tl);
    assert(tl + (d - tl) == d);
    assert(a == w * pd + k * pdm + r);
    assert(k == tv * pmt);
    if m == d {
        assert(rest.len() == 0);
        assert(r == 0);
    } else {
        assert(a % pdm == 0);
        assert(a == (w * pm + k) * pdm + r) by (nonlinear_arith)
            requires
                a == w * pd + k * pdm + r,
                pd == pm * pdm,
        ;
        lemma_fundamental_div_mod_converse(a as int, pdm as int, (w * pm + k) as int, r as int);
    }
    assert(r == 0);
    let text = display_text(a, d, short_frac);
    if tl == 0 {
        assert(text == whole);
        assert(tv == 0);
        assert(k == 0) by (nonlinear_arith)
            requires
                k == tv * pmt,
                tv == 0,
        ;
        assert(k * pdm == 0) by (nonlinear_arith)
            requires
                k == 0,
        ;
        assert(whole.len() > 0);
    } else {
        assert(text == whole + seq!['.'] + t);
        let p = cut as int;
        assert(!is_digit(text[p]));
        assert(text.take(p) =~= whole);
        assert(text.skip(p + 1) =~= t);
        assert(split_at_point(text, p));
        assert(text.skip(p + 1).take(kept_fraction(text.len() - p - 1, d)) =~= t);
        assert forall|q: int| #[trigger] split_at_point(text, q) implies q == p by {
            if q < p {
                assert(text[q] == whole[q]);
            } else if q > p {
                assert(text.take(q)[p] == '.');
            }
        }
        assert(text.take(p) + text.skip(p + 1) =~= whole + t);
        lemma_value_concat(whole, t);
        assert((w * pt + tv) * pdt == a) by (nonlinear_arith)
            requires
                a == w * pd + k * pdm,
                k == tv * pmt,
                pd == pt * pdt,
                pdt == pmt * pdm,
        ;
    }
}

} // verus!
