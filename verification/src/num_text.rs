use crate::digits::{
    all_digits, char_of_digit, digits_of, lemma_digits_len_bound, lemma_digits_of_digits,
    lemma_digits_roundtrip, seq_to_nat, zeros,
};
use crate::error::NumError;
use crate::num::{pow10, pow10_u64, Dec, MAX_SCALE};
use crate::text::{is_digit_char, is_numchar, spec_find};
use vstd::prelude::*;

verus! {

/// The padded fraction text: the digits of `n` behind enough zeros to
/// fill `width` characters.
pub open spec fn padded_digits(n: nat, width: nat) -> Seq<char> {
    zeros((width - digits_of(n).len()) as nat) + digits_of(n)
}

/// The canonical text of a decimal: an optional minus sign, the whole
/// part, and the fraction digits behind a point when the scale is
/// positive.
pub open spec fn spec_fmt_dec(d: Dec) -> Seq<char> {
    let sign: Seq<char> = if d.neg {
        seq!['-']
    } else {
        Seq::empty()
    };
    if d.scale == 0 {
        sign + digits_of(d.mant as nat)
    } else {
        let ip = (d.mant as nat) / pow10(d.scale as nat);
        let fp = (d.mant as nat) % pow10(d.scale as nat);
        sign + digits_of(ip) + seq!['.'] + padded_digits(fp, d.scale as nat)
    }
}

/// `s` without trailing zero characters.
pub open spec fn strip_trailing_zeros(s: Seq<char>) -> Seq<char>
    decreases s.len(),
{
    if s.len() > 0 && s.last() == '0' {
        strip_trailing_zeros(s.drop_last())
    } else {
        s
    }
}

/// The whole part of a numeric body: everything before the first point,
/// or the whole body without one.
pub open spec fn spec_int_part(body: Seq<char>) -> Seq<char> {
    match spec_find(body, '.') {
        None => body,
        Some(i) => body.take(i),
    }
}

/// The fraction part of a numeric body: everything behind the first
/// point, or empty without one.
pub open spec fn spec_frac_part(body: Seq<char>) -> Seq<char> {
    match spec_find(body, '.') {
        None => Seq::empty(),
        Some(i) => body.skip(i + 1),
    }
}

/// A numeric body is digits, at most one point between them, and at
/// least one digit in all.
pub open spec fn spec_body_ok(body: Seq<char>) -> bool {
    &&& all_digits(spec_int_part(body))
    &&& all_digits(spec_frac_part(body))
    &&& spec_int_part(body).len() + spec_frac_part(body).len() >= 1
}

/// Parsing a numeric text into an exact decimal: an optional leading
/// minus sign, decimal digits with at most one point, brought to
/// canonical form. A value needing more than [`MAX_SCALE`] fraction
/// digits or a mantissa beyond `u64` is out of range.
pub open spec fn spec_parse_dec(s: Seq<char>) -> Result<Dec, NumError> {
    if s.len() == 0 {
        Err(NumError::Empty)
    } else {
        let neg = s[0] == '-';
        let body = if neg {
            s.skip(1)
        } else {
            s
        };
        if !spec_body_ok(body) {
            Err(NumError::Invalid)
        } else {
            let fp = strip_trailing_zeros(spec_frac_part(body));
            let m = seq_to_nat(spec_int_part(body)) * pow10(fp.len()) + seq_to_nat(fp);
            if fp.len() > MAX_SCALE || m > u64::MAX {
                Err(NumError::OutOfRange)
            } else {
                Ok(Dec { neg: neg && m != 0, mant: m as u64, scale: fp.len() as u32 })
            }
        }
    }
}

/// Appends the canonical text of a decimal to a string.
pub fn append_dec(s: &mut String, d: &Dec)
    requires
        d.wf(),
    ensures
        final(s)@ == old(s)@ + spec_fmt_dec(*d),
{
    if d.neg {
        proof {
            reveal_strlit("-");
        }
        s.append("-");
    }
    if d.scale == 0 {
        crate::digits::append_u64(s, d.mant);
        proof {
            assert(s@ =~= old(s)@ + spec_fmt_dec(*d));
        }
    } else {
        let p = pow10_u64(d.scale);
        proof {
            crate::num::lemma_pow10_monotone(1, d.scale as nat);
            assert(pow10(1) == 10) by {
                reveal_with_fuel(pow10, 2);
            }
        }
        let ip = d.mant / p;
        let fp = d.mant % p;
        proof {
            lemma_digits_len_bound(fp as nat, d.scale as nat);
        }
        crate::digits::append_u64(s, ip);
        proof {
            reveal_strlit(".");
        }
        s.append(".");
        crate::digits::append_padded(s, fp, d.scale);
        proof {
            assert(s@ =~= old(s)@ + spec_fmt_dec(*d));
        }
    }
}

impl Dec {
    /// The canonical text of this decimal.
    pub fn render(&self) -> (r: String)
        requires
            self.wf(),
        ensures
            r@ == spec_fmt_dec(*self),
    {
        let mut s = String::new();
        append_dec(&mut s, self);
        proof {
            assert(Seq::<char>::empty() + spec_fmt_dec(*self) =~= spec_fmt_dec(*self));
        }
        s
    }
}

proof fn lemma_strip_at(s: Seq<char>, k: int)
    requires
        0 <= k <= s.len(),
        forall|j: int| k <= j < s.len() ==> s[j] == '0',
        k > 0 ==> s[k - 1] != '0',
    ensures
        strip_trailing_zeros(s) == s.take(k),
    decreases s.len() - k,
{
    if k == s.len() {
        if s.len() > 0 && s.last() == '0' {
            lemma_strip_at(s.drop_last(), k - 1);
            assert(s.drop_last().take(k - 1) =~= s.take(k - 1));
            assert(s[k - 1] != '0');
            assert(s.last() == '0');
        } else {
            assert(s.take(k) =~= s);
        }
    } else {
        assert(s.last() == '0');
        lemma_strip_at(s.drop_last(), k);
        assert(s.drop_last().take(k) =~= s.take(k));
    }
}

proof fn lemma_seq_to_nat_step(s: Seq<char>, k: int)
    requires
        0 <= k < s.len(),
    ensures
        seq_to_nat(s.take(k + 1)) == seq_to_nat(s.take(k)) * 10 + crate::digits::digit_val(s[k]),
{
    assert(s.take(k + 1).drop_last() =~= s.take(k));
    assert(s.take(k + 1).last() == s[k]);
}

/// The mantissa a whole part and a stripped fraction denote: zero only
/// with an empty fraction, and never a multiple of ten beside a
/// non-empty fraction.
proof fn lemma_mant_wf(a: Seq<char>, b: Seq<char>)
    requires
        all_digits(b),
        b.len() > 0 ==> b.last() != '0',
    ensures
        seq_to_nat(a) * pow10(b.len()) + seq_to_nat(b) == 0 ==> b.len() == 0,
        b.len() > 0 ==> (seq_to_nat(a) * pow10(b.len()) + seq_to_nat(b)) % 10 != 0,
{
    if b.len() > 0 {
        let av = seq_to_nat(a) as int;
        let bv = seq_to_nat(b) as int;
        let m = av * pow10(b.len()) + bv;
        crate::digits::lemma_seq_to_nat_last_digit(b);
        assert(bv % 10 == crate::digits::digit_val(b.last()));
        assert(crate::digits::digit_val(b.last()) != 0) by {
            if crate::digits::digit_val(b.last()) == 0 {
                assert(crate::text::is_digit_char(b.last()));
                assert(b.last() as int == 48);
                assert(b.last() == '0');
            }
        }
        let p = pow10((b.len() - 1) as nat) as int;
        assert(pow10(b.len()) == 10 * p);
        vstd::arithmetic::mul::lemma_mul_is_associative(av, p, 10);
        assert(av * (p * 10) == (av * p) * 10);
        let t = av * p;
        vstd::arithmetic::div_mod::lemma_fundamental_div_mod(bv, 10);
        let q = bv / 10;
        let r = bv % 10;
        assert(m == (t + q) * 10 + r) by (nonlinear_arith)
            requires
                m == t * 10 + bv,
                bv == q * 10 + r,
        ;
        vstd::arithmetic::div_mod::lemma_fundamental_div_mod_converse(m, 10, t + q, r);
        assert(m % 10 == r);
        assert(m != 0);
    }
}

/// Whether every character of `s` in `[from, to)` is a digit.
#[verifier::loop_isolation(false)]
fn all_digits_range(s: &str, from: usize, to: usize) -> (r: bool)
    requires
        from <= to <= s@.len(),
    ensures
        r == all_digits(s@.subrange(from as int, to as int)),
{
    let ghost sub = s@.subrange(from as int, to as int);
    let mut i = from;
    while i < to
        invariant
            from <= i <= to <= s@.len(),
            forall|j: int| from <= j < i ==> crate::text::is_digit_char(#[trigger] s@[j]),
        decreases to - i,
    {
        if !crate::text::char_is_digit(s.get_char(i)) {
            proof {
                assert(sub[i - from] == s@[i as int]);
            }
            return false;
        }
        i = i + 1;
    }
    proof {
        assert forall|j: int| 0 <= j < sub.len() implies crate::text::is_digit_char(
            #[trigger] sub[j],
        ) by {
            assert(sub[j] == s@[j + from]);
        }
    }
    true
}

proof fn lemma_acc_decompose(acc: nat, sub: Seq<char>, k: int)
    requires
        0 <= k <= sub.len(),
    ensures
        acc * pow10(sub.len()) + seq_to_nat(sub) == (acc * pow10(k as nat) + seq_to_nat(
            sub.take(k),
        )) * pow10((sub.len() - k) as nat) + seq_to_nat(sub.skip(k)),
{
    let t = sub.take(k);
    let sk = sub.skip(k);
    assert(sub =~= t + sk);
    crate::digits::lemma_seq_to_nat_append(t, sk);
    crate::num::lemma_pow10_adds(k as nat, (sub.len() - k) as nat);
    let a = acc as int;
    let p1 = pow10(k as nat) as int;
    let p2 = pow10((sub.len() - k) as nat) as int;
    let vt = seq_to_nat(t) as int;
    assert((a * p1 + vt) * p2 == a * (p1 * p2) + vt * p2) by (nonlinear_arith);
}

/// Extends `acc` by the digits of `s` in `[from, to)`: the result is
/// `acc * 10^(to-from)` plus the value of those digits, or `None` when
/// that does not fit in a `u64`.
#[verifier::loop_isolation(false)]
fn accumulate_digits(s: &str, from: usize, to: usize, acc: u64) -> (r: Option<u64>)
    requires
        from <= to <= s@.len(),
        all_digits(s@.subrange(from as int, to as int)),
    ensures
        ({
            let total = (acc as nat) * pow10((to - from) as nat) + seq_to_nat(
                s@.subrange(from as int, to as int),
            );
            match r {
                Some(v) => v == total,
                None => total > u64::MAX,
            }
        }),
{
    let ghost sub = s@.subrange(from as int, to as int);
    let ghost total = (acc as nat) * pow10((to - from) as nat) + seq_to_nat(sub);
    let mut cur: u128 = acc as u128;
    let mut i = from;
    proof {
        assert(pow10(0) == 1);
        assert(sub.take(0) =~= Seq::<char>::empty());
        assert(seq_to_nat(Seq::<char>::empty()) == 0);
        assert((acc as nat) * 1 == acc as nat);
    }
    while i < to
        invariant
            from <= i <= to,
            cur == (acc as nat) * pow10((i - from) as nat) + seq_to_nat(sub.take(i - from)),
            cur <= u64::MAX,
        decreases to - i,
    {
        let c = s.get_char(i);
        proof {
            assert(sub[i - from] == s@[i as int]);
            assert(crate::text::is_digit_char(s@[i as int]));
        }
        let d = (c as u32) - 48;
        cur = cur * 10 + (d as u128);
        proof {
            lemma_seq_to_nat_step(sub, i - from);
            assert(pow10((i + 1 - from) as nat) == 10 * pow10((i - from) as nat));
            vstd::arithmetic::mul::lemma_mul_is_associative(
                acc as int,
                pow10((i - from) as nat) as int,
                10,
            );
            assert(crate::digits::digit_val(sub[i - from]) == d);
            assert(cur == (acc as nat) * pow10((i + 1 - from) as nat) + seq_to_nat(
                sub.take(i + 1 - from),
            ));
        }
        if cur > (u64::MAX as u128) {
            proof {
                lemma_acc_decompose(acc as nat, sub, i + 1 - from);
                crate::num::lemma_pow10_monotone(0, (sub.len() - (i + 1 - from)) as nat);
                vstd::arithmetic::mul::lemma_mul_inequality(
                    1,
                    pow10((sub.len() - (i + 1 - from)) as nat) as int,
                    cur as int,
                );
            }
            return None;
        }
        i = i + 1;
    }
    proof {
        assert(sub.take(to - from) =~= sub);
    }
    Some(cur as u64)
}

/// Parsing a numeric text, verified against [`spec_parse_dec`].
#[verifier::loop_isolation(false)]
#[verifier::rlimit(100)]
pub fn parse_dec_str(s: &str) -> (r: Result<Dec, NumError>)
    ensures
        r == spec_parse_dec(s@),
        r matches Ok(d) ==> d.wf(),
{
    let n = s.unicode_len();
    if n == 0 {
        return Err(NumError::Empty);
    }
    let neg = s.get_char(0) == '-';
    let start: usize = if neg {
        1
    } else {
        0
    };
    let ghost body = if neg {
        s@.skip(1)
    } else {
        s@
    };
    proof {
        assert(s@.skip(0) =~= s@);
        assert(body == s@.skip(start as int));
    }
    // Locate the decimal point: the whole part ends there, or at the end.
    let dot = crate::text::find_char_from(s, start, '.');
    let ie: usize = match dot {
        Some(i) => i,
        None => n,
    };
    proof {
        crate::text::lemma_find_props(body, '.');
        assert(spec_int_part(body) =~= s@.subrange(start as int, ie as int));
        if dot is Some {
            assert(spec_frac_part(body) =~= s@.subrange(ie + 1, n as int));
        } else {
            assert(spec_frac_part(body) =~= s@.subrange(n as int, n as int));
        }
    }
    let ghost ips = s@.subrange(start as int, ie as int);
    let fs: usize = match dot {
        Some(_) => ie + 1,
        None => n,
    };
    // Both parts must be all digits, with at least one digit in all.
    if !all_digits_range(s, start, ie) {
        return Err(NumError::Invalid);
    }
    if !all_digits_range(s, fs, n) {
        return Err(NumError::Invalid);
    }
    if ie - start == 0 && n - fs == 0 {
        return Err(NumError::Invalid);
    }
    proof {
        assert(spec_body_ok(body));
    }
    // Trailing zero fraction digits do not count against the scale.
    let mut fe: usize = n;
    while fe > fs && s.get_char(fe - 1) == '0'
        invariant
            fs <= fe <= n,
            forall|j: int| fe <= j < n ==> s@[j] == '0',
        decreases fe,
    {
        fe = fe - 1;
    }
    let fl: usize = fe - fs;
    let ghost fps = strip_trailing_zeros(spec_frac_part(body));
    proof {
        lemma_strip_at(spec_frac_part(body), fl as int);
        assert(fps =~= s@.subrange(fs as int, fe as int));
    }
    if fl > (MAX_SCALE as usize) {
        return Err(NumError::OutOfRange);
    }
    // Accumulate the mantissa: whole part first, kept fraction behind it.
    let acc1 = match accumulate_digits(s, start, ie, 0) {
        Some(v) => v,
        None => {
            proof {
                lemma_int_part_overflow(body, fps);
            }
            return Err(NumError::OutOfRange);
        },
    };
    let mant = match accumulate_digits(s, fs, fe, acc1) {
        Some(v) => v,
        None => {
            return Err(NumError::OutOfRange);
        },
    };
    proof {
        lemma_mant_wf(ips, fps);
        assert(fps.len() > 0 ==> fps.last() != '0');
    }
    Ok(Dec { neg: neg && mant != 0, mant, scale: fl as u32 })
}

/// A whole part too large for `u64` keeps the whole mantissa too large,
/// whatever the fraction adds.
proof fn lemma_int_part_overflow(body: Seq<char>, fps: Seq<char>)
    requires
        seq_to_nat(spec_int_part(body)) > u64::MAX,
    ensures
        seq_to_nat(spec_int_part(body)) * pow10(fps.len()) + seq_to_nat(fps) > u64::MAX,
{
    crate::num::lemma_pow10_monotone(0, fps.len());
    vstd::arithmetic::mul::lemma_mul_inequality(
        1,
        pow10(fps.len()) as int,
        seq_to_nat(spec_int_part(body)) as int,
    );
}

proof fn lemma_dec_roundtrip_whole(d: Dec)
    requires
        d.wf(),
        d.scale == 0,
    ensures
        spec_parse_dec(spec_fmt_dec(d)) == Ok::<Dec, NumError>(d),
{
    let s = spec_fmt_dec(d);
    let digs = digits_of(d.mant as nat);
    lemma_digits_of_digits(d.mant as nat);
    lemma_digits_roundtrip(d.mant as nat);
    let body = if s[0] == '-' {
        s.skip(1)
    } else {
        s
    };
    if d.neg {
        assert(s[0] == '-');
        assert(body =~= digs);
    } else {
        assert(s =~= digs);
        assert(is_digit_char(s[0]));
        assert(s[0] != '-');
        assert(body == digs);
    }
    assert((s[0] == '-') == d.neg);
    assert forall|j: int| 0 <= j < digs.len() implies digs[j] != '.' by {
        assert(is_digit_char(digs[j]));
    }
    crate::text::lemma_find_is_none(digs, '.');
    assert(spec_int_part(body) == digs);
    assert(spec_frac_part(body) == Seq::<char>::empty());
    assert(spec_body_ok(body));
    let fp = strip_trailing_zeros(spec_frac_part(body));
    assert(fp == Seq::<char>::empty());
    assert(seq_to_nat(Seq::<char>::empty()) == 0);
    assert(pow10(0) == 1);
    let m = seq_to_nat(digs) * pow10(0) + 0;
    assert(seq_to_nat(digs) * 1 == seq_to_nat(digs));
    assert(m == d.mant);
}

proof fn lemma_dec_roundtrip_frac(d: Dec)
    requires
        d.wf(),
        d.scale > 0,
    ensures
        spec_parse_dec(spec_fmt_dec(d)) == Ok::<Dec, NumError>(d),
{
    let s = spec_fmt_dec(d);
    let sign: Seq<char> = if d.neg {
        seq!['-']
    } else {
        Seq::empty()
    };
    let p = pow10(d.scale as nat);
    let ipv = (d.mant as nat) / p;
    let fpv = (d.mant as nat) % p;
    let a = digits_of(ipv);
    let fd = digits_of(fpv);
    let z = zeros((d.scale as nat - fd.len()) as nat);
    let pd = padded_digits(fpv, d.scale as nat);
    lemma_digits_of_digits(ipv);
    lemma_digits_of_digits(fpv);
    lemma_digits_roundtrip(ipv);
    lemma_digits_roundtrip(fpv);
    crate::digits::lemma_zeros_val((d.scale as nat - fd.len()) as nat);
    crate::num::lemma_pow10_monotone(1, d.scale as nat);
    assert(pow10(1) == 10) by {
        reveal_with_fuel(pow10, 2);
    }
    vstd::arithmetic::div_mod::lemma_mod_bound(d.mant as int, p as int);
    lemma_digits_len_bound(fpv, d.scale as nat);
    assert(pd.len() == d.scale);
    assert(s == sign + a + seq!['.'] + pd);
    // The sign marker is recovered exactly.
    let body = if s[0] == '-' {
        s.skip(1)
    } else {
        s
    };
    if d.neg {
        assert(s[0] == '-');
        assert(body =~= a + seq!['.'] + pd);
    } else {
        assert(s[0] == a[0]);
        assert(is_digit_char(s[0]));
        assert(s[0] != '-');
        assert(body == s);
        assert(body =~= a + seq!['.'] + pd);
    }
    assert((s[0] == '-') == d.neg);
    let body2 = a + seq!['.'] + pd;
    // The first point stands right behind the whole part.
    assert forall|j: int| 0 <= j < a.len() implies a[j] != '.' by {
        assert(is_digit_char(a[j]));
    }
    crate::text::lemma_find_is_none(a, '.');
    crate::text::lemma_find_concat(a, seq!['.'] + pd, '.');
    crate::text::lemma_find_is_at(seq!['.'] + pd, '.', 0);
    assert(a + (seq!['.'] + pd) =~= body2);
    assert(spec_find(body2, '.') == Some(a.len() as int));
    assert(spec_int_part(body) =~= a);
    assert(spec_frac_part(body) =~= pd);
    // The padded fraction is digits throughout.
    assert forall|j: int| 0 <= j < pd.len() implies is_digit_char(#[trigger] pd[j]) by {
        if j < z.len() {
            assert(pd[j] == z[j]);
        } else {
            assert(pd[j] == fd[j - z.len()]);
        }
    }
    assert(spec_body_ok(body));
    // The fraction keeps no trailing zero, so stripping changes nothing.
    assert(fpv % 10 == d.mant % 10) by {
        let p1 = pow10((d.scale - 1) as nat) as int;
        assert(p == 10 * p1);
        vstd::arithmetic::div_mod::lemma_fundamental_div_mod(d.mant as int, p as int);
        vstd::arithmetic::div_mod::lemma_fundamental_div_mod(fpv as int, 10);
        let q = ipv as int;
        let t = q * p1;
        vstd::arithmetic::mul::lemma_mul_is_associative(q, p1, 10);
        assert(q * (p1 * 10) == t * 10);
        assert(d.mant == (t + fpv as int / 10) * 10 + (fpv as int % 10)) by (nonlinear_arith)
            requires
                d.mant == q * (10 * p1) + fpv,
                q * (p1 * 10) == t * 10,
                fpv == (fpv as int / 10) * 10 + (fpv as int % 10),
        ;
        vstd::arithmetic::div_mod::lemma_fundamental_div_mod_converse(
            d.mant as int,
            10,
            t + fpv as int / 10,
            fpv as int % 10,
        );
    }
    assert(fpv % 10 != 0);
    assert(fd.last() == char_of_digit(fpv % 10));
    assert(fd.last() != '0');
    assert(pd.last() == fd.last());
    assert(strip_trailing_zeros(pd) == pd);
    assert(spec_frac_part(body) == pd);
    let fp = strip_trailing_zeros(spec_frac_part(body));
    assert(fp == pd);
    // Reassembling the mantissa.
    crate::digits::lemma_seq_to_nat_append(z, fd);
    assert(seq_to_nat(z) * pow10(fd.len()) == 0) by {
        vstd::arithmetic::mul::lemma_mul_basics(pow10(fd.len()) as int);
    }
    assert(seq_to_nat(pd) == fpv);
    let m = seq_to_nat(spec_int_part(body)) * pow10(fp.len()) + seq_to_nat(fp);
    assert(m == ipv * p + fpv);
    vstd::arithmetic::div_mod::lemma_fundamental_div_mod(d.mant as int, p as int);
    assert(m == d.mant);
    assert(m != 0);
}

/// Formatting a well-formed decimal and parsing the text back gives the
/// same decimal.
pub proof fn lemma_dec_roundtrip(d: Dec)
    requires
        d.wf(),
    ensures
        spec_parse_dec(spec_fmt_dec(d)) == Ok::<Dec, NumError>(d),
{
    if d.scale == 0 {
        lemma_dec_roundtrip_whole(d);
    } else {
        lemma_dec_roundtrip_frac(d);
    }
}

/// Every character of a decimal's text is a digit, a point or a minus
/// sign, and there is at least one.
pub proof fn lemma_fmt_dec_chars(d: Dec)
    requires
        d.wf(),
    ensures
        spec_fmt_dec(d).len() >= 1,
        forall|i: int|
            0 <= i < spec_fmt_dec(d).len() ==> is_numchar(#[trigger] spec_fmt_dec(d)[i]),
{
    lemma_digits_of_digits(d.mant as nat);
    let s = spec_fmt_dec(d);
    if d.scale == 0 {
        assert forall|i: int| 0 <= i < s.len() implies is_numchar(#[trigger] s[i]) by {
            let sign_len: int = if d.neg {
                1
            } else {
                0
            };
            if i >= sign_len {
                assert(s[i] == digits_of(d.mant as nat)[i - sign_len]);
                assert(all_digits(digits_of(d.mant as nat)));
            }
        }
    } else {
        let p = pow10(d.scale as nat);
        let ip = (d.mant as nat) / p;
        let fp = (d.mant as nat) % p;
        lemma_digits_of_digits(ip);
        lemma_digits_of_digits(fp);
        crate::digits::lemma_zeros_val((d.scale as nat - digits_of(fp).len()) as nat);
        assert forall|i: int| 0 <= i < s.len() implies is_numchar(#[trigger] s[i]) by {
            let sign: Seq<char> = if d.neg {
                seq!['-']
            } else {
                Seq::empty()
            };
            let a = sign + digits_of(ip);
            let b = a + seq!['.'];
            let pad = padded_digits(fp, d.scale as nat);
            assert(s == b + pad);
            if i < a.len() {
                if i >= sign.len() {
                    assert(a[i] == digits_of(ip)[i - sign.len()]);
                }
                assert(s[i] == a[i]);
            } else if i == a.len() {
                assert(s[i] == '.');
            } else {
                let j = i - b.len();
                assert(s[i] == pad[j]);
                let z = zeros((d.scale as nat - digits_of(fp).len()) as nat);
                if j < z.len() {
                    assert(pad[j] == '0');
                } else {
                    assert(pad[j] == digits_of(fp)[j - z.len()]);
                }
            }
        }
    }
}

} // verus!
