use crate::num::pow10;
use crate::text::is_digit_char;
use vstd::arithmetic::div_mod::lemma_fundamental_div_mod;
use vstd::arithmetic::mul::lemma_mul_is_associative;
use vstd::prelude::*;

verus! {

/// The character for one decimal digit.
pub open spec fn char_of_digit(d: nat) -> char {
    if d == 0 {
        '0'
    } else if d == 1 {
        '1'
    } else if d == 2 {
        '2'
    } else if d == 3 {
        '3'
    } else if d == 4 {
        '4'
    } else if d == 5 {
        '5'
    } else if d == 6 {
        '6'
    } else if d == 7 {
        '7'
    } else if d == 8 {
        '8'
    } else {
        '9'
    }
}

/// The numeric value of a digit character.
pub open spec fn digit_val(c: char) -> nat {
    (c as int - 48) as nat
}

/// The decimal digits of `n`, most significant first, with no leading
/// zero except for `n == 0` itself.
pub open spec fn digits_of(n: nat) -> Seq<char>
    decreases n,
{
    if n < 10 {
        seq![char_of_digit(n)]
    } else {
        digits_of(n / 10).push(char_of_digit(n % 10))
    }
}

/// The number a digit sequence denotes, leading zeros allowed.
pub open spec fn seq_to_nat(s: Seq<char>) -> nat
    decreases s.len(),
{
    if s.len() == 0 {
        0
    } else {
        seq_to_nat(s.drop_last()) * 10 + digit_val(s.last())
    }
}

/// `k` zero characters.
pub open spec fn zeros(k: nat) -> Seq<char> {
    Seq::new(k, |i: int| '0')
}

/// Every character of `s` is a decimal digit.
pub open spec fn all_digits(s: Seq<char>) -> bool {
    forall|i: int| 0 <= i < s.len() ==> is_digit_char(#[trigger] s[i])
}

/// The digit expansion of `n`: at least one character, all of them
/// digits, the last one `n`'s final digit, and the first one nonzero
/// unless `n` has a single digit.
pub proof fn lemma_digits_of_digits(n: nat)
    ensures
        all_digits(digits_of(n)),
        digits_of(n).len() >= 1,
        digits_of(n).last() == char_of_digit(n % 10),
        digit_val(digits_of(n).last()) == n % 10,
    decreases n,
{
    if n < 10 {
        assert(n % 10 == n) by {
            vstd::arithmetic::div_mod::lemma_small_mod(n, 10);
        }
    } else {
        lemma_digits_of_digits(n / 10);
        assert forall|i: int| 0 <= i < digits_of(n).len() implies is_digit_char(
            #[trigger] digits_of(n)[i],
        ) by {
            if i < digits_of(n / 10).len() {
                assert(digits_of(n)[i] == digits_of(n / 10)[i]);
            }
        }
    }
}

/// Reading the digit expansion of `n` back gives `n`.
pub proof fn lemma_digits_roundtrip(n: nat)
    ensures
        seq_to_nat(digits_of(n)) == n,
    decreases n,
{
    if n < 10 {
        assert(digits_of(n).drop_last() =~= Seq::<char>::empty());
        assert(seq_to_nat(Seq::<char>::empty()) == 0);
        assert(digits_of(n).last() == char_of_digit(n));
        assert(digit_val(char_of_digit(n)) == n);
    } else {
        lemma_digits_roundtrip(n / 10);
        assert(digits_of(n).drop_last() =~= digits_of(n / 10));
        lemma_fundamental_div_mod(n as int, 10);
    }
}

/// Reading a concatenation: the left part is shifted by the length of
/// the right part.
pub proof fn lemma_seq_to_nat_append(a: Seq<char>, b: Seq<char>)
    ensures
        seq_to_nat(a + b) == seq_to_nat(a) * pow10(b.len()) + seq_to_nat(b),
    decreases b.len(),
{
    if b.len() == 0 {
        assert(a + b =~= a);
        assert(pow10(0) == 1);
        assert(seq_to_nat(b) == 0);
        assert(seq_to_nat(a) * 1 == seq_to_nat(a));
    } else {
        lemma_seq_to_nat_append(a, b.drop_last());
        assert((a + b).drop_last() =~= a + b.drop_last());
        assert((a + b).last() == b.last());
        let sa = seq_to_nat(a) as int;
        let sb = seq_to_nat(b.drop_last()) as int;
        let p = pow10((b.len() - 1) as nat) as int;
        assert(seq_to_nat(a + b) == (sa * p + sb) * 10 + digit_val(b.last()));
        assert((sa * p + sb) * 10 == sa * p * 10 + sb * 10) by (nonlinear_arith);
        lemma_mul_is_associative(sa, p, 10);
        assert(pow10(b.len()) == 10 * pow10((b.len() - 1) as nat));
        assert(sa * (p * 10) == sa * pow10(b.len())) by {
            assert(p * 10 == pow10(b.len()));
        }
        assert(seq_to_nat(b) == sb * 10 + digit_val(b.last()));
        assert(seq_to_nat(a + b) == sa * pow10(b.len()) + seq_to_nat(b));
    }
}

/// A run of zero characters denotes zero.
pub proof fn lemma_zeros_val(k: nat)
    ensures
        seq_to_nat(zeros(k)) == 0,
        zeros(k).len() == k,
        all_digits(zeros(k)),
    decreases k,
{
    if k > 0 {
        lemma_zeros_val((k - 1) as nat);
        assert(zeros(k).drop_last() =~= zeros((k - 1) as nat));
        assert(zeros(k).last() == '0');
    }
}

/// `n < 10^k` needs at most `k` digits.
pub proof fn lemma_digits_len_bound(n: nat, k: nat)
    requires
        n < pow10(k),
        k >= 1,
    ensures
        digits_of(n).len() <= k,
    decreases n,
{
    if n < 10 {
    } else {
        assert(k >= 2) by {
            if k == 1 {
                assert(pow10(1) == 10) by {
                    reveal_with_fuel(pow10, 2);
                }
            }
        }
        assert(n / 10 < pow10((k - 1) as nat)) by {
            assert(pow10(k) == 10 * pow10((k - 1) as nat));
            lemma_fundamental_div_mod(n as int, 10);
        }
        lemma_digits_len_bound(n / 10, (k - 1) as nat);
    }
}

/// Every `u64` has at most 20 digits.
pub proof fn lemma_u64_digits_len(n: u64)
    ensures
        digits_of(n as nat).len() <= 20,
{
    assert(n < pow10(20)) by {
        reveal_with_fuel(pow10, 21);
    }
    lemma_digits_len_bound(n as nat, 20);
}

/// A digit sequence denoting zero ends in the character zero.
pub proof fn lemma_seq_to_nat_last_digit(s: Seq<char>)
    requires
        s.len() > 0,
        all_digits(s),
    ensures
        seq_to_nat(s) % 10 == digit_val(s.last()),
        seq_to_nat(s) == 0 ==> s.last() == '0',
{
    assert(is_digit_char(s.last()));
    assert(digit_val(s.last()) < 10);
    lemma_fundamental_div_mod_converse_spec(
        seq_to_nat(s) as int,
        10,
        seq_to_nat(s.drop_last()) as int,
        digit_val(s.last()) as int,
    );
    if seq_to_nat(s) == 0 {
        assert(digit_val(s.last()) == 0);
        assert(s.last() as int == 48);
        assert(s.last() == '0');
    }
}

proof fn lemma_fundamental_div_mod_converse_spec(x: int, d: int, q: int, r: int)
    requires
        d != 0,
        0 <= r < d,
        x == q * d + r,
    ensures
        r == x % d,
        q == x / d,
{
    vstd::arithmetic::div_mod::lemma_fundamental_div_mod_converse(x, d, q, r);
}

/// Appends one digit character to a string.
pub fn append_digit(s: &mut String, d: u64)
    requires
        d < 10,
    ensures
        final(s)@ == old(s)@.push(char_of_digit(d as nat)),
{
    match d {
        0 => {
            proof {
                reveal_strlit("0");
            }
            s.append("0");
            proof {
                assert(s@ =~= old(s)@.push('0'));
            }
        },
        1 => {
            proof {
                reveal_strlit("1");
            }
            s.append("1");
            proof {
                assert(s@ =~= old(s)@.push('1'));
            }
        },
        2 => {
            proof {
                reveal_strlit("2");
            }
            s.append("2");
            proof {
                assert(s@ =~= old(s)@.push('2'));
            }
        },
        3 => {
            proof {
                reveal_strlit("3");
            }
            s.append("3");
            proof {
                assert(s@ =~= old(s)@.push('3'));
            }
        },
        4 => {
            proof {
                reveal_strlit("4");
            }
            s.append("4");
            proof {
                assert(s@ =~= old(s)@.push('4'));
            }
        },
        5 => {
            proof {
                reveal_strlit("5");
            }
            s.append("5");
            proof {
                assert(s@ =~= old(s)@.push('5'));
            }
        },
        6 => {
            proof {
                reveal_strlit("6");
            }
            s.append("6");
            proof {
                assert(s@ =~= old(s)@.push('6'));
            }
        },
        7 => {
            proof {
                reveal_strlit("7");
            }
            s.append("7");
            proof {
                assert(s@ =~= old(s)@.push('7'));
            }
        },
        8 => {
            proof {
                reveal_strlit("8");
            }
            s.append("8");
            proof {
                assert(s@ =~= old(s)@.push('8'));
            }
        },
        _ => {
            proof {
                reveal_strlit("9");
            }
            s.append("9");
            proof {
                assert(s@ =~= old(s)@.push('9'));
            }
        },
    }
}

/// Appends the decimal digits of `n` to a string.
pub fn append_u64(s: &mut String, n: u64)
    ensures
        final(s)@ == old(s)@ + digits_of(n as nat),
    decreases n,
{
    if n < 10 {
        append_digit(s, n);
        proof {
            assert(s@ =~= old(s)@ + digits_of(n as nat));
        }
    } else {
        append_u64(s, n / 10);
        append_digit(s, n % 10);
        proof {
            assert(s@ =~= old(s)@ + digits_of(n as nat));
        }
    }
}

/// The number of decimal digits of `n`.
pub fn count_digits(n: u64) -> (c: usize)
    ensures
        c == digits_of(n as nat).len(),
        1 <= c <= 20,
    decreases n,
{
    proof {
        lemma_u64_digits_len(n);
    }
    if n < 10 {
        1
    } else {
        1 + count_digits(n / 10)
    }
}

/// Appends the digits of `n` left-padded with zeros to `width`
/// characters.
pub fn append_padded(s: &mut String, n: u64, width: u32)
    requires
        digits_of(n as nat).len() <= width,
        width <= 100,
    ensures
        final(s)@ == old(s)@ + zeros((width - digits_of(n as nat).len()) as nat) + digits_of(
            n as nat,
        ),
{
    let k = count_digits(n);
    let pad: u32 = width - (k as u32);
    let mut j: u32 = 0;
    while j < pad
        invariant
            j <= pad,
            s@ == old(s)@ + zeros(j as nat),
        decreases pad - j,
    {
        s.append("0");
        proof {
            reveal_strlit("0");
            assert(s@ =~= old(s)@ + zeros((j + 1) as nat));
        }
        j = j + 1;
    }
    append_u64(s, n);
    proof {
        assert(s@ =~= old(s)@ + zeros((width - digits_of(n as nat).len()) as nat) + digits_of(
            n as nat,
        ));
    }
}

} // verus!
