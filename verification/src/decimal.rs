//! Decimal rendering of counters, and the facts about it that the ID
//! service's uniqueness argument needs: the digits of a number determine the
//! number, and a rendered ID ends in its counter segment, so IDs minted from
//! distinct counter values are distinct strings.

use vstd::prelude::*;
use vstd::string::StringExecFns;

verus! {

/// The character for one decimal digit.
pub open spec fn digit_char(d: nat) -> char {
    if d == 0 {
        '0'
    } else if d == 1 {
        '1'
    } else if d == 2 {
        '2'
    } else if d == 3 {
        '3'
    } else if d == 4 {
        '4'
    } else if d == 5 {
        '5'
    } else if d == 6 {
        '6'
    } else if d == 7 {
        '7'
    } else if d == 8 {
        '8'
    } else {
        '9'
    }
}

/// The value of one decimal digit character; 10 for any other character.
pub open spec fn digit_val(c: char) -> nat {
    if c == '0' {
        0
    } else if c == '1' {
        1
    } else if c == '2' {
        2
    } else if c == '3' {
        3
    } else if c == '4' {
        4
    } else if c == '5' {
        5
    } else if c == '6' {
        6
    } else if c == '7' {
        7
    } else if c == '8' {
        8
    } else if c == '9' {
        9
    } else {
        10
    }
}

pub open spec fn is_digit(c: char) -> bool {
    digit_val(c) < 10
}

/// The decimal digits of `n`, most significant first.
pub open spec fn dec_digits(n: nat) -> Seq<char>
    decreases n,
{
    if n < 10 {
        seq![digit_char(n)]
    } else {
        dec_digits(n / 10).push(digit_char(n % 10))
    }
}

/// The number a digit sequence denotes.
pub open spec fn dec_val(s: Seq<char>) -> nat
    decreases s.len(),
{
    if s.len() == 0 {
        0
    } else {
        dec_val(s.drop_last()) * 10 + digit_val(s.last())
    }
}

pub proof fn lemma_dec_digits_len(n: nat)
    ensures
        dec_digits(n).len() >= 1,
    decreases n,
{
    if n >= 10 {
        lemma_dec_digits_len(n / 10);
    }
}

/// Every character of a rendered number is a digit.
pub proof fn lemma_dec_digits_all_digits(n: nat)
    ensures
        forall|i: int| 0 <= i < dec_digits(n).len() ==> is_digit(#[trigger] dec_digits(n)[i]),
    decreases n,
{
    if n < 10 {
        assert(dec_digits(n)[0] == digit_char(n));
    } else {
        lemma_dec_digits_all_digits(n / 10);
        assert forall|i: int| 0 <= i < dec_digits(n).len() implies is_digit(
            #[trigger] dec_digits(n)[i],
        ) by {
            if i < dec_digits(n / 10).len() {
                assert(dec_digits(n)[i] == dec_digits(n / 10)[i]);
            } else {
                assert(dec_digits(n)[i] == digit_char(n % 10));
            }
        }
    }
}

proof fn lemma_digit_roundtrip(d: nat)
    requires
        d < 10,
    ensures
        digit_val(digit_char(d)) == d,
{
}

/// Reading the digits back gives the number: rendering is injective.
pub proof fn lemma_dec_digits_val(n: nat)
    ensures
        dec_val(dec_digits(n)) == n,
    decreases n,
{
    if n < 10 {
        let s = dec_digits(n);
        assert(s.len() == 1);
        assert(s.drop_last() =~= Seq::<char>::empty());
        assert(dec_val(Seq::<char>::empty()) == 0);
        assert(s.last() == digit_char(n));
        lemma_digit_roundtrip(n);
        assert(dec_val(s) == dec_val(s.drop_last()) * 10 + digit_val(s.last()));
    } else {
        lemma_dec_digits_val(n / 10);
        let s = dec_digits(n);
        assert(s.drop_last() =~= dec_digits(n / 10));
        assert(s.last() == digit_char(n % 10));
        lemma_digit_roundtrip(n % 10);
        assert(dec_val(s) == (n / 10) * 10 + n % 10);
        assert(n == (n / 10) * 10 + n % 10) by {
            vstd::arithmetic::div_mod::lemma_fundamental_div_mod(n as int, 10);
        }
    }
}

pub proof fn lemma_dec_digits_injective(a: nat, b: nat)
    requires
        dec_digits(a) == dec_digits(b),
    ensures
        a == b,
{
    lemma_dec_digits_val(a);
    lemma_dec_digits_val(b);
}

/// Appends the digit character for `d` to `s`.
fn push_digit(s: &mut String, d: u64)
    requires
        d < 10,
    ensures
        final(s)@ == old(s)@.push(digit_char(d as nat)),
{
    match d {
        0 => {
            s.append("0");
            proof {
                reveal_strlit("0");
                assert(s@ =~= old(s)@.push('0'));
            }
        },
        1 => {
            s.append("1");
            proof {
                reveal_strlit("1");
                assert(s@ =~= old(s)@.push('1'));
            }
        },
        2 => {
            s.append("2");
            proof {
                reveal_strlit("2");
                assert(s@ =~= old(s)@.push('2'));
            }
        },
        3 => {
            s.append("3");
            proof {
                reveal_strlit("3");
                assert(s@ =~= old(s)@.push('3'));
            }
        },
        4 => {
            s.append("4");
            proof {
                reveal_strlit("4");
                assert(s@ =~= old(s)@.push('4'));
            }
        },
        5 => {
            s.append("5");
            proof {
                reveal_strlit("5");
                assert(s@ =~= old(s)@.push('5'));
            }
        },
        6 => {
            s.append("6");
            proof {
                reveal_strlit("6");
                assert(s@ =~= old(s)@.push('6'));
            }
        },
        7 => {
            s.append("7");
            proof {
                reveal_strlit("7");
                assert(s@ =~= old(s)@.push('7'));
            }
        },
        8 => {
            s.append("8");
            proof {
                reveal_strlit("8");
                assert(s@ =~= old(s)@.push('8'));
            }
        },
        _ => {
            s.append("9");
            proof {
                reveal_strlit("9");
                assert(s@ =~= old(s)@.push('9'));
            }
        },
    }
}

/// Appends the decimal rendering of `n` to `s`.
pub fn push_dec(s: &mut String, n: u64)
    ensures
        final(s)@ == old(s)@ + dec_digits(n as nat),
    decreases n,
{
    if n < 10 {
        push_digit(s, n);
        proof {
            assert(s@ =~= old(s)@ + dec_digits(n as nat));
        }
    } else {
        push_dec(s, n / 10);
        push_digit(s, n % 10);
        proof {
            assert(s@ =~= old(s)@ + dec_digits(n as nat));
        }
    }
}

/// The decimal rendering of `n` as a fresh string.
pub fn u64_to_dec(n: u64) -> (s: String)
    ensures
        s@ == dec_digits(n as nat),
{
    let mut s = String::new();
    push_dec(&mut s, n);
    proof {
        assert(s@ =~= dec_digits(n as nat));
    }
    s
}

} // verus!
