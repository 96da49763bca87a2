//! What numerals say: they are read back as what was written.

use vstd::prelude::*;

#[allow(unused_imports)]
use crate::cli::flags::{all_digits, digits_value, is_digit, unsigned, unsigned_value};
#[allow(unused_imports)]
use crate::text::{decimal_text, hex_char, hex_text, integer_text};

verus! {

proof fn lemma_decimal(n: nat)
    ensures
        decimal_text(n).len() > 0,
        all_digits(decimal_text(n)),
        digits_value(decimal_text(n)) == n,
        n > 0 ==> decimal_text(n)[0] != '0',
    decreases n,
{
    reveal_with_fuel(digits_value, 2);
    let s = decimal_text(n);
    if n < 10 {
        assert(s.drop_last() =~= Seq::empty());
    } else {
        lemma_decimal(n / 10);
        let before = decimal_text(n / 10);
        assert(s.drop_last() =~= before);
        assert forall|i: int| 0 <= i < s.len() implies is_digit(#[trigger] s[i]) by {
            if i < before.len() {
                assert(s[i] == before[i]);
            }
        }
        assert(s[0] == before[0]);
    }
}

/// The numeral of a natural number has digits alone and no leading zero, and is read back as that
/// number.
pub proof fn law_numerals_are_read_back(n: nat)
    ensures
        all_digits(decimal_text(n)),
        n > 0 ==> decimal_text(n)[0] != '0',
        digits_value(decimal_text(n)) == n,
        n <= u128::MAX ==> unsigned_value(decimal_text(n)) == Some(n),
{
    lemma_decimal(n);
    let s = decimal_text(n);
    assert(is_digit(s[0]));
    assert(unsigned(s) == s);
}

/// Integers have different numerals, and only those below zero have one with a minus sign.
pub proof fn law_integers_have_their_own_numerals(a: int, b: int)
    ensures
        integer_text(a) == integer_text(b) <==> a == b,
        integer_text(a)[0] == '-' <==> a < 0,
{
    let (m, n) = (
        if a < 0 {
            -a
        } else {
            a
        },
        if b < 0 {
            -b
        } else {
            b
        },
    );
    lemma_decimal(m as nat);
    lemma_decimal(n as nat);
    assert(is_digit(decimal_text(m as nat)[0]));
    assert(is_digit(decimal_text(n as nat)[0]));
    if integer_text(a) == integer_text(b) {
        assert((a < 0) == (b < 0));
        if a < 0 {
            assert(integer_text(a).skip(1) =~= decimal_text(m as nat));
            assert(integer_text(b).skip(1) =~= decimal_text(n as nat));
        }
    }
}

/// Bytes have two lowercase hexadecimal digits each, and different bytes different ones.
pub proof fn law_bytes_have_their_own_digits(a: Seq<u8>, b: Seq<u8>)
    ensures
        hex_text(a).len() == 2 * a.len(),
        hex_text(a) == hex_text(b) <==> a == b,
{
    if hex_text(a) == hex_text(b) {
        let (x, y) = (hex_text(a), hex_text(b));
        assert(x.len() == 2 * a.len() && y.len() == 2 * b.len());
        assert(a.len() == b.len());
        assert forall|i: int| 0 <= i < a.len() implies a[i] == b[i] by {
            assert(x[2 * i] == y[2 * i] && x[2 * i + 1] == y[2 * i + 1]);
            assert((2 * i) / 2 == i && (2 * i + 1) / 2 == i);
            lemma_hex_char(a[i] as int / 16, b[i] as int / 16);
            lemma_hex_char(a[i] as int % 16, b[i] as int % 16);
        }
        assert(a =~= b);
    }
}

proof fn lemma_hex_char(a: int, b: int)
    requires
        0 <= a < 16,
        0 <= b < 16,
        hex_char(a) == hex_char(b),
    ensures
        a == b,
{
}

} // verus!
