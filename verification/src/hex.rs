//! Canonical minimal-width hexadecimal encoding of big-endian byte strings.
//!
//! Every number leaving this crate as text goes through [`hex_of_be_bytes`]:
//! the lowercase, `0x`-prefixed hex digits of the integer a big-endian byte
//! string denotes, with no leading zero digit beyond a single `0` for zero.

use vstd::prelude::*;

use vstd::arithmetic::div_mod::{
    lemma_div_decreases, lemma_fundamental_div_mod, lemma_fundamental_div_mod_converse,
};
use vstd::string::StringExecFns;

verus! {

/// The non-negative integer a big-endian byte string denotes, most
/// significant byte first.
pub open spec fn be_bytes_value(s: Seq<u8>) -> nat
    decreases s.len(),
{
    if s.len() == 0 {
        0
    } else {
        be_bytes_value(s.drop_last()) * 256 + s.last() as nat
    }
}

/// The non-negative integer a big-endian string of base-16 digits denotes.
pub open spec fn nibbles_value(s: Seq<u8>) -> nat
    decreases s.len(),
{
    if s.len() == 0 {
        0
    } else {
        nibbles_value(s.drop_last()) * 16 + s.last() as nat
    }
}

/// The digit string with its leading zero digits removed.
pub open spec fn trim_leading_zeros(s: Seq<u8>) -> Seq<u8>
    decreases s.len(),
{
    if s.len() == 0 || s[0] != 0 {
        s
    } else {
        trim_leading_zeros(s.skip(1))
    }
}

/// The minimal big-endian base-16 digit expansion of a value: the single
/// digit `0` for zero, and no leading zero digit otherwise.
pub open spec fn min_nibbles(v: nat) -> Seq<u8>
    decreases v,
    via min_nibbles_decreases
{
    if v < 16 {
        seq![v as u8]
    } else {
        min_nibbles(v / 16).push((v % 16) as u8)
    }
}

#[via_fn]
proof fn min_nibbles_decreases(v: nat) {
    if v >= 16 {
        lemma_div_decreases(v as int, 16);
    }
}

/// The lowercase hex digit character of a value below 16.
pub open spec fn nibble_char(n: u8) -> char {
    if n == 0 {
        '0'
    } else if n == 1 {
        '1'
    } else if n == 2 {
        '2'
    } else if n == 3 {
        '3'
    } else if n == 4 {
        '4'
    } else if n == 5 {
        '5'
    } else if n == 6 {
        '6'
    } else if n == 7 {
        '7'
    } else if n == 8 {
        '8'
    } else if n == 9 {
        '9'
    } else if n == 10 {
        'a'
    } else if n == 11 {
        'b'
    } else if n == 12 {
        'c'
    } else if n == 13 {
        'd'
    } else if n == 14 {
        'e'
    } else {
        'f'
    }
}

/// A digit string below 16 mapped to its hex digit characters.
pub open spec fn nibble_chars(t: Seq<u8>) -> Seq<char> {
    t.map_values(|n: u8| nibble_char(n))
}

/// The canonical hex string of a value: `0x` followed by its minimal
/// lowercase digit expansion.
pub open spec fn hex_str(v: nat) -> Seq<char> {
    "0x"@ + nibble_chars(min_nibbles(v))
}

/// The numeric value of a lowercase hex digit character, or 16 for any
/// other character.
pub open spec fn hex_char_value(c: char) -> nat {
    if c == '0' {
        0
    } else if c == '1' {
        1
    } else if c == '2' {
        2
    } else if c == '3' {
        3
    } else if c == '4' {
        4
    } else if c == '5' {
        5
    } else if c == '6' {
        6
    } else if c == '7' {
        7
    } else if c == '8' {
        8
    } else if c == '9' {
        9
    } else if c == 'a' {
        10
    } else if c == 'b' {
        11
    } else if c == 'c' {
        12
    } else if c == 'd' {
        13
    } else if c == 'e' {
        14
    } else if c == 'f' {
        15
    } else {
        16
    }
}

/// Whether a character is a lowercase hex digit.
pub open spec fn is_hex_digit(c: char) -> bool {
    hex_char_value(c) < 16
}

/// The integer a string of hex digit characters denotes, most significant
/// digit first.
pub open spec fn hex_digits_value(s: Seq<char>) -> nat
    decreases s.len(),
{
    if s.len() == 0 {
        0
    } else {
        hex_digits_value(s.drop_last()) * 16 + hex_char_value(s.last())
    }
}

/// Each byte expanded to its two base-16 digits, high digit first.
pub open spec fn bytes_nibbles(s: Seq<u8>) -> Seq<u8>
    decreases s.len(),
{
    if s.len() == 0 {
        Seq::empty()
    } else {
        bytes_nibbles(s.drop_last()) + seq![(s.last() / 16) as u8, (s.last() % 16) as u8]
    }
}

/// Removing a leading zero byte does not change the denoted value.
proof fn lemma_be_skip_zero(s: Seq<u8>)
    requires
        s.len() > 0,
        s[0] == 0,
    ensures
        be_bytes_value(s.skip(1)) == be_bytes_value(s),
    decreases s.len(),
{
    if s.len() == 1 {
        assert(s.skip(1) =~= Seq::<u8>::empty());
        assert(s.drop_last() =~= Seq::<u8>::empty());
        assert(s.last() == s[0]);
    } else {
        assert(s.drop_last()[0] == 0);
        lemma_be_skip_zero(s.drop_last());
        assert(s.skip(1).drop_last() =~= s.drop_last().skip(1));
        assert(s.skip(1).last() == s.last());
    }
}

/// Removing a leading zero digit does not change the denoted value.
proof fn lemma_nibbles_skip_zero(s: Seq<u8>)
    requires
        s.len() > 0,
        s[0] == 0,
    ensures
        nibbles_value(s.skip(1)) == nibbles_value(s),
    decreases s.len(),
{
    if s.len() == 1 {
        assert(s.skip(1) =~= Seq::<u8>::empty());
        assert(s.drop_last() =~= Seq::<u8>::empty());
        assert(s.last() == s[0]);
    } else {
        assert(s.drop_last()[0] == 0);
        lemma_nibbles_skip_zero(s.drop_last());
        assert(s.skip(1).drop_last() =~= s.drop_last().skip(1));
        assert(s.skip(1).last() == s.last());
    }
}

/// Trimming leading zero bytes does not change the denoted value.
pub proof fn lemma_be_trim(s: Seq<u8>)
    ensures
        be_bytes_value(trim_leading_zeros(s)) == be_bytes_value(s),
    decreases s.len(),
{
    if s.len() == 0 || s[0] != 0 {
    } else {
        lemma_be_skip_zero(s);
        lemma_be_trim(s.skip(1));
    }
}

/// A digit string whose first digit is non-zero denotes a positive value.
proof fn lemma_nibbles_positive(s: Seq<u8>)
    requires
        s.len() > 0,
        s[0] != 0,
    ensures
        nibbles_value(s) > 0,
    decreases s.len(),
{
    if s.len() == 1 {
        assert(s.last() == s[0]);
    } else {
        assert(s.drop_last()[0] == s[0]);
        lemma_nibbles_positive(s.drop_last());
    }
}

/// Trimming never lengthens a digit string.
pub proof fn lemma_trim_shorter(s: Seq<u8>)
    ensures
        trim_leading_zeros(s).len() <= s.len(),
    decreases s.len(),
{
    if s.len() == 0 || s[0] != 0 {
    } else {
        lemma_trim_shorter(s.skip(1));
    }
}

/// When the leading zeros of `s` are exactly `s[0..j]`, trimming yields the
/// suffix starting at `j`.
pub proof fn lemma_trim_at(s: Seq<u8>, j: int)
    requires
        0 <= j <= s.len(),
        forall|k: int| 0 <= k < j ==> s[k] == 0,
        j == s.len() || s[j] != 0,
    ensures
        trim_leading_zeros(s) =~= s.skip(j),
    decreases j,
{
    if j == 0 {
        assert(trim_leading_zeros(s) =~= s.skip(0));
    } else {
        assert(s[0] == 0);
        lemma_trim_at(s.skip(1), j - 1);
        assert(s.skip(1).skip(j - 1) =~= s.skip(j));
    }
}

/// A byte string and its digit expansion denote the same value; all
/// expanded digits are below 16, two per byte.
proof fn lemma_bytes_nibbles_value(s: Seq<u8>)
    ensures
        bytes_nibbles(s).len() == 2 * s.len(),
        forall|i: int| 0 <= i < bytes_nibbles(s).len() ==> bytes_nibbles(s)[i] < 16,
        nibbles_value(bytes_nibbles(s)) == be_bytes_value(s),
    decreases s.len(),
{
    if s.len() > 0 {
        lemma_bytes_nibbles_value(s.drop_last());
        let t = bytes_nibbles(s.drop_last());
        let b = s.last();
        let hi = (b / 16) as u8;
        let lo = (b % 16) as u8;
        lemma_fundamental_div_mod(b as int, 16);
        assert(bytes_nibbles(s) == t + seq![hi, lo]);
        assert((t + seq![hi, lo]).drop_last() =~= t + seq![hi]);
        assert((t + seq![hi]).drop_last() =~= t);
        assert((t + seq![hi]).last() == hi);
        assert((t + seq![hi, lo]).last() == lo);
        assert(nibbles_value(t + seq![hi], ) == nibbles_value(t) * 16 + hi);
        assert(nibbles_value(bytes_nibbles(s)) == (nibbles_value(t) * 16 + hi) * 16 + lo);
        assert((nibbles_value(t) * 16 + hi) * 16 + lo == nibbles_value(t) * 256 + (hi * 16 + lo));
    }
}

/// The minimal expansion of any value: at least one digit, all digits below
/// 16, no leading zero unless the value is zero, and the expansion denotes
/// the value back.
pub proof fn lemma_min_nibbles_canonical(v: nat)
    ensures
        min_nibbles(v).len() >= 1,
        forall|i: int| 0 <= i < min_nibbles(v).len() ==> min_nibbles(v)[i] < 16,
        min_nibbles(v).len() > 1 ==> min_nibbles(v)[0] != 0,
        v == 0 ==> min_nibbles(v) =~= seq![0u8],
        v > 0 ==> min_nibbles(v)[0] != 0,
        nibbles_value(min_nibbles(v)) == v,
    decreases v,
{
    if v < 16 {
        assert(min_nibbles(v) == seq![v as u8]);
        assert(seq![v as u8].drop_last() =~= Seq::<u8>::empty());
        assert(nibbles_value(Seq::<u8>::empty()) == 0);
        assert((v as u8) as nat == v);
    } else {
        lemma_div_decreases(v as int, 16);
        lemma_fundamental_div_mod(v as int, 16);
        assert(0 <= v % 16 < 16) by (nonlinear_arith);
        lemma_min_nibbles_canonical(v / 16);
        let t = min_nibbles(v / 16);
        let m = t.push((v % 16) as u8);
        assert(m.drop_last() =~= t);
        assert(m.last() == (v % 16) as u8);
        assert(((v % 16) as u8) as nat == v % 16);
        assert(nibbles_value(m) == nibbles_value(t) * 16 + (v % 16));
        assert(v / 16 > 0);
        assert(m[0] == t[0]);
    }
}

/// A non-empty digit string below 16 with no leading zero is the minimal
/// expansion of its own value.
proof fn lemma_min_nibbles_of_digits(t: Seq<u8>)
    requires
        t.len() > 0,
        t[0] != 0,
        forall|i: int| 0 <= i < t.len() ==> t[i] < 16,
    ensures
        min_nibbles(nibbles_value(t)) =~= t,
    decreases t.len(),
{
    let d = t.last();
    if t.len() == 1 {
        assert(t.drop_last() =~= Seq::<u8>::empty());
        assert(nibbles_value(Seq::<u8>::empty()) == 0);
        assert(nibbles_value(t) == d as nat);
        assert(min_nibbles(d as nat) == seq![d]);
        assert(seq![d] =~= t);
    } else {
        let t0 = t.drop_last();
        assert(t0[0] == t[0]);
        assert(forall|i: int| 0 <= i < t0.len() ==> t0[i] < 16);
        lemma_min_nibbles_of_digits(t0);
        lemma_nibbles_positive(t0);
        let v = nibbles_value(t);
        assert(v == nibbles_value(t0) * 16 + d);
        assert(v >= 16);
        lemma_fundamental_div_mod_converse(v as int, 16, nibbles_value(t0) as int, d as int);
        assert(v / 16 == nibbles_value(t0));
        assert(v % 16 == d as nat);
        assert(min_nibbles(v) == min_nibbles(nibbles_value(t0)).push(d));
        assert(min_nibbles(v) =~= t0.push(d));
        assert(t0.push(d) =~= t);
    }
}

/// Mapping digits below 16 to their characters: every character is a hex
/// digit, and the character string denotes the same value.
proof fn lemma_digit_chars(t: Seq<u8>)
    requires
        forall|i: int| 0 <= i < t.len() ==> t[i] < 16,
    ensures
        nibble_chars(t).len() == t.len(),
        forall|i: int| 0 <= i < t.len() ==> is_hex_digit(#[trigger] nibble_chars(t)[i]),
        forall|i: int|
            0 <= i < t.len() ==> hex_char_value(#[trigger] nibble_chars(t)[i]) == t[i] as nat,
        hex_digits_value(nibble_chars(t)) == nibbles_value(t),
    decreases t.len(),
{
    if t.len() > 0 {
        lemma_digit_chars(t.drop_last());
        assert(nibble_chars(t).drop_last() =~= nibble_chars(t.drop_last()));
        assert(nibble_chars(t).last() == nibble_char(t.last()));
        assert(hex_char_value(nibble_char(t.last())) == t.last() as nat);
    }
}

/// Law: for every value `v`, the canonical hex string is `0x` followed by
/// one or more lowercase hex digits, with no leading zero digit beyond a
/// single `0`, and the digits denote exactly `v`.
pub proof fn lemma_hex_str_canonical(v: nat)
    ensures
        hex_str(v).len() >= 3,
        hex_str(v).take(2) =~= seq!['0', 'x'],
        forall|i: int| 2 <= i < hex_str(v).len() ==> is_hex_digit(#[trigger] hex_str(v)[i]),
        hex_str(v).len() > 3 ==> hex_str(v)[2] != '0',
        hex_digits_value(hex_str(v).skip(2)) == v,
{
    reveal_strlit("0x");
    lemma_min_nibbles_canonical(v);
    lemma_digit_chars(min_nibbles(v));
    let digits = nibble_chars(min_nibbles(v));
    assert(hex_str(v).skip(2) =~= digits);
    assert(hex_str(v).take(2) =~= seq!['0', 'x']);
    if hex_str(v).len() > 3 {
        assert(min_nibbles(v).len() > 1);
        assert(hex_char_value(digits[0]) == min_nibbles(v)[0] as nat);
        assert(hex_str(v)[2] == digits[0]);
        assert(hex_char_value('0') == 0);
    }
    assert(forall|i: int| 2 <= i < hex_str(v).len() ==> hex_str(v)[i] == digits[i - 2]);
}

/// Law: the canonical hex encoding is injective — equal hex strings denote
/// equal values.
pub proof fn lemma_hex_str_injective(a: nat, b: nat)
    ensures
        hex_str(a) == hex_str(b) ==> a == b,
{
    if hex_str(a) == hex_str(b) {
        lemma_hex_str_canonical(a);
        lemma_hex_str_canonical(b);
        assert(hex_digits_value(hex_str(a).skip(2)) == hex_digits_value(hex_str(b).skip(2)));
    }
}

/// Appends the hex digit character of `n` to `s`.
fn append_nibble(s: &mut String, n: u8)
    requires
        n < 16,
    ensures
        final(s)@ == old(s)@ + seq![nibble_char(n)],
{
    match n {
        0 => {
            s.append("0");
            proof {
                reveal_strlit("0");
                assert("0"@ =~= seq![nibble_char(0u8)]);
            }
        },
        1 => {
            s.append("1");
            proof {
                reveal_strlit("1");
                assert("1"@ =~= seq![nibble_char(1u8)]);
            }
        },
        2 => {
            s.append("2");
            proof {
                reveal_strlit("2");
                assert("2"@ =~= seq![nibble_char(2u8)]);
            }
        },
        3 => {
            s.append("3");
            proof {
                reveal_strlit("3");
                assert("3"@ =~= seq![nibble_char(3u8)]);
            }
        },
        4 => {
            s.append("4");
            proof {
                reveal_strlit("4");
                assert("4"@ =~= seq![nibble_char(4u8)]);
            }
        },
        5 => {
            s.append("5");
            proof {
                reveal_strlit("5");
                assert("5"@ =~= seq![nibble_char(5u8)]);
            }
        },
        6 => {
            s.append("6");
            proof {
                reveal_strlit("6");
                assert("6"@ =~= seq![nibble_char(6u8)]);
            }
        },
        7 => {
            s.append("7");
            proof {
                reveal_strlit("7");
                assert("7"@ =~= seq![nibble_char(7u8)]);
            }
        },
        8 => {
            s.append("8");
            proof {
                reveal_strlit("8");
                assert("8"@ =~= seq![nibble_char(8u8)]);
            }
        },
        9 => {
            s.append("9");
            proof {
                reveal_strlit("9");
                assert("9"@ =~= seq![nibble_char(9u8)]);
            }
        },
        10 => {
            s.append("a");
            proof {
                reveal_strlit("a");
                assert("a"@ =~= seq![nibble_char(10u8)]);
            }
        },
        11 => {
            s.append("b");
            proof {
                reveal_strlit("b");
                assert("b"@ =~= seq![nibble_char(11u8)]);
            }
        },
        12 => {
            s.append("c");
            proof {
                reveal_strlit("c");
                assert("c"@ =~= seq![nibble_char(12u8)]);
            }
        },
        13 => {
            s.append("d");
            proof {
                reveal_strlit("d");
                assert("d"@ =~= seq![nibble_char(13u8)]);
            }
        },
        14 => {
            s.append("e");
            proof {
                reveal_strlit("e");
                assert("e"@ =~= seq![nibble_char(14u8)]);
            }
        },
        _ => {
            s.append("f");
            proof {
                reveal_strlit("f");
                assert("f"@ =~= seq![nibble_char(15u8)]);
            }
        },
    }
}

/// The canonical hex string of the integer a big-endian byte string
/// denotes: lowercase, `0x`-prefixed, minimal width.
pub fn hex_of_be_bytes(bytes: &Vec<u8>) -> (r: String)
    ensures
        r@ == hex_str(be_bytes_value(bytes@)),
{
    let ghost v = be_bytes_value(bytes@);
    let mut s = String::from_str("0x");
    let mut i: usize = 0;
    while i < bytes.len() && bytes[i] == 0
        invariant
            0 <= i <= bytes@.len(),
            forall|k: int| 0 <= k < i ==> bytes@[k] == 0,
        decreases bytes@.len() - i,
    {
        i = i + 1;
    }
    let ghost j = i as int;
    if i == bytes.len() {
        // every byte is zero: the value is zero
        proof {
            lemma_trim_at(bytes@, j);
            lemma_be_trim(bytes@);
            assert(bytes@.skip(j) =~= Seq::<u8>::empty());
            assert(v == 0);
            lemma_min_nibbles_canonical(0);
            reveal_strlit("0");
            assert("0"@ =~= nibble_chars(seq![0u8]));
        }
        s.append("0");
        return s;
    }
    proof {
        lemma_trim_at(bytes@, j);
        lemma_be_trim(bytes@);
    }
    let ghost rest = bytes@.skip(j);
    let b = bytes[i];
    let ghost first_digits: Seq<u8> = if b >= 16 {
        seq![(b / 16) as u8, (b % 16) as u8]
    } else {
        seq![b]
    };
    if b >= 16 {
        append_nibble(&mut s, b / 16);
        append_nibble(&mut s, b % 16);
        proof {
            assert(s@ =~= "0x"@ + nibble_chars(first_digits));
        }
    } else {
        append_nibble(&mut s, b);
        proof {
            assert(s@ =~= "0x"@ + nibble_chars(first_digits));
        }
    }
    i = i + 1;
    while i < bytes.len()
        invariant
            0 <= j < bytes@.len(),
            j + 1 <= i <= bytes@.len(),
            b == bytes@[j],
            first_digits == if b >= 16 {
                seq![(b / 16) as u8, (b % 16) as u8]
            } else {
                seq![b]
            },
            s@ == "0x"@ + nibble_chars(
                first_digits + bytes_nibbles(bytes@.subrange(j + 1, i as int)),
            ),
        decreases bytes@.len() - i,
    {
        let c = bytes[i];
        proof {
            assert(c / 16 < 16 && c % 16 < 16) by {
                lemma_fundamental_div_mod(c as int, 16);
            }
        }
        append_nibble(&mut s, c / 16);
        append_nibble(&mut s, c % 16);
        proof {
            let old_sub = bytes@.subrange(j + 1, i as int);
            let new_sub = bytes@.subrange(j + 1, i + 1 as int);
            assert(new_sub.drop_last() =~= old_sub);
            assert(new_sub.last() == c);
            assert(bytes_nibbles(new_sub) == bytes_nibbles(old_sub) + seq![
                (c / 16) as u8,
                (c % 16) as u8,
            ]);
            assert(s@ =~= "0x"@ + nibble_chars(first_digits + bytes_nibbles(new_sub)));
        }
        i = i + 1;
    }
    proof {
        let tail = bytes@.subrange(j + 1, bytes@.len() as int);
        assert(rest.skip(1) =~= tail);
        assert(rest[0] == b && b != 0);
        lemma_bytes_nibbles_value(rest);
        lemma_bytes_nibbles_value(tail);
        // bytes_nibbles(rest) splits as the first byte's digits then the rest
        lemma_bytes_nibbles_concat(seq![b], tail);
        assert(seq![b] + tail =~= rest);
        assert(bytes_nibbles(seq![b]) =~= seq![(b / 16) as u8, (b % 16) as u8]) by {
            assert(seq![b].drop_last() =~= Seq::<u8>::empty());
        }
        let digits = first_digits + bytes_nibbles(tail);
        lemma_fundamental_div_mod(b as int, 16);
        if b >= 16 {
            assert(digits =~= bytes_nibbles(rest));
            assert(b / 16 >= 1);
            assert(digits[0] == (b / 16) as u8);
        } else {
            assert(b / 16 == 0 && b % 16 == b as int) by {
                lemma_fundamental_div_mod_converse(b as int, 16, 0, b as int);
            }
            assert(bytes_nibbles(rest) =~= seq![0u8] + digits);
            lemma_nibbles_skip_zero(seq![0u8] + digits);
            assert((seq![0u8] + digits).skip(1) =~= digits);
            assert(digits[0] == b);
        }
        assert(nibbles_value(digits) == be_bytes_value(rest));
        assert(be_bytes_value(rest) == v);
        assert(forall|k: int| 0 <= k < digits.len() ==> digits[k] < 16);
        lemma_min_nibbles_of_digits(digits);
        assert(min_nibbles(v) =~= digits);
        assert(s@ == "0x"@ + nibble_chars(digits));
    }
    s
}

/// Expansion distributes over concatenation of byte strings.
proof fn lemma_bytes_nibbles_concat(a: Seq<u8>, b: Seq<u8>)
    ensures
        bytes_nibbles(a + b) =~= bytes_nibbles(a) + bytes_nibbles(b),
    decreases b.len(),
{
    if b.len() == 0 {
        assert(a + b =~= a);
    } else {
        lemma_bytes_nibbles_concat(a, b.drop_last());
        assert((a + b).drop_last() =~= a + b.drop_last());
        assert((a + b).last() == b.last());
    }
}

} // verus!
