//! Lowercase hexadecimal and decimal text codecs.
//!
//! Identifiers arrive as raw bytes and are stored as lowercase hex
//! strings; time-bucket widths and statement placeholders need decimal
//! rendering; the JSON wire form carries nanosecond timestamps as
//! decimal strings.

use vstd::prelude::*;

verus! {

/// The lowercase hex digit for a value below 16.
pub open spec fn hex_digit(n: int) -> char {
    if n == 0 {
        '0'
    } else if n == 1 {
        '1'
    } else if n == 2 {
        '2'
    } else if n == 3 {
        '3'
    } else if n == 4 {
        '4'
    } else if n == 5 {
        '5'
    } else if n == 6 {
        '6'
    } else if n == 7 {
        '7'
    } else if n == 8 {
        '8'
    } else if n == 9 {
        '9'
    } else if n == 10 {
        'a'
    } else if n == 11 {
        'b'
    } else if n == 12 {
        'c'
    } else if n == 13 {
        'd'
    } else if n == 14 {
        'e'
    } else {
        'f'
    }
}

/// The lowercase hex rendering of a byte string: two digits per byte,
/// most significant first.
pub open spec fn hex_of(s: Seq<u8>) -> Seq<char>
    decreases s.len(),
{
    if s.len() == 0 {
        Seq::empty()
    } else {
        hex_of(s.drop_last()) + seq![
            hex_digit(s.last() as int / 16),
            hex_digit(s.last() as int % 16),
        ]
    }
}

/// Whether a character is a lowercase hex digit.
pub open spec fn is_hex_char(c: char) -> bool {
    exists|n: int| 0 <= n < 16 && c == hex_digit(n)
}

/// The value of a lowercase hex digit character.
pub open spec fn hex_val(c: char) -> int {
    choose|n: int| 0 <= n < 16 && c == hex_digit(n)
}

fn hex_digit_str(n: u8) -> (r: &'static str)
    requires
        n < 16,
    ensures
        r@ =~= seq![hex_digit(n as int)],
{
    proof {
        reveal_strlit("0");
        reveal_strlit("1");
        reveal_strlit("2");
        reveal_strlit("3");
        reveal_strlit("4");
        reveal_strlit("5");
        reveal_strlit("6");
        reveal_strlit("7");
        reveal_strlit("8");
        reveal_strlit("9");
        reveal_strlit("a");
        reveal_strlit("b");
        reveal_strlit("c");
        reveal_strlit("d");
        reveal_strlit("e");
        reveal_strlit("f");
    }
    match n {
        0 => "0",
        1 => "1",
        2 => "2",
        3 => "3",
        4 => "4",
        5 => "5",
        6 => "6",
        7 => "7",
        8 => "8",
        9 => "9",
        10 => "a",
        11 => "b",
        12 => "c",
        13 => "d",
        14 => "e",
        _ => "f",
    }
}

/// Renders a byte string as lowercase hex, two digits per byte.
pub fn hex_encode(bytes: &Vec<u8>) -> (r: String)
    ensures
        r@ == hex_of(bytes@),
        r@.len() == 2 * bytes@.len(),
{
    proof {
        lemma_hex_of_len(bytes@);
    }
    let mut r = String::new();
    let mut i: usize = 0;
    while i < bytes.len()
        invariant
            i <= bytes.len(),
            r@ == hex_of(bytes@.take(i as int)),
        decreases bytes.len() - i,
    {
        let b = bytes[i];
        r.append(hex_digit_str(b / 16));
        r.append(hex_digit_str(b % 16));
        proof {
            let t = bytes@.take(i + 1);
            assert(t.drop_last() =~= bytes@.take(i as int));
            assert(t.last() == bytes@[i as int]);
            assert(r@ =~= hex_of(t));
        }
        i = i + 1;
    }
    proof {
        assert(bytes@.take(bytes@.len() as int) =~= bytes@);
    }
    r
}

proof fn lemma_hex_of_len(s: Seq<u8>)
    ensures
        hex_of(s).len() == 2 * s.len(),
    decreases s.len(),
{
    if s.len() > 0 {
        lemma_hex_of_len(s.drop_last());
    }
}

fn hex_char_val(c: char) -> (r: Option<u8>)
    ensures
        match r {
            Some(v) => v < 16 && c == hex_digit(v as int),
            None => !is_hex_char(c),
        },
{
    match c {
        '0' => Some(0),
        '1' => Some(1),
        '2' => Some(2),
        '3' => Some(3),
        '4' => Some(4),
        '5' => Some(5),
        '6' => Some(6),
        '7' => Some(7),
        '8' => Some(8),
        '9' => Some(9),
        'a' => Some(10),
        'b' => Some(11),
        'c' => Some(12),
        'd' => Some(13),
        'e' => Some(14),
        'f' => Some(15),
        _ => None,
    }
}

/// Parses a lowercase hex string into the byte string it renders.
/// Fails on odd length or on any character that is not a lowercase
/// hex digit.
pub fn hex_decode(s: &String) -> (r: Option<Vec<u8>>)
    ensures
        match r {
            Some(b) => hex_of(b@) == s@ && 2 * b@.len() == s@.len(),
            None => s@.len() % 2 != 0 || exists|i: int|
                0 <= i < s@.len() && !is_hex_char(s@[i]),
        },
{
    let n = s.as_str().unicode_len();
    if n % 2 != 0 {
        return None;
    }
    let mut out: Vec<u8> = Vec::new();
    let mut i: usize = 0;
    while i < n
        invariant
            i <= n,
            n == s@.len(),
            n % 2 == 0,
            i % 2 == 0,
            2 * out@.len() == i,
            hex_of(out@) == s@.take(i as int),
        decreases n - i,
    {
        let hi = match hex_char_val(s.as_str().get_char(i)) {
            Some(v) => v,
            None => {
                return None;
            },
        };
        let lo = match hex_char_val(s.as_str().get_char(i + 1)) {
            Some(v) => v,
            None => {
                return None;
            },
        };
        let b: u8 = hi * 16 + lo;
        let ghost pre = out@;
        out.push(b);
        proof {
            assert(out@.drop_last() =~= pre);
            assert(b as int / 16 == hi as int && b as int % 16 == lo as int);
            assert(hex_of(out@) =~= s@.take(i + 2));
        }
        i = i + 2;
    }
    proof {
        assert(s@.take(n as int) =~= s@);
    }
    Some(out)
}

/// The decimal digit for a value below 10.
pub open spec fn dec_digit(n: int) -> char {
    hex_digit(n)
}

/// The decimal rendering of a natural number, without a sign and
/// without leading zeros (zero itself renders as "0").
pub open spec fn dec_of(n: nat) -> Seq<char>
    decreases n,
{
    if n < 10 {
        seq![dec_digit(n as int)]
    } else {
        dec_of(n / 10) + seq![dec_digit((n % 10) as int)]
    }
}

/// Renders a number in decimal.
pub fn u64_to_dec(n: u64) -> (r: String)
    ensures
        r@ == dec_of(n as nat),
    decreases n,
{
    if n < 10 {
        let r = String::from_str(hex_digit_str(n as u8));
        proof {
            assert(r@ =~= dec_of(n as nat));
        }
        r
    } else {
        let mut r = u64_to_dec(n / 10);
        r.append(hex_digit_str((n % 10) as u8));
        proof {
            assert(r@ =~= dec_of(n as nat));
        }
        r
    }
}

/// The decimal rendering of a signed number: a leading minus sign for
/// a negative value, then the digits of its magnitude.
pub open spec fn dec_of_i64(n: int) -> Seq<char> {
    if n < 0 {
        seq!['-'] + dec_of((-n) as nat)
    } else {
        dec_of(n as nat)
    }
}

/// Renders a signed number in decimal.
pub fn i64_to_dec(n: i64) -> (r: String)
    ensures
        r@ == dec_of_i64(n as int),
{
    if n >= 0 {
        u64_to_dec(n as u64)
    } else {
        proof {
            reveal_strlit("-");
        }
        let mag: u64 = ((-(n + 1)) as u64) + 1;
        let mut r = String::from_str("-");
        let digits = u64_to_dec(mag);
        r.append(digits.as_str());
        proof {
            assert(mag as int == -(n as int));
            assert(r@ =~= dec_of_i64(n as int));
        }
        r
    }
}

/// Whether a character is a decimal digit.
pub open spec fn is_dec_char(c: char) -> bool {
    exists|n: int| 0 <= n < 10 && c == dec_digit(n)
}

/// The numeric value of a decimal digit string, most significant
/// digit first.
pub open spec fn dec_val(s: Seq<char>) -> nat
    decreases s.len(),
{
    if s.len() == 0 {
        0
    } else {
        dec_val(s.drop_last()) * 10 + hex_val(s.last()) as nat
    }
}

fn dec_char_val(c: char) -> (r: Option<u8>)
    ensures
        match r {
            Some(v) => v < 10 && c == dec_digit(v as int) && hex_val(c) == v as int,
            None => !is_dec_char(c),
        },
{
    let r = match c {
        '0' => Some(0u8),
        '1' => Some(1),
        '2' => Some(2),
        '3' => Some(3),
        '4' => Some(4),
        '5' => Some(5),
        '6' => Some(6),
        '7' => Some(7),
        '8' => Some(8),
        '9' => Some(9),
        _ => None,
    };
    proof {
        if r is Some {
            let v = r->0;
            assert(c == hex_digit(v as int));
            let w = hex_val(c);
            assert(0 <= w < 16 && c == hex_digit(w));
            assert(w == v as int);
        }
    }
    r
}

/// Parses an unsigned decimal string. Fails on an empty string, on
/// any character that is not a decimal digit, and on a value that
/// does not fit in 64 bits.
pub fn parse_u64_dec(s: &String) -> (r: Option<u64>)
    ensures
        match r {
            Some(v) => s@.len() > 0 && (forall|i: int| 0 <= i < s@.len() ==> is_dec_char(s@[i]))
                && v as nat == dec_val(s@),
            None => s@.len() == 0 || (exists|i: int| 0 <= i < s@.len() && !is_dec_char(s@[i]))
                || dec_val(s@) > u64::MAX,
        },
{
    let n = s.as_str().unicode_len();
    if n == 0 {
        return None;
    }
    let mut acc: u64 = 0;
    let mut i: usize = 0;
    while i < n
        invariant
            i <= n,
            n == s@.len(),
            acc as nat == dec_val(s@.take(i as int)),
            forall|j: int| 0 <= j < i ==> is_dec_char(s@[j]),
        decreases n - i,
    {
        let d = match dec_char_val(s.as_str().get_char(i)) {
            Some(v) => v,
            None => {
                return None;
            },
        };
        proof {
            assert(s@.take(i + 1).drop_last() =~= s@.take(i as int));
            assert(s@.take(i + 1).last() == s@[i as int]);
            assert(dec_val(s@.take(i + 1)) == acc as nat * 10 + hex_val(s@[i as int]) as nat);
            lemma_dec_val_prefix_monotone(s@, i + 1, s@.len() as int);
            assert(s@.take(s@.len() as int) =~= s@);
        }
        let shifted = match acc.checked_mul(10) {
            Some(v) => v,
            None => {
                return None;
            },
        };
        let next = match shifted.checked_add(d as u64) {
            Some(v) => v,
            None => {
                return None;
            },
        };
        acc = next;
        i = i + 1;
    }
    proof {
        assert(s@.take(n as int) =~= s@);
    }
    Some(acc)
}

/// A longer digit string never names a smaller value: the value of a
/// prefix bounds the value of the whole from below.
proof fn lemma_dec_val_prefix_monotone(s: Seq<char>, i: int, j: int)
    requires
        0 <= i <= j <= s.len(),
    ensures
        dec_val(s.take(j)) >= dec_val(s.take(i)),
    decreases j - i,
{
    if i < j {
        lemma_dec_val_prefix_monotone(s, i, j - 1);
        assert(s.take(j).drop_last() =~= s.take(j - 1));
        assert(dec_val(s.take(j)) >= dec_val(s.take(j - 1)) * 10);
    }
}

} // verus!

