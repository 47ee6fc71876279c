//! Compact textual module identifiers: base-32 numerals over `0-9a-v`.

use vstd::prelude::*;
use vstd::string::*;

verus! {

/// The numeral alphabet, in digit order.
pub const ALPHABET: &'static str = "0123456789abcdefghijklmnopqrstuv";

/// The character that stands for the digit `d`.
pub open spec fn digit_char(d: nat) -> char
    recommends
        d < 32,
{
    if d < 10 {
        ((48 + d) as u8) as char
    } else {
        ((87 + d) as u8) as char
    }
}

/// Whether `c` is one of the 32 digit characters.
pub open spec fn is_digit_char(c: char) -> bool {
    ('0' <= c && c <= '9') || ('a' <= c && c <= 'v')
}

/// The digit that `c` stands for.
pub open spec fn digit_value(c: char) -> nat
    recommends
        is_digit_char(c),
{
    if c <= '9' {
        (c as u32 - 48) as nat
    } else {
        (c as u32 - 87) as nat
    }
}

/// The numeral of `n`: most significant digit first, no leading zero, and
/// the single digit `0` for zero.
pub open spec fn encode_spec(n: nat) -> Seq<char>
    decreases n,
{
    if n < 32 {
        seq![digit_char(n)]
    } else {
        encode_spec(n / 32).push(digit_char(n % 32))
    }
}

/// The number that a sequence of digit characters denotes.
pub open spec fn numeral_value(s: Seq<char>) -> nat
    decreases s.len(),
{
    if s.len() == 0 {
        0
    } else {
        32 * numeral_value(s.drop_last()) + digit_value(s.last())
    }
}

/// Whether every character of `s` is a digit character.
pub open spec fn all_digits(s: Seq<char>) -> bool {
    forall|i: int| 0 <= i < s.len() ==> is_digit_char(#[trigger] s[i])
}

/// Whether `s` is a numeral in canonical form: not empty, digits only, and
/// no leading zero unless it is the numeral of zero.
pub open spec fn is_canonical(s: Seq<char>) -> bool {
    s.len() > 0 && all_digits(s) && (s[0] == '0' ==> s.len() == 1)
}

/// What `decode` yields for `s`: the number whose numeral `s` is, if there is
/// one below 2^32.
pub open spec fn decode_spec(s: Seq<char>) -> Option<u32> {
    if is_canonical(s) && numeral_value(s) <= u32::MAX {
        Some(numeral_value(s) as u32)
    } else {
        None
    }
}

/// The character of a digit is a digit character, stands for that digit, and
/// is neither a quote nor a backslash.
pub proof fn lemma_digit_roundtrip(d: nat)
    requires
        d < 32,
    ensures
        is_digit_char(digit_char(d)),
        digit_value(digit_char(d)) == d,
        digit_char(d) != '"',
        digit_char(d) != '\'',
        digit_char(d) != '\\',
{
}

/// A digit character stands for a digit below 32, whose character it is.
pub proof fn lemma_char_roundtrip(c: char)
    requires
        is_digit_char(c),
    ensures
        digit_value(c) < 32,
        digit_char(digit_value(c)) == c,
{
}

/// Every numeral is in canonical form and denotes the number it was made of;
/// only the numeral of zero starts with the digit zero.
pub proof fn lemma_encode_canonical(n: nat)
    ensures
        is_canonical(encode_spec(n)),
        numeral_value(encode_spec(n)) == n,
        encode_spec(n)[0] == '0' <==> n == 0,
    decreases n,
{
    let s = encode_spec(n);
    lemma_digit_roundtrip(n % 32);
    if n < 32 {
        assert(s.drop_last() =~= Seq::<char>::empty());
        assert(numeral_value(s.drop_last()) == 0);
    } else {
        lemma_encode_canonical(n / 32);
        let p = encode_spec(n / 32);
        assert(s.drop_last() =~= p);
        assert(s[0] == p[0]);
        assert forall|i: int| 0 <= i < s.len() implies is_digit_char(#[trigger] s[i]) by {
            if i < p.len() {
                assert(s[i] == p[i]);
            }
        }
    }
}

/// A canonical numeral is the numeral of the number it denotes.
pub proof fn lemma_canonical_is_encoding(s: Seq<char>)
    requires
        is_canonical(s),
    ensures
        encode_spec(numeral_value(s)) == s,
        s[0] != '0' ==> numeral_value(s) > 0,
    decreases s.len(),
{
    let c = s.last();
    lemma_char_roundtrip(c);
    let p = s.drop_last();
    if s.len() == 1 {
        assert(p =~= Seq::<char>::empty());
        assert(numeral_value(p) == 0);
        assert(seq![c] =~= s);
    } else {
        assert(p[0] == s[0]);
        assert forall|i: int| 0 <= i < p.len() implies is_digit_char(#[trigger] p[i]) by {
            assert(p[i] == s[i]);
        }
        lemma_canonical_is_encoding(p);
        let v = numeral_value(p);
        assert(v > 0);
        let n = 32 * v + digit_value(c);
        assert(n >= 32);
        assert(n / 32 == v);
        assert(n % 32 == digit_value(c));
        assert(p.push(c) =~= s);
    }
}

/// Decoding inverts encoding on every 32-bit number.
pub proof fn lemma_decode_encode(n: u32)
    ensures
        decode_spec(encode_spec(n as nat)) == Some(n),
{
    lemma_encode_canonical(n as nat);
}

/// Encoding inverts decoding wherever decoding succeeds.
pub proof fn lemma_encode_decode(s: Seq<char>)
    requires
        decode_spec(s).is_some(),
    ensures
        encode_spec(decode_spec(s).unwrap() as nat) == s,
{
    lemma_canonical_is_encoding(s);
}

/// Distinct numbers have distinct numerals.
pub proof fn lemma_encode_injective(a: nat, b: nat)
    requires
        encode_spec(a) == encode_spec(b),
    ensures
        a == b,
{
    lemma_encode_canonical(a);
    lemma_encode_canonical(b);
}

/// A numeral holds no quote and no backslash, so it can stand unquoted as an
/// object key and inside a string literal without escaping.
pub proof fn lemma_encode_safe(n: nat)
    ensures
        forall|i: int|
            0 <= i < encode_spec(n).len() ==> {
                let c = #[trigger] encode_spec(n)[i];
                is_digit_char(c) && c != '"' && c != '\'' && c != '\\'
            },
{
    lemma_encode_canonical(n);
}

/// The one-character text of the digit `d`.
fn digit_str(d: u32) -> (r: &'static str)
    requires
        d < 32,
    ensures
        r@ == seq![digit_char(d as nat)],
{
    proof {
        reveal_strlit("0123456789abcdefghijklmnopqrstuv");
    }
    let r = ALPHABET.substring_ascii(d as usize, d as usize + 1);
    assert(r@ =~= seq![digit_char(d as nat)]);
    r
}

/// Writes `n` as a base-32 numeral over `0-9a-v`.
pub fn encode(n: u32) -> (r: String)
    ensures
        r@ == encode_spec(n as nat),
    decreases n,
{
    let mut r = if n < 32 {
        String::new()
    } else {
        encode(n / 32)
    };
    r.append(digit_str(n % 32));
    proof {
        if n < 32 {
            assert(r@ =~= seq![digit_char(n as nat)]);
        } else {
            assert(r@ =~= encode_spec((n / 32) as nat).push(digit_char((n % 32) as nat)));
        }
    }
    r
}

/// The digit that `c` stands for, if it is a digit character.
fn digit_of(c: char) -> (r: Option<u64>)
    ensures
        r.is_some() == is_digit_char(c),
        r.is_some() ==> r.unwrap() == digit_value(c),
{
    if '0' <= c && c <= '9' {
        Some((c as u32 - 48) as u64)
    } else if 'a' <= c && c <= 'v' {
        Some((c as u32 - 87) as u64)
    } else {
        None
    }
}

/// A prefix of a numeral denotes no more than the numeral.
proof fn lemma_value_grows(s: Seq<char>, k: int)
    requires
        0 <= k <= s.len(),
    ensures
        numeral_value(s.take(k)) <= numeral_value(s),
    decreases s.len() - k,
{
    if k < s.len() {
        lemma_value_grows(s, k + 1);
        assert(s.take(k + 1).drop_last() =~= s.take(k));
    } else {
        assert(s.take(k) =~= s);
    }
}

/// Reads a base-32 numeral: the inverse of `encode`. Text that is no numeral
/// in canonical form, or that denotes a number of more than 32 bits, gives
/// `None`.
pub fn decode(s: &str) -> (r: Option<u32>)
    ensures
        r == decode_spec(s@),
        r.is_some() ==> encode_spec(r.unwrap() as nat) == s@,
        forall|n: u32| encode_spec(n as nat) == s@ ==> r == Some(n),
{
    proof {
        if decode_spec(s@).is_some() {
            lemma_encode_decode(s@);
        }
        assert forall|n: u32| encode_spec(n as nat) == s@ implies decode_spec(s@) == Some(n) by {
            lemma_decode_encode(n);
        }
    }
    let len: usize = s.unicode_len();
    if len == 0 {
        return None;
    }
    if len > 1 && s.get_char(0) == '0' {
        return None;
    }
    let mut acc: u64 = 0;
    let mut i: usize = 0;
    while i < len
        invariant
            len == s@.len(),
            0 <= i <= len,
            acc == numeral_value(s@.take(i as int)),
            acc <= u32::MAX,
            forall|j: int| 0 <= j < i ==> is_digit_char(#[trigger] s@[j]),
            forall|n: u32| encode_spec(n as nat) == s@ ==> decode_spec(s@) == Some(n),
            decode_spec(s@).is_some() ==> encode_spec(decode_spec(s@).unwrap() as nat) == s@,
        decreases len - i,
    {
        let c = s.get_char(i);
        proof {
            assert(s@.take(i + 1).drop_last() =~= s@.take(i as int));
            assert(s@.take(i + 1).last() == c);
        }
        match digit_of(c) {
            None => {
                return None;
            },
            Some(d) => {
                let next: u64 = acc * 32 + d;
                if next > 0xffff_ffff {
                    proof {
                        lemma_value_grows(s@, i + 1);
                    }
                    return None;
                }
                acc = next;
            },
        }
        i += 1;
    }
    proof {
        assert(s@.take(len as int) =~= s@);
    }
    Some(acc as u32)
}

} // verus!
