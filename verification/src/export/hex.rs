//! Hexadecimal text: symbol ids as 32 lowercase digits, offsets as
//! `0x`-prefixed uppercase digits.
use vstd::prelude::*;
use vstd::string::StringSliceAdditionalSpecFns;
use vstd::utf8::{encode_utf8, is_ascii_chars, is_ascii_chars_encode_utf8};
use crate::text::char_to_string;

verus! {

/// The digit for `d < 16`.
pub open spec fn hex_char(d: nat, upper: bool) -> char {
    if d < 10 {
        ((48 + d) as u32) as char
    } else if upper {
        ((55 + d) as u32) as char
    } else {
        ((87 + d) as u32) as char
    }
}

/// Two lowercase digits per byte, high nibble first.
pub open spec fn hex_text(b: Seq<u8>) -> Seq<char>
    decreases b.len(),
{
    if b.len() == 0 {
        Seq::empty()
    } else {
        hex_text(b.drop_last()) + seq![
            hex_char((b.last() / 16) as nat, false),
            hex_char((b.last() % 16) as nat, false),
        ]
    }
}

/// Uppercase digits of `n`, no leading zeros (`0` for zero).
pub open spec fn hex_upper(n: nat) -> Seq<char>
    decreases n,
{
    if n < 16 {
        seq![hex_char(n, true)]
    } else {
        hex_upper(n / 16).push(hex_char(n % 16, true))
    }
}

/// `s` left-padded with `0` to at least `w` characters.
pub open spec fn zero_pad(s: Seq<char>, w: nat) -> Seq<char> {
    if s.len() >= w {
        s
    } else {
        Seq::new((w - s.len()) as nat, |i: int| '0') + s
    }
}

fn hex_digit(d: u8, upper: bool) -> (r: char)
    requires
        d < 16,
    ensures
        r == hex_char(d as nat, upper),
{
    if d < 10 {
        ((48 + d) as u32) as u8 as char
    } else if upper {
        (55 + d) as char
    } else {
        (87 + d) as char
    }
}

/// Lowercase hex of the bytes, two digits each.
pub fn hex_encode(bytes: &[u8]) -> (r: String)
    ensures
        r@ == hex_text(bytes@),
        r@.len() == 2 * bytes@.len(),
{
    let mut s = String::new();
    let mut i: usize = 0;
    while i < bytes.len()
        invariant
            i <= bytes@.len(),
            s@ == hex_text(bytes@.take(i as int)),
            s@.len() == 2 * i,
        decreases bytes@.len() - i,
    {
        let b = bytes[i];
        proof {
            assert(bytes@.take(i + 1).drop_last() =~= bytes@.take(i as int));
            assert(bytes@.take(i + 1).last() == b);
        }
        let hi = char_to_string(hex_digit(b / 16, false));
        let lo = char_to_string(hex_digit(b % 16, false));
        s.append(hi.as_str());
        s.append(lo.as_str());
        i = i + 1;
    }
    proof {
        assert(bytes@.take(i as int) =~= bytes@);
    }
    s
}

/// The value of a hex digit byte, either case.
pub open spec fn nibble_value(c: u8) -> Option<u8> {
    if 48 <= c <= 57 {
        Some((c - 48) as u8)
    } else if 97 <= c <= 102 {
        Some((c - 87) as u8)
    } else if 65 <= c <= 70 {
        Some((c - 55) as u8)
    } else {
        None
    }
}

pub fn nibble(c: u8) -> (r: Option<u8>)
    ensures
        r == nibble_value(c),
{
    if 48 <= c && c <= 57 {
        Some(c - 48)
    } else if 97 <= c && c <= 102 {
        Some(c - 87)
    } else if 65 <= c && c <= 70 {
        Some(c - 55)
    } else {
        None
    }
}

/// The 16 bytes written as 32 hex digits (either case), or `None`.
pub open spec fn decoded_id(s: Seq<u8>) -> Option<Seq<u8>> {
    if s.len() == 32 && forall|k: int| 0 <= k < 32 ==> #[trigger] nibble_value(s[k]) is Some {
        Some(
            Seq::new(
                16,
                |i: int| (nibble_value(s[2 * i])->0 * 16 + nibble_value(s[2 * i + 1])->0) as u8,
            ),
        )
    } else {
        None
    }
}

/// The 16-byte id written in `s` as 32 hex digits.
pub fn decode_hex(s: &str) -> (r: Option<Vec<u8>>)
    ensures
        r matches Some(v) ==> decoded_id(s.spec_bytes()) == Some(v@),
        r is None ==> decoded_id(s.spec_bytes()) is None,
{
    let b = s.as_bytes();
    if b.len() != 32 {
        return None;
    }
    let mut k: usize = 0;
    while k < 32
        invariant
            b@ == s.spec_bytes(),
            b@.len() == 32,
            k <= 32,
            forall|j: int| 0 <= j < k ==> #[trigger] nibble_value(b@[j]) is Some,
        decreases 32 - k,
    {
        if nibble(b[k]).is_none() {
            assert(!(nibble_value(b@[k as int]) is Some));
            return None;
        }
        k = k + 1;
    }
    let mut out: Vec<u8> = Vec::new();
    let mut i: usize = 0;
    while i < 16
        invariant
            b@.len() == 32,
            forall|j: int| 0 <= j < 32 ==> #[trigger] nibble_value(b@[j]) is Some,
            i <= 16,
            out@.len() == i,
            forall|j: int|
                0 <= j < i ==> #[trigger] out@[j] == (nibble_value(b@[2 * j])->0 * 16
                    + nibble_value(b@[2 * j + 1])->0) as u8,
        decreases 16 - i,
    {
        let hi = nibble(b[2 * i]).unwrap();
        let lo = nibble(b[2 * i + 1]).unwrap();
        out.push(hi * 16 + lo);
        i = i + 1;
    }
    proof {
        assert(out@ =~= decoded_id(b@)->0);
    }
    Some(out)
}

/// `0x` then the uppercase hex of `n`, at least `width` digits.
pub fn hex_prefixed(n: u32, width: usize) -> (r: String)
    ensures
        r@ == seq!['0', 'x'] + zero_pad(hex_upper(n as nat), width as nat),
{
    let (digits, count) = upper_digits(n);
    let mut s = String::new();
    proof {
        reveal_strlit("0x");
        reveal_strlit("0");
    }
    s.append("0x");
    let mut pad: usize = count;
    let ghost start = s@;
    while pad < width
        invariant
            pad <= width || pad == digits@.len(),
            digits@.len() <= pad,
            s@ == seq!['0', 'x'] + Seq::new((pad - digits@.len()) as nat, |i: int| '0'),
        decreases width - pad,
    {
        proof {
            reveal_strlit("0");
            assert("0"@ =~= seq!['0']);
        }
        s.append("0");
        pad = pad + 1;
        proof {
            assert(s@ =~= seq!['0', 'x'] + Seq::new((pad - digits@.len()) as nat, |i: int| '0'));
        }
    }
    s.append(digits.as_str());
    proof {
        if digits@.len() >= width {
            assert(Seq::new((pad - digits@.len()) as nat, |i: int| '0') =~= Seq::<char>::empty());
            assert(s@ =~= seq!['0', 'x'] + digits@);
        } else {
            assert(pad == width);
            assert(s@ =~= seq!['0', 'x'] + zero_pad(hex_upper(n as nat), width as nat));
        }
    }
    s
}

fn upper_digits(n: u32) -> (r: (String, usize))
    ensures
        r.0@ == hex_upper(n as nat),
        r.1 == r.0@.len(),
        1 <= r.1 <= 8,
    decreases n,
{
    if n < 16 {
        (char_to_string(hex_digit(n as u8, true)), 1)
    } else {
        let (mut s, c) = upper_digits(n / 16);
        let d = char_to_string(hex_digit((n % 16) as u8, true));
        s.append(d.as_str());
        proof {
            lemma_hex_upper_len(n as nat);
        }
        (s, c + 1)
    }
}

proof fn lemma_hex_upper_len(n: nat)
    requires
        n <= u32::MAX,
    ensures
        hex_upper(n).len() <= 8,
{
    reveal_with_fuel(pow16, 9);
    assert(pow16(8) == 0x1_0000_0000);
    lemma_hex_upper_len_below(n, 8);
}

proof fn lemma_hex_upper_len_below(n: nat, k: nat)
    requires
        n < pow16(k),
        k >= 1,
    ensures
        hex_upper(n).len() <= k,
    decreases k,
{
    if n >= 16 {
        assert(n / 16 < pow16((k - 1) as nat)) by {
            lemma_div_pow16(n, k);
        }
        if k >= 2 {
            lemma_hex_upper_len_below(n / 16, (k - 1) as nat);
        } else {
            assert(pow16(1) == 16);
        }
    }
}

pub open spec fn pow16(k: nat) -> nat
    decreases k,
{
    if k == 0 {
        1
    } else {
        16 * pow16((k - 1) as nat)
    }
}

proof fn lemma_div_pow16(n: nat, k: nat)
    requires
        k >= 1,
        n < pow16(k),
    ensures
        n / 16 < pow16((k - 1) as nat),
{
    assert(pow16(k) == 16 * pow16((k - 1) as nat));
    let p = pow16((k - 1) as nat);
    assert(n / 16 < p) by (nonlinear_arith)
        requires
            n < 16 * p,
    ;
}

proof fn lemma_hex_text_chars(b: Seq<u8>)
    ensures
        hex_text(b).len() == 2 * b.len(),
        forall|i: int|
            0 <= i < b.len() ==> hex_text(b)[2 * i] == hex_char((b[i] / 16) as nat, false)
                && hex_text(b)[2 * i + 1] == hex_char((b[i] % 16) as nat, false),
    decreases b.len(),
{
    if b.len() > 0 {
        let p = b.drop_last();
        lemma_hex_text_chars(p);
        assert forall|i: int| 0 <= i < b.len() implies hex_text(b)[2 * i] == hex_char(
            (b[i] / 16) as nat,
            false,
        ) && hex_text(b)[2 * i + 1] == hex_char((b[i] % 16) as nat, false) by {
            if i < p.len() {
                assert(p[i] == b[i]);
            }
        }
    }
}

proof fn lemma_hex_char_nibble(d: nat)
    requires
        d < 16,
    ensures
        nibble_value(hex_char(d, false) as u8) == Some(d as u8),
        '\0' <= hex_char(d, false) <= '\u{7f}',
{
}

/// Decoding the hex text of a 16-byte id gives the id back.
pub proof fn law_hex_round_trip(b: Seq<u8>)
    requires
        b.len() == 16,
    ensures
        decoded_id(encode_utf8(hex_text(b))) == Some(b),
{
    let t = hex_text(b);
    lemma_hex_text_chars(b);
    assert forall|k: int| 0 <= k < t.len() implies '\0' <= #[trigger] t[k] <= '\u{7f}' by {
        let i = k / 2;
        if k % 2 == 0 {
            assert(k == 2 * i);
            lemma_hex_char_nibble((b[i] / 16) as nat);
        } else {
            assert(k == 2 * i + 1);
            lemma_hex_char_nibble((b[i] % 16) as nat);
        }
    }
    assert(is_ascii_chars(t));
    is_ascii_chars_encode_utf8(t);
    let e = encode_utf8(t);
    assert forall|k: int| 0 <= k < 32 implies #[trigger] nibble_value(e[k]) is Some by {
        let i = k / 2;
        assert(e[k] == t[k] as u8);
        if k % 2 == 0 {
            assert(k == 2 * i);
            lemma_hex_char_nibble((b[i] / 16) as nat);
        } else {
            assert(k == 2 * i + 1);
            lemma_hex_char_nibble((b[i] % 16) as nat);
        }
    }
    let d = decoded_id(e)->0;
    assert forall|i: int| 0 <= i < 16 implies #[trigger] d[i] == b[i] by {
        assert(e[2 * i] == t[2 * i] as u8);
        assert(e[2 * i + 1] == t[2 * i + 1] as u8);
        lemma_hex_char_nibble((b[i] / 16) as nat);
        lemma_hex_char_nibble((b[i] % 16) as nat);
        assert((b[i] / 16) * 16 + b[i] % 16 == b[i]);
    }
    assert(d =~= b);
}

} // verus!
