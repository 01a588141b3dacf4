//! Small string helpers with contracts over `Seq<char>` and UTF-8 bytes.
use vstd::prelude::*;
use vstd::utf8::*;
use vstd::string::StringSliceAdditionalSpecFns;

verus! {

broadcast use vstd::utf8::encode_utf8_decode_utf8;

/// The text a byte range decodes to, or the empty text when the bytes
/// are not valid UTF-8.
pub open spec fn decode_or_empty(b: Seq<u8>) -> Seq<char> {
    if valid_utf8(b) {
        decode_utf8(b)
    } else {
        Seq::empty()
    }
}

/// Unicode `White_Space` property.
pub open spec fn is_white_space(c: char) -> bool {
    let u = c as u32;
    (0x9 <= u <= 0xD) || u == 0x20 || u == 0x85 || u == 0xA0 || u == 0x1680 || (0x2000 <= u
        <= 0x200A) || u == 0x2028 || u == 0x2029 || u == 0x202F || u == 0x205F || u == 0x3000
}

pub open spec fn trim_start_chars(s: Seq<char>) -> Seq<char>
    decreases s.len(),
{
    if s.len() > 0 && is_white_space(s[0]) {
        trim_start_chars(s.drop_first())
    } else {
        s
    }
}

pub open spec fn trim_end_chars(s: Seq<char>) -> Seq<char>
    decreases s.len(),
{
    if s.len() > 0 && is_white_space(s.last()) {
        trim_end_chars(s.drop_last())
    } else {
        s
    }
}

/// `s` with leading and trailing white space removed.
pub open spec fn trim_chars(s: Seq<char>) -> Seq<char> {
    trim_end_chars(trim_start_chars(s))
}

/// Calls `std::str::from_utf8`: `Some` exactly when the bytes are valid
/// UTF-8, holding the text they encode.
#[verifier::external_body]
pub(crate) fn utf8_str(b: &[u8]) -> (r: Option<&str>)
    ensures
        r is Some <==> valid_utf8(b@),
        r matches Some(s) ==> s@ == decode_utf8(b@),
{
    std::str::from_utf8(b).ok()
}

/// Calls `str::trim`: the text without leading and trailing characters
/// that have the Unicode `White_Space` property.
#[verifier::external_body]
pub(crate) fn trim_str(s: &str) -> (r: &str)
    ensures
        r@ == trim_chars(s@),
{
    s.trim()
}

/// Calls `char::to_string`: the one-character text.
#[verifier::external_body]
pub(crate) fn char_to_string(c: char) -> (r: String)
    ensures
        r@ == seq![c],
{
    c.to_string()
}

/// The text of the bytes, or the empty text when they are not UTF-8.
pub fn decode_bytes(b: &[u8]) -> (r: String)
    ensures
        r@ == decode_or_empty(b@),
{
    match utf8_str(b) {
        Some(s) => s.to_owned(),
        None => String::new(),
    }
}

/// Equality of two texts.
pub fn str_eq(a: &str, b: &str) -> (r: bool)
    ensures
        r == (a@ == b@),
{
    let x = a.as_bytes();
    let y = b.as_bytes();
    proof {
        encode_utf8_decode_utf8(a@);
        encode_utf8_decode_utf8(b@);
    }
    if x.len() != y.len() {
        return false;
    }
    let mut i: usize = 0;
    while i < x.len()
        invariant
            x@.len() == y@.len(),
            x@ == a.spec_bytes(),
            y@ == b.spec_bytes(),
            i <= x@.len(),
            forall|k: int| 0 <= k < i ==> x@[k] == y@[k],
        decreases x@.len() - i,
    {
        if x[i] != y[i] {
            return false;
        }
        i = i + 1;
    }
    assert(x@ =~= y@);
    true
}

/// `a` followed by `b`.
pub fn concat(a: &str, b: &str) -> (r: String)
    ensures
        r@ == a@ + b@,
{
    let mut s = String::from_str(a);
    s.append(b);
    s
}

/// `a`, `b`, `c` in turn.
pub fn concat3(a: &str, b: &str, c: &str) -> (r: String)
    ensures
        r@ == a@ + b@ + c@,
{
    let mut s = String::from_str(a);
    s.append(b);
    s.append(c);
    s
}

/// `a . b` with a dot between.
pub fn dotted(a: &str, b: &str) -> (r: String)
    ensures
        r@ == a@ + seq!['.'] + b@,
{
    let dot = ".";
    proof {
        reveal_strlit(".");
    }
    concat3(a, dot, b)
}

/// `a . b . c`.
pub fn dotted3(a: &str, b: &str, c: &str) -> (r: String)
    ensures
        r@ == a@ + seq!['.'] + b@ + seq!['.'] + c@,
{
    let ab = dotted(a, b);
    dotted(ab.as_str(), c)
}

/// Whether `pattern` occurs in `s` at byte position `i`.
pub open spec fn bytes_occur_at(s: Seq<u8>, pattern: Seq<u8>, i: int) -> bool {
    0 <= i && i + pattern.len() <= s.len() && s.subrange(i, i + pattern.len()) == pattern
}

/// Whether the byte string `pattern` occurs in `s`.
pub open spec fn bytes_contain(s: Seq<u8>, pattern: Seq<u8>) -> bool {
    exists|i: int| bytes_occur_at(s, pattern, i)
}

/// Byte-level substring search (`str::contains` on the UTF-8 bytes).
pub fn contains_bytes(s: &[u8], pattern: &[u8]) -> (r: bool)
    ensures
        r == bytes_contain(s@, pattern@),
{
    if pattern.len() > s.len() {
        proof {
            assert forall|i: int| !bytes_occur_at(s@, pattern@, i) by {}
        }
        return false;
    }
    let total = s.len();
    let last = total - pattern.len();
    let mut i: usize = 0;
    while i <= last
        invariant
            last == s@.len() - pattern@.len(),
            total == s@.len(),
            pattern@.len() <= s@.len(),
            forall|k: int| 0 <= k < i ==> !bytes_occur_at(s@, pattern@, k),
        decreases last + 1 - i,
    {
        let mut k: usize = 0;
        let mut same = true;
        while k < pattern.len()
            invariant
                i <= last,
                last == s@.len() - pattern@.len(),
                pattern@.len() <= s@.len(),
                total == s@.len(),
                k <= pattern@.len(),
                same ==> forall|m: int| 0 <= m < k ==> s@[i + m] == pattern@[m],
                !same ==> !bytes_occur_at(s@, pattern@, i as int),
            decreases pattern@.len() - k,
        {
            assert(i + k < total);
            if s[i + k] != pattern[k] {
                same = false;
                proof {
                    if bytes_occur_at(s@, pattern@, i as int) {
                        assert(s@.subrange(i as int, i + pattern@.len())[k as int] == s@[i + k]);
                    }
                }
            }
            k = k + 1;
        }
        if same {
            assert(s@.subrange(i as int, i + pattern@.len()) =~= pattern@);
            assert(bytes_occur_at(s@, pattern@, i as int));
            return true;
        }
        if i == last {
            proof {
                assert forall|m: int| !bytes_occur_at(s@, pattern@, m) by {
                    if 0 <= m < i {
                    } else if m == i {
                    } else {
                    }
                }
            }
            return false;
        }
        i = i + 1;
    }
    false
}


pub open spec fn digit_char(d: nat) -> char {
    ((48 + d) as u32) as char
}

/// Decimal digits of `n`, most significant first, no leading zeros.
pub open spec fn decimal(n: nat) -> Seq<char>
    decreases n,
{
    if n < 10 {
        seq![digit_char(n)]
    } else {
        decimal(n / 10).push(digit_char(n % 10))
    }
}

fn digit_str(d: u32) -> (r: &'static str)
    requires
        d < 10,
    ensures
        r@ == seq![digit_char(d as nat)],
{
    if d == 0 {
        proof { reveal_strlit("0"); }
        "0"
    } else if d == 1 {
        proof { reveal_strlit("1"); }
        "1"
    } else if d == 2 {
        proof { reveal_strlit("2"); }
        "2"
    } else if d == 3 {
        proof { reveal_strlit("3"); }
        "3"
    } else if d == 4 {
        proof { reveal_strlit("4"); }
        "4"
    } else if d == 5 {
        proof { reveal_strlit("5"); }
        "5"
    } else if d == 6 {
        proof { reveal_strlit("6"); }
        "6"
    } else if d == 7 {
        proof { reveal_strlit("7"); }
        "7"
    } else if d == 8 {
        proof { reveal_strlit("8"); }
        "8"
    } else {
        proof { reveal_strlit("9"); }
        "9"
    }
}

/// `n` in decimal, as `format!("{n}")` writes it.
pub fn u32_decimal(n: u32) -> (r: String)
    ensures
        r@ == decimal(n as nat),
    decreases n,
{
    if n < 10 {
        String::from_str(digit_str(n))
    } else {
        let mut s = u32_decimal(n / 10);
        s.append(digit_str(n % 10));
        s
    }
}

/// `n` in decimal.
pub fn u64_decimal(n: u64) -> (r: String)
    ensures
        r@ == decimal(n as nat),
    decreases n,
{
    if n < 10 {
        String::from_str(digit_str(n as u32))
    } else {
        let mut s = u64_decimal(n / 10);
        s.append(digit_str((n % 10) as u32));
        s
    }
}

/// Whether `p` is a prefix of `s`, by UTF-8 bytes (`str::starts_with`).
pub open spec fn text_starts_with(s: Seq<char>, p: Seq<char>) -> bool {
    encode_utf8(p).len() <= encode_utf8(s).len() && encode_utf8(s).subrange(
        0,
        encode_utf8(p).len() as int,
    ) == encode_utf8(p)
}

pub fn starts_with(s: &str, p: &str) -> (r: bool)
    ensures
        r == text_starts_with(s@, p@),
{
    let x = s.as_bytes();
    let y = p.as_bytes();
    if y.len() > x.len() {
        return false;
    }
    let mut i: usize = 0;
    while i < y.len()
        invariant
            x@ == s.spec_bytes(),
            y@ == p.spec_bytes(),
            y@.len() <= x@.len(),
            i <= y@.len(),
            forall|k: int| 0 <= k < i ==> x@[k] == y@[k],
        decreases y@.len() - i,
    {
        if x[i] != y[i] {
            proof {
                assert(x@.subrange(0, y@.len() as int)[i as int] == x@[i as int]);
            }
            return false;
        }
        i = i + 1;
    }
    assert(x@.subrange(0, y@.len() as int) =~= y@);
    true
}

} // verus!
