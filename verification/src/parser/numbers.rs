//! Numbers and the trailing annotation comments of Dumper-7 headers:
//! `// 0x0040(0x0004)(Edit, ...)` after a field, `// [0x01] (Virtual)`
//! after a method.
use vstd::prelude::*;
use vstd::string::StringSliceAdditionalSpecFns;
use crate::lexer::{is_digit_byte, is_hex_byte, scan, ByteClass};
use crate::model::SymbolFlags;
use crate::text::{bytes_contain, contains_bytes, str_eq};

verus! {

broadcast use vstd::string::is_ascii_spec_bytes;

/// Value of an ASCII digit in radix 10 or 16.
pub open spec fn digit_value(b: u8, radix: nat) -> Option<nat> {
    if is_digit_byte(b) {
        Some((b - 48) as nat)
    } else if radix == 16 && 97 <= b <= 102 {
        Some((b - 87) as nat)
    } else if radix == 16 && 65 <= b <= 70 {
        Some((b - 55) as nat)
    } else {
        None
    }
}

/// Value of a run of digits; `None` if some byte is not a digit.
pub open spec fn digits_value(s: Seq<u8>, radix: nat) -> Option<nat>
    decreases s.len(),
{
    if s.len() == 0 {
        Some(0)
    } else {
        match (digits_value(s.drop_last(), radix), digit_value(s.last(), radix)) {
            (Some(v), Some(d)) => Some(v * radix + d),
            _ => None,
        }
    }
}

/// What `u32::from_str_radix` gives in radix 10 or 16: an optional `+`,
/// then one or more digits whose value fits in a `u32`.
pub open spec fn radix_u32(s: Seq<u8>, radix: nat) -> Option<u32> {
    let body = if s.len() > 0 && s[0] == 43 {
        s.drop_first()
    } else {
        s
    };
    if body.len() == 0 {
        None
    } else {
        match digits_value(body, radix) {
            Some(v) => if v <= u32::MAX {
                Some(v as u32)
            } else {
                None
            },
            None => None,
        }
    }
}

/// A number token: hex after `0x` or `0X`, decimal otherwise.
pub open spec fn number_value(s: Seq<u8>) -> Option<u32> {
    if s.len() >= 2 && s[0] == 48 && (s[1] == 120 || s[1] == 88) {
        radix_u32(s.subrange(2, s.len() as int), 16)
    } else {
        radix_u32(s, 10)
    }
}

pub proof fn lemma_digits_some(s: Seq<u8>, radix: nat)
    ensures
        digits_value(s, radix) is Some <==> forall|k: int|
            0 <= k < s.len() ==> #[trigger] digit_value(s[k], radix) is Some,
    decreases s.len(),
{
    if s.len() > 0 {
        lemma_digits_some(s.drop_last(), radix);
        if digits_value(s, radix) is Some {
            assert forall|k: int| 0 <= k < s.len() implies #[trigger] digit_value(s[k], radix) is Some by {
                if k < s.len() - 1 {
                    assert(s.drop_last()[k] == s[k]);
                }
            }
        } else {
            if digit_value(s.last(), radix) is Some {
                let k = choose|k: int|
                    0 <= k < s.drop_last().len() && !(#[trigger] digit_value(
                        s.drop_last()[k],
                        radix,
                    ) is Some);
                assert(s.drop_last()[k] == s[k]);
            } else {
                assert(!(digit_value(s[s.len() - 1], radix) is Some));
            }
        }
    }
}

proof fn lemma_capped_step(v: nat, r: nat, d: nat, cap: nat)
    requires
        r >= 1,
        cap > 0,
    ensures
        (if v >= cap {
            cap
        } else {
            v
        }) * r + d >= cap <==> v * r + d >= cap,
        (if v >= cap {
            cap
        } else {
            v
        }) * r + d < cap ==> v * r + d == (if v >= cap {
            cap
        } else {
            v
        }) * r + d,
{
    if v >= cap {
        assert(v * r >= cap * r) by (nonlinear_arith)
            requires
                v >= cap,
                r >= 1,
        ;
        assert(cap * r >= cap) by (nonlinear_arith)
            requires
                r >= 1,
                cap > 0,
        ;
    }
}

/// `u32::from_str_radix` on `b[start..end]`, radix 10 or 16.
fn radix_value(b: &[u8], start: usize, end: usize, radix: u64) -> (r: Option<u32>)
    requires
        start <= end <= b@.len(),
        radix == 10 || radix == 16,
    ensures
        r == radix_u32(b@.subrange(start as int, end as int), radix as nat),
{
    let ghost s = b@.subrange(start as int, end as int);
    let mut i = start;
    if i < end && b[i] == 43 {
        i = i + 1;
    }
    let ghost body = if s.len() > 0 && s[0] == 43 {
        s.drop_first()
    } else {
        s
    };
    assert(body =~= b@.subrange(i as int, end as int));
    if i == end {
        return None;
    }
    let body_start = i;
    let cap: u64 = 0x1_0000_0000;
    let mut acc: u64 = 0;
    while i < end
        invariant
            start <= body_start <= i <= end <= b@.len(),
            s == b@.subrange(start as int, end as int),
            body == (if s.len() > 0 && s[0] == 43 {
                s.drop_first()
            } else {
                s
            }),
            body =~= b@.subrange(body_start as int, end as int),
            radix == 10 || radix == 16,
            cap == 0x1_0000_0000,
            digits_value(b@.subrange(body_start as int, i as int), radix as nat) is Some,
            acc as nat == ({
                let v = digits_value(b@.subrange(body_start as int, i as int), radix as nat)->0;
                if v >= cap {
                    cap as nat
                } else {
                    v
                }
            }),
        decreases end - i,
    {
        let ghost pre = b@.subrange(body_start as int, i as int);
        let ghost post = b@.subrange(body_start as int, i + 1);
        assert(post.drop_last() =~= pre);
        assert(post.last() == b@[i as int]);
        let c = b[i];
        let d: u64 = if 48 <= c && c <= 57 {
            (c - 48) as u64
        } else if radix == 16 && 97 <= c && c <= 102 {
            (c - 87) as u64
        } else if radix == 16 && 65 <= c && c <= 70 {
            (c - 55) as u64
        } else {
            proof {
                lemma_digits_some(body, radix as nat);
                assert(body[i - body_start] == c);
                assert(digit_value(body[i - body_start], radix as nat) is None);
                assert(digits_value(body, radix as nat) is None);
                assert(body.len() > 0);
                assert(radix_u32(s, radix as nat) is None);
            }
            return None;
        };
        proof {
            let v = digits_value(pre, radix as nat)->0;
            lemma_capped_step(v, radix as nat, d as nat, cap as nat);
        }
        let next = acc * radix + d;
        acc = if next >= cap {
            cap
        } else {
            next
        };
        i = i + 1;
    }
    assert(b@.subrange(body_start as int, i as int) =~= body);
    if acc >= cap {
        None
    } else {
        Some(acc as u32)
    }
}

/// The value of a number token: hex after `0x`/`0X`, decimal otherwise;
/// `None` when the digits are malformed or the value does not fit.
pub fn parse_number(s: &str) -> (r: Option<u32>)
    ensures
        r == number_value(s.spec_bytes()),
{
    let b = s.as_bytes();
    if b.len() >= 2 && b[0] == 48 && (b[1] == 120 || b[1] == 88) {
        radix_value(b, 2, b.len(), 16)
    } else {
        proof {
            assert(b@.subrange(0, b@.len() as int) =~= b@);
        }
        radix_value(b, 0, b.len(), 10)
    }
}

/// A `0x` or `0X` starts at `i`.
pub open spec fn hex_prefix_at(b: Seq<u8>, i: int) -> bool {
    0 <= i && i + 1 < b.len() && b[i] == 48 && (b[i + 1] == 120 || b[i + 1] == 88)
}

/// The value of the hex digits right after the `0x` at `i`.
pub open spec fn hex_after(b: Seq<u8>, i: int) -> Option<u32> {
    radix_u32(b.subrange(i + 2, scan(b, i + 2, ByteClass::Hex)), 16)
}

/// Offset and size of a field annotation: the first two `0x` numbers;
/// a `0x` with no valid digits leaves the slot it would fill empty.
pub open spec fn annotation_scan(b: Seq<u8>, i: int, off: Option<u32>) -> (Option<u32>, Option<u32>)
    decreases b.len() - i,
{
    if i < 0 || i + 1 >= b.len() {
        (off, None)
    } else if hex_prefix_at(b, i) {
        let j = scan(b, i + 2, ByteClass::Hex);
        let n = hex_after(b, i);
        if off is None {
            proof {
                lemma_scan_hex(b, i + 2);
            }
            annotation_scan(b, j, n)
        } else {
            (off, n)
        }
    } else {
        annotation_scan(b, i + 1, off)
    }
}

/// The first `0x` number of a vtable annotation.
pub open spec fn vtable_scan(b: Seq<u8>, i: int) -> Option<u32>
    decreases b.len() - i,
{
    if i < 0 || i + 1 >= b.len() {
        None
    } else if hex_prefix_at(b, i) {
        hex_after(b, i)
    } else {
        vtable_scan(b, i + 1)
    }
}

pub open spec fn const_tag(b: Seq<u8>) -> bool {
    bytes_contain(b, seq![40u8, 67, 111, 110, 115, 116]) || bytes_contain(
        b,
        seq![44u8, 32, 67, 111, 110, 115, 116],
    )
}

pub open spec fn edit_tag(b: Seq<u8>) -> bool {
    bytes_contain(b, seq![69u8, 100, 105, 116])
}

/// Tags of an annotation: `const` when it names a `(Const` or `, Const`
/// flag, `editable` when it holds `Edit`.
pub open spec fn annotation_tags(b: Seq<u8>) -> Seq<Seq<char>> {
    let c: Seq<Seq<char>> = if const_tag(b) {
        seq![seq!['c', 'o', 'n', 's', 't']]
    } else {
        Seq::empty()
    };
    if edit_tag(b) {
        c.push(seq!['e', 'd', 'i', 't', 'a', 'b', 'l', 'e'])
    } else {
        c
    }
}

pub proof fn lemma_scan_hex(b: Seq<u8>, j: int)
    requires
        0 <= j <= b.len(),
    ensures
        j <= scan(b, j, ByteClass::Hex) <= b.len(),
    decreases b.len() - j,
{
    if j < b.len() && is_hex_byte(b[j]) {
        lemma_scan_hex(b, j + 1);
    }
}

/// End of the run of hex digits from `j`.
fn hex_run_end(b: &[u8], j: usize) -> (r: usize)
    requires
        j <= b@.len(),
    ensures
        r as int == scan(b@, j as int, ByteClass::Hex),
        j <= r <= b@.len(),
{
    let mut k = j;
    while k < b.len() && ((48 <= b[k] && b[k] <= 57) || (97 <= b[k] && b[k] <= 102) || (65 <= b[k]
        && b[k] <= 70))
        invariant
            j <= k <= b@.len(),
            scan(b@, k as int, ByteClass::Hex) == scan(b@, j as int, ByteClass::Hex),
        decreases b@.len() - k,
    {
        k = k + 1;
    }
    proof {
        lemma_scan_hex(b@, j as int);
    }
    k
}

fn annotation_numbers(b: &[u8]) -> (r: (Option<u32>, Option<u32>))
    ensures
        r == annotation_scan(b@, 0, None),
{
    let mut offset: Option<u32> = None;
    let mut i: usize = 0;
    while b.len() > 0 && i < b.len() - 1
        invariant
            i <= b@.len(),
            annotation_scan(b@, i as int, offset) == annotation_scan(b@, 0, None),
        decreases b@.len() - i,
    {
        if b[i] == 48 && (b[i + 1] == 120 || b[i + 1] == 88) {
            let j = hex_run_end(b, i + 2);
            let n = radix_value(b, i + 2, j, 16);
            if offset.is_none() {
                offset = n;
            } else {
                return (offset, n);
            }
            i = j;
        } else {
            i = i + 1;
        }
    }
    (offset, None)
}

/// Offset, size and tags of the comment after a field declaration.
pub fn parse_field_annotation(comment: &str) -> (r: (Option<u32>, Option<u32>, Vec<String>))
    ensures
        (r.0, r.1) == annotation_scan(comment.spec_bytes(), 0, None),
        r.2@.map_values(|t: String| t@) == annotation_tags(comment.spec_bytes()),
{
    let b = comment.as_bytes();
    let (offset, size) = annotation_numbers(b);
    let mut tags: Vec<String> = Vec::new();
    proof {
        reveal_strlit("const");
        reveal_strlit("editable");
        assert("const"@ =~= seq!['c', 'o', 'n', 's', 't']);
        assert("editable"@ =~= seq!['e', 'd', 'i', 't', 'a', 'b', 'l', 'e']);
    }
    let const_paren: Vec<u8> = vec![40u8, 67, 111, 110, 115, 116];
    let const_comma: Vec<u8> = vec![44u8, 32, 67, 111, 110, 115, 116];
    let edit: Vec<u8> = vec![69u8, 100, 105, 116];
    assert(const_paren@ =~= seq![40u8, 67, 111, 110, 115, 116]);
    assert(const_comma@ =~= seq![44u8, 32, 67, 111, 110, 115, 116]);
    assert(edit@ =~= seq![69u8, 100, 105, 116]);
    let c1 = contains_bytes(b, const_paren.as_slice());
    let c2 = contains_bytes(b, const_comma.as_slice());
    let e = contains_bytes(b, edit.as_slice());
    let ghost c: Seq<Seq<char>> = if const_tag(b@) {
        seq![seq!['c', 'o', 'n', 's', 't']]
    } else {
        Seq::empty()
    };
    if c1 || c2 {
        tags.push(String::from_str("const"));
    }
    assert(tags@.map_values(|t: String| t@) =~= c);
    if e {
        tags.push(String::from_str("editable"));
    }
    proof {
        assert(tags@.map_values(|t: String| t@) =~= annotation_tags(b@));
    }
    (offset, size, tags)
}

/// Sets `const_member` when a tag is `const`.
pub fn apply_extra_flags(flags: &mut SymbolFlags, tags: &Vec<String>)
    ensures
        *final(flags) == (SymbolFlags {
            const_member: old(flags).const_member || exists|k: int|
                0 <= k < tags@.len() && (#[trigger] tags@[k])@ == seq!['c', 'o', 'n', 's', 't'],
            ..*old(flags)
        }),
{
    proof {
        reveal_strlit("const");
    }
    let mut seen = false;
    let mut k: usize = 0;
    while k < tags.len()
        invariant
            k <= tags@.len(),
            seen == exists|m: int|
                0 <= m < k && (#[trigger] tags@[m])@ == seq!['c', 'o', 'n', 's', 't'],
        decreases tags@.len() - k,
    {
        proof {
            reveal_strlit("const");
            assert("const"@ =~= seq!['c', 'o', 'n', 's', 't']);
        }
        if str_eq(tags[k].as_str(), "const") {
            seen = true;
            assert(tags@[k as int]@ == seq!['c', 'o', 'n', 's', 't']);
        }
        k = k + 1;
    }
    if seen {
        flags.const_member = true;
    }
}

/// Vtable slot from the comment after a method declaration.
pub fn parse_vtable_annotation(comment: &str) -> (r: Option<u32>)
    ensures
        r == vtable_scan(comment.spec_bytes(), 0),
{
    let b = comment.as_bytes();
    let mut i: usize = 0;
    while b.len() > 0 && i < b.len() - 1
        invariant
            i <= b@.len(),
            b@ == comment.spec_bytes(),
            vtable_scan(b@, i as int) == vtable_scan(b@, 0),
        decreases b@.len() - i,
    {
        if b[i] == 48 && (b[i + 1] == 120 || b[i + 1] == 88) {
            let j = hex_run_end(b, i + 2);
            assert(vtable_scan(b@, i as int) == hex_after(b@, i as int));
            return radix_value(b, i + 2, j, 16);
        }
        i = i + 1;
    }
    None
}

/// Type names the parser treats as C++ builtins.
pub open spec fn builtin_name(n: Seq<char>) -> bool {
    ||| n == "void"@
    ||| n == "bool"@
    ||| n == "char"@
    ||| n == "int"@
    ||| n == "long"@
    ||| n == "short"@
    ||| n == "float"@
    ||| n == "double"@
    ||| n == "size_t"@
    ||| n == "uint8_t"@
    ||| n == "uint16_t"@
    ||| n == "uint32_t"@
    ||| n == "uint64_t"@
    ||| n == "int8_t"@
    ||| n == "int16_t"@
    ||| n == "int32_t"@
    ||| n == "int64_t"@
    ||| n == "uint8"@
    ||| n == "uint16"@
    ||| n == "uint32"@
    ||| n == "uint64"@
    ||| n == "int8"@
    ||| n == "int16"@
    ||| n == "int32"@
    ||| n == "int64"@
}

/// Whether `name` is one of the builtin type names.
pub fn is_builtin(name: &str) -> (r: bool)
    ensures
        r == builtin_name(name@),
{
    str_eq(name, "void") || str_eq(name, "bool") || str_eq(name, "char") || str_eq(name, "int")
        || str_eq(name, "long") || str_eq(name, "short") || str_eq(name, "float") || str_eq(
        name,
        "double",
    ) || str_eq(name, "size_t") || str_eq(name, "uint8_t") || str_eq(name, "uint16_t") || str_eq(
        name,
        "uint32_t",
    ) || str_eq(name, "uint64_t") || str_eq(name, "int8_t") || str_eq(name, "int16_t") || str_eq(
        name,
        "int32_t",
    ) || str_eq(name, "int64_t") || str_eq(name, "uint8") || str_eq(name, "uint16") || str_eq(
        name,
        "uint32",
    ) || str_eq(name, "uint64") || str_eq(name, "int8") || str_eq(name, "int16") || str_eq(
        name,
        "int32",
    ) || str_eq(name, "int64")
}

} // verus!
