//! Sequential reads over a byte buffer: unsigned varints, length-prefixed UTF-8
//! strings, big-endian 128-bit identifiers and presence flags.
//!
//! Every reader takes the buffer and a position and returns the decoded value
//! with the position just after it, or `None` when the bytes are truncated or
//! malformed. Each one is specified by a spec function of the same shape.
use vstd::arithmetic::div_mod::{lemma_breakdown, lemma_small_mod};
use vstd::prelude::*;
use vstd::slice::slice_subrange;
use vstd::utf8::{
    decode_utf8, encode_utf8, encode_utf8_decode_utf8, encode_utf8_valid_utf8, valid_utf8,
};

verus! {

/// The most bytes a varint may take.
pub const VARINT_MAX_BYTES: usize = 5;

/// `128^i`: the weight of the `i`-th seven-bit group of a varint.
pub open spec fn weight(i: nat) -> nat
    decreases i,
{
    if i == 0 {
        1
    } else {
        128 * weight((i - 1) as nat)
    }
}

/// Reads the varint groups from the `i`-th on, with `acc` the value of the
/// groups before it. A group with its high bit clear ends the varint.
pub open spec fn varint_from(s: Seq<u8>, pos: int, i: nat, acc: nat) -> Option<(nat, int)>
    decreases 5 - i,
{
    if i >= 5 || pos < 0 || pos + i >= s.len() {
        None
    } else {
        let b = s[pos + i];
        let acc2 = acc + (b % 128) as nat * weight(i);
        if b < 128 {
            Some((acc2, pos + i + 1))
        } else {
            varint_from(s, pos, i + 1, acc2)
        }
    }
}

/// The varint at `pos`, least significant group first, kept to its low 32 bits.
pub open spec fn spec_read_varint(s: Seq<u8>, pos: int) -> Option<(u32, int)> {
    match varint_from(s, pos, 0, 0) {
        Some((v, n)) => Some(((v % 0x1_0000_0000) as u32, n)),
        None => None,
    }
}

/// A varint length at `pos` followed by that many bytes of valid UTF-8.
pub open spec fn spec_read_string(s: Seq<u8>, pos: int) -> Option<(Seq<char>, int)> {
    match spec_read_varint(s, pos) {
        Some((len, p)) => {
            let end = p + len;
            if end <= s.len() && valid_utf8(s.subrange(p, end)) {
                Some((decode_utf8(s.subrange(p, end)), end))
            } else {
                None
            }
        },
        None => None,
    }
}

/// The unsigned big-endian value of a byte sequence.
pub open spec fn be_value(b: Seq<u8>) -> nat
    decreases b.len(),
{
    if b.len() == 0 {
        0
    } else {
        be_value(b.drop_last()) * 256 + b.last() as nat
    }
}

/// Sixteen bytes at `pos`, most significant first.
pub open spec fn spec_read_uuid(s: Seq<u8>, pos: int) -> Option<(u128, int)> {
    if 0 <= pos && pos + 16 <= s.len() {
        Some((be_value(s.subrange(pos, pos + 16)) as u128, pos + 16))
    } else {
        None
    }
}

/// A presence flag at `pos` (zero: absent), then the string when present.
pub open spec fn spec_read_optional_string(s: Seq<u8>, pos: int) -> Option<(Option<Seq<char>>, int)> {
    if 0 <= pos < s.len() {
        if s[pos] == 0 {
            Some((None, pos + 1))
        } else {
            match spec_read_string(s, pos + 1) {
                Some((t, n)) => Some((Some(t), n)),
                None => None,
            }
        }
    } else {
        None
    }
}

proof fn lemma_weight_bound(i: nat)
    requires
        i <= 5,
    ensures
        1 <= weight(i) <= weight(5),
        weight(5) == 0x8_0000_0000,
    decreases 5 - i,
{
    reveal_with_fuel(weight, 6);
    if i < 5 {
        lemma_weight_bound(i + 1);
        assert(weight(i + 1) == 128 * weight(i));
    }
}

/// A big-endian value is below `256^len`.
pub proof fn lemma_be_value_bound(b: Seq<u8>)
    ensures
        be_value(b) < pow256(b.len()),
    decreases b.len(),
{
    if b.len() > 0 {
        lemma_be_value_bound(b.drop_last());
        let x = be_value(b.drop_last());
        let p = pow256(b.drop_last().len());
        assert(x * 256 + b.last() < p * 256) by (nonlinear_arith)
            requires
                x < p,
                b.last() < 256,
        ;
    }
}

/// `256^n`.
pub open spec fn pow256(n: nat) -> nat
    decreases n,
{
    if n == 0 {
        1
    } else {
        256 * pow256((n - 1) as nat)
    }
}

/// Reads the varint at `pos`.
pub fn read_varint(s: &[u8], pos: usize) -> (r: Option<(u32, usize)>)
    ensures
        match r {
            Some((v, n)) => spec_read_varint(s@, pos as int) == Some((v, n as int)),
            None => spec_read_varint(s@, pos as int) is None,
        },
        r matches Some((v, n)) ==> pos < n <= s@.len(),
{
    let mut i: usize = 0;
    let mut acc: u64 = 0;
    let mut scale: u64 = 1;
    while i < VARINT_MAX_BYTES
        invariant
            i <= 5,
            scale == weight(i as nat),
            acc < weight(i as nat),
            varint_from(s@, pos as int, 0, 0) == varint_from(s@, pos as int, i as nat, acc as nat),
        decreases 5 - i,
    {
        proof {
            lemma_weight_bound(i as nat);
            lemma_weight_bound((i + 1) as nat);
        }
        if pos >= s.len() || i >= s.len() - pos {
            return None;
        }
        let b = s[pos + i];
        let low = (b % 128) as u64;
        assert(acc + low * scale < 128 * scale) by (nonlinear_arith)
            requires
                acc < scale,
                low < 128,
        ;
        assert(weight((i + 1) as nat) == 128 * weight(i as nat));
        let next = acc + low * scale;
        if b < 128 {
            return Some(((next % 0x1_0000_0000) as u32, pos + i + 1));
        }
        acc = next;
        scale = scale * 128;
        i = i + 1;
    }
    None
}

/// Relies on `std::str::from_utf8`: it succeeds exactly on valid UTF-8, and the
/// characters are those the bytes encode.
#[verifier::external_body]
fn utf8_to_string(b: &[u8]) -> (r: Option<String>)
    ensures
        r is Some <==> valid_utf8(b@),
        r matches Some(t) ==> t@ == decode_utf8(b@),
{
    match std::str::from_utf8(b) {
        Ok(t) => Some(t.to_owned()),
        Err(_) => None,
    }
}

/// Reads the length-prefixed UTF-8 string at `pos`.
pub fn read_string(s: &[u8], pos: usize) -> (r: Option<(String, usize)>)
    ensures
        match r {
            Some((t, n)) => spec_read_string(s@, pos as int) == Some((t@, n as int)),
            None => spec_read_string(s@, pos as int) is None,
        },
        r matches Some((t, n)) ==> pos < n <= s@.len(),
{
    let (len, p) = match read_varint(s, pos) {
        Some(x) => x,
        None => return None,
    };
    if len as usize > s.len() - p {
        return None;
    }
    let end = p + len as usize;
    let bytes = slice_subrange(s, p, end);
    match utf8_to_string(bytes) {
        Some(t) => Some((t, end)),
        None => None,
    }
}

/// Reads the sixteen-byte big-endian identifier at `pos`.
pub fn read_uuid(s: &[u8], pos: usize) -> (r: Option<(u128, usize)>)
    ensures
        match r {
            Some((v, n)) => spec_read_uuid(s@, pos as int) == Some((v, n as int)),
            None => spec_read_uuid(s@, pos as int) is None,
        },
{
    if pos > s.len() || s.len() - pos < 16 {
        return None;
    }
    let mut acc: u128 = 0;
    let mut j: usize = 0;
    while j < 16
        invariant
            pos + 16 <= s.len(),
            j <= 16,
            acc == be_value(s@.subrange(pos as int, pos + j)),
        decreases 16 - j,
    {
        let ghost prefix = s@.subrange(pos as int, pos + j);
        let ghost next = s@.subrange(pos as int, pos + j + 1);
        proof {
            assert(next.drop_last() =~= prefix);
            lemma_be_value_bound(next);
            reveal_with_fuel(pow256, 17);
            assert(pow256(next.len()) <= pow256(16)) by {
                lemma_pow256_mono(next.len(), 16);
            }
        }
        acc = acc * 256 + s[pos + j] as u128;
        j = j + 1;
    }
    Some((acc, pos + 16))
}

proof fn lemma_pow256_pos(n: nat)
    ensures
        pow256(n) > 0,
    decreases n,
{
    if n > 0 {
        lemma_pow256_pos((n - 1) as nat);
    }
}

proof fn lemma_pow256_mono(a: nat, b: nat)
    requires
        a <= b,
    ensures
        pow256(a) <= pow256(b),
    decreases b - a,
{
    if a < b {
        lemma_pow256_mono(a, (b - 1) as nat);
    }
}

/// Reads the presence flag at `pos` and, when set, the string after it.
pub fn read_optional_string(s: &[u8], pos: usize) -> (r: Option<(Option<String>, usize)>)
    ensures
        match r {
            Some((t, n)) => spec_read_optional_string(s@, pos as int) == Some((
                match t {
                    Some(x) => Some(x@),
                    None => None,
                },
                n as int,
            )),
            None => spec_read_optional_string(s@, pos as int) is None,
        },
        r matches Some((t, n)) ==> pos < n <= s@.len(),
{
    if pos >= s.len() {
        return None;
    }
    if s[pos] == 0 {
        return Some((None, pos + 1));
    }
    match read_string(s, pos + 1) {
        Some((t, n)) => Some((Some(t), n)),
        None => None,
    }
}

/// `x` stands in `s` from `pos` on.
pub open spec fn at(s: Seq<u8>, pos: int, x: Seq<u8>) -> bool {
    0 <= pos && pos + x.len() <= s.len() && s.subrange(pos, pos + x.len()) == x
}

/// The varint of `v`: seven bits per byte, least significant first, the high
/// bit set on every byte but the last.
pub open spec fn encode_varint(v: nat) -> Seq<u8>
    decreases v,
{
    if v < 128 {
        seq![v as u8]
    } else {
        seq![((v % 128) + 128) as u8] + encode_varint(v / 128)
    }
}

/// The length of the UTF-8 encoding of `t` as a varint, then that encoding.
pub open spec fn encode_string(t: Seq<char>) -> Seq<u8> {
    encode_varint(encode_utf8(t).len()) + encode_utf8(t)
}

/// Whether `t` fits a length-prefixed string.
pub open spec fn string_fits(t: Seq<char>) -> bool {
    encode_utf8(t).len() < 0x1_0000_0000
}

/// The low `len` bytes of `n`, most significant first.
pub open spec fn be_bytes(n: nat, len: nat) -> Seq<u8>
    decreases len,
{
    if len == 0 {
        seq![]
    } else {
        be_bytes(n / 256, (len - 1) as nat).push((n % 256) as u8)
    }
}

/// A presence flag, then the string when present.
pub open spec fn encode_optional_string(o: Option<Seq<char>>) -> Seq<u8> {
    match o {
        None => seq![0u8],
        Some(t) => seq![1u8] + encode_string(t),
    }
}

/// A part of what stands at `pos` stands there too, and the rest after it.
pub proof fn lemma_at_concat(s: Seq<u8>, pos: int, a: Seq<u8>, b: Seq<u8>)
    requires
        at(s, pos, a + b),
    ensures
        at(s, pos, a),
        at(s, pos + a.len(), b),
{
    let whole = s.subrange(pos, pos + (a + b).len());
    assert(s.subrange(pos, pos + a.len()) =~= whole.subrange(0, a.len() as int));
    assert(whole.subrange(0, a.len() as int) =~= a);
    assert(s.subrange(pos + a.len(), pos + a.len() + b.len()) =~= whole.subrange(
        a.len() as int,
        (a.len() + b.len()) as int,
    ));
    assert(whole.subrange(a.len() as int, (a.len() + b.len()) as int) =~= b);
}

proof fn lemma_varint_from_encoded(s: Seq<u8>, pos: int, i: nat, acc: nat, w: nat)
    requires
        pos >= 0,
        i < 5,
        w < weight((5 - i) as nat),
        at(s, pos + i, encode_varint(w)),
    ensures
        varint_from(s, pos, i, acc) == Some(((acc + w * weight(i)) as nat, pos + i + encode_varint(w).len())),
    decreases w,
{
    let enc = encode_varint(w);
    assert(s[pos + i] == s.subrange(pos + i, pos + i + enc.len())[0]);
    reveal_with_fuel(weight, 2);
    if w >= 128 {
        let rest = encode_varint(w / 128);
        assert(enc == seq![((w % 128) + 128) as u8] + rest);
        lemma_at_concat(s, pos + i, seq![((w % 128) + 128) as u8], rest);
        assert(i + 1 < 5) by {
            if i == 4 {
                assert(weight(1) == 128);
            }
        }
        let wi = weight(i);
        assert(weight((5 - i) as nat) == 128 * weight((4 - i) as nat));
        assert(w / 128 < weight((4 - i) as nat)) by (nonlinear_arith)
            requires
                w < 128 * weight((4 - i) as nat),
        ;
        assert(weight(i + 1) == 128 * wi);
        lemma_varint_from_encoded(s, pos, i + 1, acc + (w % 128) * wi, w / 128);
        assert(acc + (w % 128) * wi + (w / 128) * (128 * wi) == acc + w * wi) by (nonlinear_arith)
            requires
                w == 128 * (w / 128) + w % 128,
        ;
    }
}

/// A varint written at `pos` reads back as its value.
pub proof fn lemma_read_varint_encoded(s: Seq<u8>, pos: int, v: u32)
    requires
        at(s, pos, encode_varint(v as nat)),
    ensures
        spec_read_varint(s, pos) == Some((v, pos + encode_varint(v as nat).len())),
{
    lemma_weight_bound(0);
    reveal_with_fuel(weight, 2);
    lemma_varint_from_encoded(s, pos, 0, 0, v as nat);
    lemma_small_mod(v as nat, 0x1_0000_0000);
}

/// A string written at `pos` reads back as its characters.
pub proof fn lemma_read_string_encoded(s: Seq<u8>, pos: int, t: Seq<char>)
    requires
        string_fits(t),
        at(s, pos, encode_string(t)),
    ensures
        spec_read_string(s, pos) == Some((t, pos + encode_string(t).len())),
{
    let bytes = encode_utf8(t);
    let len = bytes.len() as u32;
    lemma_at_concat(s, pos, encode_varint(len as nat), bytes);
    lemma_read_varint_encoded(s, pos, len);
    encode_utf8_valid_utf8(t);
    encode_utf8_decode_utf8(t);
}

/// A presence flag and string written at `pos` read back as they were.
pub proof fn lemma_read_optional_string_encoded(s: Seq<u8>, pos: int, o: Option<Seq<char>>)
    requires
        o matches Some(t) ==> string_fits(t),
        at(s, pos, encode_optional_string(o)),
    ensures
        spec_read_optional_string(s, pos) == Some((o, pos + encode_optional_string(o).len())),
{
    let enc = encode_optional_string(o);
    assert(s[pos] == s.subrange(pos, pos + enc.len())[0]);
    if let Some(t) = o {
        lemma_at_concat(s, pos, seq![1u8], encode_string(t));
        lemma_read_string_encoded(s, pos + 1, t);
    }
}

/// `be_bytes` gives `len` bytes, which read back as `n` modulo `256^len`.
pub proof fn lemma_be_bytes(n: nat, len: nat)
    ensures
        be_bytes(n, len).len() == len,
        be_value(be_bytes(n, len)) == n % pow256(len),
    decreases len,
{
    if len > 0 {
        let p = pow256((len - 1) as nat);
        lemma_be_bytes(n / 256, (len - 1) as nat);
        assert(be_bytes(n, len).drop_last() =~= be_bytes(n / 256, (len - 1) as nat));
        lemma_pow256_pos((len - 1) as nat);
        lemma_breakdown(n as int, 256, p as int);
        assert(256 * ((n / 256) % p) == ((n / 256) % p) * 256) by (nonlinear_arith);
    } else {
        assert(pow256(0) == 1);
        assert(n % 1 == 0);
    }
}

/// An identifier written at `pos` as sixteen big-endian bytes reads back.
pub proof fn lemma_read_uuid_encoded(s: Seq<u8>, pos: int, id: u128)
    requires
        at(s, pos, be_bytes(id as nat, 16)),
    ensures
        spec_read_uuid(s, pos) == Some((id, pos + 16)),
{
    lemma_be_bytes(id as nat, 16);
    reveal_with_fuel(pow256, 17);
    assert(pow256(16) == 0x1_0000_0000_0000_0000_0000_0000_0000_0000);
    lemma_small_mod(id as nat, pow256(16));
}

} // verus!
