//! The Minecraft VarInt: a 32-bit integer written as little-endian groups of
//! seven bits, each byte but the last carrying the continuation bit `0x80`.
use vstd::prelude::*;

use crate::buffer::{buf_get_u8, buf_put_u8, bytes_mut_view};
use crate::mcp::constants::{
    VARINT_CONTINUE_BIT, VARINT_CONTINUE_BIT_I32, VARINT_MAX_BYTES, VARINT_SEGMENT_BITS,
    VARINT_SEGMENT_BITS_I32,
};
use crate::mcp::error::ProtocolError;

verus! {

/// Whether a byte has its continuation bit set.
pub open spec fn has_more(b: u8) -> bool {
    b >= 0x80
}

/// The seven payload bits of a byte.
pub open spec fn group(b: u8) -> nat {
    (b % 128) as nat
}

/// How many bytes a reader examines, reading at most `budget`: it stops
/// after the first byte without the continuation bit, or when the budget is
/// spent.
pub open spec fn scan_width(s: Seq<u8>, budget: nat) -> nat
    decreases budget,
{
    if budget <= 1 || !has_more(s[0]) {
        1
    } else {
        1 + scan_width(s.drop_first(), (budget - 1) as nat)
    }
}

/// The number of bytes that reading a VarInt at the front of `s` takes.
/// Where `s` is shorter than this, the bytes run out before the VarInt ends.
pub open spec fn varint_width(s: Seq<u8>) -> nat {
    scan_width(s, 5)
}

/// Reading a VarInt at the front of `s` fails: all five bytes that it takes
/// carry the continuation bit.
pub open spec fn varint_too_big(s: Seq<u8>) -> bool {
    varint_width(s) == 5 && has_more(s[4])
}

/// The number that the first `n` bytes of `s` spell as base-128 digits,
/// least significant first.
pub open spec fn groups_value(s: Seq<u8>, n: nat) -> nat
    decreases n,
{
    if n == 0 {
        0
    } else {
        group(s[0]) + 128 * groups_value(s.drop_first(), (n - 1) as nat)
    }
}

/// 128 to the power `k`.
pub open spec fn pow128(k: nat) -> nat
    decreases k,
{
    if k == 0 {
        1
    } else {
        128 * pow128((k - 1) as nat)
    }
}

/// A natural number taken modulo 2^32 and read as a two's complement `i32`.
pub open spec fn wrap_i32(x: nat) -> i32 {
    let m = x % 0x1_0000_0000;
    if m < 0x8000_0000 {
        m as i32
    } else {
        (m - 0x1_0000_0000) as i32
    }
}

/// The value of the VarInt at the front of `s` (where reading succeeds).
pub open spec fn varint_value(s: Seq<u8>) -> i32 {
    wrap_i32(groups_value(s, varint_width(s)))
}

/// The bytes that encode the non-negative number `v`.
pub open spec fn varint_encoding(v: nat) -> Seq<u8>
    decreases v,
{
    if v < 128 {
        seq![v as u8]
    } else {
        seq![(v % 128 + 128) as u8] + varint_encoding(v / 128)
    }
}


// ---------------------------------------------------------------------------
// Facts about the spec functions
// ---------------------------------------------------------------------------

/// 128^k for the exponents that a VarInt reader reaches.
proof fn lemma_pow128_small()
    ensures
        pow128(0) == 1,
        pow128(1) == 128,
        pow128(2) == 16384,
        pow128(3) == 2097152,
        pow128(4) == 268435456,
        pow128(5) == 34359738368,
{
    reveal_with_fuel(pow128, 6);
}

/// Appending a digit: the first `n + 1` digits are the first `n` plus the
/// `n`-th one at weight 128^n.
proof fn lemma_groups_snoc(s: Seq<u8>, n: nat)
    requires
        n < s.len(),
    ensures
        groups_value(s, n + 1) == groups_value(s, n) + group(s[n as int]) * pow128(n),
    decreases n,
{
    let t = s.drop_first();
    if n > 0 {
        lemma_groups_snoc(t, (n - 1) as nat);
        assert(t[n - 1] == s[n as int]);
        let a = groups_value(t, (n - 1) as nat);
        let b = group(s[n as int]);
        let c = pow128((n - 1) as nat);
        assert(groups_value(t, n) == a + b * c);
        assert(pow128(n) == 128 * c);
        assert(128 * (a + b * c) == 128 * a + b * (128 * c)) by (nonlinear_arith);
    } else {
        assert(groups_value(t, 0) == 0);
        assert(pow128(0) == 1);
    }
}

/// The first `n` digits are below 128^n.
proof fn lemma_groups_bound(s: Seq<u8>, n: nat)
    ensures
        groups_value(s, n) < pow128(n),
    decreases n,
{
    if n > 0 {
        lemma_groups_bound(s.drop_first(), (n - 1) as nat);
        let a = groups_value(s.drop_first(), (n - 1) as nat);
        let c = pow128((n - 1) as nat);
        assert(group(s[0]) + 128 * a < 128 * c) by (nonlinear_arith)
            requires
                group(s[0]) < 128,
                a < c,
        ;
    }
}

/// The first `n` digits depend on the first `n` bytes only.
proof fn lemma_groups_prefix(s: Seq<u8>, t: Seq<u8>, n: nat)
    requires
        n <= s.len(),
        n <= t.len(),
        forall|j: int| 0 <= j < n ==> s[j] == t[j],
    ensures
        groups_value(s, n) == groups_value(t, n),
    decreases n,
{
    if n > 0 {
        lemma_groups_prefix(s.drop_first(), t.drop_first(), (n - 1) as nat);
    }
}

/// The scan depends on the bytes that it examines only.
proof fn lemma_scan_prefix(s: Seq<u8>, t: Seq<u8>, budget: nat, n: nat)
    requires
        scan_width(s, budget) <= n,
        n <= s.len(),
        n <= t.len(),
        forall|j: int| 0 <= j < n ==> s[j] == t[j],
    ensures
        scan_width(t, budget) == scan_width(s, budget),
    decreases budget,
{
    if budget > 1 && has_more(s[0]) {
        lemma_scan_prefix(s.drop_first(), t.drop_first(), (budget - 1) as nat, (n - 1) as nat);
    }
}

/// Where the first `k` bytes all carry the continuation bit, the scan goes
/// past them; it ends right after byte `k` when that one does not, or when
/// the budget is spent there.
proof fn lemma_scan_run(s: Seq<u8>, budget: nat, k: nat)
    requires
        k < budget,
        k <= s.len(),
        forall|j: int| 0 <= j < k ==> has_more(#[trigger] s[j]),
    ensures
        scan_width(s, budget) > k,
        (k + 1 == budget || (k < s.len() && !has_more(s[k as int]))) ==> scan_width(s, budget)
            == k + 1,
    decreases k,
{
    if k > 0 {
        assert(has_more(s[0]));
        let t = s.drop_first();
        assert forall|j: int| 0 <= j < k - 1 implies has_more(#[trigger] t[j]) by {
            assert(t[j] == s[j + 1]);
        }
        lemma_scan_run(t, (budget - 1) as nat, (k - 1) as nat);
        if k < s.len() {
            assert(t[k - 1] == s[k as int]);
        }
    }
}

/// Reading looks at the bytes that it takes and at no others: where two
/// buffers agree on them, the outcome is the same.
pub proof fn lemma_varint_prefix(s: Seq<u8>, t: Seq<u8>)
    requires
        varint_width(s) <= s.len(),
        varint_width(s) <= t.len(),
        forall|j: int| 0 <= j < varint_width(s) ==> s[j] == t[j],
    ensures
        varint_width(t) == varint_width(s),
        varint_too_big(t) == varint_too_big(s),
        varint_value(t) == varint_value(s),
{
    let n = varint_width(s);
    lemma_scan_prefix(s, t, 5, n);
    lemma_groups_prefix(s, t, n);
    if n == 5 {
        assert(s[4] == t[4]);
    }
}


/// The encoding of `v` is followed by the remaining bytes `rest`: the scan
/// stops at its last byte, and its digits spell `v`.
proof fn lemma_encoding_parts(v: nat, rest: Seq<u8>, budget: nat)
    requires
        varint_encoding(v).len() <= budget,
    ensures
        scan_width(varint_encoding(v) + rest, budget) == varint_encoding(v).len(),
        groups_value(varint_encoding(v) + rest, varint_encoding(v).len()) == v,
        varint_encoding(v).len() >= 1,
        !has_more(varint_encoding(v).last()),
    decreases v,
{
    let e = varint_encoding(v);
    let s = e + rest;
    if v < 128 {
        assert(s[0] == v as u8);
        assert(groups_value(s.drop_first(), 0) == 0);
    } else {
        let e2 = varint_encoding(v / 128);
        lemma_encoding_parts(v / 128, rest, (budget - 1) as nat);
        assert(s.drop_first() =~= e2 + rest);
        assert(s[0] == (v % 128 + 128) as u8);
        assert(e.last() == e2.last());
    }
}

/// The encoding of `v` is no longer than `k` bytes where `v < 128^k`.
proof fn lemma_encoding_len(v: nat, k: nat)
    requires
        v < pow128(k),
        k >= 1,
    ensures
        varint_encoding(v).len() <= k,
        varint_encoding(v).len() >= 1,
    decreases v,
{
    if v >= 128 {
        assert(varint_encoding(v).len() == 1 + varint_encoding(v / 128).len());
        assert(k >= 2) by {
            reveal_with_fuel(pow128, 2);
        }
        assert(v / 128 < pow128((k - 1) as nat)) by (nonlinear_arith)
            requires
                v < 128 * pow128((k - 1) as nat),
        ;
        lemma_encoding_len(v / 128, (k - 1) as nat);
    }
}

/// The scan takes at least one and at most `budget` bytes.
proof fn lemma_scan_bound(s: Seq<u8>, budget: nat)
    requires
        budget >= 1,
    ensures
        1 <= scan_width(s, budget) <= budget,
    decreases budget,
{
    if budget > 1 && has_more(s[0]) {
        lemma_scan_bound(s.drop_first(), (budget - 1) as nat);
    }
}

/// A non-negative `i32` is encoded in at most five bytes.
pub proof fn lemma_varint_encoding_len(v: i32)
    requires
        v >= 0,
    ensures
        1 <= varint_encoding(v as nat).len() <= 5,
{
    lemma_pow128_small();
    lemma_encoding_len(v as nat, 5);
}

/// What `write` writes, `read` gives back: the encoding of a non-negative
/// number, followed by any bytes, reads as that number, and the reader takes
/// exactly the encoding's bytes.
pub proof fn lemma_varint_roundtrip(v: i32, rest: Seq<u8>)
    requires
        v >= 0,
    ensures
        varint_width(varint_encoding(v as nat) + rest) == varint_encoding(v as nat).len(),
        !varint_too_big(varint_encoding(v as nat) + rest),
        varint_value(varint_encoding(v as nat) + rest) == v,
{
    let e = varint_encoding(v as nat);
    let s = e + rest;
    lemma_varint_encoding_len(v);
    lemma_encoding_parts(v as nat, rest, 5);
    if e.len() == 5 {
        assert(s[4] == e.last());
    }
}

/// The bytes that the scan takes carry the continuation bit, but for the
/// last; the last lacks it unless the budget ran out there.
proof fn lemma_scan_shape(s: Seq<u8>, budget: nat)
    requires
        budget >= 1,
        scan_width(s, budget) <= s.len(),
    ensures
        forall|j: int| 0 <= j < scan_width(s, budget) - 1 ==> has_more(#[trigger] s[j]),
        scan_width(s, budget) < budget ==> !has_more(s[scan_width(s, budget) - 1]),
    decreases budget,
{
    if budget > 1 && has_more(s[0]) {
        let t = s.drop_first();
        lemma_scan_shape(t, (budget - 1) as nat);
        assert forall|j: int| 0 <= j < scan_width(s, budget) - 1 implies has_more(#[trigger] s[j]) by {
            if j > 0 {
                assert(s[j] == t[j - 1]);
            }
        }
        lemma_scan_bound(t, (budget - 1) as nat);
        assert(s[scan_width(s, budget) - 1] == t[scan_width(t, (budget - 1) as nat) - 1]);
    }
}

/// A run of digits whose last one is not zero spells at least 1.
proof fn lemma_groups_positive(s: Seq<u8>, n: nat)
    requires
        1 <= n <= s.len(),
        group(s[n - 1]) != 0,
    ensures
        groups_value(s, n) >= 1,
{
    lemma_groups_snoc(s, (n - 1) as nat);
    let c = pow128((n - 1) as nat);
    assert(c >= 1) by {
        lemma_pow128_positive((n - 1) as nat);
    }
    assert(group(s[n - 1]) * c >= 1) by (nonlinear_arith)
        requires
            group(s[n - 1]) >= 1,
            c >= 1,
    ;
}

proof fn lemma_pow128_positive(k: nat)
    ensures
        pow128(k) >= 1,
    decreases k,
{
    if k > 0 {
        lemma_pow128_positive((k - 1) as nat);
    }
}

/// The encoding of the number that `n` bytes spell is those bytes, where
/// all but the last carry the continuation bit and the last is not zero
/// (unless it is the only one).
proof fn lemma_encoding_of_groups(s: Seq<u8>, n: nat)
    requires
        1 <= n <= s.len(),
        forall|j: int| 0 <= j < n - 1 ==> has_more(#[trigger] s[j]),
        !has_more(s[n - 1]),
        n == 1 || s[n - 1] != 0,
    ensures
        varint_encoding(groups_value(s, n)) == s.take(n as int),
    decreases n,
{
    let t = s.drop_first();
    if n == 1 {
        assert(groups_value(t, 0) == 0);
        assert(s.take(1) =~= seq![s[0]]);
    } else {
        assert forall|j: int| 0 <= j < n - 2 implies has_more(#[trigger] t[j]) by {
            assert(t[j] == s[j + 1]);
        }
        assert(t[n - 2] == s[n - 1]);
        lemma_encoding_of_groups(t, (n - 1) as nat);
        let rest = groups_value(t, (n - 1) as nat);
        lemma_groups_positive(t, (n - 1) as nat);
        assert(has_more(s[0]));
        let v = groups_value(s, n);
        assert(v == group(s[0]) + 128 * rest);
        assert(v % 128 == group(s[0]) && v / 128 == rest) by (nonlinear_arith)
            requires
                v == group(s[0]) + 128 * rest,
                group(s[0]) < 128,
        ;
        assert(s.take(n as int) =~= seq![s[0]] + t.take(n - 1));
    }
}

/// Writing back what `read` read gives the bytes read, where they are the
/// minimal encoding of a non-negative number: the reader took them all
/// without error, the last is not zero (unless it is the only one), and
/// their number fits an `i32` without wrapping.
pub proof fn lemma_varint_rewrite(s: Seq<u8>)
    requires
        varint_width(s) <= s.len(),
        !varint_too_big(s),
        varint_width(s) == 1 || s[varint_width(s) - 1] != 0,
        groups_value(s, varint_width(s)) <= i32::MAX,
    ensures
        varint_value(s) >= 0,
        varint_encoding(varint_value(s) as nat) == s.take(varint_width(s) as int),
{
    let w = varint_width(s);
    lemma_scan_bound(s, 5);
    lemma_scan_shape(s, 5);
    lemma_encoding_of_groups(s, w);
}

/// Feeding the bytes of `s` one by one to a new `VarIntDecoder` gives what
/// `McVarInt::read` gives on `s`: at each byte before the last that the
/// reader takes, the bytes fed so far carry the continuation bit and are too
/// few to end the VarInt, so the decoder waits; at the last one, the bytes
/// fed are exactly those that the reader takes, they give the reader's
/// number, and the byte carries the continuation bit exactly where the
/// reader fails.
pub proof fn lemma_decoder_agrees_with_read(s: Seq<u8>)
    requires
        varint_width(s) <= s.len(),
    ensures
        1 <= varint_width(s) <= 5,
        forall|k: int|
            0 <= k < varint_width(s) - 1 ==> has_more(s[k]) && varint_width(
                #[trigger] s.take(k + 1),
            ) > k + 1,
        varint_width(s.take(varint_width(s) as int)) == varint_width(s),
        varint_too_big(s.take(varint_width(s) as int)) == varint_too_big(s),
        varint_value(s.take(varint_width(s) as int)) == varint_value(s),
        has_more(s[varint_width(s) - 1]) <==> varint_too_big(s),
{
    let w = varint_width(s);
    lemma_scan_bound(s, 5);
    lemma_scan_shape(s, 5);
    assert forall|k: int| 0 <= k < w - 1 implies has_more(s[k]) && varint_width(
        #[trigger] s.take(k + 1),
    ) > k + 1 by {
        let p = s.take(k + 1);
        assert forall|j: int| 0 <= j < k + 1 implies has_more(#[trigger] p[j]) by {
            assert(p[j] == s[j]);
        }
        lemma_scan_run(p, 5, (k + 1) as nat);
    }
    let p = s.take(w as int);
    lemma_varint_prefix(s, p);
}

// ---------------------------------------------------------------------------
// The VarInt value and its codec
// ---------------------------------------------------------------------------

/// A Minecraft VarInt.
pub struct McVarInt(i32);

impl View for McVarInt {
    type V = i32;

    closed spec fn view(&self) -> i32 {
        self.0
    }
}

/// A VarInt reader that is fed one byte at a time, for sources that hand
/// out bytes one by one (a network stream).
pub struct VarIntDecoder {
    value: u64,
    weight: u64,
    count: usize,
    seen: Ghost<Seq<u8>>,
}

impl View for VarIntDecoder {
    type V = Seq<u8>;

    /// The bytes fed so far.
    closed spec fn view(&self) -> Seq<u8> {
        self.seen@
    }
}

/// What a decoder does with one more byte.
pub enum VarIntStep {
    /// The VarInt goes on; feed the next byte to this decoder.
    Pending(VarIntDecoder),
    /// The VarInt ended with this byte.
    Complete(McVarInt),
    /// The fifth byte still carried the continuation bit.
    TooBig,
}

/// `x mod 2^32`, read as a two's complement `i32`.
fn wrap_to_i32(x: u64) -> (r: i32)
    ensures
        r == wrap_i32(x as nat),
{
    let low = x as u32;
    assert(low == x % 0x1_0000_0000) by (bit_vector)
        requires
            low == x as u32,
    ;
    let r = low as i32;
    assert(low < 0x8000_0000 ==> r == low) by (bit_vector)
        requires
            r == low as i32,
    ;
    assert(low >= 0x8000_0000 ==> r == low - 0x1_0000_0000) by (bit_vector)
        requires
            r == low as i32,
    ;
    r
}

impl VarIntDecoder {
    #[verifier::type_invariant]
    spec fn inv(self) -> bool {
        &&& self.count == self.seen@.len()
        &&& self.count < 5
        &&& forall|j: int| 0 <= j < self.count ==> has_more(#[trigger] self.seen@[j])
        &&& self.value == groups_value(self.seen@, self.count as nat)
        &&& self.weight == pow128(self.count as nat)
    }

    /// A decoder that has seen no byte.
    pub fn new() -> (d: Self)
        ensures
            d@ == Seq::<u8>::empty(),
    {
        VarIntDecoder { value: 0, weight: 1, count: 0, seen: Ghost(Seq::empty()) }
    }

    /// Feeds one byte. With `s` the bytes fed so far and this one: the
    /// VarInt is complete when the byte has no continuation bit, and then has
    /// the value that reading `s` gives; it is too big when this was the
    /// fifth byte and it has the bit; else the decoder waits for more.
    pub fn feed(self, byte: u8) -> (r: VarIntStep)
        ensures
            ({
                let s = self@.push(byte);
                match r {
                    VarIntStep::Complete(v) => !has_more(byte) && varint_width(s) == s.len()
                        && v@ == varint_value(s),
                    VarIntStep::TooBig => has_more(byte) && varint_width(s) == s.len()
                        && varint_too_big(s),
                    VarIntStep::Pending(d) => has_more(byte) && varint_width(s) > s.len() && d@
                        == s,
                }
            }),
    {
        proof {
            use_type_invariant(&self);
        }
        let ghost s = self.seen@.push(byte);
        let ghost k = self.count as nat;
        let g = (byte & VARINT_SEGMENT_BITS) as u64;
        assert(byte & 0x7f == byte % 128) by (bit_vector);
        assert((byte & 0x80 == 0) == (byte < 128)) by (bit_vector);
        proof {
            assert(s[k as int] == byte);
            lemma_groups_prefix(self.seen@, s, k);
            lemma_groups_snoc(s, k);
            lemma_pow128_small();
            lemma_groups_bound(self.seen@, k);
            assert forall|j: int| 0 <= j < k implies has_more(#[trigger] s[j]) by {
                assert(s[j] == self.seen@[j]);
            }
            lemma_scan_run(s, 5, k);
            assert(g * self.weight <= 127 * 268435456) by (nonlinear_arith)
                requires
                    g < 128,
                    self.weight <= 268435456,
            ;
        }
        let value = self.value + g * self.weight;
        let count = self.count + 1;
        if byte & VARINT_CONTINUE_BIT == 0 {
            VarIntStep::Complete(McVarInt(wrap_to_i32(value)))
        } else if count == VARINT_MAX_BYTES {
            VarIntStep::TooBig
        } else {
            proof {
                assert forall|j: int| 0 <= j < count implies has_more(#[trigger] s[j]) by {
                    if j < k {
                        assert(s[j] == self.seen@[j]);
                    }
                }
                lemma_scan_run(s, 5, count as nat);
            }
            VarIntStep::Pending(
                VarIntDecoder { value, weight: self.weight * 128, count, seen: Ghost(s) },
            )
        }
    }
}

impl McVarInt {
    /// The VarInt of `value`.
    pub fn new(value: i32) -> (r: Self)
        ensures
            r@ == value,
    {
        McVarInt(value)
    }

    /// The number.
    pub fn value(&self) -> (r: i32)
        ensures
            r == self@,
    {
        self.0
    }

    /// Reads a VarInt from the front of `buf` and takes its bytes off. It
    /// takes at most five bytes, and fails when the fifth still carries the
    /// continuation bit. The buffer must hold the bytes that the reader takes
    /// (the buffer's own `get_u8` panics when it runs dry).
    pub fn read(buf: &mut bytes::BytesMut) -> (r: Result<McVarInt, ProtocolError>)
        requires
            varint_width(bytes_mut_view(*old(buf))) <= bytes_mut_view(*old(buf)).len(),
        ensures
            bytes_mut_view(*final(buf)) == bytes_mut_view(*old(buf)).skip(
                varint_width(bytes_mut_view(*old(buf))) as int,
            ),
            varint_too_big(bytes_mut_view(*old(buf))) ==> r == Err::<McVarInt, ProtocolError>(
                ProtocolError::VarIntTooBig,
            ),
            !varint_too_big(bytes_mut_view(*old(buf))) ==> (r matches Ok(v) && v@ == varint_value(
                bytes_mut_view(*old(buf)),
            )),
    {
        let ghost orig = bytes_mut_view(*buf);
        let mut dec = VarIntDecoder::new();
        loop
            invariant
                orig == bytes_mut_view(*old(buf)),
                varint_width(orig) <= orig.len(),
                dec@.len() < 5,
                dec@.len() <= orig.len(),
                dec@ == orig.take(dec@.len() as int),
                bytes_mut_view(*buf) == orig.skip(dec@.len() as int),
                forall|j: int| 0 <= j < dec@.len() ==> has_more(#[trigger] dec@[j]),
            decreases 5 - dec@.len(),
        {
            proof {
                assert forall|j: int| 0 <= j < dec@.len() implies has_more(#[trigger] orig[j]) by {
                    assert(orig[j] == dec@[j]);
                }
                lemma_scan_run(orig, 5, dec@.len());
            }
            let byte = buf_get_u8(buf);
            let ghost s = dec@.push(byte);
            proof {
                assert(s =~= orig.take(s.len() as int));
                assert(bytes_mut_view(*buf) =~= orig.skip(s.len() as int));
            }
            match dec.feed(byte) {
                VarIntStep::Complete(v) => {
                    proof {
                        lemma_varint_prefix(s, orig);
                        assert(varint_width(orig) == s.len());
                    }
                    return Ok(v);
                },
                VarIntStep::TooBig => {
                    proof {
                        lemma_varint_prefix(s, orig);
                    }
                    return Err(ProtocolError::VarIntTooBig);
                },
                VarIntStep::Pending(d) => {
                    proof {
                        lemma_scan_bound(s, 5);
                        assert forall|j: int| 0 <= j < s.len() implies has_more(#[trigger] s[j]) by {
                            if j < s.len() - 1 {
                                assert(s[j] == dec@[j]);
                            }
                        }
                    }
                    dec = d;
                },
            }
        }
    }

    /// Reads a VarInt at the front of `data` as `read` does, without taking
    /// anything: `None` where the bytes run out before the VarInt ends, else
    /// the error of `read`, or the number and the count of bytes it takes.
    pub fn peek(data: &[u8]) -> (r: Option<Result<(i32, usize), ProtocolError>>)
        ensures
            r is None <==> varint_width(data@) > data@.len(),
            r matches Some(Err(e)) ==> e == ProtocolError::VarIntTooBig,
            r matches Some(Err(_)) <==> (varint_width(data@) <= data@.len() && varint_too_big(
                data@,
            )),
            r matches Some(Ok((v, w))) ==> v == varint_value(data@) && w == varint_width(data@),
    {
        let mut dec = VarIntDecoder::new();
        let mut i: usize = 0;
        loop
            invariant
                i == dec@.len(),
                i < 5,
                i <= data@.len(),
                dec@ == data@.take(i as int),
                forall|j: int| 0 <= j < i ==> has_more(#[trigger] dec@[j]),
            decreases 5 - i,
        {
            proof {
                assert forall|j: int| 0 <= j < i implies has_more(#[trigger] data@[j]) by {
                    assert(data@[j] == dec@[j]);
                }
                lemma_scan_run(data@, 5, i as nat);
            }
            if i == data.len() {
                return None;
            }
            let byte = data[i];
            let ghost s = dec@.push(byte);
            assert(s =~= data@.take(i + 1));
            match dec.feed(byte) {
                VarIntStep::Complete(v) => {
                    proof {
                        lemma_varint_prefix(s, data@);
                    }
                    return Some(Ok((v.0, i + 1)));
                },
                VarIntStep::TooBig => {
                    proof {
                        lemma_varint_prefix(s, data@);
                    }
                    return Some(Err(ProtocolError::VarIntTooBig));
                },
                VarIntStep::Pending(d) => {
                    proof {
                        lemma_scan_bound(s, 5);
                        assert forall|j: int| 0 <= j < s.len() implies has_more(#[trigger] s[j]) by {
                            if j < s.len() - 1 {
                                assert(s[j] == dec@[j]);
                            }
                        }
                    }
                    dec = d;
                    i = i + 1;
                },
            }
        }
    }

    /// Reads a VarInt as `read` does and hands out its number.
    pub fn read_i32(buf: &mut bytes::BytesMut) -> (r: Result<i32, ProtocolError>)
        requires
            varint_width(bytes_mut_view(*old(buf))) <= bytes_mut_view(*old(buf)).len(),
        ensures
            bytes_mut_view(*final(buf)) == bytes_mut_view(*old(buf)).skip(
                varint_width(bytes_mut_view(*old(buf))) as int,
            ),
            r == (if varint_too_big(bytes_mut_view(*old(buf))) {
                Err::<i32, ProtocolError>(ProtocolError::VarIntTooBig)
            } else {
                Ok(varint_value(bytes_mut_view(*old(buf))))
            }),
    {
        match Self::read(buf) {
            Ok(v) => Ok(v.0),
            Err(e) => Err(e),
        }
    }

    /// Appends the encoding of the number to `buf` and returns how many bytes
    /// it took. The number must not be negative: for a negative number the
    /// shift keeps the sign and the writer would never stop.
    pub fn write(&self, buf: &mut bytes::BytesMut) -> (n: u8)
        requires
            self@ >= 0,
            bytes_mut_view(*old(buf)).len() + 5 <= isize::MAX,
        ensures
            bytes_mut_view(*final(buf)) == bytes_mut_view(*old(buf)) + varint_encoding(
                self@ as nat,
            ),
            n == varint_encoding(self@ as nat).len(),
    {
        let ghost orig = bytes_mut_view(*buf);
        let ghost target = varint_encoding(self.0 as nat);
        let mut length: u8 = 0;
        let mut value: i32 = self.0;
        proof {
            lemma_varint_encoding_len(self.0);
        }
        loop
            invariant
                orig == bytes_mut_view(*old(buf)),
                value >= 0,
                target == varint_encoding(self@ as nat),
                target.len() <= 5,
                orig.len() + 5 <= isize::MAX,
                bytes_mut_view(*buf) + varint_encoding(value as nat) == orig + target,
                length + varint_encoding(value as nat).len() == target.len(),
            decreases value,
        {
            let ghost e = varint_encoding(value as nat);
            assert(value >= 0 ==> ((value & !0x7Fi32) == 0) == (value < 128)) by (bit_vector);
            length = length + 1;
            if (value & !VARINT_SEGMENT_BITS_I32) == 0 {
                let b = value as u8;
                proof {
                    assert(e =~= seq![b]);
                    assert(bytes_mut_view(*buf).len() + 1 <= isize::MAX) by {
                        assert((bytes_mut_view(*buf) + e).len() == (orig + target).len());
                    }
                }
                buf_put_u8(buf, b);
                assert(bytes_mut_view(*buf) =~= orig + target);
                return length;
            } else {
                let b = ((value & VARINT_SEGMENT_BITS_I32) | VARINT_CONTINUE_BIT_I32) as u8;
                assert(value >= 0 ==> (((value & 0x7Fi32) | 0x80i32) as u8) == (value % 128
                    + 128) as u8) by (bit_vector);
                assert(value >= 0 ==> value >> 7 == value / 128) by (bit_vector);
                let ghost before = bytes_mut_view(*buf);
                proof {
                    let rest = varint_encoding((value / 128) as nat);
                    assert(e =~= seq![b] + rest);
                    lemma_pow128_small();
                    lemma_encoding_len((value / 128) as nat, 5);
                    assert(before.len() + 1 <= isize::MAX) by {
                        assert((before + e).len() == (orig + target).len());
                        lemma_encoding_parts((value / 128) as nat, Seq::empty(), 5);
                    }
                }
                buf_put_u8(buf, b);
                value = value >> 7;
                proof {
                    assert(bytes_mut_view(*buf) + varint_encoding(value as nat) =~= before + e);
                }
            }
        }
    }
}

} // verus!
