//! The binary sample layer: little-endian words of a fixed width in bytes.
//!
//! A binary buffer is a run of words, each `width` bytes wide, least
//! significant byte first. Bytes at the end that do not fill a word are
//! dropped when reading.

use byteorder::{ByteOrder, LittleEndian};
use vstd::arithmetic::div_mod::{lemma_fundamental_div_mod, lemma_fundamental_div_mod_converse};
use vstd::prelude::*;

verus! {

/// The value of bytes read least significant first.
pub open spec fn le_value(b: Seq<u8>) -> nat
    decreases b.len(),
{
    if b.len() == 0 {
        0
    } else {
        b[0] as nat + 256 * le_value(b.drop_first())
    }
}

/// `256` to the power `n`: the number of values that `n` bytes hold.
pub open spec fn pow256(n: nat) -> nat
    decreases n,
{
    if n == 0 {
        1
    } else {
        256 * pow256((n - 1) as nat)
    }
}

/// The bytes of word `i` in a buffer of `width`-byte words.
pub open spec fn word_bytes(b: Seq<u8>, width: nat, i: int) -> Seq<u8> {
    b.subrange(width * i, width * i + width)
}

/// The whole words of a buffer of `width`-byte words, in order.
pub open spec fn decoded(b: Seq<u8>, width: nat) -> Seq<u64> {
    Seq::new(b.len() / width, |i: int| le_value(word_bytes(b, width, i)) as u64)
}

/// Relies on byteorder's `LittleEndian::read_uint`: the `nbytes` bytes from
/// `start` on, least significant first. It panics unless `1 <= nbytes <= 8`
/// and the slice holds `nbytes` bytes.
#[verifier::external_body]
fn read_word(buf: &[u8], start: usize, nbytes: usize) -> (r: u64)
    requires
        1 <= nbytes <= 8,
        start + nbytes <= buf@.len(),
    ensures
        r as nat == le_value(buf@.subrange(start as int, start + nbytes)),
{
    LittleEndian::read_uint(&buf[start..], nbytes)
}

/// Relies on byteorder's `LittleEndian::write_uint`: `value` is written to
/// the `nbytes` bytes from `start` on, least significant first, and no other
/// byte changes. It panics unless `1 <= nbytes <= 8`, the value fits in
/// `nbytes` bytes and the slice holds them.
#[verifier::external_body]
fn write_word(buf: &mut Vec<u8>, start: usize, value: u64, nbytes: usize)
    requires
        1 <= nbytes <= 8,
        start + nbytes <= old(buf)@.len(),
        value < pow256(nbytes as nat),
    ensures
        final(buf)@.len() == old(buf)@.len(),
        forall|k: int|
            0 <= k < old(buf)@.len() && !(start <= k < start + nbytes)
                ==> #[trigger] final(buf)@[k] == old(buf)@[k],
        le_value(final(buf)@.subrange(start as int, start + nbytes)) == value,
{
    LittleEndian::write_uint(&mut buf[start..], value, nbytes)
}

proof fn lemma_le_value_split(b: Seq<u8>)
    requires
        b.len() > 0,
    ensures
        le_value(b) % 256 == b[0],
        le_value(b) / 256 == le_value(b.drop_first()),
{
    lemma_fundamental_div_mod_converse(
        le_value(b) as int,
        256,
        le_value(b.drop_first()) as int,
        b[0] as int,
    );
}

proof fn lemma_le_value_bound(b: Seq<u8>)
    ensures
        le_value(b) < pow256(b.len()),
    decreases b.len(),
{
    if b.len() > 0 {
        lemma_le_value_bound(b.drop_first());
    }
}

proof fn lemma_pow256_monotone(m: nat, n: nat)
    requires
        m <= n,
    ensures
        pow256(m) <= pow256(n),
    decreases n,
{
    if m < n {
        lemma_pow256_monotone(m, (n - 1) as nat);
    }
}

proof fn lemma_le_value_injective(a: Seq<u8>, b: Seq<u8>)
    requires
        a.len() == b.len(),
        le_value(a) == le_value(b),
    ensures
        a == b,
    decreases a.len(),
{
    if a.len() > 0 {
        lemma_le_value_split(a);
        lemma_le_value_split(b);
        lemma_le_value_injective(a.drop_first(), b.drop_first());
        assert(a =~= b) by {
            assert forall|k: int| 0 <= k < a.len() implies a[k] == b[k] by {
                if k > 0 {
                    assert(a[k] == a.drop_first()[k - 1]);
                    assert(b[k] == b.drop_first()[k - 1]);
                }
            }
        }
    }
}

proof fn lemma_word_in_buffer(i: int, count: int, width: int)
    requires
        0 <= i < count,
        width >= 1,
    ensures
        width * i + width <= width * count,
        0 <= width * i,
{
    assert(width * i + width <= width * count) by (nonlinear_arith)
        requires
            0 <= i < count,
            width >= 1,
    ;
    assert(0 <= width * i) by (nonlinear_arith)
        requires
            0 <= i,
            width >= 1,
    ;
}

/// The whole `width`-byte words of `bytes`, least significant byte first;
/// trailing bytes that do not fill a word are dropped.
pub fn decode_words(bytes: &[u8], width: usize) -> (r: Vec<u64>)
    requires
        1 <= width <= 8,
    ensures
        r@ == decoded(bytes@, width as nat),
{
    let n = bytes.len();
    let mut out: Vec<u64> = Vec::new();
    let mut start: usize = 0;
    proof {
        assert(width * out@.len() == 0) by (nonlinear_arith)
            requires
                out@.len() == 0,
        ;
    }
    while n - start >= width
        invariant
            1 <= width <= 8,
            n == bytes@.len(),
            start <= n,
            start == width * out@.len(),
            forall|k: int|
                0 <= k < out@.len() ==> #[trigger] out@[k] == le_value(
                    word_bytes(bytes@, width as nat, k),
                ) as u64,
        decreases n - start,
    {
        let v = read_word(bytes, start, width);
        proof {
            assert(word_bytes(bytes@, width as nat, out@.len() as int) =~= bytes@.subrange(
                start as int,
                start + width,
            ));
        }
        out.push(v);
        start = start + width;
        proof {
            assert(start == width * out@.len()) by (nonlinear_arith)
                requires
                    start == width * (out@.len() - 1) + width,
            ;
        }
    }
    proof {
        lemma_fundamental_div_mod_converse(
            n as int,
            width as int,
            out@.len() as int,
            (n - start) as int,
        );
        assert(out@ =~= decoded(bytes@, width as nat));
    }
    out
}

/// The `width`-byte little-endian encoding of `words`, one word after
/// another: exactly the bytes that decode to `words`.
pub fn encode_words(words: &[u64], width: usize) -> (r: Vec<u8>)
    requires
        1 <= width <= 8,
        words@.len() * width <= usize::MAX,
        forall|i: int| 0 <= i < words@.len() ==> (#[trigger] words@[i] as nat) < pow256(width as nat),
    ensures
        r@.len() == words@.len() * width,
        decoded(r@, width as nat) == words@,
{
    let count = words.len();
    let total = count * width;
    let mut out: Vec<u8> = Vec::new();
    let mut k: usize = 0;
    while k < total
        invariant
            k <= total,
            out@.len() == k,
        decreases total - k,
    {
        out.push(0);
        k = k + 1;
    }
    let mut i: usize = 0;
    let mut start: usize = 0;
    proof {
        assert(width * i == 0) by (nonlinear_arith)
            requires
                i == 0,
        ;
        assert(count * width == width * count) by (nonlinear_arith);
    }
    while i < count
        invariant
            1 <= width <= 8,
            count == words@.len(),
            total == count * width,
            out@.len() == total,
            i <= count,
            start == width * i,
            forall|i: int| 0 <= i < words@.len() ==> (#[trigger] words@[i] as nat) < pow256(width as nat),
            forall|j: int|
                0 <= j < i ==> le_value(#[trigger] word_bytes(out@, width as nat, j)) == words@[j],
        decreases count - i,
    {
        proof {
            lemma_word_in_buffer(i as int, count as int, width as int);
        }
        let ghost before = out@;
        write_word(&mut out, start, words[i], width);
        proof {
            assert forall|j: int| 0 <= j < i + 1 implies le_value(
                #[trigger] word_bytes(out@, width as nat, j),
            ) == words@[j] by {
                if j < i {
                    lemma_word_in_buffer(j, i as int, width as int);
                    assert(word_bytes(out@, width as nat, j) =~= word_bytes(before, width as nat, j));
                } else {
                    assert(word_bytes(out@, width as nat, j) =~= out@.subrange(
                        start as int,
                        start + width,
                    ));
                }
            }
        }
        i = i + 1;
        start = start + width;
        proof {
            assert(start == width * i) by (nonlinear_arith)
                requires
                    start == width * (i - 1) + width,
            ;
        }
    }
    proof {
        lemma_fundamental_div_mod_converse(total as int, width as int, count as int, 0);
        assert(decoded(out@, width as nat) =~= words@);
    }
    out
}

/// A buffer of whole words is fixed by the words decoded from it: two
/// buffers of equal length, a whole number of words long, that decode to
/// the same words are the same bytes. So encoding what was decoded gives
/// the buffer back.
pub proof fn lemma_decoded_determines_bytes(a: Seq<u8>, b: Seq<u8>, width: nat)
    requires
        1 <= width <= 8,
        a.len() == b.len(),
        a.len() % width == 0,
        decoded(a, width) == decoded(b, width),
    ensures
        a == b,
{
    let count = a.len() / width;
    lemma_fundamental_div_mod(a.len() as int, width as int);
    assert forall|k: int| 0 <= k < a.len() implies a[k] == b[k] by {
        let i = k / width as int;
        let o = k % width as int;
        lemma_fundamental_div_mod(k, width as int);
        assert(0 <= i < count) by (nonlinear_arith)
            requires
                k == width * i + o,
                0 <= o < width,
                0 <= k < a.len(),
                a.len() == width * count,
        ;
        lemma_word_in_buffer(i, count as int, width as int);
        assert(decoded(a, width)[i] == decoded(b, width)[i]);
        let wa = word_bytes(a, width, i);
        let wb = word_bytes(b, width, i);
        lemma_le_value_bound(wa);
        lemma_le_value_bound(wb);
        lemma_pow256_monotone(width, 8);
        reveal_with_fuel(pow256, 9);
        assert(pow256(8) == 0x1_0000_0000_0000_0000);
        let va = le_value(wa);
        let vb = le_value(wb);
        assert(va < 0x1_0000_0000_0000_0000);
        assert(vb < 0x1_0000_0000_0000_0000);
        assert(decoded(a, width)[i] == va as u64);
        assert(decoded(b, width)[i] == vb as u64);
        assert(va as u64 == vb as u64);
        assert(va == vb);
        lemma_le_value_injective(wa, wb);
        assert(a[k] == wa[o]);
        assert(b[k] == wb[o]);
    }
    assert(a =~= b);
}


/// The 16-bit pattern of a sample, as an unsigned word (two's complement).
pub open spec fn i16_bits(v: i16) -> u64 {
    if v >= 0 {
        v as u64
    } else {
        (v + 65536) as u64
    }
}

/// The sample that a 16-bit word holds, read as two's complement.
pub open spec fn i16_of_bits(w: u64) -> i16 {
    if w < 32768 {
        w as i16
    } else {
        (w - 65536) as i16
    }
}

/// The 16-bit samples of a binary buffer: whole two-byte words, little-endian,
/// two's complement.
pub open spec fn i16_samples(b: Seq<u8>) -> Seq<i16> {
    decoded(b, 2).map_values(|w: u64| i16_of_bits(w))
}

proof fn lemma_two_byte_word(b: Seq<u8>, i: int)
    requires
        0 <= i < b.len() / 2,
    ensures
        decoded(b, 2)[i] < 65536,
{
    lemma_word_in_buffer(i, (b.len() / 2) as int, 2);
    lemma_fundamental_div_mod(b.len() as int, 2);
    let wb = word_bytes(b, 2, i);
    lemma_le_value_bound(wb);
    reveal_with_fuel(pow256, 3);
}

/// The 16-bit samples held in `bytes`, two bytes each, little-endian;
/// a trailing odd byte is dropped.
pub fn decode_i16s(bytes: &[u8]) -> (r: Vec<i16>)
    ensures
        r@ == i16_samples(bytes@),
{
    let words = decode_words(bytes, 2);
    let mut out: Vec<i16> = Vec::new();
    let mut i: usize = 0;
    while i < words.len()
        invariant
            words@ == decoded(bytes@, 2),
            i <= words@.len(),
            out@.len() == i,
            forall|k: int| 0 <= k < i ==> #[trigger] out@[k] == i16_of_bits(words@[k]),
        decreases words@.len() - i,
    {
        let w = words[i];
        proof {
            lemma_two_byte_word(bytes@, i as int);
        }
        let v: i16 = if w < 32768 {
            w as i16
        } else {
            (w as i32 - 65536) as i16
        };
        out.push(v);
        i = i + 1;
    }
    proof {
        assert(out@ =~= i16_samples(bytes@));
    }
    out
}

/// The samples as two little-endian bytes each, two's complement: exactly
/// the bytes whose 16-bit samples are `samples`, so decoding them gives
/// `samples` back.
pub fn encode_i16s(samples: &[i16]) -> (r: Vec<u8>)
    requires
        samples@.len() * 2 <= usize::MAX,
    ensures
        r@.len() == 2 * samples@.len(),
        decoded(r@, 2) == samples@.map_values(|v: i16| i16_bits(v)),
        i16_samples(r@) == samples@,
{
    let mut words: Vec<u64> = Vec::new();
    let mut i: usize = 0;
    while i < samples.len()
        invariant
            i <= samples@.len(),
            words@.len() == i,
            forall|k: int| 0 <= k < i ==> #[trigger] words@[k] == i16_bits(samples@[k]),
        decreases samples@.len() - i,
    {
        let v = samples[i];
        let w: u64 = if v >= 0 {
            v as u64
        } else {
            (v as i32 + 65536) as u64
        };
        words.push(w);
        i = i + 1;
    }
    proof {
        reveal_with_fuel(pow256, 3);
        assert(words@ =~= samples@.map_values(|v: i16| i16_bits(v)));
    }
    let r = encode_words(words.as_slice(), 2);
    proof {
        assert(i16_samples(r@) =~= samples@);
    }
    r
}

} // verus!
