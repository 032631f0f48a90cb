//! An append-only bit buffer over a fixed byte store.

use vstd::prelude::*;
use vstd::slice::slice_subrange;

verus! {

/// Size in bytes of the backing store of a [`Buffer`].
pub const BUFFER_BYTES: usize = 1024;

/// Number of bits a [`Buffer`] can hold.
pub const BUFFER_BITS: usize = 8192;

/// Bit `j` of `byte`, counting from the most significant bit (`j == 0`).
pub open spec fn bit_at(byte: u8, j: u8) -> bool {
    byte & (0x80u8 >> j) != 0u8
}

/// The eight bits of `byte`, most significant first.
pub open spec fn bits_of_byte(byte: u8) -> Seq<bool> {
    Seq::new(8, |j: int| bit_at(byte, j as u8))
}

/// The bits of `bytes`, each byte most significant bit first.
pub open spec fn bits_of_bytes(bytes: Seq<u8>) -> Seq<bool> {
    Seq::new(8 * bytes.len(), |i: int| bit_at(bytes[i / 8], (i % 8) as u8))
}

/// Bit `idx` of `n`, counting from the least significant bit.
pub open spec fn number_bit(n: u32, idx: u32) -> bool {
    (n >> idx) & 1u32 == 1u32
}

/// The low `width` bits of `n`, most significant first.
pub open spec fn number_bits(n: u32, width: nat) -> Seq<bool> {
    Seq::new(width, |i: int| number_bit(n, (width - 1 - i) as u32))
}

/// The byte made of eight bits, the first one most significant.
pub open spec fn byte_from_bits(
    b0: bool,
    b1: bool,
    b2: bool,
    b3: bool,
    b4: bool,
    b5: bool,
    b6: bool,
    b7: bool,
) -> u8 {
    (if b0 { 0x80u8 } else { 0u8 }) | (if b1 { 0x40u8 } else { 0u8 }) | (if b2 { 0x20u8 } else {
        0u8
    }) | (if b3 { 0x10u8 } else { 0u8 }) | (if b4 { 0x08u8 } else { 0u8 }) | (if b5 { 0x04u8 } else {
        0u8
    }) | (if b6 { 0x02u8 } else { 0u8 }) | (if b7 { 0x01u8 } else { 0u8 })
}

/// Bit `i` of a bit string, reading past its end as zero.
pub open spec fn bit_or_zero(bits: Seq<bool>, i: int) -> bool {
    0 <= i < bits.len() && bits[i]
}

/// Byte `k` of a bit string packed most significant bit first, zero filled.
pub open spec fn packed_byte(bits: Seq<bool>, k: int) -> u8 {
    byte_from_bits(
        bit_or_zero(bits, 8 * k),
        bit_or_zero(bits, 8 * k + 1),
        bit_or_zero(bits, 8 * k + 2),
        bit_or_zero(bits, 8 * k + 3),
        bit_or_zero(bits, 8 * k + 4),
        bit_or_zero(bits, 8 * k + 5),
        bit_or_zero(bits, 8 * k + 6),
        bit_or_zero(bits, 8 * k + 7),
    )
}

/// A bit string packed into bytes; a trailing partial byte has zero low bits.
pub open spec fn packed(bits: Seq<bool>) -> Seq<u8> {
    Seq::new((bits.len() + 7) / 8, |k: int| packed_byte(bits, k))
}

proof fn lemma_set_bit(x: u8, j: u8, j2: u8)
    by (bit_vector)
    requires
        j < 8,
        j2 < 8,
        x & (0xffu8 >> j) == 0,
    ensures
        j2 < j ==> ((x | (0x80u8 >> j)) & (0x80u8 >> j2) != 0) == (x & (0x80u8 >> j2) != 0),
        (x | (0x80u8 >> j)) & (0x80u8 >> j) != 0,
        x & (0x80u8 >> j) == 0,
        j2 >= j ==> x & (0x80u8 >> j2) == 0,
        j < 7 ==> (x | (0x80u8 >> j)) & (0xffu8 >> ((j + 1) as u8)) == 0,
        j < 7 ==> x & (0xffu8 >> ((j + 1) as u8)) == 0,
        j == 0 ==> x == 0,
{
}

proof fn lemma_byte_from_own_bits(x: u8)
    by (bit_vector)
    ensures
        x == (if x & 0x80u8 != 0 { 0x80u8 } else { 0u8 }) | (if x & 0x40u8 != 0 { 0x40u8 } else {
            0u8
        }) | (if x & 0x20u8 != 0 { 0x20u8 } else { 0u8 }) | (if x & 0x10u8 != 0 { 0x10u8 } else {
            0u8
        }) | (if x & 0x08u8 != 0 { 0x08u8 } else { 0u8 }) | (if x & 0x04u8 != 0 { 0x04u8 } else {
            0u8
        }) | (if x & 0x02u8 != 0 { 0x02u8 } else { 0u8 }) | (if x & 0x01u8 != 0 { 0x01u8 } else {
            0u8
        }),
{
}

proof fn lemma_shifts()
    by (bit_vector)
    ensures
        0x80u8 >> 0u8 == 0x80u8,
        0x80u8 >> 1u8 == 0x40u8,
        0x80u8 >> 2u8 == 0x20u8,
        0x80u8 >> 3u8 == 0x10u8,
        0x80u8 >> 4u8 == 0x08u8,
        0x80u8 >> 5u8 == 0x04u8,
        0x80u8 >> 6u8 == 0x02u8,
        0x80u8 >> 7u8 == 0x01u8,
        0u8 & (0xffu8 >> 0u8) == 0u8,
{
}

/// A byte is recovered from its own eight bits.
pub proof fn lemma_byte_from_bits_of_byte(x: u8)
    ensures
        byte_from_bits(
            bit_at(x, 0),
            bit_at(x, 1),
            bit_at(x, 2),
            bit_at(x, 3),
            bit_at(x, 4),
            bit_at(x, 5),
            bit_at(x, 6),
            bit_at(x, 7),
        ) == x,
{
    lemma_shifts();
    lemma_byte_from_own_bits(x);
}

/// An append-only bit string over a fixed byte store.
pub struct Buffer {
    data: Vec<u8>,
    bit_len: usize,
}

impl View for Buffer {
    type V = Seq<bool>;

    /// The bits written so far, in order.
    closed spec fn view(&self) -> Seq<bool> {
        Seq::new(self.bit_len as nat, |i: int| bit_at(self.data@[i / 8], (i % 8) as u8))
    }
}

impl Default for Buffer {
    fn default() -> (r: Self)
        ensures
            r.wf(),
            r@ == Seq::<bool>::empty(),
    {
        Self::new()
    }
}

impl Buffer {
    /// The store holds exactly the bits written, with every bit after them zero.
    pub closed spec fn wf(&self) -> bool {
        &&& self.data@.len() == BUFFER_BYTES
        &&& self.bit_len <= BUFFER_BITS
        &&& self.bit_len / 8 < BUFFER_BYTES ==> self.data@[(self.bit_len / 8) as int] & (0xffu8 >> (
        self.bit_len % 8) as u8) == 0
        &&& forall|k: int| self.bit_len / 8 < k < BUFFER_BYTES ==> self.data@[k] == 0
    }

    /// Creates a new empty buffer.
    pub fn new() -> (r: Buffer)
        ensures
            r.wf(),
            r@ == Seq::<bool>::empty(),
    {
        let r = Buffer { data: vec![0u8; BUFFER_BYTES], bit_len: 0 };
        proof {
            lemma_shifts();
            assert(r@ =~= Seq::<bool>::empty());
        }
        r
    }

    /// The number of whole bytes and of the bits after them.
    pub fn byte_bit_len(&self) -> (r: (usize, usize))
        requires
            self.wf(),
        ensures
            r.0 == self@.len() / 8,
            r.1 == self@.len() % 8,
    {
        (self.bit_len / 8, self.bit_len % 8)
    }

    /// The number of bits written.
    pub fn bit_len(&self) -> (r: usize)
        requires
            self.wf(),
        ensures
            r == self@.len(),
            r <= BUFFER_BITS,
    {
        self.bit_len
    }

    /// Appends one bit.
    pub fn append_bit(&mut self, bit: bool)
        requires
            old(self).wf(),
            old(self)@.len() < BUFFER_BITS,
        ensures
            final(self).wf(),
            final(self)@ == old(self)@.push(bit),
    {
        let byte_len = self.bit_len / 8;
        let bit_len = self.bit_len % 8;
        let ghost old_data = self.data@;
        let ghost old_view = self@;
        let ghost x = self.data@[byte_len as int];
        if bit {
            let mask: u8 = 0x80u8 >> (bit_len as u8);
            let b = self.data[byte_len] | mask;
            self.data.set(byte_len, b);
        }
        self.bit_len = self.bit_len + 1;
        proof {
            let j = bit_len as u8;
            let y = self.data@[byte_len as int];
            assert(x & (0xffu8 >> j) == 0);
            assert forall|i: int| 0 <= i < self@.len() implies self@[i] == old_view.push(bit)[i] by {
                let j2 = (i % 8) as u8;
                lemma_set_bit(x, j, j2);
                if i / 8 != byte_len {
                    assert(self.data@[i / 8] == old_data[i / 8]);
                } else if i < old_view.len() {
                    assert(j2 < j);
                } else {
                    assert(i == old_view.len());
                    assert(j2 == j);
                }
            }
            assert(self@ =~= old_view.push(bit));
            lemma_set_bit(x, j, 0);
            if bit_len < 7 {
                assert(self.bit_len / 8 == byte_len);
                assert(self.bit_len % 8 == bit_len + 1);
            } else {
                assert(self.bit_len / 8 == byte_len + 1);
                assert(self.bit_len % 8 == 0);
                if self.bit_len / 8 < BUFFER_BYTES {
                    assert(self.data@[(self.bit_len / 8) as int] == 0);
                    lemma_shifts();
                }
            }
        }
    }

    /// Appends bits in order.
    pub fn append_bits(&mut self, bits: &[bool])
        requires
            old(self).wf(),
            old(self)@.len() + bits@.len() <= BUFFER_BITS,
        ensures
            final(self).wf(),
            final(self)@ == old(self)@ + bits@,
    {
        let mut i: usize = 0;
        while i < bits.len()
            invariant
                self.wf(),
                i <= bits@.len(),
                old(self)@.len() + bits@.len() <= BUFFER_BITS,
                self@ == old(self)@ + bits@.subrange(0, i as int),
            decreases bits@.len() - i,
        {
            self.append_bit(bits[i]);
            i = i + 1;
            assert(self@ =~= old(self)@ + bits@.subrange(0, i as int));
        }
        assert(bits@.subrange(0, i as int) =~= bits@);
    }

    /// Appends the eight bits of a byte, most significant first.
    pub fn append_byte(&mut self, byte: u8)
        requires
            old(self).wf(),
            old(self)@.len() + 8 <= BUFFER_BITS,
        ensures
            final(self).wf(),
            final(self)@ == old(self)@ + bits_of_byte(byte),
            old(self)@.len() % 8 == 0 ==> packed(final(self)@) == packed(old(self)@).push(byte),
    {
        proof {
            if old(self)@.len() % 8 == 0 {
                lemma_bytes_round_trip(old(self)@, seq![byte]);
                assert(bits_of_bytes(seq![byte]) =~= bits_of_byte(byte));
                assert(packed(old(self)@) + seq![byte] =~= packed(old(self)@).push(byte));
            }
        }
        let (byte_len, bit_len) = self.byte_bit_len();
        if bit_len == 0 {
            let ghost old_view = self@;
            let ghost old_data = self.data@;
            proof {
                lemma_set_bit(old_data[byte_len as int], 0, 0);
            }
            self.data.set(byte_len, byte);
            self.bit_len = self.bit_len + 8;
            proof {
                assert(self.bit_len / 8 == byte_len + 1);
                assert(self.bit_len % 8 == 0);
                assert forall|i: int| 0 <= i < self@.len() implies self@[i] == (old_view
                    + bits_of_byte(byte))[i] by {
                    if i < old_view.len() {
                        assert(i / 8 < byte_len);
                    } else {
                        assert(i / 8 == byte_len);
                        assert(i % 8 == i - old_view.len());
                    }
                }
                assert(self@ =~= old_view + bits_of_byte(byte));
                if self.bit_len / 8 < BUFFER_BYTES {
                    assert(self.data@[(self.bit_len / 8) as int] == 0);
                    lemma_shifts();
                }
            }
        } else {
            let mut index: u8 = 0;
            while index < 8
                invariant
                    self.wf(),
                    index <= 8,
                    old(self)@.len() + 8 <= BUFFER_BITS,
                    self@ == old(self)@ + bits_of_byte(byte).subrange(0, index as int),
                decreases 8 - index,
            {
                let mask: u8 = 0x80u8 >> index;
                self.append_bit(byte & mask != 0);
                index = index + 1;
                assert(self@ =~= old(self)@ + bits_of_byte(byte).subrange(0, index as int));
            }
            assert(bits_of_byte(byte).subrange(0, 8) =~= bits_of_byte(byte));
        }
    }

    /// Appends bytes in order.
    pub fn append_bytes(&mut self, bytes: &[u8])
        requires
            old(self).wf(),
            old(self)@.len() + 8 * bytes@.len() <= BUFFER_BITS,
        ensures
            final(self).wf(),
            final(self)@ == old(self)@ + bits_of_bytes(bytes@),
    {
        let mut i: usize = 0;
        while i < bytes.len()
            invariant
                self.wf(),
                i <= bytes@.len(),
                old(self)@.len() + 8 * bytes@.len() <= BUFFER_BITS,
                self@ == old(self)@ + bits_of_bytes(bytes@.subrange(0, i as int)),
            decreases bytes@.len() - i,
        {
            self.append_byte(bytes[i]);
            proof {
                lemma_bits_of_bytes_push(bytes@.subrange(0, i as int), bytes@[i as int]);
                assert(bytes@.subrange(0, i as int).push(bytes@[i as int]) =~= bytes@.subrange(
                    0,
                    i + 1,
                ));
            }
            i = i + 1;
            assert(self@ =~= old(self)@ + bits_of_bytes(bytes@.subrange(0, i as int)));
        }
        assert(bytes@.subrange(0, i as int) =~= bytes@);
    }

    /// Appends the low `bit_len` bits of `number`, most significant first.
    pub fn append_number(&mut self, number: u32, bit_len: usize)
        requires
            old(self).wf(),
            bit_len <= 32,
            old(self)@.len() + bit_len <= BUFFER_BITS,
        ensures
            final(self).wf(),
            final(self)@ == old(self)@ + number_bits(number, bit_len as nat),
    {
        let mut i: usize = 0;
        while i < bit_len
            invariant
                self.wf(),
                i <= bit_len <= 32,
                old(self)@.len() + bit_len <= BUFFER_BITS,
                self@ == old(self)@ + number_bits(number, bit_len as nat).subrange(0, i as int),
            decreases bit_len - i,
        {
            let index = (bit_len - 1 - i) as u32;
            self.append_bit((number >> index) & 1 == 1);
            i = i + 1;
            assert(self@ =~= old(self)@ + number_bits(number, bit_len as nat).subrange(
                0,
                i as int,
            ));
        }
        assert(number_bits(number, bit_len as nat).subrange(0, i as int) =~= number_bits(
            number,
            bit_len as nat,
        ));
    }

    /// The written bits packed into bytes; a trailing partial byte has zero low bits.
    pub fn data(&self) -> (r: &[u8])
        requires
            self.wf(),
        ensures
            r@ == packed(self@),
    {
        let (byte_len, bit_len) = self.byte_bit_len();
        let n = if bit_len == 0 {
            byte_len
        } else {
            byte_len + 1
        };
        let r = slice_subrange(self.data.as_slice(), 0, n);
        proof {
            assert forall|k: int| 0 <= k < n implies r@[k] == packed_byte(self@, k) by {
                let x = self.data@[k];
                lemma_byte_from_bits_of_byte(x);
                lemma_shifts();
                if k == byte_len {
                    assert forall|j: u8| j < 8 implies #[trigger] bit_or_zero(self@, 8 * k + j)
                        == bit_at(x, j) by {
                        lemma_set_bit(x, bit_len as u8, j);
                    }
                } else {
                    assert forall|j: u8| j < 8 implies #[trigger] bit_or_zero(self@, 8 * k + j)
                        == bit_at(x, j) by {
                        assert((8 * k + j) / 8 == k);
                        assert((8 * k + j) % 8 == j);
                    }
                }
                assert(bit_or_zero(self@, 8 * k) == bit_at(x, 0));
                assert(bit_or_zero(self@, 8 * k + 1) == bit_at(x, 1));
                assert(bit_or_zero(self@, 8 * k + 2) == bit_at(x, 2));
                assert(bit_or_zero(self@, 8 * k + 3) == bit_at(x, 3));
                assert(bit_or_zero(self@, 8 * k + 4) == bit_at(x, 4));
                assert(bit_or_zero(self@, 8 * k + 5) == bit_at(x, 5));
                assert(bit_or_zero(self@, 8 * k + 6) == bit_at(x, 6));
                assert(bit_or_zero(self@, 8 * k + 7) == bit_at(x, 7));
            }
            assert(r@ =~= packed(self@));
        }
        r
    }
}

/// The bits of bytes with one more byte appended.
pub proof fn lemma_bits_of_bytes_push(bytes: Seq<u8>, b: u8)
    ensures
        bits_of_bytes(bytes.push(b)) == bits_of_bytes(bytes) + bits_of_byte(b),
{
    let l = bits_of_bytes(bytes.push(b));
    let r = bits_of_bytes(bytes) + bits_of_byte(b);
    assert forall|i: int| 0 <= i < l.len() implies l[i] == r[i] by {
        if i < 8 * bytes.len() {
            assert(i / 8 < bytes.len()) by {
                vstd::arithmetic::div_mod::lemma_div_is_ordered(i, 8 * bytes.len() - 1, 8);
                vstd::arithmetic::div_mod::lemma_div_multiples_vanish(bytes.len() as int, 8);
            }
        } else {
            assert(i / 8 == bytes.len());
            assert(i % 8 == i - 8 * bytes.len());
        }
    }
    assert(l =~= r);
}

/// Bytes appended at a byte boundary are read back unchanged.
pub proof fn lemma_bytes_round_trip(bits: Seq<bool>, bytes: Seq<u8>)
    requires
        bits.len() % 8 == 0,
    ensures
        packed(bits + bits_of_bytes(bytes)) == packed(bits) + bytes,
{
    let all = bits + bits_of_bytes(bytes);
    let m = bits.len() / 8;
    let l = packed(all);
    let r = packed(bits) + bytes;
    assert(l.len() == r.len());
    assert forall|k: int| 0 <= k < l.len() implies l[k] == r[k] by {
        if k < m {
            assert forall|j: int| 0 <= j < 8 implies #[trigger] bit_or_zero(all, 8 * k + j)
                == bit_or_zero(bits, 8 * k + j) by {}
        } else {
            let x = bytes[k - m];
            lemma_byte_from_bits_of_byte(x);
            assert forall|j: int| 0 <= j < 8 implies #[trigger] bit_or_zero(all, 8 * k + j)
                == bit_at(x, j as u8) by {
                let i = 8 * k + j - bits.len();
                assert(i / 8 == k - m);
                assert(i % 8 == j);
            }
            assert(bit_or_zero(all, 8 * k + 1) == bit_at(x, 1));
            assert(bit_or_zero(all, 8 * k + 2) == bit_at(x, 2));
            assert(bit_or_zero(all, 8 * k + 3) == bit_at(x, 3));
            assert(bit_or_zero(all, 8 * k + 4) == bit_at(x, 4));
            assert(bit_or_zero(all, 8 * k + 5) == bit_at(x, 5));
            assert(bit_or_zero(all, 8 * k + 6) == bit_at(x, 6));
            assert(bit_or_zero(all, 8 * k + 7) == bit_at(x, 7));
            assert(bit_or_zero(all, 8 * k) == bit_at(x, 0));
        }
    }
    assert(l =~= r);
}

/// The bits of a number appended at any offset are its low bits, most
/// significant first: bit `i` after the offset is bit `width - 1 - i` of `n`.
pub proof fn lemma_number_round_trip(before: Seq<bool>, n: u32, width: nat, i: int)
    requires
        0 <= i < width,
    ensures
        (before + number_bits(n, width))[before.len() + i] == number_bit(
            n,
            (width - 1 - i) as u32,
        ),
{
}

} // verus!

verus! {

/// The bits of two byte strings, one after the other.
pub proof fn lemma_bits_of_bytes_concat(a: Seq<u8>, b: Seq<u8>)
    ensures
        bits_of_bytes(a + b) == bits_of_bytes(a) + bits_of_bytes(b),
{
    let l = bits_of_bytes(a + b);
    let r = bits_of_bytes(a) + bits_of_bytes(b);
    assert forall|i: int| 0 <= i < l.len() implies l[i] == r[i] by {
        if i < 8 * a.len() {
            assert(i / 8 < a.len()) by {
                vstd::arithmetic::div_mod::lemma_div_is_ordered(i, 8 * a.len() - 1, 8);
                vstd::arithmetic::div_mod::lemma_div_multiples_vanish(a.len() as int, 8);
            }
        } else {
            let k = i - 8 * a.len();
            assert(i / 8 == a.len() + k / 8);
            assert(i % 8 == k % 8);
        }
    }
    assert(l =~= r);
}

} // verus!
