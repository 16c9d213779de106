//! The MSB-first bit writer of DEM tiles and the codes written with it.
use vstd::prelude::*;

verus! {

/// An MSB-first bit accumulator.
pub struct DemBitWriter {
    bits: Vec<bool>,
}

impl View for DemBitWriter {
    type V = Seq<bool>;

    closed spec fn view(&self) -> Seq<bool> {
        self.bits@
    }
}

/// `2^k`.
pub open spec fn two_pow(k: nat) -> nat
    decreases k,
{
    if k == 0 { 1 } else { 2 * two_pow((k - 1) as nat) }
}

/// The value of the `n` bits starting at `start`, first bit most
/// significant; bits past the end of `bits` count as zero.
pub open spec fn msb_value(bits: Seq<bool>, start: int, n: nat) -> nat
    decreases n,
{
    if n == 0 {
        0
    } else {
        let i = start + n - 1;
        2 * msb_value(bits, start, (n - 1) as nat) + if 0 <= i < bits.len() && bits[i] { 1nat } else { 0nat }
    }
}

/// The bytes of a bit sequence, eight bits per byte, first bit in the most
/// significant position, the last byte padded with zero bits.
pub open spec fn pack_bits(bits: Seq<bool>) -> Seq<u8> {
    Seq::new(((bits.len() + 7) / 8) as nat, |j: int| msb_value(bits, 8 * j, 8) as u8)
}

/// The low `n` bits of `v`, most significant first.
pub open spec fn bin_bits(v: nat, n: nat) -> Seq<bool>
    decreases n,
{
    if n == 0 {
        Seq::empty()
    } else {
        bin_bits(v / 2, (n - 1) as nat).push(v % 2 == 1)
    }
}

/// `n` zero bits (none when `n` is not positive) and a closing one bit.
pub open spec fn unary(n: int) -> Seq<bool> {
    Seq::new(if n > 0 { n as nat } else { 0nat }, |i: int| false).push(true)
}

proof fn lemma_msb_value_bound(bits: Seq<bool>, start: int, n: nat)
    ensures
        msb_value(bits, start, n) < two_pow(n),
    decreases n,
{
    if n > 0 {
        lemma_msb_value_bound(bits, start, (n - 1) as nat);
    }
}

impl DemBitWriter {
    /// An empty writer.
    pub fn new() -> (w: Self)
        ensures
            w@ == Seq::<bool>::empty(),
    {
        DemBitWriter { bits: Vec::new() }
    }

    /// Append one bit.
    pub fn add_bit(&mut self, bit: bool)
        ensures
            final(self)@ == old(self)@.push(bit),
    {
        self.bits.push(bit);
    }

    /// The bits written so far, packed into bytes MSB first.
    pub fn into_bytes(self) -> (r: Vec<u8>)
        ensures
            r@ == pack_bits(self@),
    {
        let n = self.bits.len();
        let byte_len: usize = n / 8 + if n % 8 == 0 { 0usize } else { 1usize };
        assert(byte_len == (n + 7) / 8);
        let mut out: Vec<u8> = Vec::new();
        let mut j: usize = 0;
        while j < byte_len
            invariant
                n == self.bits@.len(),
                byte_len == (n + 7) / 8,
                j <= byte_len,
                out@ == pack_bits(self.bits@).subrange(0, j as int),
            decreases byte_len - j,
        {
            let mut acc: u32 = 0;
            let mut lim: u32 = 1;
            let mut k: usize = 0;
            assert(j * 8 <= n + 7) by (nonlinear_arith) requires j < (n + 7) / 8;
            while k < 8
                invariant
                    n == self.bits@.len(),
                    j < byte_len,
                    byte_len == (n + 7) / 8,
                    j * 8 <= n + 7,
                    k <= 8,
                    acc as nat == msb_value(self.bits@, 8 * j as int, k as nat),
                    lim as nat == two_pow(k as nat),
                    acc < lim,
                    lim <= 256,
                decreases 8 - k,
            {
                let i = 8 * j + k;
                let bit = if i < n { self.bits[i] } else { false };
                assert(lim * 2 <= 256) by {
                    if k < 8 {
                        assert(two_pow(8) == 256) by { reveal_with_fuel(two_pow, 9); }
                        lemma_two_pow_mono(k as nat + 1, 8);
                    }
                }
                acc = acc * 2 + if bit { 1u32 } else { 0u32 };
                lim = lim * 2;
                k = k + 1;
            }
            out.push(acc as u8);
            j = j + 1;
            assert(out@ =~= pack_bits(self.bits@).subrange(0, j as int));
        }
        out
    }
}

proof fn lemma_two_pow_mono(a: nat, b: nat)
    requires
        a <= b,
    ensures
        two_pow(a) <= two_pow(b),
    decreases b,
{
    if a < b {
        lemma_two_pow_mono(a, (b - 1) as nat);
    }
}

/// Append the low `num_bits` bits of `val`, most significant first.
pub fn write_val_as_bin(bw: &mut DemBitWriter, val: u32, num_bits: u32)
    ensures
        final(bw)@ == old(bw)@ + bin_bits(val as nat, num_bits as nat),
    decreases num_bits,
{
    if num_bits == 0 {
        assert(old(bw)@ + bin_bits(val as nat, 0) =~= old(bw)@);
        return;
    }
    write_val_as_bin(bw, val / 2, num_bits - 1);
    bw.add_bit(val % 2 == 1);
    assert(final(bw)@ =~= old(bw)@ + bin_bits(val as nat, num_bits as nat));
}

/// Append `val` zero bits and a one bit.
pub fn write_number_of_zero_bits(bw: &mut DemBitWriter, val: i32)
    ensures
        final(bw)@ == old(bw)@ + unary(val as int),
{
    let ghost start = bw@;
    let mut i: i32 = 0;
    while i < val
        invariant
            0 <= i,
            i < val || i == 0 || i == val,
            bw@ == start + Seq::new(i as nat, |k: int| false),
        decreases val - i,
    {
        bw.add_bit(false);
        i = i + 1;
        assert(bw@ =~= start + Seq::new(i as nat, |k: int| false));
    }
    bw.add_bit(true);
    assert(bw@ =~= start + unary(val as int));
}

/// The number of trailing zero bits of a positive value.
pub open spec fn trailing_zeros(h: nat) -> nat
    decreases h,
{
    if h == 0 || h % 2 == 1 { 0 } else { 1 + trailing_zeros(h / 2) }
}

fn trailing_zeros_exec(h: u32) -> (r: u32)
    ensures
        r as nat == trailing_zeros(h as nat),
        r < 32,
    decreases h,
{
    if h == 0 || h % 2 == 1 {
        0
    } else {
        let t = trailing_zeros_exec(h / 2);
        proof { lemma_two_pow_32(); lemma_trailing_zeros_bound(h as nat, 32); }
        1 + t
    }
}

/// `bin_bits(v, n)` has `n` bits.
pub proof fn lemma_bin_bits_len(v: nat, n: nat)
    ensures
        bin_bits(v, n).len() == n,
    decreases n,
{
    if n > 0 {
        lemma_bin_bits_len(v / 2, (n - 1) as nat);
    }
}

/// A positive value below `2^27` has fewer than 27 trailing zeros.
pub proof fn lemma_trailing_zeros_small(h: nat)
    requires
        0 < h <= 0x400_0000,
    ensures
        trailing_zeros(h) <= 26,
{
    assert(two_pow(27) == 0x800_0000) by {
        reveal_with_fuel(two_pow, 28);
    }
    lemma_trailing_zeros_bound(h, 27);
}

proof fn lemma_two_pow_32()
    ensures
        two_pow(32) == 0x1_0000_0000,
{
    reveal_with_fuel(two_pow, 33);
}

proof fn lemma_trailing_zeros_bound(h: nat, k: nat)
    requires
        0 < h < two_pow(k),
    ensures
        trailing_zeros(h) < k,
    decreases h,
{
    if k == 0 {
        assert(two_pow(0) == 1);
    } else if h % 2 == 0 {
        lemma_trailing_zeros_bound(h / 2, (k - 1) as nat);
    }
}

/// The hybrid code of `val` with unit `hunit`: the quotient in unary, the
/// remainder in `trailing_zeros(hunit)` bits, then a sign bit set for
/// positive values; `None` when `hunit` is not positive or the quotient
/// exceeds `max_zero_bits`.
pub open spec fn hybrid_code(val: int, hunit: int, max_zero_bits: int) -> Option<Seq<bool>> {
    if hunit <= 0 {
        None
    } else {
        let m = if val > 0 { val - 1 } else { -val };
        let bin_part = m % hunit;
        let len_part = (m - bin_part) / hunit;
        if len_part <= max_zero_bits {
            Some(unary(len_part) + bin_bits(bin_part as nat, trailing_zeros(hunit as nat)) + seq![val > 0])
        } else {
            None
        }
    }
}

/// Append the hybrid code of `val` when there is one; report whether it was written.
pub fn write_val_hybrid(bw: &mut DemBitWriter, val: i32, hunit: i32, max_zero_bits: i32) -> (r: bool)
    requires
        val > i32::MIN,
    ensures
        r == hybrid_code(val as int, hunit as int, max_zero_bits as int) is Some,
        final(bw)@ == old(bw)@ + match hybrid_code(val as int, hunit as int, max_zero_bits as int) {
            Some(c) => c,
            None => Seq::empty(),
        },
{
    if hunit <= 0 {
        assert(old(bw)@ + Seq::<bool>::empty() =~= old(bw)@);
        return false;
    }
    let num_bits = trailing_zeros_exec(hunit as u32);
    let m: i32 = if val > 0 { val - 1 } else { -val };
    let bin_part = m % hunit;
    let len_part = (m - bin_part) / hunit;
    assert(m as int == (if val > 0 { val - 1 } else { -val }));
    assert(bin_part as int == (m as int) % (hunit as int));
    assert(0 <= bin_part <= m) by (nonlinear_arith)
        requires
            bin_part as int == (m as int) % (hunit as int),
            m >= 0,
            hunit > 0,
    ;
    assert(len_part as int == ((m as int) - (bin_part as int)) / (hunit as int));
    if len_part <= max_zero_bits {
        let ghost start = bw@;
        write_number_of_zero_bits(bw, len_part);
        write_val_as_bin(bw, bin_part as u32, num_bits);
        bw.add_bit(val > 0);
        assert(bw@ =~= start + (unary(len_part as int) + bin_bits(bin_part as nat, trailing_zeros(hunit as nat)) + seq![val > 0]));
        true
    } else {
        assert(old(bw)@ + Seq::<bool>::empty() =~= old(bw)@);
        false
    }
}

/// The number of significant bits of `n`.
pub open spec fn bit_length(n: nat) -> nat
    decreases n,
{
    if n == 0 { 0 } else { 1 + bit_length(n / 2) }
}

fn bit_length_exec(n: u32) -> (r: u32)
    ensures
        r as nat == bit_length(n as nat),
        r <= 32,
    decreases n,
{
    if n == 0 {
        0
    } else {
        let b = bit_length_exec(n / 2);
        proof { lemma_two_pow_32(); lemma_bit_length_bound(n as nat, 32); }
        1 + b
    }
}

proof fn lemma_bit_length_bound(n: nat, k: nat)
    requires
        n < two_pow(k),
    ensures
        bit_length(n) <= k,
    decreases n,
{
    if n > 0 {
        assert(k > 0);
        lemma_bit_length_bound(n / 2, (k - 1) as nat);
    }
}

/// Width of the magnitude field of a big-bin code for a tile whose largest
/// delta is `max_delta`.
pub open spec fn big_bin_bits(max_delta: u16) -> u32 {
    if max_delta == 0 {
        1
    } else if max_delta < 16384 {
        bit_length(max_delta as nat) as u32
    } else {
        15
    }
}

pub fn get_big_bin_bits(max_delta: u16) -> (r: u32)
    ensures
        r == big_bin_bits(max_delta),
        1 <= r <= 15,
{
    let md = max_delta as u32;
    if md == 0 {
        return 1;
    }
    if md < 16384 {
        proof {
            assert(two_pow(14) == 16384) by { reveal_with_fuel(two_pow, 15); }
            lemma_bit_length_bound(md as nat, 14);
        }
        bit_length_exec(md)
    } else {
        15
    }
}

/// The magnitude field of a big-bin code is 1 to 15 bits wide.
pub proof fn lemma_big_bin_bits_range(max_delta: u16)
    ensures
        1 <= big_bin_bits(max_delta) <= 15,
{
    if max_delta != 0 && max_delta < 16384 {
        assert(two_pow(14) == 16384) by {
            reveal_with_fuel(two_pow, 15);
        }
        lemma_bit_length_bound(max_delta as nat, 14);
        assert(bit_length(max_delta as nat) >= 1);
    }
}

/// The big-bin code: `num_zero_bits + 1` zero bits and a one bit (an
/// impossible length code), the magnitude minus one in `big_bin_bits - 1`
/// bits, then a sign bit set for values that are not positive.
pub open spec fn big_bin_code(val: int, num_zero_bits: int, max_delta_height: int) -> Seq<bool> {
    let bits = big_bin_bits(max_delta_height as u16);
    let mag: u32 = if val < 0 { (-val - 1) as u32 } else { (val - 1) as u32 };
    unary(num_zero_bits + 1) + bin_bits(mag as nat, (bits - 1) as nat) + seq![val <= 0]
}

pub fn write_val_big_bin(bw: &mut DemBitWriter, val: i32, num_zero_bits: i32, max_delta_height: i32)
    requires
        val > i32::MIN,
        num_zero_bits < i32::MAX,
    ensures
        final(bw)@ == old(bw)@ + big_bin_code(val as int, num_zero_bits as int, max_delta_height as int),
{
    let ghost start = bw@;
    write_number_of_zero_bits(bw, num_zero_bits + 1);
    let bits = get_big_bin_bits(max_delta_height as u16);
    if val < 0 {
        write_val_as_bin(bw, (-val - 1) as u32, bits - 1);
    } else {
        write_val_as_bin(bw, (val - 1) as u32, bits - 1);
    }
    bw.add_bit(val <= 0);
    assert(bw@ =~= start + big_bin_code(val as int, num_zero_bits as int, max_delta_height as int));
}

} // verus!
