//! The value predictor of the DEM encoder: running statistics of the
//! deltas already coded choose the code (hybrid or length) and the wrap
//! window for the next one.
use vstd::prelude::*;
use super::bits::{
    DemBitWriter, unary, hybrid_code, big_bin_code, big_bin_bits, bin_bits, trailing_zeros, write_val_hybrid,
    write_number_of_zero_bits, write_val_big_bin, lemma_bin_bits_len, lemma_trailing_zeros_small,
    lemma_big_bin_bits_range,
};

verus! {

#[derive(Clone, Copy, Debug, PartialEq, Eq, Structural)]
pub enum EncType {
    Hybrid,
    Len,
}

#[derive(Clone, Copy, Debug, PartialEq, Eq, Structural)]
pub enum WrapType {
    Wrap0,
    Wrap1,
    Wrap2,
}

#[derive(Clone, Copy, Debug, PartialEq, Eq, Structural)]
pub enum CalcType {
    CalcPLen,
    CalcStd,
    CalcPlateauZero,
    CalcPlateauNonZero,
}

/// Division rounding toward zero, as Rust's `/` on signed integers.
pub open spec fn tdiv(a: int, b: int) -> int {
    if a >= 0 { a / b } else { -((-a) / b) }
}

pub open spec fn abs_int(x: int) -> int {
    if x < 0 { -x } else { x }
}

/// Start value of the hybrid unit for a tile whose largest delta is `md`.
pub open spec fn start_hunit(md: u16) -> u32 {
    if md < 0x9f { 1 }
    else if md < 0x11f { 2 }
    else if md < 0x21f { 4 }
    else if md < 0x41f { 8 }
    else if md < 0x81f { 16 }
    else if md < 0x101f { 32 }
    else if md < 0x201f { 64 }
    else if md < 0x401f { 128 }
    else { 256 }
}

/// The start unit doubles with the tile's span: it is the power of two `u`
/// from 1 to 256 with `64 * u + 0x1f <= max_delta < 128 * u + 0x1f` (no
/// lower bound for 1, no upper bound for 256).
pub proof fn lemma_start_hunit_scale(md: u16)
    ensures
        ({
            let u = start_hunit(md) as int;
            &&& u == 1 || u == 2 || u == 4 || u == 8 || u == 16 || u == 32 || u == 64 || u == 128 || u == 256
            &&& u == 1 || 64 * u + 0x1f <= md
            &&& u == 256 || md < 128 * u + 0x1f
        }),
{
}

pub fn get_start_hunit(max_delta: u16) -> (r: u32)
    ensures
        r == start_hunit(max_delta),
{
    let md = max_delta as u32;
    if md < 0x9f { 1 }
    else if md < 0x11f { 2 }
    else if md < 0x21f { 4 }
    else if md < 0x41f { 8 }
    else if md < 0x81f { 16 }
    else if md < 0x101f { 32 }
    else if md < 0x201f { 64 }
    else if md < 0x401f { 128 }
    else { 256 }
}

/// Longest unary quotient allowed for a tile whose largest delta is `md`.
pub open spec fn max_zero_bits_for(md: u16) -> u32 {
    if md < 2 { 15 }
    else if md < 4 { 16 }
    else if md < 8 { 17 }
    else if md < 16 { 18 }
    else if md < 32 { 19 }
    else if md < 64 { 20 }
    else if md < 128 { 21 }
    else if md < 256 { 22 }
    else if md < 512 { 25 }
    else if md < 1024 { 28 }
    else if md < 2048 { 31 }
    else if md < 4096 { 34 }
    else if md < 8192 { 37 }
    else if md < 16384 { 40 }
    else { 43 }
}

pub fn get_max_zero_bits(max_delta: u16) -> (r: u32)
    ensures
        r == max_zero_bits_for(max_delta),
{
    let md = max_delta as u32;
    if md < 2 { 15 }
    else if md < 4 { 16 }
    else if md < 8 { 17 }
    else if md < 16 { 18 }
    else if md < 32 { 19 }
    else if md < 64 { 20 }
    else if md < 128 { 21 }
    else if md < 256 { 22 }
    else if md < 512 { 25 }
    else if md < 1024 { 28 }
    else if md < 2048 { 31 }
    else if md < 4096 { 34 }
    else if md < 8192 { 37 }
    else if md < 16384 { 40 }
    else { 43 }
}

/// Run length consumed by the plateau one-bit written at table position `pos`.
pub open spec fn plateau_unit_at(pos: int) -> int {
    if pos < 4 { 1 }
    else if pos < 8 { 2 }
    else if pos < 12 { 4 }
    else if pos < 16 { 8 }
    else if pos < 18 { 16 }
    else if pos < 20 { 32 }
    else if pos < 22 { 64 }
    else { 128 }
}

/// Width of the binary remainder after a plateau zero-bit at table position `pos`.
pub open spec fn plateau_bin_bits_at(pos: int) -> int {
    if pos < 3 { 0 }
    else if pos < 7 { 1 }
    else if pos < 11 { 2 }
    else if pos < 15 { 3 }
    else if pos < 17 { 4 }
    else if pos < 19 { 5 }
    else if pos < 21 { 6 }
    else if pos < 22 { 7 }
    else { 8 }
}

pub fn plateau_unit(pos: usize) -> (r: u32)
    requires
        pos < 23,
    ensures
        r == plateau_unit_at(pos as int),
        1 <= r <= 128,
{
    if pos < 4 { 1 }
    else if pos < 8 { 2 }
    else if pos < 12 { 4 }
    else if pos < 16 { 8 }
    else if pos < 18 { 16 }
    else if pos < 20 { 32 }
    else if pos < 22 { 64 }
    else { 128 }
}

pub fn plateau_bin_bit(pos: usize) -> (r: u32)
    requires
        pos < 23,
    ensures
        r == plateau_bin_bits_at(pos as int),
        r <= 8,
{
    if pos < 3 { 0 }
    else if pos < 7 { 1 }
    else if pos < 11 { 2 }
    else if pos < 15 { 3 }
    else if pos < 17 { 4 }
    else if pos < 19 { 5 }
    else if pos < 21 { 6 }
    else if pos < 22 { 7 }
    else { 8 }
}

/// The largest power of two not above `n` (0 for 0).
pub open spec fn high_bit(n: nat) -> nat
    decreases n,
{
    if n <= 1 { n } else { 2 * high_bit(n / 2) }
}

/// The hybrid unit for an average `hu`: its highest power of two, 0 when not positive.
pub open spec fn normalized_hunit(hu: int) -> int {
    if hu > 0 { high_bit(hu as nat) as int } else { 0 }
}

fn high_bit_exec(n: u32) -> (r: u32)
    ensures
        r as nat == high_bit(n as nat),
        r <= n,
    decreases n,
{
    if n <= 1 {
        n
    } else {
        let h = high_bit_exec(n / 2);
        2 * h
    }
}

pub fn normalize_hunit(hu: i32) -> (r: i32)
    ensures
        r == normalized_hunit(hu as int),
        0 <= r,
        hu > 0 ==> r <= hu,
{
    if hu > 0 {
        high_bit_exec(hu as u32) as i32
    } else {
        0
    }
}

/// The statistic update of the length code, by region of the new value.
pub open spec fn evaluate_data(oldsum: int, elemcount: int, newdata: int, region: int) -> int {
    if region == 0 {
        -1 - oldsum - elemcount
    } else if region == 1 {
        2 * (newdata + elemcount) + 3
    } else if region == 2 {
        2 * newdata - 1
    } else if region == 3 {
        2 * (newdata - elemcount) - 5
    } else {
        1 - oldsum + elemcount
    }
}

/// Which of five regions, cut by the running sum, a new value falls in.
pub open spec fn data_region(oldsum: int, elemcount: int, newdata: int) -> int {
    if newdata < -2 - (oldsum + 3 * elemcount) / 2 {
        0
    } else if newdata < -((oldsum + elemcount) / 2) - (if elemcount < 63 { 0int } else { 1int }) {
        1
    } else if newdata < 2 - (oldsum - elemcount) / 2 {
        2
    } else if newdata < 4 - (oldsum - 3 * elemcount) / 2 {
        3
    } else {
        4
    }
}

/// `x >> 1` on a signed value: half, rounded down.
fn half_floor(x: i32) -> (r: i32)
    ensures
        r == x as int / 2,
{
    if x >= 0 {
        x / 2
    } else {
        -((-(x + 1)) / 2) - 1
    }
}

pub fn evaluate_data_exec(oldsum: i32, elemcount: i32, newdata: i32, region: i32) -> (r: i32)
    requires
        -0x10_0000 <= oldsum <= 0x10_0000,
        -0x10_0000 <= elemcount <= 0x10_0000,
        -0x10_0000 <= newdata <= 0x10_0000,
    ensures
        r == evaluate_data(oldsum as int, elemcount as int, newdata as int, region as int),
{
    if region == 0 {
        -1 - oldsum - elemcount
    } else if region == 1 {
        2 * (newdata + elemcount) + 3
    } else if region == 2 {
        2 * newdata - 1
    } else if region == 3 {
        2 * (newdata - elemcount) - 5
    } else {
        1 - oldsum + elemcount
    }
}

pub fn get_evaluate_data_region(oldsum: i32, elemcount: i32, newdata: i32) -> (r: i32)
    requires
        -0x10_0000 <= oldsum <= 0x10_0000,
        -0x10_0000 <= elemcount <= 0x10_0000,
        -0x10_0000 <= newdata <= 0x10_0000,
    ensures
        r == data_region(oldsum as int, elemcount as int, newdata as int),
        0 <= r <= 4,
{
    if newdata < -2 - half_floor(oldsum + 3 * elemcount) {
        0
    } else if newdata < -half_floor(oldsum + elemcount) - if elemcount < 63 { 0i32 } else { 1i32 } {
        1
    } else if newdata < 2 - half_floor(oldsum - elemcount) {
        2
    } else if newdata < 4 - half_floor(oldsum - 3 * elemcount) {
        3
    } else {
        4
    }
}

/// The hybrid unit for the running sum `numer` over `denom` elements.
fn hunit_for(numer: i32, denom: i32) -> (r: i32)
    requires
        1 <= denom <= 64,
        -0x200_0000 <= numer <= 0x200_0000,
    ensures
        r == normalized_hunit(tdiv(numer as int, denom as int)),
        0 <= r <= 0x200_0000,
{
    let q = numer / denom;
    assert(tdiv(numer as int, denom as int) <= 0x200_0000) by (nonlinear_arith)
        requires
            1 <= denom,
            numer <= 0x200_0000,
            q as int == tdiv(numer as int, denom as int),
    {
        if numer >= 0 {
            assert(numer as int / denom as int <= numer as int);
        }
    }
    normalize_hunit(q)
}

/// The adjustment of a new value before the length statistic is updated
/// on the last element of a window.
pub open spec fn std_work_data(sum_l: int, elem_count: int, d: int, region: int) -> int {
    if elem_count != 63 {
        d
    } else {
        let data_even = d % 2 == 0;
        let sum_l1 = (sum_l - 1) % 4 == 0;
        if region == 0 || region == 2 || region == 4 {
            if sum_l1 != data_even { d + 1 } else { d }
        } else if region == 1 {
            if sum_l1 != data_even { d + 2 } else { d + 1 }
        } else if region == 3 {
            if sum_l1 == data_even { d - 1 } else { d }
        } else {
            d
        }
    }
}

/// Statistics of the deltas coded so far by one of the three coders of a tile.
#[derive(Clone, Copy, Debug)]
pub struct ValPredicter {
    pub calc_type: CalcType,
    pub enc_type: EncType,
    pub wrap_type: WrapType,
    pub sum_h: i32,
    pub sum_l: i32,
    pub elem_count: i32,
    pub hunit: i32,
    pub unit_delta: i32,
    pub max_zero_bits: i32,
    pub max_delta_height: i32,
    pub l0_wrap_down: i32,
    pub l0_wrap_up: i32,
    pub l1_wrap_down: i32,
    pub l1_wrap_up: i32,
    pub l2_wrap_down: i32,
    pub l2_wrap_up: i32,
    pub h_wrap_down: i32,
    pub h_wrap_up: i32,
}

/// Bound on the size of one coded delta.
pub const DELTA_BOUND: i32 = 0x3FFFF;

impl ValPredicter {
    /// A fresh predictor of kind `calc_type` for a tile whose largest delta is `md`.
    pub open spec fn initial(calc_type: CalcType, md: int) -> ValPredicter {
        let plateau = calc_type == CalcType::CalcPlateauNonZero || calc_type == CalcType::CalcPlateauZero;
        let even = md % 2 == 0;
        ValPredicter {
            calc_type,
            enc_type: EncType::Hybrid,
            wrap_type: WrapType::Wrap0,
            sum_h: 0,
            sum_l: 0,
            elem_count: 0,
            hunit: start_hunit(md as u16) as i32,
            unit_delta: ((if md - 0x5f > 0 { md - 0x5f } else { 0 }) / 0x40) as i32,
            max_zero_bits: (max_zero_bits_for(md as u16) - (if plateau { 1int } else { 0int })) as i32,
            max_delta_height: md as i32,
            l0_wrap_down: (if even { tdiv(md, 2) } else { tdiv(md + 1, 2) }) as i32,
            l0_wrap_up: (if even { -tdiv(md, 2) } else { -tdiv(md - 1, 2) }) as i32,
            l1_wrap_down: (if even { tdiv(md + 2, 2) } else { tdiv(md + 1, 2) }) as i32,
            l1_wrap_up: (if even { -tdiv(md, 2) } else { -tdiv(md - 1, 2) }) as i32,
            l2_wrap_down: (if even { tdiv(md, 2) } else { tdiv(md - 1, 2) }) as i32,
            l2_wrap_up: (if even { -tdiv(md, 2) } else { -tdiv(md + 1, 2) }) as i32,
            h_wrap_down: tdiv(md + 1, 2) as i32,
            h_wrap_up: -tdiv(md - 1, 2) as i32,
        }
    }

    /// The bounds that every state reached from a fresh predictor keeps.
    pub open spec fn wf(self) -> bool {
        &&& 1 <= self.max_delta_height <= 65535
        &&& self.calc_type != CalcType::CalcPLen
        &&& 0 <= self.elem_count <= 63
        &&& 0 <= self.unit_delta <= 1024
        &&& -(self.unit_delta + 3) <= self.sum_h <= (self.elem_count + 1) * 0x40000
        &&& -(self.elem_count + 36) <= self.sum_l <= self.elem_count + 36
        &&& 0 <= self.hunit <= 0x400_0000
        &&& 14 <= self.max_zero_bits <= 43
        &&& -0x10000 <= self.l0_wrap_down <= 0x10000
        &&& -0x10000 <= self.l0_wrap_up <= 0x10000
        &&& -0x10000 <= self.l1_wrap_down <= 0x10000
        &&& -0x10000 <= self.l1_wrap_up <= 0x10000
        &&& -0x10000 <= self.l2_wrap_down <= 0x10000
        &&& -0x10000 <= self.l2_wrap_up <= 0x10000
        &&& -0x10000 <= self.h_wrap_down <= 0x10000
        &&& -0x10000 <= self.h_wrap_up <= 0x10000
    }

    pub fn new(calc_type: CalcType, max_height: i32) -> (p: Self)
        requires
            i32::MIN + 0x5f <= max_height <= i32::MAX - 2,
        ensures
            p == ValPredicter::initial(calc_type, max_height as int),
            1 <= max_height <= 65535 && calc_type != CalcType::CalcPLen ==> p.wf(),
    {
        let num_zero_bits = get_max_zero_bits(max_height as u16) as i32;
        let max_zero_bits = if calc_type == CalcType::CalcPlateauNonZero
            || calc_type == CalcType::CalcPlateauZero {
            num_zero_bits - 1
        } else {
            num_zero_bits
        };
        let excess = max_height - 0x5f;
        let unit_delta = (if excess > 0 { excess } else { 0 }) / 0x40;
        let hunit = get_start_hunit(max_height as u16) as i32;
        let (l0_wrap_down, l0_wrap_up, l1_wrap_down, l1_wrap_up, l2_wrap_down, l2_wrap_up);
        if max_height % 2 == 0 {
            l0_wrap_down = max_height / 2;
            l0_wrap_up = -(max_height / 2);
            l1_wrap_down = (max_height + 2) / 2;
            l1_wrap_up = -(max_height / 2);
            l2_wrap_down = max_height / 2;
            l2_wrap_up = -(max_height / 2);
        } else {
            l0_wrap_down = (max_height + 1) / 2;
            l0_wrap_up = -((max_height - 1) / 2);
            l1_wrap_down = (max_height + 1) / 2;
            l1_wrap_up = -((max_height - 1) / 2);
            l2_wrap_down = (max_height - 1) / 2;
            l2_wrap_up = -((max_height + 1) / 2);
        }
        let h_wrap_down = (max_height + 1) / 2;
        let h_wrap_up = -((max_height - 1) / 2);
        ValPredicter {
            calc_type,
            enc_type: EncType::Hybrid,
            wrap_type: WrapType::Wrap0,
            sum_h: 0,
            sum_l: 0,
            elem_count: 0,
            hunit,
            unit_delta,
            max_zero_bits,
            max_delta_height: max_height,
            l0_wrap_down,
            l0_wrap_up,
            l1_wrap_down,
            l1_wrap_up,
            l2_wrap_down,
            l2_wrap_up,
            h_wrap_down,
            h_wrap_up,
        }
    }

    /// The wrap window in force: `(down, up)`.
    pub open spec fn wrap_window(self) -> (int, int) {
        if self.enc_type == EncType::Hybrid {
            (self.h_wrap_down as int, self.h_wrap_up as int)
        } else {
            match self.wrap_type {
                WrapType::Wrap0 => (self.l0_wrap_down as int, self.l0_wrap_up as int),
                WrapType::Wrap1 => (self.l1_wrap_down as int, self.l1_wrap_up as int),
                WrapType::Wrap2 => (self.l2_wrap_down as int, self.l2_wrap_up as int),
            }
        }
    }

    /// `data` brought into the wrap window modulo `max_delta_height + 1`.
    pub open spec fn wrapped(self, data: int) -> int {
        let (down, up) = self.wrap_window();
        let v1 = if data > down { data - (self.max_delta_height + 1) } else { data };
        if v1 < up { v1 + (self.max_delta_height + 1) } else { v1 }
    }

    pub fn wrap(&self, data: i32) -> (r: i32)
        requires
            -0x2000_0000 <= self.max_delta_height <= 0x2000_0000,
            -0x2000_0000 <= data <= 0x2000_0000,
        ensures
            r == self.wrapped(data as int),
    {
        let mut v = data;
        let (down, up) = if self.enc_type == EncType::Hybrid {
            (self.h_wrap_down, self.h_wrap_up)
        } else {
            match self.wrap_type {
                WrapType::Wrap0 => (self.l0_wrap_down, self.l0_wrap_up),
                WrapType::Wrap1 => (self.l1_wrap_down, self.l1_wrap_up),
                WrapType::Wrap2 => (self.l2_wrap_down, self.l2_wrap_up),
            }
        };
        if v > down {
            v -= self.max_delta_height + 1;
        }
        if v < up {
            v += self.max_delta_height + 1;
        }
        v
    }

    /// The delta recorded in the statistics for a value `val`.
    pub open spec fn delta1_of(self, val: int, d_diff: int) -> int {
        let w = self.wrapped(val);
        if self.calc_type == CalcType::CalcPlateauZero {
            if w <= 0 { w + 1 } else { w }
        } else if self.calc_type == CalcType::CalcPlateauNonZero {
            if d_diff > 0 { -w } else { w }
        } else {
            w
        }
    }

    /// The delta written, after the wrap type's mapping.
    pub open spec fn delta2_of(self, delta1: int) -> int {
        match self.wrap_type {
            WrapType::Wrap0 => delta1,
            WrapType::Wrap1 => 1 - delta1,
            WrapType::Wrap2 => -delta1,
        }
    }

    /// The longest unary quotient in force for the current code.
    pub open spec fn current_max(self, curr_calc_type: CalcType, pos: int) -> int {
        if curr_calc_type == CalcType::CalcPlateauNonZero || curr_calc_type == CalcType::CalcPlateauZero {
            self.max_zero_bits - plateau_bin_bits_at(pos)
        } else {
            self.max_zero_bits as int
        }
    }

    /// The bits written for the delta `delta2` under quotient limit `cur_max`.
    pub open spec fn code(self, delta2: int, cur_max: int) -> Seq<bool> {
        let first = if self.enc_type == EncType::Hybrid {
            hybrid_code(delta2, self.hunit as int, cur_max)
        } else {
            len_code(delta2, cur_max)
        };
        match first {
            Some(c) => c,
            None => big_bin_code(delta2, cur_max, self.max_delta_height as int),
        }
    }

    /// The bits written for value `val`.
    pub open spec fn code_for(self, val: int, curr_calc_type: CalcType, pos: int, d_diff: int) -> Seq<bool> {
        self.code(self.delta2_of(self.delta1_of(val, d_diff)), self.current_max(curr_calc_type, pos))
    }

    /// The statistics after recording the delta `d`.
    pub open spec fn after(self, d: int) -> ValPredicter {
        let ud = self.unit_delta as int;
        let ec = self.elem_count as int;
        match self.calc_type {
            CalcType::CalcStd => {
                let sh1 = self.sum_h + abs_int(d);
                let sh2 = if sh1 + ud + 1 >= 0xffff { sh1 - 0x10000 } else { sh1 };
                let region = data_region(self.sum_l as int, ec, d);
                let work = std_work_data(self.sum_l as int, ec, d, region);
                let sl1 = self.sum_l + evaluate_data(self.sum_l as int, ec, work, region);
                let full = ec + 1 == 64;
                let ec2 = if full { 32 } else { ec + 1 };
                let sh3 = if full { (sh2 - ud) / 2 - 1 } else { sh2 };
                let sl2 = if full { tdiv(sl1, 2) } else { sl1 };
                let hu = normalized_hunit(tdiv(ud + sh3 + 1, ec2 + 1));
                ValPredicter {
                    sum_h: sh3 as i32,
                    sum_l: sl2 as i32,
                    elem_count: ec2 as i32,
                    hunit: hu as i32,
                    enc_type: if hu > 0 { EncType::Hybrid } else { EncType::Len },
                    wrap_type: if hu <= 0 && sl2 > 0 { WrapType::Wrap1 } else { WrapType::Wrap0 },
                    ..self
                }
            },
            CalcType::CalcPlateauZero => {
                let sh1 = self.sum_h + (if d > 0 { d } else { 1 - d });
                let sh2 = if sh1 + ud + 1 >= 0xffff { sh1 - 0x10000 } else { sh1 };
                let sl1 = self.sum_l + (if d <= 0 { -1int } else { 1int });
                let full = ec + 1 == 64;
                let ec2 = if full { 32 } else { ec + 1 };
                let sh3 = if full { (sh2 - ud) / 2 - 1 } else { sh2 };
                let half = tdiv(sl1, 2);
                let sl2 = if full { if half % 2 != 0 { half + 1 } else { half } } else { sl1 };
                let hu = normalized_hunit(tdiv(ud + sh3 + 1 - ec2 / 2, ec2 + 1));
                ValPredicter {
                    sum_h: sh3 as i32,
                    sum_l: sl2 as i32,
                    elem_count: ec2 as i32,
                    hunit: hu as i32,
                    enc_type: if hu > 0 { EncType::Hybrid } else { EncType::Len },
                    wrap_type: if hu <= 0 && sl2 >= 0 { WrapType::Wrap1 } else { WrapType::Wrap0 },
                    ..self
                }
            },
            CalcType::CalcPlateauNonZero => {
                let sh1 = self.sum_h + abs_int(d);
                let sh2 = if sh1 + ud + 1 >= 0xffff { sh1 - 0x10000 } else { sh1 };
                let sl1 = self.sum_l + (if d <= 0 { -1int } else { 1int });
                let full = ec + 1 == 64;
                let ec2 = if full { 32 } else { ec + 1 };
                let sh3 = if full { (sh2 - ud) / 2 - 1 } else { sh2 };
                let half = tdiv(sl1, 2);
                let sl2 = if full { if half % 2 != 0 { half - 1 } else { half } } else { sl1 };
                let hu = normalized_hunit(tdiv(ud + sh3 + 1, ec2 + 1));
                ValPredicter {
                    sum_h: sh3 as i32,
                    sum_l: sl2 as i32,
                    elem_count: ec2 as i32,
                    hunit: hu as i32,
                    enc_type: if hu > 0 { EncType::Hybrid } else { EncType::Len },
                    wrap_type: if hu <= 0 && sl2 <= 0 { WrapType::Wrap2 } else { WrapType::Wrap0 },
                    ..self
                }
            },
            CalcType::CalcPLen => self,
        }
    }
}

impl ValPredicter {
    /// Record the delta `delta1` in the statistics and choose the code and
    /// wrap window for the next value.
    pub fn process_val(&mut self, delta1: i32)
        requires
            old(self).wf(),
            -DELTA_BOUND < delta1 < DELTA_BOUND,
        ensures
            *final(self) == old(self).after(delta1 as int),
            final(self).wf(),
    {
        match self.calc_type {
            CalcType::CalcStd => self.process_std(delta1),
            CalcType::CalcPlateauZero => self.process_plateau_zero(delta1),
            CalcType::CalcPlateauNonZero => self.process_plateau_non_zero(delta1),
            CalcType::CalcPLen => {},
        }
    }

    /// The update of the standard coder.
    #[verifier::rlimit(50)]
    fn process_std(&mut self, delta1: i32)
        requires
            old(self).wf(),
            old(self).calc_type == CalcType::CalcStd,
            -DELTA_BOUND < delta1 < DELTA_BOUND,
        ensures
            *final(self) == old(self).after(delta1 as int),
            final(self).wf(),
    {
        let ud = self.unit_delta;
        let ec0 = self.elem_count;
        let sl0 = self.sum_l;
        let mag = if delta1 < 0 { -delta1 } else { delta1 };
        let mut sum_h = self.sum_h + mag;
        if sum_h + ud + 1 >= 0xffff {
            sum_h -= 0x10000;
        }
        let region = get_evaluate_data_region(sl0, ec0, delta1);
        let mut work_data = delta1;
        if ec0 == 63 {
            let data_even = delta1 % 2 == 0;
            let sum_l1 = (sl0 - 1) % 4 == 0;
            assert(data_even == (delta1 as int % 2 == 0));
            assert(sum_l1 == ((sl0 as int - 1) % 4 == 0));
            if region == 0 || region == 2 || region == 4 {
                if sum_l1 != data_even {
                    work_data += 1;
                }
            } else if region == 1 {
                work_data += 1;
                if sum_l1 != data_even {
                    work_data += 1;
                }
            } else if region == 3 {
                if sum_l1 == data_even {
                    work_data -= 1;
                }
            }
        }
        assert(work_data == std_work_data(sl0 as int, ec0 as int, delta1 as int, region as int));
        let eval = evaluate_data_exec(sl0, ec0, work_data, region);
        let mut sum_l = sl0 + eval;
        assert(-(ec0 + 6) <= sum_l <= ec0 + 6);
        let mut ec = ec0 + 1;
        if ec == 64 {
            ec = 32;
            sum_h = half_floor(sum_h - ud) - 1;
            sum_l = sum_l / 2;
        }
        let hunit = hunit_for(ud + sum_h + 1, ec + 1);
        self.sum_h = sum_h;
        self.sum_l = sum_l;
        self.elem_count = ec;
        self.hunit = hunit;
        self.wrap_type = WrapType::Wrap0;
        if hunit > 0 {
            self.enc_type = EncType::Hybrid;
        } else {
            self.enc_type = EncType::Len;
            if sum_l > 0 {
                self.wrap_type = WrapType::Wrap1;
            }
        }
    }

    /// The update of the coder that follows a plateau on a flat upper row.
    #[verifier::rlimit(50)]
    fn process_plateau_zero(&mut self, delta1: i32)
        requires
            old(self).wf(),
            old(self).calc_type == CalcType::CalcPlateauZero,
            -DELTA_BOUND < delta1 < DELTA_BOUND,
        ensures
            *final(self) == old(self).after(delta1 as int),
            final(self).wf(),
    {
        let ud = self.unit_delta;
        let ec0 = self.elem_count;
        let sl0 = self.sum_l;
        let mut sum_h = self.sum_h + if delta1 > 0 { delta1 } else { 1 - delta1 };
        if sum_h + ud + 1 >= 0xffff {
            sum_h -= 0x10000;
        }
        let mut sum_l = sl0 + if delta1 <= 0 { -1i32 } else { 1i32 };
        let mut ec = ec0 + 1;
        if ec == 64 {
            ec = 32;
            sum_h = half_floor(sum_h - ud) - 1;
            sum_l = sum_l / 2;
            if sum_l % 2 != 0 {
                sum_l += 1;
            }
        }
        let hunit = hunit_for(ud + sum_h + 1 - ec / 2, ec + 1);
        self.sum_h = sum_h;
        self.sum_l = sum_l;
        self.elem_count = ec;
        self.hunit = hunit;
        self.wrap_type = WrapType::Wrap0;
        if hunit > 0 {
            self.enc_type = EncType::Hybrid;
        } else {
            self.enc_type = EncType::Len;
            if sum_l >= 0 {
                self.wrap_type = WrapType::Wrap1;
            }
        }
    }

    /// The update of the coder that follows a plateau elsewhere.
    #[verifier::rlimit(50)]
    fn process_plateau_non_zero(&mut self, delta1: i32)
        requires
            old(self).wf(),
            old(self).calc_type == CalcType::CalcPlateauNonZero,
            -DELTA_BOUND < delta1 < DELTA_BOUND,
        ensures
            *final(self) == old(self).after(delta1 as int),
            final(self).wf(),
    {
        let ud = self.unit_delta;
        let ec0 = self.elem_count;
        let sl0 = self.sum_l;
        let mag = if delta1 < 0 { -delta1 } else { delta1 };
        let mut sum_h = self.sum_h + mag;
        if sum_h + ud + 1 >= 0xffff {
            sum_h -= 0x10000;
        }
        let mut sum_l = sl0 + if delta1 <= 0 { -1i32 } else { 1i32 };
        let mut ec = ec0 + 1;
        if ec == 64 {
            ec = 32;
            sum_h = half_floor(sum_h - ud) - 1;
            sum_l = sum_l / 2;
            if sum_l % 2 != 0 {
                sum_l -= 1;
            }
        }
        let hunit = hunit_for(ud + sum_h + 1, ec + 1);
        self.sum_h = sum_h;
        self.sum_l = sum_l;
        self.elem_count = ec;
        self.hunit = hunit;
        self.wrap_type = WrapType::Wrap0;
        if hunit > 0 {
            self.enc_type = EncType::Hybrid;
        } else {
            self.enc_type = EncType::Len;
            if sum_l <= 0 {
                self.wrap_type = WrapType::Wrap2;
            }
        }
    }
}

impl ValPredicter {
    /// The longest unary quotient in force for a code of kind `curr_calc_type`.
    pub fn get_current_max_zero_bits(&self, curr_calc_type: CalcType, curr_plateau_table_pos: usize) -> (r: i32)
        requires
            self.wf(),
            curr_plateau_table_pos < 23,
        ensures
            r == self.current_max(curr_calc_type, curr_plateau_table_pos as int),
            6 <= r <= 43,
    {
        if curr_calc_type == CalcType::CalcPlateauNonZero || curr_calc_type == CalcType::CalcPlateauZero {
            self.max_zero_bits - plateau_bin_bit(curr_plateau_table_pos) as i32
        } else {
            self.max_zero_bits
        }
    }

    /// Code the value `val` and record it.
    pub fn write(
        &mut self,
        val: i32,
        bw: &mut DemBitWriter,
        curr_calc_type: CalcType,
        curr_plateau_table_pos: usize,
        d_diff: i32,
    )
        requires
            old(self).wf(),
            -0x20000 <= val <= 0x20000,
            curr_plateau_table_pos < 23,
        ensures
            final(bw)@ == old(bw)@ + old(self).code_for(
                val as int,
                curr_calc_type,
                curr_plateau_table_pos as int,
                d_diff as int,
            ),
            *final(self) == old(self).after(old(self).delta1_of(val as int, d_diff as int)),
            final(self).wf(),
            final(bw)@.len() <= old(bw)@.len() + 71,
    {
        let ghost start = bw@;
        let wrapped = self.wrap(val);
        let mut delta1 = wrapped;
        if self.calc_type == CalcType::CalcPlateauZero {
            if delta1 <= 0 {
                delta1 += 1;
            }
        } else if self.calc_type == CalcType::CalcPlateauNonZero {
            if d_diff > 0 {
                delta1 = -delta1;
            }
        }
        let delta2 = match self.wrap_type {
            WrapType::Wrap0 => delta1,
            WrapType::Wrap1 => 1 - delta1,
            WrapType::Wrap2 => -delta1,
        };
        let current_max = self.get_current_max_zero_bits(curr_calc_type, curr_plateau_table_pos);
        let mut written = false;
        if self.enc_type == EncType::Hybrid {
            written = write_val_hybrid(bw, delta2, self.hunit, current_max);
        } else {
            let n0: i32 = if delta2 < 0 {
                -delta2 * 2
            } else if delta2 > 0 {
                (delta2 - 1) * 2 + 1
            } else {
                0
            };
            if n0 <= current_max {
                write_number_of_zero_bits(bw, n0);
                written = true;
            } else {
                assert(start + Seq::<bool>::empty() =~= start);
            }
        }
        if !written {
            write_val_big_bin(bw, delta2, current_max, self.max_delta_height);
        }
        assert(bw@ =~= start + self.code(delta2 as int, current_max as int));
        proof {
            self.lemma_code_len(delta2 as int, current_max as int);
        }
        self.process_val(delta1);
    }
}

impl ValPredicter {
    /// No code is longer than 71 bits.
    pub proof fn lemma_code_len(self, delta2: int, cur_max: int)
        requires
            self.wf(),
            6 <= cur_max <= 43,
        ensures
            self.code(delta2, cur_max).len() <= 71,
    {
        let m = if delta2 > 0 { delta2 - 1 } else { -delta2 };
        if self.hunit > 0 {
            let bin_part = m % (self.hunit as int);
            lemma_bin_bits_len(bin_part as nat, trailing_zeros(self.hunit as nat));
            lemma_trailing_zeros_small(self.hunit as nat);
        }
        let bits = big_bin_bits(self.max_delta_height as u16);
        let mag: u32 = if delta2 < 0 { (-delta2 - 1) as u32 } else { (delta2 - 1) as u32 };
        lemma_bin_bits_len(mag as nat, (bits - 1) as nat);
        lemma_big_bin_bits_range(self.max_delta_height as u16);
    }
}

/// The length code of a delta: its zig-zag rank in unary, when that fits
/// under `cur_max`.
pub open spec fn len_code(delta2: int, cur_max: int) -> Option<Seq<bool>> {
    let n0 = if delta2 < 0 { -delta2 * 2 } else if delta2 > 0 { (delta2 - 1) * 2 + 1 } else { 0 };
    if n0 <= cur_max { Some(unary(n0)) } else { None }
}

} // verus!
