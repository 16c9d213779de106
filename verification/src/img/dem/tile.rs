//! Compression of one DEM tile: each sample is coded against its upper
//! and left neighbours, runs equal to the left neighbour as plateau
//! lengths, the rest through three value predictors.
use vstd::prelude::*;
use super::bits::{DemBitWriter, bin_bits, pack_bits, write_val_as_bin, lemma_bin_bits_len};
use super::predict::{
    CalcType, ValPredicter, plateau_unit_at, plateau_bin_bits_at, plateau_unit, plateau_bin_bit,
};

verus! {

/// `n` one bits.
pub open spec fn ones(n: nat) -> Seq<bool> {
    Seq::new(n, |i: int| true)
}

/// While the remaining run `len` covers the unit at table position `pos`:
/// `(one bits written, run left, position reached)`.
pub open spec fn run_units(len: int, pos: int) -> (nat, int, int)
    decreases 23 - pos,
{
    if 0 <= pos < 23 && len >= plateau_unit_at(pos) {
        let r = run_units(len - plateau_unit_at(pos), pos + 1);
        (r.0 + 1, r.1, r.2)
    } else {
        (0, len, pos)
    }
}

/// A run that reaches the end of the row: one bits until column `x`
/// passes `width`: `(one bits written, column reached, position reached)`.
pub open spec fn row_end_units(x: int, width: int, pos: int) -> (nat, int, int)
    decreases 23 - pos,
{
    if x < width && 0 <= pos < 23 {
        let r = row_end_units(x + plateau_unit_at(pos), width, pos + 1);
        (r.0 + 1, r.1, r.2)
    } else {
        (0, x, pos)
    }
}

/// The bits of a plateau of `p_len` samples starting at column `col`, and
/// the table position after it.
pub open spec fn plateau_code(p_len: int, col: int, width: int, pos: int) -> (Seq<bool>, int) {
    if col + p_len >= width {
        let (n, x, p) = row_end_units(col, width, pos);
        (ones(n), if x != width { p - 1 } else { p })
    } else {
        let (n, len, p) = run_units(p_len, pos);
        let p2 = if p > 0 { p - 1 } else { p };
        (ones(n) + seq![false] + bin_bits(len as nat, plateau_bin_bits_at(p2) as nat), p2)
    }
}

proof fn lemma_run_units_count(len: int, pos: int)
    requires
        0 <= pos,
    ensures
        run_units(len, pos).0 <= (if pos < 23 { 23 - pos } else { 0 }),
        pos <= run_units(len, pos).2,
    decreases 23 - pos,
{
    if 0 <= pos < 23 && len >= plateau_unit_at(pos) {
        lemma_run_units_count(len - plateau_unit_at(pos), pos + 1);
    }
}

proof fn lemma_row_end_units_count(x: int, width: int, pos: int)
    requires
        0 <= pos,
    ensures
        row_end_units(x, width, pos).0 <= (if pos < 23 { 23 - pos } else { 0 }),
    decreases 23 - pos,
{
    if x < width && 0 <= pos < 23 {
        lemma_row_end_units_count(x + plateau_unit_at(pos), width, pos + 1);
    }
}

/// No plateau code is longer than 32 bits.
proof fn lemma_plateau_code_len(p_len: int, col: int, width: int, pos: int)
    requires
        0 <= pos <= 22,
    ensures
        plateau_code(p_len, col, width, pos).0.len() <= 32,
{
    if col + p_len >= width {
        lemma_row_end_units_count(col, width, pos);
    } else {
        lemma_run_units_count(p_len, pos);
        let (n, len, p) = run_units(p_len, pos);
        let p2 = if p > 0 { p - 1 } else { p };
        lemma_bin_bits_len(len as nat, plateau_bin_bits_at(p2) as nat);
    }
}

/// Write the length of a plateau of `p_len` samples starting at column `col`.
pub fn write_plateau_len(
    bw: &mut DemBitWriter,
    p_len: u32,
    col: u32,
    width: u32,
    curr_plateau_table_pos: &mut usize,
)
    requires
        width <= 127,
        col < width,
        col + p_len <= width,
        *old(curr_plateau_table_pos) <= 22,
    ensures
        final(bw)@ == old(bw)@ + plateau_code(
            p_len as int,
            col as int,
            width as int,
            *old(curr_plateau_table_pos) as int,
        ).0,
        *final(curr_plateau_table_pos) as int == plateau_code(
            p_len as int,
            col as int,
            width as int,
            *old(curr_plateau_table_pos) as int,
        ).1,
        *final(curr_plateau_table_pos) <= 22,
{
    let ghost start = bw@;
    let ghost pos0 = *curr_plateau_table_pos as int;
    let mut len = p_len as i32;
    let mut x = col as i32;
    if col + p_len >= width {
        while x < width as i32
            invariant
                width <= 127,
                col < width,
                col <= x <= 127 + 128,
                len + x == col + p_len,
                pos0 <= *curr_plateau_table_pos <= 23,
                x < width ==> *curr_plateau_table_pos < 23,
                *curr_plateau_table_pos == 23 ==> x >= 128,
                *curr_plateau_table_pos - pos0 == bw@.len() - start.len(),
                x == col || bw@.len() > start.len(),
                row_end_units(col as int, width as int, pos0) == {
                    let r = row_end_units(x as int, width as int, *curr_plateau_table_pos as int);
                    ((r.0 + (bw@.len() - start.len())) as nat, r.1, r.2)
                },
                bw@ == start + ones((bw@.len() - start.len()) as nat),
                bw@.len() >= start.len(),
            decreases 23 - *curr_plateau_table_pos,
        {
            let unit = plateau_unit(*curr_plateau_table_pos) as i32;
            *curr_plateau_table_pos += 1;
            len -= unit;
            x += unit;
            bw.add_bit(true);
            assert(bw@ =~= start + ones((bw@.len() - start.len()) as nat));
        }
        if x != width as i32 {
            *curr_plateau_table_pos -= 1;
        }
        assert(ones((bw@.len() - start.len()) as nat) =~= plateau_code(p_len as int, col as int, width as int, pos0).0);
    } else {
        loop
            invariant
                width <= 127,
                col + p_len < width,
                0 <= len <= p_len,
                *curr_plateau_table_pos <= 22,
                x == col + (p_len - len),
                run_units(p_len as int, pos0) == {
                    let r = run_units(len as int, *curr_plateau_table_pos as int);
                    ((r.0 + (bw@.len() - start.len())) as nat, r.1, r.2)
                },
                bw@ == start + ones((bw@.len() - start.len()) as nat),
                bw@.len() >= start.len(),
            ensures
                len < plateau_unit_at(*curr_plateau_table_pos as int),
            decreases len,
        {
            let unit = plateau_unit(*curr_plateau_table_pos) as i32;
            if len < unit {
                break;
            }
            *curr_plateau_table_pos += 1;
            len -= unit;
            bw.add_bit(true);
            x += unit;
            assert(bw@ =~= start + ones((bw@.len() - start.len()) as nat));
        }
        if *curr_plateau_table_pos > 0 {
            *curr_plateau_table_pos -= 1;
        }
        let ghost mid = bw@;
        bw.add_bit(false);
        let bin_bits_n = plateau_bin_bit(*curr_plateau_table_pos);
        if bin_bits_n > 0 {
            write_val_as_bin(bw, len as u32, bin_bits_n);
        } else {
            assert(bin_bits(len as nat, 0) =~= Seq::<bool>::empty());
        }
        assert(bw@ =~= start + plateau_code(p_len as int, col as int, width as int, pos0).0);
    }
}


/// The sample above position `pos` of a grid `w` samples wide (0 on the first row).
pub open spec fn upper(h: Seq<i32>, w: int, pos: int) -> int {
    if pos < w { 0 } else { h[pos - w] as int }
}

/// The sample left of position `pos`; on the first column the first
/// sample of the row above (0 on the first row).
pub open spec fn left(h: Seq<i32>, w: int, pos: int) -> int {
    if pos % w > 0 {
        h[pos - 1] as int
    } else if pos < w {
        0
    } else {
        h[pos - w] as int
    }
}

/// The sample left of the one above position `pos`, by the same rules.
pub open spec fn upper_left(h: Seq<i32>, w: int, pos: int) -> int {
    if pos < w {
        0
    } else if pos % w == 0 {
        if pos < 2 * w { 0 } else { h[pos - 2 * w] as int }
    } else {
        h[pos - w - 1] as int
    }
}

/// How many of the `room` samples from `start` on equal `value`, counted
/// up to the first that does not.
pub open spec fn plateau_len(h: Seq<i32>, start: int, room: int, value: int) -> nat
    decreases room,
{
    if room > 0 && h[start] == value {
        1 + plateau_len(h, start + 1, room - 1, value)
    } else {
        0
    }
}

/// The value coded by the standard coder at position `pos`: the sample
/// against a prediction from its three neighbours, sign-flipped when the
/// upper neighbour is the larger.
pub open spec fn std_value(h: Seq<i32>, w: int, md: int, pos: int) -> int {
    let hu = upper(h, w, pos);
    let hl = left(h, w, pos);
    let hdiff_up = hu - upper_left(h, w, pos);
    let predict = if hdiff_up >= md - hl {
        -1
    } else if hdiff_up <= -hl {
        0
    } else {
        hl + hdiff_up
    };
    if hu - hl > 0 { -(h[pos] as int) + predict } else { h[pos] - predict }
}

/// The state of the tile coder between two samples.
#[derive(Clone, Copy)]
pub struct DeltaCursor {
    pub std: ValPredicter,
    pub f0: ValPredicter,
    pub f1: ValPredicter,
    pub table_pos: usize,
    pub follower: bool,
    pub pos: usize,
}

/// The step on the sample after a plateau: coded against its upper
/// neighbour by the follower coder chosen by whether the upper and left
/// neighbours agree.
pub open spec fn follower_step(h: Seq<i32>, w: int, c: DeltaCursor) -> (Seq<bool>, DeltaCursor) {
    let pos = c.pos as int;
    let hu = upper(h, w, pos);
    let d_diff = hu - left(h, w, pos);
    let enc = if d_diff == 0 { c.f0 } else { c.f1 };
    let v = h[pos] - hu;
    let enc2 = enc.after(enc.delta1_of(v, d_diff));
    (
        enc.code_for(v, enc.calc_type, c.table_pos as int, d_diff),
        DeltaCursor {
            f0: if d_diff == 0 { enc2 } else { c.f0 },
            f1: if d_diff == 0 { c.f1 } else { enc2 },
            follower: false,
            pos: (pos + 1) as usize,
            ..c
        },
    )
}

/// The step on a sample equal to its left neighbour: the length of the
/// run of such samples, after which a follower is coded unless the run
/// ends its row.
pub open spec fn plateau_step(h: Seq<i32>, w: int, c: DeltaCursor) -> (Seq<bool>, DeltaCursor) {
    let pos = c.pos as int;
    let p_len = plateau_len(h, pos, w - pos % w, left(h, w, pos)) as int;
    let code = plateau_code(p_len, pos % w, w, c.table_pos as int);
    let pos2 = pos + p_len;
    (
        code.0,
        DeltaCursor {
            table_pos: code.1 as usize,
            follower: pos2 % w != 0 || p_len == 0,
            pos: pos2 as usize,
            ..c
        },
    )
}

/// The step on any other sample: the standard coder.
pub open spec fn std_step(h: Seq<i32>, w: int, md: int, c: DeltaCursor) -> (Seq<bool>, DeltaCursor) {
    let pos = c.pos as int;
    let d_diff = upper(h, w, pos) - left(h, w, pos);
    let v = std_value(h, w, md, pos);
    (
        c.std.code_for(v, CalcType::CalcStd, c.table_pos as int, d_diff),
        DeltaCursor { std: c.std.after(c.std.delta1_of(v, d_diff)), pos: (pos + 1) as usize, ..c },
    )
}

/// One step of the tile coder: the bits it writes and the state after.
pub open spec fn step(h: Seq<i32>, w: int, md: int, c: DeltaCursor) -> (Seq<bool>, DeltaCursor) {
    let pos = c.pos as int;
    if c.follower {
        follower_step(h, w, c)
    } else if upper(h, w, pos) == left(h, w, pos) {
        plateau_step(h, w, c)
    } else {
        std_step(h, w, md, c)
    }
}

/// The bounds the coder state keeps on a grid of `len` samples.
pub open spec fn cursor_ok(c: DeltaCursor, len: int) -> bool {
    &&& c.std.wf()
    &&& c.std.calc_type == CalcType::CalcStd
    &&& c.f0.wf()
    &&& c.f0.calc_type == CalcType::CalcPlateauZero
    &&& c.f1.wf()
    &&& c.f1.calc_type == CalcType::CalcPlateauNonZero
    &&& c.table_pos <= 22
    &&& c.pos <= len
}

/// What the coder still has to do: two units per sample left, one more
/// before a plateau.
pub open spec fn remaining(c: DeltaCursor, len: int) -> int {
    2 * (len - c.pos) + if c.follower { 0int } else { 1int }
}

/// The grid the coder runs on.
pub open spec fn grid_ok(h: Seq<i32>, w: int, md: int) -> bool {
    &&& 1 <= w <= 127
    &&& (h.len() as int) % w == 0
    &&& 1 <= md <= 65535
    &&& forall|i: int| 0 <= i < h.len() ==> 0 <= #[trigger] h[i] <= md
}

/// The bits of at most `fuel` steps of the tile coder from state `c`.
pub open spec fn run(h: Seq<i32>, w: int, md: int, c: DeltaCursor, fuel: nat) -> Seq<bool>
    decreases fuel,
{
    if fuel == 0 || c.pos >= h.len() {
        Seq::empty()
    } else {
        let (b, c2) = step(h, w, md, c);
        b + run(h, w, md, c2, (fuel - 1) as nat)
    }
}

/// The coder state before the first sample of a tile whose largest delta is `md`.
pub open spec fn initial_cursor(md: int) -> DeltaCursor {
    DeltaCursor {
        std: ValPredicter::initial(CalcType::CalcStd, md),
        f0: ValPredicter::initial(CalcType::CalcPlateauZero, md),
        f1: ValPredicter::initial(CalcType::CalcPlateauNonZero, md),
        table_pos: 0,
        follower: false,
        pos: 0,
    }
}

/// The bitstream of a grid of normalized samples, `w` per row: the coder
/// run from its initial state over every sample (each step consumes at
/// least one sample or turns a plateau into its follower, so `2n + 1`
/// steps cover `n` samples).
pub open spec fn delta_bits(h: Seq<i32>, w: int, md: int) -> Seq<bool> {
    run(h, w, md, initial_cursor(md), 2 * h.len() + 1)
}

/// Length of the run of samples from `pos` equal to `h_left`, within the
/// `room` samples left on the row.
fn calc_plateau_len(heights: &[i32], pos: usize, room: usize, h_left: i32) -> (r: usize)
    requires
        pos + room <= heights@.len(),
    ensures
        r == plateau_len(heights@, pos as int, room as int, h_left as int),
        r <= room,
{
    let mut len: usize = 0;
    let total = heights.len();
    loop
        invariant
            total == heights@.len(),
            pos + room <= heights@.len(),
            len <= room,
            plateau_len(heights@, pos as int, room as int, h_left as int)
                == len + plateau_len(heights@, pos + len, room - len, h_left as int),
        ensures
            len <= room,
            plateau_len(heights@, pos + len, room - len, h_left as int) == 0,
            plateau_len(heights@, pos as int, room as int, h_left as int) == len,
        decreases room - len,
    {
        if len >= room {
            break;
        }
        if heights[pos + len] != h_left {
            break;
        }
        len = len + 1;
    }
    len
}

proof fn lemma_row(pos: int, w: int, len: int)
    requires
        0 <= pos < len,
        w >= 1,
        len % w == 0,
    ensures
        pos - pos % w + w <= len,
        0 <= pos % w < w,
        pos % w <= pos,
        pos < w ==> pos % w == pos,
        pos >= w ==> pos - pos % w >= w,
        (pos - pos % w) % w == 0,
{
    assert(pos - pos % w + w <= len && pos % w <= pos && (pos < w ==> pos % w == pos)
        && (pos >= w ==> pos - pos % w >= w)) by (nonlinear_arith)
        requires
            0 <= pos < len,
            w >= 1,
            len % w == 0,
    {
        let q = pos / w;
        let k = len / w;
        assert(pos == q * w + pos % w);
        assert(0 <= pos % w < w);
        assert(len == k * w);
        assert(q < k);
        assert((q + 1) * w <= k * w);
        if pos >= w {
            assert(q >= 1);
        }
        if pos < w {
            assert(q == 0);
        }
    }
    assert((pos - pos % w) % w == 0) by (nonlinear_arith)
        requires
            w >= 1,
            pos >= 0,
    {
        assert(pos == (pos / w) * w + pos % w);
    }
}

/// The upper and left neighbours of position `pos`.
fn neighbours(heights: &[i32], width: usize, pos: usize) -> (r: (i32, i32))
    requires
        1 <= width,
        pos < heights@.len(),
        heights@.len() % (width as nat) == 0,
        forall|i: int| 0 <= i < heights@.len() ==> 0 <= #[trigger] heights@[i] <= 65535,
    ensures
        r.0 == upper(heights@, width as int, pos as int),
        r.1 == left(heights@, width as int, pos as int),
        0 <= r.0 <= 65535,
        0 <= r.1 <= 65535,
{
    proof {
        lemma_row(pos as int, width as int, heights@.len() as int);
    }
    let n = pos % width;
    let h_upper: i32 = if pos < width { 0 } else { heights[pos - width] };
    let h_left: i32 = if n > 0 {
        heights[pos - 1]
    } else if pos < width {
        0
    } else {
        heights[pos - width]
    };
    (h_upper, h_left)
}

/// Code the sample after a plateau.
fn code_follower(heights: &[i32], width: usize, max_delta_height: i32, c: &mut DeltaCursor, bw: &mut DemBitWriter)
    requires
        grid_ok(heights@, width as int, max_delta_height as int),
        cursor_ok(*old(c), heights@.len() as int),
        old(c).pos < heights@.len(),
        old(c).follower,
    ensures
        final(bw)@ == old(bw)@ + follower_step(heights@, width as int, *old(c)).0,
        *final(c) == follower_step(heights@, width as int, *old(c)).1,
        cursor_ok(*final(c), heights@.len() as int),
        remaining(*final(c), heights@.len() as int) < remaining(*old(c), heights@.len() as int),
        final(bw)@.len() <= old(bw)@.len() + 71,
{
    let pos = c.pos;
    let (h_upper, h_left) = neighbours(heights, width, pos);
    let d_diff = h_upper - h_left;
    c.follower = false;
    let v = heights[pos] - h_upper;
    if d_diff == 0 {
        let calc = c.f0.calc_type;
        c.f0.write(v, bw, calc, c.table_pos, d_diff);
    } else {
        let calc = c.f1.calc_type;
        c.f1.write(v, bw, calc, c.table_pos, d_diff);
    }
    c.pos = pos + 1;
}

/// Code the run of samples equal to the left neighbour of the current one.
fn code_plateau(heights: &[i32], width: usize, max_delta_height: i32, c: &mut DeltaCursor, bw: &mut DemBitWriter)
    requires
        grid_ok(heights@, width as int, max_delta_height as int),
        cursor_ok(*old(c), heights@.len() as int),
        old(c).pos < heights@.len(),
        !old(c).follower,
    ensures
        final(bw)@ == old(bw)@ + plateau_step(heights@, width as int, *old(c)).0,
        *final(c) == plateau_step(heights@, width as int, *old(c)).1,
        cursor_ok(*final(c), heights@.len() as int),
        remaining(*final(c), heights@.len() as int) < remaining(*old(c), heights@.len() as int),
        final(bw)@.len() <= old(bw)@.len() + 71,
{
    let pos = c.pos;
    proof {
        lemma_row(pos as int, width as int, heights@.len() as int);
    }
    let (_, h_left) = neighbours(heights, width, pos);
    let n = pos % width;
    let p_len = calc_plateau_len(heights, pos, width - n, h_left);
    let total = heights.len();
    assert(pos + (width - n) <= total);
    proof {
        lemma_plateau_code_len(p_len as int, n as int, width as int, c.table_pos as int);
    }
    write_plateau_len(bw, p_len as u32, n as u32, width as u32, &mut c.table_pos);
    let pos2 = pos + p_len;
    c.pos = pos2;
    c.follower = (pos2 % width != 0) || p_len == 0;
}

/// Code the current sample with the standard coder.
fn code_std(heights: &[i32], width: usize, max_delta_height: i32, c: &mut DeltaCursor, bw: &mut DemBitWriter)
    requires
        grid_ok(heights@, width as int, max_delta_height as int),
        cursor_ok(*old(c), heights@.len() as int),
        old(c).pos < heights@.len(),
        !old(c).follower,
    ensures
        final(bw)@ == old(bw)@ + std_step(heights@, width as int, max_delta_height as int, *old(c)).0,
        *final(c) == std_step(heights@, width as int, max_delta_height as int, *old(c)).1,
        cursor_ok(*final(c), heights@.len() as int),
        remaining(*final(c), heights@.len() as int) < remaining(*old(c), heights@.len() as int),
        final(bw)@.len() <= old(bw)@.len() + 71,
{
    let ghost h = heights@;
    let ghost w = width as int;
    let pos = c.pos;
    proof {
        lemma_row(pos as int, w, h.len() as int);
    }
    let (h_upper, h_left) = neighbours(heights, width, pos);
    let d_diff = h_upper - h_left;
    let n = pos % width;
    let h_cur = heights[pos];
    let h_up_left: i32 = if pos < width {
        0
    } else if n == 0 {
        if pos < 2 * width { 0 } else { heights[pos - 2 * width] }
    } else {
        heights[pos - width - 1]
    };
    assert(h_up_left == upper_left(h, w, pos as int));
    let hdiff_up = h_upper - h_up_left;
    let predict = if hdiff_up >= max_delta_height - h_left {
        -1
    } else if hdiff_up <= -h_left {
        0
    } else {
        h_left + hdiff_up
    };
    let v = if d_diff > 0 { -h_cur + predict } else { h_cur - predict };
    assert(v == std_value(h, w, max_delta_height as int, pos as int));
    let tp = c.table_pos;
    c.std.write(v, bw, CalcType::CalcStd, tp, d_diff);
    c.pos = pos + 1;
}

/// Compress a grid of samples in `[0, max_delta_height]`, `width` per row.
pub fn encode_deltas(heights: &[i32], width: usize, height: usize, max_delta_height: i32) -> (r: Vec<u8>)
    requires
        grid_ok(heights@, width as int, max_delta_height as int),
    ensures
        r@ == pack_bits(delta_bits(heights@, width as int, max_delta_height as int)),
        r@.len() <= (71 * (2 * heights@.len() + 1) + 7) / 8,
{
    let ghost h = heights@;
    let ghost w = width as int;
    let ghost md = max_delta_height as int;
    let mut bw = DemBitWriter::new();
    let mut cur = DeltaCursor {
        std: ValPredicter::new(CalcType::CalcStd, max_delta_height),
        f0: ValPredicter::new(CalcType::CalcPlateauZero, max_delta_height),
        f1: ValPredicter::new(CalcType::CalcPlateauNonZero, max_delta_height),
        table_pos: 0,
        follower: false,
        pos: 0,
    };
    let len = heights.len();
    let ghost mut fuel: nat = (2 * len + 1) as nat;
    assert(bw@ + run(h, w, md, cur, fuel) =~= delta_bits(h, w, md));
    while cur.pos < len
        invariant
            h == heights@,
            w == width as int,
            md == max_delta_height as int,
            len == h.len(),
            grid_ok(h, w, md),
            cursor_ok(cur, len as int),
            fuel >= remaining(cur, len as int),
            bw@ + run(h, w, md, cur, fuel) == delta_bits(h, w, md),
            fuel <= 2 * len + 1,
            bw@.len() <= 71 * (2 * len + 1 - fuel),
        decreases remaining(cur, len as int),
    {
        let ghost c = cur;
        let ghost before = bw@;
        if cur.follower {
            code_follower(heights, width, max_delta_height, &mut cur, &mut bw);
        } else {
            let (h_upper, h_left) = neighbours(heights, width, cur.pos);
            if h_upper == h_left {
                code_plateau(heights, width, max_delta_height, &mut cur, &mut bw);
            } else {
                code_std(heights, width, max_delta_height, &mut cur, &mut bw);
            }
        }
        proof {
            let (b, c2) = step(h, w, md, c);
            assert(bw@ == before + b);
            assert(cur == c2);
            assert(run(h, w, md, c, fuel) == b + run(h, w, md, c2, (fuel - 1) as nat));
            assert(before + (b + run(h, w, md, c2, (fuel - 1) as nat)) =~= (before + b) + run(
                h,
                w,
                md,
                c2,
                (fuel - 1) as nat,
            ));
            fuel = (fuel - 1) as nat;
        }
    }
    assert(bw@ + run(h, w, md, cur, fuel) =~= bw@);
    assert(bw@.len() <= 71 * (2 * len + 1)) by (nonlinear_arith)
        requires
            bw@.len() <= 71 * (2 * len + 1 - fuel),
            fuel >= 0,
    ;
    bw.into_bytes()
}

/// The sample value of a void cell.
pub const UNDEF: i16 = -32768;

/// One compressed tile: its smallest sample, the span above it, the
/// encoding type (2 when the tile has void cells) and the bitstream.
pub struct DemTileResult {
    pub base_height: i16,
    pub max_delta: u16,
    pub encoding_type: u8,
    pub bitstream: Vec<u8>,
}

/// Some cell of `h` holds a value.
pub open spec fn has_valid(h: Seq<i16>) -> bool {
    exists|i: int| 0 <= i < h.len() && #[trigger] h[i] != UNDEF
}

/// Some cell of `h` is void.
pub open spec fn has_undef(h: Seq<i16>) -> bool {
    exists|i: int| 0 <= i < h.len() && #[trigger] h[i] == UNDEF
}

/// `v` is the smallest value of the cells of `h` that are not void.
pub open spec fn is_min_valid(h: Seq<i16>, v: int) -> bool {
    &&& exists|i: int| 0 <= i < h.len() && h[i] != UNDEF && #[trigger] h[i] == v
    &&& forall|i: int| 0 <= i < h.len() && h[i] != UNDEF ==> #[trigger] h[i] >= v
}

/// `v` is the largest value of the cells of `h` that are not void.
pub open spec fn is_max_valid(h: Seq<i16>, v: int) -> bool {
    &&& exists|i: int| 0 <= i < h.len() && h[i] != UNDEF && #[trigger] h[i] == v
    &&& forall|i: int| 0 <= i < h.len() && h[i] != UNDEF ==> #[trigger] h[i] <= v
}

/// The samples above `base`, void cells mapped to `md`.
pub open spec fn normalized(h: Seq<i16>, base: int, md: int) -> Seq<i32> {
    Seq::new(h.len(), |i: int| if h[i] == UNDEF { md as i32 } else { (h[i] - base) as i32 })
}

/// `r` is the compressed form of the tile `h`, `width` samples per row.
pub open spec fn encodes(r: DemTileResult, h: Seq<i16>, width: int) -> bool {
    &&& !has_valid(h) ==> {
        &&& r.base_height == 0
        &&& r.max_delta == 0
        &&& r.encoding_type == 2
        &&& r.bitstream@ == Seq::<u8>::empty()
    }
    &&& has_valid(h) ==> {
        &&& is_min_valid(h, r.base_height as int)
        &&& is_max_valid(h, r.base_height + r.max_delta - (if has_undef(h) { 1int } else { 0int }))
        &&& r.encoding_type == (if has_undef(h) { 2u8 } else { 0u8 })
        &&& r.bitstream@ == if r.max_delta == 0 {
            Seq::<u8>::empty()
        } else {
            pack_bits(delta_bits(normalized(h, r.base_height as int, r.max_delta as int), width, r.max_delta as int))
        }
    }
}

/// Compress one tile of `width` x `height` samples, row by row. The base is
/// the smallest sample and the span reaches the largest, one more when
/// some cell is void (that top value then stands for the void cells); a
/// tile without values, or flat, has no bitstream.
pub fn encode_dem_tile(heights: &[i16], width: u32, height: u32) -> (r: DemTileResult)
    requires
        width * height <= u32::MAX,
        heights@.len() == width * height,
        width <= 127,
    ensures
        encodes(r, heights@, width as int),
        r.bitstream@.len() <= (71 * (2 * heights@.len() + 1) + 7) / 8,
        r.bitstream@.len() == 0 <==> r.max_delta == 0,
{
    let ghost h = heights@;
    let total = (width * height) as usize;
    let mut min_h: i32 = i32::MAX;
    let mut max_h: i32 = i32::MIN;
    let mut count_invalid: usize = 0;
    let mut i: usize = 0;
    while i < total
        invariant
            total == h.len(),
            h == heights@,
            i <= total,
            count_invalid <= i,
            (count_invalid > 0) == (exists|k: int| 0 <= k < i && #[trigger] h[k] == UNDEF),
            (min_h == i32::MAX) == !(exists|k: int| 0 <= k < i && #[trigger] h[k] != UNDEF),
            min_h != i32::MAX ==> {
                &&& -32767 <= min_h <= max_h <= 32767
                &&& exists|k: int| 0 <= k < i && h[k] != UNDEF && #[trigger] h[k] == min_h
                &&& forall|k: int| 0 <= k < i && h[k] != UNDEF ==> #[trigger] h[k] >= min_h
                &&& exists|k: int| 0 <= k < i && h[k] != UNDEF && #[trigger] h[k] == max_h
                &&& forall|k: int| 0 <= k < i && h[k] != UNDEF ==> #[trigger] h[k] <= max_h
            },
            min_h == i32::MAX ==> max_h == i32::MIN,
        decreases total - i,
    {
        let v = heights[i];
        if v == UNDEF {
            count_invalid += 1;
        } else {
            let vi = v as i32;
            if min_h == i32::MAX {
                min_h = vi;
                max_h = vi;
            } else {
                if vi > max_h {
                    max_h = vi;
                }
                if vi < min_h {
                    min_h = vi;
                }
            }
        }
        i += 1;
    }
    if min_h == i32::MAX {
        return DemTileResult { base_height: 0, max_delta: 0, encoding_type: 2, bitstream: Vec::new() };
    }
    let encoding_type: u8 = if count_invalid > 0 { 2 } else { 0 };
    if count_invalid > 0 {
        max_h += 1;
    }
    let base_height = min_h as i16;
    let max_delta_height = (max_h - min_h) as u16;
    if min_h == max_h {
        return DemTileResult {
            base_height,
            max_delta: max_delta_height,
            encoding_type,
            bitstream: Vec::new(),
        };
    }
    let md = max_delta_height as i32;
    let mut norm: Vec<i32> = Vec::new();
    let mut j: usize = 0;
    while j < total
        invariant
            total == h.len(),
            h == heights@,
            j <= total,
            md == max_h - min_h,
            1 <= md <= 65535,
            forall|k: int| 0 <= k < h.len() && h[k] != UNDEF ==> #[trigger] h[k] >= min_h,
            forall|k: int| 0 <= k < h.len() && h[k] != UNDEF ==> #[trigger] h[k] <= max_h,
            norm@ == normalized(h, min_h as int, md as int).subrange(0, j as int),
        decreases total - j,
    {
        if heights[j] == UNDEF {
            norm.push(md);
        } else {
            norm.push(heights[j] as i32 - min_h);
        }
        j += 1;
        assert(norm@ =~= normalized(h, min_h as int, md as int).subrange(0, j as int));
    }
    assert(norm@ =~= normalized(h, min_h as int, md as int));
    assert((total as int) % (width as int) == 0) by (nonlinear_arith)
        requires
            total == width * height,
            width >= 1,
    {
        assert(total as int == (height as int) * (width as int));
    }
    assert(width >= 1) by (nonlinear_arith)
        requires
            total == width * height,
            total >= 1,
    ;
    let bitstream = encode_deltas(&norm, width as usize, height as usize, md);
    proof {
        lemma_delta_bits_nonempty(norm@, width as int, md as int);
    }
    DemTileResult { base_height, max_delta: max_delta_height, encoding_type, bitstream }
}

/// The coder writes at least one bit for a tile with samples: its first
/// sample starts a plateau, which takes a bit at least.
proof fn lemma_delta_bits_nonempty(h: Seq<i32>, w: int, md: int)
    requires
        h.len() > 0,
        w >= 1,
    ensures
        delta_bits(h, w, md).len() > 0,
        pack_bits(delta_bits(h, w, md)).len() > 0,
{
    let c = initial_cursor(md);
    assert(0int % w == 0);
    assert(upper(h, w, 0) == 0 && left(h, w, 0) == 0);
    let p_len = plateau_len(h, 0, w, 0) as int;
    if 0 + p_len >= w {
        assert(row_end_units(0, w, 0).0 >= 1);
    }
    assert(plateau_code(p_len, 0, w, 0).0.len() > 0);
    let st = step(h, w, md, c);
    assert(st == plateau_step(h, w, c));
    assert(st.0.len() > 0);
    assert(delta_bits(h, w, md) == st.0 + run(h, w, md, st.1, (2 * h.len() + 1 - 1) as nat));
}

} // verus!
