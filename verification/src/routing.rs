//! Routing topology helpers: route parameters, junction detection, node
//! flags and deterministic node ids.
use vstd::prelude::*;
use std::collections::{HashMap, HashSet};
use crate::text::{chars_of, parse_u8, spec_parse_uint};

verus! {

broadcast use vstd::std_specs::hash::group_hash_axioms;

pub const NO_CAR: u16 = 0x0001;
pub const NO_BUS: u16 = 0x0002;
pub const NO_TAXI: u16 = 0x0004;
pub const NO_FOOT: u16 = 0x0010;
pub const NO_BIKE: u16 = 0x0020;
pub const NO_TRUCK: u16 = 0x0040;
pub const NO_DELIVERY: u16 = 0x4000;
pub const NO_EMERGENCY: u16 = 0x8000;

/// A routing node entry of a Polish Map polyline (`Nod<N>=<point>,<id>,<boundary>`).
#[derive(Debug, Clone, Copy, PartialEq, Eq, Structural)]
pub struct NodEntry {
    /// 0-based index into the Data0 coordinate array
    pub point_index: u16,
    /// Node id
    pub node_id: u32,
    /// True if this node is shared with an adjacent tile
    pub boundary: bool,
}

/// Parsed route parameters of a Polish Map `RouteParam` field.
#[derive(Debug, Clone, Default)]
pub struct RouteParams {
    pub speed: u8,
    pub road_class: u8,
    pub one_way: bool,
    pub toll: bool,
    /// Bitmask of the NO_* constants
    pub access_flags: u16,
}

/// Unicode `White_Space`, as `char::is_whitespace` tests it.
pub open spec fn is_ws(c: char) -> bool {
    let u = c as u32;
    (0x09 <= u && u <= 0x0D) || u == 0x20 || u == 0x85 || u == 0xA0 || u == 0x1680
        || (0x2000 <= u && u <= 0x200A) || u == 0x2028 || u == 0x2029 || u == 0x202F
        || u == 0x205F || u == 0x3000
}

/// `s` without leading whitespace.
pub open spec fn trim_start(s: Seq<char>) -> Seq<char>
    decreases s.len(),
{
    if s.len() > 0 && is_ws(s[0]) { trim_start(s.drop_first()) } else { s }
}

/// `s` without trailing whitespace.
pub open spec fn trim_end(s: Seq<char>) -> Seq<char>
    decreases s.len(),
{
    if s.len() > 0 && is_ws(s.last()) { trim_end(s.drop_last()) } else { s }
}

/// `str::trim`.
pub open spec fn trim(s: Seq<char>) -> Seq<char> {
    trim_end(trim_start(s))
}

/// The fields of `s` separated by commas (always at least one).
pub open spec fn split_commas(s: Seq<char>) -> Seq<Seq<char>>
    decreases s.len(),
{
    if s.len() == 0 {
        seq![Seq::empty()]
    } else {
        let f = split_commas(s.drop_last());
        if s.last() == ',' {
            f.push(Seq::empty())
        } else {
            f.update(f.len() - 1, f.last().push(s.last()))
        }
    }
}

/// Field `i` is present and reads `1` once trimmed.
pub open spec fn field_is_one(parts: Seq<Seq<char>>, i: int) -> bool {
    i < parts.len() && trim(parts[i]) == seq!['1']
}

/// Field `i` parsed as a `u8` (0 when absent or not a number), capped at `cap`.
pub open spec fn field_num(parts: Seq<Seq<char>>, i: int, cap: int) -> int {
    if i < parts.len() {
        match spec_parse_uint(trim(parts[i]), 0xFF) {
            Some(v) => if v < cap { v } else { cap },
            None => 0,
        }
    } else {
        0
    }
}

/// The access bit that field `i` (4..=11) denies when it reads `1`.
pub open spec fn access_bit(parts: Seq<Seq<char>>, i: int, flag: u16) -> u16 {
    if field_is_one(parts, i) { flag } else { 0 }
}

/// Spec of `parse_route_param`: speed (capped at 7), class (capped at 4),
/// one-way, toll, then the eight denied-access fields.
pub open spec fn spec_route_params(param: Seq<char>) -> RouteParams {
    let p = split_commas(param);
    RouteParams {
        speed: field_num(p, 0, 7) as u8,
        road_class: field_num(p, 1, 4) as u8,
        one_way: field_is_one(p, 2),
        toll: field_is_one(p, 3),
        access_flags: access_bit(p, 4, NO_EMERGENCY) | access_bit(p, 5, NO_DELIVERY)
            | access_bit(p, 6, NO_CAR) | access_bit(p, 7, NO_BUS) | access_bit(p, 8, NO_TAXI)
            | access_bit(p, 9, NO_FOOT) | access_bit(p, 10, NO_BIKE) | access_bit(p, 11, NO_TRUCK),
    }
}

/// There is always at least one field.
proof fn lemma_split_commas_nonempty(s: Seq<char>)
    ensures
        split_commas(s).len() >= 1,
    decreases s.len(),
{
    if s.len() > 0 {
        lemma_split_commas_nonempty(s.drop_last());
    }
}

/// Text without a comma is one field.
proof fn lemma_split_commas_single(f: Seq<char>)
    requires
        !f.contains(','),
    ensures
        split_commas(f) == seq![f],
    decreases f.len(),
{
    if f.len() > 0 {
        assert(!f.drop_last().contains(',')) by {
            if f.drop_last().contains(',') {
                let j = choose|j: int| 0 <= j < f.drop_last().len() && f.drop_last()[j] == ',';
                assert(f[j] == ',');
            }
        }
        lemma_split_commas_single(f.drop_last());
        assert(f.last() != ',') by {
            assert(f[f.len() - 1] == f.last());
        }
        assert(f.drop_last().push(f.last()) =~= f);
        assert(split_commas(f) =~= seq![f]);
    } else {
        assert(f =~= Seq::<char>::empty());
        assert(split_commas(f) =~= seq![f]);
    }
}

/// A comma joins the fields of the text before it and after it.
proof fn lemma_split_commas_join(x: Seq<char>, y: Seq<char>)
    ensures
        split_commas(x + seq![','] + y) == split_commas(x) + split_commas(y),
    decreases y.len(),
{
    let z = x + seq![','] + y;
    if y.len() == 0 {
        assert(z.drop_last() =~= x);
        assert(z.last() == ',');
        assert(split_commas(z) =~= split_commas(x) + split_commas(y));
    } else {
        lemma_split_commas_join(x, y.drop_last());
        lemma_split_commas_nonempty(y.drop_last());
        lemma_split_commas_nonempty(x);
        assert(z.drop_last() =~= x + seq![','] + y.drop_last());
        assert(z.last() == y.last());
        assert(split_commas(z) =~= split_commas(x) + split_commas(y));
    }
}

/// In `f0,f1,f2,f3` followed by nothing or by a comma and more fields, the
/// third field marks a one-way road and the fourth a toll road, each when
/// it reads `1` once trimmed; the first gives the speed and the second the
/// class.
pub proof fn lemma_route_param_fields(f0: Seq<char>, f1: Seq<char>, f2: Seq<char>, f3: Seq<char>, rest: Option<Seq<char>>)
    requires
        !f0.contains(','),
        !f1.contains(','),
        !f2.contains(','),
        !f3.contains(','),
    ensures
        ({
            let head = f0 + seq![','] + f1 + seq![','] + f2 + seq![','] + f3;
            let s = match rest { Some(t) => head + seq![','] + t, None => head };
            let r = spec_route_params(s);
            &&& r.one_way == (trim(f2) == seq!['1'])
            &&& r.toll == (trim(f3) == seq!['1'])
            &&& r.speed as int == match spec_parse_uint(trim(f0), 0xFF) {
                Some(v) => if v < 7 { v } else { 7 },
                None => 0,
            }
            &&& r.road_class as int == match spec_parse_uint(trim(f1), 0xFF) {
                Some(v) => if v < 4 { v } else { 4 },
                None => 0,
            }
        }),
{
    let head = f0 + seq![','] + f1 + seq![','] + f2 + seq![','] + f3;
    lemma_split_commas_single(f0);
    lemma_split_commas_single(f1);
    lemma_split_commas_single(f2);
    lemma_split_commas_single(f3);
    lemma_split_commas_join(f0, f1);
    lemma_split_commas_join(f0 + seq![','] + f1, f2);
    lemma_split_commas_join(f0 + seq![','] + f1 + seq![','] + f2, f3);
    let ph = split_commas(head);
    assert(ph =~= seq![f0, f1, f2, f3]);
    let s = match rest { Some(t) => head + seq![','] + t, None => head };
    let p = split_commas(s);
    match rest {
        Some(t) => {
            lemma_split_commas_join(head, t);
            assert(p == ph + split_commas(t));
        },
        None => {},
    }
    assert(p.len() >= 4);
    assert(p[0] == f0 && p[1] == f1 && p[2] == f2 && p[3] == f3);
    let r = spec_route_params(s);
    assert(r.one_way == field_is_one(p, 2));
    assert(r.toll == field_is_one(p, 3));
    assert(field_num(p, 0, 7) == match spec_parse_uint(trim(f0), 0xFF) {
        Some(v) => if v < 7 { v } else { 7 },
        None => 0,
    });
    assert(field_num(p, 1, 4) == match spec_parse_uint(trim(f1), 0xFF) {
        Some(v) => if v < 4 { v } else { 4 },
        None => 0,
    });
    lemma_parse_uint_nonneg(trim(f0));
    lemma_parse_uint_nonneg(trim(f1));
}

/// A parsed number is not negative.
proof fn lemma_parse_uint_nonneg(t: Seq<char>)
    ensures
        spec_parse_uint(t, 0xFF) matches Some(v) ==> v >= 0,
{
    let d = crate::text::strip_plus(t);
    if spec_parse_uint(t, 0xFF) is Some {
        lemma_digits_nonneg(d);
    }
}

/// Decimal digits have a value of at least zero.
proof fn lemma_digits_nonneg(d: Seq<char>)
    requires
        forall|i: int| 0 <= i < d.len() ==> crate::text::is_digit(#[trigger] d[i]),
    ensures
        crate::text::digits_value(d) >= 0,
    decreases d.len(),
{
    if d.len() > 0 {
        assert forall|i: int| 0 <= i < d.drop_last().len() implies crate::text::is_digit(#[trigger] d.drop_last()[i]) by {
            assert(d.drop_last()[i] == d[i]);
        }
        lemma_digits_nonneg(d.drop_last());
        assert(crate::text::is_digit(d[d.len() - 1]));
    }
}

/// Split the characters of `s` at each comma.
pub fn split_commas_exec(s: &Vec<char>) -> (r: Vec<Vec<char>>)
    ensures
        r@.len() == split_commas(s@).len(),
        forall|i: int| 0 <= i < r@.len() ==> #[trigger] r@[i]@ == split_commas(s@)[i],
{
    let mut parts: Vec<Vec<char>> = Vec::new();
    let mut cur: Vec<char> = Vec::new();
    let mut i: usize = 0;
    while i < s.len()
        invariant
            i <= s@.len(),
            parts@.len() + 1 == split_commas(s@.subrange(0, i as int)).len(),
            forall|k: int| 0 <= k < parts@.len() ==> #[trigger] parts@[k]@ == split_commas(s@.subrange(0, i as int))[k],
            cur@ == split_commas(s@.subrange(0, i as int)).last(),
        decreases s@.len() - i,
    {
        let c = s[i];
        let ghost prev = split_commas(s@.subrange(0, i as int));
        assert(s@.subrange(0, i + 1).drop_last() =~= s@.subrange(0, i as int));
        if c == ',' {
            parts.push(cur);
            cur = Vec::new();
        } else {
            cur.push(c);
        }
        i = i + 1;
        proof {
            let next = split_commas(s@.subrange(0, i as int));
            assert forall|k: int| 0 <= k < parts@.len() implies #[trigger] parts@[k]@ == next[k] by {
                if k < prev.len() - 1 {
                    assert(next[k] == prev[k]);
                }
            }
        }
    }
    parts.push(cur);
    assert(s@.subrange(0, s@.len() as int) =~= s@);
    parts
}

/// `char::is_whitespace`.
fn is_ws_exec(c: char) -> (r: bool)
    ensures
        r == is_ws(c),
{
    let u = c as u32;
    (0x09 <= u && u <= 0x0D) || u == 0x20 || u == 0x85 || u == 0xA0 || u == 0x1680
        || (0x2000 <= u && u <= 0x200A) || u == 0x2028 || u == 0x2029 || u == 0x202F
        || u == 0x205F || u == 0x3000
}

/// `str::trim` on characters.
pub fn trim_exec(s: &Vec<char>) -> (r: Vec<char>)
    ensures
        r@ == trim(s@),
{
    let mut a: usize = 0;
    assert(s@.subrange(0, s@.len() as int) =~= s@);
    while a < s.len() && is_ws_exec(s[a])
        invariant
            a <= s@.len(),
            trim_start(s@) == trim_start(s@.subrange(a as int, s@.len() as int)),
        decreases s@.len() - a,
    {
        assert(s@.subrange(a as int, s@.len() as int).drop_first() =~= s@.subrange(a + 1, s@.len() as int));
        a = a + 1;
    }
    assert(trim_start(s@) == s@.subrange(a as int, s@.len() as int)) by {
        assert(s@.subrange(a as int, s@.len() as int).len() == 0
            || !is_ws(s@.subrange(a as int, s@.len() as int)[0]));
    }
    let mut b: usize = s.len();
    while b > a && is_ws_exec(s[b - 1])
        invariant
            a <= b <= s@.len(),
            trim(s@) == trim_end(s@.subrange(a as int, b as int)),
        decreases b,
    {
        assert(s@.subrange(a as int, b as int).drop_last() =~= s@.subrange(a as int, b - 1));
        b = b - 1;
    }
    crate::text::sub_chars(s, a, b)
}

/// Whether the characters are exactly `"1"`.
fn is_one(s: &Vec<char>) -> (r: bool)
    ensures
        r == (s@ == seq!['1']),
{
    let r = s.len() == 1 && s[0] == '1';
    assert(r ==> s@ =~= seq!['1']);
    r
}

/// Whether field `i` of the split parameter reads `1`.
fn field_flag(parts: &Vec<Vec<char>>, i: usize, Ghost(p): Ghost<Seq<Seq<char>>>) -> (r: bool)
    requires
        parts@.len() == p.len(),
        forall|k: int| 0 <= k < p.len() ==> #[trigger] parts@[k]@ == p[k],
    ensures
        r == field_is_one(p, i as int),
{
    if i < parts.len() {
        let t = trim_exec(&parts[i]);
        assert(t@ == trim(p[i as int]));
        is_one(&t)
    } else {
        false
    }
}

/// The access bit `flag` when field `i` reads `1`, else 0.
fn field_access_bit(parts: &Vec<Vec<char>>, i: usize, flag: u16, Ghost(p): Ghost<Seq<Seq<char>>>) -> (r: u16)
    requires
        parts@.len() == p.len(),
        forall|k: int| 0 <= k < p.len() ==> #[trigger] parts@[k]@ == p[k],
    ensures
        r == access_bit(p, i as int, flag),
{
    if field_flag(parts, i, Ghost(p)) { flag } else { 0 }
}

/// Field `i` as a number capped at `cap`.
fn field_number(parts: &Vec<Vec<char>>, i: usize, cap: u8, Ghost(p): Ghost<Seq<Seq<char>>>) -> (r: u8)
    requires
        parts@.len() == p.len(),
        forall|k: int| 0 <= k < p.len() ==> #[trigger] parts@[k]@ == p[k],
    ensures
        r == field_num(p, i as int, cap as int),
{
    if i < parts.len() {
        let t = trim_exec(&parts[i]);
        assert(t@ == trim(p[i as int]));
        match parse_u8(&t) {
            Some(v) => if v < cap { v } else { cap },
            None => 0,
        }
    } else {
        0
    }
}

/// Parse a Polish Map `RouteParam` string. Fields: speed, class, one-way,
/// toll, then denied emergency, delivery, car, bus, taxi, pedestrian,
/// bicycle, truck; missing or malformed fields count as 0.
pub fn parse_route_param(param: &str) -> (r: RouteParams)
    ensures
        r == spec_route_params(param@),
{
    let chars = chars_of(param);
    let parts = split_commas_exec(&chars);
    let ghost p = split_commas(param@);
    let b4 = field_access_bit(&parts, 4, NO_EMERGENCY, Ghost(p));
    let b5 = field_access_bit(&parts, 5, NO_DELIVERY, Ghost(p));
    let b6 = field_access_bit(&parts, 6, NO_CAR, Ghost(p));
    let b7 = field_access_bit(&parts, 7, NO_BUS, Ghost(p));
    let b8 = field_access_bit(&parts, 8, NO_TAXI, Ghost(p));
    let b9 = field_access_bit(&parts, 9, NO_FOOT, Ghost(p));
    let b10 = field_access_bit(&parts, 10, NO_BIKE, Ghost(p));
    let b11 = field_access_bit(&parts, 11, NO_TRUCK, Ghost(p));
    let access_flags: u16 = b4 | b5 | b6 | b7 | b8 | b9 | b10 | b11;
    let speed = field_number(&parts, 0, 7, Ghost(p));
    let road_class = field_number(&parts, 1, 4, Ghost(p));
    let one_way = field_flag(&parts, 2, Ghost(p));
    let toll = field_flag(&parts, 3, Ghost(p));
    RouteParams { speed, road_class, one_way, toll, access_flags }
}


/// A road point key: the two coordinates packed into one integer.
pub open spec fn pack(k: (i32, i32)) -> u64 {
    ((k.0 as u32 as u64) << 32u64) | (k.1 as u32 as u64)
}

/// Two points pack to the same key only when they are equal.
pub proof fn lemma_pack_injective(a: (i32, i32), b: (i32, i32))
    ensures
        pack(a) == pack(b) ==> a == b,
{
    let (a0, a1, b0, b1) = (a.0, a.1, b.0, b.1);
    assert(((a0 as u32 as u64) << 32u64) | (a1 as u32 as u64) == ((b0 as u32 as u64) << 32u64) | (b1 as u32 as u64)
        ==> a0 == b0 && a1 == b1) by (bit_vector);
}

fn pack_exec(k: (i32, i32)) -> (r: u64)
    ensures
        r == pack(k),
{
    ((k.0 as u32 as u64) << 32u64) | (k.1 as u32 as u64)
}

/// The points of one road, each with whether it is an endpoint.
pub open spec fn road_refs(c: Seq<(i32, i32)>) -> Seq<((i32, i32), bool)> {
    Seq::new(c.len(), |i: int| (c[i], i == 0 || i == c.len() - 1))
}

/// The points of all roads in order, each with whether it ends its road.
pub open spec fn flat_refs(roads: Seq<Seq<(i32, i32)>>) -> Seq<((i32, i32), bool)>
    decreases roads.len(),
{
    if roads.len() == 0 {
        Seq::empty()
    } else {
        flat_refs(roads.drop_last()) + road_refs(roads.last())
    }
}

/// The coordinate sequences of the roads.
pub open spec fn road_rows(roads: Seq<Vec<(i32, i32)>>) -> Seq<Seq<(i32, i32)>> {
    roads.map_values(|v: Vec<(i32, i32)>| v@)
}

/// `k` occurs among the references.
pub open spec fn seen_in(refs: Seq<((i32, i32), bool)>, k: (i32, i32)) -> bool {
    exists|j: int| 0 <= j < refs.len() && #[trigger] refs[j].0 == k
}

/// `k` ends some road, or occurs at two positions or more.
pub open spec fn junction_in(refs: Seq<((i32, i32), bool)>, k: (i32, i32)) -> bool {
    ||| exists|j: int| 0 <= j < refs.len() && #[trigger] refs[j].0 == k && refs[j].1
    ||| exists|a: int, b: int| 0 <= a < b < refs.len() && #[trigger] refs[a].0 == k && #[trigger] refs[b].0 == k
}

/// `k` is a junction of the road network: an endpoint of a road, or a
/// point referenced twice or more (by two roads, or twice by one).
pub open spec fn is_junction(roads: Seq<Vec<(i32, i32)>>, k: (i32, i32)) -> bool {
    junction_in(flat_refs(road_rows(roads)), k)
}

/// How seeing and junction status change when one more reference is read.
proof fn lemma_refs_step(refs: Seq<((i32, i32), bool)>, j: int, q: (i32, i32))
    requires
        0 <= j < refs.len(),
    ensures
        seen_in(refs.take(j + 1), q) == (seen_in(refs.take(j), q) || refs[j].0 == q),
        junction_in(refs.take(j + 1), q) == (junction_in(refs.take(j), q) || (refs[j].0 == q && (
        refs[j].1 || seen_in(refs.take(j), q)))),
{
    let a = refs.take(j);
    let b = refs.take(j + 1);
    assert(b[j] == refs[j]);
    if seen_in(b, q) {
        let i = choose|i: int| 0 <= i < b.len() && #[trigger] b[i].0 == q;
        if i < j {
            assert(a[i].0 == q);
        }
    }
    if seen_in(a, q) {
        let i = choose|i: int| 0 <= i < a.len() && #[trigger] a[i].0 == q;
        assert(b[i].0 == q);
    }
    if refs[j].0 == q {
        assert(b[j].0 == q);
    }
    if exists|i: int| 0 <= i < b.len() && #[trigger] b[i].0 == q && b[i].1 {
        let i = choose|i: int| 0 <= i < b.len() && #[trigger] b[i].0 == q && b[i].1;
        if i < j {
            assert(a[i].0 == q && a[i].1);
        }
    }
    if exists|x: int, y: int| 0 <= x < y < b.len() && #[trigger] b[x].0 == q && #[trigger] b[y].0 == q {
        let (x, y) = choose|x: int, y: int| 0 <= x < y < b.len() && #[trigger] b[x].0 == q && #[trigger] b[y].0 == q;
        if y < j {
            assert(a[x].0 == q && a[y].0 == q);
        } else {
            assert(a[x].0 == q);
        }
    }
    if exists|i: int| 0 <= i < a.len() && #[trigger] a[i].0 == q && a[i].1 {
        let i = choose|i: int| 0 <= i < a.len() && #[trigger] a[i].0 == q && a[i].1;
        assert(b[i].0 == q && b[i].1);
    }
    if exists|x: int, y: int| 0 <= x < y < a.len() && #[trigger] a[x].0 == q && #[trigger] a[y].0 == q {
        let (x, y) = choose|x: int, y: int| 0 <= x < y < a.len() && #[trigger] a[x].0 == q && #[trigger] a[y].0 == q;
        assert(b[x].0 == q && b[y].0 == q);
    }
    if refs[j].0 == q && refs[j].1 {
        assert(b[j].0 == q && b[j].1);
    }
    if refs[j].0 == q && seen_in(a, q) {
        let i = choose|i: int| 0 <= i < a.len() && #[trigger] a[i].0 == q;
        assert(b[i].0 == q && b[j].0 == q);
    }
}

/// The references of all roads, in order.
fn flatten_refs(roads: &[Vec<(i32, i32)>]) -> (r: Vec<((i32, i32), bool)>)
    ensures
        r@ == flat_refs(road_rows(roads@)),
{
    let mut out: Vec<((i32, i32), bool)> = Vec::new();
    let mut ri: usize = 0;
    while ri < roads.len()
        invariant
            ri <= roads@.len(),
            out@ == flat_refs(road_rows(roads@).take(ri as int)),
        decreases roads@.len() - ri,
    {
        let c = &roads[ri];
        let ghost base = out@;
        let mut j: usize = 0;
        while j < c.len()
            invariant
                ri < roads@.len(),
                c@ == roads@[ri as int]@,
                j <= c@.len(),
                out@ == base + road_refs(c@).take(j as int),
            decreases c@.len() - j,
        {
            let ep = j == 0 || j == c.len() - 1;
            out.push((c[j], ep));
            assert(road_refs(c@).take(j + 1) =~= road_refs(c@).take(j as int).push((c@[j as int], ep)));
            j = j + 1;
        }
        assert(road_refs(c@).take(c@.len() as int) =~= road_refs(c@));
        assert(road_rows(roads@).take(ri + 1).drop_last() =~= road_rows(roads@).take(ri as int));
        ri = ri + 1;
    }
    assert(road_rows(roads@).take(roads@.len() as int) =~= road_rows(roads@));
    out
}

/// Find the junction points of a road network: the points shared by two
/// references or more, and the endpoints of every road. Each junction
/// appears once, in order of first occurrence.
pub fn find_junctions(roads: &[Vec<(i32, i32)>]) -> (r: Vec<(i32, i32)>)
    ensures
        r@.no_duplicates(),
        forall|k: (i32, i32)| r@.contains(k) <==> is_junction(roads@, k),
{
    let refs = flatten_refs(roads);
    let ghost all = refs@;
    let mut state: HashMap<u64, bool> = HashMap::new();
    let mut order: Vec<(i32, i32)> = Vec::new();
    let mut j: usize = 0;
    while j < refs.len()
        invariant
            j <= refs@.len(),
            all == refs@,
            forall|q: (i32, i32)| #![trigger seen_in(all.take(j as int), q)]
                state@.contains_key(pack(q)) <==> seen_in(all.take(j as int), q),
            forall|q: (i32, i32)| #![trigger junction_in(all.take(j as int), q)]
                state@.contains_key(pack(q)) ==> (state@[pack(q)] <==> junction_in(all.take(j as int), q)),
            order@.no_duplicates(),
            forall|q: (i32, i32)| #![trigger seen_in(all.take(j as int), q)]
                order@.contains(q) <==> seen_in(all.take(j as int), q),
        decreases refs@.len() - j,
    {
        let (k, ep) = refs[j];
        let key = pack_exec(k);
        let ghost old_state = state@;
        let ghost old_order = order@;
        let found = match state.get(&key) {
            Some(_) => true,
            None => false,
        };
        proof {
            lemma_refs_step(all, j as int, k);
        }
        if found {
            state.insert(key, true);
        } else {
            state.insert(key, ep);
            order.push(k);
            proof {
                assert(!old_order.contains(k));
                assert forall|x: int, y: int| 0 <= x < order@.len() && 0 <= y < order@.len() && x != y
                    implies order@[x] != order@[y] by {
                    if x < old_order.len() && y < old_order.len() {
                        assert(old_order[x] != old_order[y]);
                    } else if x < old_order.len() {
                        assert(old_order.contains(old_order[x]));
                    } else {
                        assert(old_order.contains(old_order[y]));
                    }
                }
            }
        }
        proof {
            assert forall|q: (i32, i32)| #![trigger seen_in(all.take(j + 1), q)]
                state@.contains_key(pack(q)) <==> seen_in(all.take(j + 1), q) by {
                lemma_pack_injective(q, k);
                lemma_refs_step(all, j as int, q);
                assert(seen_in(all.take(j as int), q) ==> old_state.contains_key(pack(q)));
            }
            assert forall|q: (i32, i32)| #![trigger junction_in(all.take(j + 1), q)]
                state@.contains_key(pack(q)) ==> (state@[pack(q)] <==> junction_in(all.take(j + 1), q)) by {
                lemma_pack_injective(q, k);
                lemma_refs_step(all, j as int, q);
                if q != k && state@.contains_key(pack(q)) {
                    assert(old_state.contains_key(pack(q)) <==> seen_in(all.take(j as int), q));
                    assert(junction_in(all.take(j as int), q) ==> seen_in(all.take(j as int), q));
                }
                if q == k && found {
                    assert(old_state.contains_key(pack(q)));
                }
                if q == k && !found {
                    assert(!seen_in(all.take(j as int), q));
                    if junction_in(all.take(j as int), q) {
                        if exists|i: int| 0 <= i < j && #[trigger] all.take(j as int)[i].0 == q && all.take(j as int)[i].1 {
                            let i = choose|i: int| 0 <= i < j && #[trigger] all.take(j as int)[i].0 == q && all.take(j as int)[i].1;
                            assert(all.take(j as int)[i].0 == q);
                        } else {
                            let (x, y) = choose|x: int, y: int| 0 <= x < y < j && #[trigger] all.take(j as int)[x].0 == q && #[trigger] all.take(j as int)[y].0 == q;
                            assert(all.take(j as int)[x].0 == q);
                        }
                    }
                }
            }
            assert forall|q: (i32, i32)| #![trigger seen_in(all.take(j + 1), q)]
                order@.contains(q) <==> seen_in(all.take(j + 1), q) by {
                lemma_refs_step(all, j as int, q);
                if order@.contains(q) && q != k {
                    let i = choose|i: int| 0 <= i < order@.len() && order@[i] == q;
                    if !found {
                        assert(old_order[i] == q);
                    }
                    assert(old_order.contains(q));
                }
                if seen_in(all.take(j as int), q) {
                    assert(old_order.contains(q));
                    let i = choose|i: int| 0 <= i < old_order.len() && old_order[i] == q;
                    assert(order@[i] == q);
                }
                if q == k && !found {
                    assert(order@[order@.len() - 1] == q);
                }
            }
        }
        j = j + 1;
    }
    assert(all.take(all.len() as int) =~= all);
    let mut out: Vec<(i32, i32)> = Vec::new();
    let mut i: usize = 0;
    while i < order.len()
        invariant
            i <= order@.len(),
            all.take(all.len() as int) == all,
            forall|q: (i32, i32)| #![trigger seen_in(all, q)]
                state@.contains_key(pack(q)) <==> seen_in(all, q),
            forall|q: (i32, i32)| #![trigger junction_in(all, q)]
                state@.contains_key(pack(q)) ==> (state@[pack(q)] <==> junction_in(all, q)),
            order@.no_duplicates(),
            forall|q: (i32, i32)| #![trigger seen_in(all, q)]
                order@.contains(q) <==> seen_in(all, q),
            out@.no_duplicates(),
            forall|q: (i32, i32)| #![trigger out@.contains(q)]
                out@.contains(q) <==> (order@.take(i as int).contains(q) && junction_in(all, q)),
        decreases order@.len() - i,
    {
        let k = order[i];
        let ghost old_out = out@;
        assert(order@.contains(k));
        assert(seen_in(all, k));
        let key = pack_exec(k);
        let is_j = match state.get(&key) {
            Some(v) => *v,
            None => false,
        };
        assert(is_j == junction_in(all, k));
        assert(old_out.contains(k) <==> (order@.take(i as int).contains(k) && junction_in(all, k)));
        if is_j {
            out.push(k);
            proof {
                assert(!order@.take(i as int).contains(k)) by {
                    if order@.take(i as int).contains(k) {
                        let x = choose|x: int| 0 <= x < i && #[trigger] order@.take(i as int)[x] == k;
                        assert(order@[x] == order@[i as int]);
                    }
                }
                assert(!old_out.contains(k));
                assert forall|x: int, y: int| 0 <= x < out@.len() && 0 <= y < out@.len() && x != y
                    implies out@[x] != out@[y] by {
                    if x < old_out.len() && y < old_out.len() {
                        assert(old_out[x] != old_out[y]);
                    } else if x < old_out.len() {
                        assert(old_out.contains(old_out[x]));
                    } else {
                        assert(old_out.contains(old_out[y]));
                    }
                }
            }
        }
        proof {
            assert forall|q: (i32, i32)| #![trigger out@.contains(q)]
                out@.contains(q) <==> (order@.take(i + 1).contains(q) && junction_in(all, q)) by {
                assert(old_out.contains(q) <==> (order@.take(i as int).contains(q) && junction_in(all, q)));
                if order@.take(i + 1).contains(q) && q != k {
                    let x = choose|x: int| 0 <= x < i + 1 && #[trigger] order@.take(i + 1)[x] == q;
                    assert(order@.take(i as int)[x] == q);
                }
                if order@.take(i as int).contains(q) {
                    let x = choose|x: int| 0 <= x < i && #[trigger] order@.take(i as int)[x] == q;
                    assert(order@.take(i + 1)[x] == q);
                }
                if q == k {
                    assert(order@.take(i + 1)[i as int] == q);
                }
                if out@.contains(q) && q != k {
                    let x = choose|x: int| 0 <= x < out@.len() && out@[x] == q;
                    assert(old_out[x] == q);
                }
                if old_out.contains(q) {
                    let x = choose|x: int| 0 <= x < old_out.len() && old_out[x] == q;
                    assert(out@[x] == q);
                }
                if q == k && is_j {
                    assert(out@[out@.len() - 1] == q);
                }
            }
        }
        i = i + 1;
    }
    proof {
        assert(order@.take(order@.len() as int) =~= order@);
        assert forall|q: (i32, i32)| out@.contains(q) <==> is_junction(roads@, q) by {
            if junction_in(all, q) {
                if exists|i: int| 0 <= i < all.len() && #[trigger] all[i].0 == q && all[i].1 {
                    let i = choose|i: int| 0 <= i < all.len() && #[trigger] all[i].0 == q && all[i].1;
                    assert(all[i].0 == q);
                } else {
                    let (x, y) = choose|x: int, y: int| 0 <= x < y < all.len() && #[trigger] all[x].0 == q && #[trigger] all[y].0 == q;
                    assert(all[x].0 == q);
                }
                assert(seen_in(all, q));
            }
        }
    }
    out
}

/// Per-road route-node flags: a vertex is a route node when it ends its
/// road or is one of `junctions`.
pub fn compute_node_flags(roads: &[Vec<(i32, i32)>], junctions: &[(i32, i32)]) -> (r: Vec<Vec<bool>>)
    ensures
        r@.len() == roads@.len(),
        forall|i: int| 0 <= i < r@.len() ==> (#[trigger] r@[i])@.len() == roads@[i]@.len(),
        forall|i: int, j: int| 0 <= i < r@.len() && 0 <= j < roads@[i]@.len() ==> #[trigger] r@[i]@[j] == (j == 0
            || j == roads@[i]@.len() - 1 || junctions@.contains(roads@[i]@[j])),
{
    let mut set: HashSet<u64> = HashSet::new();
    let mut t: usize = 0;
    while t < junctions.len()
        invariant
            t <= junctions@.len(),
            forall|x: u64| set@.contains(x) <==> exists|u: int| 0 <= u < t && pack(#[trigger] junctions@[u]) == x,
        decreases junctions@.len() - t,
    {
        let key = pack_exec(junctions[t]);
        set.insert(key);
        proof {
            assert forall|x: u64| set@.contains(x) <==> exists|u: int| 0 <= u < t + 1 && pack(#[trigger] junctions@[u]) == x by {
                if x == key {
                    assert(pack(junctions@[t as int]) == x);
                }
                if exists|u: int| 0 <= u < t + 1 && pack(#[trigger] junctions@[u]) == x {
                    let u = choose|u: int| 0 <= u < t + 1 && pack(#[trigger] junctions@[u]) == x;
                    if u < t {
                        assert(exists|u: int| 0 <= u < t && pack(#[trigger] junctions@[u]) == x);
                    }
                }
            }
        }
        t = t + 1;
    }
    let mut out: Vec<Vec<bool>> = Vec::new();
    let mut ri: usize = 0;
    while ri < roads.len()
        invariant
            ri <= roads@.len(),
            forall|x: u64| set@.contains(x) <==> exists|u: int| 0 <= u < junctions@.len() && pack(#[trigger] junctions@[u]) == x,
            out@.len() == ri,
            forall|i: int| 0 <= i < ri ==> (#[trigger] out@[i])@.len() == roads@[i]@.len(),
            forall|i: int, j: int| 0 <= i < ri && 0 <= j < roads@[i]@.len() ==> #[trigger] out@[i]@[j] == (j == 0
                || j == roads@[i]@.len() - 1 || junctions@.contains(roads@[i]@[j])),
        decreases roads@.len() - ri,
    {
        let c = &roads[ri];
        let mut flags: Vec<bool> = Vec::new();
        let mut j: usize = 0;
        while j < c.len()
            invariant
                ri < roads@.len(),
                c@ == roads@[ri as int]@,
                j <= c@.len(),
                forall|x: u64| set@.contains(x) <==> exists|u: int| 0 <= u < junctions@.len() && pack(#[trigger] junctions@[u]) == x,
                flags@.len() == j,
                forall|jj: int| 0 <= jj < j ==> #[trigger] flags@[jj] == (jj == 0 || jj == c@.len() - 1
                    || junctions@.contains(c@[jj])),
            decreases c@.len() - j,
        {
            let k = c[j];
            let hit = set.contains(&pack_exec(k));
            proof {
                if hit {
                    let u = choose|u: int| 0 <= u < junctions@.len() && pack(#[trigger] junctions@[u]) == pack(k);
                    lemma_pack_injective(junctions@[u], k);
                    assert(junctions@.contains(k));
                }
                if junctions@.contains(k) {
                    let u = choose|u: int| 0 <= u < junctions@.len() && junctions@[u] == k;
                    assert(pack(junctions@[u]) == pack(k));
                }
            }
            flags.push(j == 0 || j == c.len() - 1 || hit);
            j = j + 1;
        }
        out.push(flags);
        ri = ri + 1;
    }
    out
}

/// FNV-1a offset basis.
pub const FNV_OFFSET: u64 = 14695981039346656037;
/// FNV-1a prime.
pub const FNV_PRIME: u64 = 1099511628211;

/// The 64-bit FNV-1a hash of `bytes`.
pub open spec fn fnv1a(bytes: Seq<u8>) -> u64
    decreases bytes.len(),
{
    if bytes.len() == 0 {
        FNV_OFFSET
    } else {
        vstd::wrapping::u64_specs::wrapping_mul(fnv1a(bytes.drop_last()) ^ (bytes.last() as u64), FNV_PRIME)
    }
}

/// The node id of a quantized point: the FNV-1a hash of both coordinates'
/// little-endian bytes, cut to 31 bits, and 1 in place of 0.
pub open spec fn spec_node_id(lat_q: i32, lon_q: i32) -> u32 {
    let h = (fnv1a(crate::bytes::le32(lat_q as u32) + crate::bytes::le32(lon_q as u32)) & 0x7FFF_FFFFu64) as u32;
    if h < 1 { 1 } else { h }
}

/// A node id is never 0 and never has its high bit set, and the same
/// point always gets the same id.
pub proof fn lemma_node_id_range(lat_q: i32, lon_q: i32, lat2: i32, lon2: i32)
    requires
        lat_q == lat2,
        lon_q == lon2,
    ensures
        1 <= spec_node_id(lat_q, lon_q) <= 0x7FFF_FFFF,
        spec_node_id(lat_q, lon_q) == spec_node_id(lat2, lon2),
{
    let x = fnv1a(crate::bytes::le32(lat_q as u32) + crate::bytes::le32(lon_q as u32));
    assert(x & 0x7FFF_FFFFu64 <= 0x7FFF_FFFFu64) by (bit_vector);
}

/// Deterministic node id from quantized coordinates, in `[1, 0x7FFFFFFF]`.
pub fn coord_to_node_id(lat_q: i32, lon_q: i32) -> (r: u32)
    ensures
        r == spec_node_id(lat_q, lon_q),
        1 <= r <= 0x7FFF_FFFF,
{
    let mut bytes: Vec<u8> = Vec::new();
    crate::bytes::push_u32(&mut bytes, lat_q as u32);
    crate::bytes::push_u32(&mut bytes, lon_q as u32);
    assert(bytes@ =~= crate::bytes::le32(lat_q as u32) + crate::bytes::le32(lon_q as u32));
    let mut hash: u64 = FNV_OFFSET;
    let mut i: usize = 0;
    assert(bytes@.take(0) =~= Seq::<u8>::empty());
    while i < bytes.len()
        invariant
            i <= bytes@.len(),
            hash == fnv1a(bytes@.take(i as int)),
        decreases bytes@.len() - i,
    {
        assert(bytes@.take(i + 1).drop_last() =~= bytes@.take(i as int));
        hash = (hash ^ (bytes[i] as u64)).wrapping_mul(FNV_PRIME);
        i = i + 1;
    }
    assert(bytes@.take(bytes@.len() as int) =~= bytes@);
    let masked: u64 = hash & 0x7FFF_FFFF;
    assert(hash & 0x7FFF_FFFFu64 <= 0x7FFF_FFFFu64) by (bit_vector);
    let h = masked as u32;
    if h < 1 { 1 } else { h }
}

} // verus!
