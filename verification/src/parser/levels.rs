//! The `--levels` option: the resolution of each zoom level.
use vstd::prelude::*;
use crate::routing::{split_commas, split_commas_exec, trim, trim_exec};
use crate::text::{chars_of, parse_u8, spec_parse_uint, sub_chars};

verus! {

/// Index of the first `:` of `t` at or after `i`, or -1.
pub open spec fn find_colon_from(t: Seq<char>, i: int) -> int
    decreases t.len() - i,
{
    if i < 0 || i >= t.len() {
        -1
    } else if t[i] == ':' {
        i
    } else {
        find_colon_from(t, i + 1)
    }
}

/// The resolution an entry gives: `RES` or `INDEX:RES`, spaces around each
/// part ignored; none when `RES` is not a `u8`.
pub open spec fn level_value(part: Seq<char>) -> Option<int> {
    let t = trim(part);
    let c = find_colon_from(t, 0);
    if c >= 0 {
        spec_parse_uint(trim(t.subrange(c + 1, t.len() as int)), 0xFF)
    } else {
        spec_parse_uint(t, 0xFF)
    }
}

/// The resolutions of the well-formed entries, in order.
pub open spec fn parsed_levels(parts: Seq<Seq<char>>) -> Seq<u8>
    decreases parts.len(),
{
    if parts.len() == 0 {
        Seq::empty()
    } else {
        parsed_levels(parts.drop_last()) + match level_value(parts.last()) {
            Some(v) => seq![v as u8],
            None => Seq::empty(),
        }
    }
}

/// The levels a comma-separated list gives, or none when no entry is well formed.
pub open spec fn spec_parse_levels(s: Seq<char>) -> Option<Seq<u8>> {
    let l = parsed_levels(split_commas(s));
    if l.len() == 0 { None } else { Some(l) }
}

/// Index of the first `:` of `t`, if any.
fn find_colon(t: &Vec<char>) -> (r: Option<usize>)
    ensures
        match r {
            Some(i) => find_colon_from(t@, 0) == i as int && i < t@.len(),
            None => find_colon_from(t@, 0) == -1,
        },
{
    let mut i: usize = 0;
    while i < t.len()
        invariant
            i <= t@.len(),
            find_colon_from(t@, 0) == find_colon_from(t@, i as int),
        decreases t@.len() - i,
    {
        if t[i] == ':' {
            return Some(i);
        }
        i = i + 1;
    }
    None
}

/// The resolution of one entry.
fn parse_level_entry(part: &Vec<char>) -> (r: Option<u8>)
    ensures
        match r {
            Some(v) => level_value(part@) == Some(v as int),
            None => level_value(part@) is None,
        },
{
    let t = trim_exec(part);
    match find_colon(&t) {
        Some(c) => {
            let rest = sub_chars(&t, c + 1, t.len());
            let res = trim_exec(&rest);
            parse_u8(&res)
        },
        None => parse_u8(&t),
    }
}

/// Parse a list such as `24,22,20` or `0:24,1:22`: the resolution of each
/// well-formed entry, in order (malformed ones are skipped); none when no
/// entry is well formed.
pub fn parse_levels(s: &str) -> (r: Option<Vec<u8>>)
    ensures
        match r {
            Some(v) => spec_parse_levels(s@) == Some(v@),
            None => spec_parse_levels(s@) is None,
        },
{
    let chars = chars_of(s);
    let parts = split_commas_exec(&chars);
    let ghost p = split_commas(s@);
    let mut levels: Vec<u8> = Vec::new();
    let mut i: usize = 0;
    while i < parts.len()
        invariant
            i <= parts@.len(),
            parts@.len() == p.len(),
            forall|k: int| 0 <= k < p.len() ==> #[trigger] parts@[k]@ == p[k],
            levels@ == parsed_levels(p.take(i as int)),
        decreases parts@.len() - i,
    {
        let v = parse_level_entry(&parts[i]);
        assert(p.take(i + 1).drop_last() =~= p.take(i as int));
        assert(parts@[i as int]@ == p[i as int]);
        match v {
            Some(x) => {
                levels.push(x);
            },
            None => {},
        }
        assert(levels@ =~= parsed_levels(p.take(i + 1)));
        i = i + 1;
    }
    assert(p.take(p.len() as int) =~= p);
    if levels.len() == 0 { None } else { Some(levels) }
}

} // verus!
