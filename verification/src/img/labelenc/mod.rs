//! Label encodings of the LBL subfile.
use vstd::prelude::*;
use crate::text::{chars_of, ascii_lower, seq_eq_str, parse_u16, spec_ascii_lower, spec_parse_uint};

pub mod format10;
pub mod format9;

verus! {

/// Label encoding format.
#[derive(Debug, Clone, Copy, PartialEq, Eq, Structural)]
pub enum LabelEncoding {
    /// 6-bit packed ASCII (uppercase only)
    Format6,
    /// Single-byte codepage (e.g. cp1252)
    Format9(u16),
    /// UTF-8
    Format10,
}

/// Spec of `LabelEncoding::from_charset` over the charset's characters.
pub open spec fn spec_from_charset(charset: Seq<char>) -> LabelEncoding {
    let s = spec_ascii_lower(charset);
    if s == "ascii"@ {
        LabelEncoding::Format6
    } else if s == "cp1252"@ || s == "latin1"@ || s == "iso-8859-1"@ {
        LabelEncoding::Format9(1252)
    } else if s == "cp65001"@ || s == "unicode"@ || s == "utf-8"@ || s == "utf8"@ {
        LabelEncoding::Format10
    } else if s.len() >= 2 && s[0] == 'c' && s[1] == 'p' {
        match spec_parse_uint(s.subrange(2, s.len() as int), 0xFFFF) {
            Some(v) => LabelEncoding::Format9(v as u16),
            None => LabelEncoding::Format9(1252),
        }
    } else {
        LabelEncoding::Format9(1252)
    }
}

impl LabelEncoding {
    /// Encoding named by a charset, case-insensitively: "ascii" is Format6,
    /// cp1252/latin1/iso-8859-1 are Format9(1252), cp65001/unicode/utf-8/utf8
    /// are Format10, "cpN" is Format9(N); anything else is Format9(1252).
    pub fn from_charset(charset: &str) -> (r: Self)
        ensures
            r == spec_from_charset(charset@),
    {
        proof {
            reveal_strlit("ascii");
            reveal_strlit("cp1252");
            reveal_strlit("latin1");
            reveal_strlit("iso-8859-1");
            reveal_strlit("cp65001");
            reveal_strlit("unicode");
            reveal_strlit("utf-8");
            reveal_strlit("utf8");
        }
        let s = ascii_lower(&chars_of(charset));
        if seq_eq_str(&s, "ascii") {
            LabelEncoding::Format6
        } else if seq_eq_str(&s, "cp1252") || seq_eq_str(&s, "latin1") || seq_eq_str(&s, "iso-8859-1") {
            LabelEncoding::Format9(1252)
        } else if seq_eq_str(&s, "cp65001") || seq_eq_str(&s, "unicode") || seq_eq_str(&s, "utf-8")
            || seq_eq_str(&s, "utf8") {
            LabelEncoding::Format10
        } else if s.len() >= 2 && s[0] == 'c' && s[1] == 'p' {
            let tail = crate::text::sub_chars(&s, 2, s.len());
            match parse_u16(&tail) {
                Some(v) => LabelEncoding::Format9(v),
                None => LabelEncoding::Format9(1252),
            }
        } else {
            LabelEncoding::Format9(1252)
        }
    }

    /// Format number written in the LBL header.
    pub fn format_id(&self) -> (r: u8)
        ensures
            r == match *self {
                LabelEncoding::Format6 => 6u8,
                LabelEncoding::Format9(_) => 9u8,
                LabelEncoding::Format10 => 10u8,
            },
    {
        match self {
            LabelEncoding::Format6 => 6,
            LabelEncoding::Format9(_) => 9,
            LabelEncoding::Format10 => 10,
        }
    }
}

} // verus!
