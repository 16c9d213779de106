//! Spatial reference names of ESRI ASCII grids, as PROJ strings.
use vstd::prelude::*;
use crate::strings::push_text;
use crate::text::{ascii_lower, chars_of, seq_eq_str, spec_ascii_lower};

verus! {

/// PROJ string of Lambert-93 (EPSG:2154).
pub const LAMBERT93_PROJ4: &'static str = "+proj=lcc +lat_1=49 +lat_2=44 +lat_0=46.5 +lon_0=3 +x_0=700000 +y_0=6600000 +ellps=GRS80 +towgs84=0,0,0,0,0,0,0 +units=m +no_defs";

/// PROJ string of WGS 84 longitude/latitude (EPSG:4326).
pub const WGS84_PROJ4: &'static str = "+proj=longlat +datum=WGS84 +no_defs";

/// The PROJ string of a known EPSG code, by its ASCII-lowercased name.
pub open spec fn known_srs(lower: Seq<char>) -> Option<Seq<char>> {
    if lower == "epsg:2154"@ {
        Some(LAMBERT93_PROJ4@)
    } else if lower == "epsg:4326"@ {
        Some(WGS84_PROJ4@)
    } else if lower == "epsg:32631"@ {
        Some("+proj=utm +zone=31 +datum=WGS84 +units=m +no_defs"@)
    } else if lower == "epsg:32632"@ {
        Some("+proj=utm +zone=32 +datum=WGS84 +units=m +no_defs"@)
    } else if lower == "epsg:32633"@ {
        Some("+proj=utm +zone=33 +datum=WGS84 +units=m +no_defs"@)
    } else if lower == "epsg:25831"@ {
        Some("+proj=utm +zone=31 +ellps=GRS80 +towgs84=0,0,0,0,0,0,0 +units=m +no_defs"@)
    } else if lower == "epsg:25832"@ {
        Some("+proj=utm +zone=32 +ellps=GRS80 +towgs84=0,0,0,0,0,0,0 +units=m +no_defs"@)
    } else if lower == "epsg:25833"@ {
        Some("+proj=utm +zone=33 +ellps=GRS80 +towgs84=0,0,0,0,0,0,0 +units=m +no_defs"@)
    } else if lower == "epsg:3035"@ {
        Some("+proj=laea +lat_0=52 +lon_0=10 +x_0=4321000 +y_0=3210000 +ellps=GRS80 +towgs84=0,0,0,0,0,0,0 +units=m +no_defs"@)
    } else if lower == "epsg:3857"@ {
        Some("+proj=merc +a=6378137 +b=6378137 +lat_ts=0 +lon_0=0 +x_0=0 +y_0=0 +k=1 +units=m +no_defs"@)
    } else {
        None
    }
}

/// The message for an unsupported reference `srs`.
pub open spec fn unsupported_srs_text(srs: Seq<char>) -> Seq<char> {
    "Unsupported SRS: '"@ + srs + "'. Use EPSG:2154, EPSG:4326, EPSG:326xx, EPSG:258xx, EPSG:3035, or a proj4 string."@
}

/// The PROJ string of a spatial reference `srs`, or the message refusing it.
pub open spec fn srs_proj4(srs: Seq<char>) -> Result<Seq<char>, Seq<char>> {
    match known_srs(spec_ascii_lower(srs)) {
        Some(p) => Ok(p),
        None => if srs.len() > 0 && srs[0] == '+' {
            Ok(srs)
        } else {
            Err(unsupported_srs_text(srs))
        },
    }
}

/// The PROJ string of a spatial reference: a known EPSG code (ASCII case
/// ignored), or a string that already starts with `+`; any other is refused.
pub fn srs_to_proj4(srs: &str) -> (r: Result<String, String>)
    ensures
        match r {
            Ok(p) => srs_proj4(srs@) == Ok::<Seq<char>, Seq<char>>(p@),
            Err(m) => srs_proj4(srs@) == Err::<Seq<char>, Seq<char>>(m@),
        },
{
    let chars = chars_of(srs);
    let lower = ascii_lower(&chars);
    if seq_eq_str(&lower, "epsg:2154") {
        return Ok(LAMBERT93_PROJ4.to_string());
    }
    if seq_eq_str(&lower, "epsg:4326") {
        return Ok(WGS84_PROJ4.to_string());
    }
    if seq_eq_str(&lower, "epsg:32631") {
        return Ok("+proj=utm +zone=31 +datum=WGS84 +units=m +no_defs".to_string());
    }
    if seq_eq_str(&lower, "epsg:32632") {
        return Ok("+proj=utm +zone=32 +datum=WGS84 +units=m +no_defs".to_string());
    }
    if seq_eq_str(&lower, "epsg:32633") {
        return Ok("+proj=utm +zone=33 +datum=WGS84 +units=m +no_defs".to_string());
    }
    if seq_eq_str(&lower, "epsg:25831") {
        return Ok("+proj=utm +zone=31 +ellps=GRS80 +towgs84=0,0,0,0,0,0,0 +units=m +no_defs".to_string());
    }
    if seq_eq_str(&lower, "epsg:25832") {
        return Ok("+proj=utm +zone=32 +ellps=GRS80 +towgs84=0,0,0,0,0,0,0 +units=m +no_defs".to_string());
    }
    if seq_eq_str(&lower, "epsg:25833") {
        return Ok("+proj=utm +zone=33 +ellps=GRS80 +towgs84=0,0,0,0,0,0,0 +units=m +no_defs".to_string());
    }
    if seq_eq_str(&lower, "epsg:3035") {
        return Ok(
            "+proj=laea +lat_0=52 +lon_0=10 +x_0=4321000 +y_0=3210000 +ellps=GRS80 +towgs84=0,0,0,0,0,0,0 +units=m +no_defs".to_string(),
        );
    }
    if seq_eq_str(&lower, "epsg:3857") {
        return Ok(
            "+proj=merc +a=6378137 +b=6378137 +lat_ts=0 +lon_0=0 +x_0=0 +y_0=0 +k=1 +units=m +no_defs".to_string(),
        );
    }
    if chars.len() > 0 && chars[0] == '+' {
        return Ok(srs.to_string());
    }
    let mut msg = String::new();
    push_text(&mut msg, "Unsupported SRS: '");
    push_text(&mut msg, srs);
    push_text(&mut msg, "'. Use EPSG:2154, EPSG:4326, EPSG:326xx, EPSG:258xx, EPSG:3035, or a proj4 string.");
    assert(msg@ =~= unsupported_srs_text(srs@));
    Err(msg)
}

} // verus!
