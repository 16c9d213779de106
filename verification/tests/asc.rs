use imgforge::dem::asc::{srs_to_proj4, LAMBERT93_PROJ4, WGS84_PROJ4};

#[test]
fn test_srs_to_proj4() {
    assert!(srs_to_proj4("EPSG:2154").is_ok());
    assert!(srs_to_proj4("EPSG:4326").is_ok());
    assert!(srs_to_proj4("+proj=longlat").is_ok());
    assert!(srs_to_proj4("EPSG:9999").is_err());
}

#[test]
fn srs_codes_ignore_case() {
    assert_eq!(srs_to_proj4("epsg:2154").unwrap(), LAMBERT93_PROJ4);
    assert_eq!(srs_to_proj4("Epsg:4326").unwrap(), WGS84_PROJ4);
    assert_eq!(
        srs_to_proj4("EPSG:32632").unwrap(),
        "+proj=utm +zone=32 +datum=WGS84 +units=m +no_defs"
    );
}

#[test]
fn srs_proj_string_is_kept() {
    assert_eq!(srs_to_proj4("+proj=utm +zone=31").unwrap(), "+proj=utm +zone=31");
}

#[test]
fn srs_unknown_message() {
    assert_eq!(
        srs_to_proj4("EPSG:9999").unwrap_err(),
        "Unsupported SRS: 'EPSG:9999'. Use EPSG:2154, EPSG:4326, EPSG:326xx, EPSG:258xx, EPSG:3035, or a proj4 string."
    );
    assert!(srs_to_proj4("").is_err());
}
