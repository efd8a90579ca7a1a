use crates_mirror::cache::filter_hit;
use crates_mirror::parse_download_path;
use crates_mirror::utils::decode_hex;

const ABC_SHA256: &str = "ba7816bf8f01cfea414140de5dae2223b00361a396177a9cb410ff61f20015ad";

#[test]
fn the_download_route_parses_exactly() {
    let parsed = parse_download_path("/api/v1/crates/foo/1.0.0/download");
    assert_eq!(parsed, Some((String::from("foo"), String::from("1.0.0"))));
    let parsed = parse_download_path("/api/v1/crates/serde_json/1.0.151/download");
    assert_eq!(parsed, Some((String::from("serde_json"), String::from("1.0.151"))));
}

#[test]
fn other_paths_are_refused() {
    assert!(parse_download_path("/").is_none());
    assert!(parse_download_path("").is_none());
    assert!(parse_download_path("/api/v1/crates/foo/1.0.0").is_none());
    assert!(parse_download_path("/api/v1/crates/foo/1.0.0/download/").is_none());
    assert!(parse_download_path("/api/v2/crates/foo/1.0.0/download").is_none());
    assert!(parse_download_path("/api/v1/crates//1.0.0/download").is_none());
    assert!(parse_download_path("/api/v1/crates/foo//download").is_none());
    assert!(parse_download_path("api/v1/crates/foo/1.0.0/download").is_none());
    assert!(parse_download_path("/api/v1/crates/foo/1.0.0/upload").is_none());
}

#[test]
fn the_read_filter_keeps_only_matching_bytes() {
    let checksum = decode_hex(ABC_SHA256).unwrap();
    // Bytes that hash to the checksum pass the filter.
    assert_eq!(filter_hit(Some(b"abc".to_vec()), &checksum), Some(b"abc".to_vec()));
    // Any other bytes, and an absent read, are filtered to absent.
    assert_eq!(filter_hit(Some(b"abd".to_vec()), &checksum), None);
    assert_eq!(filter_hit(None, &checksum), None);
}
