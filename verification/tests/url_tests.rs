use prehrajto_core::url::{build_video_url, build_download_url, build_search_url,
    extract_video_info};

#[test]
fn test_build_video_url() {
    let url = build_video_url("doctor-who-s07e05", "63aba7f51f6cf");
    assert_eq!(url, "https://prehraj.to/doctor-who-s07e05/63aba7f51f6cf");
}

#[test]
fn test_build_download_url() {
    let url = build_download_url("doctor-who-s07e05", "63aba7f51f6cf");
    assert_eq!(
        url,
        "https://prehraj.to/doctor-who-s07e05/63aba7f51f6cf?do=download"
    );
}

#[test]
fn test_build_search_url_simple() {
    let url = build_search_url("doctor");
    assert_eq!(url, "https://prehraj.to/hledej/doctor");
}

#[test]
fn test_build_search_url_with_spaces() {
    let url = build_search_url("doctor who s07e05");
    assert_eq!(url, "https://prehraj.to/hledej/doctor%20who%20s07e05");
}

#[test]
fn test_extract_video_info_from_path() {
    let info = extract_video_info("/doctor-who/63aba7f51f6cf");
    assert_eq!(
        info,
        Some(("doctor-who".to_string(), "63aba7f51f6cf".to_string()))
    );
}

#[test]
fn test_extract_video_info_from_full_url() {
    let info = extract_video_info("https://prehraj.to/doctor-who/63aba7f51f6cf");
    assert_eq!(
        info,
        Some(("doctor-who".to_string(), "63aba7f51f6cf".to_string()))
    );
}

#[test]
fn test_extract_video_info_with_query_params() {
    let info = extract_video_info("/doctor-who/63aba7f51f6cf?do=download");
    assert_eq!(
        info,
        Some(("doctor-who".to_string(), "63aba7f51f6cf".to_string()))
    );
}

#[test]
fn test_extract_video_info_invalid_single_part() {
    let info = extract_video_info("/only-slug");
    assert_eq!(info, None);
}

#[test]
fn test_extract_video_info_empty_parts() {
    let info = extract_video_info("//");
    assert_eq!(info, None);
}

#[test]
fn test_build_search_url_non_ascii() {
    let url = build_search_url("kolja");
    assert_eq!(url, "https://prehraj.to/hledej/kolja");
    let encoded = build_search_url("a&b");
    assert_eq!(encoded, "https://prehraj.to/hledej/a%26b");
}
