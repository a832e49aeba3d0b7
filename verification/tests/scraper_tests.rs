use prehrajto_core::scraper::{get_download_url, search_path, video_page_path,
    download_page_path, build_movie_query, parse_video_page_data};
use prehrajto_core::error::PrehrajtoError;

#[test]
fn test_get_download_url_valid() {
    let url = get_download_url("doctor-who-s07e05", "63aba7f51f6cf");
    assert!(url.is_ok());
    assert_eq!(
        url.unwrap(),
        "https://prehraj.to/doctor-who-s07e05/63aba7f51f6cf?do=download"
    );
}

#[test]
fn test_get_download_url_empty_id() {
    let result = get_download_url("some-slug", "");
    assert!(result.is_err());
    match result {
        Err(PrehrajtoError::InvalidId(msg)) => {
            assert!(msg.contains("empty"));
        }
        _ => panic!("Expected InvalidId error"),
    }
}

#[test]
fn test_get_download_url_whitespace_id() {
    let result = get_download_url("some-slug", "   ");
    assert!(result.is_err());
    match result {
        Err(PrehrajtoError::InvalidId(_)) => {}
        _ => panic!("Expected InvalidId error"),
    }
}

#[test]
fn test_search_empty_query() {
    let result = search_path("");
    assert!(result.is_err());
    match result {
        Err(PrehrajtoError::InvalidId(msg)) => {
            assert!(msg.contains("empty"));
        }
        _ => panic!("Expected InvalidId error"),
    }
}

#[test]
fn test_search_whitespace_query() {
    let result = search_path("   ");
    assert!(result.is_err());
    match result {
        Err(PrehrajtoError::InvalidId(_)) => {}
        _ => panic!("Expected InvalidId error"),
    }
}

#[test]
fn test_search_path_trims_and_encodes() {
    let p = search_path("  doctor who  ").unwrap();
    assert_eq!(p, "/hledej/doctor%20who");
}

#[test]
fn test_get_direct_url_empty_id() {
    let result = video_page_path("some-slug", "");
    assert!(result.is_err());
    match result {
        Err(PrehrajtoError::InvalidId(msg)) => {
            assert!(msg.contains("empty"));
        }
        _ => panic!("Expected InvalidId error"),
    }
}

#[test]
fn test_get_direct_url_whitespace_id() {
    let result = video_page_path("some-slug", "   ");
    assert!(result.is_err());
    match result {
        Err(PrehrajtoError::InvalidId(_)) => {}
        _ => panic!("Expected InvalidId error"),
    }
}

#[test]
fn test_video_page_path_valid() {
    let p = video_page_path("doctor-who", "63aba7f51f6cf").unwrap();
    assert_eq!(p, "/doctor-who/63aba7f51f6cf");
}

#[test]
fn test_download_page_path_valid() {
    let p = download_page_path("doctor-who", "63aba7f51f6cf").unwrap();
    assert_eq!(p, "/doctor-who/63aba7f51f6cf?do=download");
}

#[test]
fn test_search_movie_empty_name() {
    let result = build_movie_query("", None);
    assert!(result.is_err());
    match result {
        Err(PrehrajtoError::InvalidId(msg)) => {
            assert!(msg.contains("empty"));
        }
        _ => panic!("Expected InvalidId error"),
    }
}

#[test]
fn test_search_movie_whitespace_name() {
    let result = build_movie_query("   ", Some(2020));
    assert!(result.is_err());
    match result {
        Err(PrehrajtoError::InvalidId(_)) => {}
        _ => panic!("Expected InvalidId error"),
    }
}

#[test]
fn test_search_movie_all_empty_name() {
    let result = build_movie_query("", Some(2020));
    assert!(result.is_err());
    match result {
        Err(PrehrajtoError::InvalidId(msg)) => {
            assert!(msg.contains("empty"));
        }
        _ => panic!("Expected InvalidId error"),
    }
}

#[test]
fn test_build_movie_query_with_year() {
    let q = build_movie_query(" Kolja ", Some(1996)).unwrap();
    assert_eq!(q, "Kolja 1996");
}

#[test]
fn test_build_movie_query_without_year() {
    let q = build_movie_query("Kolja", None).unwrap();
    assert_eq!(q, "Kolja");
}

#[test]
fn test_parse_video_page_data_single_fetch() {
    let html = r#"
    <script>
        var videos = [];
        videos.push({ src: "https://x.premiumcdn.net/a/720p.mp4?token=1", type: 'video/mp4', res: '720', label: '720p' });
        var tracks = [
            {
                src: "https://x.premiumcdn.net/a/sub.vtt?token=2",
                srclang: "cze",
                label: "CZE - 1 - cze",
                kind: "captions"
            }
        ];
    </script>
    "#;

    let data = parse_video_page_data(html);
    assert_eq!(data.sources.len(), 1);
    assert_eq!(data.sources[0].resolution, 720);
    assert_eq!(data.subtitles.len(), 1);
    assert_eq!(data.subtitles[0].language, "cze");
}
