use prehrajto_core::search::parse_search_results;
use prehrajto_core::quality::{is_duration_format, is_file_size_format};

#[test]
fn test_parse_empty_html() {
    let html = "<html><body></body></html>";
    let results = parse_search_results(html).unwrap();
    assert!(results.is_empty());
}

#[test]
fn test_parse_search_results_single_video() {
    let html = r#"
    <html>
    <body>
    <main>
        <div>
            <div>
                <a href="/doctor-who-s07e05/63aba7f51f6cf">
                    <div>
                        <img src="thumb.jpg" alt="thumbnail">
                        <div>00:44:20</div>
                        <div>HD</div>
                        <div>1.7 GB</div>
                    </div>
                    <h3>Doctor Who s07e05 - Andělé dobývají Manhattan</h3>
                </a>
            </div>
        </div>
    </main>
    </body>
    </html>
    "#;

    let results = parse_search_results(html).unwrap();
    assert_eq!(results.len(), 1);

    let video = &results[0];
    assert_eq!(video.name, "Doctor Who s07e05 - Andělé dobývají Manhattan");
    assert_eq!(video.video_id, "63aba7f51f6cf");
    assert_eq!(video.video_slug, "doctor-who-s07e05");
    assert_eq!(video.url, "https://prehraj.to/doctor-who-s07e05/63aba7f51f6cf");
    assert_eq!(
        video.download_url,
        "https://prehraj.to/doctor-who-s07e05/63aba7f51f6cf?do=download"
    );
    assert_eq!(video.duration, Some("00:44:20".to_string()));
    assert_eq!(video.quality, Some("HD".to_string()));
    assert_eq!(video.file_size, Some("1.7 GB".to_string()));
}

#[test]
fn test_parse_search_results_multiple_videos() {
    let html = r#"
    <html>
    <body>
    <main>
        <div>
            <a href="/video-one/abc123">
                <div><div>01:00:00</div><div>500 MB</div></div>
                <h3>Video One</h3>
            </a>
            <a href="/video-two/def456">
                <div><div>02:00:00</div><div>HD</div><div>2 GB</div></div>
                <h3>Video Two</h3>
            </a>
        </div>
    </main>
    </body>
    </html>
    "#;

    let results = parse_search_results(html).unwrap();
    assert_eq!(results.len(), 2);

    assert_eq!(results[0].name, "Video One");
    assert_eq!(results[0].video_id, "abc123");
    assert_eq!(results[0].quality, None);

    assert_eq!(results[1].name, "Video Two");
    assert_eq!(results[1].video_id, "def456");
    assert_eq!(results[1].quality, Some("HD".to_string()));
}

#[test]
fn test_parse_video_without_optional_fields() {
    let html = r#"
    <html>
    <body>
    <main>
        <a href="/minimal-video/xyz789">
            <h3>Minimal Video</h3>
        </a>
    </main>
    </body>
    </html>
    "#;

    let results = parse_search_results(html).unwrap();
    assert_eq!(results.len(), 1);

    let video = &results[0];
    assert_eq!(video.name, "Minimal Video");
    assert_eq!(video.video_id, "xyz789");
    assert_eq!(video.duration, None);
    assert_eq!(video.quality, None);
    assert_eq!(video.file_size, None);
}

#[test]
fn test_is_duration_format() {
    assert!(is_duration_format("00:44:20"));
    assert!(is_duration_format("01:30:00"));
    assert!(is_duration_format("44:20"));
    assert!(!is_duration_format("HD"));
    assert!(!is_duration_format("1.7 GB"));
    assert!(!is_duration_format("invalid"));
}

#[test]
fn test_is_file_size_format() {
    assert!(is_file_size_format("1.7 GB"));
    assert!(is_file_size_format("500 MB"));
    assert!(is_file_size_format("100 KB"));
    assert!(is_file_size_format("2GB"));
    assert!(!is_file_size_format("HD"));
    assert!(!is_file_size_format("00:44:20"));
}

#[test]
fn test_skip_links_without_video_structure() {
    let html = r#"
    <html>
    <body>
    <main>
        <a href="/some-page">Not a video</a>
        <a href="/video/abc123">
            <h3>Real Video</h3>
        </a>
    </main>
    </body>
    </html>
    "#;

    let results = parse_search_results(html).unwrap();
    assert_eq!(results.len(), 1);
    assert_eq!(results[0].name, "Real Video");
}

#[test]
fn test_card_without_heading_skipped_sibling_kept() {
    let html = r#"
    <html>
    <body>
    <main>
        <a href="/headless-video/aaa111">
            <div>01:00:00</div>
        </a>
        <a href="/titled-video/bbb222">
            <h3>Titled Video</h3>
        </a>
    </main>
    </body>
    </html>
    "#;

    let results = parse_search_results(html).unwrap();
    assert_eq!(results.len(), 1);
    assert_eq!(results[0].name, "Titled Video");
    assert_eq!(results[0].video_id, "bbb222");
}

#[test]
fn test_quality_badge_from_span_marker() {
    let html = r#"
    <main>
        <a href="/marked-video/ccc333">
            <div><span class="format__text">HD</span></div>
            <h3>Marked Video</h3>
        </a>
    </main>
    "#;

    let results = parse_search_results(html).unwrap();
    assert_eq!(results.len(), 1);
    assert_eq!(results[0].quality, Some("HD".to_string()));
}
