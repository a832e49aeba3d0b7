use prehrajto_core::direct_url::{parse_direct_url, parse_original_download_url};
use prehrajto_core::sources::parse_video_sources;
use prehrajto_core::subtitles::parse_subtitle_tracks;
use prehrajto_core::entities::decode_html_entities;
use prehrajto_core::quality::{parse_resolution_from_label, parse_resolution_from_text,
    extract_format_from_url, is_cdn_url, clean_subtitle_label, extract_language_from_label};
use prehrajto_core::error::PrehrajtoError;

#[test]
fn test_parse_video_sources_videojs() {
    let html = r#"
    <script>
        var videos = [];
        videos.push({ src: "https://pf-storage3.premiumcdn.net/abc/1080p.mp4?token=x&expires=1", type: 'video/mp4', res: '1080', label: '1080p', default: true });
        videos.push({ src: "https://pf-storage3.premiumcdn.net/abc/720p.mp4?token=y&expires=2", type: 'video/mp4', res: '720', label: '720p' });
    </script>
    "#;

    let sources = parse_video_sources(html);
    assert_eq!(sources.len(), 2);

    assert_eq!(sources[0].resolution, 1080);
    assert_eq!(sources[0].label, "1080p");
    assert!(sources[0].is_default);
    assert!(sources[0].url.contains("1080p.mp4"));
    assert_eq!(sources[0].format, Some("mp4".to_string()));

    assert_eq!(sources[1].resolution, 720);
    assert_eq!(sources[1].label, "720p");
    assert!(!sources[1].is_default);
}

#[test]
fn test_parse_video_sources_jwplayer() {
    let html = r#"
    <script>
        if(player === "jwplayer") {
            var sources = [
                { file: "https://pf-storage3.premiumcdn.net/abc/720p.mp4?token=a&expires=1", label: '720p' },
                { file: "https://pf-storage3.premiumcdn.net/abc/1080p.mp4?token=b&expires=2", label: '1080p' }
            ];
        }
    </script>
    "#;

    let sources = parse_video_sources(html);
    assert_eq!(sources.len(), 2);

    assert_eq!(sources[0].resolution, 720);
    assert_eq!(sources[0].label, "720p");

    assert_eq!(sources[1].resolution, 1080);
    assert_eq!(sources[1].label, "1080p");
}

#[test]
fn test_parse_video_sources_prefers_videojs() {
    let html = r#"
    <script>
        var videos = [];
        videos.push({ src: "https://cdn.premiumcdn.net/videojs/1080p.mp4?token=x", type: 'video/mp4', res: '1080', label: '1080p', default: true });

        if(player === "jwplayer") {
            var sources = [
                { file: "https://cdn.premiumcdn.net/jwplayer/720p.mp4?token=y", label: '720p' }
            ];
        }
    </script>
    "#;

    let sources = parse_video_sources(html);
    assert_eq!(sources.len(), 1);
    assert!(sources[0].url.contains("videojs"));
}

#[test]
fn test_parse_video_sources_empty() {
    let html = r#"<html><body><p>No video here</p></body></html>"#;

    let sources = parse_video_sources(html);
    assert!(sources.is_empty());
}

#[test]
fn test_parse_original_download_url() {
    let html = r#"
    <html><body>
        <h1>Redirect</h1>
        <p><a href="https://pf-storage3.premiumcdn.net/165065360/abc?filename=Movie+2160p+HEVC.mkv&token=xyz&expires=123">Please click here to continue</a>.</p>
    </body></html>
    "#;

    let source = parse_original_download_url(html).unwrap();
    assert!(source.url.contains("premiumcdn.net"));
    assert_eq!(source.resolution, 2160);
    assert_eq!(source.label, "2160p");
    assert_eq!(source.format, Some("mkv".to_string()));
    assert!(!source.is_default);
}

#[test]
fn test_parse_original_download_url_no_link() {
    let html = r#"<html><body><p>No link here</p></body></html>"#;

    let result = parse_original_download_url(html);
    assert!(result.is_err());
    match result {
        Err(PrehrajtoError::NotFound(_)) => {}
        _ => panic!("Expected NotFound error"),
    }
}

#[test]
fn test_parse_direct_url_picks_best_quality() {
    let html = r#"
    <script>
        var videos = [];
        videos.push({ src: "https://pf-storage3.premiumcdn.net/abc/720p.mp4?token=a", type: 'video/mp4', res: '720', label: '720p' });
        videos.push({ src: "https://pf-storage3.premiumcdn.net/abc/1080p.mp4?token=b", type: 'video/mp4', res: '1080', label: '1080p', default: true });
    </script>
    "#;

    let result = parse_direct_url(html).unwrap();
    assert!(result.contains("1080p.mp4"));
}

#[test]
fn test_parse_resolution_from_label() {
    assert_eq!(parse_resolution_from_label("720p"), 720);
    assert_eq!(parse_resolution_from_label("1080p"), 1080);
    assert_eq!(parse_resolution_from_label("2160p"), 2160);
    assert_eq!(parse_resolution_from_label("480p"), 480);
    assert_eq!(parse_resolution_from_label("unknown"), 0);
}

#[test]
fn test_parse_resolution_from_text() {
    assert_eq!(parse_resolution_from_text("Movie 2160p HEVC.mkv"), 2160);
    assert_eq!(parse_resolution_from_text("Movie 1080p.mp4"), 1080);
    assert_eq!(parse_resolution_from_text("Movie 4K HDR"), 2160);
    assert_eq!(parse_resolution_from_text("Movie HD"), 0);
}

#[test]
fn test_extract_format_from_url() {
    assert_eq!(
        extract_format_from_url("https://cdn.premiumcdn.net/abc/file.mp4?token=x"),
        Some("mp4".to_string())
    );
    assert_eq!(
        extract_format_from_url("https://cdn.premiumcdn.net/abc?filename=Movie+2160p.mkv&token=x"),
        Some("mkv".to_string())
    );
    assert_eq!(
        extract_format_from_url("https://cdn.premiumcdn.net/abc?token=x"),
        None
    );
}

#[test]
fn test_extract_from_anchor() {
    let html = r#"
    <html>
    <body>
        <a href="https://prg-c8-storage5.premiumcdn.net/123/file.mp4?token=abc&expires=123">Download</a>
    </body>
    </html>
    "#;

    let result = parse_direct_url(html);
    assert!(result.is_ok());
    let url = result.unwrap();
    assert!(url.contains("premiumcdn.net"));
    assert!(url.contains("token="));
}

#[test]
fn test_extract_from_video_element() {
    let html = r#"
    <html>
    <body>
        <video src="https://prg-c8-storage5.premiumcdn.net/123/file.mp4?token=abc&expires=123"></video>
    </body>
    </html>
    "#;

    let result = parse_direct_url(html);
    assert!(result.is_ok());
    assert!(result.unwrap().contains("premiumcdn.net"));
}

#[test]
fn test_extract_from_source_element() {
    let html = r#"
    <html>
    <body>
        <video>
            <source src="https://prg-c8-storage5.premiumcdn.net/123/file.mp4?token=abc&expires=123">
        </video>
    </body>
    </html>
    "#;

    let result = parse_direct_url(html);
    assert!(result.is_ok());
    assert!(result.unwrap().contains("premiumcdn.net"));
}

#[test]
fn test_extract_from_javascript_location() {
    let html = r#"
    <html>
    <body>
        <script>
            window.location = "https://prg-c8-storage5.premiumcdn.net/123/file.mp4?token=abc&expires=123";
        </script>
    </body>
    </html>
    "#;

    let result = parse_direct_url(html);
    assert!(result.is_ok());
    assert!(result.unwrap().contains("premiumcdn.net"));
}

#[test]
fn test_extract_from_javascript_location_href() {
    let html = r#"
    <html>
    <body>
        <script>
            window.location.href = "https://prg-c8-storage5.premiumcdn.net/123/file.mp4?token=abc&expires=123";
        </script>
    </body>
    </html>
    "#;

    let result = parse_direct_url(html);
    assert!(result.is_ok());
    assert!(result.unwrap().contains("premiumcdn.net"));
}

#[test]
fn test_javascript_url_entities_decoded() {
    let html = r#"
    <script>
        window.location.href = "https://prg-c8-storage5.premiumcdn.net/123/file.mp4?token=abc&amp;expires=123";
    </script>
    "#;

    let url = parse_direct_url(html).unwrap();
    assert!(url.contains("token=abc&expires=123"));
    assert!(!url.contains("&amp;"));
}

#[test]
fn test_extract_from_meta_refresh() {
    let html = r#"
    <html>
    <head>
        <meta http-equiv="refresh" content="0;url=https://prg-c8-storage5.premiumcdn.net/123/file.mp4?token=abc&expires=123">
    </head>
    </html>
    "#;

    let result = parse_direct_url(html);
    assert!(result.is_ok());
    assert!(result.unwrap().contains("premiumcdn.net"));
}

#[test]
fn test_no_cdn_url_found() {
    let html = r#"
    <html>
    <body>
        <p>No video here</p>
    </body>
    </html>
    "#;

    let result = parse_direct_url(html);
    assert!(result.is_err());
    match result {
        Err(PrehrajtoError::NotFound(_)) => {}
        _ => panic!("Expected NotFound error"),
    }
}

#[test]
fn test_is_cdn_url() {
    assert!(is_cdn_url("https://prg-c8-storage5.premiumcdn.net/123/file.mp4"));
    assert!(is_cdn_url("https://cdn.premiumcdn.net/file.mp4"));
    assert!(!is_cdn_url("https://prehraj.to/video/123"));
    assert!(!is_cdn_url("https://example.com/file.mp4"));
}

#[test]
fn test_decode_html_entities() {
    let url = "https://example.com?a=1&amp;b=2&amp;c=3";
    let decoded = decode_html_entities(url);
    assert_eq!(decoded, "https://example.com?a=1&b=2&c=3");
}

#[test]
fn test_extract_url_with_html_entities() {
    let html = r#"
    <html>
    <body>
        <a href="https://prg-c8-storage5.premiumcdn.net/123/file.mp4?token=abc&amp;expires=123">Download</a>
    </body>
    </html>
    "#;

    let result = parse_direct_url(html);
    assert!(result.is_ok());
    let url = result.unwrap();
    assert!(url.contains("token=abc&expires=123"));
    assert!(!url.contains("&amp;"));
}

#[test]
fn test_parse_videojs_tracks() {
    let html = r#"
    var tracks = [
        {
            src: "https://pf-storage3.premiumcdn.net/123/sub1.vtt?token=abc&expires=123",
            srclang: "eng",
            label: "ENG - 8175377 - eng",
            kind: "captions",
            default: true
        },
        {
            src: "https://pf-storage3.premiumcdn.net/123/sub2.vtt?token=abc&expires=123",
            srclang: "cze",
            label: "CZE - 8175379 - cze",
            kind: "captions"
        }
    ];
    "#;

    let tracks = parse_subtitle_tracks(html);
    assert_eq!(tracks.len(), 2);

    assert_eq!(tracks[0].language, "eng");
    assert_eq!(tracks[0].label, "ENG");
    assert!(tracks[0].is_default);
    assert!(tracks[0].url.contains("sub1.vtt"));

    assert_eq!(tracks[1].language, "cze");
    assert_eq!(tracks[1].label, "CZE");
    assert!(!tracks[1].is_default);
}

#[test]
fn test_parse_jwplayer_tracks() {
    let html = r#"
    var tracks = [
        { file: "https://pf-storage3.premiumcdn.net/123/sub1.vtt?token=abc", label: "ENG - 8175377 - eng", kind: "captions" },
        { file: "https://pf-storage3.premiumcdn.net/123/sub2.vtt?token=def", label: "CZE - 8175379 - cze", kind: "captions" }
    ];
    "#;

    let tracks = parse_subtitle_tracks(html);
    assert_eq!(tracks.len(), 2);

    assert_eq!(tracks[0].language, "eng");
    assert_eq!(tracks[0].label, "ENG");
    assert!(!tracks[0].is_default);

    assert_eq!(tracks[1].language, "cze");
    assert_eq!(tracks[1].label, "CZE");
}

#[test]
fn test_no_tracks() {
    let html = "<html><body>no tracks here</body></html>";
    let tracks = parse_subtitle_tracks(html);
    assert!(tracks.is_empty());
}

#[test]
fn test_clean_subtitle_label() {
    assert_eq!(clean_subtitle_label("ENG - 8175377 - eng"), "ENG");
    assert_eq!(clean_subtitle_label("CZE - 8175379 - cze"), "CZE");
    assert_eq!(clean_subtitle_label("ENG1 - 8175378 - eng1"), "ENG1");
    assert_eq!(clean_subtitle_label("Simple"), "Simple");
}

#[test]
fn test_extract_language_from_label() {
    assert_eq!(extract_language_from_label("ENG - 8175377 - eng"), "eng");
    assert_eq!(extract_language_from_label("CZE - 8175379 - cze"), "cze");
    assert_eq!(extract_language_from_label("ENG1 - 8175378 - eng1"), "eng1");
    assert_eq!(extract_language_from_label("Simple"), "simple");
}

#[test]
fn test_jwplayer_default_marker_before_url() {
    let html = r#"
    var picked = { "default": true, active: "https://pf-storage3.premiumcdn.net/123/sub1.vtt?token=abc" };
    var tracks = [
        { file: "https://pf-storage3.premiumcdn.net/123/sub1.vtt?token=abc", label: "CZE - 555 - cze", kind: "captions" }
    ];
    "#;

    let tracks = parse_subtitle_tracks(html);
    assert_eq!(tracks.len(), 1);
    assert!(tracks[0].is_default);
}

#[test]
fn test_original_download_url_percent_encoded_filename() {
    let html = r#"
    <a href="https://pf-storage3.premiumcdn.net/1/f?filename=Movie%202160p.mkv&token=t&expires=9">go</a>
    "#;

    let source = parse_original_download_url(html).unwrap();
    assert_eq!(source.resolution, 2160);
    assert_eq!(source.label, "2160p");
    assert_eq!(source.format, Some("mkv".to_string()));
}

#[test]
fn test_original_download_url_without_resolution() {
    let html = r#"
    <a href="https://pf-storage3.premiumcdn.net/1/clip.avi?token=t">go</a>
    "#;

    let source = parse_original_download_url(html).unwrap();
    assert_eq!(source.resolution, 0);
    assert_eq!(source.label, "original");
    assert_eq!(source.format, Some("avi".to_string()));
    assert!(!source.is_default);
}

#[test]
fn test_filename_decoding_matters() {
    // the digits of the resolution are percent-encoded one by one, so the
    // pattern appears only after decoding
    let html = r#"
    <a href="https://pf-storage3.premiumcdn.net/1/f?filename=Movie%20%32%31%36%30p.mkv&token=t">go</a>
    "#;

    let source = parse_original_download_url(html).unwrap();
    assert_eq!(source.resolution, 2160);
    assert_eq!(source.label, "2160p");
}

#[test]
fn test_generic_pattern_requires_token_first() {
    let html = "plain text https://x.premiumcdn.net/file?expires=5 trailing";
    let url = parse_direct_url(html).unwrap();
    assert_eq!(url, "https://x.premiumcdn.net/file?expires=5");
}
