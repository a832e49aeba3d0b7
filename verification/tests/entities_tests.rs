use prehrajto_core::entities::decode_html_entities;

#[test]
fn test_decode_left_inverse_of_escapes() {
    assert_eq!(decode_html_entities("a=1&amp;b=2"), "a=1&b=2");
    assert_eq!(decode_html_entities("&lt;b&gt;"), "<b>");
    assert_eq!(decode_html_entities("&quot;x&quot;"), "\"x\"");
    assert_eq!(decode_html_entities("it&#39;s"), "it's");
}

#[test]
fn test_decode_fixed_point_without_entities() {
    let plain = "https://example.com/path?a=1&b=2";
    assert_eq!(decode_html_entities(plain), plain);
}

#[test]
fn test_decode_idempotent_on_decoded_output() {
    let once = decode_html_entities("a=1&amp;b=2&lt;c&gt;");
    let twice = decode_html_entities(&once);
    assert_eq!(once, twice);
}

#[test]
fn test_decode_all_five_escapes() {
    assert_eq!(
        decode_html_entities("&amp;&lt;&gt;&quot;&#39;"),
        "&<>\"'"
    );
}
