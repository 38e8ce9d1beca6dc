use quick_memory::s3_stub::dates::{civil_from_days, iso8601, rfc2822};
use quick_memory::s3_stub::wire::{has_whole_escapes, parse_query, percent_decode, route};
use quick_memory::s3_stub::xml::{escape_xml, normalize_etag};

#[test]
fn http_dates_match_a_calendar() {
    assert_eq!(rfc2822(0), "Thu, 01 Jan 1970 00:00:00 GMT");
    assert_eq!(rfc2822(951_782_400), "Tue, 29 Feb 2000 00:00:00 GMT");
    assert_eq!(rfc2822(1_789_493_741), "Tue, 15 Sep 2026 17:35:41 GMT");

    assert_eq!(iso8601(0), "1970-01-01T00:00:00.000Z");
    assert_eq!(iso8601(951_782_400), "2000-02-29T00:00:00.000Z");
    assert_eq!(iso8601(1_789_493_741), "2026-09-15T17:35:41.000Z");
    assert_eq!(iso8601(86_399), "1970-01-01T23:59:59.000Z");
}

#[test]
fn request_targets_are_split_and_decoded() {
    let parsed = route("/bucket/a%20b/c%2Bd?prefix=x%2Fy&list-type=2");
    assert_eq!(parsed.bucket, "bucket");
    assert_eq!(parsed.key, "a b/c+d");
    let params = parse_query(&parsed.query);
    assert_eq!(params.get("prefix").map(String::as_str), Some("x/y"));
    assert_eq!(params.get("list-type").map(String::as_str), Some("2"));

    let bucket_only = route("/bucket?list-type=2");
    assert_eq!(bucket_only.bucket, "bucket");
    assert!(bucket_only.key.is_empty());
}

#[test]
fn etag_comparison_ignores_quoting_and_weakness() {
    assert_eq!(normalize_etag("\"abc\""), "abc");
    assert_eq!(normalize_etag("W/\"abc\""), "abc");
    assert_eq!(normalize_etag("  abc "), "abc");
    assert_ne!(normalize_etag("\"abc\""), normalize_etag("\"abd\""));
}

#[test]
fn xml_escaping_covers_the_characters_a_key_can_carry() {
    assert_eq!(escape_xml("a&b<c>\"d\""), "a&amp;b&lt;c&gt;&quot;d&quot;");
}

#[test]
fn days_before_the_epoch_have_dates_too() {
    assert_eq!(civil_from_days(-1), (1969, 12, 31));
    assert_eq!(civil_from_days(11_016), (2000, 2, 29));
    assert_eq!(civil_from_days(-719_468), (0, 3, 1));
}

#[test]
fn escapes_that_are_no_text_are_replaced() {
    assert_eq!(percent_decode("a%E4%B8%ADb"), "a\u{4e2d}b");
    assert_eq!(percent_decode("%ff+%"), "\u{fffd}+%");
    assert_eq!(percent_decode("100%zz"), "100%zz");
    assert!(has_whole_escapes("a%2Fb%"));
}
