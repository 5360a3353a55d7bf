use tracker::extract::{
    extract, metric_from_pieces, metric_from_selection, parse_decimal, starts_with_digit,
    strip_commas, ExtractError, Fetched, FOLLOWERS_SELECTOR,
};
use tracker::twitter;

fn chars(s: &str) -> Vec<char> {
    s.chars().collect()
}

fn pieces(parts: &[&str]) -> Vec<Vec<char>> {
    parts.iter().map(|p| chars(p)).collect()
}

fn page(anchor: &str) -> String {
    format!("<html><head><title>t</title></head><body><div>12 <b>34</b></div>{}</body></html>", anchor)
}

fn ok_page(anchor: &str) -> Fetched {
    Fetched::Response { status: 200, body: page(anchor) }
}

#[test]
fn strip_commas_removes_every_comma() {
    assert_eq!(strip_commas(&chars("1,234,567")), chars("1234567"));
    assert_eq!(strip_commas(&chars(",,")), chars(""));
    assert_eq!(strip_commas(&chars("")), chars(""));
    assert_eq!(strip_commas(&chars("12 a,b")), chars("12 ab"));
}

#[test]
fn parse_decimal_reads_digits() {
    assert_eq!(parse_decimal(&chars("0")), Some(0));
    assert_eq!(parse_decimal(&chars("007")), Some(7));
    assert_eq!(parse_decimal(&chars("1234567")), Some(1234567));
    assert_eq!(parse_decimal(&chars("18446744073709551615")), Some(u64::MAX));
}

#[test]
fn parse_decimal_rejects_overflow_and_other_characters() {
    assert_eq!(parse_decimal(&chars("18446744073709551616")), None);
    assert_eq!(parse_decimal(&chars("99999999999999999999999")), None);
    assert_eq!(parse_decimal(&chars("")), None);
    assert_eq!(parse_decimal(&chars("12a")), None);
    assert_eq!(parse_decimal(&chars("+12")), None);
    assert_eq!(parse_decimal(&chars("1 2")), None);
    assert_eq!(parse_decimal(&chars("\u{0661}")), None);
}

#[test]
fn starts_with_digit_looks_at_the_first_character() {
    assert!(starts_with_digit(&chars("0x")));
    assert!(starts_with_digit(&chars("9")));
    assert!(!starts_with_digit(&chars("")));
    assert!(!starts_with_digit(&chars(" 1")));
    assert!(!starts_with_digit(&chars(",1")));
    assert!(!starts_with_digit(&chars("a1")));
}

#[test]
fn pieces_number_then_label() {
    assert_eq!(metric_from_pieces(&pieces(&["1,234", " Followers"])), Ok(1234));
}

#[test]
fn pieces_number_between_labels() {
    assert_eq!(
        metric_from_pieces(&pieces(&["Followers ", "1,234,567", " all time"])),
        Ok(1234567)
    );
}

#[test]
fn pieces_first_numeric_piece_wins() {
    assert_eq!(metric_from_pieces(&pieces(&["a", "12", "34"])), Ok(12));
    assert_eq!(
        metric_from_pieces(&pieces(&["a", "1x", "34"])),
        Err(ExtractError::NumberNotParseable)
    );
}

#[test]
fn pieces_zero_is_a_count() {
    assert_eq!(metric_from_pieces(&pieces(&["0"])), Ok(0));
}

#[test]
fn pieces_leading_nine_counts_as_digit() {
    assert_eq!(metric_from_pieces(&pieces(&["9,000"])), Ok(9000));
}

#[test]
fn pieces_without_digit_give_number_not_found() {
    assert_eq!(metric_from_pieces(&pieces(&["Followers"])), Err(ExtractError::NumberNotFound));
    assert_eq!(metric_from_pieces(&pieces(&[])), Err(ExtractError::NumberNotFound));
    assert_eq!(metric_from_pieces(&pieces(&["", "x"])), Err(ExtractError::NumberNotFound));
}

#[test]
fn pieces_digit_inside_a_piece_is_not_a_start() {
    assert_eq!(
        metric_from_pieces(&pieces(&["Followers 1,234"])),
        Err(ExtractError::NumberNotFound)
    );
}

#[test]
fn pieces_trailing_text_is_not_cut_off() {
    assert_eq!(
        metric_from_pieces(&pieces(&["1,234 people"])),
        Err(ExtractError::NumberNotParseable)
    );
}

#[test]
fn pieces_overflow_is_not_parseable() {
    assert_eq!(
        metric_from_pieces(&pieces(&["18,446,744,073,709,551,616"])),
        Err(ExtractError::NumberNotParseable)
    );
    assert_eq!(metric_from_pieces(&pieces(&["18,446,744,073,709,551,615"])), Ok(u64::MAX));
}

#[test]
fn selection_without_match_is_element_not_found() {
    assert_eq!(metric_from_selection(&Some(None)), Err(ExtractError::ElementNotFound));
    assert_eq!(metric_from_selection(&None), Err(ExtractError::ElementNotFound));
    assert_eq!(metric_from_selection(&Some(Some(pieces(&["7"])))), Ok(7));
    assert_eq!(
        metric_from_selection(&Some(Some(pieces(&["x"])))),
        Err(ExtractError::NumberNotFound)
    );
}

#[test]
fn extract_reads_the_anchor() {
    let html = page("<a href=\"/chrisbiscardi/followers\"><span>1,234</span> Followers</a>");
    assert_eq!(extract(&html, FOLLOWERS_SELECTOR), Ok(1234));
}

#[test]
fn extract_reads_number_between_labels() {
    let html =
        page("<a href=\"/chrisbiscardi/followers\">Followers <span>1,234,567</span> all time</a>");
    assert_eq!(extract(&html, FOLLOWERS_SELECTOR), Ok(1234567));
}

#[test]
fn extract_takes_the_first_matching_anchor() {
    let html = page(
        "<a href=\"/chrisbiscardi/followers\">10</a><a href=\"/chrisbiscardi/followers\">20</a>",
    );
    assert_eq!(extract(&html, FOLLOWERS_SELECTOR), Ok(10));
}

#[test]
fn extract_ignores_numbers_outside_the_anchor() {
    let html = page("<a href=\"/chrisbiscardi/following\">55</a>");
    assert_eq!(extract(&html, FOLLOWERS_SELECTOR), Err(ExtractError::ElementNotFound));
    assert_eq!(extract("", FOLLOWERS_SELECTOR), Err(ExtractError::ElementNotFound));
    assert_eq!(extract("12,345", FOLLOWERS_SELECTOR), Err(ExtractError::ElementNotFound));
}

#[test]
fn extract_anchor_without_digits() {
    let html = page("<a href=\"/chrisbiscardi/followers\">Followers</a>");
    assert_eq!(extract(&html, FOLLOWERS_SELECTOR), Err(ExtractError::NumberNotFound));
}

#[test]
fn extract_anchor_with_trailing_text_in_one_node() {
    let html = page("<a href=\"/chrisbiscardi/followers\">1,234 people</a>");
    assert_eq!(extract(&html, FOLLOWERS_SELECTOR), Err(ExtractError::NumberNotParseable));
}

#[test]
fn extract_with_another_selector() {
    assert_eq!(extract(&page(""), "div > b"), Ok(34));
    assert_eq!(extract(&page(""), "div"), Err(ExtractError::NumberNotParseable));
    assert_eq!(extract(&page(""), "title"), Err(ExtractError::NumberNotFound));
}

#[test]
fn extract_with_a_refused_selector() {
    assert_eq!(extract(&page(""), "a[[["), Err(ExtractError::ElementNotFound));
}

#[test]
fn twitter_reads_a_successful_answer() {
    let fetched = ok_page("<a href=\"/chrisbiscardi/followers\"><span>1,234</span> Followers</a>");
    assert_eq!(twitter(&fetched), Ok(1234));
}

#[test]
fn twitter_reports_a_missing_anchor() {
    assert_eq!(twitter(&ok_page("")), Err(ExtractError::ElementNotFound));
}

#[test]
fn twitter_server_error_is_transport_error() {
    let body = page("<a href=\"/chrisbiscardi/followers\">1,234</a>");
    let fetched = Fetched::Response { status: 500, body };
    assert_eq!(twitter(&fetched), Err(ExtractError::TransportError));
}

#[test]
fn twitter_status_bounds() {
    let anchor = "<a href=\"/chrisbiscardi/followers\">8</a>";
    assert_eq!(
        twitter(&Fetched::Response { status: 199, body: page(anchor) }),
        Err(ExtractError::TransportError)
    );
    assert_eq!(twitter(&Fetched::Response { status: 200, body: page(anchor) }), Ok(8));
    assert_eq!(twitter(&Fetched::Response { status: 299, body: page(anchor) }), Ok(8));
    assert_eq!(
        twitter(&Fetched::Response { status: 300, body: page(anchor) }),
        Err(ExtractError::TransportError)
    );
    assert_eq!(
        twitter(&Fetched::Response { status: 404, body: page(anchor) }),
        Err(ExtractError::TransportError)
    );
}

#[test]
fn twitter_failed_fetch_is_transport_error() {
    assert_eq!(twitter(&Fetched::Failed), Err(ExtractError::TransportError));
}
