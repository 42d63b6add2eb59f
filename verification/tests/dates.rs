use blog_content::date::{format_date, format_datetime, parse_datetime, DateTime};
use blog_content::frontmatter::load_post;
use blog_content::models::category_display_name;

fn chars(s: &str) -> Vec<char> {
    s.chars().collect()
}

#[test]
fn the_three_accepted_layouts_parse() {
    let a = parse_datetime(&chars("2025-01-15 10:30:00")).unwrap();
    assert_eq!((a.year, a.month, a.day, a.hour, a.minute, a.second), (2025, 1, 15, 10, 30, 0));
    let b = parse_datetime(&chars("2025-01-15T10:30:00")).unwrap();
    assert_eq!(a, b);
    let c = parse_datetime(&chars("2025-01-15")).unwrap();
    assert_eq!((c.hour, c.minute, c.second), (0, 0, 0));
}

#[test]
fn invalid_dates_are_rejected() {
    assert!(parse_datetime(&chars("2025-13-01")).is_none());
    assert!(parse_datetime(&chars("2025-00-10")).is_none());
    assert!(parse_datetime(&chars("2025-02-29")).is_none());
    assert!(parse_datetime(&chars("2025-01-15 24:00:00")).is_none());
    assert!(parse_datetime(&chars("2025-01-15 10:60:00")).is_none());
    assert!(parse_datetime(&chars("15/01/2025")).is_none());
    assert!(parse_datetime(&chars("2025-1-15")).is_none());
    assert!(parse_datetime(&chars("2025-01-15 10:30")).is_none());
}

#[test]
fn leap_years_are_honoured() {
    assert!(parse_datetime(&chars("2024-02-29")).is_some());
    assert!(parse_datetime(&chars("1900-02-29")).is_none());
    assert!(parse_datetime(&chars("2000-02-29")).is_some());
}

#[test]
fn formatting_and_parsing_round_trip() {
    let dt = DateTime { year: 2024, month: 2, day: 29, hour: 23, minute: 5, second: 9 };
    let text = format_datetime(&dt);
    assert_eq!(text, "2024-02-29 23:05:09");
    assert_eq!(parse_datetime(&chars(&text)).unwrap(), dt);
    assert_eq!(format_date(&dt), "2024-02-29");
}

#[test]
fn date_layout_in_metadata_defaults_time_to_midnight() {
    let post = load_post("---\ntitle: T\nslug: t\ndate: 2025-06-01\n---\nx", "t.md").unwrap();
    let d = post.frontmatter.date;
    assert_eq!((d.year, d.month, d.day, d.hour, d.minute, d.second), (2025, 6, 1, 0, 0, 0));
}

#[test]
fn category_names_display_and_fall_back() {
    assert_eq!(category_display_name("engineering"), "Engineering");
    assert_eq!(category_display_name("web-development"), "Web Development");
    assert_eq!(category_display_name("unlisted-thing"), "unlisted-thing");
}
