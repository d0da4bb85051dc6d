use coo::bucket::{Card, DailyBucket};
use coo::codec::{bucket_dir, bucket_file, load_daily_bucket, parse_bucket_text, write_bucket};
use coo::date::Date;

fn d(year: u16, month: u8, day: u8) -> Date {
    Date { year, month, day }
}

fn card(key: &str, text: &str) -> Card {
    Card::new(key.to_string(), text.to_string())
}

#[test]
fn write_bucket_exact_text() {
    let bucket = DailyBucket::new(
        d(2024, 1, 10),
        vec![card("\u{1f4dd}", "a"), card("\u{2705}", "b")],
    );
    let text = write_bucket(&bucket);
    let expected = "version = 1\n\
                    date = \"2024-01-10\"\n\
                    \n\
                    [[cards]]\n\
                    key = \"\u{1f4dd}\"\n\
                    text = \"a\"\n\
                    \n\
                    [[cards]]\n\
                    key = \"\u{2705}\"\n\
                    text = \"b\"\n";
    assert_eq!(text, expected);
}

#[test]
fn write_empty_bucket_exact_text() {
    let bucket = DailyBucket::new(d(2024, 1, 10), vec![]);
    assert_eq!(write_bucket(&bucket), "version = 1\ndate = \"2024-01-10\"\ncards = []\n");
}

#[test]
fn round_trip_two_cards() {
    let bucket = DailyBucket::new(
        d(2024, 1, 10),
        vec![card("\u{1f4dd}", "a"), card("\u{2705}", "b")],
    );
    let text = write_bucket(&bucket);
    let cards = parse_bucket_text(&text).expect("well-formed note file");
    assert_eq!(cards.len(), 2);
    assert_eq!(cards[0], card("\u{1f4dd}", "a"));
    assert_eq!(cards[1], card("\u{2705}", "b"));
}

#[test]
fn round_trip_empty_bucket() {
    let bucket = DailyBucket::new(d(2024, 1, 10), vec![]);
    let text = write_bucket(&bucket);
    let cards = parse_bucket_text(&text).expect("well-formed note file");
    assert_eq!(cards.len(), 0);
}

#[test]
fn round_trip_tricky_text() {
    let tricky = "line one\nline \"two\" with \\ backslash\ttab\r\u{1}\u{7f}and \u{65e5}\u{672c}\u{8a9e}";
    let bucket = DailyBucket::new(d(2024, 12, 31), vec![card("\u{274c}", tricky), card("", "")]);
    let text = write_bucket(&bucket);
    let cards = parse_bucket_text(&text).expect("well-formed note file");
    assert_eq!(cards.len(), 2);
    assert_eq!(cards[0].text, tricky);
    assert_eq!(cards[0].key, "\u{274c}");
    assert_eq!(cards[1], card("", ""));
}

#[test]
fn round_trip_keeps_cards_with_equal_keys_apart() {
    let bucket = DailyBucket::new(
        d(2024, 1, 10),
        vec![card("\u{1f4dd}", "first"), card("\u{1f4dd}", "second"), card("\u{1f4dd}", "first")],
    );
    let cards = parse_bucket_text(&write_bucket(&bucket)).expect("well-formed note file");
    assert_eq!(cards.len(), 3);
    assert_eq!(cards[0].text, "first");
    assert_eq!(cards[1].text, "second");
    assert_eq!(cards[2].text, "first");
}

#[test]
fn parser_rejects_garbage() {
    assert!(parse_bucket_text("").is_none());
    assert!(parse_bucket_text("not a note file").is_none());
    assert!(parse_bucket_text("version = 2\ndate = \"2024-01-10\"\ncards = []\n").is_none());
    assert!(parse_bucket_text("version = 1\ndate = \"2024-01-10\"\n").is_none());
    assert!(
        parse_bucket_text("version = 1\ndate = \"2024-01-10\"\n\n[[cards]]\nkey = \"x\"\n")
            .is_none()
    );
}

#[test]
fn load_daily_bucket_recovers_or_defaults() {
    let date = d(2024, 1, 10);
    let missing = load_daily_bucket(date, None);
    assert_eq!(missing.version, 1);
    assert_eq!(missing.date, date);
    assert!(missing.cards.is_empty());

    let corrupt = load_daily_bucket(date, Some("[[[broken"));
    assert!(corrupt.cards.is_empty());
    assert_eq!(corrupt.date, date);

    let good_text = write_bucket(&DailyBucket::new(date, vec![card("\u{1f4dd}", "hello")]));
    let good = load_daily_bucket(date, Some(&good_text));
    assert_eq!(good.cards.len(), 1);
    assert_eq!(good.cards[0], card("\u{1f4dd}", "hello"));
}

#[test]
fn written_text_is_valid_toml() {
    let tricky = "multi\nline \"quoted\" \\ text";
    let bucket = DailyBucket::new(
        d(2024, 3, 5),
        vec![card("\u{1f4dd}", tricky), card("\u{2b55}", "plain")],
    );
    let text = write_bucket(&bucket);
    let value: toml::Value = text.parse().expect("the toml crate parses the written file");
    assert_eq!(value.get("version").unwrap().as_integer().unwrap(), 1);
    assert_eq!(value.get("date").unwrap().as_str().unwrap(), "2024-03-05");
    let cards = value.get("cards").unwrap().as_array().unwrap();
    assert_eq!(cards.len(), 2);
    assert_eq!(cards[0].get("key").unwrap().as_str().unwrap(), "\u{1f4dd}");
    assert_eq!(cards[0].get("text").unwrap().as_str().unwrap(), tricky);
    assert_eq!(cards[1].get("text").unwrap().as_str().unwrap(), "plain");
}

#[test]
fn bucket_paths() {
    let date = d(2024, 1, 9);
    assert_eq!(bucket_dir("/home/u/notes", date), "/home/u/notes/2024/2024-01");
    assert_eq!(bucket_file("/home/u/notes", date), "/home/u/notes/2024/2024-01/2024-01-09.toml");
    assert_eq!(bucket_file("r", d(987, 6, 5)), "r/0987/0987-06/0987-06-05.toml");
}
