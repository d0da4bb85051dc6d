use coo::bucket::{index_of_key, key_for_index, Card, DailyBucket};
use coo::column::{column_title, Column};
use coo::date::Date;

fn d(year: u16, month: u8, day: u8) -> Date {
    Date { year, month, day }
}

fn card(key: &str, text: &str) -> Card {
    Card::new(key.to_string(), text.to_string())
}

fn assert_trailing_invariant(column: &Column) {
    let n = column.rows.len();
    assert!(n >= 1, "a column always has at least the compose row");
    assert!(column.rows[n - 1].text.is_empty(), "the last row is empty");
    for i in 0..n - 1 {
        assert!(!column.rows[i].text.is_empty(), "no row but the last is empty");
    }
}

#[test]
fn from_bucket_skips_empty_cards_and_appends_compose_row() {
    let bucket = DailyBucket::new(
        d(2024, 1, 10),
        vec![card("\u{1f4dd}", "a"), card("\u{2705}", ""), card("\u{2b55}", "c")],
    );
    let column = Column::from_bucket(&bucket);
    assert_eq!(column.rows.len(), 3);
    assert_eq!(column.rows[0], card("\u{1f4dd}", "a"));
    assert_eq!(column.rows[1], card("\u{2b55}", "c"));
    assert_eq!(column.rows[2], card("\u{1f4dd}", ""));
    assert_trailing_invariant(&column);
}

#[test]
fn editing_the_compose_row_appends_a_new_one() {
    let bucket = DailyBucket::new(d(2024, 1, 10), vec![]);
    let mut column = Column::from_bucket(&bucket);
    assert_eq!(column.rows.len(), 1);
    column.set_row_text(0, "note".to_string());
    column.focus_out();
    assert_eq!(column.rows.len(), 2);
    assert_eq!(column.rows[0].text, "note");
    assert_trailing_invariant(&column);
}

#[test]
fn emptying_a_middle_row_removes_it_on_focus_loss() {
    let bucket = DailyBucket::new(
        d(2024, 1, 10),
        vec![card("\u{1f4dd}", "a"), card("\u{2705}", "b")],
    );
    let mut column = Column::from_bucket(&bucket);
    assert_eq!(column.rows.len(), 3);
    column.set_row_text(0, String::new());
    column.focus_out();
    assert_eq!(column.rows.len(), 2);
    assert_eq!(column.rows[0].text, "b");
    assert_trailing_invariant(&column);
}

#[test]
fn any_edit_burst_keeps_the_trailing_row_invariant() {
    let bucket = DailyBucket::new(d(2024, 1, 10), vec![card("\u{1f4dd}", "x")]);
    let mut column = Column::from_bucket(&bucket);
    let edits: [(usize, &str); 6] =
        [(0, ""), (0, "y"), (1, "z"), (2, "w"), (1, ""), (0, "again")];
    for (i, text) in edits.iter() {
        if *i < column.rows.len() {
            column.set_row_text(*i, text.to_string());
            column.focus_out();
        }
        assert_trailing_invariant(&column);
    }
}

#[test]
fn set_row_key_changes_only_the_key() {
    let bucket = DailyBucket::new(d(2024, 1, 10), vec![card("\u{1f4dd}", "a")]);
    let mut column = Column::from_bucket(&bucket);
    column.set_row_key(0, 3);
    assert_eq!(column.rows[0], card("\u{274c}", "a"));
    assert_trailing_invariant(&column);
}

#[test]
fn save_never_persists_the_compose_row() {
    let date = d(2024, 1, 10);
    let bucket = DailyBucket::new(date, vec![card("\u{1f4dd}", "a"), card("\u{2705}", "b")]);
    let column = Column::from_bucket(&bucket);
    assert_eq!(column.rows.len(), 3);
    let saved = column.to_bucket();
    // only the real rows are serialized: no empty card, in particular not
    // the trailing compose row
    assert_eq!(saved.cards.len(), 2);
    assert_eq!(saved.cards[0], card("\u{1f4dd}", "a"));
    assert_eq!(saved.cards[1], card("\u{2705}", "b"));
    assert_eq!(saved.date, date);
    assert_eq!(saved.version, 1);
    // loading what was saved shows the same rows again
    let reloaded = Column::from_bucket(&saved);
    assert_eq!(reloaded.rows.len(), 3);
    assert_eq!(reloaded.rows[0], card("\u{1f4dd}", "a"));
    assert_eq!(reloaded.rows[1], card("\u{2705}", "b"));
    assert_trailing_invariant(&reloaded);
}

#[test]
fn full_save_load_cycle_through_the_note_file() {
    let date = d(2024, 1, 10);
    let bucket = DailyBucket::new(date, vec![card("\u{1f4dd}", "a"), card("\u{2705}", "b")]);
    let column = Column::from_bucket(&bucket);
    let text = coo::codec::write_bucket(&column.to_bucket());
    let cards = coo::codec::parse_bucket_text(&text).expect("well-formed note file");
    // the reload yields exactly the two real cards, in order, and no
    // trailing empty card
    assert_eq!(cards.len(), 2);
    assert_eq!(cards[0], card("\u{1f4dd}", "a"));
    assert_eq!(cards[1], card("\u{2705}", "b"));
}

#[test]
fn column_titles() {
    assert_eq!(column_title(d(2024, 1, 7)), "7\u{65e5} (\u{65e5})");
    assert_eq!(column_title(d(2024, 1, 10)), "10\u{65e5} (\u{6c34})");
}

#[test]
fn key_index_mapping() {
    assert_eq!(key_for_index(0), "\u{1f4dd}");
    assert_eq!(key_for_index(5), "\u{2796}");
    assert_eq!(index_of_key("\u{2b55}"), 2);
    assert_eq!(index_of_key("not a key"), 0);
    assert_eq!(index_of_key(""), 0);
}
