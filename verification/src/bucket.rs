//! The persisted data model: a card (one note row with a category key and
//! free text) and a daily bucket (every card of one calendar date, the unit
//! of persistence), together with the fixed set of category key symbols.
use crate::date::Date;
use crate::text::str_eq;
use vstd::prelude::*;

verus! {

/// One note row: a category key drawn from the fixed symbol set and free
/// text. A key read back from disk is kept verbatim even when it is not in
/// the symbol set; rendering then falls back to the first symbol.
#[derive(Debug)]
pub struct Card {
    pub key: String,
    pub text: String,
}

/// The mathematical value of a [`Card`]: both fields as character sequences.
pub struct CardV {
    pub key: Seq<char>,
    pub text: Seq<char>,
}

impl View for Card {
    type V = CardV;

    open spec fn view(&self) -> CardV {
        CardV { key: self.key@, text: self.text@ }
    }
}

impl Card {
    pub fn new(key: String, text: String) -> (r: Card)
        ensures
            r@ == (CardV { key: key@, text: text@ }),
    {
        Card { key, text }
    }

    pub fn clone(&self) -> (r: Card)
        ensures
            r@ == self@,
    {
        Card { key: self.key.clone(), text: self.text.clone() }
    }
}

impl PartialEq for Card {
    fn eq(&self, other: &Card) -> (r: bool) {
        self.key == other.key && self.text == other.text
    }
}

impl vstd::std_specs::cmp::PartialEqSpecImpl for Card {
    open spec fn obeys_eq_spec() -> bool {
        true
    }

    open spec fn eq_spec(&self, other: &Card) -> bool {
        self@ == other@
    }
}

/// Every card of one calendar date. The version tag is written but never
/// interpreted; it is always one.
pub struct DailyBucket {
    pub version: u64,
    pub date: Date,
    pub cards: Vec<Card>,
}

/// The mathematical value of a [`DailyBucket`].
pub struct BucketV {
    pub version: int,
    pub date: Date,
    pub cards: Seq<CardV>,
}

impl View for DailyBucket {
    type V = BucketV;

    open spec fn view(&self) -> BucketV {
        BucketV {
            version: self.version as int,
            date: self.date,
            cards: self.cards@.map_values(|c: Card| c@),
        }
    }
}

impl DailyBucket {
    pub fn new(date: Date, cards: Vec<Card>) -> (r: DailyBucket)
        ensures
            r@.version == 1,
            r@.date == date,
            r@.cards == cards@.map_values(|c: Card| c@),
    {
        DailyBucket { version: 1, date, cards }
    }

    /// The bucket a missing or unreadable file stands for: no cards.
    pub fn empty(date: Date) -> (r: DailyBucket)
        ensures
            r@.version == 1,
            r@.date == date,
            r@.cards == Seq::<CardV>::empty(),
    {
        let r = DailyBucket { version: 1, date, cards: Vec::new() };
        proof {
            assert(r@.cards =~= Seq::<CardV>::empty());
        }
        r
    }
}

/// The fixed category symbols a card key is chosen from, in the order the
/// key selector shows them.
pub open spec fn spec_card_keys() -> Seq<Seq<char>> {
    seq![
        seq!['\u{1f4dd}'],
        seq!['\u{2705}'],
        seq!['\u{2b55}'],
        seq!['\u{274c}'],
        seq!['\u{2795}'],
        seq!['\u{2796}'],
    ]
}

/// How many category symbols there are.
pub fn card_key_count() -> (r: usize)
    ensures
        r == spec_card_keys().len(),
{
    6
}

/// The category symbol at a key selector position.
pub fn key_for_index(i: usize) -> (r: &'static str)
    requires
        i < spec_card_keys().len(),
    ensures
        r@ == spec_card_keys()[i as int],
{
    proof {
        reveal_strlit("\u{1f4dd}");
        reveal_strlit("\u{2705}");
        reveal_strlit("\u{2b55}");
        reveal_strlit("\u{274c}");
        reveal_strlit("\u{2795}");
        reveal_strlit("\u{2796}");
    }
    let r = match i {
        0 => "\u{1f4dd}",
        1 => "\u{2705}",
        2 => "\u{2b55}",
        3 => "\u{274c}",
        4 => "\u{2795}",
        _ => "\u{2796}",
    };
    proof {
        assert(r@ =~= spec_card_keys()[i as int]);
    }
    r
}

/// The key selector position a stored key maps to: the first symbol equal to
/// it, or position zero when the key is not one of the symbols.
pub fn index_of_key(key: &str) -> (r: usize)
    ensures
        r < spec_card_keys().len(),
        !spec_card_keys().contains(key@) ==> r == 0,
        spec_card_keys().contains(key@) ==> spec_card_keys()[r as int] == key@ && forall|j: int|
            0 <= j < r ==> #[trigger] spec_card_keys()[j] != key@,
{
    let n = card_key_count();
    let mut i: usize = 0;
    while i < n
        invariant
            n == spec_card_keys().len(),
            i <= n,
            forall|j: int| 0 <= j < i ==> #[trigger] spec_card_keys()[j] != key@,
        decreases n - i,
    {
        if str_eq(key_for_index(i), key) {
            return i;
        }
        i = i + 1;
    }
    proof {
        assert(forall|j: int|
            0 <= j < spec_card_keys().len() ==> #[trigger] spec_card_keys()[j] != key@);
        assert(!spec_card_keys().contains(key@));
    }
    0
}

} // verus!
