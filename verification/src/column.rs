//! One day's card column: the rows behind the widgets, their lifecycle
//! rules (an always-present trailing compose row, removal of emptied rows on
//! focus loss), and the passage between a column and its persisted bucket.
use crate::bucket::{spec_card_keys, key_for_index, Card, CardV, DailyBucket};
use crate::date::{spec_weekday, spec_weekday_japanese, weekday_to_japanese, Date};
use crate::decimal::dec_short;
use vstd::prelude::*;

verus! {

/// A row is empty when its text is: such rows carry no note.
pub open spec fn row_is_empty(c: CardV) -> bool {
    c.text.len() == 0
}

/// The always-present trailing row a new note is started in: empty text,
/// key selector on the first symbol.
pub open spec fn compose_row() -> CardV {
    CardV { key: spec_card_keys()[0], text: Seq::empty() }
}

/// A well-formed column: at least one row, the last row is the one empty
/// compose row, and no other row is empty.
pub open spec fn wf_rows(rows: Seq<CardV>) -> bool {
    &&& rows.len() >= 1
    &&& row_is_empty(rows.last())
    &&& forall|i: int| 0 <= i < rows.len() - 1 ==> !row_is_empty(#[trigger] rows[i])
}

/// The rows a loaded bucket is rendered as: its non-empty cards in order,
/// then the compose row.
pub open spec fn spec_rows_from_cards(cards: Seq<CardV>) -> Seq<CardV> {
    cards.filter(|c: CardV| !row_is_empty(c)).push(compose_row())
}

/// What one text edit does: the row's text is replaced, and when the last
/// row is then non-empty a fresh compose row is appended.
pub open spec fn spec_set_text(rows: Seq<CardV>, i: int, text: Seq<char>) -> Seq<CardV> {
    let updated = rows.update(i, CardV { key: rows[i].key, text });
    if !row_is_empty(updated.last()) {
        updated.push(compose_row())
    } else {
        updated
    }
}

/// What one key-selector change does: the row's key is replaced.
pub open spec fn spec_set_key(rows: Seq<CardV>, i: int, key: Seq<char>) -> Seq<CardV> {
    rows.update(i, CardV { key, text: rows[i].text })
}

/// The first empty row before the last, scanning from `i` upward.
pub open spec fn spec_first_empty_from(rows: Seq<CardV>, i: int) -> Option<int>
    decreases rows.len() - i,
{
    if i < 0 || i >= rows.len() - 1 {
        None
    } else if row_is_empty(rows[i]) {
        Some(i)
    } else {
        spec_first_empty_from(rows, i + 1)
    }
}

/// The row a focus loss removes, if any.
pub open spec fn spec_first_empty(rows: Seq<CardV>) -> Option<int> {
    spec_first_empty_from(rows, 0)
}

/// What a focus loss does: the first empty row before the last, when there
/// is one, is removed.
pub open spec fn spec_focus_out(rows: Seq<CardV>) -> Seq<CardV> {
    match spec_first_empty(rows) {
        Some(j) => rows.remove(j),
        None => rows,
    }
}

/// One day's column: its date and the cards its rows hold.
pub struct Column {
    pub date: Date,
    pub rows: Vec<Card>,
}

impl Column {
    /// The rows as mathematical values.
    pub open spec fn rows_view(&self) -> Seq<CardV> {
        self.rows@.map_values(|c: Card| c@)
    }
}

fn compose_row_exec() -> (r: Card)
    ensures
        r@ == compose_row(),
{
    let key = key_for_index(0);
    Card::new(key.to_owned(), String::new())
}

impl Column {
    /// Render a loaded bucket as a column: one row per non-empty card, then
    /// the compose row.
    pub fn from_bucket(b: &DailyBucket) -> (r: Column)
        ensures
            r.date == b.date,
            r.rows_view() == spec_rows_from_cards(b@.cards),
    {
        broadcast use vstd::seq_lib::group_filter_ensures;

        let ghost pred = |c: CardV| !row_is_empty(c);
        let mut rows: Vec<Card> = Vec::new();
        let n = b.cards.len();
        let mut i: usize = 0;
        proof {
            reveal(Seq::filter);
            assert(b@.cards.subrange(0, 0) =~= Seq::<CardV>::empty());
            assert(rows@.map_values(|c: Card| c@) =~= b@.cards.subrange(0, 0).filter(pred));
        }
        while i < n
            invariant
                n == b.cards@.len(),
                b@.cards == b.cards@.map_values(|c: Card| c@),
                i <= n,
                rows@.map_values(|c: Card| c@) == b@.cards.subrange(0, i as int).filter(
                    |c: CardV| !row_is_empty(c),
                ),
            decreases n - i,
        {
            let ghost prefix = b@.cards.subrange(0, i as int);
            let ghost cv = b@.cards[i as int];
            let card = &b.cards[i];
            if !card.text.as_str().is_empty() {
                let ghost before = rows@.map_values(|c: Card| c@);
                rows.push(card.clone());
                proof {
                    assert(rows@.map_values(|c: Card| c@) =~= before.push(cv));
                }
            }
            proof {
                reveal(Seq::filter);
                let pred = |c: CardV| !row_is_empty(c);
                assert(b@.cards.subrange(0, i + 1) =~= prefix + seq![cv]);
                assert(seq![cv].drop_last() =~= Seq::<CardV>::empty());
                assert(seq![cv].filter(pred) == if pred(cv) {
                    seq![cv]
                } else {
                    Seq::<CardV>::empty()
                }) by {
                    assert(seq![cv].last() == cv);
                    assert(Seq::<CardV>::empty().filter(pred) =~= Seq::<CardV>::empty());
                    if pred(cv) {
                        assert(seq![cv].filter(pred) =~= Seq::<CardV>::empty().push(cv));
                        assert(Seq::<CardV>::empty().push(cv) =~= seq![cv]);
                    }
                };
                Seq::<CardV>::filter_distributes_over_add(prefix, seq![cv], pred);
                assert(rows@.map_values(|c: Card| c@) =~= b@.cards.subrange(0, i + 1).filter(
                    pred,
                ));
            }
            i = i + 1;
        }
        rows.push(compose_row_exec());
        proof {
            assert(b@.cards.subrange(0, n as int) =~= b@.cards);
            assert(rows@.map_values(|c: Card| c@) =~= spec_rows_from_cards(b@.cards));
        }
        Column { date: b.date, rows }
    }

    /// Apply one text edit to row `i`.
    pub fn set_row_text(&mut self, i: usize, text: String)
        requires
            i < old(self).rows@.len(),
        ensures
            final(self).date == old(self).date,
            final(self).rows_view() == spec_set_text(old(self).rows_view(), i as int, text@),
    {
        let ghost before = self.rows_view();
        let key = self.rows[i].key.clone();
        let ghost tv = text@;
        self.rows.set(i, Card::new(key, text));
        proof {
            assert(self.rows_view() =~= before.update(
                i as int,
                CardV { key: before[i as int].key, text: tv },
            ));
        }
        let last = self.rows.len() - 1;
        if !self.rows[last].text.as_str().is_empty() {
            self.rows.push(compose_row_exec());
            proof {
                assert(self.rows_view() =~= spec_set_text(before, i as int, tv));
            }
        } else {
            proof {
                assert(self.rows_view() =~= spec_set_text(before, i as int, tv));
            }
        }
    }

    /// Apply one key-selector change to row `i`: position `k` of the symbol
    /// set becomes its key.
    pub fn set_row_key(&mut self, i: usize, k: usize)
        requires
            i < old(self).rows@.len(),
            k < spec_card_keys().len(),
        ensures
            final(self).date == old(self).date,
            final(self).rows_view() == spec_set_key(
                old(self).rows_view(),
                i as int,
                spec_card_keys()[k as int],
            ),
    {
        let ghost before = self.rows_view();
        let text = self.rows[i].text.clone();
        let key = key_for_index(k);
        self.rows.set(i, Card::new(key.to_owned(), text));
        proof {
            assert(self.rows_view() =~= spec_set_key(
                before,
                i as int,
                spec_card_keys()[k as int],
            ));
        }
    }

    /// Apply a focus loss: delete the first empty row other than the last,
    /// when there is one.
    pub fn focus_out(&mut self)
        ensures
            final(self).date == old(self).date,
            final(self).rows_view() == spec_focus_out(old(self).rows_view()),
    {
        let ghost before = self.rows_view();
        if self.rows.len() == 0 {
            return ;
        }
        let last = self.rows.len() - 1;
        let mut i: usize = 0;
        while i < last
            invariant
                last == self.rows@.len() - 1,
                self.rows_view() == before,
                before == old(self).rows_view(),
                self.date == old(self).date,
                self.rows@.len() >= 1,
                i <= last,
                spec_first_empty(before) == spec_first_empty_from(before, i as int),
            decreases last - i,
        {
            if self.rows[i].text.as_str().is_empty() {
                proof {
                    assert(row_is_empty(before[i as int]));
                    assert(spec_first_empty(before) == Some(i as int));
                }
                self.rows.remove(i);
                proof {
                    assert(self.rows_view() =~= before.remove(i as int));
                    assert(spec_focus_out(before) == before.remove(i as int));
                    assert(self.rows_view() == spec_focus_out(old(self).rows_view()));
                }
                return ;
            }
            proof {
                assert(!row_is_empty(before[i as int]));
            }
            i = i + 1;
        }
        proof {
            assert(spec_first_empty(before) is None);
        }
    }

    /// The bucket a save writes: every non-empty row, in order. Empty rows
    /// — the trailing compose row always among them — are never persisted.
    pub fn to_bucket(&self) -> (r: DailyBucket)
        ensures
            r@.version == 1,
            r@.date == self.date,
            r@.cards == self.rows_view().filter(|c: CardV| !row_is_empty(c)),
    {
        let ghost pred = |c: CardV| !row_is_empty(c);
        let n = self.rows.len();
        let mut cards: Vec<Card> = Vec::new();
        let mut i: usize = 0;
        proof {
            reveal(Seq::filter);
            assert(self.rows_view().subrange(0, 0) =~= Seq::<CardV>::empty());
            assert(cards@.map_values(|c: Card| c@) =~= self.rows_view().subrange(0, 0).filter(
                pred,
            ));
        }
        while i < n
            invariant
                n == self.rows@.len(),
                i <= n,
                cards@.map_values(|c: Card| c@) == self.rows_view().subrange(0, i as int).filter(
                    |c: CardV| !row_is_empty(c),
                ),
            decreases n - i,
        {
            let ghost prefix = self.rows_view().subrange(0, i as int);
            let ghost cv = self.rows_view()[i as int];
            let row = &self.rows[i];
            if !row.text.as_str().is_empty() {
                let ghost before = cards@.map_values(|c: Card| c@);
                cards.push(row.clone());
                proof {
                    assert(cards@.map_values(|c: Card| c@) =~= before.push(cv));
                }
            }
            proof {
                reveal(Seq::filter);
                let pred = |c: CardV| !row_is_empty(c);
                assert(self.rows_view().subrange(0, i + 1) =~= prefix + seq![cv]);
                assert(seq![cv].drop_last() =~= Seq::<CardV>::empty());
                assert(seq![cv].filter(pred) == if pred(cv) {
                    seq![cv]
                } else {
                    Seq::<CardV>::empty()
                }) by {
                    assert(seq![cv].last() == cv);
                    assert(Seq::<CardV>::empty().filter(pred) =~= Seq::<CardV>::empty());
                    if pred(cv) {
                        assert(seq![cv].filter(pred) =~= Seq::<CardV>::empty().push(cv));
                        assert(Seq::<CardV>::empty().push(cv) =~= seq![cv]);
                    }
                };
                Seq::<CardV>::filter_distributes_over_add(prefix, seq![cv], pred);
                assert(cards@.map_values(|c: Card| c@) =~= self.rows_view().subrange(
                    0,
                    i + 1,
                ).filter(pred));
            }
            i = i + 1;
        }
        proof {
            assert(self.rows_view().subrange(0, n as int) =~= self.rows_view());
        }
        DailyBucket::new(self.date, cards)
    }
}

/// The column a bucket is rendered as is well formed: exactly one trailing
/// empty compose row, and no other empty row.
pub proof fn lemma_rows_from_cards_wf(cards: Seq<CardV>)
    ensures
        wf_rows(spec_rows_from_cards(cards)),
{
    broadcast use vstd::seq_lib::group_filter_ensures;

    let pred = |c: CardV| !row_is_empty(c);
    let f = cards.filter(pred);
    let rows = spec_rows_from_cards(cards);
    assert(rows.last() == compose_row());
    assert forall|i: int| 0 <= i < rows.len() - 1 implies !row_is_empty(#[trigger] rows[i]) by {
        assert(rows[i] == f[i]);
        cards.lemma_filter_pred(pred, i);
    }
}

proof fn lemma_first_empty_scan(rows: Seq<CardV>, k: int, i: int)
    requires
        0 <= k <= i < rows.len() - 1,
        row_is_empty(rows[i]),
        forall|j: int| 0 <= j < i ==> !row_is_empty(#[trigger] rows[j]),
    ensures
        spec_first_empty_from(rows, k) == Some(i),
    decreases i - k,
{
    if k < i {
        lemma_first_empty_scan(rows, k + 1, i);
    }
}

proof fn lemma_first_empty_none(rows: Seq<CardV>, k: int)
    requires
        0 <= k,
        forall|j: int| 0 <= j < rows.len() - 1 ==> !row_is_empty(#[trigger] rows[j]),
    ensures
        spec_first_empty_from(rows, k) is None,
    decreases rows.len() - k,
{
    if k < rows.len() - 1 {
        lemma_first_empty_none(rows, k + 1);
    }
}

/// The trailing-row law, one step: in a well-formed column, any text edit
/// followed by the focus loss that ends it leaves the column well formed
/// again: exactly one trailing empty row and no other empty row.
pub proof fn lemma_trailing_row_invariant(rows: Seq<CardV>, i: int, text: Seq<char>)
    requires
        wf_rows(rows),
        0 <= i < rows.len(),
    ensures
        wf_rows(spec_focus_out(spec_set_text(rows, i, text))),
{
    let updated = rows.update(i, CardV { key: rows[i].key, text });
    let n = rows.len() as int;
    if i == n - 1 {
        if text.len() > 0 {
            let v = updated.push(compose_row());
            assert(spec_set_text(rows, i, text) == v);
            assert(row_is_empty(v.last()));
            assert(forall|j: int| 0 <= j < v.len() - 1 ==> !row_is_empty(#[trigger] v[j]));
            lemma_first_empty_none(v, 0);
            assert(spec_focus_out(v) == v);
        } else {
            assert(spec_set_text(rows, i, text) == updated);
            assert(row_is_empty(updated.last()));
            assert(forall|j: int|
                0 <= j < updated.len() - 1 ==> !row_is_empty(#[trigger] updated[j]));
            lemma_first_empty_none(updated, 0);
            assert(spec_focus_out(updated) == updated);
        }
    } else {
        assert(updated.last() == rows.last());
        assert(row_is_empty(updated.last()));
        assert(spec_set_text(rows, i, text) == updated);
        if text.len() > 0 {
            assert(forall|j: int|
                0 <= j < updated.len() - 1 ==> !row_is_empty(#[trigger] updated[j]));
            lemma_first_empty_none(updated, 0);
            assert(spec_focus_out(updated) == updated);
        } else {
            assert(row_is_empty(updated[i]));
            assert(forall|j: int| 0 <= j < i ==> !row_is_empty(#[trigger] updated[j]));
            lemma_first_empty_scan(updated, 0, i);
            let v = updated.remove(i);
            assert(spec_focus_out(updated) == v);
            assert(v.len() == n - 1);
            assert(v.last() == updated.last());
            assert(forall|j: int| 0 <= j < v.len() - 1 ==> !row_is_empty(#[trigger] v[j]));
        }
    }
}

/// One edit step of the board model: a text edit of a row that exists,
/// followed by the focus loss that ends it. An index that no longer names a
/// row is ignored.
pub open spec fn spec_edit_step(rows: Seq<CardV>, i: int, text: Seq<char>) -> Seq<CardV> {
    if 0 <= i < rows.len() {
        spec_focus_out(spec_set_text(rows, i, text))
    } else {
        rows
    }
}

/// Any sequence of edit steps applied in order.
pub open spec fn spec_apply_edits(rows: Seq<CardV>, edits: Seq<(int, Seq<char>)>) -> Seq<CardV>
    decreases edits.len(),
{
    if edits.len() == 0 {
        rows
    } else {
        spec_apply_edits(spec_edit_step(rows, edits[0].0, edits[0].1), edits.drop_first())
    }
}

/// The trailing-row law: after any sequence of edits, each ended by its
/// focus loss, a well-formed column stays well formed.
pub proof fn lemma_trailing_rows_after_edits(rows: Seq<CardV>, edits: Seq<(int, Seq<char>)>)
    requires
        wf_rows(rows),
    ensures
        wf_rows(spec_apply_edits(rows, edits)),
    decreases edits.len(),
{
    if edits.len() > 0 {
        let i = edits[0].0;
        let text = edits[0].1;
        if 0 <= i < rows.len() {
            lemma_trailing_row_invariant(rows, i, text);
        }
        lemma_trailing_rows_after_edits(spec_edit_step(rows, i, text), edits.drop_first());
    }
}

/// A string all of whose characters satisfy a predicate, filtered by it, is
/// itself.
proof fn lemma_filter_all_true<A>(s: Seq<A>, pred: spec_fn(A) -> bool)
    requires
        forall|i: int| 0 <= i < s.len() ==> pred(#[trigger] s[i]),
    ensures
        s.filter(pred) == s,
    decreases s.len(),
{
    reveal(Seq::filter);
    if s.len() == 0 {
        assert(s.filter(pred) =~= s);
    } else {
        lemma_filter_all_true(s.drop_last(), pred);
        assert(pred(s.last()));
        assert(s.filter(pred) =~= s.drop_last().push(s.last()));
        assert(s.drop_last().push(s.last()) =~= s);
    }
}

/// The load-then-save law: loading a bucket's cards into a column and
/// saving the column untouched writes exactly the non-empty cards again,
/// in order — the trailing empty compose row is never persisted. A file
/// the library itself wrote holds no empty card, so its cards are
/// reproduced exactly.
pub proof fn lemma_load_save_cards(cards: Seq<CardV>)
    ensures
        spec_rows_from_cards(cards).filter(|c: CardV| !row_is_empty(c)) == cards.filter(
            |c: CardV| !row_is_empty(c),
        ),
        (forall|i: int| 0 <= i < cards.len() ==> !row_is_empty(#[trigger] cards[i]))
            ==> spec_rows_from_cards(cards).filter(|c: CardV| !row_is_empty(c)) == cards,
        spec_rows_from_cards(cards) == cards.filter(|c: CardV| !row_is_empty(c)).push(
            compose_row(),
        ),
{
    broadcast use vstd::seq_lib::group_filter_ensures;

    reveal(Seq::filter);
    let pred = |c: CardV| !row_is_empty(c);
    let f = cards.filter(pred);
    assert forall|i: int| 0 <= i < f.len() implies pred(#[trigger] f[i]) by {
        cards.lemma_filter_pred(pred, i);
    }
    lemma_filter_all_true(f, pred);
    Seq::<CardV>::filter_distributes_over_add(f, seq![compose_row()], pred);
    assert(f.push(compose_row()) =~= f + seq![compose_row()]);
    assert(seq![compose_row()].filter(pred) =~= Seq::<CardV>::empty()) by {
        assert(seq![compose_row()].last() == compose_row());
        assert(!pred(compose_row()));
        assert(seq![compose_row()].drop_last() =~= Seq::<CardV>::empty());
        assert(Seq::<CardV>::empty().filter(pred) =~= Seq::<CardV>::empty());
    }
    assert(f.push(compose_row()).filter(pred) =~= f);
    if forall|i: int| 0 <= i < cards.len() ==> !row_is_empty(#[trigger] cards[i]) {
        lemma_filter_all_true(cards, pred);
    }
}

/// The persistence cycle law for a whole column: saving a well-formed
/// column writes exactly its real rows — every row but the trailing empty
/// compose one — and rendering those cards again shows the same rows, with
/// a fresh compose row at the end. Together with the note-file round-trip
/// law this pins what a save followed by a reload shows.
pub proof fn lemma_save_load_renders_same_rows(rows: Seq<CardV>)
    requires
        wf_rows(rows),
    ensures
        rows.filter(|c: CardV| !row_is_empty(c)) == rows.drop_last(),
        spec_rows_from_cards(rows.filter(|c: CardV| !row_is_empty(c))) == rows.drop_last().push(
            compose_row(),
        ),
        spec_rows_from_cards(rows) == rows.drop_last().push(compose_row()),
{
    reveal(Seq::filter);
    let pred = |c: CardV| !row_is_empty(c);
    assert forall|i: int| 0 <= i < rows.drop_last().len() implies pred(
        #[trigger] rows.drop_last()[i],
    ) by {
        assert(rows.drop_last()[i] == rows[i]);
    }
    lemma_filter_all_true(rows.drop_last(), pred);
    assert(!pred(rows.last()));
    assert(rows.filter(pred) == rows.drop_last().filter(pred));
}

/// The day-number-and-weekday title a column is labeled with.
pub open spec fn spec_column_title(d: Date) -> Seq<char> {
    dec_short(d.day as int) + seq!['\u{65e5}', ' ', '('] + spec_weekday_japanese(spec_weekday(d))
        + seq![')']
}

/// Render a column's title.
pub fn column_title(d: Date) -> (r: String)
    requires
        d.wf(),
    ensures
        r@ == spec_column_title(d),
{
    let mut out: Vec<char> = Vec::new();
    crate::decimal::push_dec_short(&mut out, d.day);
    out.push('\u{65e5}');
    out.push(' ');
    out.push('(');
    let label = weekday_to_japanese(d.weekday());
    crate::text::push_str_chars(&mut out, label.as_str());
    out.push(')');
    proof {
        assert(out@ =~= spec_column_title(d));
    }
    crate::text::chars_to_string(&out)
}

} // verus!
