//! The on-disk format of a daily note file: a small structured text document
//! with a version line, a date line, and one block per card. Strings are
//! written as quoted basic strings with backslash escapes, so that any card
//! key and text round-trips exactly through a save and a load.
use crate::bucket::{BucketV, Card, CardV, DailyBucket};
use crate::date::Date;
use crate::text::push_str_chars;
use crate::decimal::{dec2, dec4};
use vstd::prelude::*;
use vstd::string::StrSliceExecFns;

verus! {

/// A character that may stand for itself inside a quoted string: anything
/// but the quote, the backslash and the control characters.
pub open spec fn is_plain_char(c: char) -> bool {
    c != '"' && c != '\\' && (c as u32) >= 0x20 && c as u32 != 0x7f
}

/// The uppercase hexadecimal digit for a value below sixteen.
pub open spec fn hex_digit(n: int) -> char {
    if n == 0 {
        '0'
    } else if n == 1 {
        '1'
    } else if n == 2 {
        '2'
    } else if n == 3 {
        '3'
    } else if n == 4 {
        '4'
    } else if n == 5 {
        '5'
    } else if n == 6 {
        '6'
    } else if n == 7 {
        '7'
    } else if n == 8 {
        '8'
    } else if n == 9 {
        '9'
    } else if n == 10 {
        'A'
    } else if n == 11 {
        'B'
    } else if n == 12 {
        'C'
    } else if n == 13 {
        'D'
    } else if n == 14 {
        'E'
    } else {
        'F'
    }
}

/// The value of an uppercase hexadecimal digit character.
pub open spec fn hex_val(c: char) -> Option<int> {
    if c == '0' {
        Some(0int)
    } else if c == '1' {
        Some(1int)
    } else if c == '2' {
        Some(2int)
    } else if c == '3' {
        Some(3int)
    } else if c == '4' {
        Some(4int)
    } else if c == '5' {
        Some(5int)
    } else if c == '6' {
        Some(6int)
    } else if c == '7' {
        Some(7int)
    } else if c == '8' {
        Some(8int)
    } else if c == '9' {
        Some(9int)
    } else if c == 'A' {
        Some(10int)
    } else if c == 'B' {
        Some(11int)
    } else if c == 'C' {
        Some(12int)
    } else if c == 'D' {
        Some(13int)
    } else if c == 'E' {
        Some(14int)
    } else if c == 'F' {
        Some(15int)
    } else {
        None
    }
}

/// The character a short escape code stands for.
pub open spec fn simple_unescape(c: char) -> Option<char> {
    if c == '"' {
        Some('"')
    } else if c == '\\' {
        Some('\\')
    } else if c == 'b' {
        Some('\u{8}')
    } else if c == 't' {
        Some('\t')
    } else if c == 'n' {
        Some('\n')
    } else if c == 'f' {
        Some('\u{c}')
    } else if c == 'r' {
        Some('\r')
    } else {
        None
    }
}

/// How one character is written inside a quoted string: plain characters
/// stand for themselves, the quote, the backslash and the common control
/// characters get a short escape, and any other control character is written
/// as a four-digit hexadecimal escape.
pub open spec fn escape_char(c: char) -> Seq<char> {
    if c == '"' {
        seq!['\\', '"']
    } else if c == '\\' {
        seq!['\\', '\\']
    } else if c == '\u{8}' {
        seq!['\\', 'b']
    } else if c == '\t' {
        seq!['\\', 't']
    } else if c == '\n' {
        seq!['\\', 'n']
    } else if c == '\u{c}' {
        seq!['\\', 'f']
    } else if c == '\r' {
        seq!['\\', 'r']
    } else if (c as u32) < 0x20 || (c as u32) == 0x7f {
        seq![
            '\\',
            'u',
            '0',
            '0',
            hex_digit((c as u32) as int / 16),
            hex_digit((c as u32) as int % 16),
        ]
    } else {
        seq![c]
    }
}

/// How a whole string is written inside quotes.
pub open spec fn escape(s: Seq<char>) -> Seq<char>
    decreases s.len(),
{
    if s.len() == 0 {
        Seq::empty()
    } else {
        escape_char(s[0]) + escape(s.drop_first())
    }
}

/// Read a quoted string's content from right after its opening quote to its
/// closing quote: the decoded characters and the remainder after the quote,
/// or nothing when the input is not a well-formed quoted string.
pub open spec fn spec_parse_string(s: Seq<char>) -> Option<(Seq<char>, Seq<char>)>
    decreases s.len(),
{
    if s.len() == 0 {
        None
    } else if s[0] == '"' {
        Some((Seq::empty(), s.drop_first()))
    } else if s[0] == '\\' {
        if s.len() < 2 {
            None
        } else if simple_unescape(s[1]) is Some {
            match spec_parse_string(s.skip(2)) {
                Some(vr) => Some((seq![simple_unescape(s[1])->0] + vr.0, vr.1)),
                None => None,
            }
        } else if s[1] == 'u' {
            if s.len() >= 6 && s[2] == '0' && s[3] == '0' && hex_val(s[4]) is Some && hex_val(
                s[5],
            ) is Some {
                let n = hex_val(s[4])->0 * 16 + hex_val(s[5])->0;
                if n < 0x20 || n == 0x7f {
                    match spec_parse_string(s.skip(6)) {
                        Some(vr) => Some((seq![(n as u32) as char] + vr.0, vr.1)),
                        None => None,
                    }
                } else {
                    None
                }
            } else {
                None
            }
        } else {
            None
        }
    } else if is_plain_char(s[0]) {
        match spec_parse_string(s.drop_first()) {
            Some(vr) => Some((seq![s[0]] + vr.0, vr.1)),
            None => None,
        }
    } else {
        None
    }
}

/// Reading a quoted string always consumes at least the closing quote.
pub proof fn lemma_parse_string_consumes(s: Seq<char>)
    ensures
        spec_parse_string(s) matches Some(vr) ==> vr.1.len() < s.len(),
    decreases s.len(),
{
    if s.len() == 0 {
    } else if s[0] == '"' {
    } else if s[0] == '\\' {
        if s.len() >= 2 && simple_unescape(s[1]) is Some {
            lemma_parse_string_consumes(s.skip(2));
        } else if s.len() >= 2 && s[1] == 'u' {
            if s.len() >= 6 {
                lemma_parse_string_consumes(s.skip(6));
            }
        }
    } else if is_plain_char(s[0]) {
        lemma_parse_string_consumes(s.drop_first());
    }
}

/// Writing a string with `escape` and reading it back in front of a closing
/// quote and arbitrary trailing input recovers the string and the trailer.
pub proof fn lemma_parse_string_of_escape(t: Seq<char>, rest: Seq<char>)
    ensures
        spec_parse_string(escape(t) + seq!['"'] + rest) == Some((t, rest)),
    decreases t.len(),
{
    let s = escape(t) + seq!['"'] + rest;
    if t.len() == 0 {
        assert(s =~= seq!['"'] + rest);
        assert(s[0] == '"');
        assert(s.drop_first() =~= rest);
    } else {
        let c = t[0];
        let t1 = t.drop_first();
        let s1 = escape(t1) + seq!['"'] + rest;
        lemma_parse_string_of_escape(t1, rest);
        assert(escape(t) == escape_char(c) + escape(t1));
        let ec = escape_char(c);
        assert(s =~= ec + s1);
        if escape_char(c) =~= seq![c] {
            // a plain character stands for itself
            assert(s[0] == c);
            assert(s.drop_first() =~= s1);
            assert(seq![c] + t1 =~= t);
        } else if (c as u32) >= 0x20 && c as u32 != 0x7f {
            // a short escape: backslash plus one code character
            assert(ec.len() == 2 && ec[0] == '\\');
            assert(s[0] == '\\' && s[1] == ec[1]);
            assert(simple_unescape(ec[1]) == Some(c));
            assert(s.skip(2) =~= s1);
            assert(seq![c] + t1 =~= t);
        } else if c == '\u{8}' || c == '\t' || c == '\n' || c == '\u{c}' || c == '\r' {
            // control characters with a short escape
            assert(ec.len() == 2 && ec[0] == '\\');
            assert(s[0] == '\\' && s[1] == ec[1]);
            assert(simple_unescape(ec[1]) == Some(c));
            assert(s.skip(2) =~= s1);
            assert(seq![c] + t1 =~= t);
        } else {
            // a hexadecimal escape of one control character
            let n: int = (c as u32) as int;
            assert(ec == seq!['\\', 'u', '0', '0', hex_digit(n / 16), hex_digit(n % 16)]);
            assert(s[0] == '\\' && s[1] == 'u' && s[2] == '0' && s[3] == '0');
            assert(s[4] == hex_digit(n / 16) && s[5] == hex_digit(n % 16));
            assert(hex_val(hex_digit(n / 16)) == Some(n / 16));
            assert(hex_val(hex_digit(n % 16)) == Some(n % 16));
            assert(n / 16 * 16 + n % 16 == n);
            assert((n as u32) as char == c) by {
                vstd::utf8::char_u32_cast(c, c as u32);
            };
            assert(s.skip(6) =~= s1);
            assert(seq![c] + t1 =~= t);
        }
    }
}

/// The first line of every note file.
pub open spec fn version_line() -> Seq<char> {
    seq!['v', 'e', 'r', 's', 'i', 'o', 'n', ' ', '=', ' ', '1', '\n']
}

/// The second line up to the opening quote of the date.
pub open spec fn date_prefix() -> Seq<char> {
    seq!['d', 'a', 't', 'e', ' ', '=', ' ', '"']
}

/// The single line standing for an empty card list.
pub open spec fn empty_cards_line() -> Seq<char> {
    seq!['c', 'a', 'r', 'd', 's', ' ', '=', ' ', '[', ']', '\n']
}

/// A card block's opening: a blank line, the block header, and the key
/// field up to its opening quote.
pub open spec fn card_header() -> Seq<char> {
    seq![
        '\n',
        '[',
        '[',
        'c',
        'a',
        'r',
        'd',
        's',
        ']',
        ']',
        '\n',
        'k',
        'e',
        'y',
        ' ',
        '=',
        ' ',
        '"',
    ]
}

/// Between a card's key and its text: the line break and the text field up
/// to its opening quote.
pub open spec fn text_header() -> Seq<char> {
    seq!['\n', 't', 'e', 'x', 't', ' ', '=', ' ', '"']
}

/// How a date is written: four-digit year, two-digit month and day.
pub open spec fn date_chars(d: Date) -> Seq<char> {
    dec4(d.year as int) + seq!['-'] + dec2(d.month as int) + seq!['-'] + dec2(d.day as int)
}

/// How one card is written.
pub open spec fn spec_write_card(c: CardV) -> Seq<char> {
    card_header() + escape(c.key) + seq!['"'] + text_header() + escape(c.text) + seq!['"', '\n']
}

/// How a card list is written: one block per card, in order.
pub open spec fn spec_write_cards(cs: Seq<CardV>) -> Seq<char>
    decreases cs.len(),
{
    if cs.len() == 0 {
        Seq::empty()
    } else {
        spec_write_card(cs[0]) + spec_write_cards(cs.drop_first())
    }
}

/// How a whole bucket is written: the version line, the date line, and the
/// card blocks, or the empty list line when there is no card.
pub open spec fn spec_write_bucket(b: BucketV) -> Seq<char> {
    version_line() + date_prefix() + date_chars(b.date) + seq!['"', '\n'] + if b.cards.len() == 0 {
        empty_cards_line()
    } else {
        spec_write_cards(b.cards)
    }
}

/// Read a card list: one block per card, to the end of the input.
pub open spec fn spec_parse_cards(s: Seq<char>) -> Option<Seq<CardV>>
    decreases s.len(),
    via spec_parse_cards_decreases
{
    if !card_header().is_prefix_of(s) {
        None
    } else {
        let s1 = s.skip(card_header().len() as int);
        match spec_parse_string(s1) {
            None => None,
            Some(kr) => {
                if !text_header().is_prefix_of(kr.1) {
                    None
                } else {
                    let s2 = kr.1.skip(text_header().len() as int);
                    match spec_parse_string(s2) {
                        None => None,
                        Some(tr) => {
                            if tr.1.len() >= 1 && tr.1[0] == '\n' {
                                let s3 = tr.1.drop_first();
                                let card = CardV { key: kr.0, text: tr.0 };
                                if s3.len() == 0 {
                                    Some(seq![card])
                                } else {
                                    match spec_parse_cards(s3) {
                                        None => None,
                                        Some(cs) => Some(seq![card] + cs),
                                    }
                                }
                            } else {
                                None
                            }
                        },
                    }
                }
            },
        }
    }
}

#[via_fn]
proof fn spec_parse_cards_decreases(s: Seq<char>) {
    if card_header().is_prefix_of(s) {
        let s1 = s.skip(card_header().len() as int);
        lemma_parse_string_consumes(s1);
        match spec_parse_string(s1) {
            Some(kr) => {
                if text_header().is_prefix_of(kr.1) {
                    let s2 = kr.1.skip(text_header().len() as int);
                    lemma_parse_string_consumes(s2);
                }
            },
            None => {},
        }
    }
}

/// Read a whole note file: the cards it holds, or nothing when the text is
/// not a well-formed note file. The date line's content is not interpreted:
/// a loaded bucket keeps the date it was looked up under.
pub open spec fn spec_parse_bucket(s: Seq<char>) -> Option<Seq<CardV>> {
    if !version_line().is_prefix_of(s) {
        None
    } else {
        let s1 = s.skip(version_line().len() as int);
        if !date_prefix().is_prefix_of(s1) {
            None
        } else {
            let s2 = s1.skip(date_prefix().len() as int);
            match spec_parse_string(s2) {
                None => None,
                Some(dr) => {
                    if dr.1.len() >= 1 && dr.1[0] == '\n' {
                        let s3 = dr.1.drop_first();
                        if s3 == empty_cards_line() {
                            Some(Seq::empty())
                        } else {
                            spec_parse_cards(s3)
                        }
                    } else {
                        None
                    }
                },
            }
        }
    }
}

/// A string all of whose characters are plain is written as itself.
proof fn lemma_escape_plain_id(s: Seq<char>)
    requires
        forall|i: int| 0 <= i < s.len() ==> is_plain_char(#[trigger] s[i]),
    ensures
        escape(s) == s,
    decreases s.len(),
{
    if s.len() == 0 {
        assert(escape(s) =~= s);
    } else {
        lemma_escape_plain_id(s.drop_first());
        assert(escape_char(s[0]) == seq![s[0]]);
        assert(escape(s) =~= s);
    }
}

/// Every character of a written date is plain: digits and dashes.
proof fn lemma_date_chars_plain(d: Date)
    ensures
        forall|i: int| 0 <= i < date_chars(d).len() ==> is_plain_char(#[trigger] date_chars(d)[i]),
        escape(date_chars(d)) == date_chars(d),
{
    let s = date_chars(d);
    assert forall|i: int| 0 <= i < s.len() implies is_plain_char(#[trigger] s[i]) by {
        assert(s.len() == 10);
    }
    lemma_escape_plain_id(s);
}

/// Writing a non-empty card list and reading it back recovers every card.
proof fn lemma_parse_cards_of_write(cs: Seq<CardV>)
    requires
        cs.len() >= 1,
    ensures
        spec_parse_cards(spec_write_cards(cs)) == Some(cs),
    decreases cs.len(),
{
    let s = spec_write_cards(cs);
    let c = cs[0];
    let cs1 = cs.drop_first();
    let tail = spec_write_cards(cs1);
    assert(s == spec_write_card(c) + tail);
    let after_text = seq!['\n'] + tail;
    assert(s =~= card_header() + (escape(c.key) + seq!['"'] + (text_header() + (escape(c.text)
        + seq!['"'] + after_text))));
    assert(card_header().is_prefix_of(s)) by {
        assert(s.subrange(0, card_header().len() as int) =~= card_header());
    }
    let s1 = s.skip(card_header().len() as int);
    assert(s1 =~= escape(c.key) + seq!['"'] + (text_header() + (escape(c.text) + seq!['"']
        + after_text)));
    lemma_parse_string_of_escape(c.key, text_header() + (escape(c.text) + seq!['"'] + after_text));
    let r1 = text_header() + (escape(c.text) + seq!['"'] + after_text);
    assert(spec_parse_string(s1) == Some((c.key, r1)));
    assert(text_header().is_prefix_of(r1)) by {
        assert(r1.subrange(0, text_header().len() as int) =~= text_header());
    }
    let s2 = r1.skip(text_header().len() as int);
    assert(s2 =~= escape(c.text) + seq!['"'] + after_text);
    lemma_parse_string_of_escape(c.text, after_text);
    assert(spec_parse_string(s2) == Some((c.text, after_text)));
    assert(after_text[0] == '\n');
    assert(after_text.drop_first() =~= tail);
    if cs1.len() == 0 {
        assert(tail.len() == 0);
        assert(spec_parse_cards(s) == Some(seq![c]));
        assert(seq![c] =~= cs);
    } else {
        lemma_parse_cards_of_write(cs1);
        assert(tail.len() > 0) by {
            assert(spec_write_cards(cs1) == spec_write_card(cs1[0]) + spec_write_cards(
                cs1.drop_first(),
            ));
            assert(spec_write_card(cs1[0]).len() > 0);
        }
        assert(spec_parse_cards(s) == Some(seq![c] + cs1));
        assert(seq![c] + cs1 =~= cs);
    }
}

/// The round-trip law of the note file format: writing any bucket and
/// reading the text back yields exactly the bucket's cards, in order.
#[verifier::rlimit(100)]
pub proof fn lemma_bucket_round_trip(b: BucketV)
    ensures
        spec_parse_bucket(spec_write_bucket(b)) == Some(b.cards),
{
    let s = spec_write_bucket(b);
    let body: Seq<char> = if b.cards.len() == 0 {
        empty_cards_line()
    } else {
        spec_write_cards(b.cards)
    };
    assert(s =~= version_line() + (date_prefix() + (escape(date_chars(b.date)) + seq!['"'] + (
    seq!['\n'] + body)))) by {
        lemma_date_chars_plain(b.date);
    }
    assert(version_line().is_prefix_of(s)) by {
        assert(s.subrange(0, version_line().len() as int) =~= version_line());
    }
    let s1 = s.skip(version_line().len() as int);
    assert(s1 =~= date_prefix() + (escape(date_chars(b.date)) + seq!['"'] + (seq!['\n'] + body)));
    assert(date_prefix().is_prefix_of(s1)) by {
        assert(s1.subrange(0, date_prefix().len() as int) =~= date_prefix());
    }
    let s2 = s1.skip(date_prefix().len() as int);
    assert(s2 =~= escape(date_chars(b.date)) + seq!['"'] + (seq!['\n'] + body));
    lemma_parse_string_of_escape(date_chars(b.date), seq!['\n'] + body);
    let r = seq!['\n'] + body;
    assert(spec_parse_string(s2) == Some((date_chars(b.date), r)));
    assert(r[0] == '\n');
    assert(r.drop_first() =~= body);
    if b.cards.len() == 0 {
        assert(spec_parse_bucket(s) == Some(Seq::<CardV>::empty()));
    } else {
        assert(body != empty_cards_line()) by {
            assert(body == spec_write_card(b.cards[0]) + spec_write_cards(b.cards.drop_first()));
            assert(body[0] == '\n');
            assert(empty_cards_line()[0] == 'c');
        }
        lemma_parse_cards_of_write(b.cards);
    }
}

/// Escaping distributes over concatenation.
proof fn lemma_escape_append(a: Seq<char>, b: Seq<char>)
    ensures
        escape(a + b) == escape(a) + escape(b),
    decreases a.len(),
{
    if a.len() == 0 {
        assert(a + b =~= b);
        assert(escape(a) =~= Seq::<char>::empty());
        assert(escape(a) + escape(b) =~= escape(b));
    } else {
        lemma_escape_append(a.drop_first(), b);
        assert((a + b).drop_first() =~= a.drop_first() + b);
        assert((a + b)[0] == a[0]);
        assert(escape(a + b) =~= escape(a) + escape(b));
    }
}

/// Writing one more card appends exactly that card's block.
proof fn lemma_write_cards_snoc(cs: Seq<CardV>, c: CardV)
    ensures
        spec_write_cards(cs.push(c)) == spec_write_cards(cs) + spec_write_card(c),
    decreases cs.len(),
{
    if cs.len() == 0 {
        assert(cs.push(c)[0] == c);
        assert(cs.push(c).drop_first() =~= Seq::<CardV>::empty());
        assert(spec_write_cards(cs.push(c).drop_first()) =~= Seq::<char>::empty());
        assert(spec_write_cards(cs) =~= Seq::<char>::empty());
        assert(spec_write_cards(cs.push(c)) =~= spec_write_cards(cs) + spec_write_card(c));
    } else {
        lemma_write_cards_snoc(cs.drop_first(), c);
        assert(cs.push(c).drop_first() =~= cs.drop_first().push(c));
        assert(cs.push(c)[0] == cs[0]);
        assert(spec_write_cards(cs.push(c)) =~= spec_write_cards(cs) + spec_write_card(c));
    }
}

fn hex_digit_exec(d: u32) -> (r: char)
    requires
        d <= 15,
    ensures
        r == hex_digit(d as int),
{
    match d {
        0 => '0',
        1 => '1',
        2 => '2',
        3 => '3',
        4 => '4',
        5 => '5',
        6 => '6',
        7 => '7',
        8 => '8',
        9 => '9',
        10 => 'A',
        11 => 'B',
        12 => 'C',
        13 => 'D',
        14 => 'E',
        _ => 'F',
    }
}

fn is_plain_char_exec(c: char) -> (r: bool)
    ensures
        r == is_plain_char(c),
{
    c != '"' && c != '\\' && (c as u32) >= 0x20 && (c as u32) != 0x7f
}

/// Append the escaped form of `s` to `out`.
fn push_escaped(out: &mut Vec<char>, s: &str)
    ensures
        final(out)@ == old(out)@ + escape(s@),
{
    let n = s.unicode_len();
    let mut i: usize = 0;
    proof {
        assert(out@ =~= old(out)@ + escape(s@.subrange(0, 0)));
    }
    while i < n
        invariant
            n == s@.len(),
            i <= n,
            out@ == old(out)@ + escape(s@.subrange(0, i as int)),
        decreases n - i,
    {
        let c = s.get_char(i);
        if is_plain_char_exec(c) {
            out.push(c);
        } else if c == '"' {
            out.push('\\');
            out.push('"');
        } else if c == '\\' {
            out.push('\\');
            out.push('\\');
        } else if c == '\u{8}' {
            out.push('\\');
            out.push('b');
        } else if c == '\t' {
            out.push('\\');
            out.push('t');
        } else if c == '\n' {
            out.push('\\');
            out.push('n');
        } else if c == '\u{c}' {
            out.push('\\');
            out.push('f');
        } else if c == '\r' {
            out.push('\\');
            out.push('r');
        } else {
            out.push('\\');
            out.push('u');
            out.push('0');
            out.push('0');
            out.push(hex_digit_exec((c as u32) / 16));
            out.push(hex_digit_exec((c as u32) % 16));
        }
        proof {
            lemma_escape_append(s@.subrange(0, i as int), seq![s@[i as int]]);
            assert(s@.subrange(0, i + 1) =~= s@.subrange(0, i as int) + seq![s@[i as int]]);
            assert(seq![s@[i as int]].drop_first() =~= Seq::<char>::empty());
            assert(escape(seq![s@[i as int]].drop_first()) =~= Seq::<char>::empty());
            assert(escape(seq![s@[i as int]]) =~= escape_char(s@[i as int]));
            assert(out@ =~= old(out)@ + escape(s@.subrange(0, i + 1)));
        }
        i = i + 1;
    }
    proof {
        assert(s@.subrange(0, n as int) =~= s@);
    }
}

/// Write a bucket as note-file text. The version field is written as the
/// constant one, whatever the in-memory tag holds.
pub fn write_bucket(b: &DailyBucket) -> (r: String)
    requires
        b.date.wf(),
    ensures
        r@ == spec_write_bucket(b@),
{
    let mut out: Vec<char> = Vec::new();
    push_str_chars(&mut out, "version = 1\ndate = \"");
    proof {
        reveal_strlit("version = 1\ndate = \"");
        assert(out@ =~= version_line() + date_prefix());
    }
    crate::decimal::push_dec4(&mut out, b.date.year);
    out.push('-');
    crate::decimal::push_dec2(&mut out, b.date.month);
    out.push('-');
    crate::decimal::push_dec2(&mut out, b.date.day);
    out.push('"');
    out.push('\n');
    let ghost preamble = version_line() + date_prefix() + date_chars(b.date) + seq!['"', '\n'];
    proof {
        assert(out@ =~= preamble);
    }
    if b.cards.len() == 0 {
        push_str_chars(&mut out, "cards = []\n");
        proof {
            reveal_strlit("cards = []\n");
            assert(out@ =~= spec_write_bucket(b@));
        }
    } else {
        let n = b.cards.len();
        let mut i: usize = 0;
        proof {
            assert(b@.cards.subrange(0, 0) =~= Seq::<CardV>::empty());
            assert(out@ =~= preamble + spec_write_cards(b@.cards.subrange(0, 0)));
        }
        while i < n
            invariant
                n == b.cards@.len(),
                b@.cards == b.cards@.map_values(|c: Card| c@),
                i <= n,
                b.date.wf(),
                preamble == version_line() + date_prefix() + date_chars(b.date) + seq!['"', '\n'],
                out@ == preamble + spec_write_cards(b@.cards.subrange(0, i as int)),
            decreases n - i,
        {
            let ghost before = out@;
            push_str_chars(&mut out, "\n[[cards]]\nkey = \"");
            proof {
                reveal_strlit("\n[[cards]]\nkey = \"");
                assert(out@ =~= before + card_header());
            }
            push_escaped(&mut out, b.cards[i].key.as_str());
            out.push('"');
            push_str_chars(&mut out, "\ntext = \"");
            proof {
                reveal_strlit("\ntext = \"");
            }
            push_escaped(&mut out, b.cards[i].text.as_str());
            out.push('"');
            out.push('\n');
            proof {
                assert(out@ =~= before + spec_write_card(b@.cards[i as int]));
                lemma_write_cards_snoc(b@.cards.subrange(0, i as int), b@.cards[i as int]);
                assert(b@.cards.subrange(0, i + 1) =~= b@.cards.subrange(0, i as int).push(
                    b@.cards[i as int],
                ));
                assert(out@ =~= preamble + spec_write_cards(b@.cards.subrange(0, i + 1)));
            }
            i = i + 1;
        }
        proof {
            assert(b@.cards.subrange(0, n as int) =~= b@.cards);
            assert(out@ =~= spec_write_bucket(b@));
        }
    }
    crate::text::chars_to_string(&out)
}

/// Relies on std's `char::from_u32`: every value below 0xD800 is a valid
/// Unicode scalar, so the conversion succeeds and returns the character with
/// exactly that code.
#[verifier::external_body]
fn char_from_u32(n: u32) -> (r: char)
    requires
        n < 0xD800,
    ensures
        r as u32 == n,
{
    char::from_u32(n).unwrap()
}

fn simple_unescape_exec(c: char) -> (r: Option<char>)
    ensures
        r == simple_unescape(c),
{
    if c == '"' {
        Some('"')
    } else if c == '\\' {
        Some('\\')
    } else if c == 'b' {
        Some('\u{8}')
    } else if c == 't' {
        Some('\t')
    } else if c == 'n' {
        Some('\n')
    } else if c == 'f' {
        Some('\u{c}')
    } else if c == 'r' {
        Some('\r')
    } else {
        None
    }
}

fn hex_val_exec(c: char) -> (r: Option<u32>)
    ensures
        match r {
            Some(v) => hex_val(c) == Some(v as int) && v <= 15,
            None => hex_val(c) is None,
        },
{
    if c == '0' {
        Some(0)
    } else if c == '1' {
        Some(1)
    } else if c == '2' {
        Some(2)
    } else if c == '3' {
        Some(3)
    } else if c == '4' {
        Some(4)
    } else if c == '5' {
        Some(5)
    } else if c == '6' {
        Some(6)
    } else if c == '7' {
        Some(7)
    } else if c == '8' {
        Some(8)
    } else if c == '9' {
        Some(9)
    } else if c == 'A' {
        Some(10)
    } else if c == 'B' {
        Some(11)
    } else if c == 'C' {
        Some(12)
    } else if c == 'D' {
        Some(13)
    } else if c == 'E' {
        Some(14)
    } else if c == 'F' {
        Some(15)
    } else {
        None
    }
}

/// Prefix a decoded string fragment onto a string-parse outcome.
pub open spec fn prepend_parse(pre: Seq<char>, o: Option<(Seq<char>, Seq<char>)>) -> Option<
    (Seq<char>, Seq<char>),
> {
    match o {
        Some(vr) => Some((pre + vr.0, vr.1)),
        None => None,
    }
}

proof fn lemma_prepend_parse_assoc(a: Seq<char>, b: Seq<char>, o: Option<(Seq<char>, Seq<char>)>)
    ensures
        prepend_parse(a, prepend_parse(b, o)) == prepend_parse(a + b, o),
{
    match o {
        Some(vr) => {
            assert(a + (b + vr.0) =~= (a + b) + vr.0);
        },
        None => {},
    }
}

/// Read a quoted string's content from position `start` of `s`, right after
/// its opening quote: the decoded characters and the position right after
/// the closing quote.
fn parse_string_at(s: &Vec<char>, start: usize) -> (r: Option<(Vec<char>, usize)>)
    requires
        start <= s@.len(),
    ensures
        match r {
            Some(vp) => start <= vp.1 <= s@.len() && spec_parse_string(s@.skip(start as int))
                == Some((vp.0@, s@.skip(vp.1 as int))),
            None => spec_parse_string(s@.skip(start as int)) is None,
        },
{
    let mut pos: usize = start;
    let mut acc: Vec<char> = Vec::new();
    proof {
        assert(acc@ + Seq::<char>::empty() =~= acc@);
    }
    loop
        invariant
            start <= pos <= s@.len(),
            spec_parse_string(s@.skip(start as int)) == prepend_parse(
                acc@,
                spec_parse_string(s@.skip(pos as int)),
            ),
        decreases s@.len() - pos,
    {
        let ghost suf = s@.skip(pos as int);
        if pos == s.len() {
            proof {
                assert(suf.len() == 0);
            }
            return None;
        }
        let c = s[pos];
        proof {
            assert(suf[0] == c);
        }
        if c == '"' {
            proof {
                assert(suf.drop_first() =~= s@.skip(pos + 1));
                assert(acc@ + Seq::<char>::empty() =~= acc@);
            }
            return Some((acc, pos + 1));
        } else if c == '\\' {
            if pos + 1 == s.len() {
                proof {
                    assert(suf.len() < 2);
                }
                return None;
            }
            let c2 = s[pos + 1];
            proof {
                assert(suf[1] == c2);
            }
            match simple_unescape_exec(c2) {
                Some(u) => {
                    let ghost before = acc@;
                    acc.push(u);
                    proof {
                        assert(suf.skip(2) =~= s@.skip(pos + 2));
                        assert(spec_parse_string(suf) == prepend_parse(
                            seq![u],
                            spec_parse_string(s@.skip(pos + 2)),
                        ));
                        lemma_prepend_parse_assoc(
                            before,
                            seq![u],
                            spec_parse_string(s@.skip(pos + 2)),
                        );
                        assert(before + seq![u] =~= acc@);
                    }
                    pos = pos + 2;
                },
                None => {
                    if c2 != 'u' {
                        return None;
                    }
                    if s.len() - pos < 6 {
                        proof {
                            assert(suf.len() < 6);
                        }
                        return None;
                    }
                    proof {
                        assert(suf.len() >= 6);
                        assert(suf[2] == s@[pos + 2]);
                        assert(suf[3] == s@[pos + 3]);
                        assert(suf[4] == s@[pos + 4]);
                        assert(suf[5] == s@[pos + 5]);
                    }
                    if s[pos + 2] != '0' || s[pos + 3] != '0' {
                        return None;
                    }
                    let h1 = match hex_val_exec(s[pos + 4]) {
                        Some(v) => v,
                        None => {
                            return None;
                        },
                    };
                    let h2 = match hex_val_exec(s[pos + 5]) {
                        Some(v) => v,
                        None => {
                            return None;
                        },
                    };
                    let n = h1 * 16 + h2;
                    if !(n < 0x20 || n == 0x7f) {
                        return None;
                    }
                    let u = char_from_u32(n);
                    let ghost before = acc@;
                    acc.push(u);
                    proof {
                        vstd::utf8::char_u32_cast(u, u as u32);
                        assert(u == (n as u32) as char);
                        assert(suf.skip(6) =~= s@.skip(pos + 6));
                        assert(spec_parse_string(suf) == prepend_parse(
                            seq![u],
                            spec_parse_string(s@.skip(pos + 6)),
                        ));
                        lemma_prepend_parse_assoc(
                            before,
                            seq![u],
                            spec_parse_string(s@.skip(pos + 6)),
                        );
                        assert(before + seq![u] =~= acc@);
                    }
                    pos = pos + 6;
                },
            }
        } else if is_plain_char_exec(c) {
            let ghost before = acc@;
            acc.push(c);
            proof {
                assert(suf.drop_first() =~= s@.skip(pos + 1));
                assert(spec_parse_string(suf) == prepend_parse(
                    seq![c],
                    spec_parse_string(s@.skip(pos + 1)),
                ));
                lemma_prepend_parse_assoc(before, seq![c], spec_parse_string(s@.skip(pos + 1)));
                assert(before + seq![c] =~= acc@);
            }
            pos = pos + 1;
        } else {
            return None;
        }
    }
}

/// Check that the characters of `lit` stand at position `start` of `s`, and
/// return the position right after them.
fn match_lit(s: &Vec<char>, start: usize, lit: &str) -> (r: Option<usize>)
    requires
        start <= s@.len(),
    ensures
        match r {
            Some(p) => p == start + lit@.len() && p <= s@.len() && lit@.is_prefix_of(
                s@.skip(start as int),
            ),
            None => !lit@.is_prefix_of(s@.skip(start as int)),
        },
{
    let n = lit.unicode_len();
    if s.len() - start < n {
        proof {
            assert(s@.skip(start as int).len() < lit@.len());
        }
        return None;
    }
    let mut j: usize = 0;
    while j < n
        invariant
            n == lit@.len(),
            start + n <= s@.len(),
            s@.len() <= usize::MAX,
            j <= n,
            forall|k: int| 0 <= k < j ==> lit@[k] == s@.skip(start as int)[k],
        decreases n - j,
    {
        if s[start + j] != lit.get_char(j) {
            proof {
                assert(s@.skip(start as int)[j as int] != lit@[j as int]);
            }
            return None;
        }
        proof {
            assert(s@.skip(start as int)[j as int] == lit@[j as int]);
        }
        j = j + 1;
    }
    proof {
        assert(lit@ =~= s@.skip(start as int).subrange(0, lit@.len() as int));
    }
    Some(start + n)
}

/// Prefix decoded cards onto a card-list parse outcome.
pub open spec fn prepend_cards(pre: Seq<CardV>, o: Option<Seq<CardV>>) -> Option<Seq<CardV>> {
    match o {
        Some(cs) => Some(pre + cs),
        None => None,
    }
}

proof fn lemma_prepend_cards_assoc(a: Seq<CardV>, b: Seq<CardV>, o: Option<Seq<CardV>>)
    ensures
        prepend_cards(a, prepend_cards(b, o)) == prepend_cards(a + b, o),
{
    match o {
        Some(cs) => {
            assert(a + (b + cs) =~= (a + b) + cs);
        },
        None => {},
    }
}

/// Read a whole note file's text: the cards it holds, or nothing when it is
/// not a well-formed note file.
pub fn parse_bucket_text(text: &str) -> (r: Option<Vec<Card>>)
    ensures
        match r {
            Some(cards) => spec_parse_bucket(text@) == Some(cards@.map_values(|c: Card| c@)),
            None => spec_parse_bucket(text@) is None,
        },
{
    let s = crate::text::string_to_chars(text);
    proof {
        assert(s@.skip(0) =~= s@);
        reveal_strlit("version = 1\n");
        assert("version = 1\n"@ =~= version_line());
        reveal_strlit("date = \"");
        assert("date = \""@ =~= date_prefix());
        reveal_strlit("cards = []\n");
        assert("cards = []\n"@ =~= empty_cards_line());
        reveal_strlit("\n[[cards]]\nkey = \"");
        assert("\n[[cards]]\nkey = \""@ =~= card_header());
        reveal_strlit("\ntext = \"");
        assert("\ntext = \""@ =~= text_header());
    }
    let p1 = match match_lit(&s, 0, "version = 1\n") {
        Some(p) => p,
        None => {
            return None;
        },
    };
    let p2 = match match_lit(&s, p1, "date = \"") {
        Some(p) => p,
        None => {
            proof {
                assert(s@.skip(version_line().len() as int) =~= s@.skip(p1 as int));
            }
            return None;
        },
    };
    proof {
        assert(s@.skip(version_line().len() as int) =~= s@.skip(p1 as int));
        assert(s@.skip(p1 as int).skip(date_prefix().len() as int) =~= s@.skip(p2 as int));
    }
    let pd = match parse_string_at(&s, p2) {
        Some(vp) => vp.1,
        None => {
            return None;
        },
    };
    if pd == s.len() {
        proof {
            assert(s@.skip(pd as int).len() == 0);
        }
        return None;
    }
    if s[pd] != '\n' {
        proof {
            assert(s@.skip(pd as int)[0] != '\n');
        }
        return None;
    }
    proof {
        assert(s@.skip(pd as int)[0] == '\n');
    }
    let cstart = pd + 1;
    let ghost s4 = s@.skip(pd as int).drop_first();
    proof {
        assert(s4 =~= s@.skip(cstart as int));
    }
    match match_lit(&s, cstart, "cards = []\n") {
        Some(p) => {
            if p == s.len() {
                let empty: Vec<Card> = Vec::new();
                proof {
                    assert(s4 =~= empty_cards_line());
                    assert(empty@.map_values(|c: Card| c@) =~= Seq::<CardV>::empty());
                }
                return Some(empty);
            }
            proof {
                assert(s4.len() > empty_cards_line().len());
                assert(s4 != empty_cards_line());
            }
        },
        None => {
            proof {
                if s4 == empty_cards_line() {
                    assert(empty_cards_line().is_prefix_of(s4));
                }
            }
        },
    }
    // at least one card block
    let mut acc: Vec<Card> = Vec::new();
    let mut pos: usize = cstart;
    proof {
        assert(acc@.map_values(|c: Card| c@) =~= Seq::<CardV>::empty());
        assert(Seq::<CardV>::empty() + spec_parse_cards(s@.skip(pos as int))->0 =~= spec_parse_cards(
            s@.skip(pos as int),
        )->0);
    }
    loop
        invariant
            cstart <= pos <= s@.len(),
            spec_parse_cards(s@.skip(cstart as int)) == prepend_cards(
                acc@.map_values(|c: Card| c@),
                spec_parse_cards(s@.skip(pos as int)),
            ),
            spec_parse_bucket(text@) == spec_parse_cards(s@.skip(cstart as int)),
            text@ == s@,
        decreases s@.len() - pos,
    {
        let (card, npos) = match parse_card_at(&s, pos) {
            Some(cp) => cp,
            None => {
                return None;
            },
        };
        let ghost cv = card@;
        let ghost before = acc@.map_values(|c: Card| c@);
        acc.push(card);
        proof {
            assert(acc@.map_values(|c: Card| c@) =~= before.push(cv));
            assert(before.push(cv) =~= before + seq![cv]);
        }
        if npos == s.len() {
            proof {
                assert(spec_parse_cards(s@.skip(pos as int)) == Some(seq![cv]));
                assert(before + seq![cv] =~= acc@.map_values(|c: Card| c@));
            }
            return Some(acc);
        }
        proof {
            lemma_prepend_cards_assoc(before, seq![cv], spec_parse_cards(s@.skip(npos as int)));
        }
        pos = npos;
    }
}

/// Read one card block from position `pos` of `s`: the card and the
/// position right after the block's final line break.
fn parse_card_at(s: &Vec<char>, pos: usize) -> (r: Option<(Card, usize)>)
    requires
        pos <= s@.len(),
    ensures
        match r {
            Some(cp) => pos < cp.1 <= s@.len() && (cp.1 == s@.len() ==> spec_parse_cards(
                s@.skip(pos as int),
            ) == Some(seq![cp.0@])) && (cp.1 < s@.len() ==> spec_parse_cards(s@.skip(pos as int))
                == prepend_cards(seq![cp.0@], spec_parse_cards(s@.skip(cp.1 as int)))),
            None => spec_parse_cards(s@.skip(pos as int)) is None,
        },
{
    proof {
        reveal_strlit("\n[[cards]]\nkey = \"");
        assert("\n[[cards]]\nkey = \""@ =~= card_header());
        reveal_strlit("\ntext = \"");
        assert("\ntext = \""@ =~= text_header());
    }
    let phdr = match match_lit(s, pos, "\n[[cards]]\nkey = \"") {
        Some(p) => p,
        None => {
            return None;
        },
    };
    proof {
        assert(s@.skip(pos as int).skip(card_header().len() as int) =~= s@.skip(phdr as int));
    }
    let (key, pk) = match parse_string_at(s, phdr) {
        Some(vp) => vp,
        None => {
            return None;
        },
    };
    let pth = match match_lit(s, pk, "\ntext = \"") {
        Some(p) => p,
        None => {
            return None;
        },
    };
    proof {
        assert(s@.skip(pk as int).skip(text_header().len() as int) =~= s@.skip(pth as int));
    }
    let (txt, pt) = match parse_string_at(s, pth) {
        Some(vp) => vp,
        None => {
            return None;
        },
    };
    if pt == s.len() {
        proof {
            assert(s@.skip(pt as int).len() == 0);
        }
        return None;
    }
    if s[pt] != '\n' {
        proof {
            assert(s@.skip(pt as int)[0] != '\n');
        }
        return None;
    }
    proof {
        assert(s@.skip(pt as int)[0] == '\n');
        assert(s@.skip(pt as int).drop_first() =~= s@.skip(pt + 1));
    }
    let card = Card::new(crate::text::chars_to_string(&key), crate::text::chars_to_string(&txt));
    proof {
        assert(card@ == (CardV { key: key@, text: txt@ }));
        if pt + 1 == s@.len() {
            assert(s@.skip(pt + 1).len() == 0);
            assert(spec_parse_cards(s@.skip(pos as int)) == Some(seq![card@]));
        } else {
            assert(s@.skip(pt + 1).len() > 0);
            assert(spec_parse_cards(s@.skip(pos as int)) == prepend_cards(
                seq![card@],
                spec_parse_cards(s@.skip(pt + 1)),
            ));
        }
    }
    Some((card, pt + 1))
}

/// Build the bucket a note file's text stands for: its cards when the text
/// is well formed, and no cards when the file was missing (no text) or not
/// well formed. The bucket keeps the date it was looked up under.
pub fn load_daily_bucket(date: Date, content: Option<&str>) -> (r: DailyBucket)
    ensures
        r@.version == 1,
        r@.date == date,
        match content {
            Some(t) => match spec_parse_bucket(t@) {
                Some(cs) => r@.cards == cs,
                None => r@.cards == Seq::<CardV>::empty(),
            },
            None => r@.cards == Seq::<CardV>::empty(),
        },
{
    match content {
        Some(t) => {
            match parse_bucket_text(t) {
                Some(cards) => DailyBucket::new(date, cards),
                None => DailyBucket::empty(date),
            }
        },
        None => DailyBucket::empty(date),
    }
}

/// The directory a date's note file sits in: `root/YYYY/YYYY-MM`.
pub open spec fn spec_bucket_dir(root: Seq<char>, d: Date) -> Seq<char> {
    root + seq!['/'] + dec4(d.year as int) + seq!['/'] + dec4(d.year as int) + seq!['-'] + dec2(
        d.month as int,
    )
}

/// The full path of a date's note file: `root/YYYY/YYYY-MM/YYYY-MM-DD.toml`.
pub open spec fn spec_bucket_file(root: Seq<char>, d: Date) -> Seq<char> {
    spec_bucket_dir(root, d) + seq!['/'] + date_chars(d) + seq!['.', 't', 'o', 'm', 'l']
}

/// The directory to create before saving a date's notes.
pub fn bucket_dir(root: &str, d: Date) -> (r: String)
    requires
        d.wf(),
    ensures
        r@ == spec_bucket_dir(root@, d),
{
    let mut out: Vec<char> = Vec::new();
    push_str_chars(&mut out, root);
    out.push('/');
    crate::decimal::push_dec4(&mut out, d.year);
    out.push('/');
    crate::decimal::push_dec4(&mut out, d.year);
    out.push('-');
    crate::decimal::push_dec2(&mut out, d.month);
    proof {
        assert(out@ =~= spec_bucket_dir(root@, d));
    }
    crate::text::chars_to_string(&out)
}

/// The file a date's notes are saved to and loaded from.
pub fn bucket_file(root: &str, d: Date) -> (r: String)
    requires
        d.wf(),
    ensures
        r@ == spec_bucket_file(root@, d),
{
    let dir = bucket_dir(root, d);
    let mut out: Vec<char> = crate::text::string_to_chars(dir.as_str());
    out.push('/');
    crate::decimal::push_dec4(&mut out, d.year);
    out.push('-');
    crate::decimal::push_dec2(&mut out, d.month);
    out.push('-');
    crate::decimal::push_dec2(&mut out, d.day);
    push_str_chars(&mut out, ".toml");
    proof {
        reveal_strlit(".toml");
        assert(".toml"@ =~= seq!['.', 't', 'o', 'm', 'l']);
        assert(out@ =~= spec_bucket_file(root@, d));
    }
    crate::text::chars_to_string(&out)
}

} // verus!
