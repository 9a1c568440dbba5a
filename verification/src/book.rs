//! Opening-book records. A book is a text with one record to a line: an
//! opening's code, its name and its moves, separated by commas. A comma
//! between double quotes separates nothing, and the quotes themselves are
//! no part of a field.

use crate::text::{chars_of, string_of, strip, stripped, trimmed, belongs, is_whitespace, CharClass};
use vstd::prelude::*;
use vstd::utf8::encode_utf8;

verus! {

/// A field as it is kept: without double quotes at its ends, then without
/// white space at its ends.
pub open spec fn cleaned(field: Seq<char>) -> Seq<char> {
    trimmed(stripped(field, CharClass::Quote, true, true))
}

/// The fields of a line from its `i`-th byte on, where `current` holds what
/// has been read of the field at hand and `in_quotes` says whether a quote
/// is open.
///
/// A double quote opens or closes a quotation and is dropped. A comma
/// outside a quotation ends the field. Every other byte joins the field as
/// the character with its number.
pub open spec fn fields_from(bytes: Seq<u8>, i: int, in_quotes: bool, current: Seq<char>) -> Seq<
    Seq<char>,
>
    decreases bytes.len() - i,
{
    if i < 0 || i >= bytes.len() {
        seq![cleaned(current)]
    } else if bytes[i] == 34 {
        fields_from(bytes, i + 1, !in_quotes, current)
    } else if bytes[i] == 44 && !in_quotes {
        seq![cleaned(current)] + fields_from(bytes, i + 1, in_quotes, Seq::empty())
    } else {
        fields_from(bytes, i + 1, in_quotes, current.push(bytes[i] as char))
    }
}

/// The word at hand, if there is one.
pub open spec fn word_if_any(current: Seq<char>) -> Seq<Seq<char>> {
    if current.len() > 0 {
        seq![current]
    } else {
        Seq::empty()
    }
}

/// The words of a text from its `i`-th character on: the runs of
/// characters that are not white space. `current` holds what has been read
/// of the word at hand.
pub open spec fn words_from(text: Seq<char>, i: int, current: Seq<char>) -> Seq<Seq<char>>
    decreases text.len() - i,
{
    if i < 0 || i >= text.len() {
        word_if_any(current)
    } else if is_whitespace(text[i]) {
        word_if_any(current) + words_from(text, i + 1, Seq::empty())
    } else {
        words_from(text, i + 1, current.push(text[i]))
    }
}

/// Whether a word is a move number: it begins with a decimal digit and
/// ends with a full stop.
pub open spec fn is_move_number(word: Seq<char>) -> bool {
    word.len() > 0 && '0' <= word[0] <= '9' && word.last() == '.'
}

/// The test that keeps a word of the move list.
pub open spec fn is_move_word() -> spec_fn(Seq<char>) -> bool {
    |word: Seq<char>| !is_move_number(word)
}

/// The moves in a move list: its words without the move numbers.
pub open spec fn move_words(field: Seq<char>) -> Seq<Seq<char>> {
    words_from(field, 0, Seq::empty()).filter(is_move_word())
}

/// A record: code, name and moves.
pub struct Record {
    pub eco: Seq<char>,
    pub name: Seq<char>,
    pub moves: Seq<Seq<char>>,
}

/// The record that a line holds.
///
/// The line is trimmed and, if anything is left, split into fields byte by
/// byte. A line with fewer than three fields holds no record. Fields after
/// the third are ignored.
pub open spec fn record_of(line: Seq<char>) -> Option<Record> {
    let fields = fields_from(encode_utf8(trimmed(line)), 0, false, Seq::empty());
    if trimmed(line).len() == 0 || fields.len() < 3 {
        None
    } else {
        Some(Record { eco: fields[0], name: fields[1], moves: move_words(fields[2]) })
    }
}

/// The views of a vector of character vectors.
pub open spec fn views_of(texts: Seq<Vec<char>>) -> Seq<Seq<char>> {
    Seq::new(texts.len(), |k: int| texts[k]@)
}

/// The views of a vector of strings.
pub open spec fn texts_of(strings: Seq<String>) -> Seq<Seq<char>> {
    Seq::new(strings.len(), |k: int| strings[k]@)
}

fn clean_field(field: &Vec<char>) -> (kept: Vec<char>)
    ensures
        kept@ == cleaned(field@),
{
    let unquoted = strip(field, CharClass::Quote, true, true);
    strip(&unquoted, CharClass::Whitespace, true, true)
}

fn split_fields(bytes: &[u8]) -> (fields: Vec<Vec<char>>)
    ensures
        views_of(fields@) == fields_from(bytes@, 0, false, Seq::empty()),
{
    let mut fields: Vec<Vec<char>> = Vec::new();
    let mut current: Vec<char> = Vec::new();
    let mut in_quotes: bool = false;
    let mut i: usize = 0;
    while i < bytes.len()
        invariant
            i <= bytes.len(),
            views_of(fields@) + fields_from(bytes@, i as int, in_quotes, current@) == fields_from(
                bytes@,
                0,
                false,
                Seq::empty(),
            ),
        decreases bytes.len() - i,
    {
        let b: u8 = bytes[i];
        if b == 34 {
            in_quotes = !in_quotes;
        } else if b == 44 && !in_quotes {
            let ghost before = views_of(fields@);
            fields.push(clean_field(&current));
            proof {
                assert(before + (seq![cleaned(current@)] + fields_from(
                    bytes@,
                    i + 1,
                    in_quotes,
                    Seq::empty(),
                )) == before + seq![cleaned(current@)] + fields_from(
                    bytes@,
                    i + 1,
                    in_quotes,
                    Seq::empty(),
                ));
            }
            current = Vec::new();
        } else {
            current.push(b as char);
        }
        i += 1;
    }
    fields.push(clean_field(&current));
    fields
}

fn split_words(text: &Vec<char>) -> (words: Vec<Vec<char>>)
    ensures
        views_of(words@) == words_from(text@, 0, Seq::empty()),
{
    let mut words: Vec<Vec<char>> = Vec::new();
    let mut current: Vec<char> = Vec::new();
    let mut i: usize = 0;
    while i < text.len()
        invariant
            i <= text.len(),
            views_of(words@) + words_from(text@, i as int, current@) == words_from(
                text@,
                0,
                Seq::empty(),
            ),
        decreases text.len() - i,
    {
        let c: char = text[i];
        if belongs(c, CharClass::Whitespace) {
            if current.len() > 0 {
                words.push(current);
                current = Vec::new();
            } else {
                assert(current@ == Seq::<char>::empty());
            }
        } else {
            current.push(c);
        }
        i += 1;
    }
    if current.len() > 0 {
        words.push(current);
    }
    words
}

fn is_number_word(word: &Vec<char>) -> (number: bool)
    ensures
        number == is_move_number(word@),
{
    let n: usize = word.len();
    n > 0 && '0' <= word[0] && word[0] <= '9' && word[n - 1] == '.'
}

/// The moves of a move list, as strings.
fn moves_in(field: &Vec<char>) -> (moves: Vec<String>)
    ensures
        texts_of(moves@) == move_words(field@),
{
    let words = split_words(field);
    let ghost all = words_from(field@, 0, Seq::empty());
    let mut moves: Vec<String> = Vec::new();
    let mut i: usize = 0;
    while i < words.len()
        invariant
            i <= words.len(),
            views_of(words@) == all,
            texts_of(moves@) == all.take(i as int).filter(is_move_word()),
        decreases words.len() - i,
    {
        proof {
            assert(all.take(i + 1) == all.take(i as int).push(words[i as int]@));
            all.take(i as int).lemma_filter_push(words[i as int]@, is_move_word());
        }
        if !is_number_word(&words[i]) {
            moves.push(string_of(&words[i]));
        }
        i += 1;
    }
    proof {
        assert(all.take(words.len() as int) == all);
    }
    moves
}

/// Reads one line of an opening book.
///
/// Returns the code, the name and the moves of the record on the line, or
/// nothing for a line that is blank or has fewer than three fields.
pub fn parse_csv_line(line: &str) -> (record: Option<(String, String, Vec<String>)>)
    ensures
        match record {
            Some((eco, name, moves)) => record_of(line@) == Some(
                Record { eco: eco@, name: name@, moves: texts_of(moves@) },
            ),
            None => record_of(line@) is None,
        },
{
    let chars = chars_of(line);
    let bare = strip(&chars, CharClass::Whitespace, true, true);
    if bare.len() == 0 {
        return None;
    }
    let bare_text = string_of(&bare);
    let fields = split_fields(bare_text.as_str().as_bytes());
    if fields.len() >= 3 {
        let eco = string_of(&fields[0]);
        let name = string_of(&fields[1]);
        let moves = moves_in(&fields[2]);
        Some((eco, name, moves))
    } else {
        None
    }
}

} // verus!
