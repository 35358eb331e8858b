//! Text handling for the tokenizer: trimming whitespace, and cutting a text
//! in two at a byte offset.
//!
//! A text is modelled as its sequence of characters. Offsets count bytes of
//! its UTF-8 encoding, as the offsets of string slices do.

use vstd::prelude::*;
use vstd::utf8::{
    decode_utf8, decode_utf8_split, encode_utf8, encode_utf8_decode_utf8, encode_utf8_valid_utf8,
    is_char_boundary, valid_utf8_split,
};

verus! {

/// Whether `char::is_whitespace` holds of the character, that is whether it
/// has the Unicode property `White_Space`.
pub uninterp spec fn is_whitespace(c: char) -> bool;

/// The text without its leading whitespace.
pub open spec fn trim_start(text: Seq<char>) -> Seq<char>
    decreases text.len(),
{
    if text.len() > 0 && is_whitespace(text.first()) {
        trim_start(text.drop_first())
    } else {
        text
    }
}

/// The text without its trailing whitespace.
pub open spec fn trim_end(text: Seq<char>) -> Seq<char>
    decreases text.len(),
{
    if text.len() > 0 && is_whitespace(text.last()) {
        trim_end(text.drop_last())
    } else {
        text
    }
}

/// The text without its leading and trailing whitespace.
pub open spec fn trimmed(text: Seq<char>) -> Seq<char> {
    trim_end(trim_start(text))
}

/// Calls `str::trim`, which returns the slice of the text that is left when
/// leading and trailing whitespace is removed, whitespace being the
/// characters with the Unicode property `White_Space`. The contract claims
/// exactly that: the kept slice is the text cut back from both ends while
/// the outermost character is whitespace, so it neither begins nor ends
/// with one. Which characters are whitespace is left to `is_whitespace`.
#[verifier::external_body]
pub(crate) fn trim<'a>(text: &'a str) -> (kept: &'a str)
    ensures
        kept@ == trimmed(text@),
        kept@.len() > 0 ==> !is_whitespace(kept@.first()) && !is_whitespace(kept@.last()),
{
    text.trim()
}

/// Trimming never makes a text longer.
pub proof fn lemma_trimmed_len(text: Seq<char>)
    ensures
        trimmed(text).len() <= text.len(),
{
    lemma_trim_start_len(text);
    lemma_trim_end_len(trim_start(text));
}

proof fn lemma_trim_start_len(text: Seq<char>)
    ensures
        trim_start(text).len() <= text.len(),
    decreases text.len(),
{
    if text.len() > 0 && is_whitespace(text.first()) {
        lemma_trim_start_len(text.drop_first());
    }
}

proof fn lemma_trim_end_len(text: Seq<char>)
    ensures
        trim_end(text).len() <= text.len(),
    decreases text.len(),
{
    if text.len() > 0 && is_whitespace(text.last()) {
        lemma_trim_end_len(text.drop_last());
    }
}

proof fn lemma_trim_start_edge(text: Seq<char>)
    ensures
        trim_start(text).len() > 0 ==> !is_whitespace(trim_start(text).first()),
    decreases text.len(),
{
    if text.len() > 0 && is_whitespace(text.first()) {
        lemma_trim_start_edge(text.drop_first());
    }
}

proof fn lemma_trim_end_edge(text: Seq<char>)
    ensures
        trim_end(text) == text.take(trim_end(text).len() as int),
        trim_end(text).len() > 0 ==> !is_whitespace(trim_end(text).last()),
    decreases text.len(),
{
    if text.len() > 0 && is_whitespace(text.last()) {
        lemma_trim_end_edge(text.drop_last());
        lemma_trim_end_len(text.drop_last());
        assert(text.drop_last().take(trim_end(text).len() as int) =~= text.take(
            trim_end(text).len() as int,
        ));
    } else {
        assert(text.take(text.len() as int) =~= text);
    }
}

/// A trimmed text neither begins nor ends with whitespace.
pub proof fn lemma_trimmed_edges(text: Seq<char>)
    ensures
        trimmed(text).len() > 0 ==> !is_whitespace(trimmed(text).first()) && !is_whitespace(
            trimmed(text).last(),
        ),
{
    lemma_trim_start_edge(text);
    lemma_trim_end_edge(trim_start(text));
    lemma_trim_end_len(trim_start(text));
}

/// Whether a byte offset into the UTF-8 encoding of the text falls between
/// two characters, or at either end.
pub open spec fn on_boundary(text: Seq<char>, offset: int) -> bool {
    is_char_boundary(encode_utf8(text), offset)
}

/// The characters encoded before the byte offset.
pub open spec fn text_before(text: Seq<char>, offset: int) -> Seq<char> {
    decode_utf8(encode_utf8(text).subrange(0, offset))
}

/// The characters encoded from the byte offset on.
pub open spec fn text_from(text: Seq<char>, offset: int) -> Seq<char> {
    decode_utf8(encode_utf8(text).subrange(offset, encode_utf8(text).len() as int))
}

/// Cutting a text at a boundary loses nothing, and a cut after the first
/// byte leaves at least one character before it.
pub proof fn lemma_cut(text: Seq<char>, offset: int)
    requires
        on_boundary(text, offset),
    ensures
        text_before(text, offset) + text_from(text, offset) == text,
        offset > 0 ==> text_before(text, offset).len() > 0,
        offset > 0 ==> text_from(text, offset).len() < text.len(),
        0 <= offset <= encode_utf8(text).len(),
{
    let bytes = encode_utf8(text);
    encode_utf8_valid_utf8(text);
    encode_utf8_decode_utf8(text);
    decode_utf8_split(bytes, offset);
    valid_utf8_split(bytes, offset);
    if offset > 0 {
        let head = bytes.subrange(0, offset);
        assert(head.len() > 0);
        assert(decode_utf8(head).len() > 0);
    }
}

/// Cuts a text in two at a byte offset that falls on a character boundary.
pub fn split_text<'a>(text: &'a str, offset: usize) -> (parts: (&'a str, &'a str))
    requires
        on_boundary(text@, offset as int),
    ensures
        parts.0@ == text_before(text@, offset as int),
        parts.1@ == text_from(text@, offset as int),
{
    let parts = text.split_at(offset);
    proof {
        encode_utf8_decode_utf8(parts.0@);
        encode_utf8_decode_utf8(parts.1@);
    }
    parts
}

} // verus!
