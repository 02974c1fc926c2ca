//! The attribute list that may trail a block's body.
//!
//! On the wire an entry is a 16-bit code, a 16-bit length, that many bytes
//! of value and then padding up to the next 32-bit boundary. A list ends
//! at an entry with code zero, or where the input ends.

use crate::error::ParseError;
use crate::wire::{le_u16, le_u16_bytes, le_u16_value, lemma_le_u16_roundtrip, take};
use crate::util::{pad_to_32bits, padding_of};
use vstd::prelude::*;

verus! {

/// The code that ends a list of options.
pub const END_OF_OPTIONS: u16 = 0;

/// One option: its code and its value, borrowed from the input.
#[derive(Debug)]
pub struct Opt<'a> {
    pub code: u16,
    pub value: &'a [u8],
}

/// What an option says, apart from where its bytes live.
pub struct OptView {
    pub code: u16,
    pub value: Seq<u8>,
}

impl<'a> View for Opt<'a> {
    type V = OptView;

    open spec fn view(&self) -> OptView {
        OptView { code: self.code, value: self.value@ }
    }
}

/// The options of one block, in the order in which the wire has them. A
/// code may occur more than once.
#[derive(Debug)]
pub struct Options<'a> {
    pub options: Vec<Opt<'a>>,
}

impl<'a> View for Options<'a> {
    type V = Seq<OptView>;

    open spec fn view(&self) -> Seq<OptView> {
        Seq::new(self.options@.len(), |i: int| self.options@[i]@)
    }
}

/// The code of the entry at the start of `s`.
pub open spec fn entry_code(s: Seq<u8>) -> int
    recommends
        s.len() >= 4,
{
    le_u16_value(s)
}

/// The declared length of the value of the entry at the start of `s`.
pub open spec fn entry_value_len(s: Seq<u8>) -> int
    recommends
        s.len() >= 4,
{
    le_u16_value(s.skip(2))
}

/// The bytes that the entry at the start of `s` takes up: header, value
/// and padding.
pub open spec fn entry_len(s: Seq<u8>) -> int
    recommends
        s.len() >= 4,
{
    4 + entry_value_len(s) + padding_of(entry_value_len(s))
}

/// Whether `s` holds all of the entry that starts it.
pub open spec fn entry_complete(s: Seq<u8>) -> bool {
    s.len() >= 4 && s.len() >= entry_len(s)
}

/// The entry at the start of `s`.
pub open spec fn entry_at(s: Seq<u8>) -> OptView
    recommends
        entry_complete(s),
{
    OptView { code: entry_code(s) as u16, value: s.subrange(4, 4 + entry_value_len(s)) }
}

/// The entries of `s` up to the end of the list, and the bytes after it;
/// `None` where `s` breaks off inside an entry. The entry with code zero
/// ends the list and is not part of it.
pub open spec fn entries_of(s: Seq<u8>) -> Option<(Seq<OptView>, Seq<u8>)>
    decreases s.len(),
{
    if s.len() == 0 {
        Some((Seq::empty(), s))
    } else if !entry_complete(s) {
        None
    } else if entry_code(s) == 0 {
        Some((Seq::empty(), s.skip(entry_len(s))))
    } else {
        match entries_of(s.skip(entry_len(s))) {
            Some((later, rest)) => Some((seq![entry_at(s)] + later, rest)),
            None => None,
        }
    }
}

/// What a trailer decodes to: its options and the bytes after them.
/// `None` where there is no trailer at all, or where it breaks off inside
/// an entry.
pub open spec fn options_of(s: Seq<u8>) -> Option<(Seq<OptView>, Seq<u8>)> {
    if s.len() == 0 {
        None
    } else {
        entries_of(s)
    }
}

/// `found` followed by what `later` holds.
pub open spec fn entries_after(found: Seq<OptView>, later: Option<(Seq<OptView>, Seq<u8>)>) -> Option<
    (Seq<OptView>, Seq<u8>),
> {
    match later {
        Some((more, rest)) => Some((found + more, rest)),
        None => None,
    }
}

/// Decodes the entry at the start of `input`: the bytes after the entry,
/// and the entry. Input that ends before the entry does is `Incomplete`.
pub fn parse_option<'a>(input: &'a [u8]) -> (r: Result<(&'a [u8], Opt<'a>), ParseError>)
    ensures
        entry_complete(input@) ==> r is Ok && r->Ok_0.0@ == input@.skip(entry_len(input@))
            && r->Ok_0.1@ == entry_at(input@),
        !entry_complete(input@) ==> r is Err && r->Err_0 == ParseError::Incomplete,
{
    let (after_code, code) = match le_u16(input) {
        Ok(found) => found,
        Err(e) => { return Err(e); },
    };
    let (after_length, length) = match le_u16(after_code) {
        Ok(found) => found,
        Err(e) => { return Err(e); },
    };
    assert(after_length@ == input@.skip(4));
    let (after_value, value) = match take(after_length, length as usize) {
        Ok(found) => found,
        Err(e) => { return Err(e); },
    };
    let (rest, _padding) = match take(after_value, pad_to_32bits(length as usize)) {
        Ok(found) => found,
        Err(e) => { return Err(e); },
    };
    assert(value@ == input@.subrange(4, 4 + entry_value_len(input@)));
    assert(rest@ == input@.skip(entry_len(input@)));
    Ok((rest, Opt { code, value }))
}

/// Unfolds `entries_of` once at a complete entry that does not end the list.
proof fn lemma_entries_step(found: Seq<OptView>, s: Seq<u8>)
    requires
        entry_complete(s),
        entry_code(s) != 0,
    ensures
        entries_after(found, entries_of(s)) == entries_after(
            found.push(entry_at(s)),
            entries_of(s.skip(entry_len(s))),
        ),
{
    match entries_of(s.skip(entry_len(s))) {
        Some((later, rest)) => {
            assert(found + (seq![entry_at(s)] + later) =~= found.push(entry_at(s)) + later);
        },
        None => {},
    }
}

/// Decodes a trailer: the bytes after the list, and the options in wire
/// order. An empty trailer, and one that breaks off inside an entry, are
/// `Incomplete`.
pub fn parse_options<'a>(input: &'a [u8]) -> (r: Result<(&'a [u8], Options<'a>), ParseError>)
    ensures
        r is Ok <==> input@.len() > 0 && entries_of(input@) is Some,
        match options_of(input@) {
            Some((found, rest)) => r is Ok && r->Ok_0.0@ == rest && r->Ok_0.1@ == found,
            None => r is Err && r->Err_0 == ParseError::Incomplete,
        },
{
    if input.len() == 0 {
        return Err(ParseError::Incomplete);
    }
    let mut options: Vec<Opt<'a>> = Vec::new();
    let mut rest: &'a [u8] = input;
    let ghost mut found: Seq<OptView> = Seq::empty();
    loop
        invariant_except_break
            entries_of(input@) == entries_after(found, entries_of(rest@)),
        invariant
            found == (Options { options })@,
        ensures
            entries_of(input@) == Some((found, rest@)),
        decreases rest@.len(),
    {
        if rest.len() == 0 {
            assert(found + Seq::<OptView>::empty() =~= found);
            break ;
        }
        match parse_option(rest) {
            Ok((after, option)) => {
                if option.code == END_OF_OPTIONS {
                    assert(found + Seq::<OptView>::empty() =~= found);
                    rest = after;
                    break ;
                }
                proof {
                    lemma_entries_step(found, rest@);
                    found = found.push(option@);
                }
                options.push(option);
                rest = after;
                assert((Options { options })@ =~= found);
            },
            Err(e) => {
                return Err(e);
            },
        }
    }
    Ok((rest, Options { options }))
}

/// The bytes of one entry on the wire. `padding` stands for the bytes
/// that align the value, whatever they hold.
pub open spec fn encoded_entry(code: u16, value: Seq<u8>, padding: Seq<u8>) -> Seq<u8>
    recommends
        value.len() <= u16::MAX,
        padding.len() == padding_of(value.len() as int),
{
    le_u16_bytes(code) + le_u16_bytes(value.len() as u16) + value + padding
}

/// The entry that ends a list: code zero, no value.
pub open spec fn end_of_options() -> Seq<u8> {
    encoded_entry(END_OF_OPTIONS, Seq::empty(), Seq::empty())
}

/// An encoded entry, whatever follows it, reads back as the entry that
/// was encoded, and is exactly as long as its encoding.
pub proof fn lemma_entry_reads_back(code: u16, value: Seq<u8>, padding: Seq<u8>, tail: Seq<u8>)
    requires
        value.len() <= u16::MAX,
        padding.len() == padding_of(value.len() as int),
    ensures
        entry_complete(encoded_entry(code, value, padding) + tail),
        entry_len(encoded_entry(code, value, padding) + tail) == encoded_entry(
            code,
            value,
            padding,
        ).len(),
        entry_at(encoded_entry(code, value, padding) + tail) == (OptView { code, value }),
        (encoded_entry(code, value, padding) + tail).skip(
            encoded_entry(code, value, padding).len() as int,
        ) == tail,
{
    let length = value.len() as u16;
    let s = encoded_entry(code, value, padding) + tail;
    lemma_le_u16_roundtrip(code, le_u16_bytes(length) + value + padding + tail);
    lemma_le_u16_roundtrip(length, value + padding + tail);
    assert(s =~= le_u16_bytes(code) + (le_u16_bytes(length) + value + padding + tail));
    assert(s.skip(2) =~= le_u16_bytes(length) + (value + padding + tail));
    assert(s.subrange(4, 4 + value.len() as int) =~= value);
    assert(s.skip(encoded_entry(code, value, padding).len() as int) =~= tail);
}

/// A list of one entry and the entry that ends the list decodes to that
/// one option, value byte for byte, and leaves over what follows.
pub proof fn lemma_one_option_then_end(
    code: u16,
    value: Seq<u8>,
    padding: Seq<u8>,
    tail: Seq<u8>,
)
    requires
        code != END_OF_OPTIONS,
        value.len() <= u16::MAX,
        padding.len() == padding_of(value.len() as int),
    ensures
        options_of(encoded_entry(code, value, padding) + end_of_options() + tail) == Some(
            (seq![OptView { code, value }], tail),
        ),
{
    let entry = encoded_entry(code, value, padding);
    let s = entry + end_of_options() + tail;
    assert(s =~= entry + (end_of_options() + tail));
    lemma_entry_reads_back(code, value, padding, end_of_options() + tail);
    lemma_entry_reads_back(END_OF_OPTIONS, Seq::empty(), Seq::empty(), tail);
    assert(entries_of(end_of_options() + tail) == Some((Seq::<OptView>::empty(), tail)));
    assert(seq![OptView { code, value }] + Seq::<OptView>::empty() =~= seq![
        OptView { code, value },
    ]);
}

/// An entry cut short, by however little, does not decode: neither on its
/// own nor as the first entry of a list.
pub proof fn lemma_truncated_entry(code: u16, value: Seq<u8>, padding: Seq<u8>, kept: int)
    requires
        value.len() <= u16::MAX,
        padding.len() == padding_of(value.len() as int),
        0 <= kept < encoded_entry(code, value, padding).len(),
    ensures
        !entry_complete(encoded_entry(code, value, padding).take(kept)),
        options_of(encoded_entry(code, value, padding).take(kept)) is None,
{
    let entry = encoded_entry(code, value, padding);
    let cut = entry.take(kept);
    lemma_entry_reads_back(code, value, padding, Seq::empty());
    assert(entry + Seq::<u8>::empty() =~= entry);
    if kept >= 4 {
        assert(cut.skip(2)[0] == entry.skip(2)[0]);
        assert(cut.skip(2)[1] == entry.skip(2)[1]);
        assert(entry_value_len(cut) == entry_value_len(entry));
    }
}

} // verus!
