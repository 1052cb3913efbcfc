//! The record as the firmware writes it, and the law that ties writing to
//! decoding.
//!
//! A record is the little-endian pointer of its format string followed by
//! its arguments: a string as its UTF-8 bytes and a NUL byte, an integer as
//! a little-endian word of 32 bits.

use vstd::prelude::*;
use vstd::utf8::{
    encode_scalar, encode_utf8, encode_utf8_decode_utf8, encode_utf8_valid_utf8,
    has_width_1_encoding, is_scalar,
};
use crate::decimal::{decimal_int, decimal_nat};
use crate::record::{decoded, DecodedLogEntryView};
use crate::region::{classify, InternedStringInfoView};
use crate::template::{argument, interpolate, DecodeFailure};
use crate::text::{after_nul, le_u32, lemma_first_nul_unique, nul_free, until_nul};

verus! {

/// An argument of a log call.
pub enum Argument {
    /// A string, for `%s`.
    Text(Seq<char>),
    /// A signed integer, for `%d`.
    Signed(i32),
    /// An unsigned integer, for `%u`.
    Unsigned(u32),
}

/// The four bytes of `word`, least significant first.
pub open spec fn le_bytes(word: u32) -> Seq<u8> {
    seq![
        (word % 0x100) as u8,
        (word / 0x100 % 0x100) as u8,
        (word / 0x1_0000 % 0x100) as u8,
        (word / 0x100_0000) as u8,
    ]
}

/// The word that holds `value` in two's complement.
pub open spec fn word_of(value: i32) -> u32 {
    if value < 0 {
        (value + 0x1_0000_0000) as u32
    } else {
        value as u32
    }
}

impl Argument {
    /// The character of the directive that reads the argument.
    pub open spec fn directive(self) -> char {
        match self {
            Argument::Text(_) => 's',
            Argument::Signed(_) => 'd',
            Argument::Unsigned(_) => 'u',
        }
    }

    /// The text that stands for the argument in the message.
    pub open spec fn text(self) -> Seq<char> {
        match self {
            Argument::Text(text) => text,
            Argument::Signed(value) => decimal_int(value as int),
            Argument::Unsigned(value) => decimal_nat(value as nat),
        }
    }

    /// The bytes of the argument in a record.
    pub open spec fn encoded(self) -> Seq<u8> {
        match self {
            Argument::Text(text) => encode_utf8(text).push(0),
            Argument::Signed(value) => le_bytes(word_of(value)),
            Argument::Unsigned(value) => le_bytes(value),
        }
    }

    /// Whether the argument can be written: a string must hold no NUL
    /// character, which would end it early.
    pub open spec fn writable(self) -> bool {
        match self {
            Argument::Text(text) => forall|i: int| 0 <= i < text.len() ==> text[i] != '\0',
            _ => true,
        }
    }
}

/// The bytes of `args` in a record, one argument after the other.
pub open spec fn encode_arguments(args: Seq<Argument>) -> Seq<u8>
    decreases args.len(),
{
    if args.len() == 0 {
        Seq::empty()
    } else {
        args[0].encoded() + encode_arguments(args.skip(1))
    }
}

/// The record of a log call: the pointer of its format string and its
/// arguments.
pub open spec fn encode_record(pointer: u32, args: Seq<Argument>) -> Seq<u8> {
    le_bytes(pointer) + encode_arguments(args)
}

/// The message that `format` and `args` compose: each directive of `format`
/// stands for the text of the next argument, which must be of its kind.
/// `None` where a directive finds no argument of its kind.
pub open spec fn compose(format: Seq<char>, args: Seq<Argument>) -> Option<Seq<char>>
    decreases format.len(),
{
    if format.len() == 0 {
        Some(Seq::empty())
    } else if format[0] != '%' {
        match compose(format.skip(1), args) {
            Some(rest) => Some(seq![format[0]] + rest),
            None => None,
        }
    } else if format.len() >= 2 && args.len() >= 1 && format[1] == args[0].directive() {
        match compose(format.skip(2), args.skip(1)) {
            Some(rest) => Some(args[0].text() + rest),
            None => None,
        }
    } else {
        None
    }
}

proof fn lemma_width_1_not_nul(scalar: u32)
    by (bit_vector)
    requires
        scalar != 0,
        scalar <= 0x7F,
    ensures
        (scalar & 0x7F) as u8 != 0,
{
}

proof fn lemma_marked_not_nul(mark: u8, bits: u8)
    by (bit_vector)
    requires
        mark >= 0x80,
    ensures
        mark | bits != 0,
{
}

/// The UTF-8 bytes of a character other than NUL hold no NUL byte.
proof fn lemma_scalar_has_no_nul(c: char)
    requires
        c != '\0',
    ensures
        nul_free(encode_scalar(c as u32)),
{
    let scalar = c as u32;
    assert(is_scalar(scalar));
    if has_width_1_encoding(scalar) {
        lemma_width_1_not_nul(scalar);
    } else {
        lemma_marked_not_nul(0x80, (scalar & 0x3F) as u8);
        lemma_marked_not_nul(0x80, ((scalar >> 6) & 0x3F) as u8);
        lemma_marked_not_nul(0x80, ((scalar >> 12) & 0x3F) as u8);
        lemma_marked_not_nul(0xC0, ((scalar >> 6) & 0x1F) as u8);
        lemma_marked_not_nul(0xE0, ((scalar >> 12) & 0x0F) as u8);
        lemma_marked_not_nul(0xF0, ((scalar >> 18) & 0x7) as u8);
    }
}

/// The UTF-8 bytes of text without NUL characters hold no NUL byte.
pub proof fn lemma_text_has_no_nul(text: Seq<char>)
    requires
        forall|i: int| 0 <= i < text.len() ==> text[i] != '\0',
    ensures
        nul_free(encode_utf8(text)),
    decreases text.len(),
{
    if text.len() > 0 {
        let rest = text.drop_first();
        assert forall|i: int| 0 <= i < rest.len() implies rest[i] != '\0' by {
            assert(rest[i] == text[i + 1]);
        }
        lemma_text_has_no_nul(rest);
        lemma_scalar_has_no_nul(text[0]);
    }
}

/// The word of four bytes written least significant first is read back.
pub proof fn lemma_word_round_trip(word: u32, rest: Seq<u8>)
    ensures
        le_u32(le_bytes(word) + rest) == word,
        (le_bytes(word) + rest).skip(4) == rest,
        (le_bytes(word) + rest).len() >= 4,
{
    let bytes = le_bytes(word) + rest;
    assert(bytes[0] == le_bytes(word)[0]);
    assert(bytes[1] == le_bytes(word)[1]);
    assert(bytes[2] == le_bytes(word)[2]);
    assert(bytes[3] == le_bytes(word)[3]);
}

/// A directive reads back the argument that was written for it, and leaves
/// the bytes behind it.
pub proof fn lemma_argument_round_trip(value: Argument, rest: Seq<u8>)
    requires
        value.writable(),
    ensures
        argument(value.directive(), value.encoded() + rest) == Ok::<
            (Seq<char>, Seq<u8>),
            DecodeFailure,
        >((value.text(), rest)),
{
    let bytes = value.encoded() + rest;
    match value {
        Argument::Text(text) => {
            let run = encode_utf8(text);
            lemma_text_has_no_nul(text);
            assert forall|i: int| 0 <= i < run.len() implies bytes[i] != 0 by {
                assert(bytes[i] == run[i]);
            }
            assert(bytes[run.len() as int] == 0);
            lemma_first_nul_unique(bytes, run.len() as int);
            assert(until_nul(bytes) == run);
            assert(after_nul(bytes) == rest);
            encode_utf8_valid_utf8(text);
            encode_utf8_decode_utf8(text);
        },
        Argument::Signed(number) => {
            lemma_word_round_trip(word_of(number), rest);
        },
        Argument::Unsigned(number) => {
            lemma_word_round_trip(number, rest);
        },
    }
}

/// Writing then reading: the arguments of a log call, written into a record
/// and read back with the format string of the call, give the message that
/// the format string and the arguments compose. Bytes that follow the
/// arguments change nothing.
pub proof fn lemma_round_trip(format: Seq<char>, args: Seq<Argument>, slack: Seq<u8>)
    requires
        compose(format, args) is Some,
        forall|i: int| 0 <= i < args.len() ==> (#[trigger] args[i]).writable(),
    ensures
        interpolate(format, encode_arguments(args) + slack) == Ok::<Seq<char>, DecodeFailure>(
            compose(format, args)->0,
        ),
    decreases format.len(),
{
    let bytes = encode_arguments(args) + slack;
    if format.len() == 0 {
    } else if format[0] != '%' {
        lemma_round_trip(format.skip(1), args, slack);
    } else {
        let rest = encode_arguments(args.skip(1)) + slack;
        assert(bytes == args[0].encoded() + rest);
        lemma_argument_round_trip(args[0], rest);
        assert forall|i: int| 0 <= i < args.skip(1).len() implies (#[trigger] args.skip(
            1,
        )[i]).writable() by {
            assert(args.skip(1)[i] == args[i + 1]);
        }
        lemma_round_trip(format.skip(2), args.skip(1), slack);
    }
}

/// Writing then decoding: a record written for a format string that stands
/// in the string table at `pointer`, ended by a NUL byte or by the end of
/// the table, decodes to the message that the format string and the
/// arguments compose, at the level of the section that `pointer` belongs to.
pub proof fn lemma_record_round_trip(
    info: InternedStringInfoView,
    pointer: u32,
    format: Seq<char>,
    args: Seq<Argument>,
)
    requires
        pointer < info.strings.len(),
        until_nul(info.strings.skip(pointer as int)) == encode_utf8(format),
        compose(format, args) is Some,
        forall|i: int| 0 <= i < args.len() ==> (#[trigger] args[i]).writable(),
    ensures
        decoded(info, encode_record(pointer, args)) == Ok::<DecodedLogEntryView, DecodeFailure>(
            DecodedLogEntryView {
                label: classify(info.log_sections, pointer).label,
                color: classify(info.log_sections, pointer).color,
                message: compose(format, args)->0,
            },
        ),
{
    let frame = encode_record(pointer, args);
    lemma_word_round_trip(pointer, encode_arguments(args));
    encode_utf8_valid_utf8(format);
    encode_utf8_decode_utf8(format);
    lemma_round_trip(format, args, Seq::empty());
    assert(encode_arguments(args) + Seq::<u8>::empty() == encode_arguments(args));
}

} // verus!
