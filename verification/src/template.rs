//! Interpolation of a format string with binary arguments.
//!
//! A format string is text in which `%s`, `%d` and `%u` stand for arguments.
//! The arguments are a byte stream that is read left to right, one argument
//! per directive: a NUL-terminated UTF-8 string for `%s`, a little-endian
//! 32-bit word for `%d` (signed) and `%u` (unsigned).

use vstd::prelude::*;
use vstd::slice::slice_subrange;
use vstd::utf8::{
    decode_first_scalar, decode_utf8, decode_utf8_first_scalar, encode_scalar,
    length_of_first_scalar, pop_first_scalar, take_first_scalar, valid_utf8,
};
use crate::decimal::{decimal_int, decimal_nat, push_decimal_i32, push_decimal_u32};
use crate::text::{
    after_nul, le_i32, le_u32, nul_position, read_i32_le, read_u32_le, string_of_chars,
    until_nul, utf8_chars,
};

verus! {

/// Why a log record could not be decoded. Each error concerns one record
/// only.
#[derive(Debug, PartialEq, Eq)]
pub enum DecodeError {
    /// The frame is shorter than the four bytes of the string pointer.
    TruncatedFrame,
    /// The string pointer does not lie inside the string table.
    PointerOutOfRange,
    /// The format string is not well-formed UTF-8.
    InvalidFormatString,
    /// A string argument is not well-formed UTF-8.
    InvalidArgument,
    /// Fewer than four bytes are left for an integer argument.
    ArgumentUnderrun,
    /// The format string holds a directive that is not known. The text is the
    /// `%` and the character behind it, or the `%` alone where the format
    /// string ends with it.
    UnknownFormatSpecifier(String),
}

/// The mathematical value of a `DecodeError`.
pub enum DecodeFailure {
    TruncatedFrame,
    PointerOutOfRange,
    InvalidFormatString,
    InvalidArgument,
    ArgumentUnderrun,
    UnknownFormatSpecifier(Seq<char>),
}

impl View for DecodeError {
    type V = DecodeFailure;

    open spec fn view(&self) -> DecodeFailure {
        match self {
            DecodeError::TruncatedFrame => DecodeFailure::TruncatedFrame,
            DecodeError::PointerOutOfRange => DecodeFailure::PointerOutOfRange,
            DecodeError::InvalidFormatString => DecodeFailure::InvalidFormatString,
            DecodeError::InvalidArgument => DecodeFailure::InvalidArgument,
            DecodeError::ArgumentUnderrun => DecodeFailure::ArgumentUnderrun,
            DecodeError::UnknownFormatSpecifier(text) => DecodeFailure::UnknownFormatSpecifier(
                text@,
            ),
        }
    }
}

/// `rest` with `prefix` in front of its text; a failure stays as it is.
pub open spec fn prepend(prefix: Seq<char>, rest: Result<Seq<char>, DecodeFailure>) -> Result<
    Seq<char>,
    DecodeFailure,
> {
    match rest {
        Ok(text) => Ok(prefix + text),
        Err(failure) => Err(failure),
    }
}

/// What one directive reads: the text that it writes and the arguments that
/// it leaves, or the failure that it ends in. `directive` is the character
/// behind the `%`.
pub open spec fn argument(directive: char, args: Seq<u8>) -> Result<
    (Seq<char>, Seq<u8>),
    DecodeFailure,
> {
    if directive == 's' {
        if valid_utf8(until_nul(args)) {
            Ok((decode_utf8(until_nul(args)), after_nul(args)))
        } else {
            Err(DecodeFailure::InvalidArgument)
        }
    } else if directive == 'd' {
        if args.len() >= 4 {
            Ok((decimal_int(le_i32(args)), args.skip(4)))
        } else {
            Err(DecodeFailure::ArgumentUnderrun)
        }
    } else if directive == 'u' {
        if args.len() >= 4 {
            Ok((decimal_nat(le_u32(args) as nat), args.skip(4)))
        } else {
            Err(DecodeFailure::ArgumentUnderrun)
        }
    } else {
        Err(DecodeFailure::UnknownFormatSpecifier(seq!['%', directive]))
    }
}

/// The message that `format` gives with the argument stream `args`, or the
/// first failure met when reading `format` from left to right. A character
/// other than `%` stands for itself; a `%` and the character behind it are a
/// directive.
pub open spec fn interpolate(format: Seq<char>, args: Seq<u8>) -> Result<Seq<char>, DecodeFailure>
    decreases format.len(),
{
    if format.len() == 0 {
        Ok(Seq::empty())
    } else if format[0] != '%' {
        prepend(seq![format[0]], interpolate(format.skip(1), args))
    } else if format.len() == 1 {
        Err(DecodeFailure::UnknownFormatSpecifier(seq!['%']))
    } else {
        match argument(format[1], args) {
            Ok((text, rest)) => prepend(text, interpolate(format.skip(2), rest)),
            Err(failure) => Err(failure),
        }
    }
}

/// The message that the bytes of a format string give with the argument
/// stream `args`: the format string is read as UTF-8 and then interpolated.
pub open spec fn formatted(format: Seq<u8>, args: Seq<u8>) -> Result<Seq<char>, DecodeFailure> {
    if valid_utf8(format) {
        interpolate(decode_utf8(format), args)
    } else {
        Err(DecodeFailure::InvalidFormatString)
    }
}

/// The mathematical value of what `format_string` returns.
pub open spec fn message_view(result: Result<String, DecodeError>) -> Result<
    Seq<char>,
    DecodeFailure,
> {
    match result {
        Ok(text) => Ok(text@),
        Err(error) => Err(error@),
    }
}

/// Putting `front` before a message that begins with `text` is putting
/// `front + text` before the rest of it.
proof fn lemma_prepend_twice(
    front: Seq<char>,
    text: Seq<char>,
    tail: Result<Seq<char>, DecodeFailure>,
)
    ensures
        prepend(front, prepend(text, tail)) == prepend(front + text, tail),
{
    if let Ok(more) = tail {
        assert(front + (text + more) == (front + text) + more);
    }
}

/// Reads the argument of one directive from the start of `args` and appends
/// its text to `out`. Gives the number of argument bytes that were read.
fn push_argument(out: &mut Vec<char>, directive: char, args: &[u8]) -> (result: Result<
    usize,
    DecodeError,
>)
    ensures
        match result {
            Ok(used) => {
                &&& used <= args@.len()
                &&& argument(directive, args@) matches Ok((text, rest))
                &&& final(out)@ == old(out)@ + text
                &&& rest == args@.skip(used as int)
            },
            Err(error) => argument(directive, args@) == Err::<(Seq<char>, Seq<u8>), DecodeFailure>(
                error@,
            ),
        },
{
    if directive == 's' {
        let length = nul_position(args);
        let run: &[u8] = slice_subrange(args, 0, length);
        match utf8_chars(run) {
            Some(mut chars) => {
                out.append(&mut chars);
                if length < args.len() {
                    Ok(length + 1)
                } else {
                    assert(args@.skip(length as int) == Seq::<u8>::empty());
                    Ok(length)
                }
            },
            None => Err(DecodeError::InvalidArgument),
        }
    } else if directive == 'd' {
        if args.len() < 4 {
            return Err(DecodeError::ArgumentUnderrun);
        }
        push_decimal_i32(out, read_i32_le(args));
        Ok(4)
    } else if directive == 'u' {
        if args.len() < 4 {
            return Err(DecodeError::ArgumentUnderrun);
        }
        push_decimal_u32(out, read_u32_le(args));
        Ok(4)
    } else {
        let mut specifier: Vec<char> = Vec::new();
        specifier.push('%');
        specifier.push(directive);
        assert(specifier@ == seq!['%', directive]);
        Err(DecodeError::UnknownFormatSpecifier(string_of_chars(specifier.as_slice())))
    }
}

/// Interpolates the characters of a format string with the argument stream
/// `arguments`, reading both from left to right.
pub fn interpolate_chars(format: &[char], arguments: &[u8]) -> (result: Result<
    Vec<char>,
    DecodeError,
>)
    ensures
        match result {
            Ok(text) => interpolate(format@, arguments@) == Ok::<Seq<char>, DecodeFailure>(text@),
            Err(error) => interpolate(format@, arguments@) == Err::<Seq<char>, DecodeFailure>(
                error@,
            ),
        },
{
    let mut out: Vec<char> = Vec::new();
    let mut at: usize = 0;
    let mut cursor: usize = 0;
    proof {
        let whole = interpolate(format@, arguments@);
        assert(format@.skip(0) == format@);
        assert(arguments@.skip(0) == arguments@);
        assert(prepend(out@, whole) == whole) by {
            if let Ok(text) = whole {
                assert(out@ + text == text);
            }
        }
    }
    while at < format.len()
        invariant
            at <= format@.len(),
            cursor <= arguments@.len(),
            interpolate(format@, arguments@) == prepend(
                out@,
                interpolate(format@.skip(at as int), arguments@.skip(cursor as int)),
            ),
        decreases format@.len() - at,
    {
        let ghost front = out@;
        let ghost rest_format = format@.skip(at as int);
        let ghost rest_args = arguments@.skip(cursor as int);
        let c = format[at];
        assert(rest_format[0] == c);
        if c != '%' {
            out.push(c);
            proof {
                assert(rest_format.skip(1) == format@.skip(at + 1));
                lemma_prepend_twice(front, seq![c], interpolate(rest_format.skip(1), rest_args));
                assert(front + seq![c] == out@);
            }
            at += 1;
        } else if at + 1 == format.len() {
            let mut specifier: Vec<char> = Vec::new();
            specifier.push('%');
            assert(specifier@ == seq!['%']);
            return Err(DecodeError::UnknownFormatSpecifier(string_of_chars(specifier.as_slice())));
        } else {
            let directive = format[at + 1];
            assert(rest_format[1] == directive);
            assert(rest_format.skip(2) == format@.skip(at + 2));
            let rest: &[u8] = slice_subrange(arguments, cursor, arguments.len());
            assert(rest@ == rest_args);
            match push_argument(&mut out, directive, rest) {
                Ok(used) => {
                    proof {
                        let text = argument(directive, rest_args)->Ok_0.0;
                        let left = rest_args.skip(used as int);
                        assert(left == arguments@.skip(cursor + used));
                        lemma_prepend_twice(front, text, interpolate(rest_format.skip(2), left));
                    }
                    cursor = cursor + used;
                },
                Err(error) => {
                    return Err(error);
                },
            }
            at += 2;
        }
    }
    assert(out@ + Seq::<char>::empty() == out@);
    Ok(out)
}

/// Whether `text` holds no `%`, and so no directive.
pub open spec fn plain(text: Seq<char>) -> bool {
    forall|i: int| 0 <= i < text.len() ==> text[i] != '%'
}

/// Text without directives in front of a format string is copied as it is,
/// and reads no argument.
pub proof fn lemma_plain_prefix(text: Seq<char>, rest: Seq<char>, args: Seq<u8>)
    requires
        plain(text),
    ensures
        interpolate(text + rest, args) == prepend(text, interpolate(rest, args)),
    decreases text.len(),
{
    let tail = interpolate(rest, args);
    if text.len() == 0 {
        assert(text + rest == rest);
        if let Ok(more) = tail {
            assert(text + more == more);
        }
    } else {
        let whole = text + rest;
        assert(whole[0] == text[0]);
        assert(whole.skip(1) == text.skip(1) + rest);
        assert(plain(text.skip(1))) by {
            assert forall|i: int| 0 <= i < text.skip(1).len() implies text.skip(1)[i] != '%' by {
                assert(text.skip(1)[i] == text[i + 1]);
            }
        }
        lemma_plain_prefix(text.skip(1), rest, args);
        lemma_prepend_twice(seq![text[0]], text.skip(1), tail);
        assert(seq![text[0]] + text.skip(1) == text);
    }
}

/// A format string without directives gives itself as the message, whatever
/// the argument bytes are.
pub proof fn lemma_plain_text_verbatim(format: Seq<char>, args: Seq<u8>)
    requires
        plain(format),
    ensures
        interpolate(format, args) == Ok::<Seq<char>, DecodeFailure>(format),
{
    lemma_plain_prefix(format, Seq::empty(), args);
    assert(format + Seq::<char>::empty() == format);
}

/// The bytes of a format string without directives give its text as the
/// message, whatever the argument bytes are.
pub proof fn lemma_plain_format_verbatim(format: Seq<u8>, args: Seq<u8>)
    requires
        valid_utf8(format),
        plain(decode_utf8(format)),
    ensures
        formatted(format, args) == Ok::<Seq<char>, DecodeFailure>(decode_utf8(format)),
{
    lemma_plain_text_verbatim(decode_utf8(format), args);
}

/// Well-formed UTF-8 without the byte of `%` is text without `%`.
pub proof fn lemma_percent_free(bytes: Seq<u8>)
    requires
        valid_utf8(bytes),
        forall|i: int| 0 <= i < bytes.len() ==> bytes[i] != 0x25,
    ensures
        plain(decode_utf8(bytes)),
    decreases bytes.len(),
{
    if bytes.len() > 0 {
        let rest = pop_first_scalar(bytes);
        let first = decode_first_scalar(bytes);
        assert forall|i: int| 0 <= i < rest.len() implies rest[i] != 0x25 by {
            assert(rest[i] == bytes[i + length_of_first_scalar(bytes)]);
        }
        lemma_percent_free(rest);
        let text = decode_utf8(bytes);
        assert(text == seq![first as char] + decode_utf8(rest));
        assert(first as char != '%') by {
            decode_utf8_first_scalar(bytes);
            if first as char == '%' {
                assert((0x25u32 & 0x7F) as u8 == 0x25) by (bit_vector);
                assert(encode_scalar('%' as u32) == seq![0x25u8]);
                assert(take_first_scalar(bytes)[0] == bytes[0]);
            }
        }
        assert forall|i: int| 0 <= i < text.len() implies text[i] != '%' by {
            if i > 0 {
                assert(text[i] == decode_utf8(rest)[i - 1]);
            }
        }
    }
}

/// The bytes of a format string that hold no `%` give the text that they
/// write as the message, whatever the argument bytes are.
pub proof fn lemma_percent_free_format_verbatim(format: Seq<u8>, args: Seq<u8>)
    requires
        valid_utf8(format),
        forall|i: int| 0 <= i < format.len() ==> format[i] != 0x25,
    ensures
        formatted(format, args) == Ok::<Seq<char>, DecodeFailure>(decode_utf8(format)),
{
    lemma_percent_free(format);
    lemma_plain_format_verbatim(format, args);
}

/// A directive that is not known, met before any other directive, ends the
/// message in the failure that names it, whatever follows it and whatever
/// the argument bytes are.
pub proof fn lemma_unknown_specifier(
    text: Seq<char>,
    directive: char,
    rest: Seq<char>,
    args: Seq<u8>,
)
    requires
        plain(text),
        directive != 's',
        directive != 'd',
        directive != 'u',
    ensures
        interpolate(text + seq!['%', directive] + rest, args) == Err::<Seq<char>, DecodeFailure>(
            DecodeFailure::UnknownFormatSpecifier(seq!['%', directive]),
        ),
{
    let tail = seq!['%', directive] + rest;
    assert(tail[0] == '%');
    assert(tail[1] == directive);
    assert(text + seq!['%', directive] + rest == text + tail);
    lemma_plain_prefix(text, tail, args);
}

/// Formats a log message: `format` holds the UTF-8 bytes of the format
/// string and `arguments` the bytes that follow the string pointer in the
/// record. Argument bytes that no directive reads are ignored.
pub fn format_string(format: &[u8], arguments: &[u8]) -> (result: Result<String, DecodeError>)
    ensures
        message_view(result) == formatted(format@, arguments@),
{
    match utf8_chars(format) {
        None => Err(DecodeError::InvalidFormatString),
        Some(chars) => match interpolate_chars(chars.as_slice(), arguments) {
            Ok(text) => Ok(string_of_chars(text.as_slice())),
            Err(error) => Err(error),
        },
    }
}

} // verus!
