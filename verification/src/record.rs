//! Decoding of one log record: a little-endian pointer into the string table
//! followed by the arguments of the format string found there.

use vstd::prelude::*;
use vstd::slice::slice_subrange;
use crate::region::{
    classify, get_log_section, InternedStringInfo, InternedStringInfoView, Rgb,
};
use crate::template::{format_string, formatted, DecodeError, DecodeFailure};
use crate::text::{le_u32, read_u32_le, recover_format_string, until_nul};

verus! {

/// A decoded log entry: the name and color of its level and its message.
#[derive(Debug, PartialEq, Eq)]
pub struct DecodedLogEntry {
    pub label: String,
    pub color: Rgb,
    pub message: String,
}

/// The mathematical value of a `DecodedLogEntry`.
pub struct DecodedLogEntryView {
    pub label: Seq<char>,
    pub color: Rgb,
    pub message: Seq<char>,
}

impl View for DecodedLogEntry {
    type V = DecodedLogEntryView;

    open spec fn view(&self) -> DecodedLogEntryView {
        DecodedLogEntryView { label: self.label@, color: self.color, message: self.message@ }
    }
}

/// The entry that the record `frame` stands for. The first four bytes of the
/// record are a pointer, which is an offset into the string table; the format
/// string starts there and ends before the next NUL byte, or with the table.
/// The level is that of the section which the pointer belongs to.
pub open spec fn decoded(info: InternedStringInfoView, frame: Seq<u8>) -> Result<
    DecodedLogEntryView,
    DecodeFailure,
> {
    if frame.len() < 4 {
        Err(DecodeFailure::TruncatedFrame)
    } else if le_u32(frame) >= info.strings.len() {
        Err(DecodeFailure::PointerOutOfRange)
    } else {
        match formatted(until_nul(info.strings.skip(le_u32(frame))), frame.skip(4)) {
            Ok(message) => {
                let section = classify(info.log_sections, le_u32(frame) as u32);
                Ok(DecodedLogEntryView { label: section.label, color: section.color, message })
            },
            Err(failure) => Err(failure),
        }
    }
}

/// The mathematical value of what `parse_received_message` returns.
pub open spec fn entry_view(result: Result<DecodedLogEntry, DecodeError>) -> Result<
    DecodedLogEntryView,
    DecodeFailure,
> {
    match result {
        Ok(entry) => Ok(entry@),
        Err(error) => Err(error@),
    }
}

/// A record whose pointer is the length of the string table or more gives
/// `PointerOutOfRange`, and so no entry and no part of a message.
pub proof fn lemma_pointer_out_of_range(info: InternedStringInfoView, frame: Seq<u8>)
    requires
        frame.len() >= 4,
        le_u32(frame) >= info.strings.len(),
    ensures
        decoded(info, frame) == Err::<DecodedLogEntryView, DecodeFailure>(
            DecodeFailure::PointerOutOfRange,
        ),
{
}

/// Decodes one record against the string table and the level ranges of the
/// firmware image.
pub fn parse_received_message(
    interned_string_info: &InternedStringInfo,
    message: &[u8],
) -> (result: Result<DecodedLogEntry, DecodeError>)
    ensures
        entry_view(result) == decoded(interned_string_info@, message@),
{
    if message.len() < 4 {
        return Err(DecodeError::TruncatedFrame);
    }
    let str_ptr = read_u32_le(message);
    let strings = interned_string_info.strings.as_slice();
    if str_ptr as usize >= strings.len() {
        return Err(DecodeError::PointerOutOfRange);
    }
    let mappings = slice_subrange(strings, str_ptr as usize, strings.len());
    let format = recover_format_string(mappings);
    let arguments = slice_subrange(message, 4, message.len());
    match format_string(format, arguments) {
        Ok(formatted_str) => {
            let log_section = get_log_section(interned_string_info, str_ptr);
            Ok(
                DecodedLogEntry {
                    label: log_section.label,
                    color: log_section.color,
                    message: formatted_str,
                },
            )
        },
        Err(error) => Err(error),
    }
}

} // verus!
