//! Host-side decoding of deferred log records: frames are reassembled from a
//! byte stream, resolved against the interned string table of a firmware
//! image, and rendered into leveled, formatted log entries.

pub mod decimal;
pub mod text;
pub mod template;
pub mod region;
pub mod record;
pub mod framing;
pub mod image;
pub mod rtt;
pub mod wire;

pub use framing::{FrameReassembler, FramingError, ReassemblerState, DEFAULT_CAPACITY};
pub use image::{
    build_string_info, image_symbol_address, is_elf_image, parse_elf_file, parse_log_section,
    parse_log_sections, require_symbol, symbol_address, LoadError, Symbol,
};
pub use record::{parse_received_message, DecodedLogEntry};
pub use region::{color_for_level, get_log_section, InternedStringInfo, LogLevel, LogSection, Rgb};
pub use rtt::{control_block_symbol, mode_flags_address, RttMode, MODE_FLAGS_OFFSET};
pub use template::{format_string, interpolate_chars, DecodeError};
pub use text::{nul_position, read_i32_le, read_u32_le, recover_format_string};
