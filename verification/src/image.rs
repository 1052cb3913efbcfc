//! The string table and the level ranges of a firmware image.
//!
//! The image holds the interned strings in the section `.interned_strings`.
//! For each log level `L` the symbols `__InternedLStart` and `__InternedLEnd`
//! bound the addresses of the strings of that level.

use object::read::{Object, ObjectSection, ObjectSymbol};
use vstd::prelude::*;
use vstd::string::*;
use crate::region::{
    color_for_level, level_color, level_label, section_views, InternedStringInfo,
    InternedStringInfoView, LogLevel, LogSection, LogSectionView, Rgb,
};

verus! {

/// A symbol of a firmware image. A symbol whose name cannot be read has none.
#[derive(Debug, PartialEq, Eq)]
pub struct Symbol {
    pub name: Option<String>,
    pub address: u64,
}

/// The mathematical value of a `Symbol`: its name and its address.
pub type SymbolView = (Option<Seq<char>>, u64);

impl View for Symbol {
    type V = SymbolView;

    open spec fn view(&self) -> SymbolView {
        (
            match self.name {
                Some(name) => Some(name@),
                None => None,
            },
            self.address,
        )
    }
}

/// The values of a list of symbols.
pub open spec fn symbol_views(symbols: Seq<Symbol>) -> Seq<SymbolView> {
    Seq::new(symbols.len(), |i: int| symbols[i]@)
}

/// Why a firmware image gives no string table.
#[derive(Debug, PartialEq, Eq)]
pub enum LoadError {
    /// The bytes are not an ELF file.
    InvalidImage,
    /// The image has no section of interned strings.
    MissingSection,
    /// The image lacks the symbol of this name.
    MissingSymbol(String),
}

/// The mathematical value of a `LoadError`.
pub enum LoadFailure {
    InvalidImage,
    MissingSection,
    MissingSymbol(Seq<char>),
}

impl View for LoadError {
    type V = LoadFailure;

    open spec fn view(&self) -> LoadFailure {
        match self {
            LoadError::InvalidImage => LoadFailure::InvalidImage,
            LoadError::MissingSection => LoadFailure::MissingSection,
            LoadError::MissingSymbol(name) => LoadFailure::MissingSymbol(name@),
        }
    }
}

/// Whether `image` begins with the four bytes that mark an ELF file.
pub open spec fn has_elf_magic(image: Seq<u8>) -> bool {
    &&& image.len() >= 4
    &&& image[0] == 0x7F
    &&& image[1] == 0x45
    &&& image[2] == 0x4C
    &&& image[3] == 0x46
}

/// Lists the symbols of the ELF file `image` with `object::File::parse` and
/// `Object::symbols`: each symbol with its address, and with its name where
/// `ObjectSymbol::name` can read it; `None` where the crate rejects the
/// image. Trusted: the call returns. Nothing is claimed of what it returns,
/// which may differ between two calls on the same bytes: the crate rejects
/// some images by where they lie in memory. Only bytes that begin with the
/// ELF mark are admitted: on those the crate picks its ELF reader, or rejects
/// them.
#[verifier::external_body]
pub(crate) fn read_symbols(image: &[u8]) -> (symbols: Option<Vec<Symbol>>)
    requires
        has_elf_magic(image@),
{
    match object::File::parse(image) {
        Ok(file) => Some(
            file.symbols().map(
                |s| Symbol { name: s.name().ok().map(String::from), address: s.address() },
            ).collect(),
        ),
        Err(_) => None,
    }
}

/// Copies the section called `name` out of the ELF file `image` with
/// `object::File::parse`, `Object::section_by_name` and `ObjectSection::data`;
/// `None` where the crate rejects the image, finds no such section or cannot
/// read it. Trusted: the call returns. Nothing is claimed of what it
/// returns. Only bytes that begin with the ELF mark are admitted.
#[verifier::external_body]
pub(crate) fn read_section(image: &[u8], name: &str) -> (contents: Option<Vec<u8>>)
    requires
        has_elf_magic(image@),
{
    match object::File::parse(image) {
        Ok(file) => match file.section_by_name(name) {
            Some(section) => section.data().ok().map(|bytes| bytes.to_vec()),
            None => None,
        },
        Err(_) => None,
    }
}

/// The name of the symbol at which the strings of the level called
/// `section` start.
pub open spec fn start_symbol_name(section: Seq<char>) -> Seq<char> {
    "__Interned"@ + section + "Start"@
}

/// The name of the symbol at which the strings of the level called
/// `section` end.
pub open spec fn end_symbol_name(section: Seq<char>) -> Seq<char> {
    "__Interned"@ + section + "End"@
}

/// The index of the first symbol called `name`, or the number of symbols
/// when there is none.
pub open spec fn first_named(symbols: Seq<SymbolView>, name: Seq<char>) -> int
    decreases symbols.len(),
{
    if symbols.len() == 0 || symbols[0].0 == Some(name) {
        0
    } else {
        1 + first_named(symbols.skip(1), name)
    }
}

/// The address of the first symbol called `name`, if there is one.
pub open spec fn address_of(symbols: Seq<SymbolView>, name: Seq<char>) -> Option<u64> {
    if first_named(symbols, name) < symbols.len() {
        Some(symbols[first_named(symbols, name)].1)
    } else {
        None
    }
}

/// `first_named` lies within the list, no symbol before it has the name, and
/// the symbol at it has the name unless it is the length.
pub proof fn lemma_first_named(symbols: Seq<SymbolView>, name: Seq<char>)
    ensures
        0 <= first_named(symbols, name) <= symbols.len(),
        forall|i: int|
            0 <= i < first_named(symbols, name) ==> (#[trigger] symbols[i]).0 != Some(name),
        first_named(symbols, name) < symbols.len() ==> symbols[first_named(symbols, name)].0
            == Some(name),
    decreases symbols.len(),
{
    if symbols.len() == 0 || symbols[0].0 == Some(name) {
    } else {
        let rest = symbols.skip(1);
        lemma_first_named(rest, name);
        assert forall|i: int| 0 <= i < first_named(symbols, name) implies (
        #[trigger] symbols[i]).0 != Some(name) by {
            if i > 0 {
                assert(symbols[i] == rest[i - 1]);
            }
        }
        assert(first_named(symbols, name) < symbols.len() ==> symbols[first_named(symbols, name)]
            == rest[first_named(rest, name)]);
    }
}

/// An index with the properties of `first_named` is `first_named`.
pub proof fn lemma_first_named_unique(symbols: Seq<SymbolView>, name: Seq<char>, k: int)
    requires
        0 <= k <= symbols.len(),
        forall|i: int| 0 <= i < k ==> (#[trigger] symbols[i]).0 != Some(name),
        k < symbols.len() ==> symbols[k].0 == Some(name),
    ensures
        first_named(symbols, name) == k,
    decreases symbols.len(),
{
    if symbols.len() == 0 || symbols[0].0 == Some(name) {
    } else {
        let rest = symbols.skip(1);
        assert forall|i: int| 0 <= i < k - 1 implies (#[trigger] rest[i]).0 != Some(name) by {
            assert(rest[i] == symbols[i + 1]);
        }
        lemma_first_named_unique(rest, name, k - 1);
    }
}

/// The address of the first symbol called `name`, or the failure that names
/// the symbol.
pub open spec fn required_address(symbols: Seq<SymbolView>, name: Seq<char>) -> Result<
    u64,
    LoadFailure,
> {
    match address_of(symbols, name) {
        Some(address) => Ok(address),
        None => Err(LoadFailure::MissingSymbol(name)),
    }
}

/// Whether `outcome` may be what looking for the symbol called `name` in
/// `image` gives. Bytes that do not begin with the ELF mark are an invalid
/// image. Of bytes that do, the reader decides: it may reject them, or hand
/// out symbols, among which the first of that name is looked for.
pub open spec fn may_locate(
    image: Seq<u8>,
    name: Seq<char>,
    outcome: Result<u64, LoadFailure>,
) -> bool {
    if has_elf_magic(image) {
        ||| outcome == Err::<u64, LoadFailure>(LoadFailure::InvalidImage)
        ||| exists|symbols: Seq<SymbolView>| outcome == #[trigger] required_address(symbols, name)
    } else {
        outcome == Err::<u64, LoadFailure>(LoadFailure::InvalidImage)
    }
}

/// The mathematical value of what `require_symbol` returns.
pub open spec fn address_result_view(result: Result<u64, LoadError>) -> Result<u64, LoadFailure> {
    match result {
        Ok(address) => Ok(address),
        Err(error) => Err(error@),
    }
}

/// The low 32 bits of an address.
pub open spec fn low_word(address: u64) -> u32 {
    (address % 0x1_0000_0000) as u32
}

/// The section of the level called `section`, from the two symbols that
/// bound it. Where both are missing the failure names the start symbol.
pub open spec fn log_section_of(symbols: Seq<SymbolView>, section: Seq<char>, color: Rgb) -> Result<
    LogSectionView,
    LoadFailure,
> {
    match required_address(symbols, start_symbol_name(section)) {
        Err(failure) => Err(failure),
        Ok(start) => match required_address(symbols, end_symbol_name(section)) {
            Err(failure) => Err(failure),
            Ok(end) => Ok(
                LogSectionView {
                    label: section,
                    color,
                    start: low_word(start),
                    end: low_word(end),
                },
            ),
        },
    }
}

/// The sections of `levels`, in their order, or the failure of the first
/// level that has none.
pub open spec fn log_sections_of(symbols: Seq<SymbolView>, levels: Seq<LogLevel>) -> Result<
    Seq<LogSectionView>,
    LoadFailure,
>
    decreases levels.len(),
{
    if levels.len() == 0 {
        Ok(Seq::empty())
    } else {
        match log_sections_of(symbols, levels.drop_last()) {
            Err(failure) => Err(failure),
            Ok(sections) => match log_section_of(
                symbols,
                level_label(levels.last()),
                level_color(levels.last()),
            ) {
                Err(failure) => Err(failure),
                Ok(section) => Ok(sections.push(section)),
            },
        }
    }
}

/// The string table and level ranges that the parts of an image give: the
/// contents of its string section, if it has one, and its symbols.
pub open spec fn string_info_of(
    strings: Option<Seq<u8>>,
    symbols: Seq<SymbolView>,
    levels: Seq<LogLevel>,
) -> Result<InternedStringInfoView, LoadFailure> {
    match strings {
        None => Err(LoadFailure::MissingSection),
        Some(strings) => match log_sections_of(symbols, levels) {
            Err(failure) => Err(failure),
            Ok(log_sections) => Ok(InternedStringInfoView { strings, log_sections }),
        },
    }
}

/// Whether `outcome` may be what loading `image` gives. Bytes that do not
/// begin with the ELF mark are an invalid image. Of bytes that do, the reader
/// decides: it may reject them, or hand out symbols and, where there is one,
/// the string section, from which the table and the ranges of `levels` are
/// built.
pub open spec fn may_load(
    image: Seq<u8>,
    levels: Seq<LogLevel>,
    outcome: Result<InternedStringInfoView, LoadFailure>,
) -> bool {
    if has_elf_magic(image) {
        ||| outcome == Err::<InternedStringInfoView, LoadFailure>(LoadFailure::InvalidImage)
        ||| exists|strings: Option<Seq<u8>>, symbols: Seq<SymbolView>|
            outcome == #[trigger] string_info_of(strings, symbols, levels)
    } else {
        outcome == Err::<InternedStringInfoView, LoadFailure>(LoadFailure::InvalidImage)
    }
}

/// The mathematical value of the contents of a section, where there is one.
pub open spec fn contents_view(contents: Option<Vec<u8>>) -> Option<Seq<u8>> {
    match contents {
        Some(bytes) => Some(bytes@),
        None => None,
    }
}

/// The mathematical value of what `parse_log_section` returns.
pub open spec fn section_result_view(result: Result<LogSection, LoadError>) -> Result<
    LogSectionView,
    LoadFailure,
> {
    match result {
        Ok(section) => Ok(section@),
        Err(error) => Err(error@),
    }
}

/// The mathematical value of what `parse_elf_file` returns.
pub open spec fn info_result_view(result: Result<InternedStringInfo, LoadError>) -> Result<
    InternedStringInfoView,
    LoadFailure,
> {
    match result {
        Ok(info) => Ok(info@),
        Err(error) => Err(error@),
    }
}

/// The low 32 bits of `address`.
pub fn address_low_word(address: u64) -> (word: u32)
    ensures
        word == low_word(address),
{
    (address % 0x1_0000_0000) as u32
}

/// Finds the address of the first symbol called `name`.
pub fn symbol_address(symbols: &[Symbol], name: &str) -> (address: Option<u64>)
    ensures
        address == address_of(symbol_views(symbols@), name@),
{
    let wanted = String::from_str(name);
    let ghost views = symbol_views(symbols@);
    let mut at: usize = 0;
    while at < symbols.len()
        invariant
            at <= symbols@.len(),
            views == symbol_views(symbols@),
            wanted@ == name@,
            forall|i: int| 0 <= i < at ==> (#[trigger] views[i]).0 != Some(name@),
        decreases symbols@.len() - at,
    {
        let symbol = &symbols[at];
        assert(views[at as int] == symbol@);
        let found = match &symbol.name {
            Some(text) => *text == wanted,
            None => false,
        };
        if found {
            proof {
                lemma_first_named_unique(views, name@, at as int);
            }
            return Some(symbol.address);
        }
        at += 1;
    }
    proof {
        lemma_first_named_unique(views, name@, at as int);
    }
    None
}

/// Finds the address of the first symbol called `name`; where there is
/// none, the error names the symbol.
pub fn require_symbol(symbols: &[Symbol], name: &str) -> (result: Result<u64, LoadError>)
    ensures
        address_result_view(result) == required_address(symbol_views(symbols@), name@),
{
    match symbol_address(symbols, name) {
        Some(address) => Ok(address),
        None => Err(LoadError::MissingSymbol(String::from_str(name))),
    }
}

/// Tells whether `image` begins with the four bytes that mark an ELF file.
pub fn is_elf_image(image: &[u8]) -> (marked: bool)
    ensures
        marked == has_elf_magic(image@),
{
    image.len() >= 4 && image[0] == 0x7F && image[1] == 0x45 && image[2] == 0x4C && image[3]
        == 0x46
}

/// Finds the address of the first symbol called `name` in the ELF file
/// `image`. Bytes without the ELF mark give `InvalidImage`; for the others
/// the result is `InvalidImage` or what `require_symbol` gives on the symbols
/// that were read.
pub fn image_symbol_address(image: &[u8], name: &str) -> (result: Result<u64, LoadError>)
    ensures
        may_locate(image@, name@, address_result_view(result)),
{
    if !is_elf_image(image) {
        return Err(LoadError::InvalidImage);
    }
    match read_symbols(image) {
        None => Err(LoadError::InvalidImage),
        Some(symbols) => {
            let result = require_symbol(symbols.as_slice(), name);
            assert(address_result_view(result) == required_address(
                symbol_views(symbols@),
                name@,
            ));
            result
        },
    }
}

/// Builds the section of the level called `section` from the two symbols
/// that bound it.
pub fn parse_log_section(symbols: &[Symbol], section: &str, color: Rgb) -> (result: Result<
    LogSection,
    LoadError,
>)
    ensures
        section_result_view(result) == log_section_of(symbol_views(symbols@), section@, color),
{
    let mut start_symbol_name = String::from_str("__Interned");
    start_symbol_name.append(section);
    start_symbol_name.append("Start");
    let mut end_symbol_name = String::from_str("__Interned");
    end_symbol_name.append(section);
    end_symbol_name.append("End");
    let start = match require_symbol(symbols, start_symbol_name.as_str()) {
        Ok(address) => address,
        Err(error) => {
            return Err(error);
        },
    };
    let end = match require_symbol(symbols, end_symbol_name.as_str()) {
        Ok(address) => address,
        Err(error) => {
            return Err(error);
        },
    };
    Ok(
        LogSection {
            label: String::from_str(section),
            color,
            start: address_low_word(start),
            end: address_low_word(end),
        },
    )
}

/// Builds the sections of `levels`, in their order.
pub fn parse_log_sections(symbols: &[Symbol], levels: &[LogLevel]) -> (result: Result<
    Vec<LogSection>,
    LoadError,
>)
    ensures
        match result {
            Ok(sections) => log_sections_of(symbol_views(symbols@), levels@) == Ok::<
                Seq<LogSectionView>,
                LoadFailure,
            >(section_views(sections@)),
            Err(error) => log_sections_of(symbol_views(symbols@), levels@) == Err::<
                Seq<LogSectionView>,
                LoadFailure,
            >(error@),
        },
{
    let ghost views = symbol_views(symbols@);
    let mut log_sections: Vec<LogSection> = Vec::new();
    let mut at: usize = 0;
    assert(levels@.take(0) == Seq::<LogLevel>::empty());
    assert(section_views(log_sections@) == Seq::<LogSectionView>::empty());
    while at < levels.len()
        invariant
            at <= levels@.len(),
            views == symbol_views(symbols@),
            log_sections_of(views, levels@.take(at as int)) == Ok::<
                Seq<LogSectionView>,
                LoadFailure,
            >(section_views(log_sections@)),
        decreases levels@.len() - at,
    {
        let level = levels[at];
        let ghost so_far = section_views(log_sections@);
        proof {
            let next = levels@.take(at + 1);
            assert(next.drop_last() == levels@.take(at as int));
            assert(next.last() == level);
            lemma_failure_stays(views, next, levels@);
        }
        match parse_log_section(symbols, level.label(), color_for_level(level)) {
            Ok(section) => {
                let ghost added = section@;
                log_sections.push(section);
                assert(section_views(log_sections@) == so_far.push(added));
            },
            Err(error) => {
                return Err(error);
            },
        }
        at += 1;
    }
    assert(levels@.take(at as int) == levels@);
    Ok(log_sections)
}

/// Builds the string table and the level ranges from the parts of an image:
/// the contents of its string section, if it has one, and its symbols.
pub fn build_string_info(
    strings: Option<Vec<u8>>,
    symbols: &[Symbol],
    levels: &[LogLevel],
) -> (result: Result<InternedStringInfo, LoadError>)
    ensures
        info_result_view(result) == string_info_of(
            contents_view(strings),
            symbol_views(symbols@),
            levels@,
        ),
{
    match strings {
        None => Err(LoadError::MissingSection),
        Some(strings) => match parse_log_sections(symbols, levels) {
            Ok(log_sections) => Ok(InternedStringInfo { strings, log_sections }),
            Err(error) => Err(error),
        },
    }
}

/// A failure among the first levels of a list is the failure of the list.
pub proof fn lemma_failure_stays(
    symbols: Seq<SymbolView>,
    first: Seq<LogLevel>,
    levels: Seq<LogLevel>,
)
    requires
        first.len() <= levels.len(),
        first == levels.take(first.len() as int),
    ensures
        log_sections_of(symbols, first) is Err ==> log_sections_of(symbols, levels)
            == log_sections_of(symbols, first),
    decreases levels.len(),
{
    if first.len() < levels.len() {
        assert(levels.drop_last().take(first.len() as int) == first);
        lemma_failure_stays(symbols, first, levels.drop_last());
    } else {
        assert(first == levels);
    }
}

/// Reads the string table and the ranges of `levels` from the ELF file
/// `image`. Bytes without the ELF mark give `InvalidImage`; for the others
/// the result is `InvalidImage` or what `build_string_info` gives on the
/// string section and the symbols that were read.
pub fn parse_elf_file(image: &[u8], levels: &[LogLevel]) -> (result: Result<
    InternedStringInfo,
    LoadError,
>)
    ensures
        may_load(image@, levels@, info_result_view(result)),
{
    if !is_elf_image(image) {
        return Err(LoadError::InvalidImage);
    }
    match read_symbols(image) {
        None => Err(LoadError::InvalidImage),
        Some(symbols) => {
            let strings = read_section(image, ".interned_strings");
            let ghost section = contents_view(strings);
            let result = build_string_info(strings, symbols.as_slice(), levels);
            assert(info_result_view(result) == string_info_of(
                section,
                symbol_views(symbols@),
                levels@,
            ));
            result
        },
    }
}

} // verus!
