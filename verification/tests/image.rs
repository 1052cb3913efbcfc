use deferred_logger::{
    build_string_info, control_block_symbol, image_symbol_address, is_elf_image,
    mode_flags_address,
    parse_elf_file, parse_log_section, parse_log_sections, require_symbol, symbol_address,
    InternedStringInfo, LoadError, LogLevel, LogSection, Rgb, RttMode, Symbol, MODE_FLAGS_OFFSET,
};

fn symbol(name: &str, address: u64) -> Symbol {
    Symbol { name: Some(name.to_string()), address }
}

fn word(value: u32) -> [u8; 4] {
    value.to_le_bytes()
}

fn half(value: u16) -> [u8; 2] {
    value.to_le_bytes()
}

fn section_header(name: u32, kind: u32, flags: u32, offset: u32, size: u32, link: u32, info: u32, entry: u32) -> Vec<u8> {
    let mut header = Vec::new();
    for field in [name, kind, flags, 0, offset, size, link, info, 1, entry] {
        header.extend(word(field));
    }
    header
}

fn name_offset(table: &mut Vec<u8>, name: &str) -> u32 {
    let offset = table.len() as u32;
    table.extend(name.bytes());
    table.push(0);
    offset
}

/// A 32-bit little-endian ELF file with a symbol table and, if `strings` is
/// given, a section `.interned_strings`.
fn elf_image(strings: Option<&[u8]>, symbols: &[(&str, u32)]) -> Vec<u8> {
    elf_image_with(strings, symbols, None)
}

/// The same file, with an empty table of extended section indices for the
/// symbol table at the file offset `indices`, if one is given.
fn elf_image_with(strings: Option<&[u8]>, symbols: &[(&str, u32)], indices: Option<u32>) -> Vec<u8> {
    let mut section_names = vec![0u8];
    let strings_name = name_offset(&mut section_names, ".interned_strings");
    let symtab_name = name_offset(&mut section_names, ".symtab");
    let strtab_name = name_offset(&mut section_names, ".strtab");
    let shstrtab_name = name_offset(&mut section_names, ".shstrtab");
    let mut symbol_names = vec![0u8];
    let mut symtab = vec![0u8; 16];
    for (name, address) in symbols {
        symtab.extend(word(name_offset(&mut symbol_names, name)));
        symtab.extend(word(*address));
        symtab.extend(word(0));
        symtab.push(0x11);
        symtab.push(0);
        symtab.extend(half(0xFFF1));
    }
    let mut body = Vec::new();
    let mut headers = section_header(0, 0, 0, 0, 0, 0, 0, 0);
    let mut count = 1u16;
    if let Some(strings) = strings {
        headers.extend(section_header(strings_name, 1, 2, 52 + body.len() as u32, strings.len() as u32, 0, 0, 0));
        body.extend_from_slice(strings);
        count += 1;
    }
    let symtab_index = count as u32;
    headers.extend(section_header(symtab_name, 2, 0, 52 + body.len() as u32, symtab.len() as u32, count as u32 + 1, 1, 16));
    body.extend(&symtab);
    headers.extend(section_header(strtab_name, 3, 0, 52 + body.len() as u32, symbol_names.len() as u32, 0, 0, 0));
    body.extend(&symbol_names);
    headers.extend(section_header(shstrtab_name, 3, 0, 52 + body.len() as u32, section_names.len() as u32, 0, 0, 0));
    body.extend(&section_names);
    count += 3;
    let names_index = count - 1;
    if let Some(offset) = indices {
        headers.extend(section_header(0, 18, 0, offset, 0, symtab_index, 0, 4));
        count += 1;
    }
    let mut image = vec![0x7F, b'E', b'L', b'F', 1, 1, 1, 0, 0, 0, 0, 0, 0, 0, 0, 0];
    image.extend(half(2));
    image.extend(half(40));
    image.extend(word(1));
    image.extend(word(0));
    image.extend(word(0));
    image.extend(word(52 + body.len() as u32));
    image.extend(word(0));
    image.extend(half(52));
    image.extend(half(32));
    image.extend(half(0));
    image.extend(half(40));
    image.extend(half(count));
    image.extend(half(names_index));
    assert_eq!(image.len(), 52);
    image.extend(body);
    image.extend(headers);
    image
}

const BOUNDS: [(&str, u32); 5] = [
    ("main", 0x0800_0100),
    ("__InternedDebugStart", 0),
    ("__InternedDebugEnd", 6),
    ("__InternedInfoStart", 6),
    ("__InternedInfoEnd", 15),
];

#[test]
fn image_gives_the_table_and_the_regions() {
    let image = elf_image(Some(b"dbg %u\0hello %d\0"), &BOUNDS);
    let info = parse_elf_file(&image, &[LogLevel::Debug, LogLevel::Info]).unwrap();
    assert_eq!(
        info,
        InternedStringInfo {
            strings: b"dbg %u\0hello %d\0".to_vec(),
            log_sections: vec![
                LogSection { label: "Debug".to_string(), color: Rgb(0, 255, 0), start: 0, end: 6 },
                LogSection { label: "Info".to_string(), color: Rgb(255, 255, 0), start: 6, end: 15 },
            ],
        }
    );
    assert_ne!(info.strings, image);
    let only_info = parse_elf_file(&image, &[LogLevel::Info]).unwrap();
    assert_eq!(only_info.log_sections.len(), 1);
    assert_eq!(only_info.log_sections[0].label, "Info");
    let none = parse_elf_file(&image, &[]).unwrap();
    assert_eq!(none.log_sections, vec![]);
    assert_eq!(none.strings, b"dbg %u\0hello %d\0".to_vec());
}

#[test]
fn image_that_is_no_object_file() {
    assert_eq!(parse_elf_file(b"not an object file", &[LogLevel::Debug]), Err(LoadError::InvalidImage));
    assert_eq!(parse_elf_file(b"", &[]), Err(LoadError::InvalidImage));
}

#[test]
fn image_of_another_object_format() {
    let wasm = [0x00, 0x61, 0x73, 0x6D, 1, 0, 0, 0, 7, 6, 1, 2, 0x61, 0x62, 0, 0];
    assert!(!is_elf_image(&wasm));
    assert_eq!(parse_elf_file(&wasm, &[LogLevel::Debug]), Err(LoadError::InvalidImage));
    assert_eq!(parse_elf_file(&wasm, &[]), Err(LoadError::InvalidImage));
    assert_eq!(image_symbol_address(&wasm, "ab"), Err(LoadError::InvalidImage));
    let mut mach_o = vec![0xCF, 0xFA, 0xED, 0xFE];
    mach_o.extend([0u8; 60]);
    assert_eq!(parse_elf_file(&mach_o, &[]), Err(LoadError::InvalidImage));
    assert_eq!(image_symbol_address(&mach_o, "main"), Err(LoadError::InvalidImage));
    let mut archive = b"!<arch>\n".to_vec();
    archive.extend([0u8; 60]);
    assert_eq!(parse_elf_file(&archive, &[]), Err(LoadError::InvalidImage));
    let mut pe = b"MZ".to_vec();
    pe.extend([0u8; 126]);
    assert_eq!(parse_elf_file(&pe, &[]), Err(LoadError::InvalidImage));
    let mut coff = vec![0x64, 0x86];
    coff.extend([0u8; 62]);
    assert_eq!(image_symbol_address(&coff, "main"), Err(LoadError::InvalidImage));
}

#[test]
fn image_with_the_mark_alone() {
    assert!(is_elf_image(&[0x7F, b'E', b'L', b'F']));
    assert!(is_elf_image(&elf_image(None, &[])));
    assert!(!is_elf_image(&[0x7F, b'E', b'L']));
    assert!(!is_elf_image(&[0x7F, b'E', b'L', b'G', 1, 1]));
    assert!(!is_elf_image(&[]));
    assert_eq!(parse_elf_file(&[0x7F, b'E', b'L', b'F'], &[]), Err(LoadError::InvalidImage));
    let mut odd_class = vec![0x7F, b'E', b'L', b'F', 3, 1, 1, 0];
    odd_class.extend([0u8; 56]);
    assert_eq!(parse_elf_file(&odd_class, &[]), Err(LoadError::InvalidImage));
    let mut hollow = vec![0x7F, b'E', b'L', b'F', 1, 1, 1, 0];
    hollow.extend([0u8; 8]);
    assert_eq!(image_symbol_address(&hollow, "main"), Err(LoadError::InvalidImage));
}

#[test]
fn image_that_the_reader_may_reject() {
    let expected = parse_elf_file(&elf_image(Some(b"dbg\0"), &BOUNDS), &[LogLevel::Debug]).unwrap();
    for offset in 52..60 {
        let image = elf_image_with(Some(b"dbg\0"), &BOUNDS, Some(offset));
        match parse_elf_file(&image, &[LogLevel::Debug]) {
            Ok(info) => assert_eq!(info, expected),
            Err(error) => assert_eq!(error, LoadError::InvalidImage),
        }
        match image_symbol_address(&image, "main") {
            Ok(address) => assert_eq!(address, 0x0800_0100),
            Err(error) => assert_eq!(error, LoadError::InvalidImage),
        }
    }
}

#[test]
fn image_without_the_string_section() {
    let image = elf_image(None, &BOUNDS);
    assert_eq!(
        parse_elf_file(&image, &[LogLevel::Debug, LogLevel::Info]),
        Err(LoadError::MissingSection)
    );
    let bare = elf_image(None, &[]);
    assert_eq!(parse_elf_file(&bare, &[LogLevel::Debug]), Err(LoadError::MissingSection));
}

#[test]
fn image_without_a_boundary_symbol() {
    let image = elf_image(Some(b"x\0"), &BOUNDS[..4]);
    assert_eq!(
        parse_elf_file(&image, &[LogLevel::Debug, LogLevel::Info]),
        Err(LoadError::MissingSymbol("__InternedInfoEnd".to_string()))
    );
    assert!(parse_elf_file(&image, &[LogLevel::Debug]).is_ok());
    assert_eq!(
        parse_elf_file(&image, &[LogLevel::Warning, LogLevel::Info]),
        Err(LoadError::MissingSymbol("__InternedWarningStart".to_string()))
    );
    let image = elf_image(Some(b"x\0"), &BOUNDS[2..]);
    assert_eq!(
        parse_elf_file(&image, &[LogLevel::Info, LogLevel::Debug]),
        Err(LoadError::MissingSymbol("__InternedDebugStart".to_string()))
    );
}

#[test]
fn sections_from_symbols() {
    let symbols = vec![
        symbol("__InternedDebugEnd", 0x30),
        symbol("other", 1),
        symbol("__InternedDebugStart", 0x10),
        symbol("__InternedDebugStart", 0x20),
        Symbol { name: None, address: 5 },
    ];
    assert_eq!(
        parse_log_section(&symbols, "Debug", Rgb(1, 2, 3)),
        Ok(LogSection { label: "Debug".to_string(), color: Rgb(1, 2, 3), start: 0x10, end: 0x30 })
    );
    assert_eq!(
        parse_log_section(&symbols, "Info", Rgb(1, 2, 3)),
        Err(LoadError::MissingSymbol("__InternedInfoStart".to_string()))
    );
    assert_eq!(
        parse_log_section(&symbols[1..2], "Debug", Rgb(1, 2, 3)),
        Err(LoadError::MissingSymbol("__InternedDebugStart".to_string()))
    );
    assert_eq!(
        parse_log_section(&symbols[1..], "Debug", Rgb(1, 2, 3)),
        Err(LoadError::MissingSymbol("__InternedDebugEnd".to_string()))
    );
    assert_eq!(
        parse_log_sections(&symbols, &[LogLevel::Debug]),
        Ok(vec![LogSection { label: "Debug".to_string(), color: Rgb(0, 255, 0), start: 0x10, end: 0x30 }])
    );
    assert_eq!(
        parse_log_sections(&symbols, &[LogLevel::Debug, LogLevel::Error, LogLevel::Info]),
        Err(LoadError::MissingSymbol("__InternedErrorStart".to_string()))
    );
}

#[test]
fn addresses_keep_their_low_word() {
    let symbols = vec![
        symbol("__InternedInfoStart", 0x1_0000_0010),
        symbol("__InternedInfoEnd", 0xFFFF_FFFF_0000_0040),
    ];
    assert_eq!(
        parse_log_section(&symbols, "Info", Rgb(0, 0, 0)),
        Ok(LogSection { label: "Info".to_string(), color: Rgb(0, 0, 0), start: 0x10, end: 0x40 })
    );
}

#[test]
fn symbols_are_found_by_name() {
    let symbols = vec![
        Symbol { name: None, address: 1 },
        symbol("main", 0x0800_0100),
        symbol("_SEGGER_RTT", 0x2000_0000),
        symbol("main", 0x0900_0000),
        symbol("", 7),
    ];
    assert_eq!(symbol_address(&symbols, "main"), Some(0x0800_0100));
    assert_eq!(symbol_address(&symbols, control_block_symbol()), Some(0x2000_0000));
    assert_eq!(symbol_address(&symbols, ""), Some(7));
    assert_eq!(symbol_address(&symbols, "Main"), None);
    assert_eq!(symbol_address(&symbols, "mai"), None);
    assert_eq!(symbol_address(&[], "main"), None);
}

#[test]
fn symbols_of_an_image() {
    let image = elf_image(Some(b"x\0"), &BOUNDS);
    assert_eq!(image_symbol_address(&image, "main"), Ok(0x0800_0100));
    assert_eq!(image_symbol_address(&image, "__InternedInfoEnd"), Ok(15));
    assert_eq!(
        image_symbol_address(&image, "_SEGGER_RTT"),
        Err(LoadError::MissingSymbol("_SEGGER_RTT".to_string()))
    );
    assert_eq!(image_symbol_address(b"junk", "main"), Err(LoadError::InvalidImage));
    let symbols = vec![symbol("a", 1), symbol("b", 2), symbol("a", 3)];
    assert_eq!(require_symbol(&symbols, "a"), Ok(1));
    assert_eq!(require_symbol(&symbols, "b"), Ok(2));
    assert_eq!(require_symbol(&symbols, "c"), Err(LoadError::MissingSymbol("c".to_string())));
}

#[test]
fn table_from_parts() {
    let symbols = vec![symbol("__InternedInfoStart", 2), symbol("__InternedInfoEnd", 9)];
    assert_eq!(
        build_string_info(Some(b"ab".to_vec()), &symbols, &[LogLevel::Info]),
        Ok(InternedStringInfo {
            strings: b"ab".to_vec(),
            log_sections: vec![LogSection {
                label: "Info".to_string(),
                color: Rgb(255, 255, 0),
                start: 2,
                end: 9,
            }],
        })
    );
    assert_eq!(build_string_info(None, &symbols, &[LogLevel::Info]), Err(LoadError::MissingSection));
    assert_eq!(build_string_info(None, &symbols, &[LogLevel::Debug]), Err(LoadError::MissingSection));
    assert_eq!(
        build_string_info(Some(vec![]), &symbols, &[LogLevel::Debug]),
        Err(LoadError::MissingSymbol("__InternedDebugStart".to_string()))
    );
}

#[test]
fn mode_flags() {
    assert_eq!(RttMode::NonBlocking.flag(), 1);
    assert_eq!(RttMode::Blocking.flag(), 2);
    assert_eq!(MODE_FLAGS_OFFSET, 44);
    assert_eq!(control_block_symbol(), "_SEGGER_RTT");
    assert_eq!(mode_flags_address(0x2000_0000), Some(0x2000_002C));
    assert_eq!(mode_flags_address(0), Some(44));
    assert_eq!(mode_flags_address(0xFFFF_FFD3), Some(0xFFFF_FFFF));
    assert_eq!(mode_flags_address(0xFFFF_FFD4), None);
    assert_eq!(mode_flags_address(0xFFFF_FFFF), None);
    assert_eq!(mode_flags_address(0x1_2000_0000), Some(0x2000_002C));
}
