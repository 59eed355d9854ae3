use slinky::elf::parse::ElfParseError;
use slinky::elf::{ElfFile, ElfFileType, ElfHeader, ElfMachineType, ElfSectionType, Endianness};

fn put16(v: &mut Vec<u8>, x: u16, big: bool) {
    if big {
        v.extend_from_slice(&x.to_be_bytes())
    } else {
        v.extend_from_slice(&x.to_le_bytes())
    }
}

fn put32(v: &mut Vec<u8>, x: u32, big: bool) {
    if big {
        v.extend_from_slice(&x.to_be_bytes())
    } else {
        v.extend_from_slice(&x.to_le_bytes())
    }
}

fn put64(v: &mut Vec<u8>, x: u64, big: bool) {
    if big {
        v.extend_from_slice(&x.to_be_bytes())
    } else {
        v.extend_from_slice(&x.to_le_bytes())
    }
}

fn header(big: bool, ty: u16, machine: u16, shoff: u64, shnum: u16, shstrndx: u16) -> Vec<u8> {
    let mut v = vec![0x7f, b'E', b'L', b'F', 2, if big { 2 } else { 1 }, 1, 0, 0];
    v.extend_from_slice(&[0; 7]);
    put16(&mut v, ty, big);
    put16(&mut v, machine, big);
    put32(&mut v, 1, big);
    put64(&mut v, 0x401000, big);
    put64(&mut v, 0, big);
    put64(&mut v, shoff, big);
    put32(&mut v, 0, big);
    put16(&mut v, 64, big);
    put16(&mut v, 0, big);
    put16(&mut v, 0, big);
    put16(&mut v, 64, big);
    put16(&mut v, shnum, big);
    put16(&mut v, shstrndx, big);
    assert_eq!(v.len(), 64);
    v
}

#[allow(clippy::too_many_arguments)]
fn section_header(v: &mut Vec<u8>, name: u32, ty: u32, offset: u64, size: u64, link: u32, align: u64, entsize: u64) {
    put32(v, name, false);
    put32(v, ty, false);
    put64(v, 0, false);
    put64(v, 0, false);
    put64(v, offset, false);
    put64(v, size, false);
    put32(v, link, false);
    put32(v, 0, false);
    put64(v, align, false);
    put64(v, entsize, false);
}

fn symbol(v: &mut Vec<u8>, name: u32, info: u8, shndx: u16, value: u64, size: u64) {
    put32(v, name, false);
    v.push(info);
    v.push(0);
    put16(v, shndx, false);
    put64(v, value, false);
    put64(v, size, false);
}

/// A small little-endian relocatable object: a null section, `.text`,
/// `.shstrtab`, `.symtab`, `.strtab` and `.rela.text`.
fn object() -> Vec<u8> {
    let shstrtab = b"\0.text\0.shstrtab\0.symtab\0.strtab\0.rela.text\0".to_vec();
    let text = vec![0x90, 0x90, 0x90, 0xc3];
    let strtab = b"\0main\0helper\0".to_vec();
    let mut symtab = Vec::new();
    symbol(&mut symtab, 0, 0, 0, 0, 0);
    symbol(&mut symtab, 1, 0x12, 1, 0, 4);
    symbol(&mut symtab, 6, 0x10, 0, 0, 0);
    let mut rela = Vec::new();
    put64(&mut rela, 1, false);
    put64(&mut rela, (2u64 << 32) | 4, false);
    put64(&mut rela, (-4i64) as u64, false);

    let text_off = 64u64;
    let shstrtab_off = text_off + text.len() as u64;
    let symtab_off = shstrtab_off + shstrtab.len() as u64;
    let strtab_off = symtab_off + symtab.len() as u64;
    let rela_off = strtab_off + strtab.len() as u64;
    let shoff = rela_off + rela.len() as u64;

    let mut v = header(false, 1, 62, shoff, 6, 2);
    v.extend_from_slice(&text);
    v.extend_from_slice(&shstrtab);
    v.extend_from_slice(&symtab);
    v.extend_from_slice(&strtab);
    v.extend_from_slice(&rela);
    assert_eq!(v.len() as u64, shoff);
    section_header(&mut v, 0, 0, 0, 0, 0, 0, 0);
    section_header(&mut v, 1, 1, text_off, text.len() as u64, 0, 16, 0);
    section_header(&mut v, 7, 3, shstrtab_off, shstrtab.len() as u64, 0, 1, 0);
    section_header(&mut v, 17, 2, symtab_off, symtab.len() as u64, 4, 8, 24);
    section_header(&mut v, 25, 3, strtab_off, strtab.len() as u64, 0, 1, 0);
    section_header(&mut v, 33, 4, rela_off, rela.len() as u64, 3, 8, 24);
    v
}

#[test]
fn header_little_endian() {
    let bytes = header(false, 1, 62, 0x1234, 6, 2);
    let (rest, h) = ElfHeader::parse(&bytes).unwrap();
    assert!(rest.is_empty());
    assert_eq!(h.eident.class, 2);
    assert_eq!(h.eident.endianness, Endianness::Little);
    assert_eq!(h.ty, ElfFileType::REL);
    assert_eq!(h.machine, ElfMachineType::X86_64);
    assert_eq!(h.version, 1);
    assert_eq!(h.entry, 0x401000);
    assert_eq!(h.shoff, 0x1234);
    assert_eq!(h.ehsize, 64);
    assert_eq!(h.shentsize, 64);
    assert_eq!(h.shnum, 6);
    assert_eq!(h.shstrndx, 2);
}

#[test]
fn header_big_endian_leaves_rest() {
    let mut bytes = header(true, 2, 8, 0x0102_0304_0506_0708, 3, 1);
    bytes.extend_from_slice(&[9, 9, 9]);
    let (rest, h) = ElfHeader::parse(&bytes).unwrap();
    assert_eq!(rest, &[9, 9, 9]);
    assert_eq!(h.eident.endianness, Endianness::Big);
    assert_eq!(h.ty, ElfFileType::EXEC);
    assert_eq!(h.machine, ElfMachineType::MIPS);
    assert_eq!(h.shoff, 0x0102_0304_0506_0708);
    assert_eq!(h.shnum, 3);
    assert_eq!(h.shstrndx, 1);
}

#[test]
fn header_rejects_bad_magic_and_short_input() {
    let mut bytes = header(false, 1, 62, 0, 0, 0);
    bytes[1] = b'X';
    assert!(ElfHeader::parse(&bytes).is_err());
    let bytes = header(false, 1, 62, 0, 0, 0);
    assert!(ElfHeader::parse(&bytes[..63]).is_err());
    assert!(ElfHeader::parse(&bytes[..3]).is_err());
    assert!(ElfHeader::parse(&[]).is_err());
}

#[test]
fn file_parse_sections() {
    let bytes = object();
    let f = ElfFile::parse(&bytes).unwrap();
    assert_eq!(f.header.shstrndx, 2);
    assert_eq!(f.section_data.len(), bytes.len() - 64 - 6 * 64);
    assert_eq!(f.section_data[..], bytes[64..64 + f.section_data.len()]);
    let names: Vec<&str> = f.section_headers.iter().map(|s| s.name.as_str()).collect();
    assert_eq!(names, ["", ".text", ".shstrtab", ".symtab", ".strtab", ".rela.text"]);
    assert_eq!(f.section_headers[0].ty, ElfSectionType::NULL);
    assert!(f.section_headers[0].data.is_empty());
    assert_eq!(f.section_headers[1].ty, ElfSectionType::PROGBITS);
    assert_eq!(f.section_headers[1].data, vec![0x90, 0x90, 0x90, 0xc3]);
    assert_eq!(f.section_headers[1].addralign, 16);
    assert_eq!(f.section_headers[3].ty, ElfSectionType::SYMTAB);
    assert_eq!(f.section_headers[3].link, 4);
    assert!(f.section_headers[3].relocations.is_none());
    let relocs = f.section_headers[5].relocations.as_ref().unwrap();
    assert_eq!(relocs.len(), 1);
    assert_eq!(relocs[0].offset, 1);
    assert_eq!(relocs[0].sym(), 2);
    assert_eq!(relocs[0].ty(), 4);
    assert_eq!(relocs[0].addend, -4);
}

#[test]
fn file_parse_helper_gives_back_trailing_bytes() {
    let mut bytes = object();
    bytes.extend_from_slice(&[1, 2, 3]);
    let (rest, f) = ElfFile::parse_helper(&bytes).unwrap();
    assert_eq!(rest, &[1, 2, 3]);
    assert_eq!(f.section_headers.len(), 6);
    // the whole input must be read
    assert!(matches!(ElfFile::parse(&bytes), Err(ElfParseError)));
}

#[test]
fn file_parse_rejects_missing_section_table() {
    let bytes = object();
    let shoff = bytes.len() - 6 * 64;
    assert!(ElfFile::parse(&bytes[..shoff + 63]).is_err());
    assert!(ElfFile::parse(&bytes[..shoff - 1]).is_err());
}

#[test]
fn file_symtab_and_symbols() {
    let bytes = object();
    let f = ElfFile::parse(&bytes).unwrap();
    let symtab = f.get_symtab().unwrap();
    assert_eq!(symtab.name, ".symtab");
    let symbols = f.get_symbols().unwrap();
    let names: Vec<&str> = symbols.iter().map(|s| s.name.as_str()).collect();
    assert_eq!(names, ["", "main", "helper"]);
    assert_eq!(symbols[1].shndx, 1);
    assert_eq!(symbols[1].size, 4);
    assert_eq!(symbols[1].info, 0x12);
    assert_eq!(symbols[2].shndx, 0);
}

#[test]
fn file_without_symtab_has_no_symbols() {
    let shstrtab = b"\0.shstrtab\0".to_vec();
    let shoff = 64 + shstrtab.len() as u64;
    let mut v = header(false, 1, 62, shoff, 2, 1);
    v.extend_from_slice(&shstrtab);
    section_header(&mut v, 0, 0, 0, 0, 0, 0, 0);
    section_header(&mut v, 1, 3, 64, shstrtab.len() as u64, 0, 1, 0);
    let f = ElfFile::parse(&v).unwrap();
    assert_eq!(f.section_headers[1].name, ".shstrtab");
    assert!(f.get_symtab().is_none());
    assert!(f.get_symbols().is_none());
}

#[test]
fn try_parse_agrees_with_parse() {
    let bytes = object();
    let a = ElfFile::try_parse(&bytes).unwrap().unwrap();
    let b = ElfFile::parse(&bytes).unwrap();
    assert_eq!(a.section_headers.len(), b.section_headers.len());
    assert_eq!(a.section_data, b.section_data);
    let mut longer = bytes.clone();
    longer.push(0);
    assert!(matches!(ElfFile::try_parse(&longer), Some(Err(ElfParseError))));
    assert!(matches!(ElfFile::try_parse(&bytes[..10]), Some(Err(ElfParseError))));
}

#[test]
fn try_parse_unknown_byte_order() {
    let mut bytes = object();
    bytes[5] = 3;
    assert!(ElfFile::try_parse(&bytes).is_none());
}

#[test]
fn try_parse_unknown_file_type_and_machine() {
    let mut bytes = object();
    bytes[16] = 7;
    assert!(ElfFile::try_parse(&bytes).is_none());
    let mut bytes = object();
    bytes[18] = 99;
    assert!(ElfFile::try_parse(&bytes).is_none());
}

#[test]
fn try_parse_unknown_section_type() {
    let mut bytes = object();
    let shoff = bytes.len() - 6 * 64;
    // the type of `.text` becomes 17 (a section group)
    bytes[shoff + 64 + 4] = 17;
    assert!(ElfFile::try_parse(&bytes).is_none());
}

#[test]
fn try_parse_section_name_outside_section_data() {
    let mut bytes = object();
    let shoff = bytes.len() - 6 * 64;
    bytes[shoff + 64] = 0xff;
    bytes[shoff + 64 + 1] = 0xff;
    assert!(ElfFile::try_parse(&bytes).is_none());
}

#[test]
fn try_parse_string_table_index_out_of_range() {
    let mut bytes = object();
    bytes[62] = 6;
    assert!(ElfFile::try_parse(&bytes).is_none());
}

#[test]
fn try_parse_section_contents_outside_section_data() {
    let mut bytes = object();
    let shoff = bytes.len() - 6 * 64;
    // `.text` now claims 0x1000 bytes
    bytes[shoff + 64 + 32] = 0;
    bytes[shoff + 64 + 33] = 0x10;
    assert!(ElfFile::try_parse(&bytes).is_none());
}

#[test]
fn try_parse_name_not_utf8() {
    let mut bytes = object();
    // first byte of ".text" in the section name string table
    let shstrtab_start = 64 + 4;
    bytes[shstrtab_start + 1] = 0xff;
    assert!(ElfFile::try_parse(&bytes).is_none());
}

#[test]
fn try_get_symbols_agrees_with_get_symbols() {
    let bytes = object();
    let f = ElfFile::parse(&bytes).unwrap();
    let a = f.try_get_symbols().unwrap().unwrap();
    let b = f.get_symbols().unwrap();
    assert_eq!(a.len(), b.len());
    assert_eq!(a[2].name, "helper");
}

#[test]
fn try_get_symbols_string_table_out_of_range() {
    let mut bytes = object();
    let shoff = bytes.len() - 6 * 64;
    // the symbol table's link field now points past the last section
    bytes[shoff + 3 * 64 + 40] = 9;
    let f = ElfFile::parse(&bytes).unwrap();
    assert!(f.try_get_symbols().is_none());
}

#[test]
fn try_get_symbols_partial_symbol_table() {
    let mut bytes = object();
    let shoff = bytes.len() - 6 * 64;
    // the symbol table now holds 70 bytes: not a whole number of entries
    bytes[shoff + 3 * 64 + 32] = 70;
    let f = ElfFile::parse(&bytes).unwrap();
    assert_eq!(f.section_headers[3].data.len(), 70);
    assert!(f.try_get_symbols().is_none());
}

#[test]
fn try_get_symbols_without_symbol_table() {
    let shstrtab = b"\0.shstrtab\0".to_vec();
    let shoff = 64 + shstrtab.len() as u64;
    let mut v = header(false, 1, 62, shoff, 2, 1);
    v.extend_from_slice(&shstrtab);
    section_header(&mut v, 0, 0, 0, 0, 0, 0, 0);
    section_header(&mut v, 1, 3, 64, shstrtab.len() as u64, 0, 1, 0);
    let f = ElfFile::parse(&v).unwrap();
    assert!(matches!(f.try_get_symbols(), Some(None)));
}
