use slinky::elf::{ElfFile, ElfRelocationA, ElfSectionHeader, ElfSectionType, ElfSymbol};
use slinky::link::{align_up, Linker, ObjectFile};

fn section(name: &str, ty: ElfSectionType, data: &[u8], align: u64) -> ElfSectionHeader {
    ElfSectionHeader {
        name_offset: 0,
        ty,
        flags: 0,
        addr: 0,
        offset: 0,
        size: data.len() as u64,
        link: 0,
        info: 0,
        addralign: align,
        entsize: 0,
        name: name.to_string(),
        data: data.to_vec(),
        relocations: None,
    }
}

fn sym(name: &str, shndx: u16, value: u64) -> ElfSymbol {
    ElfSymbol { name_offset: 0, name: name.to_string(), info: 0x10, other: 0, shndx, value, size: 0 }
}

#[test]
fn align_up_rounds_to_multiples() {
    assert_eq!(align_up(0, 8), 0);
    assert_eq!(align_up(1, 8), 8);
    assert_eq!(align_up(8, 8), 8);
    assert_eq!(align_up(9, 8), 16);
    assert_eq!(align_up(5, 1), 5);
    assert_eq!(align_up(3, 4), 4);
    for v in 0..100usize {
        for a in [1usize, 2, 4, 8, 16, 64] {
            let r = align_up(v, a);
            assert_eq!(r % a, 0);
            assert!(v <= r && r < v + a);
        }
    }
}

#[test]
fn merge_sections_appends_and_moves_relocations() {
    let linker = Linker {};
    let mut a = section(".text", ElfSectionType::PROGBITS, &[1, 2, 3], 4);
    a.relocations = Some(vec![ElfRelocationA { offset: 0, info: 1, addend: 0 }]);
    let mut b = section(".text", ElfSectionType::PROGBITS, &[4, 5], 4);
    b.relocations = Some(vec![
        ElfRelocationA { offset: 1, info: 2, addend: -4 },
        ElfRelocationA { offset: 0, info: 3, addend: 8 },
    ]);
    let off = linker.merge_sections(&mut a, &b);
    assert_eq!(off, 4);
    assert_eq!(a.data, vec![1, 2, 3, 4, 5]);
    assert_eq!(a.size, 4);
    let relocs = a.relocations.unwrap();
    assert_eq!(relocs.len(), 3);
    assert_eq!(relocs[0].offset, 0);
    assert_eq!(relocs[1].offset, 5);
    assert_eq!(relocs[1].info, 2);
    assert_eq!(relocs[1].addend, -4);
    assert_eq!(relocs[2].offset, 4);
}

#[test]
fn merge_sections_aligned_length_is_kept() {
    let linker = Linker {};
    let mut a = section(".data", ElfSectionType::PROGBITS, &[0; 12], 4);
    let mut b = section(".data", ElfSectionType::PROGBITS, &[7], 4);
    b.relocations = Some(vec![ElfRelocationA { offset: 0, info: 0, addend: 0 }]);
    let off = linker.merge_sections(&mut a, &b);
    // 12 has as many trailing zero bits as 4
    assert_eq!(off, 12);
    assert_eq!(a.size, 12);
    assert_eq!(a.data.len(), 13);
    assert_eq!(a.relocations.unwrap()[0].offset, 12);
}

#[test]
fn merge_sections_without_relocations() {
    let linker = Linker {};
    let mut a = section(".rodata", ElfSectionType::PROGBITS, &[1, 2, 3, 4, 5, 6], 8);
    let b = section(".rodata", ElfSectionType::PROGBITS, &[9], 8);
    let off = linker.merge_sections(&mut a, &b);
    assert_eq!(off, 8);
    assert_eq!(a.data, vec![1, 2, 3, 4, 5, 6, 9]);
    assert!(a.relocations.is_none());
}

#[test]
fn link_files_merges_sections_and_resolves_symbols() {
    let linker = Linker {};
    let a = ObjectFile {
        sections: vec![
            section(".text", ElfSectionType::PROGBITS, &[1, 2, 3], 4),
            section(".data", ElfSectionType::PROGBITS, &[6], 1),
        ],
        symbols: vec![sym("", 0, 0), sym("foo", 1, 2), sym("bar", 0, 0)],
    };
    let b = ObjectFile {
        sections: vec![
            section(".text", ElfSectionType::PROGBITS, &[4, 5], 4),
            section(".symtab", ElfSectionType::SYMTAB, &[0; 24], 8),
            section(".bss", ElfSectionType::NOBITS, &[], 8),
        ],
        symbols: vec![sym("", 0, 0), sym("foo", 0, 0), sym("bar", 1, 1), sym("abs", 0xfff1, 77)],
    };
    let r = linker.link_files(a, b).unwrap();
    let names: Vec<&str> = r.sections.iter().map(|s| s.name.as_str()).collect();
    assert_eq!(names, [".text", ".data", ".bss"]);
    assert_eq!(r.sections[0].data, vec![1, 2, 3, 4, 5]);
    assert_eq!(r.sections[0].size, 4);
    assert_eq!(r.sections[1].data, vec![6]);
    let names: Vec<&str> = r.symbols.iter().map(|s| s.name.as_str()).collect();
    assert_eq!(names, ["", "foo", "bar", "", "abs"]);
    // foo stays as defined in the first file
    assert_eq!((r.symbols[1].shndx, r.symbols[1].value), (1, 2));
    // bar is now defined by the second file's `.bss`, which went to index 2
    assert_eq!((r.symbols[2].shndx, r.symbols[2].value), (2, 0));
    // the unnamed symbol of the second file goes to the merged `.text`
    assert_eq!((r.symbols[3].shndx, r.symbols[3].value), (0, 4));
    // absolute symbols are kept as they are
    assert_eq!((r.symbols[4].shndx, r.symbols[4].value), (0xfff1, 77));
}

#[test]
fn link_files_with_empty_second_file() {
    let linker = Linker {};
    let a = ObjectFile {
        sections: vec![section(".text", ElfSectionType::PROGBITS, &[1], 1)],
        symbols: vec![sym("main", 1, 0)],
    };
    let b = ObjectFile { sections: vec![], symbols: vec![] };
    let r = linker.link_files(a, b).unwrap();
    assert_eq!(r.sections.len(), 1);
    assert_eq!(r.sections[0].data, vec![1]);
    assert_eq!(r.symbols.len(), 1);
    assert_eq!(r.symbols[0].name, "main");
}

#[test]
fn link_gives_the_first_file() {
    let shstrtab = b"\0.shstrtab\0".to_vec();
    let mut v = vec![0x7f, b'E', b'L', b'F', 2, 1, 1, 0, 0, 0, 0, 0, 0, 0, 0, 0];
    v.extend_from_slice(&1u16.to_le_bytes());
    v.extend_from_slice(&62u16.to_le_bytes());
    v.extend_from_slice(&1u32.to_le_bytes());
    v.extend_from_slice(&0u64.to_le_bytes());
    v.extend_from_slice(&0u64.to_le_bytes());
    v.extend_from_slice(&(64 + shstrtab.len() as u64).to_le_bytes());
    v.extend_from_slice(&0u32.to_le_bytes());
    for x in [64u16, 0, 0, 64, 1, 0] {
        v.extend_from_slice(&x.to_le_bytes());
    }
    v.extend_from_slice(&shstrtab);
    v.extend_from_slice(&1u32.to_le_bytes());
    v.extend_from_slice(&3u32.to_le_bytes());
    for x in [0u64, 0, 64, shstrtab.len() as u64] {
        v.extend_from_slice(&x.to_le_bytes());
    }
    v.extend_from_slice(&0u32.to_le_bytes());
    v.extend_from_slice(&0u32.to_le_bytes());
    v.extend_from_slice(&1u64.to_le_bytes());
    v.extend_from_slice(&0u64.to_le_bytes());
    let first = ElfFile::parse(&v).unwrap();
    let second = ElfFile::parse(&v).unwrap();
    let linked = Linker::link(vec![first, second]).unwrap();
    assert_eq!(linked.section_headers.len(), 1);
    assert_eq!(linked.section_headers[0].name, ".shstrtab");
}
