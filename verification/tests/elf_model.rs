use slinky::elf::{
    ElfFileType, ElfMachineType, ElfRelocationA, ElfRelocationType, ElfSectionType,
    ElfSegmentType, ElfSymbol, ElfSymbolType,
};

fn symbol(info: u8, other: u8) -> ElfSymbol {
    ElfSymbol {
        name_offset: 0,
        name: String::from("main"),
        info,
        other,
        shndx: 1,
        value: 0x40,
        size: 8,
    }
}

#[test]
fn symbol_bind_type_and_visibility() {
    assert_eq!(symbol(0x12, 0).bind(), 1);
    assert_eq!(symbol(0x12, 0).ty(), 2);
    assert_eq!(symbol(0x00, 0xfe).visibility(), 2);
    assert_eq!(symbol(0xff, 0x03).visibility(), 3);
}

#[test]
fn symbol_set_info_keeps_low_bits() {
    let mut s = symbol(0, 0);
    s.set_info(1, 2);
    assert_eq!(s.info, 0x12);
    s.set_info(0x31, 0x2a);
    assert_eq!(s.info, 0x1a);
    assert_eq!(s.name, "main");
    assert_eq!(s.value, 0x40);
}

#[test]
fn symbol_info_roundtrip() {
    for info in 0..=255u8 {
        let s = symbol(info, 0);
        let (b, t) = (symbol(info, 0).bind(), symbol(info, 0).ty());
        let mut s2 = s;
        s2.set_info(b, t);
        assert_eq!(s2.info, info);
        assert_eq!(symbol(s2.info, 0).bind(), b);
        assert_eq!(symbol(s2.info, 0).ty(), t);
    }
}

#[test]
fn relocation_sym_type_and_set_info() {
    let mut r = ElfRelocationA { offset: 0x10, info: 0x0000_0005_0000_0002, addend: -4 };
    assert_eq!(r.sym(), 5);
    assert_eq!(r.ty(), 2);
    r.set_info(7, 4);
    assert_eq!(r.info, 0x0000_0007_0000_0004);
    r.set_info(0x1_0000_0003, 0x2_0000_0009);
    assert_eq!(r.info, 0x0000_0003_0000_0009);
    assert_eq!(r.offset, 0x10);
    assert_eq!(r.addend, -4);
    let (s, t) = (r.sym(), r.ty());
    r.set_info(s, t);
    assert_eq!(r.info, 0x0000_0003_0000_0009);
}

#[test]
fn file_type_codes() {
    assert_eq!(ElfFileType::from(1), ElfFileType::REL);
    assert_eq!(ElfFileType::from(0xfe00), ElfFileType::LOOS);
    assert_eq!(ElfFileType::from(0xffff), ElfFileType::HIPROC);
    assert_eq!(u16::from(ElfFileType::DYN), 3);
    assert_eq!(u16::from(ElfFileType::LOPROC), 0xff00);
    for code in [0u16, 1, 2, 3, 4, 0xfe00, 0xfeff, 0xff00, 0xffff] {
        assert_eq!(u16::from(ElfFileType::from(code)), code);
    }
}

#[test]
fn machine_type_codes() {
    assert_eq!(ElfMachineType::from(62), ElfMachineType::X86_64);
    assert_eq!(ElfMachineType::from(183), ElfMachineType::AARCH64);
    assert_eq!(u16::from(ElfMachineType::MIPS), 8);
    for code in [0u16, 8, 62, 183] {
        assert_eq!(u16::from(ElfMachineType::from(code)), code);
    }
}

#[test]
fn section_type_codes() {
    assert_eq!(ElfSectionType::from(2), ElfSectionType::SYMTAB);
    assert_eq!(ElfSectionType::from(1879048193), ElfSectionType::UNWINDX64);
    assert_eq!(u32::from(ElfSectionType::RELA), 4);
    assert_eq!(u32::from(ElfSectionType::HIPROC), 0x7fffffff);
    for code in [0u32, 1, 2, 3, 4, 7, 8, 1879048193, 0x60000000, 0x6fffffff, 0x70000000, 0x7fffffff] {
        assert_eq!(u32::from(ElfSectionType::from(code)), code);
    }
}

#[test]
fn segment_type_codes() {
    assert_eq!(ElfSegmentType::from(1), ElfSegmentType::LOAD);
    assert_eq!(u32::from(ElfSegmentType::TLS), 7);
    for code in 0u32..=7 {
        assert_eq!(u32::from(ElfSegmentType::from(code)), code);
    }
}

#[test]
fn symbol_type_codes() {
    assert_eq!(ElfSymbolType::from(2), ElfSymbolType::FUNC);
    assert_eq!(u8::from(ElfSymbolType::HIOS), 12);
    for code in [0u8, 1, 2, 3, 4, 5, 6, 10, 12, 13, 15] {
        assert_eq!(u8::from(ElfSymbolType::from(code)), code);
    }
}

#[test]
fn relocation_type_codes() {
    assert_eq!(ElfRelocationType::from(4), ElfRelocationType::X86_64_PLT32);
    assert_eq!(ElfRelocationType::from(273), ElfRelocationType::ARM64_ADR_PREL_LO21);
    assert_eq!(u64::from(ElfRelocationType::X86_64_REX_GOTPCRELX), 42);
    for code in [0u64, 1, 2, 3, 4, 9, 41, 42, 257, 261, 273] {
        assert_eq!(u64::from(ElfRelocationType::from(code)), code);
    }
}

#[test]
fn enum_to_code_and_back() {
    for t in [ElfSectionType::NULL, ElfSectionType::NOTE, ElfSectionType::LOOS] {
        assert_eq!(ElfSectionType::from(u32::from(t)), t);
    }
    for t in [ElfRelocationType::NONE, ElfRelocationType::ARM64_ABS64] {
        assert_eq!(ElfRelocationType::from(u64::from(t)), t);
    }
}
