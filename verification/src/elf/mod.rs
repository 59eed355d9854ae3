//! The data model of an ELF64 file.
//!
//! References:
//! <https://www.sco.com/developers/gabi/2003-12-17/ch4.eheader.html>,
//! <http://web.mit.edu/freebsd/head/sys/sys/elf64.h>.

pub mod parse;
pub mod read;

use vstd::prelude::*;

verus! {

/// The four bytes every ELF file starts with: `\x7FELF`.
pub const ELF_MAGIC: [u8; 4] = [0x7f, 0x45, 0x4c, 0x46];

/// The size in bytes of an ELF64 file header.
pub const EHSIZE_64: usize = 64;

/// The ELF file type values.
#[allow(non_camel_case_types)]
#[derive(Debug, Clone, Copy, PartialEq, Eq, Structural)]
pub enum ElfFileType {
    /// none
    NONE,
    /// relocatable file
    REL,
    /// executable file
    EXEC,
    /// shared object file
    DYN,
    /// core file
    CORE,
    /// os specific
    LOOS,
    /// os specific
    HIOS,
    /// processor specific
    LOPROC,
    /// processor specific
    HIPROC,
}

impl ElfFileType {
    /// The number that stands for this file type in an ELF file.
    pub open spec fn code(self) -> u16 {
        match self {
            ElfFileType::NONE => 0,
            ElfFileType::REL => 1,
            ElfFileType::EXEC => 2,
            ElfFileType::DYN => 3,
            ElfFileType::CORE => 4,
            ElfFileType::LOOS => 0xfe00,
            ElfFileType::HIOS => 0xfeff,
            ElfFileType::LOPROC => 0xff00,
            ElfFileType::HIPROC => 0xffff,
        }
    }

    /// Whether `value` is the number of one of the known file types.
    pub open spec fn is_known_code(value: u16) -> bool {
        value == 0
        || value == 1
        || value == 2
        || value == 3
        || value == 4
        || value == 0xfe00
        || value == 0xfeff
        || value == 0xff00
        || value == 0xffff
    }

    /// Whether `value` is the number of one of the known file types.
    pub fn is_known(value: u16) -> (r: bool)
        ensures
            r == ElfFileType::is_known_code(value),
    {
        value == 0
            || value == 1
            || value == 2
            || value == 3
            || value == 4
            || value == 0xfe00
            || value == 0xfeff
            || value == 0xff00
            || value == 0xffff
    }

    /// The file type whose number is `value`, for a known number.
    pub open spec fn from_code(value: u16) -> ElfFileType {
        match value {
            0 => ElfFileType::NONE,
            1 => ElfFileType::REL,
            2 => ElfFileType::EXEC,
            3 => ElfFileType::DYN,
            4 => ElfFileType::CORE,
            0xfe00 => ElfFileType::LOOS,
            0xfeff => ElfFileType::HIOS,
            0xff00 => ElfFileType::LOPROC,
            _ => ElfFileType::HIPROC,
        }
    }

    /// The file type whose number is `value`.
    pub fn from(value: u16) -> (r: ElfFileType)
        requires
            ElfFileType::is_known_code(value),
        ensures
            r.code() == value,
            r == ElfFileType::from_code(value),
    {
        match value {
            0 => ElfFileType::NONE,
            1 => ElfFileType::REL,
            2 => ElfFileType::EXEC,
            3 => ElfFileType::DYN,
            4 => ElfFileType::CORE,
            0xfe00 => ElfFileType::LOOS,
            0xfeff => ElfFileType::HIOS,
            0xff00 => ElfFileType::LOPROC,
            _ => ElfFileType::HIPROC,
        }
    }
}

impl From<ElfFileType> for u16 {
    fn from(value: ElfFileType) -> (r: u16) {
        match value {
            ElfFileType::NONE => 0,
            ElfFileType::REL => 1,
            ElfFileType::EXEC => 2,
            ElfFileType::DYN => 3,
            ElfFileType::CORE => 4,
            ElfFileType::LOOS => 0xfe00,
            ElfFileType::HIOS => 0xfeff,
            ElfFileType::LOPROC => 0xff00,
            ElfFileType::HIPROC => 0xffff,
        }
    }
}

impl vstd::std_specs::convert::FromSpecImpl<ElfFileType> for u16 {
    open spec fn obeys_from_spec() -> bool {
        true
    }

    open spec fn from_spec(value: ElfFileType) -> u16 {
        value.code()
    }
}

/// Every file type has a known number, and `ElfFileType::from` and `u16::from`
/// undo each other: a file type turned into its number and back is itself, and
/// a known number turned into a file type and back is itself.
pub proof fn lemma_file_type_code_roundtrip(t: ElfFileType, value: u16)
    ensures
        ElfFileType::is_known_code(t.code()),
        ElfFileType::from_code(t.code()) == t,
        ElfFileType::is_known_code(value) ==> ElfFileType::from_code(value).code() == value,
{
}

/// The ELF machine type values.
#[allow(non_camel_case_types)]
#[derive(Debug, Clone, Copy, PartialEq, Eq, Structural)]
pub enum ElfMachineType {
    /// unknown machine
    NONE,
    /// mips
    MIPS,
    /// amd64
    X86_64,
    /// arm64
    AARCH64,
}

impl ElfMachineType {
    /// The number that stands for this machine type in an ELF file.
    pub open spec fn code(self) -> u16 {
        match self {
            ElfMachineType::NONE => 0,
            ElfMachineType::MIPS => 8,
            ElfMachineType::X86_64 => 0x3e,
            ElfMachineType::AARCH64 => 0xb7,
        }
    }

    /// Whether `value` is the number of one of the known machine types.
    pub open spec fn is_known_code(value: u16) -> bool {
        value == 0
        || value == 8
        || value == 0x3e
        || value == 0xb7
    }

    /// Whether `value` is the number of one of the known machine types.
    pub fn is_known(value: u16) -> (r: bool)
        ensures
            r == ElfMachineType::is_known_code(value),
    {
        value == 0
            || value == 8
            || value == 0x3e
            || value == 0xb7
    }

    /// The machine type whose number is `value`, for a known number.
    pub open spec fn from_code(value: u16) -> ElfMachineType {
        match value {
            0 => ElfMachineType::NONE,
            8 => ElfMachineType::MIPS,
            0x3e => ElfMachineType::X86_64,
            _ => ElfMachineType::AARCH64,
        }
    }

    /// The machine type whose number is `value`.
    pub fn from(value: u16) -> (r: ElfMachineType)
        requires
            ElfMachineType::is_known_code(value),
        ensures
            r.code() == value,
            r == ElfMachineType::from_code(value),
    {
        match value {
            0 => ElfMachineType::NONE,
            8 => ElfMachineType::MIPS,
            0x3e => ElfMachineType::X86_64,
            _ => ElfMachineType::AARCH64,
        }
    }
}

impl From<ElfMachineType> for u16 {
    fn from(value: ElfMachineType) -> (r: u16) {
        match value {
            ElfMachineType::NONE => 0,
            ElfMachineType::MIPS => 8,
            ElfMachineType::X86_64 => 0x3e,
            ElfMachineType::AARCH64 => 0xb7,
        }
    }
}

impl vstd::std_specs::convert::FromSpecImpl<ElfMachineType> for u16 {
    open spec fn obeys_from_spec() -> bool {
        true
    }

    open spec fn from_spec(value: ElfMachineType) -> u16 {
        value.code()
    }
}

/// Every machine type has a known number, and `ElfMachineType::from` and `u16::from`
/// undo each other: a machine type turned into its number and back is itself, and
/// a known number turned into a machine type and back is itself.
pub proof fn lemma_machine_type_code_roundtrip(t: ElfMachineType, value: u16)
    ensures
        ElfMachineType::is_known_code(t.code()),
        ElfMachineType::from_code(t.code()) == t,
        ElfMachineType::is_known_code(value) ==> ElfMachineType::from_code(value).code() == value,
{
}

/// The ELF section type values.
#[allow(non_camel_case_types)]
#[derive(Debug, Clone, Copy, PartialEq, Eq, Structural)]
pub enum ElfSectionType {
    /// inactive
    NULL,
    /// program defined information
    PROGBITS,
    /// symbol table section
    SYMTAB,
    /// string table section
    STRTAB,
    /// relocation section with addends
    RELA,
    /// holds information that marks the file in some way
    NOTE,
    /// no space section
    NOBITS,
    /// holds information about exception handling
    UNWINDX64,
    LOOS,
    HIOS,
    LOPROC,
    HIPROC,
}

impl ElfSectionType {
    /// The number that stands for this section type in an ELF file.
    pub open spec fn code(self) -> u32 {
        match self {
            ElfSectionType::NULL => 0,
            ElfSectionType::PROGBITS => 1,
            ElfSectionType::SYMTAB => 2,
            ElfSectionType::STRTAB => 3,
            ElfSectionType::RELA => 4,
            ElfSectionType::NOTE => 7,
            ElfSectionType::NOBITS => 8,
            ElfSectionType::UNWINDX64 => 0x70000001,
            ElfSectionType::LOOS => 0x60000000,
            ElfSectionType::HIOS => 0x6fffffff,
            ElfSectionType::LOPROC => 0x70000000,
            ElfSectionType::HIPROC => 0x7fffffff,
        }
    }

    /// Whether `value` is the number of one of the known section types.
    pub open spec fn is_known_code(value: u32) -> bool {
        value == 0
        || value == 1
        || value == 2
        || value == 3
        || value == 4
        || value == 7
        || value == 8
        || value == 0x70000001
        || value == 0x60000000
        || value == 0x6fffffff
        || value == 0x70000000
        || value == 0x7fffffff
    }

    /// Whether `value` is the number of one of the known section types.
    pub fn is_known(value: u32) -> (r: bool)
        ensures
            r == ElfSectionType::is_known_code(value),
    {
        value == 0
            || value == 1
            || value == 2
            || value == 3
            || value == 4
            || value == 7
            || value == 8
            || value == 0x70000001
            || value == 0x60000000
            || value == 0x6fffffff
            || value == 0x70000000
            || value == 0x7fffffff
    }

    /// The section type whose number is `value`, for a known number.
    pub open spec fn from_code(value: u32) -> ElfSectionType {
        match value {
            0 => ElfSectionType::NULL,
            1 => ElfSectionType::PROGBITS,
            2 => ElfSectionType::SYMTAB,
            3 => ElfSectionType::STRTAB,
            4 => ElfSectionType::RELA,
            7 => ElfSectionType::NOTE,
            8 => ElfSectionType::NOBITS,
            0x70000001 => ElfSectionType::UNWINDX64,
            0x60000000 => ElfSectionType::LOOS,
            0x6fffffff => ElfSectionType::HIOS,
            0x70000000 => ElfSectionType::LOPROC,
            _ => ElfSectionType::HIPROC,
        }
    }

    /// The section type whose number is `value`.
    pub fn from(value: u32) -> (r: ElfSectionType)
        requires
            ElfSectionType::is_known_code(value),
        ensures
            r.code() == value,
            r == ElfSectionType::from_code(value),
    {
        match value {
            0 => ElfSectionType::NULL,
            1 => ElfSectionType::PROGBITS,
            2 => ElfSectionType::SYMTAB,
            3 => ElfSectionType::STRTAB,
            4 => ElfSectionType::RELA,
            7 => ElfSectionType::NOTE,
            8 => ElfSectionType::NOBITS,
            0x70000001 => ElfSectionType::UNWINDX64,
            0x60000000 => ElfSectionType::LOOS,
            0x6fffffff => ElfSectionType::HIOS,
            0x70000000 => ElfSectionType::LOPROC,
            _ => ElfSectionType::HIPROC,
        }
    }
}

impl From<ElfSectionType> for u32 {
    fn from(value: ElfSectionType) -> (r: u32) {
        match value {
            ElfSectionType::NULL => 0,
            ElfSectionType::PROGBITS => 1,
            ElfSectionType::SYMTAB => 2,
            ElfSectionType::STRTAB => 3,
            ElfSectionType::RELA => 4,
            ElfSectionType::NOTE => 7,
            ElfSectionType::NOBITS => 8,
            ElfSectionType::UNWINDX64 => 0x70000001,
            ElfSectionType::LOOS => 0x60000000,
            ElfSectionType::HIOS => 0x6fffffff,
            ElfSectionType::LOPROC => 0x70000000,
            ElfSectionType::HIPROC => 0x7fffffff,
        }
    }
}

impl vstd::std_specs::convert::FromSpecImpl<ElfSectionType> for u32 {
    open spec fn obeys_from_spec() -> bool {
        true
    }

    open spec fn from_spec(value: ElfSectionType) -> u32 {
        value.code()
    }
}

/// Every section type has a known number, and `ElfSectionType::from` and `u32::from`
/// undo each other: a section type turned into its number and back is itself, and
/// a known number turned into a section type and back is itself.
pub proof fn lemma_section_type_code_roundtrip(t: ElfSectionType, value: u32)
    ensures
        ElfSectionType::is_known_code(t.code()),
        ElfSectionType::from_code(t.code()) == t,
        ElfSectionType::is_known_code(value) ==> ElfSectionType::from_code(value).code() == value,
{
}

/// The ELF section flag values.
#[allow(non_camel_case_types)]
#[derive(Debug, Clone, Copy, PartialEq, Eq, Structural)]
pub enum ElfSectionFlags {
    /// section contains writable data
    WRITE,
    /// section occupies memory
    ALLOC,
    /// section contains instructions
    EXECINSTR,
    /// section may be merged
    MERGE,
    /// section contains strings
    STRINGS,
    /// sh_info holds section index
    INFOLINK,
    /// special ordering requirements
    LINKORDER,
    /// os-specific processing required
    OSNONCONFORMING,
    /// member of section group
    GROUP,
    /// section contains TLS data
    TLS,
    /// os-specific semantics
    MASKOS,
    /// processor-specific semantics
    MASKPROC,
}

impl ElfSectionFlags {
    /// The number that stands for this section flag in an ELF file.
    pub open spec fn code(self) -> u32 {
        match self {
            ElfSectionFlags::WRITE => 1,
            ElfSectionFlags::ALLOC => 2,
            ElfSectionFlags::EXECINSTR => 4,
            ElfSectionFlags::MERGE => 0x10,
            ElfSectionFlags::STRINGS => 0x20,
            ElfSectionFlags::INFOLINK => 0x40,
            ElfSectionFlags::LINKORDER => 0x80,
            ElfSectionFlags::OSNONCONFORMING => 0x100,
            ElfSectionFlags::GROUP => 0x200,
            ElfSectionFlags::TLS => 0x400,
            ElfSectionFlags::MASKOS => 0xff00000,
            ElfSectionFlags::MASKPROC => 0xf0000000,
        }
    }

}

/// The ELF segment type values.
#[allow(non_camel_case_types)]
#[derive(Debug, Clone, Copy, PartialEq, Eq, Structural)]
pub enum ElfSegmentType {
    /// unused entry
    NULL,
    /// loadable segment
    LOAD,
    /// dynamic linking information segment
    DYNAMIC,
    /// path name of interpreter
    INTERP,
    /// aux information
    NOTE,
    /// reserved (not used)
    SHLIB,
    /// location of program header
    PHDR,
    /// thread local storage segment
    TLS,
}

impl ElfSegmentType {
    /// The number that stands for this segment type in an ELF file.
    pub open spec fn code(self) -> u32 {
        match self {
            ElfSegmentType::NULL => 0,
            ElfSegmentType::LOAD => 1,
            ElfSegmentType::DYNAMIC => 2,
            ElfSegmentType::INTERP => 3,
            ElfSegmentType::NOTE => 4,
            ElfSegmentType::SHLIB => 5,
            ElfSegmentType::PHDR => 6,
            ElfSegmentType::TLS => 7,
        }
    }

    /// Whether `value` is the number of one of the known segment types.
    pub open spec fn is_known_code(value: u32) -> bool {
        value == 0
        || value == 1
        || value == 2
        || value == 3
        || value == 4
        || value == 5
        || value == 6
        || value == 7
    }

    /// Whether `value` is the number of one of the known segment types.
    pub fn is_known(value: u32) -> (r: bool)
        ensures
            r == ElfSegmentType::is_known_code(value),
    {
        value == 0
            || value == 1
            || value == 2
            || value == 3
            || value == 4
            || value == 5
            || value == 6
            || value == 7
    }

    /// The segment type whose number is `value`, for a known number.
    pub open spec fn from_code(value: u32) -> ElfSegmentType {
        match value {
            0 => ElfSegmentType::NULL,
            1 => ElfSegmentType::LOAD,
            2 => ElfSegmentType::DYNAMIC,
            3 => ElfSegmentType::INTERP,
            4 => ElfSegmentType::NOTE,
            5 => ElfSegmentType::SHLIB,
            6 => ElfSegmentType::PHDR,
            _ => ElfSegmentType::TLS,
        }
    }

    /// The segment type whose number is `value`.
    pub fn from(value: u32) -> (r: ElfSegmentType)
        requires
            ElfSegmentType::is_known_code(value),
        ensures
            r.code() == value,
            r == ElfSegmentType::from_code(value),
    {
        match value {
            0 => ElfSegmentType::NULL,
            1 => ElfSegmentType::LOAD,
            2 => ElfSegmentType::DYNAMIC,
            3 => ElfSegmentType::INTERP,
            4 => ElfSegmentType::NOTE,
            5 => ElfSegmentType::SHLIB,
            6 => ElfSegmentType::PHDR,
            _ => ElfSegmentType::TLS,
        }
    }
}

impl From<ElfSegmentType> for u32 {
    fn from(value: ElfSegmentType) -> (r: u32) {
        match value {
            ElfSegmentType::NULL => 0,
            ElfSegmentType::LOAD => 1,
            ElfSegmentType::DYNAMIC => 2,
            ElfSegmentType::INTERP => 3,
            ElfSegmentType::NOTE => 4,
            ElfSegmentType::SHLIB => 5,
            ElfSegmentType::PHDR => 6,
            ElfSegmentType::TLS => 7,
        }
    }
}

impl vstd::std_specs::convert::FromSpecImpl<ElfSegmentType> for u32 {
    open spec fn obeys_from_spec() -> bool {
        true
    }

    open spec fn from_spec(value: ElfSegmentType) -> u32 {
        value.code()
    }
}

/// Every segment type has a known number, and `ElfSegmentType::from` and `u32::from`
/// undo each other: a segment type turned into its number and back is itself, and
/// a known number turned into a segment type and back is itself.
pub proof fn lemma_segment_type_code_roundtrip(t: ElfSegmentType, value: u32)
    ensures
        ElfSegmentType::is_known_code(t.code()),
        ElfSegmentType::from_code(t.code()) == t,
        ElfSegmentType::is_known_code(value) ==> ElfSegmentType::from_code(value).code() == value,
{
}

/// The ELF segment flag values.
#[allow(non_camel_case_types)]
#[derive(Debug, Clone, Copy, PartialEq, Eq, Structural)]
pub enum ElfSegmentFlags {
    /// executable
    X,
    /// writable
    W,
    /// readable
    R,
    /// os-specific semantics
    MASKOS,
    /// processor-specific semantics
    MASKPROC,
}

impl ElfSegmentFlags {
    /// The number that stands for this segment flag in an ELF file.
    pub open spec fn code(self) -> u32 {
        match self {
            ElfSegmentFlags::X => 1,
            ElfSegmentFlags::W => 2,
            ElfSegmentFlags::R => 4,
            ElfSegmentFlags::MASKOS => 0xff00000,
            ElfSegmentFlags::MASKPROC => 0xf0000000,
        }
    }

}

/// The ELF symbol type values.
#[allow(non_camel_case_types)]
#[derive(Debug, Clone, Copy, PartialEq, Eq, Structural)]
pub enum ElfSymbolType {
    /// not specified
    NOTYPE,
    /// data object (variable, array, etc.)
    OBJECT,
    /// function or other executable code
    FUNC,
    /// associated with a section, exists mainly for relocation
    SECTION,
    /// symbol's name gives the name of the file associated with the object file
    FILE,
    /// uninitialized common block
    COMMON,
    /// specifies a thread local storage entity
    TLS,
    /// os-specific semantics
    LOOS,
    /// os-specific semantics
    HIOS,
    /// processor-specific semantics
    LOPROC,
    /// processor-specific semantics
    HIPROC,
}

impl ElfSymbolType {
    /// The number that stands for this symbol type in an ELF file.
    pub open spec fn code(self) -> u8 {
        match self {
            ElfSymbolType::NOTYPE => 0,
            ElfSymbolType::OBJECT => 1,
            ElfSymbolType::FUNC => 2,
            ElfSymbolType::SECTION => 3,
            ElfSymbolType::FILE => 4,
            ElfSymbolType::COMMON => 5,
            ElfSymbolType::TLS => 6,
            ElfSymbolType::LOOS => 10,
            ElfSymbolType::HIOS => 12,
            ElfSymbolType::LOPROC => 13,
            ElfSymbolType::HIPROC => 15,
        }
    }

    /// Whether `value` is the number of one of the known symbol types.
    pub open spec fn is_known_code(value: u8) -> bool {
        value == 0
        || value == 1
        || value == 2
        || value == 3
        || value == 4
        || value == 5
        || value == 6
        || value == 10
        || value == 12
        || value == 13
        || value == 15
    }

    /// Whether `value` is the number of one of the known symbol types.
    pub fn is_known(value: u8) -> (r: bool)
        ensures
            r == ElfSymbolType::is_known_code(value),
    {
        value == 0
            || value == 1
            || value == 2
            || value == 3
            || value == 4
            || value == 5
            || value == 6
            || value == 10
            || value == 12
            || value == 13
            || value == 15
    }

    /// The symbol type whose number is `value`, for a known number.
    pub open spec fn from_code(value: u8) -> ElfSymbolType {
        match value {
            0 => ElfSymbolType::NOTYPE,
            1 => ElfSymbolType::OBJECT,
            2 => ElfSymbolType::FUNC,
            3 => ElfSymbolType::SECTION,
            4 => ElfSymbolType::FILE,
            5 => ElfSymbolType::COMMON,
            6 => ElfSymbolType::TLS,
            10 => ElfSymbolType::LOOS,
            12 => ElfSymbolType::HIOS,
            13 => ElfSymbolType::LOPROC,
            _ => ElfSymbolType::HIPROC,
        }
    }

    /// The symbol type whose number is `value`.
    pub fn from(value: u8) -> (r: ElfSymbolType)
        requires
            ElfSymbolType::is_known_code(value),
        ensures
            r.code() == value,
            r == ElfSymbolType::from_code(value),
    {
        match value {
            0 => ElfSymbolType::NOTYPE,
            1 => ElfSymbolType::OBJECT,
            2 => ElfSymbolType::FUNC,
            3 => ElfSymbolType::SECTION,
            4 => ElfSymbolType::FILE,
            5 => ElfSymbolType::COMMON,
            6 => ElfSymbolType::TLS,
            10 => ElfSymbolType::LOOS,
            12 => ElfSymbolType::HIOS,
            13 => ElfSymbolType::LOPROC,
            _ => ElfSymbolType::HIPROC,
        }
    }
}

impl From<ElfSymbolType> for u8 {
    fn from(value: ElfSymbolType) -> (r: u8) {
        match value {
            ElfSymbolType::NOTYPE => 0,
            ElfSymbolType::OBJECT => 1,
            ElfSymbolType::FUNC => 2,
            ElfSymbolType::SECTION => 3,
            ElfSymbolType::FILE => 4,
            ElfSymbolType::COMMON => 5,
            ElfSymbolType::TLS => 6,
            ElfSymbolType::LOOS => 10,
            ElfSymbolType::HIOS => 12,
            ElfSymbolType::LOPROC => 13,
            ElfSymbolType::HIPROC => 15,
        }
    }
}

impl vstd::std_specs::convert::FromSpecImpl<ElfSymbolType> for u8 {
    open spec fn obeys_from_spec() -> bool {
        true
    }

    open spec fn from_spec(value: ElfSymbolType) -> u8 {
        value.code()
    }
}

/// Every symbol type has a known number, and `ElfSymbolType::from` and `u8::from`
/// undo each other: a symbol type turned into its number and back is itself, and
/// a known number turned into a symbol type and back is itself.
pub proof fn lemma_symbol_type_code_roundtrip(t: ElfSymbolType, value: u8)
    ensures
        ElfSymbolType::is_known_code(t.code()),
        ElfSymbolType::from_code(t.code()) == t,
        ElfSymbolType::is_known_code(value) ==> ElfSymbolType::from_code(value).code() == value,
{
}

/// The ELF symbol binding values.
#[allow(non_camel_case_types)]
#[derive(Debug, Clone, Copy, PartialEq, Eq, Structural)]
pub enum ElfSymbolBinding {
    /// local symbols are not visible outside of object file containing def
    LOCAL,
    /// global symbols are visible to all objects being combined
    GLOBAL,
    /// weak symbols resemble global symbols, but their definitions have lower precedence
    WEAK,
    /// os-specific semantics
    LOOS,
    /// os-specific semantics
    HIOS,
    /// processor-specific semantics
    LOPROC,
    /// processor-specific semantics
    HIPROC,
}

impl ElfSymbolBinding {
    /// The number that stands for this symbol binding in an ELF file.
    pub open spec fn code(self) -> u8 {
        match self {
            ElfSymbolBinding::LOCAL => 0,
            ElfSymbolBinding::GLOBAL => 1,
            ElfSymbolBinding::WEAK => 2,
            ElfSymbolBinding::LOOS => 10,
            ElfSymbolBinding::HIOS => 12,
            ElfSymbolBinding::LOPROC => 13,
            ElfSymbolBinding::HIPROC => 15,
        }
    }

}

/// The ELF symbol visibility values.
#[allow(non_camel_case_types)]
#[derive(Debug, Clone, Copy, PartialEq, Eq, Structural)]
pub enum ElfSymbolVisibility {
    /// visibility specified by binding type
    DEFAULT,
    /// defined by processor
    INTERNAL,
    /// symbol not visible to other components
    HIDDEN,
    /// symbol is visible to other components but not preemptable
    PROTECTED,
}

impl ElfSymbolVisibility {
    /// The number that stands for this symbol visibility in an ELF file.
    pub open spec fn code(self) -> u8 {
        match self {
            ElfSymbolVisibility::DEFAULT => 0,
            ElfSymbolVisibility::INTERNAL => 1,
            ElfSymbolVisibility::HIDDEN => 2,
            ElfSymbolVisibility::PROTECTED => 3,
        }
    }

}

/// The ELF relocation type values.
#[allow(non_camel_case_types)]
#[derive(Debug, Clone, Copy, PartialEq, Eq, Structural)]
pub enum ElfRelocationType {
    /// no relocation
    NONE,
    /// absolute 64-bit relocation
    X86_64_64,
    X86_64_PC32,
    X86_64_GOT32,
    X86_64_PLT32,
    X86_64_GOTPCREL,
    X86_64_GOTPCRELX,
    X86_64_REX_GOTPCRELX,
    /// absolute 64-bit relocation
    ARM64_ABS64,
    /// PC-relative 32-bit relocation
    ARM64_PREL32,
    /// relocation for instructions like ADR
    ARM64_ADR_PREL_LO21,
}

impl ElfRelocationType {
    /// The number that stands for this relocation type in an ELF file.
    pub open spec fn code(self) -> u64 {
        match self {
            ElfRelocationType::NONE => 0,
            ElfRelocationType::X86_64_64 => 1,
            ElfRelocationType::X86_64_PC32 => 2,
            ElfRelocationType::X86_64_GOT32 => 3,
            ElfRelocationType::X86_64_PLT32 => 4,
            ElfRelocationType::X86_64_GOTPCREL => 9,
            ElfRelocationType::X86_64_GOTPCRELX => 0x29,
            ElfRelocationType::X86_64_REX_GOTPCRELX => 0x2a,
            ElfRelocationType::ARM64_ABS64 => 0x101,
            ElfRelocationType::ARM64_PREL32 => 0x105,
            ElfRelocationType::ARM64_ADR_PREL_LO21 => 0x111,
        }
    }

    /// Whether `value` is the number of one of the known relocation types.
    pub open spec fn is_known_code(value: u64) -> bool {
        value == 0
        || value == 1
        || value == 2
        || value == 3
        || value == 4
        || value == 9
        || value == 0x29
        || value == 0x2a
        || value == 0x101
        || value == 0x105
        || value == 0x111
    }

    /// Whether `value` is the number of one of the known relocation types.
    pub fn is_known(value: u64) -> (r: bool)
        ensures
            r == ElfRelocationType::is_known_code(value),
    {
        value == 0
            || value == 1
            || value == 2
            || value == 3
            || value == 4
            || value == 9
            || value == 0x29
            || value == 0x2a
            || value == 0x101
            || value == 0x105
            || value == 0x111
    }

    /// The relocation type whose number is `value`, for a known number.
    pub open spec fn from_code(value: u64) -> ElfRelocationType {
        match value {
            0 => ElfRelocationType::NONE,
            1 => ElfRelocationType::X86_64_64,
            2 => ElfRelocationType::X86_64_PC32,
            3 => ElfRelocationType::X86_64_GOT32,
            4 => ElfRelocationType::X86_64_PLT32,
            9 => ElfRelocationType::X86_64_GOTPCREL,
            0x29 => ElfRelocationType::X86_64_GOTPCRELX,
            0x2a => ElfRelocationType::X86_64_REX_GOTPCRELX,
            0x101 => ElfRelocationType::ARM64_ABS64,
            0x105 => ElfRelocationType::ARM64_PREL32,
            _ => ElfRelocationType::ARM64_ADR_PREL_LO21,
        }
    }

    /// The relocation type whose number is `value`.
    pub fn from(value: u64) -> (r: ElfRelocationType)
        requires
            ElfRelocationType::is_known_code(value),
        ensures
            r.code() == value,
            r == ElfRelocationType::from_code(value),
    {
        match value {
            0 => ElfRelocationType::NONE,
            1 => ElfRelocationType::X86_64_64,
            2 => ElfRelocationType::X86_64_PC32,
            3 => ElfRelocationType::X86_64_GOT32,
            4 => ElfRelocationType::X86_64_PLT32,
            9 => ElfRelocationType::X86_64_GOTPCREL,
            0x29 => ElfRelocationType::X86_64_GOTPCRELX,
            0x2a => ElfRelocationType::X86_64_REX_GOTPCRELX,
            0x101 => ElfRelocationType::ARM64_ABS64,
            0x105 => ElfRelocationType::ARM64_PREL32,
            _ => ElfRelocationType::ARM64_ADR_PREL_LO21,
        }
    }
}

impl From<ElfRelocationType> for u64 {
    fn from(value: ElfRelocationType) -> (r: u64) {
        match value {
            ElfRelocationType::NONE => 0,
            ElfRelocationType::X86_64_64 => 1,
            ElfRelocationType::X86_64_PC32 => 2,
            ElfRelocationType::X86_64_GOT32 => 3,
            ElfRelocationType::X86_64_PLT32 => 4,
            ElfRelocationType::X86_64_GOTPCREL => 9,
            ElfRelocationType::X86_64_GOTPCRELX => 0x29,
            ElfRelocationType::X86_64_REX_GOTPCRELX => 0x2a,
            ElfRelocationType::ARM64_ABS64 => 0x101,
            ElfRelocationType::ARM64_PREL32 => 0x105,
            ElfRelocationType::ARM64_ADR_PREL_LO21 => 0x111,
        }
    }
}

impl vstd::std_specs::convert::FromSpecImpl<ElfRelocationType> for u64 {
    open spec fn obeys_from_spec() -> bool {
        true
    }

    open spec fn from_spec(value: ElfRelocationType) -> u64 {
        value.code()
    }
}

/// Every relocation type has a known number, and `ElfRelocationType::from` and `u64::from`
/// undo each other: a relocation type turned into its number and back is itself, and
/// a known number turned into a relocation type and back is itself.
pub proof fn lemma_relocation_type_code_roundtrip(t: ElfRelocationType, value: u64)
    ensures
        ElfRelocationType::is_known_code(t.code()),
        ElfRelocationType::from_code(t.code()) == t,
        ElfRelocationType::is_known_code(value) ==> ElfRelocationType::from_code(value).code() == value,
{
}

/// The byte order in which the multi-byte fields of an ELF file are stored.
#[derive(Debug, Clone, Copy, PartialEq, Eq, Structural)]
pub enum Endianness {
    /// Most significant byte first.
    Big,
    /// Least significant byte first.
    Little,
}

/// The identification bytes at the start of an ELF file.
#[derive(Debug, Clone, Copy, PartialEq, Eq, Structural)]
pub struct ElfFileIdentifier {
    pub class: u8,
    pub endianness: Endianness,
    pub version: u8,
    pub os_abi: u8,
    pub abi_version: u8,
}

/// The ELF64 file header.
#[derive(Debug, Clone, Copy, PartialEq, Eq, Structural)]
pub struct ElfHeader {
    pub eident: ElfFileIdentifier,
    /// file type
    pub ty: ElfFileType,
    /// machine architecture
    pub machine: ElfMachineType,
    /// elf format version
    pub version: u32,
    /// entry point
    pub entry: u64,
    /// program header file offset
    pub phoff: u64,
    /// section header file offset
    pub shoff: u64,
    /// arch specific flags
    pub flags: u32,
    /// size of elf header in bytes
    pub ehsize: u16,
    /// size of program header entry
    pub phentsize: u16,
    /// number of program header entries
    pub phnum: u16,
    /// size of section header entry
    pub shentsize: u16,
    /// number of section header entries
    pub shnum: u16,
    /// section name string table section
    pub shstrndx: u16,
}

/// A section header together with the section's name, its bytes and, for a
/// relocation section, the relocations it holds.
#[derive(Debug)]
pub struct ElfSectionHeader {
    /// section name (index into the section header string table)
    pub name_offset: u32,
    /// section type
    pub ty: ElfSectionType,
    /// section flags
    pub flags: u64,
    /// address in memory image
    pub addr: u64,
    /// offset in file
    pub offset: u64,
    /// size in bytes
    pub size: u64,
    /// index of a related section
    pub link: u32,
    /// depends on section type
    pub info: u32,
    /// alignment in bytes
    pub addralign: u64,
    /// size of each entry in section
    pub entsize: u64,
    pub name: String,
    pub data: Vec<u8>,
    pub relocations: Option<Vec<ElfRelocationA>>,
}

/// The mathematical value of an [`ElfSectionHeader`].
pub struct SpecSectionHeader {
    pub name_offset: u32,
    pub ty: ElfSectionType,
    pub flags: u64,
    pub addr: u64,
    pub offset: u64,
    pub size: u64,
    pub link: u32,
    pub info: u32,
    pub addralign: u64,
    pub entsize: u64,
    pub name: Seq<char>,
    pub data: Seq<u8>,
    pub relocations: Option<Seq<ElfRelocationA>>,
}

impl View for ElfSectionHeader {
    type V = SpecSectionHeader;

    open spec fn view(&self) -> SpecSectionHeader {
        SpecSectionHeader {
            name_offset: self.name_offset,
            ty: self.ty,
            flags: self.flags,
            addr: self.addr,
            offset: self.offset,
            size: self.size,
            link: self.link,
            info: self.info,
            addralign: self.addralign,
            entsize: self.entsize,
            name: self.name@,
            data: self.data@,
            relocations: match self.relocations {
                Some(rs) => Some(rs@),
                None => None,
            },
        }
    }
}

impl Clone for ElfSectionHeader {
    fn clone(&self) -> (r: Self)
        ensures
            r@ == self@,
    {
        let relocations = match &self.relocations {
            Some(rs) => Some(copy_relocations(rs)),
            None => None,
        };
        ElfSectionHeader {
            name_offset: self.name_offset,
            ty: self.ty,
            flags: self.flags,
            addr: self.addr,
            offset: self.offset,
            size: self.size,
            link: self.link,
            info: self.info,
            addralign: self.addralign,
            entsize: self.entsize,
            name: self.name.clone(),
            data: copy_bytes(&self.data),
            relocations,
        }
    }
}

/// A fresh vector with the same bytes.
pub(crate) fn copy_bytes(v: &Vec<u8>) -> (r: Vec<u8>)
    ensures
        r@ == v@,
{
    let mut r: Vec<u8> = Vec::with_capacity(v.len());
    for i in 0..v.len()
        invariant
            r@ == v@.take(i as int),
    {
        r.push(v[i]);
    }
    r
}

/// A fresh vector with the same relocations.
pub(crate) fn copy_relocations(v: &Vec<ElfRelocationA>) -> (r: Vec<ElfRelocationA>)
    ensures
        r@ == v@,
{
    let mut r: Vec<ElfRelocationA> = Vec::with_capacity(v.len());
    for i in 0..v.len()
        invariant
            r@ == v@.take(i as int),
    {
        r.push(v[i]);
    }
    r
}

/// A program header.
#[derive(Debug, Clone, Copy, PartialEq, Eq, Structural)]
pub struct ElfSegmentHeader {
    /// entry type
    pub ty: ElfSegmentType,
    /// access permission flags
    pub flags: u64,
    /// file offset of contents
    pub offset: u64,
    /// virtual address in memory image
    pub vaddr: u64,
    /// physical address (not used)
    pub paddr: u64,
    /// size of contents in file
    pub filesz: u64,
    /// size of contents in memory
    pub memsz: u64,
    /// alignment in memory and file
    pub align: u64,
}

/// An entry of a symbol table, with its name read from the string table.
#[derive(Debug)]
pub struct ElfSymbol {
    /// symbol name (index into symbol string table)
    pub name_offset: u32,
    pub name: String,
    /// specifies symbols type and binding attributes
    pub info: u8,
    /// specifies a symbol's visibility
    pub other: u8,
    /// holds the relevant section header table index
    pub shndx: u16,
    /// value of associated symbol (absolute value, address, etc.)
    pub value: u64,
    /// size of symbol
    pub size: u64,
}

/// The mathematical value of an [`ElfSymbol`].
pub struct SpecSymbol {
    pub name_offset: u32,
    pub name: Seq<char>,
    pub info: u8,
    pub other: u8,
    pub shndx: u16,
    pub value: u64,
    pub size: u64,
}

impl View for ElfSymbol {
    type V = SpecSymbol;

    open spec fn view(&self) -> SpecSymbol {
        SpecSymbol {
            name_offset: self.name_offset,
            name: self.name@,
            info: self.info,
            other: self.other,
            shndx: self.shndx,
            value: self.value,
            size: self.size,
        }
    }
}

impl Clone for ElfSymbol {
    fn clone(&self) -> (r: Self)
        ensures
            r@ == self@,
    {
        ElfSymbol {
            name_offset: self.name_offset,
            name: self.name.clone(),
            info: self.info,
            other: self.other,
            shndx: self.shndx,
            value: self.value,
            size: self.size,
        }
    }
}

/// A relocation entry with an explicit addend.
#[derive(Debug, Clone, Copy, PartialEq, Eq, Structural)]
pub struct ElfRelocationA {
    /// gives the location at which to apply the relocation action
    pub offset: u64,
    /// gives symbol table index to relocate and the type of relocation to apply
    pub info: u64,
    /// specifies constant addend used to compute the value to be stored in relocatable field
    pub addend: i64,
}

/// The values of a vector of section headers.
pub open spec fn sections_view(v: Seq<ElfSectionHeader>) -> Seq<SpecSectionHeader> {
    v.map_values(|h: ElfSectionHeader| h@)
}

/// The values of a vector of symbols.
pub open spec fn symbols_view(v: Seq<ElfSymbol>) -> Seq<SpecSymbol> {
    v.map_values(|y: ElfSymbol| y@)
}

/// A parsed ELF file: its header, the bytes between the header and the
/// section header table, and the section headers with their contents.
#[derive(Debug)]
pub struct ElfFile {
    pub header: ElfHeader,
    pub section_data: Vec<u8>,
    pub section_headers: Vec<ElfSectionHeader>,
}

/// The mathematical value of an [`ElfFile`].
pub struct SpecElfFile {
    pub header: ElfHeader,
    pub section_data: Seq<u8>,
    pub section_headers: Seq<SpecSectionHeader>,
}

impl View for ElfFile {
    type V = SpecElfFile;

    open spec fn view(&self) -> SpecElfFile {
        SpecElfFile {
            header: self.header,
            section_data: self.section_data@,
            section_headers: sections_view(self.section_headers@),
        }
    }
}

impl ElfSymbol {
    /// The binding: the high four bits of `info`.
    pub fn bind(self) -> (r: u8)
        ensures
            r == self.info / 16,
    {
        let info = self.info;
        assert(info >> 4 == info / 16) by (bit_vector);
        info >> 4
    }

    /// The symbol type: the low four bits of `info`.
    pub fn ty(self) -> (r: u8)
        ensures
            r == self.info % 16,
    {
        let info = self.info;
        assert(info & 0xf == info % 16) by (bit_vector);
        info & 0xf
    }

    /// Stores `binding` in the high and `ty` in the low four bits of `info`;
    /// the bits of `binding` above the fourth are lost.
    pub fn set_info(&mut self, binding: u8, ty: u8)
        ensures
            final(self).info == (binding % 16) * 16 + ty % 16,
            final(self).name_offset == old(self).name_offset,
            final(self).name == old(self).name,
            final(self).other == old(self).other,
            final(self).shndx == old(self).shndx,
            final(self).value == old(self).value,
            final(self).size == old(self).size,
    {
        assert((binding << 4) as int + (ty & 0xf) as int == (binding % 16) * 16 + ty % 16
            && (binding % 16) * 16 + ty % 16 <= 0xff) by (bit_vector);
        self.info = (binding << 4) + (ty & 0xf);
    }

    /// The visibility: the low two bits of `other`.
    pub fn visibility(self) -> (r: u8)
        ensures
            r == self.other % 4,
    {
        let other = self.other;
        assert(other & 0x3 == other % 4) by (bit_vector);
        other & 0x3
    }
}

impl ElfRelocationA {
    /// The symbol table index: the high 32 bits of `info`.
    pub fn sym(self) -> (r: u64)
        ensures
            r == self.info / 0x1_0000_0000,
    {
        let info = self.info;
        assert(info >> 32 == info / 0x1_0000_0000) by (bit_vector);
        info >> 32
    }

    /// The relocation type: the low 32 bits of `info`.
    pub fn ty(self) -> (r: u64)
        ensures
            r == self.info % 0x1_0000_0000,
    {
        let info = self.info;
        assert(info & 0xffffffff == info % 0x1_0000_0000) by (bit_vector);
        info & 0xffffffff
    }

    /// Stores `symbol` in the high and `ty` in the low 32 bits of `info`;
    /// the bits of `symbol` above the 32nd are lost.
    pub fn set_info(&mut self, symbol: u64, ty: u64)
        ensures
            final(self).info == (symbol % 0x1_0000_0000) * 0x1_0000_0000 + ty % 0x1_0000_0000,
            final(self).offset == old(self).offset,
            final(self).addend == old(self).addend,
    {
        assert((symbol << 32) as int + (ty & 0xffffffff) as int
            == (symbol % 0x1_0000_0000) * 0x1_0000_0000 + ty % 0x1_0000_0000
            && (symbol % 0x1_0000_0000) * 0x1_0000_0000 + ty % 0x1_0000_0000 <= 0xffff_ffff_ffff_ffff)
            by (bit_vector);
        self.info = (symbol << 32) + (ty & 0xffffffff);
    }
}


/// What `ElfSymbol::set_info` stores, `ElfSymbol::bind` and `ElfSymbol::ty`
/// read back as the low four bits of the binding and the type; and storing the
/// binding and type read from an `info` gives that `info` back.
pub proof fn lemma_symbol_info_roundtrip(binding: u8, ty: u8, info: u8)
    ensures
        ((binding % 16) * 16 + ty % 16) / 16 == binding % 16,
        ((binding % 16) * 16 + ty % 16) % 16 == ty % 16,
        ((info / 16) % 16) * 16 + (info % 16) % 16 == info,
{
}

/// What `ElfRelocationA::set_info` stores, `ElfRelocationA::sym` and
/// `ElfRelocationA::ty` read back as the low 32 bits of the symbol and the
/// type; and storing the symbol and type read from an `info` gives that
/// `info` back.
pub proof fn lemma_relocation_info_roundtrip(symbol: u64, ty: u64, info: u64)
    ensures
        ((symbol % 0x1_0000_0000) * 0x1_0000_0000 + ty % 0x1_0000_0000) / 0x1_0000_0000 == symbol
            % 0x1_0000_0000,
        ((symbol % 0x1_0000_0000) * 0x1_0000_0000 + ty % 0x1_0000_0000) % 0x1_0000_0000 == ty
            % 0x1_0000_0000,
        ((info / 0x1_0000_0000) % 0x1_0000_0000) * 0x1_0000_0000 + (info % 0x1_0000_0000)
            % 0x1_0000_0000 == info,
{
}

} // verus!
