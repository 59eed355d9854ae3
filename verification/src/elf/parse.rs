//! Parsing ELF64 files from bytes.
//!
//! Each parser is stated against a spec function that says, for every input,
//! whether it is parsed (and into what), rejected with [`ElfParseError`], or
//! outside what the file format gives a meaning to (an index or offset that
//! points outside the file, a number that names no known type, a name that is
//! not NUL-terminated UTF-8). `ElfHeader::parse`, `ElfFile::parse`,
//! `ElfFile::parse_helper` and `ElfFile::get_symbols` require that their input
//! is not of the last kind; `ElfFile::try_parse` and `ElfFile::try_get_symbols`
//! answer `None` for it.

use crate::elf::read::{
    cstr_bytes, nul_terminated, read_u16, read_u32, read_u64, read_u8, tag, take,
    lemma_u32_at_skip, lemma_u64_at_skip, try_read_cstr, u16_at, u32_at, u64_at,
};
use crate::elf::{
    sections_view, symbols_view, ElfFileIdentifier, ElfFileType, ElfHeader,
    ElfMachineType, ElfRelocationA, ElfSectionHeader, ElfSectionType, ElfSegmentHeader,
    ElfSegmentType, ElfSymbol, Endianness, ElfFile, SpecElfFile, SpecSectionHeader, SpecSymbol,
    ELF_MAGIC,
};
use vstd::prelude::*;
use vstd::slice::{slice_subrange, slice_to_vec};
use vstd::utf8::{decode_utf8, valid_utf8};

verus! {

/// The input could not be parsed as an ELF file.
#[derive(Debug)]
pub struct ElfParseError;

/// What the parser makes of an input.
pub enum Outcome<T> {
    /// The input is parsed into this value.
    Parsed(T),
    /// The input is rejected with an [`ElfParseError`].
    Rejected,
    /// The input is outside what the format gives a meaning to.
    Undefined,
}

/// Extending `Seq::new(k, f)` by `f(k)` gives `Seq::new(k + 1, f)`.
proof fn lemma_seq_new_push<A>(k: nat, f: spec_fn(int) -> A)
    ensures
        Seq::new(k, f).push(f(k as int)) =~= Seq::new(k + 1, f),
{
}

/// `s.skip(a).skip(b)` is `s.skip(a + b)`.
proof fn lemma_skip_skip<T>(s: Seq<T>, a: int, b: int)
    requires
        0 <= a,
        0 <= b,
        a + b <= s.len(),
    ensures
        s.skip(a).skip(b) =~= s.skip(a + b),
{
}

/// The byte order that identification byte `b` (1 or 2) stands for.
pub open spec fn endianness_of(b: u8) -> Endianness {
    if b == 1 {
        Endianness::Little
    } else {
        Endianness::Big
    }
}

/// The input starts with the ELF magic bytes.
pub open spec fn has_magic(s: Seq<u8>) -> bool {
    s.len() >= 4 && s[0] == 0x7f && s[1] == 0x45 && s[2] == 0x4c && s[3] == 0x46
}

/// The file header that the first 64 bytes of `s` encode.
pub open spec fn header_at(s: Seq<u8>) -> ElfHeader {
    let e = endianness_of(s[5]);
    ElfHeader {
        eident: ElfFileIdentifier {
            class: s[4],
            endianness: e,
            version: s[6],
            os_abi: s[7],
            abi_version: s[8],
        },
        ty: ElfFileType::from_code(u16_at(s, 16, e)),
        machine: ElfMachineType::from_code(u16_at(s, 18, e)),
        version: u32_at(s, 20, e),
        entry: u64_at(s, 24, e),
        phoff: u64_at(s, 32, e),
        shoff: u64_at(s, 40, e),
        flags: u32_at(s, 48, e),
        ehsize: u16_at(s, 52, e),
        phentsize: u16_at(s, 54, e),
        phnum: u16_at(s, 56, e),
        shentsize: u16_at(s, 58, e),
        shnum: u16_at(s, 60, e),
        shstrndx: u16_at(s, 62, e),
    }
}

/// What the header parser makes of `s`: the magic bytes, a byte order of 1
/// (little) or 2 (big), 64 bytes in all, and a known file type and machine.
pub open spec fn parse_header_spec(s: Seq<u8>) -> Outcome<ElfHeader> {
    if !has_magic(s) || s.len() < 6 {
        Outcome::Rejected
    } else if s[5] != 1 && s[5] != 2 {
        Outcome::Undefined
    } else if s.len() < 64 {
        Outcome::Rejected
    } else if !ElfFileType::is_known_code(u16_at(s, 16, endianness_of(s[5])))
        || !ElfMachineType::is_known_code(u16_at(s, 18, endianness_of(s[5]))) {
        Outcome::Undefined
    } else {
        Outcome::Parsed(header_at(s))
    }
}

impl ElfHeader {
    /// Parses the file header at the start of `input` and gives back the rest.
    pub fn parse(input: &[u8]) -> (r: Result<(&[u8], ElfHeader), ElfParseError>)
        requires
            !(parse_header_spec(input@) is Undefined),
        ensures
            match parse_header_spec(input@) {
                Outcome::Parsed(h) => r matches Ok((rest, hdr)) && hdr == h && rest@ == input@.skip(
                    64,
                ),
                _ => r is Err,
            },
    {
        match Self::try_parse(input) {
            Some(r) => r,
            None => {
                assert(false);
                Err(ElfParseError)
            },
        }
    }

    /// Parses the file header at the start of `input` and gives back the
    /// rest; `None` where the header is outside what the format gives a
    /// meaning to.
    #[verifier::spinoff_prover]
    fn try_parse(input: &[u8]) -> (r: Option<Result<(&[u8], ElfHeader), ElfParseError>>)
        ensures
            match parse_header_spec(input@) {
                Outcome::Parsed(h) => r matches Some(Ok((rest, hdr))) && hdr == h && rest@
                    == input@.skip(64),
                Outcome::Rejected => r matches Some(Err(_)),
                Outcome::Undefined => r is None,
            },
    {
        let ghost s = input@;
        let magic: [u8; 4] = ELF_MAGIC;
        assert(magic@ =~= seq![0x7fu8, 0x45u8, 0x4cu8, 0x46u8]);
        let input = match tag(input, magic.as_slice()) {
            Some(rest) => rest,
            None => {
                assert(!has_magic(s)) by {
                    if has_magic(s) {
                        assert(s.take(4) =~= magic@);
                    }
                }
                return Some(Err(ElfParseError));
            },
        };
        assert(has_magic(s)) by {
            assert(s.take(4)[0] == magic@[0]);
            assert(s.take(4)[1] == magic@[1]);
            assert(s.take(4)[2] == magic@[2]);
            assert(s.take(4)[3] == magic@[3]);
        }
        let (input, class) = match read_u8(input) {
            Some(p) => p,
            None => return Some(Err(ElfParseError)),
        };
        let (input, b) = match read_u8(input) {
            Some(p) => p,
            None => return Some(Err(ElfParseError)),
        };
        proof {
            lemma_skip_skip(s, 4, 1);
            lemma_skip_skip(s, 5, 1);
        }
        let endianness = match b {
            0x01 => Endianness::Little,
            0x02 => Endianness::Big,
            _ => return None,
        };
        if input.len() < 58 {
            return Some(Err(ElfParseError));
        }
        let (input, version) = read_u8(input).unwrap();
        let (input, os_abi) = read_u8(input).unwrap();
        let (input, abi_version) = read_u8(input).unwrap();
        let (input, _) = take(input, 7).unwrap();
        proof {
            lemma_skip_skip(s, 6, 1);
            lemma_skip_skip(s, 7, 1);
            lemma_skip_skip(s, 8, 1);
            lemma_skip_skip(s, 9, 7);
        }
        let eident = ElfFileIdentifier { class, endianness, version, os_abi, abi_version };
        let (input, ty) = read_u16(input, endianness).unwrap();
        let (input, machine) = read_u16(input, endianness).unwrap();
        let (input, version) = read_u32(input, endianness).unwrap();
        let (input, entry) = read_u64(input, endianness).unwrap();
        let (input, phoff) = read_u64(input, endianness).unwrap();
        let (input, shoff) = read_u64(input, endianness).unwrap();
        let (input, flags) = read_u32(input, endianness).unwrap();
        proof {
            lemma_skip_skip(s, 16, 2);
            lemma_skip_skip(s, 18, 2);
            lemma_skip_skip(s, 20, 4);
            lemma_skip_skip(s, 24, 8);
            lemma_skip_skip(s, 32, 8);
            lemma_skip_skip(s, 40, 8);
            lemma_skip_skip(s, 48, 4);
        }
        let (input, ehsize) = read_u16(input, endianness).unwrap();
        let (input, phentsize) = read_u16(input, endianness).unwrap();
        let (input, phnum) = read_u16(input, endianness).unwrap();
        let (input, shentsize) = read_u16(input, endianness).unwrap();
        let (input, shnum) = read_u16(input, endianness).unwrap();
        let (input, shstrndx) = read_u16(input, endianness).unwrap();
        proof {
            lemma_skip_skip(s, 52, 2);
            lemma_skip_skip(s, 54, 2);
            lemma_skip_skip(s, 56, 2);
            lemma_skip_skip(s, 58, 2);
            lemma_skip_skip(s, 60, 2);
            lemma_skip_skip(s, 62, 2);
        }
        if !ElfFileType::is_known(ty) || !ElfMachineType::is_known(machine) {
            return None;
        }
        let hdr = ElfHeader {
            eident,
            ty: ElfFileType::from(ty),
            machine: ElfMachineType::from(machine),
            version,
            entry,
            phoff,
            shoff,
            flags,
            ehsize,
            phentsize,
            phnum,
            shentsize,
            shnum,
            shstrndx,
        };
        Some(Ok((input, hdr)))
    }
}

/// The section header that the 64 bytes of `s` at `i` encode, with no name,
/// contents or relocations yet.
pub open spec fn section_header_at(s: Seq<u8>, i: int, e: Endianness) -> SpecSectionHeader {
    SpecSectionHeader {
        name_offset: u32_at(s, i, e),
        ty: ElfSectionType::from_code(u32_at(s, i + 4, e)),
        flags: u64_at(s, i + 8, e),
        addr: u64_at(s, i + 16, e),
        offset: u64_at(s, i + 24, e),
        size: u64_at(s, i + 32, e),
        link: u32_at(s, i + 40, e),
        info: u32_at(s, i + 44, e),
        addralign: u64_at(s, i + 48, e),
        entsize: u64_at(s, i + 56, e),
        name: Seq::empty(),
        data: Seq::empty(),
        relocations: None,
    }
}

/// The section header at `s[i..]` has a known section type.
pub open spec fn section_type_known_at(s: Seq<u8>, i: int, e: Endianness) -> bool {
    ElfSectionType::is_known_code(u32_at(s, i + 4, e))
}

/// The program header that the 60 bytes of `s` at `i` encode.
pub open spec fn segment_header_at(s: Seq<u8>, i: int, e: Endianness) -> ElfSegmentHeader {
    ElfSegmentHeader {
        ty: ElfSegmentType::from_code(u32_at(s, i, e)),
        flags: u64_at(s, i + 4, e),
        offset: u64_at(s, i + 12, e),
        vaddr: u64_at(s, i + 20, e),
        paddr: u64_at(s, i + 28, e),
        filesz: u64_at(s, i + 36, e),
        memsz: u64_at(s, i + 44, e),
        align: u64_at(s, i + 52, e),
    }
}

/// The symbol that the 24 bytes of `s` at `i` encode, with no name yet.
pub open spec fn symbol_at(s: Seq<u8>, i: int, e: Endianness) -> SpecSymbol {
    SpecSymbol {
        name_offset: u32_at(s, i, e),
        name: Seq::empty(),
        info: s[i + 4],
        other: s[i + 5],
        shndx: u16_at(s, i + 6, e),
        value: u64_at(s, i + 8, e),
        size: u64_at(s, i + 16, e),
    }
}

/// The relocation that the 24 bytes of `s` at `i` encode.
pub open spec fn relocation_at(s: Seq<u8>, i: int, e: Endianness) -> ElfRelocationA {
    ElfRelocationA {
        offset: u64_at(s, i, e),
        info: u64_at(s, i + 8, e),
        addend: u64_at(s, i + 16, e) as i64,
    }
}

/// `s` is a whole, non-empty table of 24-byte entries.
pub open spec fn is_table_of_24(s: Seq<u8>) -> bool {
    s.len() > 0 && s.len() % 24 == 0
}

/// The symbols of the table `s`, one per 24 bytes.
pub open spec fn symbols_at(s: Seq<u8>, e: Endianness) -> Seq<SpecSymbol> {
    Seq::new((s.len() / 24) as nat, |k: int| symbol_at(s, 24 * k, e))
}

/// The relocations of the table `s`, one per 24 bytes.
pub open spec fn relocations_at(s: Seq<u8>, e: Endianness) -> Seq<ElfRelocationA> {
    Seq::new((s.len() / 24) as nat, |k: int| relocation_at(s, 24 * k, e))
}

proof fn lemma_table_end(len: int, pos: int, k: int, w: int)
    requires
        w > 0,
        pos == w * k,
        0 <= len - pos < w,
        k >= 0,
    ensures
        len / w == k,
        len % w == len - pos,
{
    assert(len / w == k && len % w == len - pos) by (nonlinear_arith)
        requires
            w > 0,
            pos == w * k,
            0 <= len - pos < w,
            k >= 0,
    ;
}

impl ElfSectionHeader {
    /// Parses the 64-byte section header at the start of `input`, leaving the
    /// name, contents and relocations empty, and gives back the rest.
    fn parse(input: &[u8], endianness: Endianness) -> (r: Result<(&[u8], Self), ElfParseError>)
        requires
            input@.len() >= 64 ==> section_type_known_at(input@, 0, endianness),
        ensures
            input@.len() >= 64 ==> (r matches Ok((rest, h)) && h@ == section_header_at(
                input@,
                0,
                endianness,
            ) && rest@ == input@.skip(64)),
            input@.len() < 64 ==> r is Err,
    {
        let ghost s = input@;
        if input.len() < 64 {
            return Err(ElfParseError);
        }
        let (input, name_offset) = read_u32(input, endianness).unwrap();
        let (input, ty) = read_u32(input, endianness).unwrap();
        let (input, flags) = read_u64(input, endianness).unwrap();
        let (input, addr) = read_u64(input, endianness).unwrap();
        let (input, offset) = read_u64(input, endianness).unwrap();
        proof {
            lemma_skip_skip(s, 0, 4);
            lemma_skip_skip(s, 4, 4);
            lemma_skip_skip(s, 8, 8);
            lemma_skip_skip(s, 16, 8);
            lemma_skip_skip(s, 24, 8);
        }
        let (input, size) = read_u64(input, endianness).unwrap();
        let (input, link) = read_u32(input, endianness).unwrap();
        let (input, info) = read_u32(input, endianness).unwrap();
        let (input, addralign) = read_u64(input, endianness).unwrap();
        let (input, entsize) = read_u64(input, endianness).unwrap();
        proof {
            lemma_skip_skip(s, 32, 8);
            lemma_skip_skip(s, 40, 4);
            lemma_skip_skip(s, 44, 4);
            lemma_skip_skip(s, 48, 8);
            lemma_skip_skip(s, 56, 8);
        }
        let hdr = ElfSectionHeader {
            name_offset,
            ty: ElfSectionType::from(ty),
            flags,
            addr,
            offset,
            size,
            link,
            info,
            addralign,
            entsize,
            name: String::new(),
            data: Vec::new(),
            relocations: None,
        };
        Ok((input, hdr))
    }
}

impl ElfSegmentHeader {
    /// Parses the 60-byte program header at the start of `input` and gives
    /// back the rest.
    fn parse(input: &[u8], endianness: Endianness) -> (r: Result<(&[u8], Self), ElfParseError>)
        requires
            input@.len() >= 60 ==> ElfSegmentType::is_known_code(u32_at(input@, 0, endianness)),
        ensures
            input@.len() >= 60 ==> (r matches Ok((rest, h)) && h == segment_header_at(
                input@,
                0,
                endianness,
            ) && rest@ == input@.skip(60)),
            input@.len() < 60 ==> r is Err,
    {
        let ghost s = input@;
        if input.len() < 60 {
            return Err(ElfParseError);
        }
        let (input, ty) = read_u32(input, endianness).unwrap();
        let (input, flags) = read_u64(input, endianness).unwrap();
        let (input, offset) = read_u64(input, endianness).unwrap();
        let (input, vaddr) = read_u64(input, endianness).unwrap();
        proof {
            lemma_skip_skip(s, 0, 4);
            lemma_skip_skip(s, 4, 8);
            lemma_skip_skip(s, 12, 8);
            lemma_skip_skip(s, 20, 8);
        }
        let (input, paddr) = read_u64(input, endianness).unwrap();
        let (input, filesz) = read_u64(input, endianness).unwrap();
        let (input, memsz) = read_u64(input, endianness).unwrap();
        let (input, align) = read_u64(input, endianness).unwrap();
        proof {
            lemma_skip_skip(s, 28, 8);
            lemma_skip_skip(s, 36, 8);
            lemma_skip_skip(s, 44, 8);
            lemma_skip_skip(s, 52, 8);
        }
        let hdr = ElfSegmentHeader {
            ty: ElfSegmentType::from(ty),
            flags,
            offset,
            vaddr,
            paddr,
            filesz,
            memsz,
            align,
        };
        Ok((input, hdr))
    }
}

impl ElfSymbol {
    /// Parses the whole of `input` as a non-empty table of symbols.
    fn parse_many(input: &[u8], endianness: Endianness) -> (r: Result<Vec<Self>, ElfParseError>)
        ensures
            is_table_of_24(input@) ==> (r matches Ok(v) && symbols_view(v@) == symbols_at(
                input@,
                endianness,
            )),
            !is_table_of_24(input@) ==> r is Err,
    {
        let ghost s = input@;
        let mut symbols: Vec<ElfSymbol> = Vec::new();
        let mut rest = input;
        let mut pos: usize = 0;
        let total = input.len();
        let ghost mut k: int = 0;
        while rest.len() >= 24
            invariant
                pos == 24 * k,
                0 <= k,
                pos <= s.len(),
                s.len() == total,
                rest@ == s.skip(pos as int),
                symbols_view(symbols@) == Seq::new(k as nat, |j: int| symbol_at(s, 24 * j, endianness)),
            decreases rest@.len(),
        {
            let (next, sym) = Self::parse_single(rest, endianness).unwrap();
            proof {
                lemma_skip_skip(s, pos as int, 24);
            }
            let ghost before = symbols_view(symbols@);
            symbols.push(sym);
            assert(symbols_view(symbols@) =~= before.push(symbol_at(s, 24 * k, endianness)));
            rest = next;
            pos = pos + 24;
            proof {
                k = k + 1;
            }
            assert(symbols_view(symbols@) =~= Seq::new(k as nat, |j: int| symbol_at(s, 24 * j, endianness)));
        }
        proof {
            lemma_table_end(s.len() as int, pos as int, k, 24);
        }
        if symbols.len() == 0 || rest.len() != 0 {
            return Err(ElfParseError);
        }
        Ok(symbols)
    }

    /// Parses the 24-byte symbol at the start of `input`, leaving the name
    /// empty, and gives back the rest.
    fn parse_single(input: &[u8], endianness: Endianness) -> (r: Result<(&[u8], Self), ElfParseError>)
        ensures
            input@.len() >= 24 ==> (r matches Ok((rest, y)) && y@ == symbol_at(input@, 0, endianness)
                && rest@ == input@.skip(24)),
            input@.len() < 24 ==> r is Err,
    {
        let ghost s = input@;
        if input.len() < 24 {
            return Err(ElfParseError);
        }
        let (input, name_offset) = read_u32(input, endianness).unwrap();
        let (input, info) = read_u8(input).unwrap();
        let (input, other) = read_u8(input).unwrap();
        let (input, shndx) = read_u16(input, endianness).unwrap();
        let (input, value) = read_u64(input, endianness).unwrap();
        let (input, size) = read_u64(input, endianness).unwrap();
        proof {
            lemma_skip_skip(s, 0, 4);
            lemma_skip_skip(s, 4, 1);
            lemma_skip_skip(s, 5, 1);
            lemma_skip_skip(s, 6, 2);
            lemma_skip_skip(s, 8, 8);
            lemma_skip_skip(s, 16, 8);
        }
        let sym = ElfSymbol {
            name_offset,
            name: String::new(),
            info,
            other,
            shndx,
            value,
            size,
        };
        Ok((input, sym))
    }
}

impl ElfRelocationA {
    /// Parses the whole of `input` as a non-empty table of relocations.
    fn parse_many(input: &[u8], endianness: Endianness) -> (r: Result<Vec<Self>, ElfParseError>)
        ensures
            is_table_of_24(input@) ==> (r matches Ok(v) && v@ == relocations_at(input@, endianness)),
            !is_table_of_24(input@) ==> r is Err,
    {
        let ghost s = input@;
        let mut relocs: Vec<ElfRelocationA> = Vec::new();
        let mut rest = input;
        let mut pos: usize = 0;
        let total = input.len();
        let ghost mut k: int = 0;
        while rest.len() >= 24
            invariant
                pos == 24 * k,
                0 <= k,
                pos <= s.len(),
                s.len() == total,
                rest@ == s.skip(pos as int),
                relocs@ == Seq::new(k as nat, |j: int| relocation_at(s, 24 * j, endianness)),
            decreases rest@.len(),
        {
            let (next, reloca) = Self::parse_single(rest, endianness).unwrap();
            proof {
                lemma_skip_skip(s, pos as int, 24);
            }
            relocs.push(reloca);
            rest = next;
            pos = pos + 24;
            proof {
                k = k + 1;
            }
            assert(relocs@ =~= Seq::new(k as nat, |j: int| relocation_at(s, 24 * j, endianness)));
        }
        proof {
            lemma_table_end(s.len() as int, pos as int, k, 24);
        }
        if relocs.len() == 0 || rest.len() != 0 {
            return Err(ElfParseError);
        }
        Ok(relocs)
    }

    /// Parses the 24-byte relocation at the start of `input` and gives back
    /// the rest.
    fn parse_single(input: &[u8], endianness: Endianness) -> (r: Result<(&[u8], Self), ElfParseError>)
        ensures
            input@.len() >= 24 ==> (r matches Ok((rest, x)) && x == relocation_at(input@, 0, endianness)
                && rest@ == input@.skip(24)),
            input@.len() < 24 ==> r is Err,
    {
        let ghost s = input@;
        if input.len() < 24 {
            return Err(ElfParseError);
        }
        let (input, offset) = read_u64(input, endianness).unwrap();
        let (input, info) = read_u64(input, endianness).unwrap();
        let (input, addend) = read_u64(input, endianness).unwrap();
        proof {
            lemma_skip_skip(s, 0, 8);
            lemma_skip_skip(s, 8, 8);
            lemma_skip_skip(s, 16, 8);
        }
        let reloca = ElfRelocationA { offset, info, addend: addend as i64 };
        Ok((input, reloca))
    }
}

/// The raw section headers of the table `s`, one per 64 bytes.
pub open spec fn section_headers_at(s: Seq<u8>, e: Endianness) -> Seq<SpecSectionHeader> {
    Seq::new((s.len() / 64) as nat, |k: int| section_header_at(s, 64 * k, e))
}

/// The section header at `s.skip(p)[0..]` is the one at `s[p..]`.
proof fn lemma_section_header_at_skip(s: Seq<u8>, p: int, e: Endianness)
    requires
        0 <= p,
        p + 64 <= s.len(),
    ensures
        section_header_at(s.skip(p), 0, e) == section_header_at(s, p, e),
        section_type_known_at(s.skip(p), 0, e) == section_type_known_at(s, p, e),
{
    lemma_u32_at_skip(s, p, 0, e);
    lemma_u32_at_skip(s, p, 4, e);
    lemma_u64_at_skip(s, p, 8, e);
    lemma_u64_at_skip(s, p, 16, e);
    lemma_u64_at_skip(s, p, 24, e);
    lemma_u64_at_skip(s, p, 32, e);
    lemma_u32_at_skip(s, p, 40, e);
    lemma_u32_at_skip(s, p, 44, e);
    lemma_u64_at_skip(s, p, 48, e);
    lemma_u64_at_skip(s, p, 56, e);
}

/// The `k`-th header in the table `s` has a known section type.
pub open spec fn entry_type_known(s: Seq<u8>, k: int, e: Endianness) -> bool {
    section_type_known_at(s, 64 * k, e)
}

/// Every one of the headers in the table `s` has a known section type.
pub open spec fn section_types_known(s: Seq<u8>, e: Endianness) -> bool {
    forall|k: int| 0 <= k < s.len() / 64 ==> #[trigger] entry_type_known(s, k, e)
}

proof fn lemma_entry_in_table(len: int, pos: int, k: int)
    requires
        pos == 64 * k,
        pos + 64 <= len,
        0 <= k,
    ensures
        k < len / 64,
{
    assert(k < len / 64) by (nonlinear_arith)
        requires
            pos == 64 * k,
            pos + 64 <= len,
    ;
}

/// Where a section's name starts in the section data: `base` (the start of
/// the section name string table) plus the section's name offset.
pub open spec fn name_position(base: usize, h: SpecSectionHeader) -> int {
    base + (h.name_offset as usize)
}

/// The name of section `h` can be read: it starts inside the section data,
/// which stands at `s[64..]`, and is NUL-terminated UTF-8 within `s`.
pub open spec fn section_name_defined(s: Seq<u8>, data_len: int, base: usize, h: SpecSectionHeader) -> bool {
    let p = name_position(base, h);
    &&& p <= usize::MAX
    &&& p < data_len
    &&& nul_terminated(s, 64 + p)
    &&& valid_utf8(cstr_bytes(s, 64 + p))
}

/// The name of section `h`.
pub open spec fn section_name(s: Seq<u8>, base: usize, h: SpecSectionHeader) -> Seq<char> {
    decode_utf8(cstr_bytes(s, 64 + name_position(base, h)))
}

/// The contents of section `h` can be taken from the section data `data`
/// (which starts `ehsize` bytes into the file): the section is empty with
/// offset zero, or its bytes lie within `data`.
pub open spec fn section_contents_defined(data: Seq<u8>, ehsize: u16, h: SpecSectionHeader) -> bool {
    let off = h.offset as usize;
    let size = h.size as usize;
    (off == 0 && size == 0) || (off >= ehsize && off - ehsize + size <= data.len())
}

/// The contents of section `h`, taken from the section data `data`.
pub open spec fn section_contents(data: Seq<u8>, ehsize: u16, h: SpecSectionHeader) -> Seq<u8> {
    let off = h.offset as usize;
    let size = h.size as usize;
    if off == 0 && size == 0 {
        Seq::empty()
    } else {
        data.subrange(off - ehsize, off - ehsize + size)
    }
}

/// Section `h` of a file `s` with section data `data` can be completed: its
/// name and contents can be read and, for a relocation section, the contents
/// are a whole table of relocations.
pub open spec fn section_defined(
    s: Seq<u8>,
    data: Seq<u8>,
    base: usize,
    ehsize: u16,
    h: SpecSectionHeader,
) -> bool {
    &&& section_name_defined(s, data.len() as int, base, h)
    &&& section_contents_defined(data, ehsize, h)
    &&& h.ty == ElfSectionType::RELA ==> is_table_of_24(section_contents(data, ehsize, h))
}

/// Section `h` with its name, its contents and, for a relocation section,
/// its relocations.
pub open spec fn completed_section(
    s: Seq<u8>,
    data: Seq<u8>,
    base: usize,
    ehsize: u16,
    e: Endianness,
    h: SpecSectionHeader,
) -> SpecSectionHeader {
    let contents = section_contents(data, ehsize, h);
    SpecSectionHeader {
        name: section_name(s, base, h),
        data: contents,
        relocations: if h.ty == ElfSectionType::RELA {
            Some(relocations_at(contents, e))
        } else {
            None
        },
        ..h
    }
}

/// What the file parser makes of `s`, with the number of bytes it reads: the
/// file header; the section data up to the section header offset; as many
/// 64-byte section headers as follow (at least one), each with a known type;
/// then, for every section, its name from the section name string table
/// `shstrndx`, its contents, and the relocations of a relocation section.
pub open spec fn parse_file_prefix_spec(s: Seq<u8>) -> Outcome<(SpecElfFile, int)> {
    match parse_header_spec(s) {
        Outcome::Rejected => Outcome::Rejected,
        Outcome::Undefined => Outcome::Undefined,
        Outcome::Parsed(h) => {
            let e = h.eident.endianness;
            if h.shoff < h.ehsize {
                Outcome::Undefined
            } else {
                let count = (h.shoff - h.ehsize) as u64 as usize;
                if count > s.len() - 64 {
                    Outcome::Rejected
                } else {
                    let data = s.subrange(64, 64 + count);
                    let table = s.skip(64 + count);
                    let n = table.len() / 64;
                    if n == 0 {
                        Outcome::Rejected
                    } else if !section_types_known(table, e) {
                        Outcome::Undefined
                    } else {
                        let raw = section_headers_at(table, e);
                        if h.shstrndx >= n {
                            Outcome::Undefined
                        } else if raw[h.shstrndx as int].offset < h.ehsize {
                            Outcome::Undefined
                        } else {
                            let base = (raw[h.shstrndx as int].offset - h.ehsize) as u64 as usize;
                            if !(forall|k: int|
                                0 <= k < n ==> #[trigger] section_defined(s, data, base, h.ehsize, raw[k])) {
                                Outcome::Undefined
                            } else {
                                Outcome::Parsed(
                                    (
                                        SpecElfFile {
                                            header: h,
                                            section_data: data,
                                            section_headers: raw.map_values(
                                                |r: SpecSectionHeader|
                                                    completed_section(s, data, base, h.ehsize, e, r),
                                            ),
                                        },
                                        64 + count + 64 * n,
                                    ),
                                )
                            }
                        }
                    }
                }
            }
        },
    }
}

/// What the file parser makes of `s` when the whole of `s` must be read.
pub open spec fn parse_file_spec(s: Seq<u8>) -> Outcome<SpecElfFile> {
    match parse_file_prefix_spec(s) {
        Outcome::Parsed((f, n)) => if n == s.len() {
            Outcome::Parsed(f)
        } else {
            Outcome::Rejected
        },
        Outcome::Rejected => Outcome::Rejected,
        Outcome::Undefined => Outcome::Undefined,
    }
}

/// `secs[i]` is the first symbol table among `secs`.
pub open spec fn is_first_symtab(secs: Seq<SpecSectionHeader>, i: int) -> bool {
    &&& 0 <= i < secs.len()
    &&& secs[i].ty == ElfSectionType::SYMTAB
    &&& forall|j: int| 0 <= j < i ==> secs[j].ty != ElfSectionType::SYMTAB
}

/// Some section of `secs` is a symbol table.
pub open spec fn has_symtab(secs: Seq<SpecSectionHeader>) -> bool {
    exists|i: int| 0 <= i < secs.len() && secs[i].ty == ElfSectionType::SYMTAB
}

/// The index of the first symbol table among `secs`.
pub open spec fn symtab_index(secs: Seq<SpecSectionHeader>) -> int {
    choose|i: int| is_first_symtab(secs, i)
}

/// Where symbol `y`'s name starts in the section data: `base` (the start of
/// the symbol string table) plus the symbol's name offset.
pub open spec fn symbol_name_position(base: usize, y: SpecSymbol) -> int {
    base + (y.name_offset as usize)
}

/// The name of symbol `y` can be read: it starts inside the section data
/// `data` and is NUL-terminated UTF-8 there.
pub open spec fn symbol_name_defined(data: Seq<u8>, base: usize, y: SpecSymbol) -> bool {
    let p = symbol_name_position(base, y);
    &&& p <= usize::MAX
    &&& p < data.len()
    &&& nul_terminated(data, p)
    &&& valid_utf8(cstr_bytes(data, p))
}

/// Symbol `y` with its name read from the section data `data`.
pub open spec fn named_symbol(data: Seq<u8>, base: usize, y: SpecSymbol) -> SpecSymbol {
    SpecSymbol { name: decode_utf8(cstr_bytes(data, symbol_name_position(base, y))), ..y }
}

/// What reading the symbols of file `f` gives: none without a symbol table;
/// otherwise the entries of the first symbol table, named from the string
/// table that its `link` field points to.
pub open spec fn get_symbols_spec(f: SpecElfFile) -> Outcome<Option<Seq<SpecSymbol>>> {
    let secs = f.section_headers;
    if !has_symtab(secs) {
        Outcome::Parsed(None)
    } else {
        let st = secs[symtab_index(secs)];
        let ehsize = f.header.ehsize;
        if st.link as usize >= secs.len() || secs[st.link as int].offset < ehsize
            || !is_table_of_24(st.data) {
            Outcome::Undefined
        } else {
            let base = (secs[st.link as int].offset - ehsize) as u64 as usize;
            let syms = symbols_at(st.data, f.header.eident.endianness);
            if !(forall|k: int|
                0 <= k < syms.len() ==> #[trigger] symbol_name_defined(f.section_data, base, syms[k])) {
                Outcome::Undefined
            } else {
                Outcome::Parsed(
                    Some(syms.map_values(|y: SpecSymbol| named_symbol(f.section_data, base, y))),
                )
            }
        }
    }
}

/// A parsed file accounts for every byte of its input: the 64-byte file
/// header, the section data, which is the input from byte 64 on, and 64 bytes
/// for each of its (one or more) section headers; and the contents of each
/// section are a stretch of the section data.
/// `part` is a contiguous stretch of `whole`.
pub open spec fn is_stretch_of(part: Seq<u8>, whole: Seq<u8>) -> bool {
    exists|start: int, end: int| 0 <= start <= end <= whole.len() && part == whole.subrange(start, end)
}

/// The contents of a section that can be completed are a stretch of the
/// section data: this gives where the stretch starts and ends.
proof fn lemma_contents_in_data(data: Seq<u8>, ehsize: u16, r: SpecSectionHeader) -> (span: (int, int))
    requires
        section_contents_defined(data, ehsize, r),
    ensures
        0 <= span.0 <= span.1 <= data.len(),
        section_contents(data, ehsize, r) == data.subrange(span.0, span.1),
{
    let off = r.offset as usize;
    let size = r.size as usize;
    if off == 0 && size == 0 {
        assert(data.subrange(0, 0) =~= section_contents(data, ehsize, r));
        (0, 0)
    } else {
        (off - ehsize, off - ehsize + size)
    }
}

/// A parsed file accounts for every byte of its input: the 64-byte file
/// header, the section data, which is the input from byte 64 on, and 64 bytes
/// for each of its (one or more) section headers; and the contents of each
/// section are a stretch of the section data.
#[verifier::spinoff_prover]
#[verifier::rlimit(50)]
pub proof fn lemma_parsed_file_layout(s: Seq<u8>, f: SpecElfFile)
    requires
        parse_file_spec(s) == Outcome::Parsed(f),
    ensures
        f.section_headers.len() >= 1,
        s.len() == 64 + f.section_data.len() + 64 * f.section_headers.len(),
        f.section_data == s.subrange(64, 64 + f.section_data.len() as int),
        forall|i: int|
            0 <= i < f.section_headers.len() ==> is_stretch_of(
                (#[trigger] f.section_headers[i]).data,
                f.section_data,
            ),
{
    let h = parse_header_spec(s)->Parsed_0;
    let e = h.eident.endianness;
    let count = (h.shoff - h.ehsize) as u64 as usize;
    let data = s.subrange(64, 64 + count);
    let table = s.skip(64 + count);
    let n = table.len() / 64;
    let raw = section_headers_at(table, e);
    let base = (raw[h.shstrndx as int].offset - h.ehsize) as u64 as usize;
    let pf = parse_file_prefix_spec(s);
    assert(pf == Outcome::Parsed(
        (
            SpecElfFile {
                header: h,
                section_data: data,
                section_headers: raw.map_values(
                    |r: SpecSectionHeader| completed_section(s, data, base, h.ehsize, e, r),
                ),
            },
            64 + count + 64 * n,
        ),
    ));
    assert(f == pf->Parsed_0.0);
    assert(64 + count + 64 * n == s.len());
    assert(f.section_headers.len() == n);
    assert(data.len() == count);
    assert(n >= 1);
    assert(f.section_data == s.subrange(64, 64 + f.section_data.len() as int));
    assert(s.len() == 64 + f.section_data.len() + 64 * f.section_headers.len());
    assert forall|i: int| 0 <= i < f.section_headers.len() implies is_stretch_of(
        (#[trigger] f.section_headers[i]).data,
        f.section_data,
    ) by {
        assert(section_defined(s, data, base, h.ehsize, raw[i]));
        assert(f.section_headers[i].data == section_contents(data, h.ehsize, raw[i]));
        let span = lemma_contents_in_data(data, h.ehsize, raw[i]);
        assert(f.section_data.subrange(span.0, span.1) == f.section_headers[i].data);
    }
}

/// The file header's fields are the numbers at their places in the 64-byte
/// ELF64 header, read in the byte order that byte 5 names (1: little, 2:
/// big), after the magic bytes `\x7FELF`.
pub proof fn lemma_header_layout(s: Seq<u8>, h: ElfHeader)
    requires
        parse_header_spec(s) == Outcome::Parsed(h),
    ensures
        ({
            let e = if s[5] == 1 {
                Endianness::Little
            } else {
                Endianness::Big
            };
            &&& s.len() >= 64
            &&& s[0] == 0x7f && s[1] == 0x45 && s[2] == 0x4c && s[3] == 0x46
            &&& s[5] == 1 || s[5] == 2
            &&& h.eident.class == s[4]
            &&& h.eident.endianness == e
            &&& h.eident.version == s[6]
            &&& h.eident.os_abi == s[7]
            &&& h.eident.abi_version == s[8]
            &&& h.ty.code() == u16_at(s, 16, e)
            &&& h.machine.code() == u16_at(s, 18, e)
            &&& h.version == u32_at(s, 20, e)
            &&& h.entry == u64_at(s, 24, e)
            &&& h.phoff == u64_at(s, 32, e)
            &&& h.shoff == u64_at(s, 40, e)
            &&& h.flags == u32_at(s, 48, e)
            &&& h.ehsize == u16_at(s, 52, e)
            &&& h.phentsize == u16_at(s, 54, e)
            &&& h.phnum == u16_at(s, 56, e)
            &&& h.shentsize == u16_at(s, 58, e)
            &&& h.shnum == u16_at(s, 60, e)
            &&& h.shstrndx == u16_at(s, 62, e)
        }),
{
    let e = endianness_of(s[5]);
    crate::elf::lemma_file_type_code_roundtrip(h.ty, u16_at(s, 16, e));
    crate::elf::lemma_machine_type_code_roundtrip(h.machine, u16_at(s, 18, e));
}

/// The header is read exactly when the input has 64 bytes, starts with the
/// magic bytes, names byte order 1 or 2, and holds a known file type and
/// machine.
pub proof fn lemma_header_accepted(s: Seq<u8>)
    ensures
        (parse_header_spec(s) is Parsed) <==> ({
            let e = if s[5] == 1 {
                Endianness::Little
            } else {
                Endianness::Big
            };
            &&& s.len() >= 64
            &&& s[0] == 0x7f && s[1] == 0x45 && s[2] == 0x4c && s[3] == 0x46
            &&& s[5] == 1 || s[5] == 2
            &&& exists|t: ElfFileType| t.code() == u16_at(s, 16, e)
            &&& exists|m: ElfMachineType| m.code() == u16_at(s, 18, e)
        }),
{
    let e = endianness_of(s[5]);
    if s.len() >= 64 {
        let ty = u16_at(s, 16, e);
        let mc = u16_at(s, 18, e);
        crate::elf::lemma_file_type_code_roundtrip(ElfFileType::from_code(ty), ty);
        crate::elf::lemma_machine_type_code_roundtrip(ElfMachineType::from_code(mc), mc);
        if exists|t: ElfFileType| t.code() == ty {
            let t = choose|t: ElfFileType| t.code() == ty;
            crate::elf::lemma_file_type_code_roundtrip(t, ty);
        }
        if exists|m: ElfMachineType| m.code() == mc {
            let m = choose|m: ElfMachineType| m.code() == mc;
            crate::elf::lemma_machine_type_code_roundtrip(m, mc);
        }
    }
}

/// Facts of a parsed file that the layout laws below share: where the
/// header ends, the section data and the section header table lie.
proof fn lemma_parsed_file_parts(s: Seq<u8>, f: SpecElfFile) -> (parts: (int, usize))
    requires
        parse_file_spec(s) == Outcome::Parsed(f),
    ensures
        parts.0 == f.section_data.len(),
        parse_header_spec(s) == Outcome::Parsed(f.header),
        f.section_data == s.subrange(64, 64 + parts.0),
        section_types_known(s.skip(64 + parts.0), f.header.eident.endianness),
        f.section_headers.len() == s.skip(64 + parts.0).len() / 64,
        s.len() == 64 + parts.0 + 64 * f.section_headers.len(),
        f.header.shstrndx < f.section_headers.len(),
        parts.1 == (section_headers_at(s.skip(64 + parts.0), f.header.eident.endianness)[f.header.shstrndx as int].offset
            - f.header.ehsize) as u64 as usize,
        forall|k: int|
            0 <= k < f.section_headers.len() ==> #[trigger] f.section_headers[k] == completed_section(
                s,
                f.section_data,
                parts.1,
                f.header.ehsize,
                f.header.eident.endianness,
                section_headers_at(s.skip(64 + parts.0), f.header.eident.endianness)[k],
            ),
        forall|k: int|
            0 <= k < f.section_headers.len() ==> #[trigger] section_defined(
                s,
                f.section_data,
                parts.1,
                f.header.ehsize,
                section_headers_at(s.skip(64 + parts.0), f.header.eident.endianness)[k],
            ),
{
    lemma_parsed_file_layout(s, f);
    let h = parse_header_spec(s)->Parsed_0;
    let e = h.eident.endianness;
    let count = (h.shoff - h.ehsize) as u64 as usize;
    let data = s.subrange(64, 64 + count);
    let table = s.skip(64 + count);
    let n = table.len() / 64;
    let raw = section_headers_at(table, e);
    let base = (raw[h.shstrndx as int].offset - h.ehsize) as u64 as usize;
    assert(parse_file_prefix_spec(s) == Outcome::Parsed(
        (
            SpecElfFile {
                header: h,
                section_data: data,
                section_headers: raw.map_values(
                    |r: SpecSectionHeader| completed_section(s, data, base, h.ehsize, e, r),
                ),
            },
            64 + count + 64 * n,
        ),
    ));
    (count as int, base)
}

/// Each parsed section header's fields are the numbers at their places in its
/// 64-byte entry of the section header table, which follows the section data;
/// all in the file's byte order.
#[verifier::spinoff_prover]
pub proof fn lemma_section_header_layout(s: Seq<u8>, f: SpecElfFile)
    requires
        parse_file_spec(s) == Outcome::Parsed(f),
    ensures
        forall|i: int|
            0 <= i < f.section_headers.len() ==> {
                let e = f.header.eident.endianness;
                let p = 64 + f.section_data.len() + 64 * i;
                let h = #[trigger] f.section_headers[i];
                &&& h.name_offset == u32_at(s, p, e)
                &&& h.ty.code() == u32_at(s, p + 4, e)
                &&& h.flags == u64_at(s, p + 8, e)
                &&& h.addr == u64_at(s, p + 16, e)
                &&& h.offset == u64_at(s, p + 24, e)
                &&& h.size == u64_at(s, p + 32, e)
                &&& h.link == u32_at(s, p + 40, e)
                &&& h.info == u32_at(s, p + 44, e)
                &&& h.addralign == u64_at(s, p + 48, e)
                &&& h.entsize == u64_at(s, p + 56, e)
            },
{
    let (count, base) = lemma_parsed_file_parts(s, f);
    let e = f.header.eident.endianness;
    let q = 64 + count;
    let table = s.skip(q);
    assert forall|i: int| 0 <= i < f.section_headers.len() implies {
        let p = 64 + f.section_data.len() + 64 * i;
        let h = #[trigger] f.section_headers[i];
        &&& h.name_offset == u32_at(s, p, e)
        &&& h.ty.code() == u32_at(s, p + 4, e)
        &&& h.flags == u64_at(s, p + 8, e)
        &&& h.addr == u64_at(s, p + 16, e)
        &&& h.offset == u64_at(s, p + 24, e)
        &&& h.size == u64_at(s, p + 32, e)
        &&& h.link == u32_at(s, p + 40, e)
        &&& h.info == u32_at(s, p + 44, e)
        &&& h.addralign == u64_at(s, p + 48, e)
        &&& h.entsize == u64_at(s, p + 56, e)
    } by {
        let h = f.section_headers[i];
        let j = 64 * i;
        assert(j + 64 <= table.len()) by (nonlinear_arith)
            requires
                0 <= i < table.len() / 64,
                j == 64 * i,
        ;
        assert(entry_type_known(table, i, e));
        lemma_u32_at_skip(s, q, j, e);
        lemma_u32_at_skip(s, q, j + 4, e);
        lemma_u64_at_skip(s, q, j + 8, e);
        lemma_u64_at_skip(s, q, j + 16, e);
        lemma_u64_at_skip(s, q, j + 24, e);
        lemma_u64_at_skip(s, q, j + 32, e);
        lemma_u32_at_skip(s, q, j + 40, e);
        lemma_u32_at_skip(s, q, j + 44, e);
        lemma_u64_at_skip(s, q, j + 48, e);
        lemma_u64_at_skip(s, q, j + 56, e);
        crate::elf::lemma_section_type_code_roundtrip(h.ty, u32_at(table, j + 4, e));
    }
}

/// Each parsed section's name is the NUL-terminated UTF-8 string that its
/// name offset points to in the section name string table (the section that
/// the header's `shstrndx` names), and its contents are the `size` bytes of
/// the input at its file `offset` (taken relative to the section data, which
/// starts after the `ehsize`-byte header), or nothing when offset and size
/// are both zero; a relocation section holds one relocation per 24 bytes of
/// its contents (offset, info and addend in the file's byte order), and any
/// other section none.
#[verifier::spinoff_prover]
pub proof fn lemma_section_contents_layout(s: Seq<u8>, f: SpecElfFile)
    requires
        parse_file_spec(s) == Outcome::Parsed(f),
    ensures
        f.section_headers[f.header.shstrndx as int].offset >= f.header.ehsize,
        forall|i: int|
            0 <= i < f.section_headers.len() ==> section_contents_facts(
                s,
                (f.section_headers[f.header.shstrndx as int].offset - f.header.ehsize) as u64 as usize,
                f.header.ehsize,
                f.header.eident.endianness,
                #[trigger] f.section_headers[i],
            ),
{
    let (count, base) = lemma_parsed_file_parts(s, f);
    let e = f.header.eident.endianness;
    let table = s.skip(64 + count);
    let raw = section_headers_at(table, e);
    let strtab = f.section_headers[f.header.shstrndx as int];
    assert(strtab.offset == raw[f.header.shstrndx as int].offset);
    assert forall|i: int| 0 <= i < f.section_headers.len() implies section_contents_facts(
        s,
        base,
        f.header.ehsize,
        e,
        #[trigger] f.section_headers[i],
    ) by {
        assert(section_defined(s, f.section_data, base, f.header.ehsize, raw[i]));
        lemma_one_section_contents(s, f.section_data, base, f.header.ehsize, e, raw[i]);
    }
}

/// What `lemma_section_contents_layout` states of one section `h` of input
/// `s`, whose section name string table starts `base` bytes into the section
/// data.
pub open spec fn section_contents_facts(
    s: Seq<u8>,
    base: usize,
    ehsize: u16,
    e: Endianness,
    h: SpecSectionHeader,
) -> bool {
    let off = h.offset as usize;
    let size = h.size as usize;
    let start = 64 + off - ehsize;
    &&& h.name == decode_utf8(cstr_bytes(s, 64 + base + (h.name_offset as usize)))
    &&& (off == 0 && size == 0) ==> h.data.len() == 0
    &&& !(off == 0 && size == 0) ==> h.data == s.subrange(start, start + size)
    &&& h.ty == ElfSectionType::RELA ==> (h.relocations matches Some(rs) && rs.len() * 24
        == h.data.len() && forall|k: int|
        0 <= k < rs.len() ==> (#[trigger] rs[k]).offset == u64_at(h.data, 24 * k, e) && rs[k].info
            == u64_at(h.data, 24 * k + 8, e) && rs[k].addend == u64_at(h.data, 24 * k + 16, e) as i64)
    &&& h.ty != ElfSectionType::RELA ==> h.relocations is None
}

proof fn lemma_one_section_contents(
    s: Seq<u8>,
    data: Seq<u8>,
    base: usize,
    ehsize: u16,
    e: Endianness,
    r: SpecSectionHeader,
)
    requires
        section_defined(s, data, base, ehsize, r),
        64 + data.len() <= s.len(),
        data == s.subrange(64, 64 + data.len() as int),
    ensures
        section_contents_facts(s, base, ehsize, e, completed_section(s, data, base, ehsize, e, r)),
{
    let h = completed_section(s, data, base, ehsize, e, r);
    let off = h.offset as usize;
    let size = h.size as usize;
    if !(off == 0 && size == 0) {
        let start = 64 + off - ehsize;
        assert(h.data =~= s.subrange(start, start + size));
    }
    if h.ty == ElfSectionType::RELA {
        lemma_whole_table(h.data.len() as int);
    }
}

/// A whole table of 24-byte entries holds `len / 24` of them, in `len` bytes.
proof fn lemma_whole_table(len: int)
    requires
        len > 0,
        len % 24 == 0,
    ensures
        (len / 24) * 24 == len,
{
    assert((len / 24) * 24 == len) by (nonlinear_arith)
        requires
            len % 24 == 0,
    ;
}

/// Each symbol that `get_symbols` reads agrees in every field but its name
/// with the 24-byte entry at the same index of the file's first symbol table
/// (name offset, info, other, section index, value and size, in the file's
/// byte order); its name is the NUL-terminated UTF-8 string its name offset
/// points to in the string table that the symbol table links to; and there is
/// one symbol per entry.
#[verifier::spinoff_prover]
pub proof fn lemma_symbol_layout(f: SpecElfFile, syms: Seq<SpecSymbol>, j: int)
    requires
        get_symbols_spec(f) == Outcome::Parsed(Some(syms)),
        0 <= j < f.section_headers.len(),
        f.section_headers[j].ty == ElfSectionType::SYMTAB,
        forall|i: int| 0 <= i < j ==> f.section_headers[i].ty != ElfSectionType::SYMTAB,
    ensures
        ({
            let d = f.section_headers[j].data;
            let e = f.header.eident.endianness;
            let strtab = f.section_headers[f.section_headers[j].link as int];
            let base = (strtab.offset - f.header.ehsize) as u64 as usize;
            &&& syms.len() * 24 == d.len()
            &&& forall|k: int|
                0 <= k < syms.len() ==> {
                    let y = #[trigger] syms[k];
                    &&& y.name_offset == u32_at(d, 24 * k, e)
                    &&& y.info == d[24 * k + 4]
                    &&& y.other == d[24 * k + 5]
                    &&& y.shndx == u16_at(d, 24 * k + 6, e)
                    &&& y.value == u64_at(d, 24 * k + 8, e)
                    &&& y.size == u64_at(d, 24 * k + 16, e)
                    &&& y.name == decode_utf8(cstr_bytes(f.section_data, base + (y.name_offset as usize)))
                }
        }),
{
    let secs = f.section_headers;
    assert(has_symtab(secs));
    assert(is_first_symtab(secs, j));
    let c = symtab_index(secs);
    assert(is_first_symtab(secs, c));
    if c < j {
        assert(secs[c].ty != ElfSectionType::SYMTAB);
    } else if j < c {
        assert(secs[j].ty != ElfSectionType::SYMTAB);
    }
    assert(c == j);
    lemma_whole_table(secs[j].data.len() as int);
}

impl ElfFile {
    /// Parses the whole of `input` as an ELF file.
    pub fn parse(input: &[u8]) -> (r: Result<Self, ElfParseError>)
        requires
            !(parse_file_spec(input@) is Undefined),
        ensures
            match parse_file_spec(input@) {
                Outcome::Parsed(f) => r matches Ok(file) && file@ == f,
                _ => r is Err,
            },
    {
        let (rest, file) = Self::parse_helper(input)?;
        if rest.len() != 0 {
            return Err(ElfParseError);
        }
        Ok(file)
    }

    /// Parses the whole of `input` as an ELF file; `None` where the input is
    /// outside what the format gives a meaning to, so that `parse` requires
    /// that it is not.
    pub fn try_parse(input: &[u8]) -> (r: Option<Result<Self, ElfParseError>>)
        ensures
            match parse_file_spec(input@) {
                Outcome::Parsed(f) => r matches Some(Ok(file)) && file@ == f,
                Outcome::Rejected => r matches Some(Err(_)),
                Outcome::Undefined => r is None,
            },
    {
        match Self::try_parse_helper(input) {
            None => None,
            Some(Err(e)) => Some(Err(e)),
            Some(Ok((rest, file))) => if rest.len() != 0 {
                Some(Err(ElfParseError))
            } else {
                Some(Ok(file))
            },
        }
    }

    /// Parses an ELF file at the start of `input` and gives back the rest.
    pub fn parse_helper(input: &[u8]) -> (r: Result<(&[u8], Self), ElfParseError>)
        requires
            !(parse_file_prefix_spec(input@) is Undefined),
        ensures
            match parse_file_prefix_spec(input@) {
                Outcome::Parsed((f, n)) => r matches Ok((rest, file)) && file@ == f && rest@
                    == input@.skip(n),
                _ => r is Err,
            },
    {
        match Self::try_parse_helper(input) {
            Some(r) => r,
            None => {
                assert(false);
                Err(ElfParseError)
            },
        }
    }

    /// Parses an ELF file at the start of `input` and gives back the rest;
    /// `None` where the input is outside what the format gives a meaning to.
    #[verifier::spinoff_prover]
    fn try_parse_helper(input: &[u8]) -> (r: Option<Result<(&[u8], Self), ElfParseError>>)
        ensures
            match parse_file_prefix_spec(input@) {
                Outcome::Parsed((f, n)) => r matches Some(Ok((rest, file))) && file@ == f
                    && rest@ == input@.skip(n),
                Outcome::Rejected => r matches Some(Err(_)),
                Outcome::Undefined => r is None,
            },
    {
        let ghost s = input@;
        let full = input;
        let (input, header) = match ElfHeader::try_parse(input) {
            None => return None,
            Some(Err(e)) => return Some(Err(e)),
            Some(Ok(p)) => p,
        };
        let endianness = header.eident.endianness;
        let ehsize = header.ehsize;
        if header.shoff < ehsize as u64 {
            return None;
        }
        let count = (header.shoff - ehsize as u64) as usize;
        let (input, section_data) = match take(input, count) {
            Some(p) => p,
            None => return Some(Err(ElfParseError)),
        };
        proof {
            lemma_skip_skip(s, 64, count as int);
            assert(section_data@ =~= s.subrange(64, 64 + count));
        }
        let ghost table = input@;
        let ghost data = section_data@;
        if input.len() < 64 {
            return Some(Err(ElfParseError));
        }
        let (rest, raw) = match parse_section_table(input, endianness) {
            Some(p) => p,
            None => return None,
        };
        let ghost n = table.len() / 64;
        let ghost raw_spec = section_headers_at(table, endianness);
        assert(sections_view(raw@) == raw_spec);
        if header.shstrndx as usize >= raw.len() {
            return None;
        }
        let strtab_offset = raw[header.shstrndx as usize].offset;
        if strtab_offset < ehsize as u64 {
            return None;
        }
        let base = (strtab_offset - ehsize as u64) as usize;
        let section_headers = match complete_sections(full, section_data, &raw, base, ehsize, endianness) {
            Some(v) => v,
            None => {
                assert(!(forall|k: int| 0 <= k < n ==> #[trigger] section_defined(s, data, base, ehsize, raw_spec[k]))) by {
                    let j = choose|j: int| 0 <= j < raw@.len() && !section_defined(s, data, base, ehsize, #[trigger] raw@[j]@);
                    assert(raw@[j]@ == raw_spec[j]);
                }
                return None;
            },
        };
        assert(sections_view(section_headers@) =~= raw_spec.map_values(
            |r: SpecSectionHeader| completed_section(s, data, base, ehsize, endianness, r),
        ));
        assert(forall|k: int| 0 <= k < n ==> #[trigger] section_defined(s, data, base, ehsize, raw_spec[k])) by {
            assert forall|k: int| 0 <= k < n implies #[trigger] section_defined(s, data, base, ehsize, raw_spec[k]) by {
                assert(raw@[k]@ == raw_spec[k]);
            }
        }
        let file = ElfFile {
            header,
            section_data: slice_to_vec(section_data),
            section_headers,
        };
        proof {
            lemma_skip_skip(s, 64 + count, 64 * n as int);
        }
        Some(Ok((rest, file)))
    }

    /// The first symbol table section, if there is one.
    pub fn get_symtab(&self) -> (r: Option<&ElfSectionHeader>)
        ensures
            r is Some <==> has_symtab(self@.section_headers),
            r matches Some(h) ==> is_first_symtab(self@.section_headers, symtab_index(self@.section_headers))
                && h@ == self@.section_headers[symtab_index(self@.section_headers)],
    {
        let ghost secs = self@.section_headers;
        for i in 0..self.section_headers.len()
            invariant
                secs == self@.section_headers,
                forall|j: int| 0 <= j < i ==> secs[j].ty != ElfSectionType::SYMTAB,
        {
            if self.section_headers[i].ty == ElfSectionType::SYMTAB {
                assert(is_first_symtab(secs, i as int));
                proof {
                    let c = symtab_index(secs);
                    assert(is_first_symtab(secs, c));
                    if c < i {
                        assert(secs[c].ty != ElfSectionType::SYMTAB);
                    } else if c > i {
                        assert(secs[i as int].ty != ElfSectionType::SYMTAB);
                    }
                }
                return Some(&self.section_headers[i]);
            }
        }
        return None;
    }

    /// The entries of the first symbol table, each named from the string
    /// table that the symbol table's `link` field points to; `None` when the
    /// file has no symbol table.
    pub fn get_symbols(&self) -> (r: Option<Vec<ElfSymbol>>)
        requires
            !(get_symbols_spec(self@) is Undefined),
        ensures
            get_symbols_spec(self@) == Outcome::Parsed(None::<Seq<SpecSymbol>>) ==> r is None,
            get_symbols_spec(self@) matches Outcome::Parsed(Some(syms)) ==> (r matches Some(v)
                && symbols_view(v@) == syms),
    {
        match self.try_get_symbols() {
            Some(r) => r,
            None => {
                assert(false);
                None
            },
        }
    }

    /// The symbols as `get_symbols` reads them; `None` where the symbol
    /// table, its string table or a name is outside what the format gives a
    /// meaning to, so that `get_symbols` requires that it is not.
    #[verifier::spinoff_prover]
    pub fn try_get_symbols(&self) -> (r: Option<Option<Vec<ElfSymbol>>>)
        ensures
            get_symbols_spec(self@) is Undefined <==> r is None,
            get_symbols_spec(self@) == Outcome::Parsed(None::<Seq<SpecSymbol>>) ==> r == Some(
                None::<Vec<ElfSymbol>>,
            ),
            get_symbols_spec(self@) matches Outcome::Parsed(Some(syms)) ==> (r matches Some(Some(v))
                && symbols_view(v@) == syms),
    {
        let ghost f = self@;
        let symtab = match self.get_symtab() {
            Some(symtab) => symtab,
            None => return Some(None),
        };
        let link = symtab.link as usize;
        if link >= self.section_headers.len() {
            return None;
        }
        let strtab_offset = self.section_headers[link].offset;
        if strtab_offset < self.header.ehsize as u64 {
            return None;
        }
        let offset = (strtab_offset - self.header.ehsize as u64) as usize;
        let endianness = self.header.eident.endianness;
        let parsed = match ElfSymbol::parse_many(symtab.data.as_slice(), endianness) {
            Ok(v) => v,
            Err(_) => return None,
        };
        let ghost syms = symbols_view(parsed@);
        let ghost data = self.section_data@;
        assert(get_symbols_spec(f) == if forall|k: int|
            0 <= k < syms.len() ==> #[trigger] symbol_name_defined(data, offset, syms[k]) {
            Outcome::Parsed(Some(syms.map_values(|y: SpecSymbol| named_symbol(data, offset, y))))
        } else {
            Outcome::Undefined
        });
        let mut symbols: Vec<ElfSymbol> = Vec::new();
        for i in 0..parsed.len()
            invariant
                f == self@,
                data == self.section_data@,
                syms == symbols_view(parsed@),
                get_symbols_spec(f) == if forall|k: int|
                    0 <= k < syms.len() ==> #[trigger] symbol_name_defined(data, offset, syms[k]) {
                    Outcome::Parsed(Some(syms.map_values(|y: SpecSymbol| named_symbol(data, offset, y))))
                } else {
                    Outcome::Undefined
                },
                forall|k: int| 0 <= k < i ==> #[trigger] symbol_name_defined(data, offset, syms[k]),
                symbols_view(symbols@) == Seq::new(i as nat, |j: int| named_symbol(data, offset, syms[j])),
        {
            let symbol = &parsed[i];
            let pos = match offset.checked_add(symbol.name_offset as usize) {
                Some(p) => p,
                None => {
                    assert(!symbol_name_defined(data, offset, syms[i as int]));
                    return None;
                },
            };
            if pos >= self.section_data.len() {
                assert(!symbol_name_defined(data, offset, syms[i as int]));
                return None;
            }
            let name = match try_read_cstr(self.section_data.as_slice(), pos) {
                Some(text) => text,
                None => {
                    assert(!symbol_name_defined(data, offset, syms[i as int]));
                    return None;
                },
            };
            let named = ElfSymbol {
                name_offset: symbol.name_offset,
                name,
                info: symbol.info,
                other: symbol.other,
                shndx: symbol.shndx,
                value: symbol.value,
                size: symbol.size,
            };
            let ghost before = symbols_view(symbols@);
            let ghost g = |j: int| named_symbol(data, offset, syms[j]);
            symbols.push(named);
            proof {
                assert(symbols_view(symbols@) =~= before.push(g(i as int)));
                lemma_seq_new_push(i as nat, g);
            }
        }
        assert(symbols_view(symbols@) =~= syms.map_values(|y: SpecSymbol| named_symbol(data, offset, y)));
        Some(Some(symbols))
    }

}

/// Whether the section header at the start of `input` has a known type.
fn section_type_known(input: &[u8], endianness: Endianness) -> (r: bool)
    requires
        input@.len() >= 64,
    ensures
        r == section_type_known_at(input@, 0, endianness),
{
    let (_, ty) = read_u32(slice_subrange(input, 4, input.len()), endianness).unwrap();
    proof {
        lemma_u32_at_skip(input@, 4, 0, endianness);
        assert(input@.subrange(4, input@.len() as int) == input@.skip(4));
    }
    ElfSectionType::is_known(ty)
}

/// Parses as many 64-byte section headers as `input` holds (at least one),
/// leaving their names, contents and relocations empty, and gives back the
/// rest; `None` where one of them has no known type.
#[verifier::spinoff_prover]
fn parse_section_table(input: &[u8], endianness: Endianness) -> (r: Option<(&[u8], Vec<ElfSectionHeader>)>)
    requires
        input@.len() >= 64,
    ensures
        section_types_known(input@, endianness) ==> (r matches Some((rest, v)) && sections_view(v@)
            == section_headers_at(input@, endianness) && rest@ == input@.skip(
            64 * (input@.len() / 64) as int,
        )),
        !section_types_known(input@, endianness) ==> r is None,
{
    let ghost table = input@;
    let total = input.len();
    let mut raw: Vec<ElfSectionHeader> = Vec::new();
    let mut rest = input;
    let mut pos: usize = 0;
    let ghost mut k: int = 0;
    while rest.len() >= 64
        invariant
            table == input@,
            table.len() == total,
            pos == 64 * k,
            0 <= k,
            pos <= table.len(),
            rest@ == table.skip(pos as int),
            forall|j: int| 0 <= j < k ==> #[trigger] entry_type_known(table, j, endianness),
            sections_view(raw@) == Seq::new(k as nat, |j: int| section_header_at(table, 64 * j, endianness)),
        decreases rest@.len(),
    {
        proof {
            lemma_entry_in_table(table.len() as int, pos as int, k);
            lemma_section_header_at_skip(table, pos as int, endianness);
        }
        if !section_type_known(rest, endianness) {
            assert(!entry_type_known(table, k, endianness));
            return None;
        }
        assert(entry_type_known(table, k, endianness));
        let (next, sh) = match ElfSectionHeader::parse(rest, endianness) {
            Ok(p) => p,
            Err(_) => {
                assert(false);
                return None;
            },
        };
        proof {
            lemma_skip_skip(table, pos as int, 64);
        }
        let ghost before = sections_view(raw@);
        let ghost f = |j: int| section_header_at(table, 64 * j, endianness);
        raw.push(sh);
        proof {
            assert(sections_view(raw@) =~= before.push(f(k)));
            lemma_seq_new_push(k as nat, f);
        }
        rest = next;
        pos = pos + 64;
        proof {
            k = k + 1;
        }
    }
    proof {
        lemma_table_end(table.len() as int, pos as int, k, 64);
    }
    assert(sections_view(raw@) =~= section_headers_at(table, endianness));
    Some((rest, raw))
}

/// Gives raw section header `sh` its name, read from `full` at 64 plus its
/// name position, its contents, taken from the section data, and, for a
/// relocation section, its relocations; `None` where that is not defined.
#[verifier::spinoff_prover]
fn complete_section(
    full: &[u8],
    section_data: &[u8],
    sh: &ElfSectionHeader,
    base: usize,
    ehsize: u16,
    endianness: Endianness,
) -> (r: Option<ElfSectionHeader>)
    requires
        64 + section_data@.len() <= full@.len(),
    ensures
        section_defined(full@, section_data@, base, ehsize, sh@) ==> (r matches Some(h) && h@
            == completed_section(full@, section_data@, base, ehsize, endianness, sh@)),
        !section_defined(full@, section_data@, base, ehsize, sh@) ==> r is None,
{
    let total = full.len();
    let name_pos = match base.checked_add(sh.name_offset as usize) {
        Some(p) => p,
        None => return None,
    };
    if name_pos >= section_data.len() {
        return None;
    }
    let name = match try_read_cstr(full, 64 + name_pos) {
        Some(text) => text,
        None => return None,
    };
    let offset = sh.offset as usize;
    let size = sh.size as usize;
    let contents = if offset == 0 && size == 0 {
        Vec::new()
    } else {
        if offset < ehsize as usize {
            return None;
        }
        let start = offset - ehsize as usize;
        let end = match start.checked_add(size) {
            Some(e) => e,
            None => return None,
        };
        if end > section_data.len() {
            return None;
        }
        slice_to_vec(slice_subrange(section_data, start, end))
    };
    assert(section_contents_defined(section_data@, ehsize, sh@));
    assert(contents@ == section_contents(section_data@, ehsize, sh@));
    let relocations = if sh.ty == ElfSectionType::RELA {
        match ElfRelocationA::parse_many(contents.as_slice(), endianness) {
            Ok(relocs) => Some(relocs),
            Err(_) => return None,
        }
    } else {
        None
    };
    Some(
        ElfSectionHeader {
            name_offset: sh.name_offset,
            ty: sh.ty,
            flags: sh.flags,
            addr: sh.addr,
            offset: sh.offset,
            size: sh.size,
            link: sh.link,
            info: sh.info,
            addralign: sh.addralign,
            entsize: sh.entsize,
            name,
            data: contents,
            relocations,
        },
    )
}

/// Completes every raw section header (see [`complete_section`]); `None`
/// where that is not defined for one of them.
#[verifier::spinoff_prover]
fn complete_sections(
    full: &[u8],
    section_data: &[u8],
    raw: &Vec<ElfSectionHeader>,
    base: usize,
    ehsize: u16,
    endianness: Endianness,
) -> (r: Option<Vec<ElfSectionHeader>>)
    requires
        64 + section_data@.len() <= full@.len(),
    ensures
        r matches Some(v) ==> (forall|j: int| 0 <= j < raw@.len() ==> #[trigger] section_defined(full@, section_data@, base, ehsize, raw@[j]@))
            && sections_view(v@) == Seq::new(raw@.len(), |j: int| completed_section(full@, section_data@, base, ehsize, endianness, raw@[j]@)),
        r is None ==> exists|j: int| 0 <= j < raw@.len() && !section_defined(full@, section_data@, base, ehsize, #[trigger] raw@[j]@),
{
    let ghost s = full@;
    let ghost data = section_data@;
    let mut section_headers: Vec<ElfSectionHeader> = Vec::new();
    for i in 0..raw.len()
        invariant
            s == full@,
            data == section_data@,
            64 + data.len() <= s.len(),
            forall|j: int| 0 <= j < i ==> #[trigger] section_defined(s, data, base, ehsize, raw@[j]@),
            sections_view(section_headers@) == Seq::new(i as nat, |j: int| completed_section(s, data, base, ehsize, endianness, raw@[j]@)),
    {
        let completed = match complete_section(full, section_data, &raw[i], base, ehsize, endianness) {
            Some(h) => h,
            None => {
                assert(!section_defined(s, data, base, ehsize, raw@[i as int]@));
                return None;
            },
        };
        let ghost before = sections_view(section_headers@);
        let ghost g = |j: int| completed_section(s, data, base, ehsize, endianness, raw@[j]@);
        section_headers.push(completed);
        proof {
            assert(sections_view(section_headers@) =~= before.push(g(i as int)));
            lemma_seq_new_push(i as nat, g);
        }
    }
    Some(section_headers)
}

} // verus!
