//! Combining two relocatable object files: sections of the same name are
//! concatenated, the other sections are appended, and the symbols of the
//! second file are resolved against those of the first.

use crate::elf::{
    copy_bytes, sections_view, symbols_view, ElfFile, ElfRelocationA, ElfSectionHeader, ElfSectionType, ElfSymbol,
    SpecSectionHeader, SpecSymbol,
};
use vstd::arithmetic::power2::{lemma_pow2_pos, pow2};
use vstd::bits::{lemma_usize_low_bits_mask_is_mod, low_bits_mask};
use vstd::prelude::*;
use vstd::std_specs::bits::u64_trailing_zeros;

verus! {

/// `a` is a power of two.
pub open spec fn is_power_of_two(a: usize) -> bool {
    exists|n: nat| n < usize::BITS && a == pow2(n)
}

/// The smallest multiple of `a` that is at least `v`.
pub open spec fn round_up(v: int, a: int) -> int {
    ((v + a - 1) / a) * a
}

proof fn lemma_round_up_unique(v: int, a: int, r: int)
    requires
        a > 0,
        v >= 0,
        r % a == 0,
        v <= r < v + a,
    ensures
        r == round_up(v, a),
{
    let x = v + a - 1;
    let q = x / a;
    let k = r / a;
    assert(x == q * a + x % a && 0 <= x % a < a) by (nonlinear_arith)
        requires
            a > 0,
            q == x / a,
    ;
    assert(r == k * a) by (nonlinear_arith)
        requires
            a > 0,
            r % a == 0,
            k == r / a,
    ;
    assert(k == q) by (nonlinear_arith)
        requires
            a > 0,
            r == k * a,
            x == q * a + x % a,
            0 <= x % a < a,
            x - a < r <= x,
    ;
}

/// Rounds `v` up to a multiple of `a`, which must be a power of two.
pub fn align_up(v: usize, a: usize) -> (r: usize)
    requires
        is_power_of_two(a),
        v + a <= usize::MAX,
    ensures
        r == round_up(v as int, a as int),
{
    let ghost n = choose|n: nat| n < usize::BITS && a == pow2(n);
    proof {
        lemma_pow2_pos(n);
        lemma_usize_low_bits_mask_is_mod(a, n);
        assert(low_bits_mask(n) as usize == (a - 1) as usize);
        assert(a % a == 0) by (nonlinear_arith)
            requires
                a > 0,
        ;
    }
    let x = v + a - 1;
    let r = x & !(a - 1);
    assert(r & ((a - 1) as usize) == 0 && r <= x && x < r + a) by (bit_vector)
        requires
            a != 0,
            a & ((a - 1) as usize) == 0,
            r == x & !((a - 1) as usize),
    ;
    proof {
        lemma_usize_low_bits_mask_is_mod(r, n);
        assert(low_bits_mask(n) as usize == (a - 1) as usize);
        lemma_round_up_unique(v as int, a as int, r as int);
    }
    r
}

/// Links object files.
pub struct Linker {}

/// Why two object files could not be linked.
#[derive(Debug, Clone, Copy)]
pub struct LinkerError;

/// The sections and symbols of a relocatable object file, as the linker
/// combines them.
#[derive(Debug)]
pub struct ObjectFile {
    pub sections: Vec<ElfSectionHeader>,
    pub symbols: Vec<ElfSymbol>,
}

/// The mathematical value of an [`ObjectFile`].
pub struct SpecObjectFile {
    pub sections: Seq<SpecSectionHeader>,
    pub symbols: Seq<SpecSymbol>,
}

impl View for ObjectFile {
    type V = SpecObjectFile;

    open spec fn view(&self) -> SpecObjectFile {
        SpecObjectFile {
            sections: sections_view(self.sections@),
            symbols: symbols_view(self.symbols@),
        }
    }
}

/// The number of trailing zero bits of `x`, counted in 64 bits.
pub open spec fn trailing_zeros(x: usize) -> u32 {
    u64_trailing_zeros(x as u64)
}

/// Where the bytes of `b` start when they are merged into `a`: the length of
/// `a`'s data, rounded up to `a`'s alignment unless the length and the
/// alignment have the same number of trailing zero bits.
pub open spec fn merge_offset(a: SpecSectionHeader) -> int {
    let len = a.data.len();
    let align = a.addralign as usize;
    if trailing_zeros(len as usize) == trailing_zeros(align) {
        len as int
    } else {
        round_up(len as int, align as int)
    }
}

/// `b` can be merged into `a`: both have the same alignment and type, the
/// rounding that the merge needs is defined, and no moved relocation offset
/// leaves the 64-bit range.
pub open spec fn can_merge(a: SpecSectionHeader, b: SpecSectionHeader) -> bool {
    let len = a.data.len();
    let align = a.addralign as usize;
    &&& a.addralign == b.addralign
    &&& a.ty == b.ty
    &&& trailing_zeros(len as usize) != trailing_zeros(align) ==> {
        &&& is_power_of_two(align)
        &&& len + align <= usize::MAX
    }
    &&& b.relocations matches Some(rs) ==> forall|i: int|
        0 <= i < rs.len() ==> #[trigger] rs[i].offset + merge_offset(a) <= u64::MAX
}

/// The relocations `rs`, moved `off` bytes further into their section.
pub open spec fn shift_relocations(rs: Seq<ElfRelocationA>, off: int) -> Seq<ElfRelocationA> {
    rs.map_values(|r: ElfRelocationA| ElfRelocationA { offset: (r.offset + off) as u64, ..r })
}

/// `a` after `b` is merged into it: `b`'s bytes follow `a`'s, `b`'s
/// relocations follow `a`'s, moved to where `b`'s bytes start, and the size
/// field is set to that start.
pub open spec fn merged(a: SpecSectionHeader, b: SpecSectionHeader) -> SpecSectionHeader {
    let off = merge_offset(a);
    SpecSectionHeader {
        data: a.data + b.data,
        size: off as u64,
        relocations: match b.relocations {
            None => a.relocations,
            Some(rs) => Some(
                match a.relocations {
                    Some(ars) => ars,
                    None => Seq::empty(),
                } + shift_relocations(rs, off),
            ),
        },
        ..a
    }
}

/// A section of the second file takes part in the merge unless it is a
/// symbol table, a string table or a relocation section.
pub open spec fn is_mergeable(s: SpecSectionHeader) -> bool {
    s.ty != ElfSectionType::SYMTAB && s.ty != ElfSectionType::STRTAB && s.ty
        != ElfSectionType::RELA
}

/// The index of the last section of `secs` named `name`.
pub open spec fn last_named_section(secs: Seq<SpecSectionHeader>, name: Seq<char>) -> Option<int>
    decreases secs.len(),
{
    if secs.len() == 0 {
        None
    } else if secs.last().name == name {
        Some(secs.len() - 1)
    } else {
        last_named_section(secs.drop_last(), name)
    }
}

/// The index of the last symbol of `syms` named `name`.
pub open spec fn last_named_symbol(syms: Seq<SpecSymbol>, name: Seq<char>) -> Option<int>
    decreases syms.len(),
{
    if syms.len() == 0 {
        None
    } else if syms.last().name == name {
        Some(syms.len() - 1)
    } else {
        last_named_symbol(syms.drop_last(), name)
    }
}

/// The state of a merge of sections: the merged sections, and for each
/// section of the second file that took part, in order, the index of the
/// section it went to and the offset at which its bytes start there.
pub struct SectionMerge {
    pub sections: Seq<SpecSectionHeader>,
    pub target: Seq<usize>,
    pub offset: Seq<usize>,
}

/// Merges the sections `bs` one after the other into `secs`: a taking part
/// section goes into the last section of the same name, or is appended when
/// there is none. `None` where a merge is not defined.
pub open spec fn merge_all_sections(
    secs: Seq<SpecSectionHeader>,
    bs: Seq<SpecSectionHeader>,
) -> Option<SectionMerge>
    decreases bs.len(),
{
    if bs.len() == 0 {
        Some(SectionMerge { sections: secs, target: Seq::empty(), offset: Seq::empty() })
    } else {
        match merge_all_sections(secs, bs.drop_last()) {
            None => None,
            Some(m) => {
                let s = bs.last();
                if !is_mergeable(s) {
                    Some(m)
                } else {
                    match last_named_section(m.sections, s.name) {
                        Some(i) => if can_merge(m.sections[i], s) {
                            Some(
                                SectionMerge {
                                    sections: m.sections.update(i, merged(m.sections[i], s)),
                                    target: m.target.push(i as usize),
                                    offset: m.offset.push(merge_offset(m.sections[i]) as usize),
                                },
                            )
                        } else {
                            None
                        },
                        None => Some(
                            SectionMerge {
                                sections: m.sections.push(s),
                                target: m.target.push(m.sections.len() as usize),
                                offset: m.offset.push(0),
                            },
                        ),
                    }
                }
            },
        }
    }
}

/// Symbol `y` moved to the merged section that the `k`-th taking part
/// section went to; its value becomes the offset of that section's bytes.
pub open spec fn relocated(y: SpecSymbol, m: SectionMerge, k: int) -> SpecSymbol {
    SpecSymbol { shndx: m.target[k] as u16, value: m.offset[k] as u64, ..y }
}

/// Resolves the symbols `bs` one after the other against `syms`. A named
/// symbol whose name is already defined replaces the undefined earlier one
/// when it is itself defined, and is otherwise dropped; any other symbol is
/// appended, moved to its merged section unless it is absolute (`0xfff1`).
/// `None` where a name is defined twice or a section index has no merged
/// section.
pub open spec fn resolve_symbols(syms: Seq<SpecSymbol>, bs: Seq<SpecSymbol>, m: SectionMerge) -> Option<
    Seq<SpecSymbol>,
>
    decreases bs.len(),
{
    if bs.len() == 0 {
        Some(syms)
    } else {
        match resolve_symbols(syms, bs.drop_last(), m) {
            None => None,
            Some(prior) => {
                let y = bs.last();
                let k = y.shndx as int;
                let found = if y.name.len() != 0 {
                    last_named_symbol(prior, y.name)
                } else {
                    None
                };
                match found {
                    Some(i) => if prior[i].shndx != 0 && y.shndx != 0 {
                        None
                    } else if prior[i].shndx == 0 && y.shndx != 0 {
                        if k < m.target.len() {
                            Some(prior.update(i, relocated(y, m, k)))
                        } else {
                            None
                        }
                    } else {
                        Some(prior)
                    },
                    None => if y.shndx != 0xfff1 {
                        if k < m.target.len() {
                            Some(prior.push(relocated(y, m, k)))
                        } else {
                            None
                        }
                    } else {
                        Some(prior.push(y))
                    },
                }
            },
        }
    }
}

/// The object file that linking `b` into `a` gives, or `None` where linking
/// them is not defined.
pub open spec fn link_result(a: SpecObjectFile, b: SpecObjectFile) -> Option<SpecObjectFile> {
    match merge_all_sections(a.sections, b.sections) {
        None => None,
        Some(m) => match resolve_symbols(a.symbols, b.symbols, m) {
            None => None,
            Some(syms) => Some(SpecObjectFile { sections: m.sections, symbols: syms }),
        },
    }
}

proof fn lemma_merge_prefix(secs: Seq<SpecSectionHeader>, bs: Seq<SpecSectionHeader>, k: int)
    requires
        merge_all_sections(secs, bs) is Some,
        0 <= k <= bs.len(),
    ensures
        merge_all_sections(secs, bs.take(k)) is Some,
    decreases bs.len(),
{
    if k < bs.len() {
        lemma_merge_prefix(secs, bs.drop_last(), k);
        assert(bs.drop_last().take(k) =~= bs.take(k));
    } else {
        assert(bs.take(k) =~= bs);
    }
}

proof fn lemma_resolve_prefix(syms: Seq<SpecSymbol>, bs: Seq<SpecSymbol>, m: SectionMerge, k: int)
    requires
        resolve_symbols(syms, bs, m) is Some,
        0 <= k <= bs.len(),
    ensures
        resolve_symbols(syms, bs.take(k), m) is Some,
    decreases bs.len(),
{
    if k < bs.len() {
        lemma_resolve_prefix(syms, bs.drop_last(), m, k);
        assert(bs.drop_last().take(k) =~= bs.take(k));
    } else {
        assert(bs.take(k) =~= bs);
    }
}

proof fn lemma_last_named_section(secs: Seq<SpecSectionHeader>, name: Seq<char>)
    ensures
        last_named_section(secs, name) matches Some(i) ==> 0 <= i < secs.len() && secs[i].name
            == name,
    decreases secs.len(),
{
    if secs.len() > 0 {
        lemma_last_named_section(secs.drop_last(), name);
    }
}

proof fn lemma_last_named_symbol(syms: Seq<SpecSymbol>, name: Seq<char>)
    ensures
        last_named_symbol(syms, name) matches Some(i) ==> 0 <= i < syms.len() && syms[i].name
            == name,
    decreases syms.len(),
{
    if syms.len() > 0 {
        lemma_last_named_symbol(syms.drop_last(), name);
    }
}

/// The index of the last section of `secs` named `name`.
fn find_last_section(secs: &Vec<ElfSectionHeader>, name: &String) -> (r: Option<usize>)
    ensures
        match r {
            Some(k) => last_named_section(sections_view(secs@), name@) == Some(k as int) && k < secs@.len(),
            None => last_named_section(sections_view(secs@), name@) is None,
        },
{
    let ghost v = sections_view(secs@);
    proof {
        lemma_last_named_section(v, name@);
    }
    let mut k = secs.len();
    assert(v.take(k as int) =~= v);
    while k > 0
        invariant
            k <= secs@.len(),
            v == sections_view(secs@),
            last_named_section(v, name@) == last_named_section(v.take(k as int), name@),
        decreases k,
    {
        assert(v.take(k as int).last() == secs@[k - 1]@);
        if secs[k - 1].name == *name {
            return Some(k - 1);
        }
        assert(v.take(k as int).drop_last() =~= v.take(k - 1));
        k = k - 1;
    }
    None
}

/// The index of the last symbol of `syms` named `name`.
fn find_last_symbol(syms: &Vec<ElfSymbol>, name: &String) -> (r: Option<usize>)
    ensures
        match r {
            Some(k) => last_named_symbol(symbols_view(syms@), name@) == Some(k as int) && k < syms@.len(),
            None => last_named_symbol(symbols_view(syms@), name@) is None,
        },
{
    let ghost v = symbols_view(syms@);
    proof {
        lemma_last_named_symbol(v, name@);
    }
    let mut k = syms.len();
    assert(v.take(k as int) =~= v);
    while k > 0
        invariant
            k <= syms@.len(),
            v == symbols_view(syms@),
            last_named_symbol(v, name@) == last_named_symbol(v.take(k as int), name@),
        decreases k,
    {
        assert(v.take(k as int).last() == syms@[k - 1]@);
        if syms[k - 1].name == *name {
            return Some(k - 1);
        }
        assert(v.take(k as int).drop_last() =~= v.take(k - 1));
        k = k - 1;
    }
    None
}

/// `round_up(v, a)` is a multiple of `a`, at least `v` and less than `v + a`:
/// the smallest multiple of `a` that is at least `v`.
pub proof fn lemma_round_up(v: int, a: int)
    requires
        a > 0,
        v >= 0,
    ensures
        round_up(v, a) % a == 0,
        v <= round_up(v, a) < v + a,
{
    let x = v + a - 1;
    let q = x / a;
    assert(x == q * a + x % a && 0 <= x % a < a) by (nonlinear_arith)
        requires
            a > 0,
            q == x / a,
    ;
    assert((q * a) % a == 0) by (nonlinear_arith)
        requires
            a > 0,
    ;
}

/// Facts about one step of a merge of sections: the sections that were there
/// keep their names, and their bytes stay at the start of what they become.
pub open spec fn keeps_sections(before: Seq<SpecSectionHeader>, after: Seq<SpecSectionHeader>) -> bool {
    &&& after.len() >= before.len()
    &&& forall|i: int|
        0 <= i < before.len() ==> {
            &&& (#[trigger] after[i]).name == before[i].name
            &&& after[i].data.len() >= before[i].data.len()
            &&& after[i].data.take(before[i].data.len() as int) == before[i].data
        }
}

/// The symbols that were there keep their names and places.
pub open spec fn keeps_symbols(before: Seq<SpecSymbol>, after: Seq<SpecSymbol>) -> bool {
    &&& after.len() >= before.len()
    &&& forall|i: int| 0 <= i < before.len() ==> (#[trigger] after[i]).name == before[i].name
}

proof fn lemma_merge_keeps(secs: Seq<SpecSectionHeader>, bs: Seq<SpecSectionHeader>)
    requires
        merge_all_sections(secs, bs) is Some,
    ensures
        keeps_sections(secs, merge_all_sections(secs, bs)->0.sections),
        merge_all_sections(secs, bs)->0.target.len() == merge_all_sections(secs, bs)->0.offset.len(),
    decreases bs.len(),
{
    if bs.len() == 0 {
        assert forall|i: int| 0 <= i < secs.len() implies secs[i].data.take(secs[i].data.len() as int)
            == secs[i].data by {
            assert(secs[i].data.take(secs[i].data.len() as int) =~= secs[i].data);
        }
    } else {
        lemma_merge_keeps(secs, bs.drop_last());
        let m = merge_all_sections(secs, bs.drop_last())->0;
        let s = bs.last();
        lemma_last_named_section(m.sections, s.name);
        let after = merge_all_sections(secs, bs)->0.sections;
        assert forall|i: int| 0 <= i < secs.len() implies {
            &&& (#[trigger] after[i]).name == secs[i].name
            &&& after[i].data.len() >= secs[i].data.len()
            &&& after[i].data.take(secs[i].data.len() as int) == secs[i].data
        } by {
            assert(m.sections[i].data.take(secs[i].data.len() as int) == secs[i].data);
            if is_mergeable(s) && last_named_section(m.sections, s.name) == Some(i) {
                let d = m.sections[i].data + s.data;
                assert(d.take(secs[i].data.len() as int) =~= m.sections[i].data.take(
                    secs[i].data.len() as int,
                ));
            }
        }
    }
}

proof fn lemma_resolve_keeps(syms: Seq<SpecSymbol>, bs: Seq<SpecSymbol>, m: SectionMerge)
    requires
        resolve_symbols(syms, bs, m) is Some,
    ensures
        keeps_symbols(syms, resolve_symbols(syms, bs, m)->0),
    decreases bs.len(),
{
    if bs.len() > 0 {
        lemma_resolve_keeps(syms, bs.drop_last(), m);
        let prior = resolve_symbols(syms, bs.drop_last(), m)->0;
        lemma_last_named_symbol(prior, bs.last().name);
    }
}

/// Linking never drops, moves or renames a section or symbol of the first
/// file, and the bytes of each of its sections stay at the start of the
/// linked section.
pub proof fn lemma_link_keeps_first_file(a: SpecObjectFile, b: SpecObjectFile)
    requires
        link_result(a, b) is Some,
    ensures
        keeps_sections(a.sections, link_result(a, b)->0.sections),
        keeps_symbols(a.symbols, link_result(a, b)->0.symbols),
{
    lemma_merge_keeps(a.sections, b.sections);
    let m = merge_all_sections(a.sections, b.sections)->0;
    lemma_resolve_keeps(a.symbols, b.symbols, m);
}

/// Linking an object file with no sections and no symbols into `a` gives `a`.
pub proof fn lemma_link_empty(a: SpecObjectFile, b: SpecObjectFile)
    requires
        b.sections.len() == 0,
        b.symbols.len() == 0,
    ensures
        link_result(a, b) == Some(a),
{
}

/// A symbol table, string table or relocation section of the second file
/// does not take part in a merge of sections: the merge goes as if it were
/// not there.
proof fn lemma_merge_skips_section(secs: Seq<SpecSectionHeader>, bs: Seq<SpecSectionHeader>, i: int)
    requires
        0 <= i < bs.len(),
        bs[i].ty == ElfSectionType::SYMTAB || bs[i].ty == ElfSectionType::STRTAB || bs[i].ty
            == ElfSectionType::RELA,
    ensures
        merge_all_sections(secs, bs) == merge_all_sections(secs, bs.remove(i)),
    decreases bs.len(),
{
    if i == bs.len() - 1 {
        assert(bs.remove(i) =~= bs.drop_last());
    } else {
        lemma_merge_skips_section(secs, bs.drop_last(), i);
        assert(bs.remove(i).drop_last() =~= bs.drop_last().remove(i));
        assert(bs.remove(i).last() == bs.last());
    }
}

/// The symbol tables, string tables and relocation sections of the second
/// file are left out of linking: linking with such a section gives exactly
/// what linking without it gives (it adds no bytes, no section and no place
/// in the map from the second file's section indices to merged sections).
pub proof fn lemma_link_skips_tables(a: SpecObjectFile, b: SpecObjectFile, i: int)
    requires
        0 <= i < b.sections.len(),
        b.sections[i].ty == ElfSectionType::SYMTAB || b.sections[i].ty == ElfSectionType::STRTAB
            || b.sections[i].ty == ElfSectionType::RELA,
    ensures
        link_result(a, b) == link_result(
            a,
            SpecObjectFile { sections: b.sections.remove(i), symbols: b.symbols },
        ),
{
    lemma_merge_skips_section(a.sections, b.sections, i);
}

/// Linking a second file that has no symbols and only symbol tables, string
/// tables and relocation sections gives the first file unchanged; in
/// particular the first file's string tables keep their bytes.
pub proof fn lemma_link_only_tables(a: SpecObjectFile, b: SpecObjectFile)
    requires
        b.symbols.len() == 0,
        forall|i: int|
            0 <= i < b.sections.len() ==> (#[trigger] b.sections[i]).ty == ElfSectionType::SYMTAB
                || b.sections[i].ty == ElfSectionType::STRTAB || b.sections[i].ty
                == ElfSectionType::RELA,
    ensures
        link_result(a, b) == Some(a),
    decreases b.sections.len(),
{
    if b.sections.len() == 0 {
        lemma_link_empty(a, b);
    } else {
        let b2 = SpecObjectFile { sections: b.sections.remove(0), symbols: b.symbols };
        lemma_link_skips_tables(a, b, 0);
        assert forall|i: int| 0 <= i < b2.sections.len() implies (#[trigger] b2.sections[i]).ty
            == ElfSectionType::SYMTAB || b2.sections[i].ty == ElfSectionType::STRTAB
            || b2.sections[i].ty == ElfSectionType::RELA by {
            assert(b2.sections[i] == b.sections[i + 1]);
        }
        lemma_link_only_tables(a, b2);
    }
}

/// A section of the second file that is neither a symbol table, a string
/// table nor a relocation section goes into the last section of the first
/// file with its name, whose bytes it extends; without such a section it is
/// appended as it is.
pub proof fn lemma_link_one_section(a: SpecObjectFile, s: SpecSectionHeader)
    requires
        s.ty != ElfSectionType::SYMTAB && s.ty != ElfSectionType::STRTAB && s.ty
            != ElfSectionType::RELA,
        link_result(a, SpecObjectFile { sections: seq![s], symbols: Seq::empty() }) is Some,
    ensures
        ({
            let r = link_result(a, SpecObjectFile { sections: seq![s], symbols: Seq::empty() })->0;
            &&& r.symbols == a.symbols
            &&& (forall|j: int| 0 <= j < a.sections.len() ==> a.sections[j].name != s.name)
                ==> r.sections == a.sections.push(s)
            &&& forall|i: int|
                0 <= i < a.sections.len() && a.sections[i].name == s.name && (forall|j: int|
                    i < j < a.sections.len() ==> a.sections[j].name != s.name) ==> {
                    &&& r.sections.len() == a.sections.len()
                    &&& r.sections[i].data == a.sections[i].data + s.data
                    &&& r.sections[i].name == a.sections[i].name
                    &&& forall|j: int|
                        0 <= j < a.sections.len() && j != i ==> r.sections[j] == a.sections[j]
                }
        }),
{
    let bs = seq![s];
    let b = SpecObjectFile { sections: bs, symbols: Seq::empty() };
    assert(bs.drop_last() =~= Seq::<SpecSectionHeader>::empty());
    assert(bs.last() == s);
    let m0 = SectionMerge { sections: a.sections, target: Seq::empty(), offset: Seq::empty() };
    assert(merge_all_sections(a.sections, bs.drop_last()) == Some(m0));
    lemma_last_named_section(a.sections, s.name);
    let m = merge_all_sections(a.sections, bs)->0;
    assert(resolve_symbols(a.symbols, Seq::empty(), m) == Some(a.symbols));
    let r = link_result(a, b)->0;
    assert(r.sections == m.sections);
    assert forall|i: int|
        0 <= i < a.sections.len() && a.sections[i].name == s.name && (forall|j: int|
            i < j < a.sections.len() ==> a.sections[j].name != s.name) implies {
        &&& r.sections.len() == a.sections.len()
        &&& r.sections[i].data == a.sections[i].data + s.data
        &&& r.sections[i].name == a.sections[i].name
        &&& forall|j: int| 0 <= j < a.sections.len() && j != i ==> r.sections[j] == a.sections[j]
    } by {
        lemma_last_named_is_last(a.sections, s.name, i);
        assert(m.sections == a.sections.update(i, merged(a.sections[i], s)));
    }
    if forall|j: int| 0 <= j < a.sections.len() ==> a.sections[j].name != s.name {
        lemma_last_named_none(a.sections, s.name);
        assert(m.sections == a.sections.push(s));
    }
}

proof fn lemma_last_named_is_last(secs: Seq<SpecSectionHeader>, name: Seq<char>, i: int)
    requires
        0 <= i < secs.len(),
        secs[i].name == name,
        forall|j: int| i < j < secs.len() ==> secs[j].name != name,
    ensures
        last_named_section(secs, name) == Some(i),
    decreases secs.len(),
{
    if i < secs.len() - 1 {
        lemma_last_named_is_last(secs.drop_last(), name, i);
    }
}

proof fn lemma_last_named_none(secs: Seq<SpecSectionHeader>, name: Seq<char>)
    requires
        forall|j: int| 0 <= j < secs.len() ==> secs[j].name != name,
    ensures
        last_named_section(secs, name) is None,
    decreases secs.len(),
{
    if secs.len() > 0 {
        lemma_last_named_none(secs.drop_last(), name);
    }
}

/// Merging section `b` into `a` keeps all of `a`'s relocations, in order, at
/// the front; follows them with `b`'s relocations, each moved by the offset
/// that `merge_sections` returns; and has relocations only where one of the
/// two had. The bytes are `a`'s followed by `b`'s, the size field is the
/// returned offset, and every other field is `a`'s.
pub proof fn lemma_merge_relocations(a: SpecSectionHeader, b: SpecSectionHeader)
    ensures
        ({
            let m = merged(a, b);
            let off = merge_offset(a);
            let n = match a.relocations {
                Some(rs) => rs.len() as int,
                None => 0,
            };
            &&& a.relocations matches Some(rs) ==> (m.relocations matches Some(v) && v.len() >= rs.len()
                && v.take(rs.len() as int) == rs)
            &&& b.relocations matches Some(brs) ==> (m.relocations matches Some(v) && v.len() == n
                + brs.len() && forall|j: int|
                0 <= j < brs.len() ==> v[n + j] == (ElfRelocationA {
                    offset: (brs[j].offset + off) as u64,
                    info: brs[j].info,
                    addend: brs[j].addend,
                }))
            &&& (a.relocations is None && b.relocations is None) ==> m.relocations is None
            &&& m.data == a.data + b.data
            &&& m.size == off as u64
            &&& m.name == a.name && m.ty == a.ty && m.flags == a.flags && m.addr == a.addr
            &&& m.offset == a.offset && m.link == a.link && m.info == a.info
            &&& m.addralign == a.addralign && m.entsize == a.entsize && m.name_offset == a.name_offset
        }),
{
    let m = merged(a, b);
    match (a.relocations, b.relocations) {
        (Some(rs), Some(brs)) => {
            let v = m.relocations->0;
            assert(v.take(rs.len() as int) =~= rs);
        },
        _ => {},
    }
}

/// `x` is `y` except perhaps for its section index and value: the fields
/// that resolving a symbol may change.
pub open spec fn same_symbol_but_place(x: SpecSymbol, y: SpecSymbol) -> bool {
    &&& x.name == y.name
    &&& x.name_offset == y.name_offset
    &&& x.info == y.info
    &&& x.other == y.other
    &&& x.size == y.size
}

/// Where the symbols of a link come from.
pub open spec fn symbols_from(a: Seq<SpecSymbol>, b: Seq<SpecSymbol>, r: Seq<SpecSymbol>) -> bool {
    &&& r.len() >= a.len()
    &&& forall|i: int|
        0 <= i < a.len() ==> #[trigger] r[i] == a[i] || (a[i].shndx == 0 && exists|j: int|
            0 <= j < b.len() && b[j].shndx != 0 && b[j].name == a[i].name && same_symbol_but_place(
                r[i],
                #[trigger] b[j],
            ))
    &&& forall|i: int|
        a.len() <= i < r.len() ==> exists|j: int|
            0 <= j < b.len() && same_symbol_but_place(#[trigger] r[i], #[trigger] b[j])
}

proof fn lemma_resolve_origins(syms: Seq<SpecSymbol>, bs: Seq<SpecSymbol>, m: SectionMerge)
    requires
        resolve_symbols(syms, bs, m) is Some,
    ensures
        symbols_from(syms, bs, resolve_symbols(syms, bs, m)->0),
    decreases bs.len(),
{
    if bs.len() == 0 {
        return;
    }
    let bs0 = bs.drop_last();
    lemma_resolve_origins(syms, bs0, m);
    lemma_resolve_keeps(syms, bs0, m);
    let prior = resolve_symbols(syms, bs0, m)->0;
    let r = resolve_symbols(syms, bs, m)->0;
    let y = bs.last();
    let n = bs.len() - 1;
    assert(bs[n] == y);
    lemma_last_named_symbol(prior, y.name);
    assert forall|i: int| 0 <= i < syms.len() implies #[trigger] r[i] == syms[i] || (syms[i].shndx == 0
        && exists|j: int|
        0 <= j < bs.len() && bs[j].shndx != 0 && bs[j].name == syms[i].name && same_symbol_but_place(
            r[i],
            #[trigger] bs[j],
        )) by {
        assert(prior[i] == syms[i] || (syms[i].shndx == 0 && exists|j: int|
            0 <= j < bs0.len() && bs0[j].shndx != 0 && bs0[j].name == syms[i].name
                && same_symbol_but_place(prior[i], #[trigger] bs0[j])));
        if r[i] != prior[i] {
            assert(same_symbol_but_place(r[i], bs[n]));
        } else if prior[i] != syms[i] {
            let j = choose|j: int|
                0 <= j < bs0.len() && bs0[j].shndx != 0 && bs0[j].name == syms[i].name
                    && same_symbol_but_place(prior[i], #[trigger] bs0[j]);
            assert(bs[j] == bs0[j]);
        }
    }
    assert forall|i: int| syms.len() <= i < r.len() implies exists|j: int|
        0 <= j < bs.len() && same_symbol_but_place(#[trigger] r[i], #[trigger] bs[j]) by {
        if i < prior.len() {
            if r[i] != prior[i] {
                assert(same_symbol_but_place(r[i], bs[n]));
            } else {
                let j = choose|j: int|
                    0 <= j < bs0.len() && same_symbol_but_place(#[trigger] prior[i], #[trigger] bs0[j]);
                assert(bs[j] == bs0[j]);
                assert(same_symbol_but_place(r[i], bs[j]));
            }
        } else {
            assert(same_symbol_but_place(r[i], bs[n]));
        }
    }
}

/// The sections of `bs` that take part in a merge, in order: all but symbol
/// tables, string tables and relocation sections.
pub open spec fn taking_part(bs: Seq<SpecSectionHeader>) -> Seq<SpecSectionHeader>
    decreases bs.len(),
{
    if bs.len() == 0 {
        Seq::empty()
    } else {
        let s = bs.last();
        if s.ty == ElfSectionType::SYMTAB || s.ty == ElfSectionType::STRTAB || s.ty
            == ElfSectionType::RELA {
            taking_part(bs.drop_last())
        } else {
            taking_part(bs.drop_last()).push(s)
        }
    }
}

/// Section `sec` holds the bytes of `part` at a position `start`, and
/// `place` (where symbols defined in `part` are put) is that position or,
/// when rounded up to the alignment, lies before the next multiple of it.
pub open spec fn holds_at(sec: SpecSectionHeader, part: SpecSectionHeader, place: int) -> bool {
    exists|start: int|
        0 <= start <= place && start + part.data.len() <= sec.data.len() && #[trigger] sec.data.subrange(
            start,
            start + part.data.len(),
        ) == part.data && (place == start || place < start + (sec.addralign as usize))
}

/// What the map from the taking-part sections of `bs` to merged sections
/// says: the `k`-th of them went to a merged section of its name that holds
/// its bytes, and the offset recorded for it is where those bytes start.
pub open spec fn map_sound(bs: Seq<SpecSectionHeader>, m: SectionMerge) -> bool {
    &&& m.target.len() == taking_part(bs).len()
    &&& m.offset.len() == taking_part(bs).len()
    &&& forall|k: int|
        0 <= k < m.target.len() ==> {
            let t = #[trigger] m.target[k] as int;
            &&& 0 <= t < m.sections.len()
            &&& m.sections[t].name == taking_part(bs)[k].name
            &&& holds_at(m.sections[t], taking_part(bs)[k], m.offset[k] as int)
        }
}

/// The merged sections can be held in memory: their number and each one's
/// byte count fit in a `usize`.
pub open spec fn fits_in_memory(secs: Seq<SpecSectionHeader>) -> bool {
    &&& secs.len() <= usize::MAX
    &&& forall|j: int| 0 <= j < secs.len() ==> (#[trigger] secs[j]).data.len() <= usize::MAX
}

proof fn lemma_merge_map(secs: Seq<SpecSectionHeader>, bs: Seq<SpecSectionHeader>)
    requires
        merge_all_sections(secs, bs) is Some,
        fits_in_memory(merge_all_sections(secs, bs)->0.sections),
    ensures
        map_sound(bs, merge_all_sections(secs, bs)->0),
    decreases bs.len(),
{
    if bs.len() == 0 {
        return;
    }
    let bs0 = bs.drop_last();
    let m0 = merge_all_sections(secs, bs0)->0;
    let m = merge_all_sections(secs, bs)->0;
    let s = bs.last();
    let tp0 = taking_part(bs0);
    let tp = taking_part(bs);
    if !is_mergeable(s) {
        lemma_merge_map(secs, bs0);
        return;
    }
    assert(tp == tp0.push(s));
    lemma_last_named_section(m0.sections, s.name);
    assert(fits_in_memory(m0.sections)) by {
        match last_named_section(m0.sections, s.name) {
            Some(i) => {
                assert forall|j: int| 0 <= j < m0.sections.len() implies (
                #[trigger] m0.sections[j]).data.len() <= usize::MAX by {
                    assert(m.sections[j].data.len() <= usize::MAX);
                }
            },
            None => {
                assert forall|j: int| 0 <= j < m0.sections.len() implies (
                #[trigger] m0.sections[j]).data.len() <= usize::MAX by {
                    assert(m.sections[j] == m0.sections[j]);
                }
            },
        }
    }
    lemma_merge_map(secs, bs0);
    match last_named_section(m0.sections, s.name) {
        Some(i) => {
            let old = m0.sections[i];
            let off = merge_offset(old);
            assert(m.sections[i] == merged(old, s));
            assert forall|k: int| 0 <= k < m.target.len() implies {
                let t = #[trigger] m.target[k] as int;
                &&& 0 <= t < m.sections.len()
                &&& m.sections[t].name == tp[k].name
                &&& holds_at(m.sections[t], tp[k], m.offset[k] as int)
            } by {
                if k < m0.target.len() {
                    let t = m0.target[k] as int;
                    assert(m.target[k] == m0.target[k]);
                    assert(m.offset[k] == m0.offset[k]);
                    assert(tp[k] == tp0[k]);
                    assert(holds_at(m0.sections[t], tp0[k], m0.offset[k] as int));
                    if t == i {
                        let start = choose|start: int|
                            0 <= start <= m0.offset[k] && start + tp0[k].data.len()
                                <= m0.sections[t].data.len() && #[trigger] m0.sections[t].data.subrange(
                                start,
                                start + tp0[k].data.len(),
                            ) == tp0[k].data && (m0.offset[k] == start || m0.offset[k] < start
                                + (m0.sections[t].addralign as usize));
                        assert(m.sections[t].data.subrange(start, start + tp0[k].data.len())
                            =~= m0.sections[t].data.subrange(start, start + tp0[k].data.len()));
                    }
                } else {
                    let start = old.data.len() as int;
                    assert(m.sections[i].data.subrange(start, start + s.data.len()) =~= s.data);
                    lemma_merge_offset(old, s);
                    assert(m.offset[k] as int == off);
                }
            }
        },
        None => {
            assert forall|k: int| 0 <= k < m.target.len() implies {
                let t = #[trigger] m.target[k] as int;
                &&& 0 <= t < m.sections.len()
                &&& m.sections[t].name == tp[k].name
                &&& holds_at(m.sections[t], tp[k], m.offset[k] as int)
            } by {
                if k < m0.target.len() {
                    let t = m0.target[k] as int;
                    assert(m.target[k] == m0.target[k]);
                    assert(tp[k] == tp0[k]);
                    assert(m.sections[t] == m0.sections[t]);
                } else {
                    assert(m.sections[m0.sections.len() as int] == s);
                    assert(tp[k] == s);
                    assert(m.offset[k] == 0);
                    let st: int = 0;
                    assert(s.data.subrange(st, st + s.data.len()) =~= s.data);
                }
            }
        },
    }
}

/// Every section of the second file that takes part in linking (all but
/// symbol tables, string tables and relocation sections) ends up, bytes
/// unchanged and in one piece, inside a section of the result with its name.
pub proof fn lemma_link_keeps_bytes(a: SpecObjectFile, b: SpecObjectFile, k: int)
    requires
        link_result(a, b) is Some,
        fits_in_memory(link_result(a, b)->0.sections),
        0 <= k < taking_part(b.sections).len(),
    ensures
        ({
            let r = link_result(a, b)->0;
            let p = taking_part(b.sections)[k];
            exists|t: int, start: int|
                0 <= t < r.sections.len() && r.sections[t].name == p.name && 0 <= start && start
                    + p.data.len() <= r.sections[t].data.len() && #[trigger] r.sections[t].data.subrange(
                    start,
                    start + p.data.len(),
                ) == p.data
        }),
{
    let m = merge_all_sections(a.sections, b.sections)->0;
    lemma_merge_map(a.sections, b.sections);
    let t = m.target[k] as int;
    assert(holds_at(m.sections[t], taking_part(b.sections)[k], m.offset[k] as int));
}

/// Each symbol of `r` is the symbol of `syms` at its place, or a symbol of
/// `bs` that is absolute, or a symbol of `bs` moved to the merged section
/// that its section went to.
spec fn placed_from(syms: Seq<SpecSymbol>, bs: Seq<SpecSymbol>, m: SectionMerge, r: Seq<SpecSymbol>) -> bool {
    forall|i: int|
        0 <= i < r.len() ==> (i < syms.len() && #[trigger] r[i] == syms[i]) || exists|j: int|
            0 <= j < bs.len() && ((bs[j].shndx == 0xfff1 && r[i] == #[trigger] bs[j]) || (
            bs[j].shndx < m.target.len() && r[i] == relocated(bs[j], m, bs[j].shndx as int)))
}

proof fn lemma_resolve_places(syms: Seq<SpecSymbol>, bs: Seq<SpecSymbol>, m: SectionMerge)
    requires
        resolve_symbols(syms, bs, m) is Some,
    ensures
        placed_from(syms, bs, m, resolve_symbols(syms, bs, m)->0),
    decreases bs.len(),
{
    if bs.len() == 0 {
        return;
    }
    let bs0 = bs.drop_last();
    lemma_resolve_places(syms, bs0, m);
    lemma_resolve_keeps(syms, bs0, m);
    let prior = resolve_symbols(syms, bs0, m)->0;
    let r = resolve_symbols(syms, bs, m)->0;
    let y = bs.last();
    let n = bs.len() - 1;
    assert(bs[n] == y);
    lemma_last_named_symbol(prior, y.name);
    assert forall|i: int| 0 <= i < r.len() implies (i < syms.len() && #[trigger] r[i] == syms[i])
        || exists|j: int|
        0 <= j < bs.len() && ((bs[j].shndx == 0xfff1 && r[i] == #[trigger] bs[j]) || (
        bs[j].shndx < m.target.len() && r[i] == relocated(bs[j], m, bs[j].shndx as int))) by {
        if i < prior.len() && r[i] == prior[i] {
            if !(i < syms.len() && prior[i] == syms[i]) {
                let j = choose|j: int|
                    0 <= j < bs0.len() && ((bs0[j].shndx == 0xfff1 && prior[i] == #[trigger] bs0[j])
                        || (bs0[j].shndx < m.target.len() && prior[i] == relocated(
                        bs0[j],
                        m,
                        bs0[j].shndx as int,
                    )));
                assert(bs[j] == bs0[j]);
            }
        } else {
            assert(bs[n] == y);
        }
    }
}

/// Where a linked symbol that is not the first file's symbol at its place
/// comes from: a symbol of the second file with the same name, size and
/// kind that is either absolute and kept as it is, or placed in the merged
/// section that received its section's bytes, with its value the position
/// at (or, for alignment, just past) which those bytes start there.
pub proof fn lemma_link_symbol_places(a: SpecObjectFile, b: SpecObjectFile, i: int)
    requires
        link_result(a, b) is Some,
        fits_in_memory(link_result(a, b)->0.sections),
        link_result(a, b)->0.sections.len() <= 0x10000,
        0 <= i < link_result(a, b)->0.symbols.len(),
        !(i < a.symbols.len() && link_result(a, b)->0.symbols[i] == a.symbols[i]),
    ensures
        ({
            let r = link_result(a, b)->0;
            let y = r.symbols[i];
            let tp = taking_part(b.sections);
            exists|j: int|
                0 <= j < b.symbols.len() && same_symbol_but_place(y, #[trigger] b.symbols[j]) && (
                (b.symbols[j].shndx == 0xfff1 && y == b.symbols[j]) || ({
                    let k = b.symbols[j].shndx as int;
                    let t = y.shndx as int;
                    &&& k < tp.len()
                    &&& t < r.sections.len()
                    &&& r.sections[t].name == tp[k].name
                    &&& holds_at(r.sections[t], tp[k], y.value as int)
                }))
        }),
{
    let m = merge_all_sections(a.sections, b.sections)->0;
    let r = link_result(a, b)->0;
    lemma_resolve_places(a.symbols, b.symbols, m);
    lemma_merge_map(a.sections, b.sections);
    let y = r.symbols[i];
    let j = choose|j: int|
        0 <= j < b.symbols.len() && ((b.symbols[j].shndx == 0xfff1 && y == #[trigger] b.symbols[j])
            || (b.symbols[j].shndx < m.target.len() && y == relocated(
            b.symbols[j],
            m,
            b.symbols[j].shndx as int,
        )));
    if !(b.symbols[j].shndx == 0xfff1 && y == b.symbols[j]) {
        let k = b.symbols[j].shndx as int;
        let t = m.target[k] as int;
        assert(0 <= t < m.sections.len());
        assert(y.shndx as int == t);
        assert(y.value as int == m.offset[k] as int);
        assert(holds_at(m.sections[t], taking_part(b.sections)[k], m.offset[k] as int));
    }
}

proof fn lemma_last_named_update(syms: Seq<SpecSymbol>, k: int, x: SpecSymbol, name: Seq<char>)
    requires
        0 <= k < syms.len(),
        syms[k].name != name,
        x.name != name,
    ensures
        last_named_symbol(syms.update(k, x), name) == last_named_symbol(syms, name),
    decreases syms.len(),
{
    let u = syms.update(k, x);
    if k < syms.len() - 1 {
        assert(u.last() == syms.last());
        if syms.last().name != name {
            assert(u.drop_last() =~= syms.drop_last().update(k, x));
            lemma_last_named_update(syms.drop_last(), k, x, name);
        }
    } else {
        assert(u.drop_last() =~= syms.drop_last());
    }
}

/// Resolving symbols against `syms`, whose last symbol named `name` (not
/// empty) is defined, keeps that symbol as it is and the last of its name;
/// and where it succeeds, none of the resolved symbols defines `name`.
proof fn lemma_resolve_keeps_defined(
    syms: Seq<SpecSymbol>,
    bs: Seq<SpecSymbol>,
    m: SectionMerge,
    i: int,
    name: Seq<char>,
)
    requires
        resolve_symbols(syms, bs, m) is Some,
        0 <= i < syms.len(),
        syms[i].name == name,
        name.len() != 0,
        syms[i].shndx != 0,
        last_named_symbol(syms, name) == Some(i),
    ensures
        resolve_symbols(syms, bs, m)->0[i] == syms[i],
        last_named_symbol(resolve_symbols(syms, bs, m)->0, name) == Some(i),
        forall|j: int| 0 <= j < bs.len() && (#[trigger] bs[j]).name == name ==> bs[j].shndx == 0,
    decreases bs.len(),
{
    if bs.len() == 0 {
        return;
    }
    let bs0 = bs.drop_last();
    lemma_resolve_keeps_defined(syms, bs0, m, i, name);
    lemma_resolve_keeps(syms, bs0, m);
    let prior = resolve_symbols(syms, bs0, m)->0;
    let y = bs.last();
    lemma_last_named_symbol(prior, y.name);
    let r = resolve_symbols(syms, bs, m)->0;
    if y.name != name {
        let found = if y.name.len() != 0 {
            last_named_symbol(prior, y.name)
        } else {
            None
        };
        match found {
            Some(k) => {
                if prior[k].shndx == 0 && y.shndx != 0 {
                    lemma_last_named_update(prior, k, relocated(y, m, y.shndx as int), name);
                }
            },
            None => {
                assert(r.drop_last() =~= prior);
                assert(r.last().name == y.name);
            },
        }
    }
    assert forall|j: int| 0 <= j < bs.len() && (#[trigger] bs[j]).name == name implies bs[j].shndx
        == 0 by {
        if j < bs0.len() {
            assert(bs[j] == bs0[j]);
        }
    }
}

/// A name that the first file defines (its last symbol of that name is
/// defined) cannot be defined by the second file too: such a link is
/// refused.
pub proof fn lemma_link_refuses_redefinition(a: SpecObjectFile, b: SpecObjectFile, i: int, j: int)
    requires
        0 <= i < a.symbols.len(),
        a.symbols[i].name.len() != 0,
        a.symbols[i].shndx != 0,
        forall|k: int| i < k < a.symbols.len() ==> (#[trigger] a.symbols[k]).name != a.symbols[i].name,
        0 <= j < b.symbols.len(),
        b.symbols[j].name == a.symbols[i].name,
        b.symbols[j].shndx != 0,
    ensures
        link_result(a, b) is None,
{
    if link_result(a, b) is Some {
        let m = merge_all_sections(a.sections, b.sections)->0;
        lemma_last_named_is_last_symbol(a.symbols, a.symbols[i].name, i);
        lemma_resolve_keeps_defined(a.symbols, b.symbols, m, i, a.symbols[i].name);
        assert(b.symbols[j].shndx == 0);
    }
}

proof fn lemma_last_named_is_last_symbol(syms: Seq<SpecSymbol>, name: Seq<char>, i: int)
    requires
        0 <= i < syms.len(),
        syms[i].name == name,
        forall|j: int| i < j < syms.len() ==> (#[trigger] syms[j]).name != name,
    ensures
        last_named_symbol(syms, name) == Some(i),
    decreases syms.len(),
{
    if i < syms.len() - 1 {
        assert forall|j: int| i < j < syms.drop_last().len() implies (
        #[trigger] syms.drop_last()[j]).name != name by {
            assert(syms.drop_last()[j] == syms[j]);
        }
        assert(syms.last() == syms[syms.len() - 1]);
        lemma_last_named_is_last_symbol(syms.drop_last(), name, i);
    }
}

/// Every symbol of a link is either the first file's symbol at that place,
/// or, for an undefined symbol of the first file, a defined symbol of the
/// second file with the same name; after the first file's symbols come
/// symbols of the second file. A symbol taken from the second file keeps
/// everything but its section index and value.
pub proof fn lemma_link_symbol_origins(a: SpecObjectFile, b: SpecObjectFile)
    requires
        link_result(a, b) is Some,
    ensures
        symbols_from(a.symbols, b.symbols, link_result(a, b)->0.symbols),
{
    let m = merge_all_sections(a.sections, b.sections)->0;
    lemma_resolve_origins(a.symbols, b.symbols, m);
}

/// Linking a second file with no symbols keeps the first file's symbols.
pub proof fn lemma_link_no_symbols(a: SpecObjectFile, b: SpecObjectFile)
    requires
        link_result(a, b) is Some,
        b.symbols.len() == 0,
    ensures
        link_result(a, b)->0.symbols == a.symbols,
{
}

/// The offset at which a merge places the second section's bytes never
/// precedes the end of the first section's bytes. It is that end where the
/// byte count and the alignment have the same number of trailing zero bits,
/// and otherwise the next multiple of the alignment.
pub proof fn lemma_merge_offset(a: SpecSectionHeader, b: SpecSectionHeader)
    requires
        can_merge(a, b),
    ensures
        a.data.len() <= merge_offset(a),
        merge_offset(a) == a.data.len() || (merge_offset(a) % ((a.addralign as usize) as int) == 0
            && merge_offset(a) < a.data.len() + (a.addralign as usize)),
        u64_trailing_zeros((a.data.len() as usize) as u64) == u64_trailing_zeros(
            (a.addralign as usize) as u64,
        ) ==> merge_offset(a) == a.data.len(),
        u64_trailing_zeros((a.data.len() as usize) as u64) != u64_trailing_zeros(
            (a.addralign as usize) as u64,
        ) ==> merge_offset(a) % ((a.addralign as usize) as int) == 0 && merge_offset(a) < a.data.len()
            + (a.addralign as usize),
{
    let align = a.addralign as usize;
    if trailing_zeros(a.data.len() as usize) != trailing_zeros(align) {
        let n = choose|n: nat| n < usize::BITS && align == pow2(n);
        lemma_pow2_pos(n);
        lemma_round_up(a.data.len() as int, align as int);
    }
}

impl Linker {
    /// The result of linking `files`: the first of them.
    pub fn link(files: Vec<ElfFile>) -> (r: Result<ElfFile, LinkerError>)
        requires
            files.len() > 0,
        ensures
            r matches Ok(f) && f == files[0],
    {
        let mut files = files;
        Ok(files.remove(0))
    }

    /// Links object file `b` into object file `a`.
    ///
    /// Each section of `b` other than a symbol table, string table or
    /// relocation section is merged into the last section of `a` with its
    /// name, or appended when there is none; then each symbol of `b` is
    /// resolved against the symbols gathered so far (see [`resolve_symbols`]).
    pub fn link_files(&self, a: ObjectFile, b: ObjectFile) -> (r: Result<ObjectFile, LinkerError>)
        requires
            link_result(a@, b@) is Some,
        ensures
            r matches Ok(f) && link_result(a@, b@) == Some(f@),
    {
        let ghost a0 = a@;
        let ghost b0 = b@;
        let ObjectFile { sections: mut sections, symbols: mut symbols } = a;
        // for each taking part section of `b`: the merged section it went to
        let mut merged_section_idx: Vec<usize> = Vec::new();
        // for each taking part section of `b`: where its bytes start there
        let mut value_offsets: Vec<usize> = Vec::new();
        let ghost m_all = merge_all_sections(a0.sections, b0.sections)->0;
        assert(b0.sections.take(0) =~= Seq::<SpecSectionHeader>::empty());
        for i in 0..b.sections.len()
            invariant
                b0 == b@,
                merged_section_idx.len() == value_offsets.len(),
                merge_all_sections(a0.sections, b0.sections) is Some,
                merge_all_sections(a0.sections, b0.sections.take(i as int)) == Some(
                    SectionMerge {
                        sections: sections_view(sections@),
                        target: merged_section_idx@,
                        offset: value_offsets@,
                    },
                ),
        {
            let section = &b.sections[i];
            proof {
                lemma_merge_prefix(a0.sections, b0.sections, i + 1);
                assert(b0.sections.take(i + 1).drop_last() =~= b0.sections.take(i as int));
                assert(b0.sections.take(i + 1).last() == section@);
            }
            if section.ty != ElfSectionType::SYMTAB && section.ty != ElfSectionType::STRTAB
                && section.ty != ElfSectionType::RELA {
                match find_last_section(&sections, &section.name) {
                    Some(existing_idx) => {
                        let ghost before = sections_view(sections@);
                        proof {
                            let bs = b0.sections.take(i + 1);
                            assert(is_mergeable(section@));
                            assert(merge_all_sections(a0.sections, bs.drop_last()) == Some(
                                SectionMerge {
                                    sections: before,
                                    target: merged_section_idx@,
                                    offset: value_offsets@,
                                },
                            ));
                            assert(last_named_section(before, section@.name) == Some(
                                existing_idx as int,
                            ));
                            assert(can_merge(before[existing_idx as int], section@));
                            assert(sections@[existing_idx as int]@ == before[existing_idx as int]);
                        }
                        let offset = self.merge_sections(&mut sections[existing_idx], section);
                        value_offsets.push(offset);
                        merged_section_idx.push(existing_idx);
                        assert(sections_view(sections@) =~= before.update(
                            existing_idx as int,
                            merged(before[existing_idx as int], section@),
                        ));
                    },
                    None => {
                        let ghost before = sections_view(sections@);
                        merged_section_idx.push(sections.len());
                        value_offsets.push(0);
                        sections.push(section.clone());
                        assert(sections_view(sections@) =~= before.push(section@));
                    },
                }
            }
        }
        assert(b0.sections.take(b0.sections.len() as int) =~= b0.sections);
        let ghost m = merge_all_sections(a0.sections, b0.sections)->0;
        assert(b0.symbols.take(0) =~= Seq::<SpecSymbol>::empty());
        for j in 0..b.symbols.len()
            invariant
                b0 == b@,
                m == merge_all_sections(a0.sections, b0.sections)->0,
                m.target == merged_section_idx@,
                merged_section_idx.len() == value_offsets.len(),
                m.offset == value_offsets@,
                resolve_symbols(a0.symbols, b0.symbols, m) is Some,
                resolve_symbols(a0.symbols, b0.symbols.take(j as int), m) == Some(
                    symbols_view(symbols@),
                ),
        {
            let symbol = &b.symbols[j];
            let ghost before = symbols_view(symbols@);
            proof {
                lemma_resolve_prefix(a0.symbols, b0.symbols, m, j + 1);
                assert(b0.symbols.take(j + 1).drop_last() =~= b0.symbols.take(j as int));
                assert(b0.symbols.take(j + 1).last() == symbol@);
            }
            let found = if !symbol.name.as_str().is_empty() {
                find_last_symbol(&symbols, &symbol.name)
            } else {
                None
            };
            match found {
                Some(existing_idx) => {
                    if symbols[existing_idx].shndx == 0 && symbol.shndx != 0 {
                        let shndx = symbol.shndx as usize;
                        let mut new_symbol = symbol.clone();
                        new_symbol.shndx = merged_section_idx[shndx] as u16;
                        new_symbol.value = value_offsets[shndx] as u64;
                        symbols.set(existing_idx, new_symbol);
                        assert(symbols_view(symbols@) =~= before.update(
                            existing_idx as int,
                            relocated(symbol@, m, shndx as int),
                        ));
                    }
                },
                None => {
                    let mut new_symbol = symbol.clone();
                    if new_symbol.shndx != 0xfff1 {
                        let shndx = symbol.shndx as usize;
                        new_symbol.shndx = merged_section_idx[shndx] as u16;
                        new_symbol.value = value_offsets[shndx] as u64;
                    }
                    symbols.push(new_symbol);
                    assert(symbols_view(symbols@) =~= before.push(new_symbol@));
                },
            }
        }
        assert(b0.symbols.take(b0.symbols.len() as int) =~= b0.symbols);
        Ok(ObjectFile { sections, symbols })
    }

    /// Merges section `b` into section `a` and returns the offset in `a` at
    /// which `b`'s bytes are meant to start.
    pub fn merge_sections(&self, a: &mut ElfSectionHeader, b: &ElfSectionHeader) -> (r: usize)
        requires
            can_merge(old(a)@, b@),
        ensures
            final(a)@ == merged(old(a)@, b@),
            r == merge_offset(old(a)@),
    {
        let align = a.addralign as usize;
        let mut len = a.data.len();
        let aligned = (len as u64).trailing_zeros() == (align as u64).trailing_zeros();
        len = if aligned {
            len
        } else {
            align_up(len, align)
        };
        let ghost a0 = a@;
        let mut extra = copy_bytes(&b.data);
        a.data.append(&mut extra);
        a.size = len as u64;
        match &b.relocations {
            Some(relocas) => {
                let mut list = match a.relocations.take() {
                    Some(v) => v,
                    None => Vec::new(),
                };
                let ghost start = list@;
                for i in 0..relocas.len()
                    invariant
                        len == merge_offset(a0),
                        b@.relocations == Some(relocas@),
                        can_merge(a0, b@),
                        list@ == start + shift_relocations(relocas@.take(i as int), len as int),
                {
                    let mut new_reloca = relocas[i];
                    proof {
                        let rs = b@.relocations->0;
                        assert(rs == relocas@);
                        assert(rs[i as int].offset + merge_offset(a0) <= u64::MAX);
                    }
                    new_reloca.offset += len as u64;
                    list.push(new_reloca);
                    assert(relocas@.take(i + 1) =~= relocas@.take(i as int).push(relocas@[i as int]));
                    assert(list@ =~= start + shift_relocations(relocas@.take(i + 1), len as int));
                }
                assert(relocas@.take(relocas@.len() as int) =~= relocas@);
                a.relocations = Some(list);
            },
            None => {},
        }
        len
    }
}

} // verus!
