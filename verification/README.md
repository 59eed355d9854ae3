# slinky

A small ELF64 object-file reader and the beginnings of a linker, written in
Verus and verified.

- `src/elf/mod.rs`: the data model (file and section headers, symbols,
  relocations, the numbered ELF enumerations) and the bit fields of symbols
  and relocations.
- `src/elf/read.rs`: reading integers in either byte order (through `nom`),
  fixed byte strings and NUL-terminated UTF-8 names from byte slices.
- `src/elf/parse.rs`: the parser. Each parser is stated against a spec
  function that says, for every input, whether it is parsed and into what,
  rejected, or outside what the format gives a meaning to; `ElfFile::try_parse`
  tells the last kind apart, `ElfFile::parse` requires that it does not occur.
- `src/link/mod.rs`: merging the sections of two object files and resolving
  their symbols, with the laws that linking keeps the first file's sections
  and symbols in place.
- `app/main.rs`: reads `data/math.o` and prints the parsed file.
