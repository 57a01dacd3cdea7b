//! A minimal ELF64 reader: just enough of the header and the program
//! headers for loading a statically linked image — little-endian field
//! extraction with exact contracts over the byte sequence.
use crate::caps::BootError;
use vstd::prelude::*;

verus! {

/// Program-header type: loadable segment.
pub const PT_LOAD: u32 = 1;

/// Program-header type: auxiliary note, ignored by the loader.
pub const PT_NOTE: u32 = 4;

/// Program-header type: stack request, honoured by mapping the init
/// thread's stack pages.
pub const PT_GNU_STACK: u32 = 0x6474_E551;

/// The little-endian 16-bit value at `off`.
pub open spec fn le16(b: Seq<u8>, off: int) -> int {
    b[off] + 0x100 * b[off + 1]
}

/// The little-endian 32-bit value at `off`.
pub open spec fn le32(b: Seq<u8>, off: int) -> int {
    b[off] + 0x100 * b[off + 1] + 0x1_0000 * b[off + 2] + 0x100_0000 * b[off + 3]
}

/// The little-endian 64-bit value at `off`.
pub open spec fn le64(b: Seq<u8>, off: int) -> int {
    b[off] + 0x100 * b[off + 1] + 0x1_0000 * b[off + 2] + 0x100_0000 * b[off + 3] + 0x1_0000_0000
        * b[off + 4] + 0x100_0000_0000 * b[off + 5] + 0x1_0000_0000_0000 * b[off + 6]
        + 0x100_0000_0000_0000 * b[off + 7]
}

/// Reads the little-endian 16-bit value at `off`.
pub fn read_u16(b: &[u8], off: usize) -> (r: u16)
    requires
        off + 2 <= b@.len(),
    ensures
        r as int == le16(b@, off as int),
{
    b[off] as u16 + 0x100 * (b[off + 1] as u16)
}

/// Reads the little-endian 32-bit value at `off`.
pub fn read_u32(b: &[u8], off: usize) -> (r: u32)
    requires
        off + 4 <= b@.len(),
    ensures
        r as int == le32(b@, off as int),
{
    b[off] as u32 + 0x100 * (b[off + 1] as u32) + 0x1_0000 * (b[off + 2] as u32) + 0x100_0000 * (
    b[off + 3] as u32)
}

/// Reads the little-endian 64-bit value at `off`.
pub fn read_u64(b: &[u8], off: usize) -> (r: u64)
    requires
        off + 8 <= b@.len(),
    ensures
        r as int == le64(b@, off as int),
{
    b[off] as u64 + 0x100 * (b[off + 1] as u64) + 0x1_0000 * (b[off + 2] as u64) + 0x100_0000 * (
    b[off + 3] as u64) + 0x1_0000_0000 * (b[off + 4] as u64) + 0x100_0000_0000 * (b[off
        + 5] as u64) + 0x1_0000_0000_0000 * (b[off + 6] as u64) + 0x100_0000_0000_0000 * (b[off
        + 7] as u64)
}

/// Whether the image starts with the ELF magic.
pub open spec fn elf_magic_ok(b: Seq<u8>) -> bool {
    b.len() >= 4 && b[0] == 0x7F && b[1] == 0x45 && b[2] == 0x4C && b[3] == 0x46
}

/// Whether the image carries a complete 64-bit ELF header.
pub open spec fn elf64_header_ok(b: Seq<u8>) -> bool {
    b.len() >= 64 && elf_magic_ok(b) && b[4] == 2
}

/// The fields of the ELF64 header that the loader consumes.
#[derive(Clone, Copy, PartialEq, Eq, Structural, Debug)]
pub struct ElfHeader {
    pub entry: u64,
    pub phoff: u64,
    pub phentsize: u16,
    pub phnum: u16,
}

/// Parses the ELF64 header.  Succeeds exactly on images of at least 64
/// bytes that carry the ELF magic and the 64-bit class byte; an ELF32
/// image is rejected as unsupported.
pub fn parse_elf_header(b: &[u8]) -> (r: Result<ElfHeader, BootError>)
    ensures
        r is Ok <==> elf64_header_ok(b@),
        r matches Ok(h) ==> h.entry as int == le64(b@, 0x18) && h.phoff as int == le64(b@, 0x20)
            && h.phentsize as int == le16(b@, 0x36) && h.phnum as int == le16(b@, 0x38),
        r matches Err(e) ==> {
            &&& (e == BootError::ElfTooShort <==> b@.len() < 64)
            &&& (e == BootError::ElfBadMagic <==> b@.len() >= 64 && !elf_magic_ok(b@))
            &&& (e == BootError::ElfNotElf64 <==> b@.len() >= 64 && elf_magic_ok(b@) && b@[4] != 2)
        },
{
    if b.len() < 64 {
        return Err(BootError::ElfTooShort);
    }
    if !(b[0] == 0x7F && b[1] == 0x45 && b[2] == 0x4C && b[3] == 0x46) {
        return Err(BootError::ElfBadMagic);
    }
    if b[4] != 2 {
        return Err(BootError::ElfNotElf64);
    }
    Ok(
        ElfHeader {
            entry: read_u64(b, 0x18),
            phoff: read_u64(b, 0x20),
            phentsize: read_u16(b, 0x36),
            phnum: read_u16(b, 0x38),
        },
    )
}

/// The fields of one ELF64 program header that the loader consumes.
#[derive(Clone, Copy, PartialEq, Eq, Structural, Debug)]
pub struct ProgramHeader {
    pub ptype: u32,
    pub flags: u32,
    pub offset: u64,
    pub vaddr: u64,
    pub filesz: u64,
    pub memsz: u64,
}

/// The program header encoded at byte offset `base`.
pub open spec fn ph_spec(b: Seq<u8>, base: int) -> ProgramHeader {
    ProgramHeader {
        ptype: le32(b, base) as u32,
        flags: le32(b, base + 4) as u32,
        offset: le64(b, base + 8) as u64,
        vaddr: le64(b, base + 16) as u64,
        filesz: le64(b, base + 32) as u64,
        memsz: le64(b, base + 40) as u64,
    }
}

/// Parses program header `idx` of the table at `phoff` (56-byte
/// entries, as in ELF64).  Succeeds exactly when the entry lies inside
/// the image.
pub fn parse_program_header(b: &[u8], phoff: u64, idx: u16) -> (r: Result<
    ProgramHeader,
    BootError,
>)
    ensures
        r is Ok <==> phoff + 56 * (idx as int) + 56 <= b@.len(),
        r matches Ok(ph) ==> ph == ph_spec(b@, phoff as int + 56 * (idx as int)),
        r matches Err(e) ==> e == BootError::ElfTooShort,
{
    let need: u64 = 56 * (idx as u64) + 56;
    if (b.len() as u64) < need {
        return Err(BootError::ElfTooShort);
    }
    if phoff > b.len() as u64 - need {
        return Err(BootError::ElfTooShort);
    }
    let base = (phoff + 56 * (idx as u64)) as usize;
    let ph = ProgramHeader {
        ptype: read_u32(b, base),
        flags: read_u32(b, base + 4),
        offset: read_u64(b, base + 8),
        vaddr: read_u64(b, base + 16),
        filesz: read_u64(b, base + 32),
        memsz: read_u64(b, base + 40),
    };
    Ok(ph)
}

} // verus!
