//! What the loader reads from an ELF image, through the `elf_rs` parser.
use elf_rs::Error as ElfRsError;
use elf_rs::{Elf, SectionType};
use vstd::prelude::*;

verus! {

/// Little-endian integers at byte `o` of `b`.
pub open spec fn le16(b: Seq<u8>, o: int) -> int {
    b[o] as int + 256 * b[o + 1] as int
}

pub open spec fn le32(b: Seq<u8>, o: int) -> int {
    le16(b, o) + 0x1_0000 * le16(b, o + 2)
}

pub open spec fn le64(b: Seq<u8>, o: int) -> int {
    le32(b, o) + 0x1_0000_0000 * le32(b, o + 4)
}

/// Bytes of a 32-bit ELF header; shorter buffers are refused.
pub const ELF32_HEADER_SIZE: usize = 52;

/// Bytes of a 64-bit ELF header.
pub const ELF64_HEADER_SIZE: usize = 64;

/// Bytes of one 64-bit section header.
pub const ELF64_SECTION_HEADER_SIZE: u64 = 64;

/// Section type of sections whose bytes are in the file.
pub const SHT_PROGBITS: u32 = 1;

pub open spec fn has_elf_magic(b: Seq<u8>) -> bool {
    b[0] == 0x7f && b[1] == 0x45 && b[2] == 0x4c && b[3] == 0x46
}

/// The class byte: 1 for 32-bit, 2 for 64-bit images.
pub open spec fn elf_class(b: Seq<u8>) -> u8 {
    b[4]
}

/// Offset and count of the section headers of a 64-bit image.
pub open spec fn section_table_offset(b: Seq<u8>) -> int {
    le64(b, 40)
}

pub open spec fn section_count(b: Seq<u8>) -> int {
    le16(b, 60)
}

/// The section table of a 64-bit image lies inside the buffer.
pub open spec fn section_table_fits(b: Seq<u8>) -> bool {
    section_table_offset(b) + ELF64_SECTION_HEADER_SIZE * section_count(b) <= b.len()
}

/// The fields of one section header that the loader uses.
#[derive(Debug, Clone, Copy, PartialEq, Eq, Structural)]
pub struct SectionInfo {
    /// The section's bytes are in the file (`SHT_PROGBITS`).
    pub progbits: bool,
    pub addr: u64,
    pub offset: u64,
    pub size: u64,
}

/// The 64-bit section header at byte `o`.
pub open spec fn section_at(b: Seq<u8>, o: int) -> SectionInfo {
    SectionInfo {
        progbits: le32(b, o + 4) == SHT_PROGBITS,
        addr: le64(b, o + 16) as u64,
        offset: le64(b, o + 24) as u64,
        size: le64(b, o + 32) as u64,
    }
}

/// `entry` and `sections` are what the 64-bit header of `b` holds.
pub open spec fn elf64_matches(b: Seq<u8>, entry: u64, sections: Seq<SectionInfo>) -> bool {
    &&& entry == le64(b, 24)
    &&& sections.len() == section_count(b)
    &&& forall|i: int|
        0 <= i < sections.len() ==> #[trigger] sections[i] == section_at(
            b,
            section_table_offset(b) + ELF64_SECTION_HEADER_SIZE * i,
        )
}

/// What the loader takes from a 64-bit image.
pub struct Elf64Image {
    pub entry: u64,
    pub sections: Vec<SectionInfo>,
}

/// An image as the parser sees it.
pub enum ElfImage {
    Elf32,
    Elf64(Elf64Image),
}

/// Why the parser refused an image.
#[derive(Debug, Clone, Copy, PartialEq, Eq, Structural)]
pub enum ElfError {
    BufferTooShort,
    InvalidMagic,
    InvalidClass,
}

/// Relies on `elf_rs::Elf::from_bytes`: a buffer under 52 bytes is too short,
/// then the magic is checked, then the class byte picks the 32- or 64-bit
/// header, whose size field (at 52, resp. 40) must not exceed the buffer.
/// For a 64-bit image it relies on `ElfHeaderGen::entry_point` and
/// `section_header_iter`, whose headers (`sh_type`, `addr`, `offset`, `size`)
/// the crate reads in place, in the machine's little-endian order. The
/// crate reads a whole 64-bit header before checking its size, and the
/// section table without checking its bounds or its alignment, hence
/// `requires`. It reads both through typed references into `b`; taking the
/// whole vector (never a sub-slice) leaves one assumption: that the global
/// allocator places a vector's storage at an address aligned for 8-byte
/// fields, as the system allocator does. The fields are read in the
/// machine's byte order, so the contract holds on a little-endian host
/// (RISC-V and x86-64 both are).
#[verifier::external_body]
fn parse_elf(b: &Vec<u8>) -> (r: Result<ElfImage, ElfError>)
    requires
        b@.len() >= ELF64_HEADER_SIZE,
        has_elf_magic(b@) && elf_class(b@) == 2 ==> section_table_fits(b@)
            && section_table_offset(b@) % 8 == 0,
    ensures
        !has_elf_magic(b@) ==> (r matches Err(ElfError::InvalidMagic)),
        has_elf_magic(b@) && elf_class(b@) != 1 && elf_class(b@) != 2 ==> (r matches Err(ElfError::InvalidClass)),
        has_elf_magic(b@) && elf_class(b@) == 1 && b@.len() < le16(b@, 40) ==> (r matches Err(ElfError::BufferTooShort)),
        has_elf_magic(b@) && elf_class(b@) == 1 && b@.len() >= le16(b@, 40) ==> (r matches Ok(ElfImage::Elf32)),
        has_elf_magic(b@) && elf_class(b@) == 2 && b@.len() < le16(b@, 52) ==> (r matches Err(ElfError::BufferTooShort)),
        has_elf_magic(b@) && elf_class(b@) == 2 && b@.len() >= le16(b@, 52) ==> (r matches Ok(
            ElfImage::Elf64(_),
        )),
        r matches Ok(ElfImage::Elf64(img)) ==> elf64_matches(b@, img.entry, img.sections@),
{
    match Elf::from_bytes(b.as_slice()) {
        Ok(Elf::Elf64(e)) => Ok(ElfImage::Elf64(Elf64Image {
            entry: e.header().entry_point(),
            sections: e.section_header_iter().map(|s| SectionInfo {
                progbits: s.sh.sh_type() == SectionType::SHT_PROGBITS,
                addr: s.sh.addr(), offset: s.sh.offset(), size: s.sh.size(),
            }).collect(),
        })),
        Ok(Elf::Elf32(_)) => Ok(ElfImage::Elf32),
        Err(ElfRsError::BufferTooShort) => Err(ElfError::BufferTooShort),
        Err(ElfRsError::InvalidMagic) => Err(ElfError::InvalidMagic),
        Err(ElfRsError::InvalidClass) => Err(ElfError::InvalidClass),
    }
}

/// The little-endian 16-bit integer at byte `o`.
pub fn read_le16(b: &[u8], o: usize) -> (r: u64)
    requires
        o + 2 <= b@.len(),
    ensures
        r == le16(b@, o as int),
{
    b[o] as u64 + 256 * (b[o + 1] as u64)
}

/// The little-endian 32-bit integer at byte `o`.
pub fn read_le32(b: &[u8], o: usize) -> (r: u64)
    requires
        o + 4 <= b@.len(),
    ensures
        r == le32(b@, o as int),
{
    let n = b.len();
    assert(o + 4 <= n);
    read_le16(b, o) + 0x1_0000 * read_le16(b, o + 2)
}

/// The little-endian 64-bit integer at byte `o`.
pub fn read_le64(b: &[u8], o: usize) -> (r: u64)
    requires
        o + 8 <= b@.len(),
    ensures
        r == le64(b@, o as int),
{
    let n = b.len();
    assert(o + 8 <= n);
    let lo = read_le32(b, o);
    let hi = read_le32(b, o + 4);
    assert(lo < 0x1_0000_0000 && hi < 0x1_0000_0000);
    lo + 0x1_0000_0000 * hi
}

/// Why an image cannot be loaded.
#[derive(Debug, Clone, Copy, PartialEq, Eq, Structural)]
pub enum LoadError {
    /// The parser refused the image.
    Malformed(ElfError),
    /// The header, the section table or a section's bytes lie outside the
    /// image, or a section's range overflows.
    Truncated,
    /// The section table of a 64-bit image does not start at a multiple of
    /// eight bytes.
    Misaligned,
}

/// The section table of a 64-bit image starts at a multiple of eight.
pub open spec fn section_table_aligned(b: Seq<u8>) -> bool {
    section_table_offset(b) % 8 == 0
}

/// Parses an image of at least a 64-bit header's size, refusing a 64-bit one
/// whose section table does not fit in it or is not aligned. The image is
/// the whole storage of a vector, which starts aligned for the parser's
/// in-place reads.
pub fn parse(b: &Vec<u8>) -> (r: Result<ElfImage, LoadError>)
    ensures
        b@.len() < ELF64_HEADER_SIZE ==> r == Err::<ElfImage, LoadError>(LoadError::Truncated),
        b@.len() >= ELF64_HEADER_SIZE && !has_elf_magic(b@) ==> r == Err::<ElfImage, LoadError>(
            LoadError::Malformed(ElfError::InvalidMagic),
        ),
        b@.len() >= ELF64_HEADER_SIZE && has_elf_magic(b@) && elf_class(b@) == 1 && b@.len()
            >= le16(b@, 40) ==> r matches Ok(ElfImage::Elf32),
        b@.len() >= ELF64_HEADER_SIZE && has_elf_magic(b@) && elf_class(b@) == 2 ==> (
        !section_table_fits(b@) ==> r == Err::<ElfImage, LoadError>(LoadError::Truncated)),
        b@.len() >= ELF64_HEADER_SIZE && has_elf_magic(b@) && elf_class(b@) == 2
            && section_table_fits(b@) && !section_table_aligned(b@) ==> r == Err::<
            ElfImage,
            LoadError,
        >(LoadError::Misaligned),
        r matches Ok(ElfImage::Elf64(img)) ==> b@.len() >= ELF64_HEADER_SIZE && elf64_matches(
            b@,
            img.entry,
            img.sections@,
        ),
        r matches Ok(ElfImage::Elf64(_)) ==> has_elf_magic(b@) && elf_class(b@) == 2
            && section_table_fits(b@) && section_table_aligned(b@) && b@.len() >= le16(b@, 52),
        r matches Ok(ElfImage::Elf32) ==> b@.len() >= ELF64_HEADER_SIZE && has_elf_magic(b@)
            && elf_class(b@) == 1,
        r == Err::<ElfImage, LoadError>(LoadError::Misaligned) ==> !section_table_aligned(b@),
        b@.len() >= ELF64_HEADER_SIZE && has_elf_magic(b@) && elf_class(b@) == 2
            && section_table_fits(b@) && section_table_aligned(b@) && b@.len() >= le16(b@, 52)
            ==> r is Ok,
{
    let v = b;
    let b = v.as_slice();
    if b.len() < ELF64_HEADER_SIZE {
        return Err(LoadError::Truncated);
    }
    if b[0] == 0x7f && b[1] == 0x45 && b[2] == 0x4c && b[3] == 0x46 && b[4] == 2 {
        let shoff = read_le64(b, 40);
        let shnum = read_le16(b, 60);
        if shoff > b.len() as u64 || (b.len() as u64 - shoff) / ELF64_SECTION_HEADER_SIZE < shnum {
            return Err(LoadError::Truncated);
        }
        assert(section_table_fits(b@)) by (nonlinear_arith)
            requires
                shoff <= b@.len(),
                (b@.len() - shoff) / 64 >= shnum,
                shoff == section_table_offset(b@),
                shnum == section_count(b@),
        ;
        if shoff % 8 != 0 {
            return Err(LoadError::Misaligned);
        }
    }
    match parse_elf(v) {
        Ok(image) => Ok(image),
        Err(e) => Err(LoadError::Malformed(e)),
    }
}

} // verus!
