//! Reading an executable image: the header and the loadable segments.

use vstd::prelude::*;
use crate::flags::MappingFlags;
use crate::memory_set::MemoryError;

verus! {

/// The four bytes that every executable image starts with.
pub open spec fn magic() -> Seq<u8> {
    seq![0x7fu8, 0x45u8, 0x4cu8, 0x46u8]
}

/// Whether `image` starts with the magic bytes.
pub open spec fn has_magic(image: Seq<u8>) -> bool {
    image.len() >= 4 && image.subrange(0, 4) == magic()
}

/// What the image's header says, where the reader accepts it: whether the
/// image is of the 64-bit class, the entry point, the offset of the
/// program-header table, the size of one of its entries and their number.
pub uninterp spec fn elf_header_of(image: Seq<u8>) -> Option<(bool, u64, u64, u16, u16)>;

/// What the program header at `index` says, where the reader accepts it:
/// whether the segment is loadable; whether it is readable, writable,
/// executable; its offset in the image, its virtual address, its size in the
/// image and its size in memory.
pub uninterp spec fn elf_program_header_of(image: Seq<u8>, index: u16) -> Option<
    (bool, bool, bool, bool, u64, u64, u64, u64),
>;

/// The fields of an image's header that loading reads.
#[derive(Clone, Copy, Debug, PartialEq, Eq, Structural)]
pub struct ElfHeader {
    /// Whether the image is of the 64-bit class.
    pub is_64: bool,
    /// The virtual address at which execution starts.
    pub entry: u64,
    /// The offset of the program-header table in the image.
    pub ph_offset: u64,
    /// The size of one entry of that table.
    pub ph_entry_size: u16,
    /// The number of entries of that table.
    pub ph_count: u16,
}

/// The fields of a program header that loading reads.
#[derive(Clone, Copy, Debug, PartialEq, Eq, Structural)]
pub struct ProgramHeader {
    /// Whether the segment is to be loaded.
    pub is_load: bool,
    /// Whether the segment is readable.
    pub read: bool,
    /// Whether the segment is writable.
    pub write: bool,
    /// Whether the segment is executable.
    pub execute: bool,
    /// The offset of the segment's bytes in the image.
    pub offset: u64,
    /// The virtual address of the segment.
    pub virtual_addr: u64,
    /// The number of the segment's bytes in the image.
    pub file_size: u64,
    /// The number of bytes that the segment takes in memory.
    pub mem_size: u64,
}

/// The header made of the reader's values.
pub open spec fn header_from(raw: (bool, u64, u64, u16, u16)) -> ElfHeader {
    ElfHeader {
        is_64: raw.0,
        entry: raw.1,
        ph_offset: raw.2,
        ph_entry_size: raw.3,
        ph_count: raw.4,
    }
}

/// The program header made of the reader's values.
pub open spec fn program_header_from(
    raw: (bool, bool, bool, bool, u64, u64, u64, u64),
) -> ProgramHeader {
    ProgramHeader {
        is_load: raw.0,
        read: raw.1,
        write: raw.2,
        execute: raw.3,
        offset: raw.4,
        virtual_addr: raw.5,
        file_size: raw.6,
        mem_size: raw.7,
    }
}

/// The size that an entry of the program-header table has at least.
pub open spec fn min_entry_size(is_64: bool) -> int {
    if is_64 {
        56
    } else {
        32
    }
}

/// The multiple that the offset of a program header must be.
pub open spec fn entry_alignment(is_64: bool) -> int {
    if is_64 {
        8
    } else {
        4
    }
}

/// Whether the program header at `index` lies wholly inside an image of
/// `len` bytes, is large enough and is placed at a multiple of what its
/// fields need.
pub open spec fn entry_in_bounds(h: ElfHeader, len: int, index: int) -> bool {
    &&& 0 <= index < h.ph_count
    &&& h.ph_offset > 0
    &&& h.ph_entry_size >= min_entry_size(h.is_64)
    &&& h.ph_offset + (index + 1) * h.ph_entry_size <= len
    &&& (h.ph_offset + index * h.ph_entry_size) % entry_alignment(h.is_64) == 0
}

/// Calls `xmas_elf::ElfFile::new` on a copy of the image that starts at a
/// multiple of eight, since the reader insists on finding the header's
/// fields at such addresses, and hands out the class, `entry_point`,
/// `ph_offset`, `ph_entry_size` and `ph_count` of the header it found. The
/// result is a function of the image's bytes; nothing more is claimed of it.
#[verifier::external_body]
fn read_header(image: &[u8]) -> (r: Option<(bool, u64, u64, u16, u16)>)
    ensures
        r == elf_header_of(image@),
{
    let mut buf: Vec<u8> = Vec::with_capacity(image.len() + 8);
    let pad = (buf.as_ptr() as usize).wrapping_neg() % 8;
    buf.resize(pad, 0);
    buf.extend_from_slice(image);
    let elf = xmas_elf::ElfFile::new(&buf[pad..]).ok()?;
    let is_64 = match elf.header.pt1.class() {
        xmas_elf::header::Class::SixtyFour => true,
        _ => false,
    };
    let h = elf.header.pt2;
    Some((is_64, h.entry_point(), h.ph_offset(), h.ph_entry_size(), h.ph_count()))
}

/// Calls `xmas_elf::ElfFile::program_header` on a copy of the image that
/// starts at a multiple of eight, and hands out whether `get_type` gave
/// `Load`, what `is_read`, `is_write` and `is_execute` say of the flags, and
/// `offset`, `virtual_addr`, `file_size` and `mem_size`. The reader slices
/// the entry out of the image and insists on its size and placement, so the
/// entry must be in bounds. The result is a function of the image's bytes
/// and the index; nothing more is claimed of it.
#[verifier::external_body]
fn read_program_header(image: &[u8], index: u16) -> (r: Option<
    (bool, bool, bool, bool, u64, u64, u64, u64),
>)
    requires
        elf_header_of(image@).is_some(),
        entry_in_bounds(
            header_from(elf_header_of(image@).unwrap()),
            image@.len() as int,
            index as int,
        ),
    ensures
        r == elf_program_header_of(image@, index),
{
    let mut buf: Vec<u8> = Vec::with_capacity(image.len() + 8);
    let pad = (buf.as_ptr() as usize).wrapping_neg() % 8;
    buf.resize(pad, 0);
    buf.extend_from_slice(image);
    let elf = xmas_elf::ElfFile::new(&buf[pad..]).ok()?;
    let ph = elf.program_header(index).ok()?;
    let is_load = match ph.get_type() {
        Ok(xmas_elf::program::Type::Load) => true,
        _ => false,
    };
    let f = ph.flags();
    Some((is_load, f.is_read(), f.is_write(), f.is_execute(), ph.offset(), ph.virtual_addr(), ph.file_size(), ph.mem_size()))
}

/// Whether `image` starts with the magic bytes.
pub fn check_magic(image: &[u8]) -> (r: bool)
    ensures
        r == has_magic(image@),
{
    if image.len() < 4 {
        return false;
    }
    let r = image[0] == 0x7f && image[1] == 0x45 && image[2] == 0x4c && image[3] == 0x46;
    proof {
        let head = image@.subrange(0, 4);
        assert(head[0] == image@[0] && head[1] == image@[1] && head[2] == image@[2] && head[3]
            == image@[3]);
        if r {
            assert(head =~= magic());
        } else {
            assert(magic()[0] == 0x7f && magic()[1] == 0x45 && magic()[2] == 0x4c && magic()[3]
                == 0x46);
        }
    }
    r
}

/// Whether the program header at `index` lies wholly inside an image of
/// `len` bytes, is large enough and is placed at a multiple of what its
/// fields need.
pub fn entry_bounds_ok(h: &ElfHeader, len: usize, index: u16) -> (r: bool)
    ensures
        r == entry_in_bounds(*h, len as int, index as int),
{
    let min: u64 = if h.is_64 {
        56
    } else {
        32
    };
    let align: u64 = if h.is_64 {
        8
    } else {
        4
    };
    if index >= h.ph_count || h.ph_offset == 0 || (h.ph_entry_size as u64) < min {
        return false;
    }
    let size: u64 = h.ph_entry_size as u64;
    assert(index * size <= 0xffff * 0xffff) by (nonlinear_arith)
        requires
            0 <= index <= 0xffff,
            0 <= size <= 0xffff,
    ;
    let before: u64 = (index as u64) * size;
    let through: u64 = before + size;
    assert(through == (index + 1) * h.ph_entry_size) by (nonlinear_arith)
        requires
            through == index * h.ph_entry_size + h.ph_entry_size,
    ;
    if (len as u64) < through || h.ph_offset > (len as u64) - through {
        return false;
    }
    (h.ph_offset + before) % align == 0
}

/// The rights of a segment: user access, and what the flags grant.
pub fn segment_perms(read: bool, write: bool, execute: bool) -> (r: MappingFlags)
    ensures
        r == (MappingFlags { read, write, execute, user: true, device: false }),
{
    MappingFlags { read, write, execute, user: true, device: false }
}

/// A segment to load.
#[derive(Clone, Copy, Debug, PartialEq, Eq, Structural)]
pub struct ElfSegment {
    /// The virtual address of the segment.
    pub start_va: usize,
    /// The number of bytes that the segment takes in memory.
    pub mem_size: usize,
    /// The offset of the segment's bytes in the image.
    pub offset: usize,
    /// The number of the segment's bytes in the image.
    pub file_size: usize,
    /// The access rights.
    pub flags: MappingFlags,
}

impl ElfSegment {
    /// The segment ends within the address space and its bytes lie inside
    /// an image of `len` bytes.
    pub open spec fn wf_for(self, len: int) -> bool {
        &&& self.start_va + self.mem_size <= usize::MAX
        &&& self.offset + self.file_size <= len
    }
}

/// What a program header of an image of `len` bytes asks to load: nothing
/// where it is not loadable; `InvalidExecutable` where the segment would
/// end beyond the address space or take bytes from beyond the image; else
/// the segment.
pub open spec fn segment_spec(ph: ProgramHeader, len: int) -> Result<
    Option<ElfSegment>,
    MemoryError,
> {
    if !ph.is_load {
        Ok(None)
    } else if ph.virtual_addr + ph.mem_size > usize::MAX || ph.offset + ph.file_size > len {
        Err(MemoryError::InvalidExecutable)
    } else {
        Ok(
            Some(
                ElfSegment {
                    start_va: ph.virtual_addr as usize,
                    mem_size: ph.mem_size as usize,
                    offset: ph.offset as usize,
                    file_size: ph.file_size as usize,
                    flags: MappingFlags {
                        read: ph.read,
                        write: ph.write,
                        execute: ph.execute,
                        user: true,
                        device: false,
                    },
                },
            ),
        )
    }
}

/// What a program header of an image of `len` bytes asks to load.
pub fn segment_of(ph: &ProgramHeader, len: usize) -> (r: Result<Option<ElfSegment>, MemoryError>)
    ensures
        r == segment_spec(*ph, len as int),
        r matches Ok(Some(s)) ==> s.wf_for(len as int),
{
    if !ph.is_load {
        return Ok(None);
    }
    if ph.virtual_addr > usize::MAX as u64 || ph.mem_size > usize::MAX as u64
        || ph.mem_size > usize::MAX as u64 - ph.virtual_addr {
        return Err(MemoryError::InvalidExecutable);
    }
    if ph.offset > len as u64 || ph.file_size > len as u64 - ph.offset {
        return Err(MemoryError::InvalidExecutable);
    }
    Ok(
        Some(
            ElfSegment {
                start_va: ph.virtual_addr as usize,
                mem_size: ph.mem_size as usize,
                offset: ph.offset as usize,
                file_size: ph.file_size as usize,
                flags: segment_perms(ph.read, ph.write, ph.execute),
            },
        ),
    )
}

/// The segments that the first `k` program headers of `image` ask to load,
/// in order; `InvalidExecutable` where one of them is out of bounds, is not
/// accepted by the reader or asks for what cannot be.
pub open spec fn segments_upto(image: Seq<u8>, h: ElfHeader, k: int) -> Result<
    Seq<ElfSegment>,
    MemoryError,
>
    decreases k,
{
    if k <= 0 {
        Ok(Seq::empty())
    } else {
        match segments_upto(image, h, k - 1) {
            Err(e) => Err(e),
            Ok(prev) => if !entry_in_bounds(h, image.len() as int, k - 1) {
                Err(MemoryError::InvalidExecutable)
            } else {
                match elf_program_header_of(image, (k - 1) as u16) {
                    None => Err(MemoryError::InvalidExecutable),
                    Some(raw) => match segment_spec(
                        program_header_from(raw),
                        image.len() as int,
                    ) {
                        Err(e) => Err(e),
                        Ok(None) => Ok(prev),
                        Ok(Some(seg)) => Ok(prev.push(seg)),
                    },
                }
            },
        }
    }
}

/// What reading `image` gives: the entry point and the segments to load;
/// `InvalidExecutable` where the image does not start with the magic bytes,
/// the reader does not accept its header, the entry point is no address, or
/// a program header is at fault.
pub open spec fn parse_spec(image: Seq<u8>) -> Result<(usize, Seq<ElfSegment>), MemoryError> {
    if !has_magic(image) {
        Err(MemoryError::InvalidExecutable)
    } else {
        match elf_header_of(image) {
            None => Err(MemoryError::InvalidExecutable),
            Some(raw) => if raw.1 > usize::MAX {
                Err(MemoryError::InvalidExecutable)
            } else {
                match segments_upto(image, header_from(raw), raw.4 as int) {
                    Err(e) => Err(e),
                    Ok(segs) => Ok((raw.1 as usize, segs)),
                }
            },
        }
    }
}

/// What loading reads of an executable image.
pub struct ElfInfo {
    /// The virtual address at which execution starts.
    pub entry: usize,
    /// The segments to load, in the order of their program headers.
    pub segments: Vec<ElfSegment>,
}

impl ElfInfo {
    /// Every segment ends within the address space and has its bytes inside
    /// an image of `len` bytes.
    pub open spec fn wf_for(&self, len: int) -> bool {
        forall|i: int|
            0 <= i < self.segments@.len() ==> (#[trigger] self.segments@[i]).wf_for(len)
    }
}

/// Reads the header and the program headers of `image`.
pub fn parse_elf(image: &[u8]) -> (r: Result<ElfInfo, MemoryError>)
    ensures
        match r {
            Ok(info) => parse_spec(image@) == Ok::<(usize, Seq<ElfSegment>), MemoryError>(
                (info.entry, info.segments@),
            ) && info.wf_for(image@.len() as int),
            Err(e) => parse_spec(image@) == Err::<(usize, Seq<ElfSegment>), MemoryError>(e),
        },
{
    if !check_magic(image) {
        return Err(MemoryError::InvalidExecutable);
    }
    let raw = match read_header(image) {
        Some(raw) => raw,
        None => {
            return Err(MemoryError::InvalidExecutable);
        },
    };
    let h = ElfHeader {
        is_64: raw.0,
        entry: raw.1,
        ph_offset: raw.2,
        ph_entry_size: raw.3,
        ph_count: raw.4,
    };
    if h.entry > usize::MAX as u64 {
        return Err(MemoryError::InvalidExecutable);
    }
    let mut segments: Vec<ElfSegment> = Vec::new();
    let mut k: u16 = 0;
    while k < h.ph_count
        invariant
            k <= h.ph_count,
            h == header_from(raw),
            elf_header_of(image@) == Some(raw),
            segments_upto(image@, h, k as int) == Ok::<Seq<ElfSegment>, MemoryError>(segments@),
            forall|i: int|
                0 <= i < segments@.len() ==> (#[trigger] segments@[i]).wf_for(image@.len() as int),
        decreases h.ph_count - k,
    {
        if !entry_bounds_ok(&h, image.len(), k) {
            proof {
                lemma_segments_error_stays(image@, h, k as int + 1, h.ph_count as int);
            }
            return Err(MemoryError::InvalidExecutable);
        }
        let ph = match read_program_header(image, k) {
            Some(p) => ProgramHeader {
                is_load: p.0,
                read: p.1,
                write: p.2,
                execute: p.3,
                offset: p.4,
                virtual_addr: p.5,
                file_size: p.6,
                mem_size: p.7,
            },
            None => {
                proof {
                    lemma_segments_error_stays(image@, h, k as int + 1, h.ph_count as int);
                }
                return Err(MemoryError::InvalidExecutable);
            },
        };
        match segment_of(&ph, image.len()) {
            Err(e) => {
                proof {
                    lemma_segments_error_stays(image@, h, k as int + 1, h.ph_count as int);
                }
                return Err(e);
            },
            Ok(None) => {},
            Ok(Some(seg)) => {
                segments.push(seg);
            },
        }
        k += 1;
    }
    Ok(ElfInfo { entry: h.entry as usize, segments })
}

/// A fault among the first `k` program headers is the fault of any longer
/// run of them.
pub proof fn lemma_segments_error_stays(image: Seq<u8>, h: ElfHeader, k: int, n: int)
    requires
        0 <= k <= n,
        segments_upto(image, h, k).is_err(),
    ensures
        segments_upto(image, h, n) == segments_upto(image, h, k),
    decreases n - k,
{
    if k < n {
        lemma_segments_error_stays(image, h, k, n - 1);
    }
}

} // verus!
