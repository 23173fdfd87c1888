//! Reading an executable: the program headers come from the `elf` crate;
//! the library checks the machine and keeps what activation needs.
use vstd::prelude::*;
use crate::space::{ParsedExecutable, Segment};

verus! {

/// `e_machine` of a RISC-V executable.
pub const RISCV_E_MACHINE: u16 = 0xf3;

/// What the `elf` crate reads from the bytes of an ELF file: the machine, the
/// entry point, and the type, flags, file offset, virtual address and size in
/// memory of each program header, in table order, up to the first that does
/// not parse. None when the file header does not parse, when the section
/// header table or the program header table lies outside the file or is
/// malformed, or when the file has no program header table.
pub uninterp spec fn elf_headers_of(file: Seq<u8>) -> Option<(u16, u64, Seq<(u32, u32, u64, u64, u64)>)>;

/// Relies on elf's `ElfBytes::<AnyEndian>::minimal_parse`, `ElfBytes::segments`
/// and the segment table's iterator: they parse the file header and the
/// program headers from the bytes alone, without panicking.
#[verifier::external_body]
fn read_elf_headers(file_data: &[u8]) -> (r: Option<(u16, u64, Vec<(u32, u32, u64, u64, u64)>)>)
    ensures
        elf_headers_of(file_data@) == match r {
            None => None,
            Some((m, e, v)) => Some((m, e, v@)),
        },
{
    let file = elf::ElfBytes::<elf::endian::AnyEndian>::minimal_parse(file_data).ok()?;
    let table = file.segments()?;
    let headers = table.iter().map(|p| (p.p_type, p.p_flags, p.p_offset, p.p_vaddr, p.p_memsz)).collect();
    Some((file.ehdr.e_machine, file.ehdr.e_entry, headers))
}

/// `s` holds the fields of the program header `h`.
pub open spec fn segment_is(s: Segment, h: (u32, u32, u64, u64, u64)) -> bool {
    s.p_type == h.0 && s.p_flags == h.1 && s.p_offset == h.2 && s.p_vaddr == h.3 && s.p_memsz == h.4
}

/// The executable described by a file header and its program headers; none
/// unless the machine is RISC-V.
pub fn executable_from_headers(machine: u16, entry: u64, headers: &Vec<(u32, u32, u64, u64, u64)>) -> (r:
    Option<ParsedExecutable>)
    ensures
        machine != RISCV_E_MACHINE ==> r.is_none(),
        machine == RISCV_E_MACHINE ==> r.is_some() && r.unwrap().entry_point == entry
            && r.unwrap().segs@.len() == headers@.len() && forall|i: int|
            0 <= i < headers@.len() ==> segment_is(#[trigger] r.unwrap().segs@[i], headers@[i]),
{
    if machine != RISCV_E_MACHINE {
        return None;
    }
    let mut segs: Vec<Segment> = Vec::new();
    let mut i: usize = 0;
    while i < headers.len()
        invariant
            i <= headers@.len(),
            segs@.len() == i,
            forall|k: int| 0 <= k < i ==> segment_is(#[trigger] segs@[k], headers@[k]),
        decreases headers@.len() - i,
    {
        let h = headers[i];
        segs.push(Segment { p_type: h.0, p_flags: h.1, p_offset: h.2, p_vaddr: h.3, p_memsz: h.4 });
        i = i + 1;
    }
    Some(ParsedExecutable { entry_point: entry, segs })
}

/// Parses a whole ELF file into what activation needs. None when the `elf`
/// crate cannot read its headers or it is not a RISC-V executable.
pub fn parse_executable_file(file_data: &[u8]) -> (r: Option<ParsedExecutable>)
    ensures
        match elf_headers_of(file_data@) {
            None => r.is_none(),
            Some((machine, entry, headers)) => {
                &&& machine != RISCV_E_MACHINE ==> r.is_none()
                &&& machine == RISCV_E_MACHINE ==> r.is_some() && r.unwrap().entry_point == entry
                    && r.unwrap().segs@.len() == headers.len() && forall|i: int|
                    0 <= i < headers.len() ==> segment_is(#[trigger] r.unwrap().segs@[i], headers[i])
            },
        },
{
    match read_elf_headers(file_data) {
        None => None,
        Some((machine, entry, headers)) => executable_from_headers(machine, entry, &headers),
    }
}

} // verus!
