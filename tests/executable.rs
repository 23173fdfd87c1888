use kernel::elf_parse::{executable_from_headers, parse_executable_file};

fn elf64(machine: u16, entry: u64, phdrs: &[(u32, u32, u64, u64, u64)]) -> Vec<u8> {
    let mut f = vec![0x7f, b'E', b'L', b'F', 2, 1, 1, 0];
    f.resize(16, 0);
    f.extend_from_slice(&2u16.to_le_bytes());
    f.extend_from_slice(&machine.to_le_bytes());
    f.extend_from_slice(&1u32.to_le_bytes());
    f.extend_from_slice(&entry.to_le_bytes());
    f.extend_from_slice(&64u64.to_le_bytes());
    f.extend_from_slice(&0u64.to_le_bytes());
    f.extend_from_slice(&0u32.to_le_bytes());
    f.extend_from_slice(&64u16.to_le_bytes());
    f.extend_from_slice(&56u16.to_le_bytes());
    f.extend_from_slice(&(phdrs.len() as u16).to_le_bytes());
    f.extend_from_slice(&64u16.to_le_bytes());
    f.extend_from_slice(&0u16.to_le_bytes());
    f.extend_from_slice(&0u16.to_le_bytes());
    for (ty, flags, off, vaddr, memsz) in phdrs {
        f.extend_from_slice(&ty.to_le_bytes());
        f.extend_from_slice(&flags.to_le_bytes());
        f.extend_from_slice(&off.to_le_bytes());
        f.extend_from_slice(&vaddr.to_le_bytes());
        f.extend_from_slice(&vaddr.to_le_bytes());
        f.extend_from_slice(&memsz.to_le_bytes());
        f.extend_from_slice(&memsz.to_le_bytes());
        f.extend_from_slice(&4096u64.to_le_bytes());
    }
    f
}

#[test]
fn riscv_executable_is_read() {
    let f = elf64(0xf3, 0x1000, &[(1, 5, 0x1000, 0x1000, 0x234), (4, 4, 0x200, 0x0, 0x20)]);
    let exe = parse_executable_file(&f).expect("a RISC-V executable");
    assert_eq!(exe.entry_point, 0x1000);
    assert_eq!(exe.segs.len(), 2);
    assert_eq!(exe.segs[0].p_type, 1);
    assert_eq!(exe.segs[0].p_flags, 5);
    assert_eq!(exe.segs[0].p_offset, 0x1000);
    assert_eq!(exe.segs[0].p_vaddr, 0x1000);
    assert_eq!(exe.segs[0].p_memsz, 0x234);
    assert_eq!(exe.segs[1].p_type, 4);
}

#[test]
fn other_machines_are_refused() {
    let f = elf64(0x3e, 0x1000, &[(1, 5, 0x1000, 0x1000, 0x234)]);
    assert!(parse_executable_file(&f).is_none());
    assert!(parse_executable_file(b"not an elf file at all").is_none());
    assert!(parse_executable_file(&[]).is_none());
}

#[test]
fn headers_to_executable() {
    let headers = vec![(1u32, 6u32, 0x3000u64, 0x4000u64, 0x10u64)];
    let exe = executable_from_headers(0xf3, 0x4000, &headers).unwrap();
    assert_eq!(exe.entry_point, 0x4000);
    assert_eq!(exe.segs[0].p_flags, 6);
    assert_eq!(exe.segs[0].p_vaddr, 0x4000);
    assert!(executable_from_headers(0x28, 0x4000, &headers).is_none());
    assert_eq!(executable_from_headers(0xf3, 0, &vec![]).unwrap().segs.len(), 0);
}
