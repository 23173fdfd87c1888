use kernel::files::{
    node_address, node_sector, push_decimal, strcmp_ascii, FileMeta, FileRead, FileTable, Node,
};
use kernel::virtio::{
    device_is_supported, features_accepted, init_status_sequence, interrupt_ack, negotiate_features,
    queue_is_usable, split_address, virtio_intr, VirtioDisk, VirtioError,
};

const NODES_OFFSET: usize = 32768;

fn put_u32(d: &mut [u8], at: usize, v: u32) {
    d[at..at + 4].copy_from_slice(&v.to_le_bytes());
}

fn put_u16(d: &mut [u8], at: usize, v: u16) {
    d[at..at + 2].copy_from_slice(&v.to_le_bytes());
}

fn put_meta(d: &mut [u8], slot: usize, name: &str, file_id: u16, head: u32, size: u32) {
    let at = slot * 32;
    put_u32(d, at, 900000111);
    put_u32(d, at + 4, head);
    put_u16(d, at + 8, file_id);
    d[at + 10..at + 10 + name.len()].copy_from_slice(name.as_bytes());
    put_u32(d, at + 28, size);
}

/// Writes a file whose nodes are `nodes`, in order, in a ring.
fn put_file(d: &mut Vec<u8>, nodes: &[u32], file_id: u16, body: &[u8]) {
    for (k, id) in nodes.iter().enumerate() {
        let at = NODES_OFFSET + 1024 * *id as usize;
        if d.len() < at + 1024 {
            d.resize(at + 1024, 0);
        }
        put_u32(d, at, 102030069);
        put_u16(d, at + 4, file_id);
        let next = nodes[(k + 1) % nodes.len()];
        let prev = nodes[(k + nodes.len() - 1) % nodes.len()];
        put_u32(d, at + 8, next);
        put_u32(d, at + 12, prev);
        let lo = k * 1008;
        let hi = usize::min(lo + 1008, body.len());
        if lo < hi {
            d[at + 16..at + 16 + (hi - lo)].copy_from_slice(&body[lo..hi]);
        }
    }
}

fn image_with(name: &str, nodes: &[u32], body: &[u8]) -> Vec<u8> {
    let mut d = vec![0u8; NODES_OFFSET];
    put_meta(&mut d, 0, name, 1, nodes[0], body.len() as u32);
    put_file(&mut d, nodes, 1, body);
    d
}

#[test]
fn node_addresses() {
    assert_eq!(node_address(0), 32768);
    assert_eq!(node_address(3), 32768 + 3 * 1024);
    assert_eq!(node_sector(2), (32768 + 2048) / 512);
}

#[test]
fn parse_records() {
    let d = image_with("hi.txt", &[0], b"Hello world\n");
    let m = FileMeta::parse(&d, 0);
    assert_eq!(m.magic_number, 900000111);
    assert_eq!(m.size, 12);
    assert_eq!(m.file_id, 1);
    assert_eq!(&m.name[..6], b"hi.txt");
    assert_eq!(m.name[6], 0);
    let n = Node::parse(&d, NODES_OFFSET);
    assert_eq!(n.magic_number, 102030069);
    assert_eq!(n.next_node, 0);
    assert_eq!(n.data.len(), 1008);
    assert_eq!(&n.data[..12], b"Hello world\n");
}

#[test]
fn name_comparison() {
    let mut name = [0u8; 18];
    name[..4].copy_from_slice(b"blob");
    assert!(strcmp_ascii(b"blob", &name));
    assert!(!strcmp_ascii(b"blo", &name));
    assert!(!strcmp_ascii(b"blobs", &name));
    assert!(!strcmp_ascii(&[b'a'; 19], &name));
}

#[test]
fn hello_file_is_read_back() {
    let d = image_with("hi.txt", &[0], b"Hello world\n");
    let table = FileTable::from_first_block(&d[..1024]);
    let data = table.copy_to_ram(&d, "hi.txt").unwrap();
    assert_eq!(data, b"Hello world\n".to_vec());
    assert!(table.copy_to_ram(&d, "nope").is_none());
    assert!(table.get_file_meta("hi.txt").is_some());
    assert!(table.get_file_meta("hi.tx").is_none());
}

#[test]
fn blob_round_trip() {
    let body: Vec<u8> = (0..3029usize).map(|i| (i % 256) as u8).collect();
    let d = image_with("blob", &[5, 2, 9, 4], &body);
    let table = FileTable::from_first_block(&d[..1024]);
    let data = table.copy_to_ram(&d, "blob").unwrap();
    assert_eq!(data.len(), 3029);
    for (i, b) in data.iter().enumerate() {
        assert_eq!(*b as usize, i % 256);
    }
}

#[test]
fn rewritten_node_is_read_back() {
    let body: Vec<u8> = vec![7u8; 2000];
    let mut d = image_with("data", &[1, 3], &body);
    let pattern: Vec<u8> = (0..1008usize).map(|i| (i * 31 % 251) as u8).collect();
    let at = NODES_OFFSET + 1024 * 3 + 16;
    d[at..at + 1008].copy_from_slice(&pattern);
    let table = FileTable::from_first_block(&d[..1024]);
    let data = table.copy_to_ram(&d, "data").unwrap();
    assert_eq!(&data[..1008], &body[..1008]);
    assert_eq!(&data[1008..], &pattern[..2000 - 1008]);
}

#[test]
fn broken_chain_reads_nothing() {
    let body: Vec<u8> = vec![1u8; 1500];
    let mut d = image_with("f", &[0, 1], &body);
    put_u32(&mut d, NODES_OFFSET + 1024, 0);
    let table = FileTable::from_first_block(&d[..1024]);
    assert!(table.copy_to_ram(&d, "f").is_none());
    let short = image_with("g", &[0, 40], &body);
    let t2 = FileTable::from_first_block(&short[..1024]);
    let cut = &short[..NODES_OFFSET + 1024];
    assert!(t2.copy_to_ram(cut, "g").is_none());
}

#[test]
fn empty_file_reads_empty() {
    let d = image_with("empty", &[0], b"");
    let table = FileTable::from_first_block(&d[..1024]);
    assert_eq!(table.copy_to_ram(&d, "empty").unwrap().len(), 0);
}

#[test]
fn listing_and_cat() {
    let mut d = image_with("hi.txt", &[0], b"Hi\xff\n");
    put_meta(&mut d, 3, "b", 9, 0, 1);
    let table = FileTable::from_first_block(&d[..1024]);
    let ls = table.ls();
    assert_eq!(ls.len(), 2);
    assert_eq!(ls[0].file_id, 1);
    assert_eq!(ls[0].size, 4);
    assert_eq!(&ls[0].name[..7], b"hi.txt ");
    assert_eq!(ls[0].name.len(), 18);
    assert_eq!(ls[1].file_id, 9);
    assert_eq!(table.cat(&d, "hi.txt").unwrap(), b"Hi?\n".to_vec());
    assert!(table.get_file_meta("h\u{e9}").is_none());
}

#[test]
fn device_checks() {
    assert!(device_is_supported(0x74726976, 2, 2, 0x554d4551));
    assert!(!device_is_supported(0x74726976, 1, 2, 0x554d4551));
    assert_eq!(negotiate_features(0xffff_ffff), 0xffff_ffff & !0x3000_0820);
    assert_eq!(negotiate_features(0x20), 0);
    assert_eq!(init_status_sequence(), vec![0, 1, 3, 11, 15]);
    assert!(features_accepted(11));
    assert!(!features_accepted(3));
    assert!(queue_is_usable(0, 8));
    assert!(!queue_is_usable(0, 7));
    assert!(!queue_is_usable(1, 1024));
    assert_eq!(split_address(0x1_2345_6789), (0x2345_6789, 1));
    assert_eq!(interrupt_ack(0xff), 3);
}

#[test]
fn reads_use_three_descriptors() {
    let mut disk = VirtioDisk::new();
    let h1 = disk.submit_read(4, 0x9000, 0xa000, 0x1_0000).unwrap();
    assert_eq!(h1, 0);
    let h2 = disk.submit_read(6, 0x9400, 0xa001, 0x1_0000).unwrap();
    assert_eq!(h2, 3);
    assert_eq!(disk.submit_read(8, 0x9800, 0xa002, 0x1_0000), Err(VirtioError::NoDescriptors));
    assert_eq!(disk.complete(h1, 0), Ok(()));
    let h3 = disk.submit_read(8, 0x9800, 0xa002, 0x1_0000).unwrap();
    assert_eq!(h3, 0);
    assert_eq!(disk.complete(h2, 1), Err(1));
    assert_eq!(disk.complete(h3, 0), Ok(()));
    virtio_intr(&mut disk, 3);
}

#[test]
fn ninth_outstanding_read_fails() {
    let mut disk = VirtioDisk::new();
    let mut results = vec![];
    for k in 0..9u64 {
        results.push(disk.submit_read(k * 2, 0x9000 + k * 1024, 0xa000 + k, 0x1_0000));
    }
    assert!(results[0].is_ok() && results[1].is_ok());
    assert_eq!(results[8], Err(VirtioError::NoDescriptors));
    assert!(results[2..].iter().all(|r| *r == Err(VirtioError::NoDescriptors)));
}

#[test]
fn freed_chains_are_reused_lowest_first() {
    let mut disk = VirtioDisk::new();
    let a = disk.submit_read(0, 0x9000, 0xa000, 0x1_0000).unwrap();
    let b = disk.submit_read(2, 0x9400, 0xa001, 0x1_0000).unwrap();
    disk.free_desc_chain(a);
    let c = disk.submit_read(4, 0x9800, 0xa002, 0x1_0000).unwrap();
    assert_eq!(c, a);
    disk.free_desc_chain(b);
    disk.free_desc_chain(c);
    let d = disk.submit_read(6, 0x9c00, 0xa003, 0x1_0000).unwrap();
    assert_eq!(d, 0);
}

#[test]
fn file_read_by_sectors() {
    let body: Vec<u8> = (0..2100usize).map(|i| (i % 97) as u8).collect();
    let d = image_with("big", &[3, 1, 6], &body);
    let table = FileTable::from_first_block(&d[..1024]);
    let meta = table.get_file_meta("big").unwrap();
    let mut reader = FileRead::start(&meta);
    let mut sectors = vec![];
    while let Some(sector) = reader.next_sector() {
        sectors.push(sector);
        let at = sector as usize * 512;
        reader.feed(&d[at..at + 1024]).unwrap();
    }
    assert_eq!(sectors, vec![(32768 + 3 * 1024) / 512, (32768 + 1024) / 512, (32768 + 6 * 1024) / 512]);
    assert_eq!(reader.finish(), body);
}

#[test]
fn file_read_refuses_bad_node() {
    let d = image_with("x", &[0], b"abc");
    let meta = FileMeta::parse(&d, 0);
    let mut reader = FileRead::start(&meta);
    assert_eq!(reader.next_sector(), Some(64));
    assert_eq!(reader.feed(&[0u8; 1024]), Err(()));
    assert_eq!(reader.next_sector(), Some(64));
    reader.feed(&d[32768..32768 + 1024]).unwrap();
    assert_eq!(reader.next_sector(), None);
    assert_eq!(reader.finish(), b"abc".to_vec());
}

#[test]
fn ls_prints_header_and_lines() {
    let mut d = image_with("hi.txt", &[0], b"Hello world\n");
    put_meta(&mut d, 2, "b", 907, 0, 65536);
    let table = FileTable::from_first_block(&d[..1024]);
    let text = String::from_utf8(table.ls_text()).unwrap();
    let name1 = format!("hi.txt{}", " ".repeat(12));
    let name2 = format!("b{}", " ".repeat(17));
    let expected = format!("FILE ID\t\tNAME\t\t\tSIZE\n1\t\t{}\t12\n907\t\t{}\t65536\n", name1, name2);
    assert_eq!(text, expected);
}

#[test]
fn decimal_digits() {
    let mut out = vec![b'x'];
    push_decimal(&mut out, 0);
    push_decimal(&mut out, 4_294_967_295);
    assert_eq!(out, b"x04294967295".to_vec());
}
