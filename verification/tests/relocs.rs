use peview::error::Error;
use peview::image::{Image, Kind};
use peview::mmap::{mm_alloc, mm_copy, mm_rebase, ManualMap};
use peview::pefile::PeFile;
use peview::relocs::{BaseRelocs, Block, Reloc, RelocBlock};

fn put16(buf: &mut Vec<u8>, at: usize, v: u16) {
    buf[at..at + 2].copy_from_slice(&v.to_le_bytes());
}

fn put32(buf: &mut Vec<u8>, at: usize, v: u32) {
    buf[at..at + 4].copy_from_slice(&v.to_le_bytes());
}

fn put64(buf: &mut Vec<u8>, at: usize, v: u64) {
    buf[at..at + 8].copy_from_slice(&v.to_le_bytes());
}

fn block(page: u32, words: &[u16]) -> Vec<u8> {
    let mut b = vec![0u8; 8 + 2 * words.len()];
    put32(&mut b, 0, page);
    put32(&mut b, 4, (8 + 2 * words.len()) as u32);
    for (i, w) in words.iter().enumerate() {
        put16(&mut b, 8 + 2 * i, *w);
    }
    b
}

/// A 64-bit image with `.text` at 0x1000 (file 0x400, 0x200 bytes) and `.reloc` at 0x2000
/// (file 0x600, 0x200 bytes) holding `relocs`, to which the relocation directory points.
fn image_with_relocs(relocs: &[u8]) -> Vec<u8> {
    let mut b = vec![0u8; 0x800];
    put16(&mut b, 0, 0x5A4D);
    put32(&mut b, 0x3C, 0x100);
    put32(&mut b, 0x100, 0x4550);
    put16(&mut b, 0x104, 0x8664);
    put16(&mut b, 0x106, 2);
    put16(&mut b, 0x114, 240);
    let opt = 0x118;
    put16(&mut b, opt, 0x20B);
    put64(&mut b, opt + 24, 0x1_4000_0000);
    put32(&mut b, opt + 32, 0x1000);
    put32(&mut b, opt + 36, 0x200);
    put32(&mut b, opt + 56, 0x3000);
    put32(&mut b, opt + 60, 0x400);
    put32(&mut b, opt + 108, 16);
    put32(&mut b, opt + 112 + 8 * 5, 0x2000);
    put32(&mut b, opt + 112 + 8 * 5 + 4, relocs.len() as u32);
    let table = opt + 240;
    b[table..table + 5].copy_from_slice(b".text");
    put32(&mut b, table + 8, 0x200);
    put32(&mut b, table + 12, 0x1000);
    put32(&mut b, table + 16, 0x200);
    put32(&mut b, table + 20, 0x400);
    put32(&mut b, table + 36, 0x6000_0020);
    b[table + 40..table + 46].copy_from_slice(b".reloc");
    put32(&mut b, table + 48, 0x200);
    put32(&mut b, table + 52, 0x2000);
    put32(&mut b, table + 56, 0x200);
    put32(&mut b, table + 60, 0x600);
    put32(&mut b, table + 76, 0x4200_0040);
    b[0x600..0x600 + relocs.len()].copy_from_slice(relocs);
    b
}

#[test]
fn flattened_relocations_skip_padding() {
    let mut dir = block(0x1000, &[0xA010, 0x0000]);
    dir.extend(block(0x2000, &[0x0000, 0x0000]));
    let bytes = image_with_relocs(&dir);
    let image = Image::new(Kind::File, &bytes).unwrap();
    let relocs = image.base_relocs().unwrap();
    assert_eq!(relocs.bytes, &dir[..]);
    assert_eq!(relocs.rvas(), Ok(vec![0x1010]));
    let first = Block { offset: 0, page_rva: 0x1000, size: 12 };
    let second = Block { offset: 12, page_rva: 0x2000, size: 12 };
    assert_eq!(relocs.block_at(0), Ok(Some(first)));
    assert_eq!(relocs.block_at(12), Ok(Some(second)));
    assert_eq!(relocs.block_at(24), Ok(None));
    assert_eq!(relocs.entry(&first, 0), Ok(Reloc { kind: 10, rva: 0x1010 }));
    assert_eq!(relocs.entry(&first, 1), Ok(Reloc { kind: 0, rva: 0x1000 }));
    assert_eq!(relocs.entry(&first, 2), Err(Error::Invalid));
    assert_eq!(relocs.entry(&second, 1), Ok(Reloc { kind: 0, rva: 0x2000 }));
    let stranger = Block { offset: 12, page_rva: 0x3000, size: 12 };
    assert_eq!(relocs.entry(&stranger, 0), Err(Error::Invalid));
    assert_eq!(relocs.relocs(), Ok(vec![Reloc { kind: 10, rva: 0x1010 }]));
}

#[test]
fn file_gives_the_blocks_in_order_with_their_entries() {
    let mut dir = block(0x1000, &[0xA010, 0x0000]);
    dir.extend(block(0x2000, &[0x0000, 0x0000]));
    let bytes = image_with_relocs(&dir);
    let blocks = PeFile::new(bytes).base_relocs().unwrap();
    assert_eq!(
        blocks,
        vec![
            RelocBlock {
                block: Block { offset: 0, page_rva: 0x1000, size: 12 },
                entries: vec![Ok(Reloc { kind: 10, rva: 0x1010 }), Ok(Reloc { kind: 0, rva: 0x1000 })],
            },
            RelocBlock {
                block: Block { offset: 12, page_rva: 0x2000, size: 12 },
                entries: vec![Ok(Reloc { kind: 0, rva: 0x2000 }), Ok(Reloc { kind: 0, rva: 0x2000 })],
            },
        ]
    );
    let flattened: Vec<(u16, u32)> = blocks
        .iter()
        .flat_map(|b| b.entries.iter())
        .filter_map(|e| e.ok())
        .filter(|e| e.kind != 0)
        .map(|e| (e.kind, e.rva))
        .collect();
    assert_eq!(flattened, vec![(10, 0x1010)]);
}

#[test]
fn block_list_faults() {
    let wraps = block(0xFFFF_F800, &[0xAFFF, 0x3004]);
    assert_eq!(
        BaseRelocs { bytes: &wraps }.blocks(),
        Ok(vec![RelocBlock {
            block: Block { offset: 0, page_rva: 0xFFFF_F800, size: 12 },
            entries: vec![Err(Error::Overflow), Ok(Reloc { kind: 3, rva: 0xFFFF_F804 })],
        }])
    );
    assert_eq!(BaseRelocs { bytes: &wraps }.relocs(), Err(Error::Overflow));
    let mut tail = block(0x1000, &[0xA010]);
    tail.extend([1, 2, 3]);
    assert_eq!(BaseRelocs { bytes: &tail }.blocks(), Err(Error::Invalid));
    assert_eq!(BaseRelocs { bytes: &[] }.blocks(), Ok(vec![]));
}

#[test]
fn pointers_are_as_wide_as_their_entries_say() {
    let dir = block(0x1000, &[0x3010, 0xA020, 0x0000]);
    let mut bytes = image_with_relocs(&dir);
    put64(&mut bytes, 0x410, 0xFFFF_FFFF_4000_1234);
    put64(&mut bytes, 0x420, 0x0000_0001_4000_1234);
    let image = Image::new(Kind::File, &bytes).unwrap();
    let mapped = image.mmap(0x1_5000_0000).unwrap();
    // The 32-bit entry moves four bytes and wraps within them; the four above stay.
    assert_eq!(&mapped[0x1010..0x1018], &0xFFFF_FFFF_5000_1234u64.to_le_bytes());
    assert_eq!(&mapped[0x1020..0x1028], &0x0000_0001_5000_1234u64.to_le_bytes());
    let up = image.mmap(0x2_4000_0000).unwrap();
    assert_eq!(&up[0x1010..0x1018], &0xFFFF_FFFF_4000_1234u64.to_le_bytes());
    assert_eq!(&up[0x1020..0x1028], &0x0000_0002_4000_1234u64.to_le_bytes());

    let odd = block(0x1000, &[0x3010, 0x1020]);
    let bytes = image_with_relocs(&odd);
    let image = Image::new(Kind::File, &bytes).unwrap();
    let mut buffer = vec![5u8; 0x3000];
    assert_eq!(mm_rebase(&image, &mut buffer, 0), Err(Error::Invalid));
    assert_eq!(buffer, vec![5u8; 0x3000]);
    assert_eq!(image.mmap(0), Err(Error::Invalid));

    let edge = block(0x1000, &[0x3FFC, 0xAFFC]);
    let bytes = image_with_relocs(&edge);
    let image = Image::new(Kind::File, &bytes).unwrap();
    let mut exact = vec![0u8; 0x2000];
    assert_eq!(mm_rebase(&image, &mut exact, 0x1_4000_0000), Err(Error::Bounds));
    let mut room = vec![0u8; 0x2004];
    assert_eq!(mm_rebase(&image, &mut room, 0x1_4000_0001), Ok(()));
    assert_eq!(&room[0x1FFC..0x2004], &[2, 0, 0, 0, 0, 0, 0, 0]);
}

#[test]
fn blocks_of_one_entry() {
    let mut dir = block(0x1000, &[0xA010]);
    dir.extend(block(0x2000, &[0x0000]));
    let relocs = BaseRelocs { bytes: &dir };
    assert_eq!(relocs.block_at(0).unwrap().unwrap().size, 10);
    assert_eq!(relocs.block_at(10).unwrap().unwrap().page_rva, 0x2000);
    assert_eq!(relocs.rvas(), Ok(vec![0x1010]));
}

#[test]
fn relocation_count_is_entries_less_padding() {
    let mut dir = block(0x1000, &[0xA010, 0x3FFF, 0x0000, 0xA008]);
    dir.extend(block(0x5000, &[0x0000, 0x3004]));
    let relocs = BaseRelocs { bytes: &dir };
    let rvas = relocs.rvas().unwrap();
    assert_eq!(rvas, vec![0x1010, 0x1FFF, 0x1008, 0x5004]);
    assert_eq!(rvas.len(), 6 - 2);
    let distinct: std::collections::BTreeSet<u32> = rvas.iter().copied().collect();
    assert_eq!(distinct.len(), 6 - 2);
}

#[test]
fn malformed_relocation_blocks() {
    let empty = BaseRelocs { bytes: &[] };
    assert_eq!(empty.rvas(), Ok(vec![]));
    let mut zero = block(0x1000, &[0xA010]);
    put32(&mut zero, 4, 0);
    assert_eq!(BaseRelocs { bytes: &zero }.rvas(), Err(Error::Invalid));
    assert_eq!(BaseRelocs { bytes: &zero }.block_at(0), Err(Error::Invalid));
    let mut overrun = block(0x1000, &[0xA010]);
    put32(&mut overrun, 4, 12);
    assert_eq!(BaseRelocs { bytes: &overrun }.rvas(), Err(Error::Invalid));
    let mut tail = block(0x1000, &[0xA010]);
    tail.extend([1, 2, 3]);
    assert_eq!(BaseRelocs { bytes: &tail }.rvas(), Err(Error::Invalid));
    let wraps = block(0xFFFF_F800, &[0xAFFF]);
    assert_eq!(BaseRelocs { bytes: &wraps }.rvas(), Err(Error::Overflow));
    assert_eq!(BaseRelocs { bytes: &wraps }.block_at(11), Err(Error::Invalid));
}

#[test]
fn missing_relocation_directory() {
    let mut bytes = image_with_relocs(&[]);
    put32(&mut bytes, 0x118 + 112 + 8 * 5, 0);
    let image = Image::new(Kind::File, &bytes).unwrap();
    assert_eq!(image.base_relocs().err(), Some(Error::Null));
    put32(&mut bytes, 0x118 + 112 + 8 * 5, 0x2100);
    put32(&mut bytes, 0x118 + 112 + 8 * 5 + 4, 0x200);
    let image = Image::new(Kind::File, &bytes).unwrap();
    assert_eq!(image.base_relocs().err(), Some(Error::Bounds));
}

#[test]
fn manual_map_copies_and_rebases() {
    let dir = block(0x1000, &[0xA010, 0x0000]);
    let mut bytes = image_with_relocs(&dir);
    put64(&mut bytes, 0x410, 0x1_4000_1234);
    bytes[0x400] = 0xC3;
    let image = Image::new(Kind::File, &bytes).unwrap();

    let mut buffer = mm_alloc(&image);
    assert_eq!(buffer, vec![0u8; 0x3000]);
    assert_eq!(mm_copy(&image, &mut buffer), Ok(()));
    assert_eq!(&buffer[..0x400], &bytes[..0x400]);
    assert_eq!(&buffer[0x1000..0x1200], &bytes[0x400..0x600]);
    assert_eq!(&buffer[0x2000..0x2200], &bytes[0x600..0x800]);
    assert!(buffer[0x400..0x1000].iter().all(|b| *b == 0));
    assert_eq!(mm_rebase(&image, &mut buffer, 0x7FF0_0000_0000), Ok(()));
    assert_eq!(&buffer[0x1010..0x1018], &0x7FF0_0000_1234u64.to_le_bytes());

    let mapped = image.mmap(0x7FF0_0000_0000).unwrap();
    assert_eq!(mapped, buffer);
    let lower = image.mmap(0x4000_0000).unwrap();
    assert_eq!(&lower[0x1010..0x1018], &0x4000_1234u64.to_le_bytes());
    assert_eq!(lower[0x1000], 0xC3);
}

#[test]
fn manual_map_refuses_what_does_not_fit() {
    let dir = block(0x1000, &[0xA010]);
    let bytes = image_with_relocs(&dir);
    let image = Image::new(Kind::File, &bytes).unwrap();
    let mut small = vec![7u8; 0x1100];
    assert_eq!(mm_copy(&image, &mut small), Err(Error::Bounds));
    assert_eq!(small, vec![7u8; 0x1100]);
    let mut short = vec![7u8; 0x1014];
    assert_eq!(mm_rebase(&image, &mut short, 0), Err(Error::Bounds));
    assert_eq!(short, vec![7u8; 0x1014]);

    let mut no_relocs = image_with_relocs(&dir);
    put32(&mut no_relocs, 0x118 + 112 + 8 * 5, 0);
    let image = Image::new(Kind::File, &no_relocs).unwrap();
    assert_eq!(image.mmap(0x1000_0000), Err(Error::Null));
}
