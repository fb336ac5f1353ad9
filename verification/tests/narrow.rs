use peview::error::Error;
use peview::image::{Bitness, Image, Kind, Place};
use peview::imports::Import;
use peview::mmap::{mm_rebase, ManualMap};

fn put16(buf: &mut Vec<u8>, at: usize, v: u16) {
    buf[at..at + 2].copy_from_slice(&v.to_le_bytes());
}

fn put32(buf: &mut Vec<u8>, at: usize, v: u32) {
    buf[at..at + 4].copy_from_slice(&v.to_le_bytes());
}

fn put(buf: &mut Vec<u8>, at: usize, bytes: &[u8]) {
    buf[at..at + bytes.len()].copy_from_slice(bytes);
}

const BASE: u32 = 0x0040_0000;

/// File offset of an RVA in the `.rdata` section of `image32`.
fn rdata(rva: u32) -> usize {
    (rva - 0x2000 + 0x600) as usize
}

fn set_directory(b: &mut Vec<u8>, index: usize, rva: u32, size: u32) {
    put32(b, 0x98 + 96 + 8 * index, rva);
    put32(b, 0x98 + 96 + 8 * index + 4, size);
}

/// A 32-bit image with its NT headers at 0x80, `.text` at 0x1000 (file 0x400, 0x200
/// bytes) and `.rdata` at 0x2000 (file 0x600, 0x200 bytes), and ten data directories.
fn image32() -> Vec<u8> {
    let mut b = vec![0u8; 0x800];
    put16(&mut b, 0, 0x5A4D);
    put32(&mut b, 0x3C, 0x80);
    put32(&mut b, 0x80, 0x4550);
    put16(&mut b, 0x84, 0x14C);
    put16(&mut b, 0x86, 2);
    put32(&mut b, 0x88, 0x6000_0000);
    put16(&mut b, 0x94, 96 + 8 * 10);
    put16(&mut b, 0x96, 0x102);
    let opt = 0x98;
    put16(&mut b, opt, 0x10B);
    put32(&mut b, opt + 16, 0x1000);
    put32(&mut b, opt + 28, BASE);
    put32(&mut b, opt + 32, 0x1000);
    put32(&mut b, opt + 36, 0x200);
    put32(&mut b, opt + 56, 0x3000);
    put32(&mut b, opt + 60, 0x400);
    put32(&mut b, opt + 64, 0xABCD);
    put16(&mut b, opt + 68, 2);
    put16(&mut b, opt + 70, 0x8140);
    put32(&mut b, opt + 92, 10);
    let table = opt + 96 + 80;
    put(&mut b, table, b".text");
    put32(&mut b, table + 8, 0x200);
    put32(&mut b, table + 12, 0x1000);
    put32(&mut b, table + 16, 0x200);
    put32(&mut b, table + 20, 0x400);
    put32(&mut b, table + 36, 0x6000_0020);
    put(&mut b, table + 40, b".rdata");
    put32(&mut b, table + 48, 0x200);
    put32(&mut b, table + 52, 0x2000);
    put32(&mut b, table + 56, 0x200);
    put32(&mut b, table + 60, 0x600);
    put32(&mut b, table + 76, 0x4000_0040);
    b
}

#[test]
fn narrow_headers() {
    let bytes = image32();
    let image = Image::new(Kind::File, &bytes).unwrap();
    let h = image.headers();
    assert_eq!(h.bitness, Bitness::Pe32);
    assert_eq!(h.e_lfanew, 0x80);
    assert_eq!(h.machine, 0x14C);
    assert_eq!(h.time_date_stamp, 0x6000_0000);
    assert_eq!(h.characteristics, 0x102);
    assert_eq!(h.address_of_entry_point, 0x1000);
    assert_eq!(h.image_base, BASE as u64);
    assert_eq!((h.section_alignment, h.file_alignment), (0x1000, 0x200));
    assert_eq!((h.size_of_image, h.size_of_headers), (0x3000, 0x400));
    assert_eq!((h.check_sum, h.subsystem, h.dll_characteristics), (0xABCD, 2, 0x8140));
    assert_eq!(h.number_of_rva_and_sizes, 10);
    assert_eq!(h.data_directories.len(), 16);
    assert_eq!(image.section_headers().len(), 2);
    assert_eq!(&image.section_headers()[1].name, b".rdata\0\0");
    assert_eq!(image.image(), &bytes[..]);
    assert_eq!(image.pointer_width(), 4);
    assert_eq!(image.rva_to_va(0x1000), Ok(0x0040_1000));
    assert_eq!(image.va_to_rva(0x0040_2000), Ok(0x2000));
}

#[test]
fn directories_past_the_count_are_absent() {
    let mut bytes = image32();
    set_directory(&mut bytes, 9, 0x2000, 24);
    // The entry for directory 10 would lie where the section table begins.
    let image = Image::new(Kind::File, &bytes).unwrap();
    assert_eq!(image.directory(9).rva, 0x2000);
    assert_eq!(image.directory(10).rva, 0);
    assert_eq!(image.directory(15).size, 0);
    assert_eq!(image.load_config(), Err(Error::Null));
}

#[test]
fn narrow_address_conversions_overflow() {
    let mut bytes = image32();
    put32(&mut bytes, 0x98 + 28, 0xFFFF_F000);
    let image = Image::new(Kind::File, &bytes).unwrap();
    assert_eq!(image.rva_to_va(0x800), Ok(0xFFFF_F800));
    assert_eq!(image.rva_to_va(0x1000), Err(Error::Overflow));
}

#[test]
fn narrow_imports_and_tls() {
    let mut bytes = image32();
    set_directory(&mut bytes, 1, 0x2000, 40);
    put32(&mut bytes, rdata(0x2000), 0x2040);
    put32(&mut bytes, rdata(0x2000) + 12, 0x2060);
    put32(&mut bytes, rdata(0x2000) + 16, 0x2050);
    put32(&mut bytes, rdata(0x2040), 0x2070);
    put32(&mut bytes, rdata(0x2044), 0x8000_0007);
    put(&mut bytes, rdata(0x2060), b"user32.dll\0");
    put16(&mut bytes, rdata(0x2070), 0x1F);
    put(&mut bytes, rdata(0x2072), b"MessageBoxA\0");
    set_directory(&mut bytes, 9, 0x2100, 24);
    put32(&mut bytes, rdata(0x2100), BASE + 0x2080);
    put32(&mut bytes, rdata(0x2104), BASE + 0x2088);
    put32(&mut bytes, rdata(0x2108), BASE + 0x2090);
    put32(&mut bytes, rdata(0x210C), BASE + 0x2120);
    put32(&mut bytes, rdata(0x2120), BASE + 0x1010);

    let image = Image::new(Kind::File, &bytes).unwrap();
    let modules = image.import_modules().unwrap();
    assert_eq!(modules.len(), 1);
    assert_eq!(modules[0].dll_name, b"user32.dll");
    let thunks = image.thunks(0x2040).unwrap();
    assert_eq!(thunks, vec![0x2070, 0x8000_0007]);
    assert_eq!(image.import(thunks[0]), Ok(Import::ByName { hint: 0x1F, name: &b"MessageBoxA"[..] }));
    assert_eq!(image.import(thunks[1]), Ok(Import::ByOrdinal(7)));
    assert_eq!(image.load_pointer(0x2044), Ok(0x8000_0007));

    let tls = image.tls().unwrap();
    assert_eq!(tls.start_address_of_raw_data, (BASE + 0x2080) as u64);
    assert_eq!(tls.end_address_of_raw_data, (BASE + 0x2088) as u64);
    assert_eq!(tls.callbacks(&image), Ok(vec![(BASE + 0x1010) as u64]));
    assert_eq!(tls.raw_data(&image).map(|d| d.len()), Ok(8));
}

#[test]
fn narrow_load_configuration() {
    let mut bytes = image32();
    put32(&mut bytes, 0x98 + 92, 11);
    put16(&mut bytes, 0x94, 96 + 8 * 11);
    // One more directory entry moves the section table by eight bytes.
    let table = 0x98 + 96 + 80;
    let sections: Vec<u8> = bytes[table..table + 80].to_vec();
    put(&mut bytes, table + 8, &sections);
    for byte in &mut bytes[table..table + 8] {
        *byte = 0;
    }
    set_directory(&mut bytes, 10, 0x2000, 92);
    put32(&mut bytes, rdata(0x2000), 92);
    put32(&mut bytes, rdata(0x2000) + 60, BASE + 0x2100);
    put32(&mut bytes, rdata(0x2000) + 64, BASE + 0x2110);
    put32(&mut bytes, rdata(0x2000) + 68, 2);
    put32(&mut bytes, rdata(0x2000) + 88, 0x4500);
    let image = Image::new(Kind::File, &bytes).unwrap();
    let config = image.load_config().unwrap();
    assert_eq!(config.security_cookie, (BASE + 0x2100) as u64);
    assert_eq!(config.se_handler_table, (BASE + 0x2110) as u64);
    assert_eq!(config.se_handler_count, 2);
    assert_eq!(config.guard_flags, 0x4500);
    assert_eq!(config.se_handlers(&image), Ok(vec![0, 0]));
    let mut filled = bytes.clone();
    put32(&mut filled, rdata(0x2110), 0x1010);
    put32(&mut filled, rdata(0x2114), 0x1020);
    let image = Image::new(Kind::File, &filled).unwrap();
    assert_eq!(config.se_handlers(&image), Ok(vec![0x1010, 0x1020]));
    assert_eq!(config.guard_cf_functions(&image), Ok(vec![]));
}

#[test]
fn narrow_pointers_are_rebased_in_four_bytes() {
    let mut bytes = image32();
    set_directory(&mut bytes, 5, 0x2000, 12);
    put32(&mut bytes, rdata(0x2000), 0x1000);
    put32(&mut bytes, rdata(0x2004), 12);
    put16(&mut bytes, rdata(0x2008), 0x3004);
    put32(&mut bytes, 0x404, BASE + 0x1234);
    put32(&mut bytes, 0x408, 0xFFFF_FFFF);
    let image = Image::new(Kind::File, &bytes).unwrap();
    let mapped = image.mmap(0x1000_0000).unwrap();
    assert_eq!(mapped.len(), 0x3000);
    assert_eq!(&mapped[0x1004..0x1008], &0x1000_1234u32.to_le_bytes());
    assert_eq!(&mapped[0x1008..0x100C], &[0xFF; 4]);
    let lower = image.mmap(0x0010_0000).unwrap();
    assert_eq!(&lower[0x1004..0x1008], &0x0010_1234u32.to_le_bytes());
    let mut wrapped = mapped.clone();
    assert_eq!(mm_rebase(&image, &mut wrapped, 0xF03F_EDCB), Ok(()));
    assert_eq!(&wrapped[0x1004..0x1008], &0xFFFF_FFFFu32.to_le_bytes());
    assert_eq!(mm_rebase(&image, &mut wrapped, BASE as u64 + 2), Ok(()));
    assert_eq!(&wrapped[0x1004..0x1008], &1u32.to_le_bytes());
    assert_eq!(mm_rebase(&image, &mut wrapped, 0), Ok(()));
    assert_eq!(&wrapped[0x1004..0x1008], &0xFFC0_0001u32.to_le_bytes());
}

#[test]
fn places_and_sections() {
    let mut bytes = image32();
    put32(&mut bytes, 0x98 + 96 + 80 + 8, 0x800);
    let image = Image::new(Kind::File, &bytes).unwrap();
    assert_eq!(image.find_section(0x1000), Some(0));
    assert_eq!(image.find_section(0x17FF), Some(0));
    assert_eq!(image.find_section(0x1800), None);
    assert_eq!(image.find_section(0x21FF), Some(1));
    assert_eq!(image.find_section(0xFFF), None);
    let text = &image.section_headers()[0];
    assert_eq!(text.extent(), 0x800);
    assert!(text.contains(0x1400) && !text.contains(0x1800));
    assert!(text.is_executable() && !image.section_headers()[1].is_executable());
    assert!(text.holds_offset(0x5FF) && !text.holds_offset(0x600));
    assert_eq!(
        image.locate(0x1100),
        Ok(Place { offset: 0x500, readable: 0x100, extent: 0x700, backed: true })
    );
    assert_eq!(
        image.locate(0x1300),
        Ok(Place { offset: 0x600, readable: 0, extent: 0x500, backed: true })
    );
    assert_eq!(
        image.locate(0x100),
        Ok(Place { offset: 0x100, readable: 0x300, extent: 0x300, backed: true })
    );
    assert_eq!(image.locate(0x400), Err(Error::Bounds));
    assert_eq!(image.derva_bytes(0x11F0, 0x10), Ok(&bytes[0x5F0..0x600]));
    assert_eq!(image.derva_bytes(0x11F0, 0x11), Err(Error::ZeroFill));
    assert_eq!(image.derva_bytes(0x17F0, 0x11), Err(Error::Bounds));
    assert!(image.in_code(0x17FF) && !image.in_code(0x2000));
}

#[test]
fn typed_tables_must_be_aligned() {
    let mut bytes = image32();
    put32(&mut bytes, rdata(0x2010), 0x0102_0304);
    put32(&mut bytes, rdata(0x2014), 0x0506_0708);
    let image = Image::new(Kind::File, &bytes).unwrap();
    assert_eq!(image.derva_u32s(0x2010, 2), Ok(vec![0x0102_0304, 0x0506_0708]));
    assert_eq!(image.derva_u32s(0x2012, 1), Err(Error::Misalign));
    assert_eq!(image.load_u32s(0x2012, 1), Ok(vec![0x0708_0102]));
    assert_eq!(image.derva_u16s(0x2012, 2), Ok(vec![0x0102, 0x0708]));
    assert_eq!(image.derva_u16s(0x2011, 1), Err(Error::Misalign));
    assert_eq!(image.derva_u64s(0x2010, 1), Ok(vec![0x0506_0708_0102_0304]));
    assert_eq!(image.derva_u64s(0x2014, 1), Err(Error::Misalign));
    assert_eq!(image.load_u64s(0x2014, 1), Ok(vec![0x0506_0708]));
    assert_eq!(image.derva_u32s(0x2013, 0), Ok(vec![]));
    assert_eq!(image.derva_u32s(0, 0), Ok(vec![]));
    assert_eq!(image.derva_u32s(0, 1), Err(Error::Null));
    assert_eq!(image.derva_u32s(0x2010, 0x4000_0000), Err(Error::Overflow));
    assert_eq!(image.derva_u32s(0x21FC, 2), Err(Error::Bounds));
    assert_eq!(image.derva_u64(0x2010), Ok(0x0506_0708_0102_0304));
    assert_eq!(image.deref_u64(BASE as u64 + 0x2010), Ok(0x0506_0708_0102_0304));
    assert_eq!(image.table_at(0x2010, 3, 4), Ok(0x610));
}
