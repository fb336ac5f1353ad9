use peview::error::Error;
use peview::image::{Bitness, Image, Kind};

fn put16(buf: &mut Vec<u8>, at: usize, v: u16) {
    buf[at..at + 2].copy_from_slice(&v.to_le_bytes());
}

fn put32(buf: &mut Vec<u8>, at: usize, v: u32) {
    buf[at..at + 4].copy_from_slice(&v.to_le_bytes());
}

fn put64(buf: &mut Vec<u8>, at: usize, v: u64) {
    buf[at..at + 8].copy_from_slice(&v.to_le_bytes());
}

/// A section to lay out: name, virtual address, virtual size, raw pointer, raw size, flags.
struct Sec(&'static [u8], u32, u32, u32, u32, u32);

const CODE: u32 = 0x6000_0020;
const DATA: u32 = 0x4000_0040;

/// A 64-bit image of `len` bytes with its NT headers at 0x100.
fn image64(len: usize, sections: &[Sec]) -> Vec<u8> {
    let mut b = vec![0u8; len];
    put16(&mut b, 0, 0x5A4D);
    put32(&mut b, 0x3C, 0x100);
    put32(&mut b, 0x100, 0x4550);
    put16(&mut b, 0x104, 0x8664);
    put16(&mut b, 0x106, sections.len() as u16);
    put16(&mut b, 0x114, 240);
    put16(&mut b, 0x116, 0x22);
    let opt = 0x118;
    put16(&mut b, opt, 0x20B);
    put32(&mut b, opt + 16, 0x1000);
    put64(&mut b, opt + 24, 0x1_4000_0000);
    put32(&mut b, opt + 32, 0x1000);
    put32(&mut b, opt + 36, 0x200);
    put32(&mut b, opt + 56, 0x10000);
    put32(&mut b, opt + 60, 0x400);
    put16(&mut b, opt + 68, 3);
    put32(&mut b, opt + 108, 16);
    let table = opt + 240;
    for (i, s) in sections.iter().enumerate() {
        let at = table + 40 * i;
        b[at..at + s.0.len()].copy_from_slice(s.0);
        put32(&mut b, at + 8, s.2);
        put32(&mut b, at + 12, s.1);
        put32(&mut b, at + 16, s.4);
        put32(&mut b, at + 20, s.3);
        put32(&mut b, at + 36, s.5);
    }
    b
}

fn text_image() -> Vec<u8> {
    let mut b = image64(0x600, &[Sec(b".text", 0x1000, 0x1000, 0x400, 0x200, CODE)]);
    b[0x400] = 0x11;
    b[0x401] = 0x22;
    b[0x402] = 0x33;
    b[0x403] = 0x44;
    b
}

#[test]
fn typed_read_at_section_start() {
    let bytes = text_image();
    let image = Image::new(Kind::File, &bytes).unwrap();
    assert_eq!(image.headers.bitness, Bitness::Pe64);
    assert_eq!(image.headers.e_lfanew, 0x100);
    assert_eq!(image.headers.sections.len(), 1);
    assert_eq!(&image.headers.sections[0].name, b".text\0\0\0");
    assert_eq!(image.derva_u32(0x1000), Ok(0x4433_2211));
}

#[test]
fn typed_read_past_raw_data_is_zero_fill() {
    let bytes = text_image();
    let image = Image::new(Kind::File, &bytes).unwrap();
    assert_eq!(image.derva_u32(0x1200), Err(Error::ZeroFill));
    assert_eq!(image.derva_u32(0x11FE), Err(Error::ZeroFill));
    assert_eq!(image.slice_at(0x11FC, 4), Ok(0x5FC));
}

#[test]
fn read_errors_by_kind() {
    let bytes = image64(
        0x600,
        &[
            Sec(b".text", 0x1000, 0x1000, 0x400, 0x200, CODE),
            Sec(b".bss", 0x2000, 0x1000, 0, 0, DATA),
        ],
    );
    let image = Image::new(Kind::File, &bytes).unwrap();
    assert_eq!(image.load_u32(0), Err(Error::Null));
    assert_eq!(image.load_u32(0x3000), Err(Error::Bounds));
    assert_eq!(image.load_u32(0x1FFE), Err(Error::Bounds));
    assert_eq!(image.load_u32(0x2000), Err(Error::Unmapped));
    assert_eq!(image.load_u32(0xFFFF_FFFE), Err(Error::Overflow));
    assert_eq!(image.derva_u32(0x1002), Err(Error::Misalign));
    assert_eq!(image.derva_u16(0x1002), Ok(0));
    assert_eq!(image.load_u16(0x3C), Ok(0x100));
    assert_eq!(image.load_u32(0x3FE), Err(Error::Bounds));
}

#[test]
fn constructor_rejects_broken_headers() {
    let good = text_image();
    assert_eq!(Image::new(Kind::File, &good[..0x20]).err(), Some(Error::Bounds));
    let mut b = good.clone();
    b[0] = b'X';
    assert_eq!(Image::new(Kind::File, &b).err(), Some(Error::BadMagic));
    let mut b = good.clone();
    put32(&mut b, 0x100, 0x4551);
    assert_eq!(Image::new(Kind::File, &b).err(), Some(Error::BadMagic));
    let mut b = good.clone();
    put16(&mut b, 0x118, 0x30B);
    assert_eq!(Image::new(Kind::File, &b).err(), Some(Error::BadMagic));
    let mut b = good.clone();
    put32(&mut b, 0x3C, 0x10000);
    assert_eq!(Image::new(Kind::File, &b).err(), Some(Error::Bounds));
    let mut b = good.clone();
    put16(&mut b, 0x114, 100);
    assert_eq!(Image::new(Kind::File, &b).err(), Some(Error::Invalid));
    let mut b = good.clone();
    put16(&mut b, 0x106, 100);
    assert_eq!(Image::new(Kind::File, &b).err(), Some(Error::Bounds));
}

#[test]
fn constructor_rejects_broken_layout() {
    let overlapping = image64(
        0x800,
        &[
            Sec(b".text", 0x1000, 0x1001, 0x400, 0x200, CODE),
            Sec(b".data", 0x1800, 0x200, 0x600, 0x200, DATA),
        ],
    );
    assert_eq!(Image::new(Kind::File, &overlapping).err(), Some(Error::Invalid));
    let past_file = image64(0x500, &[Sec(b".text", 0x1000, 0x200, 0x400, 0x200, CODE)]);
    assert_eq!(Image::new(Kind::File, &past_file).err(), Some(Error::Bounds));
    assert!(Image::new(Kind::Module, &past_file).is_ok());
    let past_image = image64(0x600, &[Sec(b".text", 0xF000, 0x2000, 0x400, 0x200, CODE)]);
    assert_eq!(Image::new(Kind::Module, &past_image).err(), Some(Error::Bounds));
    assert!(Image::new(Kind::File, &past_image).is_ok());
    let wraps = image64(0x600, &[Sec(b".text", 0xFFFF_F000, 0x2000, 0x400, 0x200, CODE)]);
    assert_eq!(Image::new(Kind::File, &wraps).err(), Some(Error::Overflow));
}

#[test]
fn file_offsets_round_trip() {
    let bytes = text_image();
    let image = Image::new(Kind::File, &bytes).unwrap();
    assert_eq!(image.rva_to_file_offset(0x1010), Ok(0x410));
    assert_eq!(image.file_offset_to_rva(0x410), Ok(0x1010));
    assert_eq!(image.rva_to_file_offset(0), Err(Error::Null));
    assert_eq!(image.rva_to_file_offset(0x1200), Err(Error::Bounds));
    assert_eq!(image.rva_to_file_offset(0x5000), Err(Error::Bounds));
    assert_eq!(image.rva_to_file_offset(0x80), Ok(0x80));
    assert_eq!(image.file_offset_to_rva(0x80), Ok(0x80));
    assert_eq!(image.file_offset_to_rva(0x700), Err(Error::Bounds));
    for rva in 0x1000u32..0x1200 {
        let offset = image.rva_to_file_offset(rva).unwrap();
        assert_eq!(image.file_offset_to_rva(offset), Ok(rva));
    }
}

#[test]
fn module_view_maps_addresses_to_themselves() {
    let mut bytes = image64(0x3000, &[Sec(b".text", 0x1000, 0x1000, 0x400, 0x200, CODE)]);
    put32(&mut bytes, 0x1800, 0xDEAD_BEEF);
    let image = Image::new(Kind::Module, &bytes).unwrap();
    assert_eq!(image.derva_u32(0x1800), Ok(0xDEAD_BEEF));
    assert_eq!(image.rva_to_file_offset(0x1800), Ok(0x1800));
    assert_eq!(image.file_offset_to_rva(0x1800), Ok(0x1800));
    assert_eq!(image.load_u32(0x2FFE), Err(Error::Bounds));
    assert_eq!(image.load_u8(0x2FFF), Ok(0));
}

#[test]
fn virtual_addresses() {
    let bytes = text_image();
    let image = Image::new(Kind::File, &bytes).unwrap();
    assert_eq!(image.rva_to_va(0x1000), Ok(0x1_4000_1000));
    assert_eq!(image.va_to_rva(0x1_4000_1000), Ok(0x1000));
    assert_eq!(image.va_to_rva(0), Err(Error::Null));
    assert_eq!(image.va_to_rva(0x1000), Err(Error::Bounds));
    assert_eq!(image.va_to_rva(0x1_4001_0001), Err(Error::Bounds));
    assert_eq!(image.rva_to_va(0), Err(Error::Null));
    assert_eq!(image.rva_to_va(0x10001), Err(Error::Bounds));
    assert_eq!(image.deref_u32(0x1_4000_1000), Ok(0x4433_2211));
    assert_eq!(image.deref_u32(0x10), Err(Error::Bounds));
}

#[test]
fn c_strings() {
    let mut bytes = text_image();
    bytes[0x410..0x416].copy_from_slice(b"hello\0");
    for b in &mut bytes[0x500..0x600] {
        *b = b'x';
    }
    let image = Image::new(Kind::File, &bytes).unwrap();
    assert_eq!(image.derva_c_str(0x1010), Ok(&b"hello"[..]));
    assert_eq!(image.derva_c_str(0x1015), Ok(&b""[..]));
    assert_eq!(image.derva_c_str(0x1100), Err(Error::Invalid));
    assert_eq!(image.derva_c_str(0), Err(Error::Null));
    assert_eq!(image.derva_c_str(0x1200), Err(Error::ZeroFill));
    assert_eq!(image.deref_c_str(0x1_4000_1010), Ok(&b"hello"[..]));
}

#[test]
fn c_string_cap() {
    let mut bytes = image64(0x5400, &[Sec(b".data", 0x1000, 0x5000, 0x400, 0x5000, DATA)]);
    for b in &mut bytes[0x400..0x5400] {
        *b = b'a';
    }
    bytes[0x400 + 0x4000] = 0;
    let image = Image::new(Kind::File, &bytes).unwrap();
    assert_eq!(image.derva_c_str(0x1000), Err(Error::Invalid));
    assert_eq!(image.derva_c_str(0x1001).map(|s| s.len()), Ok(0x3FFF));
    assert_eq!(image.derva_c_str(0x4FFF).map(|s| s.len()), Ok(1));
    assert_eq!(image.derva_c_str(0x5001), Err(Error::Invalid));
}
