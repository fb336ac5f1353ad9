use peview::debug::{code_view, DebugEntry, DebugKind};
use peview::error::Error;
use peview::exception::RuntimeFunction;
use peview::image::{Image, Kind};
use peview::imports::Imported;
use peview::pefile::PeFile;
use peview::relocs::Reloc;
use peview::resources::{DataEntry, Entry, Leaf, Resources};
use peview::rich::RichRecord;
use peview::security::Certificate;

fn put16(buf: &mut Vec<u8>, at: usize, v: u16) {
    buf[at..at + 2].copy_from_slice(&v.to_le_bytes());
}

fn put32(buf: &mut Vec<u8>, at: usize, v: u32) {
    buf[at..at + 4].copy_from_slice(&v.to_le_bytes());
}

fn put64(buf: &mut Vec<u8>, at: usize, v: u64) {
    buf[at..at + 8].copy_from_slice(&v.to_le_bytes());
}

fn put(buf: &mut Vec<u8>, at: usize, bytes: &[u8]) {
    buf[at..at + bytes.len()].copy_from_slice(bytes);
}

const BASE: u64 = 0x1_4000_0000;

/// File offset of an RVA in the `.rdata` section of `blank`.
fn rdata(rva: u32) -> usize {
    (rva - 0x3000 + 0x800) as usize
}

/// A 64-bit image with `.text` at 0x1000, `.data` at 0x2000 and `.rdata` at 0x3000, of
/// 0x200, 0x200 and 0x400 bytes, and no directories.
fn blank() -> Vec<u8> {
    let mut b = vec![0u8; 0xC00];
    put16(&mut b, 0, 0x5A4D);
    put32(&mut b, 0x3C, 0x100);
    put32(&mut b, 0x100, 0x4550);
    put16(&mut b, 0x104, 0x8664);
    put16(&mut b, 0x106, 3);
    put16(&mut b, 0x114, 240);
    let opt = 0x118;
    put16(&mut b, opt, 0x20B);
    put64(&mut b, opt + 24, BASE);
    put32(&mut b, opt + 32, 0x1000);
    put32(&mut b, opt + 36, 0x200);
    put32(&mut b, opt + 56, 0x4000);
    put32(&mut b, opt + 60, 0x400);
    put32(&mut b, opt + 108, 16);
    let table = opt + 240;
    let sections: [(&[u8], u32, u32, u32, u32, u32); 3] = [
        (b".text", 0x1000, 0x200, 0x400, 0x200, 0x6000_0020),
        (b".data", 0x2000, 0x200, 0x600, 0x200, 0xC000_0040),
        (b".rdata", 0x3000, 0x400, 0x800, 0x400, 0x4000_0040),
    ];
    for (i, s) in sections.iter().enumerate() {
        let at = table + 40 * i;
        put(&mut b, at, s.0);
        put32(&mut b, at + 8, s.2);
        put32(&mut b, at + 12, s.1);
        put32(&mut b, at + 16, s.4);
        put32(&mut b, at + 20, s.3);
        put32(&mut b, at + 36, s.5);
    }
    b
}

fn set_directory(b: &mut Vec<u8>, index: usize, rva: u32, size: u32) {
    put32(b, 0x118 + 112 + 8 * index, rva);
    put32(b, 0x118 + 112 + 8 * index + 4, size);
}

/// A resource tree of three levels with one leaf: type 3, a name `AB`, language 0x409.
fn resource_tree() -> Vec<u8> {
    let mut t = vec![0u8; 0x90];
    put16(&mut t, 14, 1);
    put32(&mut t, 16, 3);
    put32(&mut t, 20, 0x8000_0020);
    put16(&mut t, 0x20 + 12, 1);
    put32(&mut t, 0x30, 0x8000_0080);
    put32(&mut t, 0x34, 0x8000_0040);
    put16(&mut t, 0x40 + 14, 1);
    put32(&mut t, 0x50, 0x409);
    put32(&mut t, 0x54, 0x60);
    put32(&mut t, 0x60, 0x2000);
    put32(&mut t, 0x64, 0x10);
    put32(&mut t, 0x68, 1252);
    put16(&mut t, 0x80, 2);
    put16(&mut t, 0x82, 0x41);
    put16(&mut t, 0x84, 0x42);
    t
}

#[test]
fn resource_tree_is_walked_level_by_level() {
    let tree = resource_tree();
    let resources = Resources { bytes: &tree };
    let root = resources.root().unwrap();
    assert_eq!((root.depth, root.count()), (1, 1));
    let by_type = resources.entry(&root, 0).unwrap();
    assert_eq!(by_type, Entry { name_or_id: 3, offset_to_data: 0x8000_0020 });
    assert!(by_type.is_dir() && !by_type.is_named());
    assert_eq!(resources.entry(&root, 1), Err(Error::Invalid));
    let types = resources.open(&root, &by_type).unwrap();
    assert_eq!((types.offset, types.depth, types.above), (0x20, 2, 0));
    let by_name = resources.entry(&types, 0).unwrap();
    assert!(by_name.is_named());
    assert_eq!(resources.name(&by_name), Ok(vec![0x41, 0x42]));
    assert_eq!(resources.name(&by_type), Err(Error::Invalid));
    let names = resources.open(&types, &by_name).unwrap();
    assert_eq!((names.offset, names.depth, names.above, names.top), (0x40, 3, 0x20, 0));
    let by_language = resources.entry(&names, 0).unwrap();
    assert!(!by_language.is_dir());
    let data = DataEntry { rva: 0x2000, size: 0x10, code_page: 1252, reserved: 0 };
    assert_eq!(resources.data(&by_language), Ok(data));
    assert_eq!(resources.data(&by_type), Err(Error::Invalid));
    assert_eq!(resources.open(&names, &by_language), Err(Error::Invalid));
    assert_eq!(
        resources.leaves(),
        Ok(vec![Leaf { depth: 3, kind: 3, name: 0x8000_0080, language: 0x409, data }])
    );
}

#[test]
fn resource_tree_faults() {
    let good = resource_tree();

    let mut too_deep = good.clone();
    put32(&mut too_deep, 0x54, 0x8000_0070);
    assert_eq!(Resources { bytes: &too_deep }.leaves(), Err(Error::Invalid));

    let mut to_itself = good.clone();
    put32(&mut to_itself, 0x34, 0x8000_0020);
    assert_eq!(Resources { bytes: &to_itself }.leaves(), Err(Error::Invalid));

    let mut to_the_root = good.clone();
    put32(&mut to_the_root, 0x34, 0x8000_0000);
    assert_eq!(Resources { bytes: &to_the_root }.leaves(), Err(Error::Invalid));

    let mut outside = good.clone();
    put32(&mut outside, 20, 0x8000_0088);
    assert_eq!(Resources { bytes: &outside }.leaves(), Err(Error::Invalid));

    let mut data_outside = good.clone();
    put32(&mut data_outside, 0x54, 0x88);
    assert_eq!(Resources { bytes: &data_outside }.leaves(), Err(Error::Invalid));

    let mut long_name = good.clone();
    put16(&mut long_name, 0x80, 8);
    let resources = Resources { bytes: &long_name };
    let entry = Entry { name_or_id: 0x8000_0080, offset_to_data: 0 };
    assert_eq!(resources.name(&entry), Err(Error::Invalid));

    assert_eq!(Resources { bytes: &good[..8] }.root(), Err(Error::Invalid));

    let mut shallow = good.clone();
    put32(&mut shallow, 20, 0x60);
    let data = DataEntry { rva: 0x2000, size: 0x10, code_page: 1252, reserved: 0 };
    assert_eq!(
        Resources { bytes: &shallow }.leaves(),
        Ok(vec![Leaf { depth: 1, kind: 3, name: 0, language: 0, data }])
    );
}

/// An image with every directory but exports and imports.
fn furnished() -> Vec<u8> {
    let mut b = blank();
    let tree = resource_tree();
    set_directory(&mut b, 2, 0x3000, tree.len() as u32);
    put(&mut b, rdata(0x3000), &tree);

    set_directory(&mut b, 9, 0x3200, 40);
    put64(&mut b, rdata(0x3200), BASE + 0x2000);
    put64(&mut b, rdata(0x3208), BASE + 0x2010);
    put64(&mut b, rdata(0x3210), BASE + 0x2020);
    put64(&mut b, rdata(0x3218), BASE + 0x3240);
    put32(&mut b, rdata(0x3220), 0x20);
    put64(&mut b, rdata(0x3240), BASE + 0x1000);
    put64(&mut b, rdata(0x3248), BASE + 0x1010);

    set_directory(&mut b, 6, 0x3280, 2 * 28);
    put32(&mut b, rdata(0x3280) + 12, 2);
    put32(&mut b, rdata(0x3280) + 16, 0x1E);
    put32(&mut b, rdata(0x3280) + 20, 0x32C0);
    put32(&mut b, rdata(0x3280) + 24, rdata(0x32C0) as u32);
    put32(&mut b, rdata(0x329C) + 12, 16);
    put(&mut b, rdata(0x32C0), b"RSDS");
    put(&mut b, rdata(0x32C4), &[7u8; 16]);
    put32(&mut b, rdata(0x32D4), 5);
    put(&mut b, rdata(0x32D8), b"a.pdb\0");

    set_directory(&mut b, 10, 0x3300, 148);
    put32(&mut b, rdata(0x3300), 148);
    put32(&mut b, rdata(0x3300) + 4, 0x5000_0000);
    put64(&mut b, rdata(0x3300) + 88, BASE + 0x2040);
    put64(&mut b, rdata(0x3300) + 128, BASE + 0x3100);
    put64(&mut b, rdata(0x3300) + 136, 3);
    put32(&mut b, rdata(0x3300) + 144, 0x0001_0500);

    set_directory(&mut b, 3, 0x33A0, 24);
    for (i, f) in [(0x1000u32, 0x1040u32, 0x3100u32), (0x1040, 0x1100, 0x3110)].iter().enumerate() {
        put32(&mut b, rdata(0x33A0) + 12 * i, f.0);
        put32(&mut b, rdata(0x33A0) + 12 * i + 4, f.1);
        put32(&mut b, rdata(0x33A0) + 12 * i + 8, f.2);
    }

    set_directory(&mut b, 4, 0xC00, 0x18);
    b.extend([0u8; 0x18]);
    put32(&mut b, 0xC00, 12);
    put16(&mut b, 0xC04, 0x200);
    put16(&mut b, 0xC06, 2);
    put(&mut b, 0xC08, &[1, 2, 3, 4]);
    put32(&mut b, 0xC10, 8);
    put16(&mut b, 0xC14, 0x100);
    put16(&mut b, 0xC16, 1);

    let key = 0x1234_5678u32;
    put32(&mut b, 0x80, 0x536E_6144 ^ key);
    put32(&mut b, 0x84, key);
    put32(&mut b, 0x88, key);
    put32(&mut b, 0x8C, key);
    put32(&mut b, 0x90, 0x0104_7A3B ^ key);
    put32(&mut b, 0x94, 9 ^ key);
    put32(&mut b, 0x98, 0x00FF_0001 ^ key);
    put32(&mut b, 0x9C, 1 ^ key);
    put32(&mut b, 0xA0, 0x6863_6952);
    put32(&mut b, 0xA4, key);
    b
}

#[test]
fn thread_local_storage() {
    let bytes = furnished();
    let image = Image::new(Kind::File, &bytes).unwrap();
    let tls = image.tls().unwrap();
    assert_eq!(tls.start_address_of_raw_data, BASE + 0x2000);
    assert_eq!(tls.end_address_of_raw_data, BASE + 0x2010);
    assert_eq!(tls.address_of_index, BASE + 0x2020);
    assert_eq!(tls.size_of_zero_fill, 0x20);
    assert_eq!(tls.callbacks(&image), Ok(vec![BASE + 0x1000, BASE + 0x1010]));
    assert_eq!(tls.raw_data(&image), Ok(&bytes[0x600..0x610]));
    assert_eq!(PeFile::new(bytes.clone()).tls(), Ok(tls));

    let mut no_callbacks = tls;
    no_callbacks.address_of_callbacks = 0;
    assert_eq!(no_callbacks.callbacks(&image), Ok(vec![]));
    let mut backwards = tls;
    backwards.end_address_of_raw_data = BASE + 0x1FFF;
    assert_eq!(backwards.raw_data(&image), Err(Error::Invalid));

    let mut small = bytes.clone();
    set_directory(&mut small, 9, 0x3200, 39);
    assert_eq!(PeFile::new(small).tls(), Err(Error::Invalid));
    assert_eq!(PeFile::new(blank()).tls(), Err(Error::Null));
}

#[test]
fn debug_directory_names_the_pdb() {
    let bytes = furnished();
    let image = Image::new(Kind::File, &bytes).unwrap();
    let entries = image.debug().unwrap();
    assert_eq!(entries.len(), 2);
    assert_eq!(
        entries[0],
        DebugEntry {
            characteristics: 0,
            time_date_stamp: 0,
            major_version: 0,
            minor_version: 0,
            kind: 2,
            size_of_data: 0x1E,
            address_of_raw_data: 0x32C0,
            pointer_to_raw_data: 0xAC0,
        }
    );
    assert_eq!(entries[0].classify(), DebugKind::CodeView);
    assert_eq!(entries[1].classify(), DebugKind::Repro);
    let record = entries[0].record(&image).unwrap();
    let cv = code_view(record).unwrap();
    assert_eq!(cv.guid, &[7u8; 16]);
    assert_eq!(cv.age, 5);
    assert_eq!(cv.pdb_path, b"a.pdb");
    assert_eq!(code_view(&record[..29]).err(), Some(Error::Invalid));
    assert_eq!(code_view(b"NB10aaaaaaaaaaaaaaaaaaaaaaaaaaaaa\0").err(), Some(Error::Invalid));
    assert_eq!(entries[1].record(&image).err(), Some(Error::Null));
    assert_eq!(PeFile::new(bytes.clone()).debug(), Ok(entries));
    assert_eq!(PeFile::new(blank()).debug(), Err(Error::Null));
}

#[test]
fn load_configuration() {
    let bytes = furnished();
    let config = PeFile::new(bytes.clone()).load_config().unwrap();
    assert_eq!(config.size, 148);
    assert_eq!(config.time_date_stamp, 0x5000_0000);
    assert_eq!(config.security_cookie, BASE + 0x2040);
    assert_eq!(config.se_handler_table, 0);
    assert_eq!(config.guard_cf_function_table, BASE + 0x3100);
    assert_eq!(config.guard_cf_function_count, 3);
    assert_eq!(config.guard_flags, 0x0001_0500);
    let mut tabled = bytes.clone();
    put32(&mut tabled, rdata(0x3100), 0x1000);
    put32(&mut tabled, rdata(0x3104), 0x1040);
    put32(&mut tabled, rdata(0x3108), 0x1100);
    let image = Image::new(Kind::File, &tabled).unwrap();
    assert_eq!(config.guard_cf_functions(&image), Ok(vec![0x1000, 0x1040, 0x1100]));
    assert_eq!(config.se_handlers(&image), Ok(vec![]));
    let mut wide = config;
    wide.guard_flags = 0x1001_0500;
    assert_eq!(wide.guard_cf_functions(&image), Ok(vec![0x1000, 0x10, 0]));
    wide.guard_cf_function_count = 0x1_0000_0000;
    assert_eq!(wide.guard_cf_functions(&image), Err(Error::Overflow));
    wide.guard_cf_function_count = 0x1000;
    assert_eq!(wide.guard_cf_functions(&image), Err(Error::Bounds));
    wide.guard_cf_function_table = 5;
    assert_eq!(wide.guard_cf_functions(&image), Err(Error::Bounds));

    let mut short = bytes.clone();
    put32(&mut short, rdata(0x3300), 96);
    let config = PeFile::new(short).load_config().unwrap();
    assert_eq!(config.size, 96);
    assert_eq!(config.security_cookie, BASE + 0x2040);
    assert_eq!(config.guard_cf_function_table, 0);
    assert_eq!(config.guard_flags, 0);

    let mut tiny = bytes.clone();
    put32(&mut tiny, rdata(0x3300), 3);
    assert_eq!(PeFile::new(tiny).load_config(), Err(Error::Invalid));
    let mut far = bytes.clone();
    set_directory(&mut far, 10, 0x33FE, 148);
    assert_eq!(PeFile::new(far).load_config(), Err(Error::Bounds));
    assert_eq!(PeFile::new(blank()).load_config(), Err(Error::Null));
}

#[test]
fn function_table() {
    let bytes = furnished();
    let image = Image::new(Kind::File, &bytes).unwrap();
    assert_eq!(
        image.exception(),
        Ok(vec![
            RuntimeFunction { begin_address: 0x1000, end_address: 0x1040, unwind_info_address: 0x3100 },
            RuntimeFunction { begin_address: 0x1040, end_address: 0x1100, unwind_info_address: 0x3110 },
        ])
    );
    let mut other = bytes.clone();
    put16(&mut other, 0x104, 0x14C);
    let image = Image::new(Kind::File, &other).unwrap();
    assert_eq!(image.exception(), Err(Error::Invalid));
}

#[test]
fn certificates_lie_at_file_offsets() {
    let bytes = furnished();
    let image = Image::new(Kind::File, &bytes).unwrap();
    let certs = image.security().unwrap();
    assert_eq!(
        certs,
        vec![
            Certificate { offset: 0xC00, length: 12, revision: 0x200, certificate_type: 2 },
            Certificate { offset: 0xC10, length: 8, revision: 0x100, certificate_type: 1 },
        ]
    );
    assert_eq!(image.certificate_data(&certs[0]), Ok(&[1u8, 2, 3, 4][..]));
    assert_eq!(image.certificate_data(&certs[1]), Ok(&[][..]));
    assert_eq!(PeFile::new(bytes.clone()).security(), Ok(certs));

    let module = Image::new(Kind::Module, &bytes).unwrap();
    assert_eq!(module.security(), Err(Error::Unmapped));

    let mut overrun = bytes.clone();
    put32(&mut overrun, 0xC10, 9);
    assert_eq!(PeFile::new(overrun).security(), Err(Error::Invalid));
    let mut headless = bytes.clone();
    put32(&mut headless, 0xC10, 7);
    assert_eq!(PeFile::new(headless).security(), Err(Error::Invalid));
    let mut past = bytes.clone();
    set_directory(&mut past, 4, 0xC00, 0x19);
    assert_eq!(PeFile::new(past).security(), Err(Error::Bounds));
    assert_eq!(PeFile::new(blank()).security(), Err(Error::Null));
}

#[test]
fn rich_header_is_decoded_with_its_key() {
    let bytes = furnished();
    let rich = PeFile::new(bytes.clone()).rich_structure().unwrap();
    assert_eq!(rich.key, 0x1234_5678);
    assert_eq!((rich.start, rich.end), (0x80, 0xA0));
    assert_eq!(
        rich.records,
        vec![
            RichRecord { product: 0x0104, build: 0x7A3B, count: 9 },
            RichRecord { product: 0x00FF, build: 0x0001, count: 1 },
        ]
    );
    assert_eq!(PeFile::new(blank()).rich_structure(), Err(Error::Null));
    let mut headless = bytes.clone();
    put32(&mut headless, 0x80, 0);
    assert_eq!(PeFile::new(headless).rich_structure(), Err(Error::Invalid));
    let mut cramped = bytes.clone();
    put32(&mut cramped, 0x98, 0x536E_6144 ^ 0x1234_5678);
    assert_eq!(PeFile::new(cramped).rich_structure(), Err(Error::Invalid));
}

#[test]
fn file_reads_out_every_directory() {
    let mut bytes = furnished();
    set_directory(&mut bytes, 5, 0x33C0, 12);
    put32(&mut bytes, rdata(0x33C0), 0x1000);
    put32(&mut bytes, rdata(0x33C4), 12);
    put16(&mut bytes, rdata(0x33C8), 0xA010);
    set_directory(&mut bytes, 1, 0x3100, 40);
    set_directory(&mut bytes, 12, 0x3160, 16);
    put32(&mut bytes, rdata(0x3100), 0x3140);
    put32(&mut bytes, rdata(0x3100) + 12, 0x3180);
    put32(&mut bytes, rdata(0x3100) + 16, 0x3160);
    for table in [0x3140, 0x3160] {
        put64(&mut bytes, rdata(table), 0x31A0);
        put64(&mut bytes, rdata(table) + 8, 0x8000_0000_0000_0001);
        put64(&mut bytes, rdata(table) + 16, 0x7000);
    }
    put(&mut bytes, rdata(0x3180), b"kernel32.dll\0");
    put(&mut bytes, rdata(0x31A2), b"LoadLibraryA\0");

    let file = PeFile::new(bytes.clone());
    let headers = file.headers().unwrap();
    assert_eq!(headers.number_of_sections, 3);
    assert_eq!(headers.image_base, BASE);
    assert_eq!(headers.size_of_image, 0x4000);
    assert_eq!(headers.machine, 0x8664);
    assert_eq!(headers.data_directories.len(), 16);
    assert_eq!(headers.data_directories[5].rva, 0x33C0);
    let blocks = file.base_relocs().unwrap();
    assert_eq!(blocks.len(), 1);
    assert_eq!(blocks[0].block.page_rva, 0x1000);
    assert_eq!(blocks[0].entries, vec![Ok(Reloc { kind: 10, rva: 0x1010 }), Ok(Reloc { kind: 0, rva: 0x1000 })]);
    assert_eq!(file.iat(), Ok(vec![0x31A0, 0x8000_0000_0000_0001]));
    let modules = file.imports().unwrap();
    assert_eq!(modules.len(), 1);
    assert_eq!(modules[0].dll_name, b"kernel32.dll");
    assert_eq!(
        modules[0].imports,
        vec![
            Imported::ByName { hint: 0, name: b"LoadLibraryA".to_vec() },
            Imported::ByOrdinal(1),
            Imported::Bad(Error::Bounds),
        ]
    );
    let leaves = file.resources().unwrap();
    assert_eq!(leaves.len(), 1);
    assert_eq!(leaves[0].language, 0x409);
    assert_eq!(file.exports().err(), Some(Error::Null));

    let image = file.pefile().unwrap();
    assert_eq!(image.kind, Kind::File);
    assert_eq!(image.data, &bytes[..]);
}

#[test]
fn file_that_is_no_image() {
    let file = PeFile::new(b"not an image".to_vec());
    assert_eq!(file.headers().err(), Some(Error::Bounds));
    assert_eq!(file.tls(), Err(Error::Bounds));
    let mut bytes = blank();
    bytes[1] = 0;
    let file = PeFile::new(bytes);
    assert_eq!(file.exports().err(), Some(Error::BadMagic));
    assert_eq!(file.imports().err(), Some(Error::BadMagic));
    assert_eq!(file.base_relocs().err(), Some(Error::BadMagic));
    assert_eq!(file.resources(), Err(Error::BadMagic));
    assert_eq!(file.rich_structure(), Err(Error::BadMagic));
    assert!(file.pefile().is_err());
}
