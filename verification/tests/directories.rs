use peview::delay::DelayDescriptor;
use peview::error::Error;
use peview::exports::{Export, Exported};
use peview::pefile::PeFile;
use peview::image::{Image, Kind};
use peview::imports::{Descriptor, Import};
use peview::mmap::{mm_alloc, mm_copy, mm_deps, mm_deps_import, mm_resolve};

fn put16(buf: &mut Vec<u8>, at: usize, v: u16) {
    buf[at..at + 2].copy_from_slice(&v.to_le_bytes());
}

fn put32(buf: &mut Vec<u8>, at: usize, v: u32) {
    buf[at..at + 4].copy_from_slice(&v.to_le_bytes());
}

fn put64(buf: &mut Vec<u8>, at: usize, v: u64) {
    buf[at..at + 8].copy_from_slice(&v.to_le_bytes());
}

fn put(buf: &mut Vec<u8>, at: usize, bytes: &[u8]) {
    buf[at..at + bytes.len()].copy_from_slice(bytes);
}

const BASE: u64 = 0x1_4000_0000;

/// File offset of an RVA in the `.rdata` section of `blank`.
fn rdata(rva: u32) -> usize {
    (rva - 0x3000 + 0x800) as usize
}

/// A 64-bit image with `.text` at 0x1000, `.data` at 0x2000 and `.rdata` at 0x3000, of
/// 0x200, 0x200 and 0x400 bytes, and no directories.
fn blank() -> Vec<u8> {
    let mut b = vec![0u8; 0xC00];
    put16(&mut b, 0, 0x5A4D);
    put32(&mut b, 0x3C, 0x100);
    put32(&mut b, 0x100, 0x4550);
    put16(&mut b, 0x104, 0x8664);
    put16(&mut b, 0x106, 3);
    put16(&mut b, 0x114, 240);
    let opt = 0x118;
    put16(&mut b, opt, 0x20B);
    put64(&mut b, opt + 24, BASE);
    put32(&mut b, opt + 32, 0x1000);
    put32(&mut b, opt + 36, 0x200);
    put32(&mut b, opt + 56, 0x4000);
    put32(&mut b, opt + 60, 0x400);
    put32(&mut b, opt + 108, 16);
    let table = opt + 240;
    let sections: [(&[u8], u32, u32, u32, u32, u32); 3] = [
        (b".text", 0x1000, 0x200, 0x400, 0x200, 0x6000_0020),
        (b".data", 0x2000, 0x200, 0x600, 0x200, 0xC000_0040),
        (b".rdata", 0x3000, 0x400, 0x800, 0x400, 0x4000_0040),
    ];
    for (i, s) in sections.iter().enumerate() {
        let at = table + 40 * i;
        put(&mut b, at, s.0);
        put32(&mut b, at + 8, s.2);
        put32(&mut b, at + 12, s.1);
        put32(&mut b, at + 16, s.4);
        put32(&mut b, at + 20, s.3);
        put32(&mut b, at + 36, s.5);
    }
    b
}

fn set_directory(b: &mut Vec<u8>, index: usize, rva: u32, size: u32) {
    put32(b, 0x118 + 112 + 8 * index, rva);
    put32(b, 0x118 + 112 + 8 * index + 4, size);
}

/// Adds an export directory at 0x3000 of 0x100 bytes: the module is `MyDll`, ordinals begin
/// at 1, and the functions are given with the name of each, a forwarder by its target.
fn add_exports(b: &mut Vec<u8>, names: &[&[u8]], functions: &[Result<u32, &[u8]>], indices: &[u16]) {
    set_directory(b, 0, 0x3000, 0x100);
    let d = rdata(0x3000);
    put32(b, d + 12, 0x3080);
    put32(b, d + 16, 1);
    put32(b, d + 20, functions.len() as u32);
    put32(b, d + 24, names.len() as u32);
    put32(b, d + 28, 0x3028);
    put32(b, d + 32, 0x3040);
    put32(b, d + 36, 0x3058);
    put(b, rdata(0x3080), b"MyDll\0");
    let mut strings: u32 = 0x3088;
    for (i, f) in functions.iter().enumerate() {
        match f {
            Ok(rva) => put32(b, rdata(0x3028) + 4 * i, *rva),
            Err(target) => {
                put32(b, rdata(0x3028) + 4 * i, strings);
                put(b, rdata(strings), target);
                strings += target.len() as u32 + 1;
            }
        }
    }
    for (i, n) in names.iter().enumerate() {
        put32(b, rdata(0x3040) + 4 * i, strings);
        put(b, rdata(strings), n);
        strings += n.len() as u32 + 1;
        put16(b, rdata(0x3058) + 2 * i, indices[i]);
    }
    assert!(strings <= 0x3100);
}

fn exporting() -> Vec<u8> {
    let mut b = blank();
    add_exports(
        &mut b,
        &[b"Foo", b"Fwd", b"LoadLibraryA"],
        &[Ok(0x2000), Err(b"OTHER.Bar"), Ok(0x2010)],
        &[0, 1, 2],
    );
    b
}

/// Adds an import directory at 0x3100 with one descriptor for `kernel32.dll` that imports
/// `LoadLibraryA` by name and ordinal 1, its address table at 0x3160.
fn add_imports(b: &mut Vec<u8>) {
    set_directory(b, 1, 0x3100, 40);
    set_directory(b, 12, 0x3160, 24);
    let d = rdata(0x3100);
    put32(b, d, 0x3140);
    put32(b, d + 12, 0x3180);
    put32(b, d + 16, 0x3160);
    for table in [0x3140, 0x3160] {
        put64(b, rdata(table), 0x31A0);
        put64(b, rdata(table) + 8, 0x8000_0000_0000_0001);
    }
    put(b, rdata(0x3180), b"kernel32.dll\0");
    put(b, rdata(0x31A2), b"LoadLibraryA\0");
}

#[test]
fn export_by_name() {
    let bytes = exporting();
    let image = Image::new(Kind::File, &bytes).unwrap();
    let exports = image.exports().unwrap();
    assert_eq!(exports.dll_name(&image), Ok(&b"MyDll"[..]));
    assert_eq!(exports.base, 1);
    assert_eq!(exports.functions(&image).unwrap().len(), 3);
    assert_eq!(exports.name_indices(&image), Ok(vec![0, 1, 2]));
    assert_eq!(exports.names(&image).unwrap().len(), 3);
    let by = exports.by(&image).unwrap();
    assert!(by.sorted);
    assert_eq!(by.symbol(b"Foo"), Ok(Export::Symbol(0x2000)));
    assert_eq!(by.symbol(b"LoadLibraryA"), Ok(Export::Symbol(0x2010)));
    assert_eq!(by.symbol(b"foo"), Err(Error::Invalid));
    assert_eq!(by.symbol(b""), Err(Error::Invalid));
    assert_eq!(by.symbol(b"Fo"), Err(Error::Invalid));
    assert_eq!(by.symbol(b"Fooo"), Err(Error::Invalid));
    assert_eq!(by.symbol(b"Zzz"), Err(Error::Invalid));
}

#[test]
fn export_forwarder() {
    let bytes = exporting();
    let image = Image::new(Kind::File, &bytes).unwrap();
    let by = image.exports().unwrap().by(&image).unwrap();
    assert_eq!(by.symbol(b"Fwd"), Ok(Export::Forward(&b"OTHER.Bar"[..])));
    assert_eq!(by.ordinal(2), Ok(Export::Forward(&b"OTHER.Bar"[..])));
}

#[test]
fn file_tells_forwarders_from_symbols() {
    let table = PeFile::new(exporting()).exports().unwrap();
    assert_eq!(table.dll_name, b"MyDll");
    assert_eq!(table.names, vec![b"Foo".to_vec(), b"Fwd".to_vec(), b"LoadLibraryA".to_vec()]);
    assert_eq!(table.name_indices, vec![0, 1, 2]);
    assert_eq!(table.functions.len(), 3);
    assert_eq!(
        table.exports,
        vec![
            Exported::Symbol(0x2000),
            Exported::Forward(b"OTHER.Bar".to_vec()),
            Exported::Symbol(0x2010),
        ]
    );
    let fwd = table.names.iter().position(|n| n == b"Fwd").unwrap();
    assert_eq!(
        table.exports[table.name_indices[fwd] as usize],
        Exported::Forward(b"OTHER.Bar".to_vec())
    );

    let mut bytes = blank();
    add_exports(&mut bytes, &[b"Fwd"], &[Err(b"OTHER")], &[0]);
    let table = PeFile::new(bytes).exports().unwrap();
    assert_eq!(table.exports, vec![Exported::Bad(Error::Invalid)]);
}

#[test]
fn export_forwarder_without_a_dot_is_invalid() {
    let mut bytes = blank();
    add_exports(&mut bytes, &[b"Fwd"], &[Err(b"OTHER")], &[0]);
    let image = Image::new(Kind::File, &bytes).unwrap();
    let by = image.exports().unwrap().by(&image).unwrap();
    assert_eq!(by.symbol(b"Fwd"), Err(Error::Invalid));
}

#[test]
fn export_by_ordinal_matches_by_name() {
    let bytes = exporting();
    let image = Image::new(Kind::File, &bytes).unwrap();
    let by = image.exports().unwrap().by(&image).unwrap();
    assert_eq!(by.ordinal(1), Ok(Export::Symbol(0x2000)));
    assert_eq!(by.ordinal(3), Ok(Export::Symbol(0x2010)));
    assert_eq!(by.ordinal(0), Err(Error::Invalid));
    assert_eq!(by.ordinal(4), Err(Error::Invalid));
    for name in [&b"Foo"[..], &b"LoadLibraryA"[..]] {
        let by_name = by.symbol(name).unwrap();
        assert!((0..=u16::MAX).any(|o| by.ordinal(o) == Ok(by_name)));
    }
}

#[test]
fn unsorted_export_names_are_scanned() {
    let mut bytes = blank();
    add_exports(
        &mut bytes,
        &[b"Zed", b"Abc", b"Zed"],
        &[Ok(0x2000), Ok(0x2004), Ok(0x2008)],
        &[0, 1, 2],
    );
    let image = Image::new(Kind::File, &bytes).unwrap();
    let by = image.exports().unwrap().by(&image).unwrap();
    assert!(!by.sorted);
    assert_eq!(by.symbol(b"Abc"), Ok(Export::Symbol(0x2004)));
    assert_eq!(by.symbol(b"Zed"), Ok(Export::Symbol(0x2000)));
    assert_eq!(by.scan(b"Zed"), Some(0));
    assert_eq!(by.symbol(b"Nope"), Err(Error::Invalid));
}

#[test]
fn repeated_sorted_names_resolve_to_the_first() {
    let mut bytes = blank();
    add_exports(
        &mut bytes,
        &[b"A", b"B", b"B", b"B", b"C"],
        &[Ok(0x2000), Ok(0x2004), Ok(0x2008), Ok(0x200C), Ok(0x2010)],
        &[0, 1, 2, 3, 4],
    );
    let image = Image::new(Kind::File, &bytes).unwrap();
    let by = image.exports().unwrap().by(&image).unwrap();
    assert!(by.sorted);
    assert_eq!(by.search(b"B"), Some(1));
    assert_eq!(by.scan(b"B"), Some(1));
    assert_eq!(by.symbol(b"B"), Ok(Export::Symbol(0x2004)));
    assert_eq!(by.symbol(b"C"), Ok(Export::Symbol(0x2010)));
    assert_eq!(by.search(b"AB"), None);
}

#[test]
fn broken_export_directories() {
    let bytes = blank();
    let image = Image::new(Kind::File, &bytes).unwrap();
    assert_eq!(image.exports(), Err(Error::Null));

    let mut small = exporting();
    set_directory(&mut small, 0, 0x3000, 39);
    let image = Image::new(Kind::File, &small).unwrap();
    assert_eq!(image.exports(), Err(Error::Invalid));

    let mut outside = exporting();
    set_directory(&mut outside, 0, 0x8000, 0x100);
    let image = Image::new(Kind::File, &outside).unwrap();
    assert_eq!(image.exports(), Err(Error::Bounds));

    let mut null_name = exporting();
    put32(&mut null_name, rdata(0x3040), 0);
    let image = Image::new(Kind::File, &null_name).unwrap();
    assert_eq!(image.exports().unwrap().by(&image).err(), Some(Error::Invalid));

    let mut far_table = exporting();
    put32(&mut far_table, rdata(0x3000) + 28, 0x33FC);
    let image = Image::new(Kind::File, &far_table).unwrap();
    assert_eq!(image.exports().unwrap().by(&image).err(), Some(Error::Bounds));
}

#[test]
fn imports_in_table_order() {
    let mut bytes = blank();
    add_imports(&mut bytes);
    let image = Image::new(Kind::File, &bytes).unwrap();
    let imports = image.imports().unwrap();
    let descriptors = imports.descriptors(&image).unwrap();
    assert_eq!(
        descriptors,
        vec![Descriptor {
            original_first_thunk: 0x3140,
            time_date_stamp: 0,
            forwarder_chain: 0,
            name: 0x3180,
            first_thunk: 0x3160,
        }]
    );
    assert_eq!(imports.descriptor(&image, 1), Ok(None));
    assert_eq!(imports.descriptor(&image, 2), Err(Error::Invalid));
    assert_eq!(descriptors[0].dll_name(&image), Ok(&b"kernel32.dll"[..]));
    let thunks = descriptors[0].name_table(&image).unwrap();
    assert_eq!(thunks, vec![0x31A0, 0x8000_0000_0000_0001]);
    assert_eq!(descriptors[0].address_table(&image), Ok(thunks.clone()));
    assert_eq!(
        image.import(thunks[0]),
        Ok(Import::ByName { hint: 0, name: &b"LoadLibraryA"[..] })
    );
    assert_eq!(image.import(thunks[1]), Ok(Import::ByOrdinal(1)));
    assert_eq!(image.import(0x8000_0000_0001_8001), Ok(Import::ByOrdinal(0x8001)));
    assert_eq!(image.import(0x9000), Err(Error::Bounds));
    assert_eq!(image.import(0xFFFF_FFFF), Err(Error::Overflow));
    assert_eq!(image.iat(), Ok(vec![0x31A0, 0x8000_0000_0000_0001, 0]));
}

#[test]
fn import_table_without_terminator_is_invalid() {
    let mut bytes = blank();
    add_imports(&mut bytes);
    set_directory(&mut bytes, 1, 0x3100, 20);
    let image = Image::new(Kind::File, &bytes).unwrap();
    let imports = image.imports().unwrap();
    assert_eq!(imports.descriptors(&image), Err(Error::Invalid));
    set_directory(&mut bytes, 1, 0, 0);
    let image = Image::new(Kind::File, &bytes).unwrap();
    assert_eq!(image.imports(), Err(Error::Null));
    assert_eq!(mm_deps(&image), Err(Error::Null));
}

#[test]
fn manual_map_fills_the_address_table() {
    let mut bytes = exporting();
    add_imports(&mut bytes);
    let image = Image::new(Kind::File, &bytes).unwrap();
    let by = image.exports().unwrap().by(&image).unwrap();
    let mut buffer = mm_alloc(&image);
    assert_eq!(mm_copy(&image, &mut buffer), Ok(()));
    let deps = mm_deps(&image).unwrap();
    assert_eq!(deps.len(), 1);
    assert_eq!(mm_resolve(&image, &by, 0x31A0), Ok(BASE + 0x2010));
    assert_eq!(mm_resolve(&image, &by, 0x8000_0000_0000_0002), Err(Error::Invalid));
    assert_eq!(mm_deps_import(&deps[0], &image, &mut buffer, &by), Ok(()));
    assert_eq!(&buffer[0x3160..0x3168], &(BASE + 0x2010).to_le_bytes());
    assert_eq!(&buffer[0x3168..0x3170], &(BASE + 0x2000).to_le_bytes());
    assert_eq!(&buffer[0x3170..0x3178], &[0u8; 8]);

    // The first slot fits and is filled; the second does not.
    let mut small = vec![1u8; 0x3168];
    assert_eq!(mm_deps_import(&deps[0], &image, &mut small, &by), Err(Error::Bounds));
    assert_eq!(&small[..0x3160], &vec![1u8; 0x3160][..]);
    assert_eq!(&small[0x3160..], &(BASE + 0x2010).to_le_bytes());
    let mut none = vec![1u8; 0x3167];
    assert_eq!(mm_deps_import(&deps[0], &image, &mut none, &by), Err(Error::Bounds));
    assert_eq!(none, vec![1u8; 0x3167]);
}

#[test]
fn manual_map_keeps_what_resolved_before_a_fault() {
    let mut bytes = exporting();
    add_imports(&mut bytes);
    // Three thunks: `LoadLibraryA`, then a name that is not exported, then ordinal 1.
    put64(&mut bytes, rdata(0x3140) + 8, 0x31C0);
    put64(&mut bytes, rdata(0x3140) + 16, 0x8000_0000_0000_0001);
    put(&mut bytes, rdata(0x31C2), b"Missing\0");
    let image = Image::new(Kind::File, &bytes).unwrap();
    let by = image.exports().unwrap().by(&image).unwrap();
    let deps = mm_deps(&image).unwrap();
    let mut buffer = vec![0xEEu8; 0x4000];
    assert_eq!(mm_deps_import(&deps[0], &image, &mut buffer, &by), Err(Error::Invalid));
    assert_eq!(&buffer[0x3160..0x3168], &(BASE + 0x2010).to_le_bytes());
    assert_eq!(&buffer[0x3168..0x3178], &[0xEEu8; 16]);
    assert_eq!(&buffer[..0x3160], &vec![0xEEu8; 0x3160][..]);

    // A forwarder first: nothing is filled.
    put64(&mut bytes, rdata(0x3140), 0x8000_0000_0000_0002);
    let image = Image::new(Kind::File, &bytes).unwrap();
    let by = image.exports().unwrap().by(&image).unwrap();
    let mut buffer = vec![0xEEu8; 0x4000];
    assert_eq!(mm_deps_import(&deps[0], &image, &mut buffer, &by), Err(Error::Invalid));
    assert_eq!(buffer, vec![0xEEu8; 0x4000]);

    // A name table that cannot be read: nothing is filled.
    let far = Descriptor { original_first_thunk: 0x9000, ..deps[0] };
    assert_eq!(mm_deps_import(&far, &image, &mut buffer, &by), Err(Error::Bounds));
    assert_eq!(buffer, vec![0xEEu8; 0x4000]);
}

#[test]
fn delay_imports_take_the_parallel_path() {
    let mut bytes = blank();
    add_imports(&mut bytes);
    set_directory(&mut bytes, 13, 0x3200, 64);
    let d = rdata(0x3200);
    put32(&mut bytes, d, 1);
    put32(&mut bytes, d + 4, 0x3180);
    put32(&mut bytes, d + 12, 0x3160);
    put32(&mut bytes, d + 16, 0x3140);
    let image = Image::new(Kind::File, &bytes).unwrap();
    let delay = image.delay_imports().unwrap();
    let descriptors = delay.descriptors(&image).unwrap();
    assert_eq!(
        descriptors,
        vec![DelayDescriptor {
            attributes: 1,
            dll_name: 0x3180,
            module_handle: 0,
            import_address_table: 0x3160,
            import_name_table: 0x3140,
            bound_import_address_table: 0,
            unload_information_table: 0,
            time_date_stamp: 0,
        }]
    );
    assert_eq!(descriptors[0].name(&image), Ok(&b"kernel32.dll"[..]));
    let thunks = descriptors[0].name_table(&image).unwrap();
    assert_eq!(thunks.len(), 2);
    assert_eq!(image.import(thunks[1]), Ok(Import::ByOrdinal(1)));
    assert_eq!(delay.descriptor(&image, 1), Ok(None));
    assert_eq!(delay.descriptor(&image, 2), Err(Error::Invalid));

    set_directory(&mut bytes, 13, 0x3200, 32);
    let image = Image::new(Kind::File, &bytes).unwrap();
    assert_eq!(image.delay_imports().unwrap().descriptors(&image), Err(Error::Invalid));
    let image_bytes = blank();
    let image = Image::new(Kind::File, &image_bytes).unwrap();
    assert_eq!(image.delay_imports(), Err(Error::Null));
}
