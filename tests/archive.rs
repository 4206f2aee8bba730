use std::collections::HashSet;
use std::io::Cursor;

use unshield::archive::decompress;
use unshield::{Archive, ArchiveError, AsyncArchive, FileInfo, Format, FormatStep};

use futures_lite::future::block_on;
use futures_lite::io::{AsyncReadExt, AsyncSeekExt, SeekFrom};

// "Hello, world!" and "fnord" as literal-only implode streams.
const HELLO_Z: &[u8] = &[
    0x00, 0x04, 0x90, 0x94, 0x61, 0xc3, 0xe6, 0x0d, 0x0b, 0x10, 0x77, 0xde, 0xc8, 0x61, 0x43,
    0x26, 0x24, 0xe0, 0x1f,
];
const FNORD_Z: &[u8] = &[0x00, 0x04, 0xcc, 0xb8, 0x79, 0x23, 0x87, 0x2c, 0xe0, 0x1f];
// "AIAIAIAIAIAIA", using a back reference.
const AIAI_Z: &[u8] = &[0x00, 0x04, 0x82, 0x24, 0x25, 0x8f, 0x80, 0x7f];

fn put16(b: &mut [u8], at: usize, v: u16) {
    b[at..at + 2].copy_from_slice(&v.to_le_bytes());
}

fn put32(b: &mut [u8], at: usize, v: u32) {
    b[at..at + 4].copy_from_slice(&v.to_le_bytes());
}

fn header(payload_len: usize, toc_len: usize, files: u16, dirs: u16) -> Vec<u8> {
    let mut h = vec![0u8; 255];
    put32(&mut h, 0, 0x8c655d13);
    put16(&mut h, 12, files);
    let toc_offset = 255 + payload_len;
    put32(&mut h, 18, (toc_offset + toc_len) as u32);
    put32(&mut h, 41, toc_offset as u32);
    put16(&mut h, 49, dirs);
    h
}

fn file_record(toc: &mut Vec<u8>, name: &str, size: usize) {
    let at = toc.len();
    toc.resize(at + 30 + name.len(), 0);
    put32(toc, at + 7, size as u32);
    put16(toc, at + 23, (30 + name.len()) as u16);
    toc[at + 29] = name.len() as u8;
    toc[at + 30..].copy_from_slice(name.as_bytes());
}

fn assemble(head: Vec<u8>, payloads: &[&[u8]], toc: Vec<u8>) -> Vec<u8> {
    let mut out = head;
    for p in payloads {
        out.extend_from_slice(p);
    }
    out.extend_from_slice(&toc);
    out
}

/// An archive whose entries all sit in the root directory. Both passes over
/// the table start at its beginning, so the one directory record shares the
/// reserved leading bytes of the first file record.
fn root_archive(files: &[(&str, &[u8])]) -> Vec<u8> {
    let mut toc = Vec::new();
    for (name, data) in files {
        file_record(&mut toc, name, data.len());
    }
    let dirs = if files.is_empty() { 0 } else { 1 };
    if !files.is_empty() {
        put16(&mut toc, 0, files.len() as u16);
        put16(&mut toc, 2, 0);
        put16(&mut toc, 4, 0);
    }
    let payloads: Vec<&[u8]> = files.iter().map(|(_, d)| *d).collect();
    let total: usize = payloads.iter().map(|p| p.len()).sum();
    let head = header(total, toc.len(), files.len() as u16, dirs);
    assemble(head, &payloads, toc)
}

/// `hello.txt` in the root and `subdir\test.txt`. The record of the second
/// directory lies in the reserved middle of the first file record.
fn demo_archive() -> Vec<u8> {
    let mut toc = Vec::new();
    file_record(&mut toc, "hello.txt", HELLO_Z.len());
    file_record(&mut toc, "test.txt", FNORD_Z.len());
    // root directory: one file, next directory record at 11, empty name
    put16(&mut toc, 0, 1);
    put16(&mut toc, 2, 11);
    put16(&mut toc, 4, 0);
    // "subdir": one file
    put16(&mut toc, 11, 1);
    put16(&mut toc, 13, 12);
    put16(&mut toc, 15, 6);
    toc[17..23].copy_from_slice(b"subdir");
    let head = header(HELLO_Z.len() + FNORD_Z.len(), toc.len(), 2, 2);
    assemble(head, &[HELLO_Z, FNORD_Z], toc)
}

fn examples() -> Vec<(Vec<u8>, Vec<(&'static str, &'static [u8])>)> {
    vec![
        (
            demo_archive(),
            vec![("hello.txt", &b"Hello, world!"[..]), ("subdir\\test.txt", &b"fnord"[..])],
        ),
        (root_archive(&[("aiai.txt", AIAI_Z)]), vec![("aiai.txt", &b"AIAIAIAIAIAIA"[..])]),
    ]
}

async fn open_async(
    mut inner: futures_lite::io::Cursor<Vec<u8>>,
) -> Result<AsyncArchive<futures_lite::io::Cursor<Vec<u8>>>, ArchiveError> {
    let mut fmt = Format::new();
    let mut buf: Vec<u8> = Vec::new();
    loop {
        match fmt.next(&buf)? {
            FormatStep::Read { offset, len } => {
                inner.seek(SeekFrom::Start(offset)).await.map_err(ArchiveError::Io)?;
                buf = vec![0; len];
                inner.read_exact(&mut buf).await.map_err(ArchiveError::Io)?;
            }
            FormatStep::Done(entries) => return Ok(AsyncArchive::from_entries(inner, entries)),
        }
    }
}

async fn load_async(
    ar: &mut AsyncArchive<futures_lite::io::Cursor<Vec<u8>>>,
    path: &str,
) -> Result<Vec<u8>, ArchiveError> {
    let (offset, size) = ar.locate(path)?;
    let mut ret = vec![0; size];
    let src = ar.source_mut();
    src.seek(SeekFrom::Start(offset)).await.map_err(ArchiveError::Io)?;
    src.read_exact(&mut ret).await.map_err(ArchiveError::Io)?;
    decompress(&ret)
}

fn decode_all(data: &[u8]) -> Result<Vec<FileInfo>, ArchiveError> {
    let mut fmt = Format::new();
    let mut buf: Vec<u8> = Vec::new();
    loop {
        match fmt.next(&buf)? {
            FormatStep::Read { offset, len } => {
                let start = offset as usize;
                buf = data[start..start + len].to_vec();
            }
            FormatStep::Done(entries) => return Ok(entries),
        }
    }
}

#[test]
fn archive_archive_new() {
    for (arcdata, _files) in examples() {
        let c = Cursor::new(arcdata);
        let _ar = Archive::new(c).unwrap();
    }
}

#[test]
fn archive_archive_list() {
    for (arcdata, files) in examples() {
        let c = Cursor::new(arcdata);
        let ar = Archive::new(c).unwrap();
        for file in ar.list() {
            let i = files.iter().find(|(name, _)| *name == file.path);
            if i.is_none() {
                panic!("unexpected file {:?}", file.path);
            }
        }
    }
}

#[test]
fn archive_archive_load() {
    for (arcdata, files) in examples() {
        let c = Cursor::new(arcdata);
        let mut ar = Archive::new(c).unwrap();
        for (fname, contents) in files.iter() {
            let ours = ar.load(fname).unwrap();
            assert_eq!(ours, *contents);
        }
    }
}

#[test]
fn asyncarchive_archive_new() {
    block_on(async {
        for (arcdata, _files) in examples() {
            let c = futures_lite::io::Cursor::new(arcdata);
            let _ar = open_async(c).await.unwrap();
        }
    })
}

#[test]
fn asyncarchive_archive_list() {
    block_on(async {
        for (arcdata, files) in examples() {
            let c = futures_lite::io::Cursor::new(arcdata);
            let ar = open_async(c).await.unwrap();
            for file in ar.list() {
                let i = files.iter().find(|(name, _)| *name == file.path);
                if i.is_none() {
                    panic!("unexpected file {:?}", file.path);
                }
            }
        }
    })
}

#[test]
fn asyncarchive_archive_load() {
    block_on(async {
        for (arcdata, files) in examples() {
            let c = futures_lite::io::Cursor::new(arcdata);
            let mut ar = open_async(c).await.unwrap();
            for (fname, contents) in files.iter() {
                let ours = load_async(&mut ar, fname).await.unwrap();
                assert_eq!(ours, *contents);
            }
        }
    })
}

#[test]
fn list_yields_each_toc_path_once() {
    let ar = Archive::new(Cursor::new(demo_archive())).unwrap();
    let paths: Vec<&str> = ar.list().iter().map(|f| f.path.as_str()).collect();
    assert_eq!(paths.len(), 2);
    let set: HashSet<&str> = paths.into_iter().collect();
    let expected: HashSet<&str> = ["hello.txt", "subdir\\test.txt"].into_iter().collect();
    assert_eq!(set, expected);
}

#[test]
fn entry_names_and_paths() {
    let entries = decode_all(&demo_archive()).unwrap();
    assert_eq!(entries[0].name, "hello.txt");
    assert_eq!(entries[0].path, "hello.txt");
    assert_eq!(entries[1].name, "test.txt");
    assert_eq!(entries[1].path, "subdir\\test.txt");
}

#[test]
fn offsets_accumulate_from_header_end() {
    let entries = decode_all(&demo_archive()).unwrap();
    assert_eq!(entries.len(), 2);
    assert_eq!(entries[0].offset, 255);
    assert_eq!(entries[0].size, 19);
    assert_eq!(entries[1].offset, 255 + 19);
    assert_eq!(entries[1].size, 10);
    for w in entries.windows(2) {
        assert_eq!(w[1].offset, w[0].offset + w[0].size as u64);
    }
}

#[test]
fn raw_then_decompress_equals_load() {
    let mut ar = Archive::new(Cursor::new(demo_archive())).unwrap();
    for path in ["hello.txt", "subdir\\test.txt"] {
        let raw = ar.load_compressed(path).unwrap();
        let via_raw = decompress(&raw).unwrap();
        let direct = ar.load(path).unwrap();
        assert_eq!(via_raw, direct);
    }
}

#[test]
fn raw_bytes_are_stored_payload() {
    let mut ar = Archive::new(Cursor::new(demo_archive())).unwrap();
    assert_eq!(ar.load_compressed("hello.txt").unwrap(), HELLO_Z);
    assert_eq!(ar.load_compressed("subdir\\test.txt").unwrap(), FNORD_Z);
}

#[test]
fn demo_contents() {
    let mut ar = Archive::new(Cursor::new(demo_archive())).unwrap();
    assert_eq!(ar.load("hello.txt").unwrap(), b"Hello, world!");
    assert_eq!(ar.load("subdir\\test.txt").unwrap(), b"fnord");
}

#[test]
fn missing_path_is_not_found_and_reader_stays_usable() {
    let mut ar = Archive::new(Cursor::new(demo_archive())).unwrap();
    assert!(matches!(ar.load("nope.txt"), Err(ArchiveError::NotFound)));
    assert!(matches!(ar.load_compressed("test.txt"), Err(ArchiveError::NotFound)));
    assert_eq!(ar.list().len(), 2);
    assert_eq!(ar.load("hello.txt").unwrap(), b"Hello, world!");
}

#[test]
fn bad_magic_is_format_error() {
    let mut data = demo_archive();
    data[0] ^= 0xff;
    assert!(matches!(Archive::new(Cursor::new(data)), Err(ArchiveError::Format)));
}

#[test]
fn empty_archive_opens_with_empty_catalog() {
    let data = root_archive(&[]);
    assert_eq!(data.len(), 255);
    let ar = Archive::new(Cursor::new(data)).unwrap();
    assert_eq!(ar.list().len(), 0);
}

#[test]
fn short_source_is_io_error() {
    let data = demo_archive();
    let short = data[..100].to_vec();
    assert!(matches!(Archive::new(Cursor::new(short)), Err(ArchiveError::Io(_))));
    let cut = data[..data.len() - 1].to_vec();
    assert!(matches!(Archive::new(Cursor::new(cut)), Err(ArchiveError::Io(_))));
}

#[test]
fn toc_before_its_end_is_format_error() {
    let mut data = demo_archive();
    put32(&mut data, 18, 300);
    put32(&mut data, 41, 400);
    assert!(matches!(Archive::new(Cursor::new(data)), Err(ArchiveError::Format)));
}

#[test]
fn record_past_table_end_is_format_error() {
    let mut data = root_archive(&[("a.txt", FNORD_Z)]);
    // claim a second file in the root directory
    let toc_offset = 255 + FNORD_Z.len();
    put16(&mut data, toc_offset, 2);
    assert!(matches!(Archive::new(Cursor::new(data)), Err(ArchiveError::Format)));
}

#[test]
fn invalid_utf8_name_is_format_error() {
    let mut data = root_archive(&[("a.txt", FNORD_Z)]);
    let toc_offset = 255 + FNORD_Z.len();
    data[toc_offset + 30] = 0xff;
    assert!(matches!(Archive::new(Cursor::new(data)), Err(ArchiveError::Format)));
}

#[test]
fn later_duplicate_path_overwrites_earlier() {
    let data = root_archive(&[("same.txt", HELLO_Z), ("same.txt", FNORD_Z)]);
    let mut ar = Archive::new(Cursor::new(data)).unwrap();
    assert_eq!(ar.list().len(), 1);
    assert_eq!(ar.list()[0].offset, 255 + HELLO_Z.len() as u64);
    assert_eq!(ar.load("same.txt").unwrap(), b"fnord");
}

#[test]
fn corrupt_payload_is_decode_error() {
    let data = root_archive(&[("bad.bin", &[0x07, 0x04, 0x00][..])]);
    let mut ar = Archive::new(Cursor::new(data)).unwrap();
    assert!(matches!(ar.load("bad.bin"), Err(ArchiveError::Decode)));
    assert_eq!(ar.load_compressed("bad.bin").unwrap(), vec![0x07, 0x04, 0x00]);
}

#[test]
fn decompress_gives_contents() {
    assert_eq!(decompress(AIAI_Z).unwrap(), b"AIAIAIAIAIAIA");
    assert_eq!(decompress(FNORD_Z).unwrap(), b"fnord");
    assert!(matches!(decompress(&[0x02, 0x09]), Err(ArchiveError::Decode)));
}

#[test]
fn decoder_asks_for_header_then_table() {
    let data = demo_archive();
    let mut fmt = Format::new();
    match fmt.next(&[]).unwrap() {
        FormatStep::Read { offset, len } => {
            assert_eq!(offset, 0);
            assert_eq!(len, 255);
        }
        FormatStep::Done(_) => panic!("expected a read"),
    }
    match fmt.next(&data[..255]).unwrap() {
        FormatStep::Read { offset, len } => {
            assert_eq!(offset, 255 + 29);
            assert_eq!(len, data.len() - 255 - 29);
        }
        FormatStep::Done(_) => panic!("expected a read"),
    }
    match fmt.next(&data[255 + 29..]).unwrap() {
        FormatStep::Done(entries) => assert_eq!(entries.len(), 2),
        FormatStep::Read { .. } => panic!("expected the entries"),
    }
}

#[test]
fn async_locate_gives_payload_range() {
    let c = futures_lite::io::Cursor::new(demo_archive());
    let ar = block_on(open_async(c)).unwrap();
    assert_eq!(ar.locate("subdir\\test.txt").unwrap(), (255 + 19, 10));
    assert!(matches!(ar.locate("missing"), Err(ArchiveError::NotFound)));
}
