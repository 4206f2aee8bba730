use vstd::prelude::*;
use vstd::string::*;
use crate::bytes::{decode_text, le16, le32, read_le16, read_le32, utf8_text};
use crate::error::ArchiveError;

verus! {

/// Where the payload of the first entry starts: right after the header.
pub const FILE_OFFSET: u64 = 255;

/// The number that every archive starts with.
pub const MAGIC: u32 = 0x8c655d13;

/// The fields of the fixed-size header that the table of contents depends on.
#[derive(Clone, Copy, Debug, PartialEq, Eq, Structural)]
pub struct Header {
    pub files: u16,
    pub size: u32,
    pub toc_offset: u32,
    pub dirs: u16,
}

/// The abstract content of a directory record of the table of contents.
pub struct DirModel {
    pub files: int,
    pub name: Seq<char>,
}

/// The abstract content of an entry: what a [`FileInfo`] stands for.
pub struct EntryModel {
    pub name: Seq<char>,
    pub path: Seq<char>,
    pub size: int,
    pub offset: int,
}

/// The header that the 255-byte block `b` describes, or `None` where its
/// magic number is wrong or its table of contents would end before it
/// starts.
pub open spec fn parse_header(b: Seq<u8>) -> Option<Header> {
    if le32(b, 0) != MAGIC as int || le32(b, 18) < le32(b, 41) {
        None
    } else {
        Some(
            Header {
                files: le16(b, 12) as u16,
                size: le32(b, 18) as u32,
                toc_offset: le32(b, 41) as u32,
                dirs: le16(b, 49) as u16,
            },
        )
    }
}

/// The directory record at `c` in the table of contents, with its stride
/// to the next record.
pub open spec fn dir_record(toc: Seq<u8>, c: int) -> Option<(DirModel, int)> {
    if 0 <= c && c + 6 <= toc.len() && c + 6 + le16(toc, c + 4) <= toc.len() {
        match utf8_text(toc.subrange(c + 6, c + 6 + le16(toc, c + 4))) {
            Some(name) => Some((DirModel { files: le16(toc, c), name }, le16(toc, c + 2))),
            None => None,
        }
    } else {
        None
    }
}

/// The file record at `c` in the table of contents: its name, compressed
/// size and stride to the next record.
pub open spec fn file_record(toc: Seq<u8>, c: int) -> Option<(Seq<char>, int, int)> {
    if 0 <= c && c + 30 <= toc.len() && c + 30 + toc[c + 29] <= toc.len() {
        match utf8_text(toc.subrange(c + 30, c + 30 + toc[c + 29])) {
            Some(name) => Some((name, le32(toc, c + 7), le16(toc, c + 23))),
            None => None,
        }
    } else {
        None
    }
}

/// The logical path of a file named `name` in the directory `dir`.
pub open spec fn join_path(dir: Seq<char>, name: Seq<char>) -> Seq<char> {
    if dir.len() > 0 {
        dir + seq!['\\'] + name
    } else {
        name
    }
}

/// Reads `k` more directory records from `c` on, after those in `acc`.
pub open spec fn walk_dirs(toc: Seq<u8>, k: nat, c: int, acc: Seq<DirModel>) -> Option<
    Seq<DirModel>,
>
    decreases k,
{
    if k == 0 {
        Some(acc)
    } else {
        match dir_record(toc, c) {
            Some((d, chunk)) => walk_dirs(toc, (k - 1) as nat, c + chunk, acc.push(d)),
            None => None,
        }
    }
}

/// Reads the file records of directory `d` from its `j`-th file on, and
/// those of the directories after it, starting at `c`, with `off` the
/// payload offset of the next entry and `acc` the entries read so far.
pub open spec fn walk_files(
    toc: Seq<u8>,
    dirs: Seq<DirModel>,
    d: int,
    j: int,
    c: int,
    off: int,
    acc: Seq<EntryModel>,
) -> Option<Seq<EntryModel>>
    decreases dirs.len() - d, if 0 <= d < dirs.len() { dirs[d].files - j } else { 0 },
{
    if d < 0 || d >= dirs.len() {
        Some(acc)
    } else if j >= dirs[d].files {
        walk_files(toc, dirs, d + 1, 0, c, off, acc)
    } else {
        match file_record(toc, c) {
            Some((name, size, chunk)) => walk_files(
                toc,
                dirs,
                d,
                j + 1,
                c + chunk,
                off + size,
                acc.push(
                    EntryModel { name, path: join_path(dirs[d].name, name), size, offset: off },
                ),
            ),
            None => None,
        }
    }
}

/// The entries that the table of contents `toc` lists, in the order they
/// are stored, or `None` where it is malformed. Directory records come
/// first; the file pass starts over at the beginning of the table.
pub open spec fn parse_toc(toc: Seq<u8>, h: Header) -> Option<Seq<EntryModel>> {
    match walk_dirs(toc, h.dirs as nat, 0, seq![]) {
        Some(dirs) => walk_files(toc, dirs, 0, 0, 0, FILE_OFFSET as int, seq![]),
        None => None,
    }
}

/// Information about a file in an archive.
#[derive(Clone, Debug, PartialEq, Eq, Hash)]
pub struct FileInfo {
    /// The name of the file (without directories).
    pub name: String,
    /// The full path of the file, using `\` to separate directories.
    pub path: String,
    /// The compressed size of the file in the archive.
    pub size: usize,
    /// The offset within the archive where the file's payload starts.
    pub offset: u64,
}

impl View for FileInfo {
    type V = EntryModel;

    open spec fn view(&self) -> EntryModel {
        EntryModel {
            name: self.name@,
            path: self.path@,
            size: self.size as int,
            offset: self.offset as int,
        }
    }
}

/// The abstract contents of a list of entries.
pub open spec fn entries_view(v: Seq<FileInfo>) -> Seq<EntryModel> {
    v.map_values(|f: FileInfo| f@)
}

/// A directory record as read from the table of contents.
struct DirInfo {
    files: u16,
    name: String,
}

impl View for DirInfo {
    type V = DirModel;

    closed spec fn view(&self) -> DirModel {
        DirModel { files: self.files as int, name: self.name@ }
    }
}

fn read_dir_record(toc: &[u8], c: u64) -> (r: Option<(DirInfo, u16)>)
    ensures
        match dir_record(toc@, c as int) {
            Some((d, chunk)) => r matches Some((di, ch)) && di@ == d && ch as int == chunk,
            None => r is None,
        },
{
    let n = toc.len();
    if c >= n as u64 || n - (c as usize) < 6 {
        return None;
    }
    let at = c as usize;
    let files = read_le16(toc, at);
    let chunk = read_le16(toc, at + 2);
    let len = read_le16(toc, at + 4) as usize;
    if n - (at + 6) < len {
        return None;
    }
    match decode_text(toc, at + 6, at + 6 + len) {
        Some(name) => Some((DirInfo { files, name }, chunk)),
        None => None,
    }
}

fn read_file_record(toc: &[u8], c: u64) -> (r: Option<(String, u32, u16)>)
    ensures
        match file_record(toc@, c as int) {
            Some((name, size, chunk)) => r matches Some((nm, sz, ch)) && nm@ == name && sz as int
                == size && ch as int == chunk,
            None => r is None,
        },
{
    let n = toc.len();
    if c >= n as u64 || n - (c as usize) < 30 {
        return None;
    }
    let at = c as usize;
    let size = read_le32(toc, at + 7);
    let chunk = read_le16(toc, at + 23);
    let len = toc[at + 29] as usize;
    if n - (at + 30) < len {
        return None;
    }
    match decode_text(toc, at + 30, at + 30 + len) {
        Some(name) => Some((name, size, chunk)),
        None => None,
    }
}

fn join(dir: &String, name: &String) -> (r: String)
    ensures
        r@ == join_path(dir@, name@),
{
    if dir.as_str().unicode_len() > 0 {
        let sep = "\\";
        proof {
            reveal_strlit("\\");
        }
        let r = dir.clone().concat(sep).concat(name.as_str());
        assert(r@ == dir@ + seq!['\\'] + name@);
        r
    } else {
        name.clone()
    }
}

proof fn lemma_walk_dirs_len(toc: Seq<u8>, k: nat, c: int, acc: Seq<DirModel>)
    ensures
        walk_dirs(toc, k, c, acc) matches Some(r) ==> r.len() == acc.len() + k,
    decreases k,
{
    if k > 0 {
        if let Some((d, chunk)) = dir_record(toc, c) {
            lemma_walk_dirs_len(toc, (k - 1) as nat, c + chunk, acc.push(d));
        }
    }
}

fn read_dirs(toc: &[u8], count: u16) -> (r: Option<Vec<DirInfo>>)
    ensures
        match walk_dirs(toc@, count as nat, 0, seq![]) {
            Some(ds) => r matches Some(v) && v@.map_values(|d: DirInfo| d@) == ds,
            None => r is None,
        },
{
    let mut dirs: Vec<DirInfo> = Vec::new();
    let mut cursor: u64 = 0;
    let mut i: u16 = 0;
    assert(dirs@.map_values(|d: DirInfo| d@) =~= Seq::<DirModel>::empty());
    while i < count
        invariant
            i <= count,
            cursor <= i as int * 65535,
            dirs@.len() == i,
            walk_dirs(toc@, count as nat, 0, seq![]) == walk_dirs(
                toc@,
                (count - i) as nat,
                cursor as int,
                dirs@.map_values(|d: DirInfo| d@),
            ),
        decreases count - i,
    {
        match read_dir_record(toc, cursor) {
            Some((d, chunk)) => {
                let ghost before = dirs@;
                dirs.push(d);
                assert(dirs@.map_values(|d: DirInfo| d@) =~= before.map_values(
                    |d: DirInfo| d@,
                ).push(d@));
                cursor = cursor + chunk as u64;
                i = i + 1;
            },
            None => {
                return None;
            },
        }
    }
    Some(dirs)
}

fn read_files(toc: &[u8], dirs: &Vec<DirInfo>) -> (r: Option<Vec<FileInfo>>)
    requires
        dirs@.len() <= 65535,
    ensures
        match walk_files(
            toc@,
            dirs@.map_values(|d: DirInfo| d@),
            0,
            0,
            0,
            FILE_OFFSET as int,
            seq![],
        ) {
            Some(es) => r matches Some(v) && entries_view(v@) == es,
            None => r is None,
        },
{
    let ghost ds = dirs@.map_values(|d: DirInfo| d@);
    let ghost target = walk_files(toc@, ds, 0, 0, 0, FILE_OFFSET as int, seq![]);
    let mut entries: Vec<FileInfo> = Vec::new();
    let mut cursor: u64 = 0;
    let mut offset: u64 = FILE_OFFSET;
    let mut d: usize = 0;
    assert(entries_view(entries@) =~= Seq::<EntryModel>::empty());
    while d < dirs.len()
        invariant
            ds == dirs@.map_values(|d: DirInfo| d@),
            target == walk_files(toc@, ds, 0, 0, 0, FILE_OFFSET as int, seq![]),
            dirs@.len() <= 65535,
            d <= dirs@.len(),
            entries@.len() <= d * 65535,
            cursor <= entries@.len() * 65535,
            offset <= FILE_OFFSET + entries@.len() * 4294967295,
            target == walk_files(
                toc@,
                ds,
                d as int,
                0,
                cursor as int,
                offset as int,
                entries_view(entries@),
            ),
        decreases dirs@.len() - d,
    {
        let count = dirs[d].files;
        let mut j: u16 = 0;
        while j < count
            invariant
                ds == dirs@.map_values(|d: DirInfo| d@),
                target == walk_files(toc@, ds, 0, 0, 0, FILE_OFFSET as int, seq![]),
                dirs@.len() <= 65535,
                d < dirs@.len(),
                count == dirs@[d as int].files,
                j <= count,
                entries@.len() <= d * 65535 + j,
                cursor <= entries@.len() * 65535,
                offset <= FILE_OFFSET + entries@.len() * 4294967295,
                target == walk_files(
                    toc@,
                    ds,
                    d as int,
                    j as int,
                    cursor as int,
                    offset as int,
                    entries_view(entries@),
                ),
            decreases count - j,
        {
            assert(ds[d as int] == dirs@[d as int]@);
            match read_file_record(toc, cursor) {
                Some((name, size, chunk)) => {
                    let path = join(&dirs[d].name, &name);
                    let f = FileInfo { name, path, size: size as usize, offset };
                    let ghost before = entries@;
                    entries.push(f);
                    assert(entries_view(entries@) =~= entries_view(before).push(f@));
                    cursor = cursor + chunk as u64;
                    offset = offset + size as u64;
                    j = j + 1;
                },
                None => {
                    return None;
                },
            }
        }
        d = d + 1;
    }
    Some(entries)
}

fn read_header(b: &[u8]) -> (r: Option<Header>)
    requires
        b@.len() == FILE_OFFSET,
    ensures
        r == parse_header(b@),
{
    let magic = read_le32(b, 0);
    let files = read_le16(b, 12);
    let size = read_le32(b, 18);
    let toc_offset = read_le32(b, 41);
    let dirs = read_le16(b, 49);
    if magic != MAGIC || size < toc_offset {
        None
    } else {
        Some(Header { files, size, toc_offset, dirs })
    }
}

fn read_toc(toc: &[u8], h: Header) -> (r: Option<Vec<FileInfo>>)
    ensures
        match parse_toc(toc@, h) {
            Some(es) => r matches Some(v) && entries_view(v@) == es,
            None => r is None,
        },
{
    match read_dirs(toc, h.dirs) {
        Some(dirs) => {
            proof {
                lemma_walk_dirs_len(toc@, h.dirs as nat, 0, seq![]);
            }
            read_files(toc, &dirs)
        },
        None => None,
    }
}

/// Where the decoder stands between two steps.
#[derive(Clone, Copy, Debug, PartialEq, Eq, Structural)]
pub enum FormatState {
    /// Nothing has been requested yet.
    Start,
    /// The header block has been requested.
    ParseHeader,
    /// The table of contents that the header describes has been requested.
    ParseToc(Header),
}

/// The number of bytes that the decoder expects to be handed in `state`.
pub open spec fn pending_len(state: FormatState) -> int {
    match state {
        FormatState::Start => 0,
        FormatState::ParseHeader => FILE_OFFSET as int,
        FormatState::ParseToc(h) => h.size - h.toc_offset,
    }
}

/// A decoder for the header and table of contents of an archive.
///
/// It performs no I/O: each call to [`Format::next`] either asks its caller
/// for a byte range or hands back the finished list of entries.
#[derive(Debug)]
pub struct Format {
    pub state: FormatState,
}

/// What the decoder wants next.
#[derive(Debug)]
pub enum FormatStep {
    /// Read `len` bytes starting at absolute offset `offset` and pass them
    /// to the next call.
    Read { offset: u64, len: usize },
    /// Decoding is complete: the entries in the order they are stored.
    Done(Vec<FileInfo>),
}

impl Format {
    pub fn new() -> (r: Format)
        ensures
            r.state == FormatState::Start,
    {
        Format { state: FormatState::Start }
    }

    /// Takes one step: `data` holds the bytes that the previous step asked
    /// for (and is ignored on the first step).
    ///
    /// From the start the header block is requested; from the header the
    /// table of contents it points to; from the table of contents the list
    /// of entries is returned and the decoder starts over. A malformed
    /// header or table is a [`ArchiveError::Format`], and leaves the decoder where
    /// it was.
    pub fn next(&mut self, data: &[u8]) -> (r: Result<FormatStep, ArchiveError>)
        requires
            old(self).state is Start || data@.len() == pending_len(old(self).state),
        ensures
            match old(self).state {
                FormatState::Start => r matches Ok(FormatStep::Read { offset, len }) && offset
                    == 0 && len == FILE_OFFSET && final(self).state == FormatState::ParseHeader,
                FormatState::ParseHeader => match parse_header(data@) {
                    Some(h) => r matches Ok(FormatStep::Read { offset, len }) && offset
                        == h.toc_offset && len == h.size - h.toc_offset && final(self).state
                        == FormatState::ParseToc(h),
                    None => r matches Err(ArchiveError::Format) && final(self).state == old(self).state,
                },
                FormatState::ParseToc(h) => match parse_toc(data@, h) {
                    Some(es) => r matches Ok(FormatStep::Done(v)) && entries_view(v@) == es
                        && final(self).state == FormatState::Start,
                    None => r matches Err(ArchiveError::Format) && final(self).state == old(self).state,
                },
            },
    {
        match self.state {
            FormatState::Start => {
                self.state = FormatState::ParseHeader;
                Ok(FormatStep::Read { offset: 0, len: FILE_OFFSET as usize })
            },
            FormatState::ParseHeader => match read_header(data) {
                Some(h) => {
                    self.state = FormatState::ParseToc(h);
                    Ok(
                        FormatStep::Read {
                            offset: h.toc_offset as u64,
                            len: (h.size - h.toc_offset) as usize,
                        },
                    )
                },
                None => Err(ArchiveError::Format),
            },
            FormatState::ParseToc(h) => match read_toc(data, h) {
                Some(entries) => {
                    self.state = FormatState::Start;
                    Ok(FormatStep::Done(entries))
                },
                None => Err(ArchiveError::Format),
            },
        }
    }
}

/// The payload offsets of `es` are laid end to end from `FILE_OFFSET` on,
/// and `off` is where the payload after them would start.
pub open spec fn offsets_chained(es: Seq<EntryModel>, off: int) -> bool {
    &&& es.len() == 0 ==> off == FILE_OFFSET
    &&& es.len() > 0 ==> es[0].offset == FILE_OFFSET && off == es.last().offset + es.last().size
    &&& forall|i: int| 0 <= i < es.len() - 1 ==> #[trigger] es[i + 1].offset == es[i].offset + es[i].size
}

proof fn lemma_walk_files_chained(
    toc: Seq<u8>,
    dirs: Seq<DirModel>,
    d: int,
    j: int,
    c: int,
    off: int,
    acc: Seq<EntryModel>,
)
    requires
        offsets_chained(acc, off),
    ensures
        walk_files(toc, dirs, d, j, c, off, acc) matches Some(es) ==> offsets_chained(
            es,
            es.last().offset + es.last().size,
        ) || es.len() == 0,
    decreases dirs.len() - d, if 0 <= d < dirs.len() { dirs[d].files - j } else { 0 },
{
    if d < 0 || d >= dirs.len() {
    } else if j >= dirs[d].files {
        lemma_walk_files_chained(toc, dirs, d + 1, 0, c, off, acc);
    } else {
        if let Some((name, size, chunk)) = file_record(toc, c) {
            let e = EntryModel { name, path: join_path(dirs[d].name, name), size, offset: off };
            let next = acc.push(e);
            assert forall|i: int| 0 <= i < next.len() - 1 implies #[trigger] next[i + 1].offset
                == next[i].offset + next[i].size by {
                if i < acc.len() - 1 {
                    assert(next[i + 1] == acc[i + 1]);
                }
            }
            lemma_walk_files_chained(toc, dirs, d, j + 1, c + chunk, off + size, next);
        }
    }
}

/// The entries of a table of contents have their payloads laid end to end:
/// the first starts right after the header, and each next one starts where
/// the one before it ends.
pub proof fn lemma_offsets_accumulate(toc: Seq<u8>, h: Header)
    ensures
        parse_toc(toc, h) matches Some(es) ==> {
            &&& es.len() > 0 ==> es[0].offset == FILE_OFFSET
            &&& forall|i: int| 0 <= i < es.len() - 1 ==> #[trigger] es[i + 1].offset
                == es[i].offset + es[i].size
        },
{
    if let Some(dirs) = walk_dirs(toc, h.dirs as nat, 0, seq![]) {
        lemma_walk_files_chained(toc, dirs, 0, 0, 0, FILE_OFFSET as int, seq![]);
    }
}

/// A header block whose first four bytes are not the magic number is
/// rejected: the decoder answers it with `ArchiveError::Format`.
pub proof fn lemma_bad_magic_rejected(b: Seq<u8>)
    requires
        le32(b, 0) != MAGIC,
    ensures
        parse_header(b) is None,
{
}

/// A table of contents with no directories lists no entries, whatever its
/// bytes.
pub proof fn lemma_no_dirs_no_entries(toc: Seq<u8>, h: Header)
    requires
        h.dirs == 0,
    ensures
        parse_toc(toc, h) == Some(Seq::<EntryModel>::empty()),
{
    assert(walk_dirs(toc, 0, 0, seq![]) == Some(Seq::<DirModel>::empty()));
}

} // verus!
