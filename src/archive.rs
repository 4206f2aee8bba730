use vstd::prelude::*;
use crate::bytes::{explode_bytes, exploded};
use crate::catalog::{
    build_catalog, catalog_of, find_entry, lemma_list_is_toc_paths, paths_of, unique_paths,
};
use crate::error::ArchiveError;
use crate::format::{
    entries_view, parse_header, parse_toc, pending_len, EntryModel, FileInfo, Format,
    FormatState, FormatStep,
};

verus! {

/// Relies on `std::io::Seek::seek`: moves the source to an absolute
/// position, or fails.
#[verifier::external_body]
fn seek_to<R: std::io::Seek>(src: &mut R, offset: u64) -> (r: Result<u64, std::io::Error>) {
    src.seek(std::io::SeekFrom::Start(offset))
}

/// Relies on `std::io::Read::read_exact`: fills the whole buffer, or fails.
#[verifier::external_body]
fn fill_from<R: std::io::Read>(src: &mut R, buf: &mut Vec<u8>) -> (r: Result<(), std::io::Error>)
    ensures
        final(buf)@.len() == old(buf)@.len(),
{
    src.read_exact(buf.as_mut_slice())
}

/// `r` is what decompressing the payload `raw` gives.
pub open spec fn decoded_as(r: &Result<Vec<u8>, ArchiveError>, raw: Seq<u8>) -> bool {
    match exploded(raw) {
        Some(v) => r matches Ok(out) && out@ == v,
        None => r matches Err(ArchiveError::Decode),
    }
}

/// Decompresses a payload as read from an archive.
pub fn decompress(raw: &[u8]) -> (r: Result<Vec<u8>, ArchiveError>)
    ensures
        decoded_as(&r, raw@),
{
    match explode_bytes(raw) {
        Ok(v) => Ok(v),
        Err(_) => Err(ArchiveError::Decode),
    }
}

/// A buffer of `len` zero bytes.
fn zeroed(len: usize) -> (r: Vec<u8>)
    ensures
        r@.len() == len,
{
    let mut v: Vec<u8> = Vec::new();
    while v.len() < len
        invariant
            v@.len() <= len,
        decreases len - v@.len(),
    {
        v.push(0);
    }
    v
}

/// The header block `head` and the table of contents `toc` describe
/// entries whose catalog lists exactly `listed`, each path once.
pub open spec fn opened_from(head: Seq<u8>, toc: Seq<u8>, listed: Seq<EntryModel>) -> bool {
    match parse_header(head) {
        Some(h) => match parse_toc(toc, h) {
            Some(es) => unique_paths(listed) && catalog_of(listed) == catalog_of(es),
            None => false,
        },
        None => false,
    }
}

/// Opening an archive and listing it yields exactly the paths of its table
/// of contents, each once.
pub proof fn lemma_open_then_list(head: Seq<u8>, toc: Seq<u8>, listed: Seq<EntryModel>)
    requires
        opened_from(head, toc, listed),
    ensures
        parse_header(head) matches Some(h) && parse_toc(toc, h) matches Some(es) && paths_of(
            listed,
        ) == paths_of(es),
        unique_paths(listed),
{
    let h = parse_header(head)->Some_0;
    let es = parse_toc(toc, h)->Some_0;
    lemma_list_is_toc_paths(es, listed);
}

spec fn stage(s: FormatState) -> nat {
    match s {
        FormatState::Start => 2,
        FormatState::ParseHeader => 1,
        FormatState::ParseToc(_) => 0,
    }
}

/// An InstallShield Z archive read from a blocking seekable source.
#[derive(Debug)]
pub struct Archive<R> {
    inner: R,
    files: Vec<FileInfo>,
}

impl<R> Archive<R> {
    /// The entries of the catalog, one per path.
    pub closed spec fn entries(&self) -> Seq<EntryModel> {
        entries_view(self.files@)
    }

    /// The catalog: each path mapped to its entry.
    pub open spec fn catalog(&self) -> Map<Seq<char>, EntryModel> {
        catalog_of(self.entries())
    }

    /// No two entries of the catalog share a path.
    pub open spec fn wf(&self) -> bool {
        unique_paths(self.entries())
    }

    /// List the files contained in the archive, in no particular order.
    pub fn list(&self) -> (r: &[FileInfo])
        ensures
            entries_view(r@) == self.entries(),
    {
        self.files.as_slice()
    }

    fn find(&self, path: &str) -> (r: Result<&FileInfo, ArchiveError>)
        requires
            self.wf(),
        ensures
            match r {
                Ok(f) => self.catalog().dom().contains(path@) && self.catalog()[path@] == f@,
                Err(e) => e is NotFound && !self.catalog().dom().contains(path@),
            },
    {
        match find_entry(&self.files, path) {
            Some(i) => Ok(&self.files[i]),
            None => Err(ArchiveError::NotFound),
        }
    }
}

impl<R: std::io::Read + std::io::Seek> Archive<R> {
    /// Opens an archive: reads and parses its header and table of contents.
    ///
    /// On success the catalog holds each path of the table of contents
    /// once; a malformed header or table is an [`ArchiveError::Format`], a failing
    /// source an [`ArchiveError::Io`].
    pub fn new(inner: R) -> (r: Result<Archive<R>, ArchiveError>)
        ensures
            match r {
                Ok(a) => a.wf() && exists|head: Seq<u8>, toc: Seq<u8>|
                    #[trigger] opened_from(head, toc, a.entries()),
                Err(e) => e is Format || e is Io,
            },
    {
        let mut inner = inner;
        let mut fmt = Format::new();
        let mut buf: Vec<u8> = Vec::new();
        let ghost mut head: Seq<u8> = Seq::empty();
        loop
            invariant
                fmt.state is Start || buf@.len() == pending_len(fmt.state),
                fmt.state matches FormatState::ParseToc(h) ==> parse_header(head) == Some(h),
            decreases stage(fmt.state),
        {
            proof {
                if fmt.state is ParseHeader {
                    head = buf@;
                }
            }
            let ghost toc = buf@;
            match fmt.next(buf.as_slice()) {
                Err(e) => {
                    return Err(e);
                },
                Ok(FormatStep::Read { offset, len }) => {
                    match seek_to(&mut inner, offset) {
                        Ok(_) => {},
                        Err(e) => {
                            return Err(ArchiveError::Io(e));
                        },
                    }
                    let mut data = zeroed(len);
                    match fill_from(&mut inner, &mut data) {
                        Ok(()) => {},
                        Err(e) => {
                            return Err(ArchiveError::Io(e));
                        },
                    }
                    buf = data;
                },
                Ok(FormatStep::Done(entries)) => {
                    let files = build_catalog(entries);
                    let a = Archive { inner, files };
                    assert(opened_from(head, toc, a.entries()));
                    return Ok(a);
                },
            }
        }
    }

    /// Loads a file's payload without decompressing it.
    ///
    /// A path that is not in the catalog is an [`ArchiveError::NotFound`]; either
    /// way the catalog is left as it was.
    pub fn load_compressed(&mut self, path: &str) -> (r: Result<Vec<u8>, ArchiveError>)
        requires
            old(self).wf(),
        ensures
            final(self).entries() == old(self).entries(),
            old(self).catalog().dom().contains(path@) <==> !(r matches Err(ArchiveError::NotFound)),
            r matches Ok(v) ==> v@.len() == old(self).catalog()[path@].size,
            r matches Err(e) ==> (e is NotFound || e is Io),
    {
        let (size, offset) = match self.find(path) {
            Ok(info) => (info.size, info.offset),
            Err(e) => {
                return Err(e);
            },
        };
        let mut ret = zeroed(size);
        match seek_to(&mut self.inner, offset) {
            Ok(_) => {},
            Err(e) => {
                return Err(ArchiveError::Io(e));
            },
        }
        match fill_from(&mut self.inner, &mut ret) {
            Ok(()) => Ok(ret),
            Err(e) => Err(ArchiveError::Io(e)),
        }
    }

    /// Loads a file and decompresses it.
    ///
    /// The result is what [`decompress`] gives on the payload that
    /// [`Archive::load_compressed`] reads for the same path.
    pub fn load(&mut self, path: &str) -> (r: Result<Vec<u8>, ArchiveError>)
        requires
            old(self).wf(),
        ensures
            final(self).entries() == old(self).entries(),
            old(self).catalog().dom().contains(path@) <==> !(r matches Err(ArchiveError::NotFound)),
            old(self).catalog().dom().contains(path@) ==> (r matches Err(ArchiveError::Io(_))
                || exists|raw: Seq<u8>|
                raw.len() == old(self).catalog()[path@].size && #[trigger] decoded_as(&r, raw)),
    {
        match self.load_compressed(path) {
            Ok(raw) => {
                let r = decompress(raw.as_slice());
                assert(decoded_as(&r, raw@));
                r
            },
            Err(e) => Err(e),
        }
    }
}

/// An InstallShield Z archive read from a suspend-based seekable source.
///
/// The awaiting I/O lives with the caller: it drives a [`Format`] against
/// the source, hands the resulting entries to [`AsyncArchive::from_entries`],
/// and reads payloads at the places that [`AsyncArchive::locate`] gives.
#[derive(Debug)]
pub struct AsyncArchive<R> {
    inner: R,
    files: Vec<FileInfo>,
}

impl<R> AsyncArchive<R> {
    /// The entries of the catalog, one per path.
    pub closed spec fn entries(&self) -> Seq<EntryModel> {
        entries_view(self.files@)
    }

    /// The catalog: each path mapped to its entry.
    pub open spec fn catalog(&self) -> Map<Seq<char>, EntryModel> {
        catalog_of(self.entries())
    }

    /// No two entries of the catalog share a path.
    pub open spec fn wf(&self) -> bool {
        unique_paths(self.entries())
    }

    /// Builds the archive from its source and the entries that decoding
    /// its table of contents gave.
    pub fn from_entries(inner: R, entries: Vec<FileInfo>) -> (r: AsyncArchive<R>)
        ensures
            r.wf(),
            r.catalog() == catalog_of(entries_view(entries@)),
    {
        AsyncArchive { inner, files: build_catalog(entries) }
    }

    /// List the files contained in the archive, in no particular order.
    pub fn list(&self) -> (r: &[FileInfo])
        ensures
            entries_view(r@) == self.entries(),
    {
        self.files.as_slice()
    }

    fn find(&self, path: &str) -> (r: Result<&FileInfo, ArchiveError>)
        requires
            self.wf(),
        ensures
            match r {
                Ok(f) => self.catalog().dom().contains(path@) && self.catalog()[path@] == f@,
                Err(e) => e is NotFound && !self.catalog().dom().contains(path@),
            },
    {
        match find_entry(&self.files, path) {
            Some(i) => Ok(&self.files[i]),
            None => Err(ArchiveError::NotFound),
        }
    }

    /// The offset and compressed size of the payload of `path`.
    pub fn locate(&self, path: &str) -> (r: Result<(u64, usize), ArchiveError>)
        requires
            self.wf(),
        ensures
            match r {
                Ok((offset, size)) => self.catalog().dom().contains(path@)
                    && self.catalog()[path@].offset == offset && self.catalog()[path@].size
                    == size,
                Err(e) => e is NotFound && !self.catalog().dom().contains(path@),
            },
    {
        match self.find(path) {
            Ok(info) => Ok((info.offset, info.size)),
            Err(e) => Err(e),
        }
    }

    /// The underlying source, for reading payloads.
    pub fn source_mut(&mut self) -> (r: &mut R)
        ensures
            final(self).entries() == old(self).entries(),
    {
        &mut self.inner
    }
}

} // verus!
