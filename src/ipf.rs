//! The archive: a directory anchored in a trailing footer, and access to its entries.
use vstd::prelude::*;
use vstd::utf8::encode_utf8;

use crate::crypto::{lemma_modes_inverse, CipherMode};
use crate::entry::{
    ascii_lower, default_mode, extension_of, lemma_entries_err, lemma_entries_len, spec_entries,
    spec_read, EntryContentView, IpfEntry, IpfEntryHeader, IpfEntryHeaderView, IpfEntryView,
};
use crate::error::{InvalidReason, IoKind, IpfError};
use crate::wire::{
    bytes_equal, copy_range, le16, le16_bytes, le32, le32_bytes, lemma_le16_round_trip,
    lemma_le32_round_trip, push_u16, push_u32, read_u16, read_u32,
};

verus! {

/// Size of the footer at the end of an archive.
pub const FOOTER_LEN: usize = 24;

/// What the footer holds.
pub struct IpfArchiveHeaderView {
    pub entry_count: u16,
    pub local_file_offset: u32,
    pub header_offset: u32,
    pub signature: Seq<u8>,
    pub base_revision: u32,
    pub revision: u32,
}

/// The signature every archive footer carries.
pub open spec fn magic() -> Seq<u8> {
    seq![0x50u8, 0x4B, 0x05, 0x06]
}

/// The footer in the last 24 bytes of `s`.
pub open spec fn spec_footer(s: Seq<u8>) -> IpfArchiveHeaderView
    recommends
        s.len() >= FOOTER_LEN,
{
    let f = s.len() - FOOTER_LEN;
    IpfArchiveHeaderView {
        entry_count: le16(s, f) as u16,
        local_file_offset: le32(s, f + 2) as u32,
        header_offset: le32(s, f + 8) as u32,
        signature: s.subrange(f + 12, f + 16),
        base_revision: le32(s, f + 16) as u32,
        revision: le32(s, f + 20) as u32,
    }
}

/// The footer of an archive.
pub struct IpfArchiveHeader {
    pub entry_count: u16,
    pub local_file_offset: u32,
    pub header_offset: u32,
    pub signature: [u8; 4],
    pub base_revision: u32,
    pub revision: u32,
}

impl View for IpfArchiveHeader {
    type V = IpfArchiveHeaderView;

    open spec fn view(&self) -> IpfArchiveHeaderView {
        IpfArchiveHeaderView {
            entry_count: self.entry_count,
            local_file_offset: self.local_file_offset,
            header_offset: self.header_offset,
            signature: self.signature@,
            base_revision: self.base_revision,
            revision: self.revision,
        }
    }
}

impl IpfArchiveHeader {
    /// Reads the footer from the last 24 bytes; fails when there are fewer.
    pub fn parse(s: &[u8]) -> (r: Result<IpfArchiveHeader, IpfError>)
        ensures
            match r {
                Ok(h) => s@.len() >= FOOTER_LEN && h@ == spec_footer(s@),
                Err(e) => s@.len() < FOOTER_LEN && e == IpfError::InvalidArchive(
                    InvalidReason::MissingFooter,
                ),
            },
    {
        if s.len() < FOOTER_LEN {
            return Err(IpfError::InvalidArchive(InvalidReason::MissingFooter));
        }
        let f = s.len() - FOOTER_LEN;
        let signature = [s[f + 12], s[f + 13], s[f + 14], s[f + 15]];
        assert(signature@ =~= s@.subrange(f + 12, f + 16));
        Ok(
            IpfArchiveHeader {
                entry_count: read_u16(s, f),
                local_file_offset: read_u32(s, f + 2),
                header_offset: read_u32(s, f + 8),
                signature,
                base_revision: read_u32(s, f + 16),
                revision: read_u32(s, f + 20),
            },
        )
    }
}

/// The 24 footer bytes that describe `h`; the two reserved bytes are zero.
pub open spec fn footer_bytes(h: IpfArchiveHeaderView) -> Seq<u8> {
    le16_bytes(h.entry_count as int) + le32_bytes(h.local_file_offset as int) + seq![0u8, 0u8]
        + le32_bytes(h.header_offset as int) + h.signature + le32_bytes(h.base_revision as int)
        + le32_bytes(h.revision as int)
}

impl IpfArchiveHeader {
    /// The footer as the 24 bytes that end an archive.
    pub fn into_bytes(self) -> (r: Vec<u8>)
        ensures
            r@ == footer_bytes(self@),
    {
        let mut v: Vec<u8> = Vec::with_capacity(FOOTER_LEN);
        push_u16(&mut v, self.entry_count);
        push_u32(&mut v, self.local_file_offset);
        v.push(0);
        v.push(0);
        push_u32(&mut v, self.header_offset);
        let ghost before = v@;
        v.push(self.signature[0]);
        v.push(self.signature[1]);
        v.push(self.signature[2]);
        v.push(self.signature[3]);
        assert(v@ =~= before + self.signature@);
        push_u32(&mut v, self.base_revision);
        push_u32(&mut v, self.revision);
        assert(v@ =~= footer_bytes(self@));
        v
    }
}

/// Reading back the footer that `into_bytes` wrote gives the same footer.
pub proof fn lemma_footer_round_trip(h: IpfArchiveHeaderView)
    requires
        h.signature.len() == 4,
    ensures
        footer_bytes(h).len() == FOOTER_LEN,
        spec_footer(footer_bytes(h)) == h,
{
    let b = footer_bytes(h);
    assert(b.subrange(0, 2) =~= le16_bytes(h.entry_count as int));
    assert(b.subrange(2, 6) =~= le32_bytes(h.local_file_offset as int));
    assert(b.subrange(8, 12) =~= le32_bytes(h.header_offset as int));
    assert(b.subrange(12, 16) =~= h.signature);
    assert(b.subrange(16, 20) =~= le32_bytes(h.base_revision as int));
    assert(b.subrange(20, 24) =~= le32_bytes(h.revision as int));
    lemma_le16_round_trip(b, 0, h.entry_count as int);
    lemma_le32_round_trip(b, 2, h.local_file_offset as int);
    lemma_le32_round_trip(b, 8, h.header_offset as int);
    lemma_le32_round_trip(b, 16, h.base_revision as int);
    lemma_le32_round_trip(b, 20, h.revision as int);
}

/// What the directory of an archive holds: its footer and its entry headers.
pub struct IpfDirectoryView {
    pub header: IpfArchiveHeaderView,
    pub entries: Seq<IpfEntryHeaderView>,
}

/// The directory of the archive `s`: the footer must be there and carry the signature
/// before any entry header is read; the entry headers follow one another from the
/// footer's local file offset on.
pub open spec fn spec_directory(s: Seq<u8>) -> Result<IpfDirectoryView, IpfError> {
    if s.len() < FOOTER_LEN {
        Err(IpfError::InvalidArchive(InvalidReason::MissingFooter))
    } else {
        let h = spec_footer(s);
        if h.signature != magic() {
            Err(IpfError::InvalidArchive(InvalidReason::BadSignature))
        } else {
            match spec_entries(s, h.local_file_offset as int, h.entry_count as nat) {
                Ok((es, _)) => Ok(IpfDirectoryView { header: h, entries: es }),
                Err(e) => Err(e),
            }
        }
    }
}

/// What an archive holds.
pub struct IpfArchiveView {
    pub data: Seq<u8>,
    pub keys: Seq<u8>,
    pub header: IpfArchiveHeaderView,
    pub entries: Seq<IpfEntryHeaderView>,
}

/// The views of a run of entry headers.
pub open spec fn header_views(v: Seq<IpfEntryHeader>) -> Seq<IpfEntryHeaderView> {
    v.map_values(|h: IpfEntryHeader| h@)
}

/// The stored bytes of an entry: its byte range, cut at the end of the data.
pub open spec fn entry_range(data: Seq<u8>, h: IpfEntryHeaderView) -> Seq<u8> {
    let len = data.len() as int;
    let a = if h.data_offset as int <= len { h.data_offset as int } else { len };
    let b = if h.data_offset + h.compressed_size <= len {
        h.data_offset + h.compressed_size
    } else {
        len
    };
    data.subrange(a, b)
}

/// The reader for entry `i`.
pub open spec fn spec_entry(a: IpfArchiveView, i: int) -> IpfEntryView {
    IpfEntryView {
        header: a.entries[i],
        raw: entry_range(a.data, a.entries[i]),
        keys: a.keys,
        mode: default_mode(a.entries[i].file_name),
    }
}

/// Index of the first entry whose path is `q`, if any.
pub open spec fn find_name(es: Seq<IpfEntryHeaderView>, q: Seq<u8>) -> Option<int> {
    if exists|i: int| 0 <= i < es.len() && es[i].file_name == q {
        Some(
            choose|i: int|
                0 <= i < es.len() && es[i].file_name == q && forall|j: int|
                    0 <= j < i ==> es[j].file_name != q,
        )
    } else {
        None
    }
}

/// Reads `n` entry headers from `p` on.
fn parse_entries(s: &[u8], p: usize, n: u16) -> (r: Result<Vec<IpfEntryHeader>, IpfError>)
    ensures
        match r {
            Ok(v) => match spec_entries(s@, p as int, n as nat) {
                Ok((es, _)) => es == header_views(v@),
                Err(_) => false,
            },
            Err(x) => spec_entries(s@, p as int, n as nat) == Err::<
                (Seq<IpfEntryHeaderView>, int),
                IpfError,
            >(x),
        },
{
    let mut v: Vec<IpfEntryHeader> = Vec::with_capacity(n as usize);
    let mut pos: usize = p;
    let mut i: u16 = 0;
    assert(header_views(v@) =~= seq![]);
    while i < n
        invariant
            i <= n,
            spec_entries(s@, p as int, i as nat) == Ok::<(Seq<IpfEntryHeaderView>, int), IpfError>(
                (header_views(v@), pos as int),
            ),
        decreases n - i,
    {
        match IpfEntryHeader::parse(s, pos) {
            Ok((h, e)) => {
                let ghost before = header_views(v@);
                v.push(h);
                assert(header_views(v@) =~= before.push(h@));
                pos = e;
                i = i + 1;
            },
            Err(x) => {
                proof {
                    lemma_entries_err(s@, p as int, (i + 1) as nat, n as nat);
                }
                return Err(x);
            },
        }
    }
    Ok(v)
}

/// An opened archive: its bytes, the cipher keystream, and its parsed directory.
pub struct IpfArchive {
    data: Vec<u8>,
    keystream: Vec<u8>,
    header: IpfArchiveHeader,
    entries: Vec<IpfEntryHeader>,
}

impl View for IpfArchive {
    type V = IpfArchiveView;

    closed spec fn view(&self) -> IpfArchiveView {
        IpfArchiveView {
            data: self.data@,
            keys: self.keystream@,
            header: self.header@,
            entries: header_views(self.entries@),
        }
    }
}

impl IpfArchive {
    /// Opens the archive held in `data`; entries are de-obfuscated with `keystream`.
    pub fn new(data: Vec<u8>, keystream: Vec<u8>) -> (r: Result<IpfArchive, IpfError>)
        ensures
            match r {
                Ok(a) => spec_directory(data@) == Ok::<IpfDirectoryView, IpfError>(
                    IpfDirectoryView { header: a@.header, entries: a@.entries },
                ) && a@.data == data@ && a@.keys == keystream@,
                Err(e) => spec_directory(data@) == Err::<IpfDirectoryView, IpfError>(e),
            },
    {
        let header = match IpfArchiveHeader::parse(data.as_slice()) {
            Ok(h) => h,
            Err(e) => {
                return Err(e);
            },
        };
        if !(header.signature[0] == 0x50 && header.signature[1] == 0x4B && header.signature[2]
            == 0x05 && header.signature[3] == 0x06) {
            assert(header@.signature != magic());
            return Err(IpfError::InvalidArchive(InvalidReason::BadSignature));
        }
        assert(header@.signature =~= magic());
        let entries = match parse_entries(
            data.as_slice(),
            header.local_file_offset as usize,
            header.entry_count,
        ) {
            Ok(v) => v,
            Err(e) => {
                return Err(e);
            },
        };
        Ok(IpfArchive { data, keystream, header, entries })
    }

    /// The footer.
    pub fn header(&self) -> (r: &IpfArchiveHeader)
        ensures
            r@ == self@.header,
    {
        &self.header
    }

    /// Number of entries in the archive.
    pub fn len(&self) -> (r: usize)
        ensures
            r == self@.entries.len(),
    {
        self.entries.len()
    }

    /// Whether the archive has no entries.
    pub fn is_empty(&self) -> (r: bool)
        ensures
            r == (self@.entries.len() == 0),
    {
        self.entries.len() == 0
    }

    /// The entry at `index`, in directory order.
    pub fn by_index(&self, index: usize) -> (r: Result<IpfEntry, IpfError>)
        ensures
            match r {
                Ok(e) => index < self@.entries.len() && e@ == spec_entry(self@, index as int),
                Err(x) => index >= self@.entries.len() && x == IpfError::FileNotFound,
            },
    {
        if index >= self.entries.len() {
            return Err(IpfError::FileNotFound);
        }
        let h = &self.entries[index];
        let len = self.data.len();
        let a: usize = if (h.data_offset as usize) <= len {
            h.data_offset as usize
        } else {
            len
        };
        let b: usize = if (h.compressed_size as usize) <= len - a {
            a + h.compressed_size as usize
        } else {
            len
        };
        let raw = copy_range(self.data.as_slice(), a, b - a);
        let keys = copy_range(self.keystream.as_slice(), 0, self.keystream.len());
        assert(keys@ =~= self.keystream@);
        assert(raw@ =~= entry_range(self@.data, self@.entries[index as int]));
        Ok(IpfEntry::new(h.duplicate(), raw, keys))
    }

    /// The first entry, in directory order, whose whole relative path is `name`.
    pub fn by_name(&self, name: &str) -> (r: Result<IpfEntry, IpfError>)
        ensures
            match r {
                Ok(e) => match find_name(self@.entries, encode_utf8(name@)) {
                    Some(i) => e@ == spec_entry(self@, i),
                    None => false,
                },
                Err(x) => find_name(self@.entries, encode_utf8(name@)) is None && x
                    == IpfError::FileNotFound,
            },
    {
        let q = name.as_bytes();
        let mut i: usize = 0;
        while i < self.entries.len()
            invariant
                i <= self@.entries.len(),
                q@ == encode_utf8(name@),
                forall|j: int| 0 <= j < i ==> self@.entries[j].file_name != q@,
            decreases self@.entries.len() - i,
        {
            if bytes_equal(self.entries[i].file_name.as_str().as_bytes(), q) {
                proof {
                    let es = self@.entries;
                    assert(es[i as int].file_name == q@);
                    let k = find_name(es, q@)->Some_0;
                    assert(k == i) by {
                        if k < i {
                        } else if k > i {
                        }
                    }
                }
                return self.by_index(i);
            }
            i = i + 1;
        }
        Err(IpfError::FileNotFound)
    }
}


/// An archive that opens has exactly as many entries as its footer announces.
pub proof fn lemma_entry_count(s: Seq<u8>)
    requires
        spec_directory(s) is Ok,
    ensures
        spec_directory(s)->Ok_0.entries.len() == spec_footer(s).entry_count,
{
    let h = spec_footer(s);
    lemma_entries_len(s, h.local_file_offset as int, h.entry_count as nat);
}

/// Lookup by path picks the first entry in directory order whose whole path equals the
/// query: never a later duplicate.
pub proof fn lemma_first_match_wins(es: Seq<IpfEntryHeaderView>, q: Seq<u8>, i: int)
    requires
        0 <= i < es.len(),
        es[i].file_name == q,
        forall|j: int| 0 <= j < i ==> es[j].file_name != q,
    ensures
        find_name(es, q) == Some(i),
{
    let k = find_name(es, q)->Some_0;
    if k < i {
    } else if k > i {
    }
}

/// A source shorter than the footer, or whose footer lacks the signature, is rejected as
/// an invalid archive whatever else it holds.
pub proof fn lemma_footer_checked_first(s: Seq<u8>)
    requires
        s.len() < FOOTER_LEN || spec_footer(s).signature != magic(),
    ensures
        spec_directory(s) is Err,
        spec_directory(s)->Err_0 is InvalidArchive,
{
}

/// An entry with extension jpg, fsb or mp3 (any case) reads as exactly its stored bytes.
pub proof fn lemma_stored_entries_pass_through(a: IpfArchiveView, i: int)
    requires
        0 <= i < a.entries.len(),
        extension_of(a.entries[i].file_name) is Some,
        ({
            let l = ascii_lower(extension_of(a.entries[i].file_name)->Some_0);
            l == seq![106u8, 112, 103] || l == seq![102u8, 115, 98] || l == seq![109u8, 112, 51]
        }),
    ensures
        spec_read(spec_entry(a, i)) == Ok::<EntryContentView, IpfError>(
            EntryContentView::Bytes(entry_range(a.data, a.entries[i])),
        ),
{
    lemma_modes_inverse(a.keys, 0, entry_range(a.data, a.entries[i]));
}

} // verus!
