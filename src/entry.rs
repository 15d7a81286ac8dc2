//! Entry headers of the archive directory, and the per-entry decode pipeline.
use vstd::prelude::*;
use vstd::utf8::{decode_utf8, encode_utf8, valid_utf8};

use crate::crypto::{transform, CipherMode, IpfCrypto};
use crate::error::{eof, IoKind, IpfError};
use crate::ies::{spec_table, IesTable, IesTableView};
use crate::inflate::{inflate, inflated};
use crate::wire::{
    copy_range, le16, le16_bytes, le32, le32_bytes, lemma_ascii_byte_valid, lemma_le16_round_trip,
    lemma_le32_round_trip, lemma_valid_between, push_all, push_u16, push_u32, read_u16, read_u32,
    utf8_string,
};

verus! {

/// Size of the fixed part of an entry header.
pub const ENTRY_PREFIX_LEN: usize = 20;

/// What an entry header holds; both names as their UTF-8 bytes.
pub struct IpfEntryHeaderView {
    pub file_name: Seq<u8>,
    pub archive_name: Seq<u8>,
    pub crc32: u32,
    pub compressed_size: u32,
    pub uncompressed_size: u32,
    pub data_offset: u32,
}

/// The entry header at `p`, and the position after it.
pub open spec fn spec_entry_header(s: Seq<u8>, p: int) -> Result<(IpfEntryHeaderView, int), IpfError> {
    if p < 0 || p + ENTRY_PREFIX_LEN > s.len() {
        Err(eof())
    } else {
        let file_len = le16(s, p);
        let archive_len = le16(s, p + 18);
        let a = p + ENTRY_PREFIX_LEN;
        let f = a + archive_len;
        let e = f + file_len;
        if f > s.len() {
            Err(eof())
        } else if !valid_utf8(s.subrange(a, f)) {
            Err(IpfError::Encoding)
        } else if e > s.len() {
            Err(eof())
        } else if !valid_utf8(s.subrange(f, e)) {
            Err(IpfError::Encoding)
        } else {
            Ok(
                (
                    IpfEntryHeaderView {
                        file_name: s.subrange(f, e),
                        archive_name: s.subrange(a, f),
                        crc32: le32(s, p + 2) as u32,
                        compressed_size: le32(s, p + 6) as u32,
                        uncompressed_size: le32(s, p + 10) as u32,
                        data_offset: le32(s, p + 14) as u32,
                    },
                    e,
                ),
            )
        }
    }
}

/// The first `n` entry headers from `p` on, and the position after them.
pub open spec fn spec_entries(s: Seq<u8>, p: int, n: nat) -> Result<
    (Seq<IpfEntryHeaderView>, int),
    IpfError,
>
    decreases n,
{
    if n == 0 {
        Ok((seq![], p))
    } else {
        match spec_entries(s, p, (n - 1) as nat) {
            Ok((es, q)) => match spec_entry_header(s, q) {
                Ok((h, e)) => Ok((es.push(h), e)),
                Err(x) => Err(x),
            },
            Err(x) => Err(x),
        }
    }
}

/// Once reading headers failed, reading more fails the same way.
pub proof fn lemma_entries_err(s: Seq<u8>, p: int, k: nat, n: nat)
    requires
        k <= n,
        spec_entries(s, p, k) is Err,
    ensures
        spec_entries(s, p, n) == spec_entries(s, p, k),
    decreases n - k,
{
    if k < n {
        lemma_entries_err(s, p, k, (n - 1) as nat);
    }
}

/// A successful read of `n` headers yields `n` headers.
pub proof fn lemma_entries_len(s: Seq<u8>, p: int, n: nat)
    requires
        spec_entries(s, p, n) is Ok,
    ensures
        spec_entries(s, p, n)->Ok_0.0.len() == n,
    decreases n,
{
    if n > 0 {
        lemma_entries_len(s, p, (n - 1) as nat);
    }
}

/// Header of one packed file.
#[derive(Debug)]
pub struct IpfEntryHeader {
    /// Relative path, '/'-separated.
    pub file_name: String,
    /// Label of the archive the entry belongs to.
    pub archive_name: String,
    pub crc32: u32,
    pub compressed_size: u32,
    pub uncompressed_size: u32,
    pub data_offset: u32,
}

impl View for IpfEntryHeader {
    type V = IpfEntryHeaderView;

    open spec fn view(&self) -> IpfEntryHeaderView {
        IpfEntryHeaderView {
            file_name: encode_utf8(self.file_name@),
            archive_name: encode_utf8(self.archive_name@),
            crc32: self.crc32,
            compressed_size: self.compressed_size,
            uncompressed_size: self.uncompressed_size,
            data_offset: self.data_offset,
        }
    }
}

/// Decodes a UTF-8 run whose validity is known; the text encodes back to the same bytes.
fn known_text(bytes: Vec<u8>) -> (r: String)
    requires
        valid_utf8(bytes@),
    ensures
        encode_utf8(r@) == bytes@,
{
    proof {
        vstd::utf8::decode_utf8_encode_utf8(bytes@);
    }
    utf8_string(bytes).unwrap()
}

/// Decodes a UTF-8 run; the text encodes back to the same bytes.
fn text_of(bytes: Vec<u8>) -> (r: Option<String>)
    ensures
        r.is_some() == valid_utf8(bytes@),
        r.is_some() ==> encode_utf8(r.unwrap()@) == bytes@,
{
    proof {
        if valid_utf8(bytes@) {
            vstd::utf8::decode_utf8_encode_utf8(bytes@);
        }
    }
    utf8_string(bytes)
}

impl IpfEntryHeader {
    /// Parses the entry header at `p`; also returns the position after it.
    pub fn parse(s: &[u8], p: usize) -> (r: Result<(IpfEntryHeader, usize), IpfError>)
        ensures
            match r {
                Ok((h, e)) => spec_entry_header(s@, p as int) == Ok::<
                    (IpfEntryHeaderView, int),
                    IpfError,
                >((h@, e as int)),
                Err(x) => spec_entry_header(s@, p as int) == Err::<
                    (IpfEntryHeaderView, int),
                    IpfError,
                >(x),
            },
    {
        let len = s.len();
        if p > len || len - p < ENTRY_PREFIX_LEN {
            return Err(IpfError::Io(crate::error::IoKind::UnexpectedEof));
        }
        let file_len = read_u16(s, p) as usize;
        let crc32 = read_u32(s, p + 2);
        let compressed_size = read_u32(s, p + 6);
        let uncompressed_size = read_u32(s, p + 10);
        let data_offset = read_u32(s, p + 14);
        let archive_len = read_u16(s, p + 18) as usize;
        let a = p + ENTRY_PREFIX_LEN;
        if len - a < archive_len {
            return Err(IpfError::Io(crate::error::IoKind::UnexpectedEof));
        }
        let archive_name = match text_of(copy_range(s, a, archive_len)) {
            Some(t) => t,
            None => {
                return Err(IpfError::Encoding);
            },
        };
        let f = a + archive_len;
        if len - f < file_len {
            return Err(IpfError::Io(crate::error::IoKind::UnexpectedEof));
        }
        let file_name = match text_of(copy_range(s, f, file_len)) {
            Some(t) => t,
            None => {
                return Err(IpfError::Encoding);
            },
        };
        Ok(
            (
                IpfEntryHeader {
                    file_name,
                    archive_name,
                    crc32,
                    compressed_size,
                    uncompressed_size,
                    data_offset,
                },
                f + file_len,
            ),
        )
    }
}


/// Position of the last `b` before `end`, or -1 when there is none.
pub open spec fn last_index_of(n: Seq<u8>, b: u8, end: int) -> int
    decreases end,
{
    if end <= 0 {
        -1
    } else if n[end - 1] == b {
        end - 1
    } else {
        last_index_of(n, b, end - 1)
    }
}

/// Length of `n` up to `end` without its trailing '/' bytes.
pub open spec fn strip_slashes(n: Seq<u8>, end: int) -> int
    decreases end,
{
    if end > 0 && n[end - 1] == 47 {
        strip_slashes(n, end - 1)
    } else {
        end
    }
}

/// Start of the last path component: just after the last '/' that precedes `end`.
pub open spec fn component_start(n: Seq<u8>, end: int) -> int {
    last_index_of(n, 47, end) + 1
}

/// The last component of a '/'-separated path, trailing separators ignored.
pub open spec fn final_component(n: Seq<u8>) -> Seq<u8> {
    let e = strip_slashes(n, n.len() as int);
    n.subrange(component_start(n, e), e)
}

/// The extension of a path: what follows the last '.' of its last component, when that
/// '.' is not the component's first byte; the components "." and ".." have none.
pub open spec fn extension_of(n: Seq<u8>) -> Option<Seq<u8>> {
    let f = final_component(n);
    let d = last_index_of(f, 46, f.len() as int);
    if f == seq![46u8, 46u8] || d <= 0 {
        None
    } else {
        Some(f.subrange(d + 1, f.len() as int))
    }
}

/// ASCII letters folded to lower case.
pub open spec fn ascii_lower(s: Seq<u8>) -> Seq<u8> {
    s.map_values(|b: u8| if 65 <= b <= 90 { (b + 32) as u8 } else { b })
}

/// Whether an entry was compressed and obfuscated when the archive was built: all but
/// the extensions jpg, fsb and mp3 (in any case).
pub open spec fn worth_compress(name: Seq<u8>) -> bool {
    match extension_of(name) {
        None => true,
        Some(e) => {
            let l = ascii_lower(e);
            !(l == seq![106u8, 112, 103] || l == seq![102u8, 115, 98] || l == seq![109u8, 112, 51])
        },
    }
}

/// Whether an entry holds a table: extension ies, in any case.
pub open spec fn is_table(name: Seq<u8>) -> bool {
    match extension_of(name) {
        None => false,
        Some(e) => ascii_lower(e) == seq![105u8, 101, 115],
    }
}

/// Position of the last `b` before `end`.
fn find_last(n: &[u8], b: u8, end: usize) -> (r: Option<usize>)
    requires
        end <= n@.len(),
    ensures
        match r {
            Some(i) => last_index_of(n@, b, end as int) == i && i < end && n@[i as int] == b,
            None => last_index_of(n@, b, end as int) == -1,
        },
{
    let mut i = end;
    while i > 0
        invariant
            i <= end <= n@.len(),
            last_index_of(n@, b, end as int) == last_index_of(n@, b, i as int),
        decreases i,
    {
        if n[i - 1] == b {
            return Some(i - 1);
        }
        i = i - 1;
    }
    None
}

/// Length of `n` without its trailing '/' bytes.
fn strip_end(n: &[u8]) -> (r: usize)
    ensures
        r == strip_slashes(n@, n@.len() as int),
        r <= n@.len(),
        r < n@.len() ==> n@[r as int] == 47,
{
    let mut e = n.len();
    while e > 0 && n[e - 1] == 47
        invariant
            e <= n@.len(),
            strip_slashes(n@, n@.len() as int) == strip_slashes(n@, e as int),
            e < n@.len() ==> n@[e as int] == 47,
        decreases e,
    {
        e = e - 1;
    }
    e
}

/// Where the last component of `n` lies.
fn component_range(n: &[u8]) -> (r: (usize, usize))
    ensures
        r.0 <= r.1 <= n@.len(),
        final_component(n@) == n@.subrange(r.0 as int, r.1 as int),
        r.1 == strip_slashes(n@, n@.len() as int),
        r.0 == component_start(n@, r.1 as int),
        r.0 > 0 ==> n@[r.0 - 1] == 47,
        r.1 < n@.len() ==> n@[r.1 as int] == 47,
{
    let e = strip_end(n);
    let s = match find_last(n, 47, e) {
        Some(i) => i + 1,
        None => 0,
    };
    (s, e)
}

/// Whether the ASCII-lowered `e` is the three bytes `a`, `b`, `c`.
fn lower_is(e: &[u8], a: u8, b: u8, c: u8) -> (r: bool)
    ensures
        r == (ascii_lower(e@) == seq![a, b, c]),
{
    if e.len() != 3 {
        assert(ascii_lower(e@).len() != 3);
        return false;
    }
    let x = if 65 <= e[0] && e[0] <= 90 { e[0] + 32 } else { e[0] };
    let y = if 65 <= e[1] && e[1] <= 90 { e[1] + 32 } else { e[1] };
    let z = if 65 <= e[2] && e[2] <= 90 { e[2] + 32 } else { e[2] };
    let ghost l = ascii_lower(e@);
    assert(l[0] == x && l[1] == y && l[2] == z);
    if x == a && y == b && z == c {
        assert(l =~= seq![a, b, c]);
        true
    } else {
        assert(l[0] != a || l[1] != b || l[2] != c);
        false
    }
}

/// Where the extension of `n` lies.
fn extension_range(n: &[u8]) -> (r: Option<(usize, usize)>)
    ensures
        match r {
            Some((a, b)) => a <= b <= n@.len() && extension_of(n@) == Some(n@.subrange(a as int, b as int))
                && a > 0 && n@[a - 1] == 46 && (b < n@.len() ==> n@[b as int] == 47),
            None => extension_of(n@) is None,
        },
{
    let (s, e) = component_range(n);
    let f = copy_range(n, s, e - s);
    assert(f@ == final_component(n@));
    if f.len() == 2 && f[0] == 46 && f[1] == 46 {
        assert(f@ =~= seq![46u8, 46u8]);
        return None;
    }
    match find_last(f.as_slice(), 46, f.len()) {
        Some(d) => {
            if d == 0 {
                None
            } else {
                assert(f@.subrange(d + 1, f@.len() as int) =~= n@.subrange(
                    (s + d + 1) as int,
                    e as int,
                ));
                Some((s + d + 1, e))
            }
        },
        None => None,
    }
}

impl IpfEntryHeader {
    /// The entry's extension, if its path has one.
    pub fn extension(&self) -> (r: Option<String>)
        ensures
            match r {
                Some(t) => extension_of(self@.file_name) == Some(encode_utf8(t@)),
                None => extension_of(self@.file_name) is None,
            },
    {
        let n = self.file_name.as_str().as_bytes();
        match extension_range(n) {
            Some((a, b)) => {
                proof {
                    vstd::utf8::encode_utf8_valid_utf8(self.file_name@);
                    lemma_valid_between(n@, a as int, b as int);
                }
                Some(known_text(copy_range(n, a, b - a)))
            },
            None => None,
        }
    }

    /// Whether the entry was compressed and obfuscated when the archive was built.
    pub fn worth_compress(&self) -> (r: bool)
        ensures
            r == worth_compress(self@.file_name),
    {
        let n = self.file_name.as_str().as_bytes();
        match extension_range(n) {
            Some((a, b)) => {
                let e = copy_range(n, a, b - a);
                let e = e.as_slice();
                !(lower_is(e, 106, 112, 103) || lower_is(e, 102, 115, 98) || lower_is(e, 109, 112, 51))
            },
            None => true,
        }
    }

    /// Whether the entry holds a table.
    pub fn is_table(&self) -> (r: bool)
        ensures
            r == is_table(self@.file_name),
    {
        let n = self.file_name.as_str().as_bytes();
        match extension_range(n) {
            Some((a, b)) => {
                let e = copy_range(n, a, b - a);
                lower_is(e.as_slice(), 105, 101, 115)
            },
            None => false,
        }
    }

    /// The label of the archive the entry belongs to.
    pub fn archive_name(&self) -> (r: String)
        ensures
            r@ == self.archive_name@,
    {
        self.archive_name.clone()
    }

    /// The entry's path relative to the archive.
    pub fn path(&self) -> (r: String)
        ensures
            r@ == self.file_name@,
    {
        self.file_name.clone()
    }

    /// The last '/'-separated part of the entry's path.
    pub fn file_name(&self) -> (r: String)
        ensures
            encode_utf8(r@) == {
                let n = self@.file_name;
                n.subrange(last_index_of(n, 47, n.len() as int) + 1, n.len() as int)
            },
    {
        let n = self.file_name.as_str().as_bytes();
        let a = match find_last(n, 47, n.len()) {
            Some(i) => i + 1,
            None => 0,
        };
        proof {
            vstd::utf8::encode_utf8_valid_utf8(self.file_name@);
            lemma_valid_between(n@, a as int, n@.len() as int);
        }
        known_text(copy_range(n, a, n.len() - a))
    }
}

/// The archive label joined with an entry path, as a path join does: an absolute path
/// replaces the label, and a separator is added only where the label does not end in one.
pub open spec fn join_path(a: Seq<u8>, p: Seq<u8>) -> Seq<u8> {
    if p.len() > 0 && p[0] == 47 {
        p
    } else if a.len() > 0 && a.last() != 47 {
        a + seq![47u8] + p
    } else {
        a + p
    }
}

impl IpfEntryHeader {
    /// The archive label joined with the entry path.
    pub fn full_path(&self) -> (r: String)
        ensures
            encode_utf8(r@) == join_path(self@.archive_name, self@.file_name),
    {
        let a = self.archive_name.as_str().as_bytes();
        let p = self.file_name.as_str().as_bytes();
        proof {
            vstd::utf8::encode_utf8_valid_utf8(self.file_name@);
            vstd::utf8::encode_utf8_valid_utf8(self.archive_name@);
            lemma_ascii_byte_valid(47);
            vstd::utf8::valid_utf8_concat(a@, seq![47u8]);
            vstd::utf8::valid_utf8_concat(a@ + seq![47u8], p@);
            vstd::utf8::valid_utf8_concat(a@, p@);
        }
        if p.len() > 0 && p[0] == 47 {
            return self.file_name.clone();
        }
        let mut out = copy_range(a, 0, a.len());
        assert(out@ =~= a@);
        if a.len() > 0 && a[a.len() - 1] != 47 {
            out.push(47);
            assert(out@ =~= a@ + seq![47u8]);
        }
        crate::wire::push_all(&mut out, p);
        assert(out@ == join_path(a@, p@));
        known_text(out)
    }
}


/// The bytes of an entry header record.
pub open spec fn entry_bytes(h: IpfEntryHeaderView) -> Seq<u8> {
    le16_bytes(h.file_name.len() as int) + le32_bytes(h.crc32 as int) + le32_bytes(
        h.compressed_size as int,
    ) + le32_bytes(h.uncompressed_size as int) + le32_bytes(h.data_offset as int) + le16_bytes(
        h.archive_name.len() as int,
    ) + h.archive_name + h.file_name
}

/// Reading back an entry header record gives the header it was written from.
#[verifier::rlimit(50)]
pub proof fn lemma_entry_round_trip(h: IpfEntryHeaderView)
    requires
        h.file_name.len() <= 0xFFFF,
        h.archive_name.len() <= 0xFFFF,
        valid_utf8(h.file_name),
        valid_utf8(h.archive_name),
    ensures
        spec_entry_header(entry_bytes(h), 0) == Ok::<(IpfEntryHeaderView, int), IpfError>(
            (h, entry_bytes(h).len() as int),
        ),
{
    let b = entry_bytes(h);
    let a = 20 + h.archive_name.len() as int;
    assert(b.subrange(0, 2) =~= le16_bytes(h.file_name.len() as int));
    assert(b.subrange(2, 6) =~= le32_bytes(h.crc32 as int));
    assert(b.subrange(6, 10) =~= le32_bytes(h.compressed_size as int));
    assert(b.subrange(10, 14) =~= le32_bytes(h.uncompressed_size as int));
    assert(b.subrange(14, 18) =~= le32_bytes(h.data_offset as int));
    assert(b.subrange(18, 20) =~= le16_bytes(h.archive_name.len() as int));
    lemma_le16_round_trip(b, 0, h.file_name.len() as int);
    lemma_le32_round_trip(b, 2, h.crc32 as int);
    lemma_le32_round_trip(b, 6, h.compressed_size as int);
    lemma_le32_round_trip(b, 10, h.uncompressed_size as int);
    lemma_le32_round_trip(b, 14, h.data_offset as int);
    lemma_le16_round_trip(b, 18, h.archive_name.len() as int);
    assert(b.subrange(20, a) =~= h.archive_name);
    assert(b.subrange(a, b.len() as int) =~= h.file_name);
}

impl IpfEntryHeader {
    /// The header as the record the archive directory stores.
    pub fn into_bytes(self) -> (r: Vec<u8>)
        requires
            self@.file_name.len() <= 0xFFFF,
            self@.archive_name.len() <= 0xFFFF,
        ensures
            r@ == entry_bytes(self@),
    {
        let a = self.archive_name.as_str().as_bytes();
        let f = self.file_name.as_str().as_bytes();
        let mut v: Vec<u8> = Vec::new();
        push_u16(&mut v, f.len() as u16);
        push_u32(&mut v, self.crc32);
        push_u32(&mut v, self.compressed_size);
        push_u32(&mut v, self.uncompressed_size);
        push_u32(&mut v, self.data_offset);
        push_u16(&mut v, a.len() as u16);
        push_all(&mut v, a);
        push_all(&mut v, f);
        v
    }

    /// A copy of the header.
    pub fn duplicate(&self) -> (r: IpfEntryHeader)
        ensures
            r@ == self@,
    {
        IpfEntryHeader {
            file_name: self.file_name.clone(),
            archive_name: self.archive_name.clone(),
            crc32: self.crc32,
            compressed_size: self.compressed_size,
            uncompressed_size: self.uncompressed_size,
            data_offset: self.data_offset,
        }
    }
}

/// What reading an entry yields.
pub enum EntryContentView {
    Bytes(Seq<u8>),
    Table(IesTableView),
}

/// Decoded content of an entry: plain bytes, or the table a table entry holds.
pub enum EntryContent {
    Bytes(Vec<u8>),
    Table(IesTable),
}

impl View for EntryContent {
    type V = EntryContentView;

    open spec fn view(&self) -> EntryContentView {
        match self {
            EntryContent::Bytes(b) => EntryContentView::Bytes(b@),
            EntryContent::Table(t) => EntryContentView::Table(t@),
        }
    }
}

/// Inflated entry bytes as the caller sees them: decoded as a table for a table entry,
/// unchanged otherwise.
pub open spec fn spec_decode_plain(plain: Seq<u8>, table: bool) -> Result<EntryContentView, IpfError> {
    if table {
        match spec_table(plain) {
            Ok(t) => Ok(EntryContentView::Table(t)),
            Err(e) => Err(e),
        }
    } else {
        Ok(EntryContentView::Bytes(plain))
    }
}

/// What an entry reader holds: the header, the entry's stored bytes, the keystream and
/// the cipher mode.
pub struct IpfEntryView {
    pub header: IpfEntryHeaderView,
    pub raw: Seq<u8>,
    pub keys: Seq<u8>,
    pub mode: CipherMode,
}

/// The mode an entry is read in unless the caller forces one.
pub open spec fn default_mode(name: Seq<u8>) -> CipherMode {
    if worth_compress(name) {
        CipherMode::Inverse
    } else {
        CipherMode::Stored
    }
}

/// Reading a whole entry: the stored bytes go through the cipher; an entry worth
/// compressing is then inflated and, for a table entry, decoded as a table.
pub open spec fn spec_read(e: IpfEntryView) -> Result<EntryContentView, IpfError> {
    let d = transform(e.keys, e.mode, 0, e.raw);
    if !worth_compress(e.header.file_name) {
        Ok(EntryContentView::Bytes(d))
    } else {
        match inflated(d) {
            None => Err(IpfError::Io(IoKind::InvalidData)),
            Some(plain) => spec_decode_plain(plain, is_table(e.header.file_name)),
        }
    }
}

/// Turns an entry's inflated bytes into what the caller reads: for a table entry the
/// decoded table, otherwise the bytes themselves.
pub fn decode_plain(plain: Vec<u8>, table: bool) -> (r: Result<EntryContent, IpfError>)
    ensures
        match r {
            Ok(c) => spec_decode_plain(plain@, table) == Ok::<EntryContentView, IpfError>(c@),
            Err(e) => spec_decode_plain(plain@, table) == Err::<EntryContentView, IpfError>(e),
        },
{
    if table {
        match IesTable::parse(plain.as_slice()) {
            Ok(t) => Ok(EntryContent::Table(t)),
            Err(e) => Err(e),
        }
    } else {
        Ok(EntryContent::Bytes(plain))
    }
}

/// One packed file, ready to be read.
pub struct IpfEntry {
    header: IpfEntryHeader,
    raw: Vec<u8>,
    crypto: IpfCrypto,
}

impl View for IpfEntry {
    type V = IpfEntryView;

    closed spec fn view(&self) -> IpfEntryView {
        IpfEntryView {
            header: self.header@,
            raw: self.raw@,
            keys: self.crypto.keys(),
            mode: self.crypto.spec_mode(),
        }
    }
}

impl IpfEntry {
    /// An entry reader over the entry's stored bytes, in the mode its extension calls for.
    pub fn new(header: IpfEntryHeader, raw: Vec<u8>, keystream: Vec<u8>) -> (r: IpfEntry)
        ensures
            r@ == (IpfEntryView {
                header: header@,
                raw: raw@,
                keys: keystream@,
                mode: default_mode(header@.file_name),
            }),
    {
        let mut crypto = IpfCrypto::new(keystream);
        if !header.worth_compress() {
            crypto.stored();
        }
        IpfEntry { header, raw, crypto }
    }

    /// The entry's header.
    pub fn header(&self) -> (r: &IpfEntryHeader)
        ensures
            r@ == self@.header,
    {
        &self.header
    }

    /// Label of the archive, e.g. "example.ipf". Sanitize before use as a path.
    pub fn archive_name(&self) -> (r: String)
        ensures
            encode_utf8(r@) == self@.header.archive_name,
    {
        self.header.archive_name()
    }

    /// Last part of the entry's path, e.g. "event1234.png". Sanitize before use as a path.
    pub fn file_name(&self) -> (r: String)
        ensures
            encode_utf8(r@) == {
                let n = self@.header.file_name;
                n.subrange(last_index_of(n, 47, n.len() as int) + 1, n.len() as int)
            },
    {
        self.header.file_name()
    }

    /// Path of the entry without the archive label, e.g. "event_banner/event1234.png".
    /// Sanitize before use as a path.
    pub fn path(&self) -> (r: String)
        ensures
            encode_utf8(r@) == self@.header.file_name,
    {
        self.header.path()
    }

    /// Archive label joined with the entry's path, e.g.
    /// "example.ipf/event_banner/event1234.png". Sanitize before use as a path.
    pub fn full_path(&self) -> (r: String)
        ensures
            encode_utf8(r@) == join_path(self@.header.archive_name, self@.header.file_name),
    {
        self.header.full_path()
    }

    /// Forces the cipher to obfuscate.
    pub fn encrypt(&mut self)
        ensures
            final(self)@ == (IpfEntryView { mode: CipherMode::Forward, ..old(self)@ }),
    {
        self.crypto.encrypt();
    }

    /// Forces the cipher to remove obfuscation.
    pub fn decrypt(&mut self)
        ensures
            final(self)@ == (IpfEntryView { mode: CipherMode::Inverse, ..old(self)@ }),
    {
        self.crypto.decrypt();
    }

    /// Forces the cipher to pass bytes through.
    pub fn stored(&mut self)
        ensures
            final(self)@ == (IpfEntryView { mode: CipherMode::Stored, ..old(self)@ }),
    {
        self.crypto.stored();
    }

    /// Reads and decodes the whole entry.
    pub fn read_all(&self) -> (r: Result<EntryContent, IpfError>)
        ensures
            match r {
                Ok(c) => spec_read(self@) == Ok::<EntryContentView, IpfError>(c@),
                Err(e) => spec_read(self@) == Err::<EntryContentView, IpfError>(e),
            },
    {
        let d = self.crypto.apply(0, self.raw.as_slice());
        if !self.header.worth_compress() {
            return Ok(EntryContent::Bytes(d));
        }
        match inflate(d.as_slice()) {
            None => Err(IpfError::Io(IoKind::InvalidData)),
            Some(plain) => decode_plain(plain, self.header.is_table()),
        }
    }
}

} // verus!
