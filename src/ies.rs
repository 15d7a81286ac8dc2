//! The IES table format: a fixed header, a column directory and rows of cells.
use vstd::prelude::*;
use vstd::utf8::{decode_utf8, encode_utf8, valid_utf8};

use crate::error::{eof, InvalidReason, IpfError};
use crate::wire::{copy_range, le16, le32, push_all, read_u16, read_u32, utf8_string};

verus! {

/// Size of the fixed table header.
pub const HEADER_LEN: usize = 154;

/// Size of one column descriptor.
pub const COLUMN_LEN: usize = 136;

/// A raw text field with its obfuscation removed: cut at the first raw zero byte, every
/// byte before it XOR 1.
pub open spec fn deobfuscate(raw: Seq<u8>) -> Seq<u8> {
    raw.take(field_end(raw, 0)).map_values(|b: u8| b ^ 1u8)
}

/// Index of the first zero byte at or after `i`, or the length when there is none.
pub open spec fn field_end(raw: Seq<u8>, i: int) -> int
    decreases raw.len() - i,
{
    if i < 0 || i >= raw.len() {
        raw.len() as int
    } else if raw[i] == 0 {
        i
    } else {
        field_end(raw, i + 1)
    }
}

/// The text an obfuscated field holds, or `None` when it is not valid UTF-8.
pub open spec fn field_text(raw: Seq<u8>) -> Option<Seq<char>> {
    let d = deobfuscate(raw);
    if valid_utf8(d) {
        Some(decode_utf8(d))
    } else {
        None
    }
}

/// The bytes without their trailing zero bytes.
pub open spec fn trim_zeros(b: Seq<u8>) -> Seq<u8>
    decreases b.len(),
{
    if b.len() > 0 && b.last() == 0 {
        trim_zeros(b.drop_last())
    } else {
        b
    }
}

/// Removes the obfuscation of a text field and decodes it.
pub fn decrypt(bytes: Vec<u8>) -> (r: Result<String, IpfError>)
    ensures
        match r {
            Ok(s) => field_text(bytes@) == Some(s@),
            Err(e) => field_text(bytes@).is_none() && e == IpfError::Encoding,
        },
{
    let mut out: Vec<u8> = Vec::with_capacity(bytes.len());
    let mut i: usize = 0;
    while i < bytes.len()
        invariant
            i <= bytes@.len(),
            field_end(bytes@, 0) == field_end(bytes@, i as int),
            out@ == bytes@.take(i as int).map_values(|b: u8| b ^ 1u8),
        ensures
            i <= bytes@.len(),
            i < bytes@.len() ==> bytes@[i as int] == 0,
            field_end(bytes@, 0) == field_end(bytes@, i as int),
            out@ == bytes@.take(i as int).map_values(|b: u8| b ^ 1u8),
        decreases bytes@.len() - i,
    {
        if bytes[i] == 0 {
            break;
        }
        out.push(bytes[i] ^ 1);
        i = i + 1;
        assert(out@ =~= bytes@.take(i as int).map_values(|b: u8| b ^ 1u8));
    }
    assert(field_end(bytes@, i as int) == i);
    assert(out@ =~= deobfuscate(bytes@));
    match utf8_string(out) {
        Some(s) => Ok(s),
        None => Err(IpfError::Encoding),
    }
}

/// What a table header holds.
pub struct IesHeaderView {
    pub name: Seq<char>,
    pub column_offset: u32,
    pub row_offset: u32,
    pub file_size: u32,
    pub row_count: u16,
    pub column_count: u16,
    pub int_column_count: u16,
    pub str_column_count: u16,
}

/// The header at the start of a table blob.
pub open spec fn spec_header(s: Seq<u8>) -> Result<IesHeaderView, IpfError> {
    if s.len() < HEADER_LEN {
        Err(eof())
    } else if !valid_utf8(s.take(128)) {
        Err(IpfError::Encoding)
    } else {
        let hint1 = le32(s, 132);
        let hint2 = le32(s, 136);
        let file_size = le32(s, 140);
        if file_size - hint1 - hint2 < 0 {
            Err(IpfError::InvalidArchive(InvalidReason::TableOffsets))
        } else {
            Ok(
                IesHeaderView {
                    name: decode_utf8(trim_zeros(s.take(128))),
                    column_offset: (file_size - hint1 - hint2) as u32,
                    row_offset: (file_size - hint2) as u32,
                    file_size: file_size as u32,
                    row_count: le16(s, 146) as u16,
                    column_count: le16(s, 148) as u16,
                    int_column_count: le16(s, 150) as u16,
                    str_column_count: le16(s, 152) as u16,
                },
            )
        }
    }
}

/// The fixed header of a table.
pub struct IesHeader {
    /// Table name, with its zero padding removed.
    pub name: String,
    pub column_offset: u32,
    pub row_offset: u32,
    pub file_size: u32,
    pub row_count: u16,
    pub column_count: u16,
    pub int_column_count: u16,
    pub str_column_count: u16,
}

impl View for IesHeader {
    type V = IesHeaderView;

    open spec fn view(&self) -> IesHeaderView {
        IesHeaderView {
            name: self.name@,
            column_offset: self.column_offset,
            row_offset: self.row_offset,
            file_size: self.file_size,
            row_count: self.row_count,
            column_count: self.column_count,
            int_column_count: self.int_column_count,
            str_column_count: self.str_column_count,
        }
    }
}

/// Length of `b` once its trailing zero bytes are dropped.
fn trimmed_len(b: &Vec<u8>) -> (r: usize)
    ensures
        r <= b@.len(),
        trim_zeros(b@) == b@.take(r as int),
        r < b@.len() ==> b@[r as int] == 0,
{
    let mut r = b.len();
    assert(b@.take(r as int) =~= b@);
    while r > 0 && b[r - 1] == 0
        invariant
            r <= b@.len(),
            trim_zeros(b@) == trim_zeros(b@.take(r as int)),
            r < b@.len() ==> b@[r as int] == 0,
        decreases r,
    {
        assert(b@.take(r as int).drop_last() =~= b@.take(r - 1));
        r = r - 1;
    }
    r
}

impl IesHeader {
    /// Parses the header at the start of a table blob.
    pub fn parse(s: &[u8]) -> (r: Result<IesHeader, IpfError>)
        ensures
            match r {
                Ok(h) => spec_header(s@) == Ok::<IesHeaderView, IpfError>(h@),
                Err(e) => spec_header(s@) == Err::<IesHeaderView, IpfError>(e),
            },
    {
        if s.len() < HEADER_LEN {
            return Err(IpfError::Io(crate::error::IoKind::UnexpectedEof));
        }
        let raw_name = copy_range(s, 0, 128);
        assert(raw_name@ =~= s@.take(128));
        let t = trimmed_len(&raw_name);
        let trimmed = copy_range(raw_name.as_slice(), 0, t);
        assert(trimmed@ =~= trim_zeros(raw_name@));
        if utf8_string(raw_name).is_none() {
            return Err(IpfError::Encoding);
        }
        proof {
            lemma_trim_keeps_valid(s@.take(128), t as int);
        }
        let name = match utf8_string(trimmed) {
            Some(n) => n,
            None => {
                return Err(IpfError::Encoding);
            },
        };
        let hint1 = read_u32(s, 132);
        let hint2 = read_u32(s, 136);
        let file_size = read_u32(s, 140);
        if hint2 > file_size || hint1 > file_size - hint2 {
            return Err(IpfError::InvalidArchive(InvalidReason::TableOffsets));
        }
        Ok(
            IesHeader {
                name,
                column_offset: file_size - hint2 - hint1,
                row_offset: file_size - hint2,
                file_size,
                row_count: read_u16(s, 146),
                column_count: read_u16(s, 148),
                int_column_count: read_u16(s, 150),
                str_column_count: read_u16(s, 152),
            },
        )
    }
}

/// Dropping trailing zero bytes keeps a valid UTF-8 run valid.
proof fn lemma_trim_keeps_valid(b: Seq<u8>, t: int)
    requires
        valid_utf8(b),
        0 <= t <= b.len(),
        t < b.len() ==> b[t] == 0,
    ensures
        valid_utf8(b.take(t)),
{
    if t < b.len() {
        vstd::utf8::is_char_boundary_iff_not_is_continuation_byte(b, t);
    } else {
        vstd::utf8::is_char_boundary_start_end_of_seq(b);
    }
    vstd::utf8::valid_utf8_split(b, t);
    assert(b.subrange(0, t) =~= b.take(t));
}

/// What a column descriptor holds.
pub struct IesColumnView {
    pub name1: Seq<char>,
    pub name2: Seq<char>,
    pub is_string: bool,
    pub order: u16,
}

/// The column descriptor at `p`.
pub open spec fn spec_column(s: Seq<u8>, p: int) -> Result<IesColumnView, IpfError> {
    if p < 0 || p + COLUMN_LEN > s.len() {
        Err(eof())
    } else {
        match field_text(s.subrange(p, p + 64)) {
            None => Err(IpfError::Encoding),
            Some(name1) => match field_text(s.subrange(p + 64, p + 128)) {
                None => Err(IpfError::Encoding),
                Some(name2) => Ok(
                    IesColumnView {
                        name1,
                        name2,
                        is_string: s[p + 128] != 0,
                        order: le16(s, p + 134) as u16,
                    },
                ),
            },
        }
    }
}

/// The first `n` column descriptors from `p` on, in the order they are stored.
pub open spec fn spec_columns(s: Seq<u8>, p: int, n: nat) -> Result<Seq<IesColumnView>, IpfError>
    decreases n,
{
    if n == 0 {
        Ok(seq![])
    } else {
        match spec_columns(s, p, (n - 1) as nat) {
            Ok(cs) => match spec_column(s, p + COLUMN_LEN * (n - 1)) {
                Ok(c) => Ok(cs.push(c)),
                Err(e) => Err(e),
            },
            Err(e) => Err(e),
        }
    }
}

/// Once reading descriptors failed, reading more fails the same way.
proof fn lemma_columns_err(s: Seq<u8>, p: int, k: nat, n: nat)
    requires
        k <= n,
        spec_columns(s, p, k) is Err,
    ensures
        spec_columns(s, p, n) == spec_columns(s, p, k),
    decreases n - k,
{
    if k < n {
        lemma_columns_err(s, p, k, (n - 1) as nat);
    }
}

/// A column descriptor.
pub struct IesColumn {
    /// Display name.
    pub name1: String,
    /// Second name: mostly the first one, sometimes with a "CT_" prefix.
    pub name2: String,
    pub is_string: bool,
    pub order: u16,
}

impl View for IesColumn {
    type V = IesColumnView;

    open spec fn view(&self) -> IesColumnView {
        IesColumnView {
            name1: self.name1@,
            name2: self.name2@,
            is_string: self.is_string,
            order: self.order,
        }
    }
}

impl IesColumn {
    /// Parses the column descriptor at `p`.
    pub fn parse(s: &[u8], p: usize) -> (r: Result<IesColumn, IpfError>)
        ensures
            match r {
                Ok(c) => spec_column(s@, p as int) == Ok::<IesColumnView, IpfError>(c@),
                Err(e) => spec_column(s@, p as int) == Err::<IesColumnView, IpfError>(e),
            },
    {
        if p > s.len() || s.len() - p < COLUMN_LEN {
            return Err(IpfError::Io(crate::error::IoKind::UnexpectedEof));
        }
        let name1 = match decrypt(copy_range(s, p, 64)) {
            Ok(n) => n,
            Err(e) => {
                return Err(e);
            },
        };
        let name2 = match decrypt(copy_range(s, p + 64, 64)) {
            Ok(n) => n,
            Err(e) => {
                return Err(e);
            },
        };
        let is_string = s[p + 128] != 0;
        let order = read_u16(s, p + 134);
        Ok(IesColumn { name1, name2, is_string, order })
    }
}

/// The views of a run of columns.
pub open spec fn column_views(v: Seq<IesColumn>) -> Seq<IesColumnView> {
    v.map_values(|c: IesColumn| c@)
}

/// Reads `n` column descriptors from `p` on.
fn parse_columns(s: &[u8], p: usize, n: u16) -> (r: Result<Vec<IesColumn>, IpfError>)
    ensures
        match r {
            Ok(v) => spec_columns(s@, p as int, n as nat) == Ok::<Seq<IesColumnView>, IpfError>(
                column_views(v@),
            ),
            Err(e) => spec_columns(s@, p as int, n as nat) == Err::<Seq<IesColumnView>, IpfError>(
                e,
            ),
        },
{
    let len = s.len();
    let mut v: Vec<IesColumn> = Vec::new();
    let mut i: u16 = 0;
    let mut pos: usize = p;
    assert(column_views(v@) =~= seq![]);
    while i < n
        invariant
            len == s@.len(),
            i <= n,
            pos == p + COLUMN_LEN * i,
            pos <= s@.len() || i == 0,
            spec_columns(s@, p as int, i as nat) == Ok::<Seq<IesColumnView>, IpfError>(
                column_views(v@),
            ),
        decreases n - i,
    {
        let c = IesColumn::parse(s, pos);
        match c {
            Ok(c) => {
                let ghost before = column_views(v@);
                v.push(c);
                i = i + 1;
                pos = pos + COLUMN_LEN;
                assert(column_views(v@) =~= before.push(c@));
            },
            Err(e) => {
                proof {
                    lemma_columns_err(s@, p as int, (i + 1) as nat, n as nat);
                }
                return Err(e);
            },
        }
    }
    Ok(v)
}

/// The columns whose string flag is `strings`, in the order given.
pub open spec fn group(cs: Seq<IesColumnView>, strings: bool) -> Seq<IesColumnView>
    decreases cs.len(),
{
    if cs.len() == 0 {
        seq![]
    } else if cs.last().is_string == strings {
        group(cs.drop_last(), strings).push(cs.last())
    } else {
        group(cs.drop_last(), strings)
    }
}

/// Inserts `c` after the trailing run of columns whose order is above its own.
pub open spec fn insert_by_order(s: Seq<IesColumnView>, c: IesColumnView) -> Seq<IesColumnView>
    decreases s.len(),
{
    if s.len() == 0 {
        seq![c]
    } else if s.last().order <= c.order {
        s.push(c)
    } else {
        insert_by_order(s.drop_last(), c).push(s.last())
    }
}

/// Stable sort by ascending order: equal orders keep their relative position.
pub open spec fn sort_by_order(s: Seq<IesColumnView>) -> Seq<IesColumnView>
    decreases s.len(),
{
    if s.len() == 0 {
        seq![]
    } else {
        insert_by_order(sort_by_order(s.drop_last()), s.last())
    }
}

/// Display order of columns: the numeric group sorted by order, then the string group
/// sorted by order.
pub open spec fn spec_order_columns(cs: Seq<IesColumnView>) -> Seq<IesColumnView> {
    sort_by_order(group(cs, false)) + sort_by_order(group(cs, true))
}

/// Columns sorted by ascending order.
pub open spec fn sorted_by_order(s: Seq<IesColumnView>) -> bool {
    forall|i: int, j: int| 0 <= i < j < s.len() ==> s[i].order <= s[j].order
}

proof fn lemma_group_flag(cs: Seq<IesColumnView>, strings: bool)
    ensures
        forall|k: int| 0 <= k < group(cs, strings).len() ==> group(cs, strings)[k].is_string == strings,
    decreases cs.len(),
{
    if cs.len() > 0 {
        let g = group(cs.drop_last(), strings);
        lemma_group_flag(cs.drop_last(), strings);
        assert forall|k: int| 0 <= k < group(cs, strings).len() implies group(
            cs,
            strings,
        )[k].is_string == strings by {
            if k < g.len() {
                assert(group(cs, strings)[k] == g[k]);
            }
        }
    }
}

proof fn lemma_insert_flag(s: Seq<IesColumnView>, c: IesColumnView, strings: bool)
    requires
        forall|k: int| 0 <= k < s.len() ==> s[k].is_string == strings,
        c.is_string == strings,
    ensures
        insert_by_order(s, c).len() == s.len() + 1,
        forall|k: int|
            0 <= k < insert_by_order(s, c).len() ==> insert_by_order(s, c)[k].is_string == strings,
    decreases s.len(),
{
    if s.len() > 0 && s.last().order > c.order {
        lemma_insert_flag(s.drop_last(), c, strings);
    }
}

proof fn lemma_sort_flag(s: Seq<IesColumnView>, strings: bool)
    requires
        forall|k: int| 0 <= k < s.len() ==> s[k].is_string == strings,
    ensures
        sort_by_order(s).len() == s.len(),
        forall|k: int| 0 <= k < sort_by_order(s).len() ==> sort_by_order(s)[k].is_string == strings,
    decreases s.len(),
{
    if s.len() > 0 {
        lemma_sort_flag(s.drop_last(), strings);
        lemma_insert_flag(sort_by_order(s.drop_last()), s.last(), strings);
    }
}

proof fn lemma_insert_bound(s: Seq<IesColumnView>, c: IesColumnView, m: u16)
    requires
        forall|k: int| 0 <= k < s.len() ==> s[k].order <= m,
        c.order <= m,
    ensures
        insert_by_order(s, c).len() == s.len() + 1,
        forall|k: int| 0 <= k < insert_by_order(s, c).len() ==> insert_by_order(s, c)[k].order <= m,
    decreases s.len(),
{
    if s.len() > 0 && s.last().order > c.order {
        lemma_insert_bound(s.drop_last(), c, m);
    }
}

proof fn lemma_insert_sorted(s: Seq<IesColumnView>, c: IesColumnView)
    requires
        sorted_by_order(s),
    ensures
        sorted_by_order(insert_by_order(s, c)),
    decreases s.len(),
{
    if s.len() > 0 && s.last().order > c.order {
        let t = s.drop_last();
        lemma_insert_sorted(t, c);
        lemma_insert_bound(t, c, s.last().order);
        let r = insert_by_order(t, c);
        assert(insert_by_order(s, c) == r.push(s.last()));
    }
}

proof fn lemma_sort_sorted(s: Seq<IesColumnView>)
    ensures
        sorted_by_order(sort_by_order(s)),
    decreases s.len(),
{
    if s.len() > 0 {
        lemma_sort_sorted(s.drop_last());
        lemma_insert_sorted(sort_by_order(s.drop_last()), s.last());
    }
}

/// In display order every numeric column comes before every string column, whatever
/// their order values, and each group is sorted by ascending order.
pub proof fn lemma_display_order(cs: Seq<IesColumnView>)
    ensures
        ({
            let r = spec_order_columns(cs);
            let n = sort_by_order(group(cs, false)).len() as int;
            &&& forall|i: int| 0 <= i < n ==> !r[i].is_string
            &&& forall|i: int| n <= i < r.len() ==> r[i].is_string
            &&& forall|i: int, j: int| 0 <= i < j < r.len() && r[i].is_string ==> r[j].is_string
            &&& sorted_by_order(r.take(n))
            &&& sorted_by_order(r.skip(n))
        }),
{
    let nums = group(cs, false);
    let strs = group(cs, true);
    lemma_group_flag(cs, false);
    lemma_group_flag(cs, true);
    lemma_sort_flag(nums, false);
    lemma_sort_flag(strs, true);
    lemma_sort_sorted(nums);
    lemma_sort_sorted(strs);
    let r = spec_order_columns(cs);
    let n = sort_by_order(nums).len() as int;
    assert(r.take(n as int) =~= sort_by_order(nums));
    assert(r.skip(n as int) =~= sort_by_order(strs));
}

/// Where `insert_by_order` puts its column.
proof fn lemma_insert_at(s: Seq<IesColumnView>, c: IesColumnView, j: int)
    requires
        0 <= j <= s.len(),
        forall|k: int| j <= k < s.len() ==> s[k].order > c.order,
        j > 0 ==> s[j - 1].order <= c.order,
    ensures
        insert_by_order(s, c) == s.insert(j, c),
    decreases s.len(),
{
    if s.len() == 0 {
        assert(s.insert(j, c) =~= seq![c]);
    } else if j == s.len() {
        assert(s.insert(j, c) =~= s.push(c));
    } else {
        lemma_insert_at(s.drop_last(), c, j);
        assert(s.drop_last().insert(j, c).push(s.last()) =~= s.insert(j, c));
    }
}

/// Inserts `c` into `v` as `insert_by_order` does.
fn insert_column(v: &mut Vec<IesColumn>, c: IesColumn)
    ensures
        column_views(final(v)@) == insert_by_order(column_views(old(v)@), c@),
{
    let mut j = v.len();
    while j > 0 && v[j - 1].order > c.order
        invariant
            j <= v@.len(),
            forall|k: int| j <= k < v@.len() ==> v@[k].order > c.order,
        decreases j,
    {
        j = j - 1;
    }
    proof {
        lemma_insert_at(column_views(v@), c@, j as int);
    }
    let ghost before = v@;
    v.insert(j, c);
    assert(column_views(v@) =~= column_views(before).insert(j as int, c@));
}

/// Puts columns in display order: numeric columns before string columns, each group
/// sorted stably by its order value.
pub fn order_columns(cols: Vec<IesColumn>) -> (r: Vec<IesColumn>)
    ensures
        column_views(r@) == spec_order_columns(column_views(cols@)),
{
    let ghost orig = cols@;
    let mut cols = cols;
    let mut rev: Vec<IesColumn> = Vec::new();
    while cols.len() > 0
        invariant
            cols@ == orig.take(cols@.len() as int),
            cols@.len() <= orig.len(),
            rev@.len() + cols@.len() == orig.len(),
            forall|j: int| 0 <= j < rev@.len() ==> rev@[j] == orig[orig.len() - 1 - j],
        decreases cols@.len(),
    {
        let c = cols.pop().unwrap();
        rev.push(c);
        assert(cols@ =~= orig.take(cols@.len() as int));
    }
    let mut nums: Vec<IesColumn> = Vec::new();
    let mut strs: Vec<IesColumn> = Vec::new();
    let ghost mut k: int = 0;
    assert(column_views(orig.take(0)) =~= seq![]);
    while rev.len() > 0
        invariant
            0 <= k <= orig.len(),
            rev@.len() + k == orig.len(),
            forall|j: int| 0 <= j < rev@.len() ==> rev@[j] == orig[orig.len() - 1 - j],
            column_views(nums@) == sort_by_order(group(column_views(orig.take(k)), false)),
            column_views(strs@) == sort_by_order(group(column_views(orig.take(k)), true)),
        decreases rev@.len(),
    {
        let c = rev.pop().unwrap();
        proof {
            let pre = column_views(orig.take(k));
            let post = column_views(orig.take(k + 1));
            assert(post =~= pre.push(c@));
            assert(post.drop_last() =~= pre);
            assert(c.is_string ==> group(post, true).drop_last() =~= group(pre, true));
            assert(!c.is_string ==> group(post, false).drop_last() =~= group(pre, false));
        }
        if c.is_string {
            insert_column(&mut strs, c);
        } else {
            insert_column(&mut nums, c);
        }
        proof {
            k = k + 1;
        }
    }
    assert(orig.take(k) =~= orig);
    let ghost nv = nums@;
    let ghost sv = strs@;
    nums.append(&mut strs);
    assert(column_views(nums@) =~= column_views(nv) + column_views(sv));
    nums
}

/// What a cell holds.
pub enum IesCellView {
    Num(u32),
    Str(Seq<char>),
}

/// One cell of a row.
pub enum IesCell {
    /// The bit pattern of a little-endian 32-bit IEEE-754 float.
    Num(u32),
    /// De-obfuscated text.
    Str(String),
}

impl View for IesCell {
    type V = IesCellView;

    open spec fn view(&self) -> IesCellView {
        match self {
            IesCell::Num(b) => IesCellView::Num(*b),
            IesCell::Str(s) => IesCellView::Str(s@),
        }
    }
}

/// What a row holds.
pub struct IesRowView {
    pub class_name: Seq<char>,
    pub cells: Seq<IesCellView>,
}

/// The views of a run of cells.
pub open spec fn cell_views(v: Seq<IesCell>) -> Seq<IesCellView> {
    v.map_values(|c: IesCell| c@)
}

/// One row: a class label and its cells, numeric cells first.
pub struct IesRow {
    /// Class label of the row; it is not one of the cells.
    pub class_name: String,
    pub cells: Vec<IesCell>,
}

impl View for IesRow {
    type V = IesRowView;

    open spec fn view(&self) -> IesRowView {
        IesRowView { class_name: self.class_name@, cells: cell_views(self.cells@) }
    }
}

/// The views of a run of rows.
pub open spec fn row_views(v: Seq<IesRow>) -> Seq<IesRowView> {
    v.map_values(|r: IesRow| r@)
}

/// A length-prefixed obfuscated text at `p`, and the position after it.
pub open spec fn spec_text(s: Seq<u8>, p: int) -> Result<(Seq<char>, int), IpfError> {
    if p < 0 || p + 2 > s.len() {
        Err(eof())
    } else {
        let n = le16(s, p);
        if p + 2 + n > s.len() {
            Err(eof())
        } else {
            match field_text(s.subrange(p + 2, p + 2 + n)) {
                None => Err(IpfError::Encoding),
                Some(t) => Ok((t, p + 2 + n)),
            }
        }
    }
}

/// `n` string cells from `p` on, and the position after them.
pub open spec fn spec_str_cells(s: Seq<u8>, p: int, n: nat) -> Result<
    (Seq<IesCellView>, int),
    IpfError,
>
    decreases n,
{
    if n == 0 {
        Ok((seq![], p))
    } else {
        match spec_str_cells(s, p, (n - 1) as nat) {
            Ok((cs, q)) => match spec_text(s, q) {
                Ok((t, e)) => Ok((cs.push(IesCellView::Str(t)), e)),
                Err(x) => Err(x),
            },
            Err(x) => Err(x),
        }
    }
}

/// The numeric cell at `p`: four bytes taken as a float's bit pattern.
pub open spec fn num_cell(s: Seq<u8>, p: int) -> IesCellView {
    IesCellView::Num(le32(s, p) as u32)
}

/// The row at `p`, and the position after its last cell (before the trailer of
/// `sc` bytes that every row carries).
pub open spec fn spec_row(s: Seq<u8>, p: int, ic: nat, sc: nat) -> Result<
    (IesRowView, int),
    IpfError,
> {
    if p < 0 || p + 6 > s.len() {
        Err(eof())
    } else {
        let cl = le16(s, p + 4);
        if p + 6 + cl > s.len() {
            Err(eof())
        } else {
            match field_text(s.subrange(p + 6, p + 6 + cl)) {
                None => Err(IpfError::Encoding),
                Some(class_name) => {
                    let q = p + 6 + cl;
                    if q + 4 * ic > s.len() {
                        Err(eof())
                    } else {
                        let nums = Seq::new(ic, |i: int| num_cell(s, q + 4 * i));
                        match spec_str_cells(s, q + 4 * ic, sc) {
                            Ok((strs, e)) => Ok((IesRowView { class_name, cells: nums + strs }, e)),
                            Err(x) => Err(x),
                        }
                    }
                }
            }
        }
    }
}

/// `n` rows from `p` on, and the position after the last one's trailer.
pub open spec fn spec_rows(s: Seq<u8>, p: int, n: nat, ic: nat, sc: nat) -> Result<
    (Seq<IesRowView>, int),
    IpfError,
>
    decreases n,
{
    if n == 0 {
        Ok((seq![], p))
    } else {
        match spec_rows(s, p, (n - 1) as nat, ic, sc) {
            Ok((rs, q)) => match spec_row(s, q, ic, sc) {
                Ok((r, e)) => Ok((rs.push(r), e + sc)),
                Err(x) => Err(x),
            },
            Err(x) => Err(x),
        }
    }
}

proof fn lemma_str_cells_err(s: Seq<u8>, p: int, k: nat, n: nat)
    requires
        k <= n,
        spec_str_cells(s, p, k) is Err,
    ensures
        spec_str_cells(s, p, n) == spec_str_cells(s, p, k),
    decreases n - k,
{
    if k < n {
        lemma_str_cells_err(s, p, k, (n - 1) as nat);
    }
}

proof fn lemma_rows_err(s: Seq<u8>, p: int, k: nat, n: nat, ic: nat, sc: nat)
    requires
        k <= n,
        spec_rows(s, p, k, ic, sc) is Err,
    ensures
        spec_rows(s, p, n, ic, sc) == spec_rows(s, p, k, ic, sc),
    decreases n - k,
{
    if k < n {
        lemma_rows_err(s, p, k, (n - 1) as nat, ic, sc);
    }
}

impl IesCell {
    /// Reads the numeric cell at `p`, keeping the float's bits exactly.
    pub fn parse_int(s: &[u8], p: usize) -> (r: Result<IesCell, IpfError>)
        ensures
            match r {
                Ok(c) => p + 4 <= s@.len() && c@ == num_cell(s@, p as int),
                Err(e) => p + 4 > s@.len() && e == eof(),
            },
    {
        if p > s.len() || s.len() - p < 4 {
            return Err(IpfError::Io(crate::error::IoKind::UnexpectedEof));
        }
        Ok(IesCell::Num(read_u32(s, p)))
    }

    /// Reads the length-prefixed string cell at `p`; also returns the position after it.
    pub fn parse_string(s: &[u8], p: usize) -> (r: Result<(IesCell, usize), IpfError>)
        ensures
            match r {
                Ok((c, e)) => match spec_text(s@, p as int) {
                    Ok((t, q)) => c@ == IesCellView::Str(t) && q == e,
                    Err(_) => false,
                },
                Err(x) => spec_text(s@, p as int) == Err::<(Seq<char>, int), IpfError>(x),
            },
    {
        match parse_text(s, p) {
            Ok((t, e)) => Ok((IesCell::Str(t), e)),
            Err(x) => Err(x),
        }
    }
}

/// Reads a length-prefixed obfuscated text at `p`.
fn parse_text(s: &[u8], p: usize) -> (r: Result<(String, usize), IpfError>)
    ensures
        match r {
            Ok((t, e)) => spec_text(s@, p as int) == Ok::<(Seq<char>, int), IpfError>((t@, e as int)),
            Err(x) => spec_text(s@, p as int) == Err::<(Seq<char>, int), IpfError>(x),
        },
{
    if p > s.len() || s.len() - p < 2 {
        return Err(IpfError::Io(crate::error::IoKind::UnexpectedEof));
    }
    let n = read_u16(s, p) as usize;
    if s.len() - p - 2 < n {
        return Err(IpfError::Io(crate::error::IoKind::UnexpectedEof));
    }
    match decrypt(copy_range(s, p + 2, n)) {
        Ok(t) => Ok((t, p + 2 + n)),
        Err(x) => Err(x),
    }
}

impl IesRow {
    /// Reads the row at `p`: its class label, `ic` numeric cells and `sc` string cells.
    /// Also returns the position after the last cell; the row's trailer of `sc` bytes
    /// follows it.
    pub fn parse(s: &[u8], p: usize, ic: u16, sc: u16) -> (r: Result<(IesRow, usize), IpfError>)
        ensures
            match r {
                Ok((row, e)) => spec_row(s@, p as int, ic as nat, sc as nat) == Ok::<
                    (IesRowView, int),
                    IpfError,
                >((row@, e as int)),
                Err(x) => spec_row(s@, p as int, ic as nat, sc as nat) == Err::<
                    (IesRowView, int),
                    IpfError,
                >(x),
            },
    {
        let len = s.len();
        if p > len || len - p < 6 {
            return Err(IpfError::Io(crate::error::IoKind::UnexpectedEof));
        }
        let cl = read_u16(s, p + 4) as usize;
        if len - p - 6 < cl {
            return Err(IpfError::Io(crate::error::IoKind::UnexpectedEof));
        }
        let class_name = match decrypt(copy_range(s, p + 6, cl)) {
            Ok(t) => t,
            Err(x) => {
                return Err(x);
            },
        };
        let q = p + 6 + cl;
        if len - q < 4 * (ic as usize) {
            return Err(IpfError::Io(crate::error::IoKind::UnexpectedEof));
        }
        let mut cells: Vec<IesCell> = Vec::new();
        let mut i: u16 = 0;
        while i < ic
            invariant
                len == s@.len(),
                q + 4 * ic <= len,
                i <= ic,
                cells@.len() == i,
                forall|k: int| 0 <= k < i ==> #[trigger] cells@[k]@ == num_cell(s@, q + 4 * k),
            decreases ic - i,
        {
            let c = match IesCell::parse_int(s, q + 4 * (i as usize)) {
                Ok(c) => c,
                Err(x) => {
                    return Err(x);
                },
            };
            cells.push(c);
            i = i + 1;
        }
        assert(cell_views(cells@) =~= Seq::new(ic as nat, |k: int| num_cell(s@, q + 4 * k)));
        let mut pos: usize = q + 4 * (ic as usize);
        let ghost start = pos as int;
        let ghost nums = cell_views(cells@);
        assert(cell_views(cells@).skip(ic as int) =~= seq![]);
        assert(cell_views(cells@).take(ic as int) =~= nums);
        let mut j: u16 = 0;
        while j < sc
            invariant
                len == s@.len(),
                p + 6 <= len,
                cl == le16(s@, p + 4),
                q == p + 6 + cl,
                q + 4 * ic <= len,
                field_text(s@.subrange(p + 6, q as int)) == Some(class_name@),
                start == q + 4 * ic,
                nums == Seq::new(ic as nat, |k: int| num_cell(s@, q + 4 * k)),
                j <= sc,
                spec_str_cells(s@, start, j as nat) == Ok::<(Seq<IesCellView>, int), IpfError>(
                    (cell_views(cells@).skip(ic as int), pos as int),
                ),
                cell_views(cells@).take(ic as int) == nums,
                cells@.len() == ic + j,
            decreases sc - j,
        {
            match IesCell::parse_string(s, pos) {
                Ok((c, e)) => {
                    let ghost before = cell_views(cells@);
                    let ghost cv = c@;
                    cells.push(c);
                    assert(cell_views(cells@) =~= before.push(cv));
                    assert(cell_views(cells@).skip(ic as int) =~= before.skip(ic as int).push(cv));
                    assert(cell_views(cells@).take(ic as int) =~= before.take(ic as int));
                    pos = e;
                    j = j + 1;
                },
                Err(x) => {
                    proof {
                        assert(spec_str_cells(s@, start, (j + 1) as nat) == Err::<
                            (Seq<IesCellView>, int),
                            IpfError,
                        >(x));
                        lemma_str_cells_err(s@, start, (j + 1) as nat, sc as nat);
                    }
                    return Err(x);
                },
            }
        }
        assert(cell_views(cells@) =~= nums + cell_views(cells@).skip(ic as int));
        Ok((IesRow { class_name, cells }, pos))
    }
}

/// Reads `n` rows from `p` on, skipping each row's trailer of `sc` bytes.
fn parse_rows(s: &[u8], p: usize, n: u16, ic: u16, sc: u16) -> (r: Result<Vec<IesRow>, IpfError>)
    ensures
        match r {
            Ok(v) => match spec_rows(s@, p as int, n as nat, ic as nat, sc as nat) {
                Ok((rs, _)) => rs == row_views(v@),
                Err(_) => false,
            },
            Err(x) => spec_rows(s@, p as int, n as nat, ic as nat, sc as nat) == Err::<
                (Seq<IesRowView>, int),
                IpfError,
            >(x),
        },
{
    let len = s.len();
    let mut v: Vec<IesRow> = Vec::new();
    let mut pos: usize = p;
    // Set once the position has moved past the end of the data; every later read fails.
    let mut beyond = false;
    let ghost mut at: int = p as int;
    let mut i: u16 = 0;
    assert(row_views(v@) =~= seq![]);
    while i < n
        invariant
            len == s@.len(),
            i <= n,
            spec_rows(s@, p as int, i as nat, ic as nat, sc as nat) == Ok::<
                (Seq<IesRowView>, int),
                IpfError,
            >((row_views(v@), at)),
            beyond ==> at > len,
            !beyond ==> pos == at,
        decreases n - i,
    {
        if beyond {
            proof {
                lemma_rows_err(s@, p as int, (i + 1) as nat, n as nat, ic as nat, sc as nat);
            }
            return Err(IpfError::Io(crate::error::IoKind::UnexpectedEof));
        }
        match IesRow::parse(s, pos, ic, sc) {
            Ok((row, e)) => {
                let ghost before = row_views(v@);
                v.push(row);
                assert(row_views(v@) =~= before.push(row@));
                proof {
                    at = e + sc;
                }
                if len - e < sc as usize {
                    beyond = true;
                } else {
                    pos = e + sc as usize;
                }
                i = i + 1;
            },
            Err(x) => {
                proof {
                    lemma_rows_err(s@, p as int, (i + 1) as nat, n as nat, ic as nat, sc as nat);
                }
                return Err(x);
            },
        }
    }
    Ok(v)
}

/// What a decoded table holds.
pub struct IesTableView {
    pub header: IesHeaderView,
    pub columns: Seq<IesColumnView>,
    pub rows: Seq<IesRowView>,
}

/// The table that a decoded blob holds: header, columns in display order, rows.
pub open spec fn spec_table(s: Seq<u8>) -> Result<IesTableView, IpfError> {
    match spec_header(s) {
        Err(e) => Err(e),
        Ok(h) => match spec_columns(s, h.column_offset as int, h.column_count as nat) {
            Err(e) => Err(e),
            Ok(cs) => match spec_rows(
                s,
                h.row_offset as int,
                h.row_count as nat,
                h.int_column_count as nat,
                h.str_column_count as nat,
            ) {
                Err(e) => Err(e),
                Ok((rs, _)) => Ok(
                    IesTableView { header: h, columns: spec_order_columns(cs), rows: rs },
                ),
            },
        },
    }
}

/// A decoded table.
pub struct IesTable {
    pub header: IesHeader,
    /// Columns in display order.
    pub columns: Vec<IesColumn>,
    pub rows: Vec<IesRow>,
}

impl View for IesTable {
    type V = IesTableView;

    open spec fn view(&self) -> IesTableView {
        IesTableView {
            header: self.header@,
            columns: column_views(self.columns@),
            rows: row_views(self.rows@),
        }
    }
}

impl IesTable {
    /// Decodes a whole table blob.
    pub fn parse(s: &[u8]) -> (r: Result<IesTable, IpfError>)
        ensures
            match r {
                Ok(t) => spec_table(s@) == Ok::<IesTableView, IpfError>(t@),
                Err(e) => spec_table(s@) == Err::<IesTableView, IpfError>(e),
            },
    {
        let header = match IesHeader::parse(s) {
            Ok(h) => h,
            Err(e) => {
                return Err(e);
            },
        };
        let cols = match parse_columns(s, header.column_offset as usize, header.column_count) {
            Ok(c) => c,
            Err(e) => {
                return Err(e);
            },
        };
        let rows = match parse_rows(
            s,
            header.row_offset as usize,
            header.row_count,
            header.int_column_count,
            header.str_column_count,
        ) {
            Ok(r) => r,
            Err(e) => {
                return Err(e);
            },
        };
        let columns = order_columns(cols);
        Ok(IesTable { header, columns, rows })
    }
}

/// Decodes the table in a buffered, already inflated blob.
pub struct IesReader {
    data: Vec<u8>,
}

impl View for IesReader {
    type V = Seq<u8>;

    closed spec fn view(&self) -> Seq<u8> {
        self.data@
    }
}

impl IesReader {
    /// Wraps a decoded blob.
    pub fn new(data: Vec<u8>) -> (r: IesReader)
        ensures
            r@ == data@,
    {
        IesReader { data }
    }

    /// Decodes the table the blob holds.
    pub fn table(&self) -> (r: Result<IesTable, IpfError>)
        ensures
            match r {
                Ok(t) => spec_table(self@) == Ok::<IesTableView, IpfError>(t@),
                Err(e) => spec_table(self@) == Err::<IesTableView, IpfError>(e),
            },
    {
        IesTable::parse(self.data.as_slice())
    }
}

/// The parts joined by commas.
pub open spec fn join(parts: Seq<Seq<u8>>) -> Seq<u8>
    decreases parts.len(),
{
    if parts.len() == 0 {
        seq![]
    } else if parts.len() == 1 {
        parts[0]
    } else {
        join(parts.drop_last()) + seq![44u8] + parts.last()
    }
}

/// Text of a cell: a numeric cell's decimal text as given, a string cell in double
/// quotes, unescaped.
pub open spec fn cell_text(c: IesCellView, number: Seq<char>) -> Seq<u8> {
    match c {
        IesCellView::Num(_) => encode_utf8(number),
        IesCellView::Str(t) => seq![34u8] + encode_utf8(t) + seq![34u8],
    }
}

/// A row's line; `numbers[i]` is the text of cell `i` when that cell is numeric.
pub open spec fn row_line(r: IesRowView, numbers: Seq<Seq<char>>) -> Seq<u8> {
    join(Seq::new(r.cells.len(), |i: int| cell_text(r.cells[i], numbers[i]))) + seq![10u8]
}

/// The header line: column display names joined by commas.
pub open spec fn header_line(cs: Seq<IesColumnView>) -> Seq<u8> {
    join(Seq::new(cs.len(), |i: int| encode_utf8(cs[i].name1))) + seq![10u8]
}

/// The lines of the first `n` rows.
pub open spec fn rows_text(rs: Seq<IesRowView>, numbers: Seq<Seq<Seq<char>>>, n: nat) -> Seq<u8>
    decreases n,
{
    if n == 0 {
        seq![]
    } else {
        rows_text(rs, numbers, (n - 1) as nat) + row_line(rs[n - 1], numbers[n - 1])
    }
}

/// Canonical text of a table: the header line, then one line per row.
pub open spec fn render_table(t: IesTableView, numbers: Seq<Seq<Seq<char>>>) -> Seq<u8> {
    header_line(t.columns) + rows_text(t.rows, numbers, t.rows.len())
}

/// Whether `numbers` gives one text per cell of every row.
pub open spec fn numbers_fit(t: IesTableView, numbers: Seq<Seq<Seq<char>>>) -> bool {
    numbers.len() == t.rows.len() && forall|i: int|
        0 <= i < numbers.len() ==> #[trigger] numbers[i].len() == t.rows[i].cells.len()
}

/// The texts of a row's cells.
pub open spec fn text_views(v: Seq<String>) -> Seq<Seq<char>> {
    v.map_values(|s: String| s@)
}

/// The texts of every row's cells.
pub open spec fn number_views(v: Seq<Vec<String>>) -> Seq<Seq<Seq<char>>> {
    v.map_values(|r: Vec<String>| text_views(r@))
}

/// Appends the parts produced so far, joined by commas; one step of `join`.
proof fn lemma_join_step(parts: Seq<Seq<u8>>, i: int)
    requires
        0 <= i < parts.len(),
    ensures
        join(parts.take(i + 1)) == if i == 0 {
            parts[0]
        } else {
            join(parts.take(i)) + seq![44u8] + parts[i]
        },
{
    assert(parts.take(i + 1).drop_last() =~= parts.take(i));
}

impl IesColumn {
    /// Appends the column's display name.
    pub fn fmt(&self, out: &mut Vec<u8>)
        ensures
            final(out)@ == old(out)@ + encode_utf8(self.name1@),
    {
        push_all(out, self.name1.as_str().as_bytes());
    }
}

impl IesCell {
    /// Appends the cell's text; `number` is the decimal text used for a numeric cell.
    pub fn fmt(&self, number: &String, out: &mut Vec<u8>)
        ensures
            final(out)@ == old(out)@ + cell_text(self@, number@),
    {
        match self {
            IesCell::Num(_) => push_all(out, number.as_str().as_bytes()),
            IesCell::Str(t) => {
                let ghost start = out@;
                out.push(34u8);
                push_all(out, t.as_str().as_bytes());
                out.push(34u8);
                assert(out@ =~= start + (seq![34u8] + encode_utf8(t@) + seq![34u8]));
            },
        }
    }
}

impl IesRow {
    /// Appends the row's line; `numbers[i]` is the text of cell `i` when it is numeric.
    pub fn fmt(&self, numbers: &Vec<String>, out: &mut Vec<u8>)
        requires
            numbers@.len() == self.cells@.len(),
        ensures
            final(out)@ == old(out)@ + row_line(self@, text_views(numbers@)),
    {
        let ghost start = out@;
        let ghost parts = Seq::new(
            self.cells@.len(),
            |i: int| cell_text(self@.cells[i], text_views(numbers@)[i]),
        );
        let mut i: usize = 0;
        assert(parts.take(0) =~= seq![]);
        while i < self.cells.len()
            invariant
                i <= self.cells@.len(),
                numbers@.len() == self.cells@.len(),
                parts.len() == self.cells@.len(),
                parts == Seq::new(
                    self.cells@.len(),
                    |i: int| cell_text(self@.cells[i], text_views(numbers@)[i]),
                ),
                out@ == start + join(parts.take(i as int)),
            decreases self.cells@.len() - i,
        {
            proof {
                lemma_join_step(parts, i as int);
            }
            if i > 0 {
                out.push(44u8);
            }
            self.cells[i].fmt(&numbers[i], out);
            i = i + 1;
            assert(out@ =~= start + join(parts.take(i as int)));
        }
        assert(parts.take(i as int) =~= parts);
        out.push(10u8);
        assert(out@ =~= start + row_line(self@, text_views(numbers@)));
    }
}

impl IesTable {
    /// Appends the header line.
    fn fmt_header(&self, out: &mut Vec<u8>)
        ensures
            final(out)@ == old(out)@ + header_line(self@.columns),
    {
        let ghost start = out@;
        let ghost cs = self@.columns;
        let ghost parts = Seq::new(cs.len(), |i: int| encode_utf8(cs[i].name1));
        let mut i: usize = 0;
        assert(parts.take(0) =~= seq![]);
        while i < self.columns.len()
            invariant
                i <= self.columns@.len(),
                cs == self@.columns,
                parts == Seq::new(cs.len(), |i: int| encode_utf8(cs[i].name1)),
                out@ == start + join(parts.take(i as int)),
            decreases self.columns@.len() - i,
        {
            proof {
                lemma_join_step(parts, i as int);
            }
            if i > 0 {
                out.push(44u8);
            }
            self.columns[i].fmt(out);
            i = i + 1;
            assert(out@ =~= start + join(parts.take(i as int)));
        }
        assert(parts.take(i as int) =~= parts);
        out.push(10u8);
        assert(out@ =~= start + header_line(cs));
    }

    /// Renders the table as comma-separated text: the header line of column names, then
    /// one line per row. `numbers[r][i]` is the decimal text of cell `i` of row `r` when
    /// that cell is numeric (string cells ignore their entry). `None` when `numbers` does
    /// not give one text per cell.
    pub fn render(&self, numbers: &Vec<Vec<String>>) -> (r: Option<Vec<u8>>)
        ensures
            match r {
                Some(out) => numbers_fit(self@, number_views(numbers@)) && out@ == render_table(
                    self@,
                    number_views(numbers@),
                ),
                None => !numbers_fit(self@, number_views(numbers@)),
            },
    {
        if numbers.len() != self.rows.len() {
            return None;
        }
        let mut k: usize = 0;
        while k < numbers.len()
            invariant
                k <= numbers@.len(),
                numbers@.len() == self.rows@.len(),
                forall|j: int| 0 <= j < k ==> numbers@[j]@.len() == self.rows@[j].cells@.len(),
            decreases numbers@.len() - k,
        {
            if numbers[k].len() != self.rows[k].cells.len() {
                assert(number_views(numbers@)[k as int].len() != self@.rows[k as int].cells.len());
                return None;
            }
            k = k + 1;
        }
        assert(numbers_fit(self@, number_views(numbers@)));
        let mut out: Vec<u8> = Vec::new();
        self.fmt_header(&mut out);
        let ghost head = out@;
        let mut i: usize = 0;
        while i < self.rows.len()
            invariant
                i <= self.rows@.len(),
                numbers@.len() == self.rows@.len(),
                forall|j: int|
                    0 <= j < numbers@.len() ==> numbers@[j]@.len() == self.rows@[j].cells@.len(),
                out@ == head + rows_text(self@.rows, number_views(numbers@), i as nat),
            decreases self.rows@.len() - i,
        {
            self.rows[i].fmt(&numbers[i], &mut out);
            i = i + 1;
            assert(out@ =~= head + rows_text(self@.rows, number_views(numbers@), i as nat));
        }
        Some(out)
    }
}

} // verus!
