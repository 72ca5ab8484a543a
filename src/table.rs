use vstd::prelude::*;
use vstd::bytes::{
    lemma_auto_spec_u32_to_from_le_bytes, spec_u32_from_le_bytes, spec_u32_to_le_bytes,
    u32_from_le_bytes, u32_to_le_bytes,
};
use vstd::slice::{slice_subrange, slice_to_vec};
use vstd::utf8::valid_utf8;
use crate::row::{
    field_text, lemma_text_round_trip, row_of, zero_field, Row, RowView, COLUMN_EMAIL_SIZE,
    COLUMN_USERNAME_SIZE,
};

verus! {

/// Size of one page, in bytes.
pub const PAGE_SIZE: usize = 4096;

/// Number of pages a table can hold.
pub const TABLE_MAX_PAGES: usize = 100;

/// Size of the encoded identifier, in bytes.
pub const ID_SIZE: usize = 4;

/// Size of the encoded username column, in bytes.
pub const USERNAME_SIZE: usize = COLUMN_USERNAME_SIZE;

/// Size of the encoded email column, in bytes.
pub const EMAIL_SIZE: usize = COLUMN_EMAIL_SIZE;

/// Where the identifier starts in an encoded row.
pub const ID_OFFSET: usize = 0;

/// Where the username starts in an encoded row.
pub const USERNAME_OFFSET: usize = ID_OFFSET + ID_SIZE;

/// Where the email starts in an encoded row.
pub const EMAIL_OFFSET: usize = USERNAME_OFFSET + USERNAME_SIZE;

/// Size of one encoded row, in bytes.
pub const ROW_SIZE: usize = ID_SIZE + USERNAME_SIZE + EMAIL_SIZE;

/// Number of encoded rows that fit in one page.
pub const ROWS_PER_PAGE: usize = PAGE_SIZE / ROW_SIZE;

/// Number of rows a table can hold.
pub const TABLE_MAX_ROWS: usize = ROWS_PER_PAGE * TABLE_MAX_PAGES;

/// The layout constants follow from the column sizes and the page size:
/// a row takes 291 bytes, a page holds 14 of them, a table 1400.
pub proof fn lemma_capacity()
    ensures
        ROW_SIZE == 291,
        ROWS_PER_PAGE == 14,
        TABLE_MAX_ROWS == 1400,
        ROWS_PER_PAGE * ROW_SIZE + 22 == PAGE_SIZE,
{
    assert(4096usize / 291usize == 14usize);
}

/// The encoded form of a row: the identifier in little-endian byte order,
/// then the username column, then the email column.
pub open spec fn encode(r: RowView) -> Seq<u8> {
    spec_u32_to_le_bytes(r.id) + r.username + r.email
}

/// The row read back from its encoded form.
pub open spec fn decode(b: Seq<u8>) -> RowView {
    RowView {
        id: spec_u32_from_le_bytes(b.subrange(ID_OFFSET as int, USERNAME_OFFSET as int)),
        username: b.subrange(USERNAME_OFFSET as int, EMAIL_OFFSET as int),
        email: b.subrange(EMAIL_OFFSET as int, ROW_SIZE as int),
    }
}

/// Every well-sized row is encoded in exactly `ROW_SIZE` bytes and decodes
/// back to itself.
pub proof fn lemma_round_trip(r: RowView)
    requires
        r.username.len() == USERNAME_SIZE,
        r.email.len() == EMAIL_SIZE,
    ensures
        encode(r).len() == ROW_SIZE,
        decode(encode(r)) == r,
{
    lemma_auto_spec_u32_to_from_le_bytes();
    let b = encode(r);
    assert(b.subrange(0, 4) =~= spec_u32_to_le_bytes(r.id));
    assert(b.subrange(4, 36) =~= r.username);
    assert(b.subrange(36, 291) =~= r.email);
}

/// A record built from text that fits its columns and holds no zero byte
/// decodes to the same identifier, username text and email text.
pub proof fn lemma_record_round_trip(id: u32, username: Seq<u8>, email: Seq<u8>)
    requires
        username.len() <= USERNAME_SIZE,
        email.len() <= EMAIL_SIZE,
        valid_utf8(username),
        valid_utf8(email),
        forall|i: int| 0 <= i < username.len() ==> username[i] != 0,
        forall|i: int| 0 <= i < email.len() ==> email[i] != 0,
    ensures
        decode(encode(row_of(id, username, email))) == row_of(id, username, email),
        decode(encode(row_of(id, username, email))).id == id,
        field_text(decode(encode(row_of(id, username, email))).username) == username,
        field_text(decode(encode(row_of(id, username, email))).email) == email,
{
    let r = row_of(id, username, email);
    lemma_round_trip(r);
    lemma_text_round_trip(username, USERNAME_SIZE as nat);
    lemma_text_round_trip(email, EMAIL_SIZE as nat);
}

/// `bytes` written over `dest` from position `offset` on.
pub open spec fn overwrite(dest: Seq<u8>, offset: int, bytes: Seq<u8>) -> Seq<u8> {
    dest.take(offset) + bytes + dest.skip(offset + bytes.len())
}

/// The encoded form of `source`, in a fresh buffer.
fn encode_row(source: &Row) -> (r: Vec<u8>)
    requires
        source.wf(),
    ensures
        r@ == encode(source@),
{
    proof {
        lemma_auto_spec_u32_to_from_le_bytes();
    }
    let mut r = u32_to_le_bytes(source.id);
    let mut i: usize = 0;
    while i < USERNAME_SIZE
        invariant
            source.wf(),
            i <= USERNAME_SIZE,
            r@ == spec_u32_to_le_bytes(source.id) + source.username@.take(i as int),
        decreases USERNAME_SIZE - i,
    {
        r.push(source.username[i]);
        i = i + 1;
        assert(r@ =~= spec_u32_to_le_bytes(source.id) + source.username@.take(i as int));
    }
    assert(source.username@.take(USERNAME_SIZE as int) =~= source.username@);
    let mut j: usize = 0;
    while j < EMAIL_SIZE
        invariant
            source.wf(),
            j <= EMAIL_SIZE,
            r@ == spec_u32_to_le_bytes(source.id) + source.username@ + source.email@.take(j as int),
        decreases EMAIL_SIZE - j,
    {
        r.push(source.email[j]);
        j = j + 1;
        assert(r@ =~= spec_u32_to_le_bytes(source.id) + source.username@ + source.email@.take(
            j as int,
        ));
    }
    assert(source.email@.take(EMAIL_SIZE as int) =~= source.email@);
    r
}

/// Copies `bytes` into `dest` from position `offset` on.
fn write_bytes_at(dest: &mut [u8], offset: usize, bytes: &[u8])
    requires
        offset + bytes@.len() <= old(dest)@.len(),
    ensures
        final(dest)@ == overwrite(old(dest)@, offset as int, bytes@),
{
    let ghost orig = dest@;
    let n: usize = dest.len();
    let mut k: usize = 0;
    while k < bytes.len()
        invariant
            n == orig.len(),
            offset + bytes@.len() <= orig.len(),
            dest@.len() == orig.len(),
            k <= bytes@.len(),
            dest@ =~= overwrite(orig, offset as int, bytes@.take(k as int)),
        decreases bytes@.len() - k,
    {
        dest[offset + k] = bytes[k];
        k = k + 1;
        assert(dest@ =~= overwrite(orig, offset as int, bytes@.take(k as int)));
    }
    assert(bytes@.take(k as int) =~= bytes@);
}

/// Writes the encoded form of `source` into the first `ROW_SIZE` bytes of
/// `destination`; the bytes after them are left as they were.
pub fn serialize_row(source: &Row, destination: &mut [u8])
    requires
        source.wf(),
        old(destination)@.len() >= ROW_SIZE,
    ensures
        final(destination)@.len() == old(destination)@.len(),
        final(destination)@.subrange(0, ROW_SIZE as int) == encode(source@),
        final(destination)@.skip(ROW_SIZE as int) == old(destination)@.skip(ROW_SIZE as int),
{
    proof {
        lemma_round_trip(source@);
    }
    let bytes = encode_row(source);
    write_bytes_at(destination, 0, bytes.as_slice());
    assert(final(destination)@.subrange(0, ROW_SIZE as int) =~= bytes@);
    assert(final(destination)@.skip(ROW_SIZE as int) =~= old(destination)@.skip(ROW_SIZE as int));
}

/// Reads a row back from the encoded form in the first `ROW_SIZE` bytes of
/// `source` into `destination`.
pub fn deserialize_row(source: &[u8], destination: &mut Row)
    requires
        source@.len() >= ROW_SIZE,
    ensures
        final(destination).wf(),
        final(destination)@ == decode(source@),
{
    destination.id = u32_from_le_bytes(slice_subrange(source, ID_OFFSET, USERNAME_OFFSET));
    destination.username = slice_to_vec(slice_subrange(source, USERNAME_OFFSET, EMAIL_OFFSET));
    destination.email = slice_to_vec(slice_subrange(source, EMAIL_OFFSET, ROW_SIZE));
}

/// Errors raised by the table.
#[derive(Debug, Clone, Copy, PartialEq, Eq, Structural)]
pub enum TableError {
    /// Every row slot of the table is already taken.
    TableFull,
    /// A slot was asked for beyond the table's capacity.
    IndexOutOfRange,
}

/// The page that holds row `i`.
pub open spec fn page_index(i: int) -> int {
    i / ROWS_PER_PAGE as int
}

/// Where row `i` starts inside its page.
pub open spec fn byte_offset(i: int) -> int {
    (i % ROWS_PER_PAGE as int) * ROW_SIZE as int
}

/// A freshly allocated page.
pub open spec fn zero_page() -> Seq<u8> {
    Seq::new(PAGE_SIZE as nat, |_i: int| 0u8)
}

/// Each slot lies inside its page, and two rows of one page never overlap.
proof fn lemma_slot_layout(i: int, j: int)
    requires
        0 <= i,
        0 <= j,
    ensures
        0 <= page_index(i),
        0 <= byte_offset(i),
        byte_offset(i) + ROW_SIZE <= PAGE_SIZE,
        i < TABLE_MAX_ROWS ==> page_index(i) < TABLE_MAX_PAGES,
        i != j && page_index(i) == page_index(j) ==> byte_offset(i) + ROW_SIZE <= byte_offset(j)
            || byte_offset(j) + ROW_SIZE <= byte_offset(i),
{
    lemma_capacity();
    let a = i % 14;
    let b = j % 14;
    assert(0 <= a < 14 && 0 <= b < 14);
    assert(byte_offset(i) == a * 291);
    assert(a * 291 + 291 <= 4096) by (nonlinear_arith)
        requires
            0 <= a < 14,
    ;
    assert(0 <= a * 291) by (nonlinear_arith)
        requires
            0 <= a,
    ;
    if i < 1400 {
        assert(i / 14 < 100);
    }
    if i != j && i / 14 == j / 14 {
        assert(i == 14 * (i / 14) + a);
        assert(j == 14 * (j / 14) + b);
        assert(a != b);
        if a < b {
            assert(a * 291 + 291 <= b * 291) by (nonlinear_arith)
                requires
                    a < b,
            ;
        } else {
            assert(b * 291 + 291 <= a * 291) by (nonlinear_arith)
                requires
                    b < a,
            ;
        }
    }
}

/// Page `p` starts at row `n` exactly when `n` is the first row of page `p`;
/// the page of row `n` starts at or before `n`.
proof fn lemma_page_start(p: int, n: int)
    requires
        0 <= p,
        0 <= n,
    ensures
        p * ROWS_PER_PAGE == n ==> p == page_index(n),
        p == page_index(n) ==> p * ROWS_PER_PAGE <= n,
{
    lemma_capacity();
    assert(p * 14 == n ==> p == n / 14) by (nonlinear_arith);
    assert(p == n / 14 ==> p * 14 <= n) by (nonlinear_arith)
        requires
            0 <= n,
    ;
}

/// What `overwrite` wrote is read back from the same place.
proof fn lemma_overwrite_hit(dest: Seq<u8>, offset: int, bytes: Seq<u8>)
    requires
        0 <= offset,
        offset + bytes.len() <= dest.len(),
    ensures
        overwrite(dest, offset, bytes).len() == dest.len(),
        overwrite(dest, offset, bytes).subrange(offset, offset + bytes.len()) == bytes,
{
    assert(overwrite(dest, offset, bytes).subrange(offset, offset + bytes.len()) =~= bytes);
}

/// `overwrite` leaves a window of `ROW_SIZE` bytes that it does not reach as it was.
proof fn lemma_overwrite_frame(dest: Seq<u8>, offset: int, bytes: Seq<u8>, x: int)
    requires
        0 <= offset,
        0 <= x,
        offset + bytes.len() <= dest.len(),
        x + ROW_SIZE <= dest.len(),
        x + ROW_SIZE <= offset || offset + bytes.len() <= x,
    ensures
        overwrite(dest, offset, bytes).subrange(x, x + ROW_SIZE) == dest.subrange(x, x + ROW_SIZE),
{
    assert(overwrite(dest, offset, bytes).subrange(x, x + ROW_SIZE) =~= dest.subrange(
        x,
        x + ROW_SIZE,
    ));
}

/// How many of the first `k` pages are allocated.
pub open spec fn count_allocated(pages: Seq<Option<Vec<u8>>>, k: int) -> nat
    decreases k,
{
    if k <= 0 {
        0
    } else {
        count_allocated(pages, k - 1) + if pages[k - 1] is Some {
            1nat
        } else {
            0nat
        }
    }
}

/// The single table: a row counter and up to `TABLE_MAX_PAGES` pages, each
/// allocated on first use.
#[derive(Debug)]
pub struct Table {
    pub num_rows: usize,
    pub pages: Vec<Option<Vec<u8>>>,
}

impl Table {
    /// The contents of page `p`, when it is allocated.
    pub open spec fn page_view(&self, p: int) -> Option<Seq<u8>> {
        match self.pages@[p] {
            Some(v) => Some(v@),
            None => None,
        }
    }

    pub open spec fn allocated(&self, p: int) -> bool {
        self.pages@[p] is Some
    }

    pub open spec fn wf(&self) -> bool {
        &&& self.pages@.len() == TABLE_MAX_PAGES
        &&& self.num_rows <= TABLE_MAX_ROWS
        &&& forall|p: int|
            0 <= p < TABLE_MAX_PAGES && #[trigger] self.allocated(p) ==> self.pages@[p].unwrap()@.len()
                == PAGE_SIZE
        &&& forall|i: int| 0 <= i < self.num_rows ==> self.allocated(#[trigger] page_index(i))
    }

    /// The encoded bytes in the slot of row `i`.
    pub open spec fn slot(&self, i: int) -> Seq<u8> {
        self.pages@[page_index(i)].unwrap()@.subrange(byte_offset(i), byte_offset(i) + ROW_SIZE)
    }

    /// The rows stored so far, in insertion order.
    pub open spec fn rows(&self) -> Seq<RowView> {
        Seq::new(self.num_rows as nat, |i: int| decode(self.slot(i)))
    }

    /// Exactly the pages that hold a stored row are allocated.
    pub open spec fn lazily_filled(&self) -> bool {
        forall|p: int|
            0 <= p < TABLE_MAX_PAGES ==> (#[trigger] self.allocated(p) <==> p * ROWS_PER_PAGE
                < self.num_rows)
    }

    /// An empty table: no rows, no page allocated.
    pub fn new() -> (t: Table)
        ensures
            t.wf(),
            t.num_rows == 0,
            t.rows() == Seq::<RowView>::empty(),
            forall|p: int| 0 <= p < TABLE_MAX_PAGES ==> !t.allocated(p),
            t.lazily_filled(),
    {
        let mut pages: Vec<Option<Vec<u8>>> = Vec::new();
        let mut p: usize = 0;
        while p < TABLE_MAX_PAGES
            invariant
                p <= TABLE_MAX_PAGES,
                pages@.len() == p,
                forall|q: int| 0 <= q < p ==> pages@[q] is None,
            decreases TABLE_MAX_PAGES - p,
        {
            pages.push(None);
            p = p + 1;
        }
        let t = Table { num_rows: 0, pages };
        assert(t.rows() =~= Seq::<RowView>::empty());
        t
    }

    /// The encoded bytes of row `row_num`, whose page is allocated.
    fn slot_bytes(&self, row_num: usize) -> (r: &[u8])
        requires
            self.wf(),
            row_num < TABLE_MAX_ROWS,
            self.allocated(page_index(row_num as int)),
        ensures
            r@ == self.slot(row_num as int),
            r@.len() == ROW_SIZE,
    {
        proof {
            lemma_capacity();
            lemma_slot_layout(row_num as int, row_num as int);
        }
        let page_num = row_num / ROWS_PER_PAGE;
        let offset = (row_num % ROWS_PER_PAGE) * ROW_SIZE;
        let page = self.pages[page_num].as_ref().unwrap();
        slice_subrange(page.as_slice(), offset, offset + ROW_SIZE)
    }

    /// Writes `bytes` into the slot of row `row_num`, allocating its page first
    /// when it is absent.
    fn write_slot(&mut self, row_num: usize, bytes: &[u8])
        requires
            old(self).wf(),
            row_num < TABLE_MAX_ROWS,
            bytes@.len() == ROW_SIZE,
        ensures
            final(self).num_rows == old(self).num_rows,
            final(self).pages@.len() == old(self).pages@.len(),
            forall|p: int|
                0 <= p < TABLE_MAX_PAGES && p != page_index(row_num as int) ==> #[trigger] final(self).pages@[p]
                    == old(self).pages@[p],
            final(self).page_view(page_index(row_num as int)) == Some(
                overwrite(
                    match old(self).page_view(page_index(row_num as int)) {
                        Some(v) => v,
                        None => zero_page(),
                    },
                    byte_offset(row_num as int),
                    bytes@,
                ),
            ),
    {
        proof {
            lemma_capacity();
            lemma_slot_layout(row_num as int, row_num as int);
        }
        let page_num = row_num / ROWS_PER_PAGE;
        let offset = (row_num % ROWS_PER_PAGE) * ROW_SIZE;
        let mut current: Option<Vec<u8>> = None;
        std::mem::swap(&mut current, &mut self.pages[page_num]);
        assert(current == old(self).pages@[page_num as int]);
        let mut page = match current {
            Some(p) => {
                assert(old(self).allocated(page_num as int));
                p
            },
            None => zero_field(PAGE_SIZE),
        };
        write_bytes_at(page.as_mut_slice(), offset, bytes);
        self.pages.set(page_num, Some(page));
    }

    /// Allocates page `page_num`, zero-filled, when it is absent.
    fn ensure_page(&mut self, page_num: usize)
        requires
            old(self).wf(),
            page_num < TABLE_MAX_PAGES,
        ensures
            final(self).wf(),
            final(self).num_rows == old(self).num_rows,
            final(self).allocated(page_num as int),
            old(self).allocated(page_num as int) ==> *final(self) == *old(self),
            !old(self).allocated(page_num as int) ==> final(self).page_view(page_num as int)
                == Some(zero_page()),
            forall|p: int|
                0 <= p < TABLE_MAX_PAGES && p != page_num ==> #[trigger] final(self).pages@[p]
                    == old(self).pages@[p],
    {
        if self.pages[page_num].is_none() {
            let page = zero_field(PAGE_SIZE);
            assert(page@ =~= zero_page());
            self.pages.set(page_num, Some(page));
            assert forall|p: int|
                0 <= p < TABLE_MAX_PAGES && #[trigger] self.allocated(
                    p,
                ) implies self.pages@[p].unwrap()@.len() == PAGE_SIZE by {
                if p != page_num {
                    assert(old(self).allocated(p));
                }
            }
            assert forall|i: int| 0 <= i < self.num_rows implies self.allocated(
                #[trigger] page_index(i),
            ) by {
                assert(old(self).allocated(page_index(i)));
            }
        }
    }

    /// The encoded bytes in the slot of row `row_num`, allocating its page
    /// first when it is absent. Stored rows are left as they are.
    pub fn row_slot(&mut self, row_num: usize) -> (r: Result<Vec<u8>, TableError>)
        requires
            old(self).wf(),
        ensures
            final(self).wf(),
            final(self).num_rows == old(self).num_rows,
            final(self).rows() == old(self).rows(),
            row_num >= TABLE_MAX_ROWS ==> r == Err::<Vec<u8>, TableError>(
                TableError::IndexOutOfRange,
            ) && *final(self) == *old(self),
            row_num < TABLE_MAX_ROWS ==> (r matches Ok(w) && w@.len() == ROW_SIZE
                && w@ == final(self).slot(row_num as int)),
            row_num < TABLE_MAX_ROWS ==> final(self).allocated(page_index(row_num as int)),
            row_num < TABLE_MAX_ROWS && old(self).allocated(page_index(row_num as int))
                ==> *final(self) == *old(self),
            row_num < TABLE_MAX_ROWS && !old(self).allocated(page_index(row_num as int))
                ==> final(self).page_view(page_index(row_num as int)) == Some(zero_page()),
            forall|p: int|
                0 <= p < TABLE_MAX_PAGES && p != page_index(row_num as int)
                    ==> #[trigger] final(self).pages@[p] == old(self).pages@[p],
    {
        proof {
            lemma_capacity();
            lemma_slot_layout(row_num as int, row_num as int);
        }
        if row_num >= TABLE_MAX_ROWS {
            return Err(TableError::IndexOutOfRange);
        }
        let page_num = row_num / ROWS_PER_PAGE;
        self.ensure_page(page_num);
        proof {
            assert forall|i: int| 0 <= i < self.num_rows implies #[trigger] self.slot(i)
                == old(self).slot(i) by {
                assert(old(self).allocated(page_index(i)));
                if page_index(i) != page_num {
                    lemma_slot_layout(i, i);
                }
            }
            assert(self.rows() =~= old(self).rows());
        }
        let window = slice_to_vec(self.slot_bytes(row_num));
        Ok(window)
    }

    /// Appends `row` in the next free slot. When the table is full nothing
    /// changes and `TableFull` is returned.
    pub fn insert_row(&mut self, row: &Row) -> (r: Result<(), TableError>)
        requires
            old(self).wf(),
            row.wf(),
        ensures
            final(self).wf(),
            old(self).num_rows == TABLE_MAX_ROWS ==> r == Err::<(), TableError>(
                TableError::TableFull,
            ) && *final(self) == *old(self),
            old(self).num_rows < TABLE_MAX_ROWS ==> r == Ok::<(), TableError>(())
                && final(self).num_rows == old(self).num_rows + 1
                && final(self).rows() == old(self).rows().push(row@),
            old(self).lazily_filled() ==> final(self).lazily_filled(),
    {
        if self.num_rows >= TABLE_MAX_ROWS {
            return Err(TableError::TableFull);
        }
        proof {
            lemma_round_trip(row@);
        }
        let bytes = encode_row(row);
        let n = self.num_rows;
        self.write_slot(n, bytes.as_slice());
        self.num_rows = n + 1;
        proof {
            lemma_capacity();
            lemma_slot_layout(n as int, n as int);
            let pn = page_index(n as int);
            let old_page = match old(self).page_view(pn) {
                Some(v) => v,
                None => zero_page(),
            };
            assert(old(self).allocated(pn) ==> old_page.len() == PAGE_SIZE);
            assert(self.pages@[pn].unwrap()@ == overwrite(old_page, byte_offset(n as int), bytes@));
            lemma_overwrite_hit(old_page, byte_offset(n as int), bytes@);
            assert forall|p: int| 0 <= p < TABLE_MAX_PAGES && #[trigger] self.allocated(p) implies self.pages@[p].unwrap()@.len() == PAGE_SIZE by {
                if p != pn {
                    assert(old(self).allocated(p));
                }
            }
            assert forall|i: int| 0 <= i < self.num_rows implies self.allocated(#[trigger] page_index(i)) by {
                if i < n {
                    assert(old(self).allocated(page_index(i)));
                }
            }
            assert forall|i: int| 0 <= i < n implies #[trigger] self.slot(i) == old(self).slot(i) by {
                assert(old(self).allocated(page_index(i)));
                lemma_slot_layout(i, n as int);
                if page_index(i) == pn {
                    lemma_overwrite_frame(old_page, byte_offset(n as int), bytes@, byte_offset(i));
                }
            }
            assert(self.rows() =~= old(self).rows().push(row@));
            if old(self).lazily_filled() {
                assert forall|p: int| 0 <= p < TABLE_MAX_PAGES implies (#[trigger] self.allocated(p) <==> p * ROWS_PER_PAGE < self.num_rows) by {
                    lemma_page_start(p, n as int);
                    assert(old(self).allocated(p) <==> p * ROWS_PER_PAGE < n);
                }
            }
        }
        Ok(())
    }

    /// Every stored row, decoded, in insertion order. The table is not changed.
    pub fn select_rows(&self) -> (r: Vec<Row>)
        requires
            self.wf(),
        ensures
            r@.len() == self.rows().len(),
            forall|i: int| 0 <= i < r@.len() ==> (#[trigger] r@[i]).wf() && r@[i]@ == self.rows()[i],
    {
        let mut out: Vec<Row> = Vec::new();
        let mut i: usize = 0;
        while i < self.num_rows
            invariant
                self.wf(),
                i <= self.num_rows,
                out@.len() == i,
                forall|k: int| 0 <= k < i ==> (#[trigger] out@[k]).wf() && out@[k]@ == self.rows()[k],
            decreases self.num_rows - i,
        {
            assert(self.allocated(page_index(i as int)));
            let mut row = Row::empty();
            deserialize_row(self.slot_bytes(i), &mut row);
            out.push(row);
            i = i + 1;
        }
        out
    }

    /// The number of stored rows.
    pub fn row_count(&self) -> (r: usize)
        ensures
            r == self.num_rows,
    {
        self.num_rows
    }

    /// The number of allocated pages.
    pub fn allocated_pages(&self) -> (r: usize)
        requires
            self.wf(),
        ensures
            r == count_allocated(self.pages@, TABLE_MAX_PAGES as int),
    {
        let mut count: usize = 0;
        let mut p: usize = 0;
        while p < TABLE_MAX_PAGES
            invariant
                self.wf(),
                p <= TABLE_MAX_PAGES,
                count == count_allocated(self.pages@, p as int),
                count <= p,
            decreases TABLE_MAX_PAGES - p,
        {
            if self.pages[p].is_some() {
                count = count + 1;
            }
            p = p + 1;
        }
        count
    }
}

} // verus!

verus! {

/// How many pages `n` rows fill, the last one possibly in part.
pub open spec fn pages_needed(n: int) -> int {
    (n + ROWS_PER_PAGE - 1) / ROWS_PER_PAGE as int
}

/// With `c` pages needed for `n` rows, page `p` holds a row exactly when `p < c`.
proof fn lemma_pages_needed(p: int, n: int)
    requires
        0 <= p,
        0 <= n,
    ensures
        p * ROWS_PER_PAGE < n <==> p < pages_needed(n),
{
    lemma_capacity();
    let c = (n + 13) / 14;
    assert(14 * c <= n + 13 && n + 13 < 14 * c + 14);
    if p < c {
        assert(p * 14 < n) by (nonlinear_arith)
            requires
                p < c,
                14 * c <= n + 13,
        ;
    } else {
        assert(p * 14 >= n) by (nonlinear_arith)
            requires
                p >= c,
                n + 13 < 14 * c + 14,
        ;
    }
}

proof fn lemma_count_prefix(t: &Table, k: int)
    requires
        t.wf(),
        t.lazily_filled(),
        0 <= k <= TABLE_MAX_PAGES,
    ensures
        count_allocated(t.pages@, k) == if k < pages_needed(t.num_rows as int) {
            k
        } else {
            pages_needed(t.num_rows as int)
        },
    decreases k,
{
    lemma_capacity();
    if k > 0 {
        lemma_count_prefix(t, k - 1);
        lemma_pages_needed(k - 1, t.num_rows as int);
        assert(t.allocated(k - 1) <==> (k - 1) * ROWS_PER_PAGE < t.num_rows);
    }
}

/// When exactly the pages that hold a row are allocated, a table of `n` rows
/// has `ceil(n / ROWS_PER_PAGE)` pages allocated: none while it is empty, one
/// for its first 14 rows, a second from row 15 on.
pub proof fn lemma_lazy_allocation(t: &Table)
    requires
        t.wf(),
        t.lazily_filled(),
    ensures
        count_allocated(t.pages@, TABLE_MAX_PAGES as int) == pages_needed(t.num_rows as int),
{
    lemma_capacity();
    lemma_count_prefix(t, TABLE_MAX_PAGES as int);
}

/// Inserting rows one after another into an empty table, where each insert
/// appends its row, stores exactly the inserted rows, in insertion order.
pub proof fn lemma_insertion_order(tables: Seq<Table>, inserted: Seq<RowView>)
    requires
        tables.len() == inserted.len() + 1,
        tables[0].rows() == Seq::<RowView>::empty(),
        forall|k: int|
            0 <= k < inserted.len() ==> #[trigger] tables[k + 1].rows() == tables[k].rows().push(
                inserted[k],
            ),
    ensures
        tables[inserted.len() as int].rows() == inserted,
{
    lemma_insertion_prefix(tables, inserted, inserted.len() as int);
    assert(inserted.take(inserted.len() as int) =~= inserted);
}

/// Counting from an empty table, where each successful insert adds one row,
/// the table is full after exactly `TABLE_MAX_ROWS` successful inserts, so the
/// next insert is refused.
pub proof fn lemma_full_after_max_inserts(tables: Seq<Table>)
    requires
        tables.len() == TABLE_MAX_ROWS + 1,
        tables[0].num_rows == 0,
        forall|k: int|
            0 <= k < TABLE_MAX_ROWS ==> #[trigger] tables[k + 1].num_rows == tables[k].num_rows
                + 1,
    ensures
        tables[TABLE_MAX_ROWS as int].num_rows == TABLE_MAX_ROWS,
{
    lemma_rows_counted(tables, TABLE_MAX_ROWS as int);
}

proof fn lemma_rows_counted(tables: Seq<Table>, k: int)
    requires
        tables.len() == TABLE_MAX_ROWS + 1,
        tables[0].num_rows == 0,
        forall|j: int|
            0 <= j < TABLE_MAX_ROWS ==> #[trigger] tables[j + 1].num_rows == tables[j].num_rows
                + 1,
        0 <= k <= TABLE_MAX_ROWS,
    ensures
        tables[k].num_rows == k,
    decreases k,
{
    if k > 0 {
        lemma_rows_counted(tables, k - 1);
        assert(tables[(k - 1) + 1].num_rows == tables[k - 1].num_rows + 1);
    }
}

proof fn lemma_insertion_prefix(tables: Seq<Table>, inserted: Seq<RowView>, k: int)
    requires
        tables.len() == inserted.len() + 1,
        tables[0].rows() == Seq::<RowView>::empty(),
        forall|k: int|
            0 <= k < inserted.len() ==> #[trigger] tables[k + 1].rows() == tables[k].rows().push(
                inserted[k],
            ),
        0 <= k <= inserted.len(),
    ensures
        tables[k].rows() == inserted.take(k),
    decreases k,
{
    if k == 0 {
        assert(inserted.take(0) =~= Seq::<RowView>::empty());
    } else {
        lemma_insertion_prefix(tables, inserted, k - 1);
        assert(tables[(k - 1) + 1].rows() == tables[k - 1].rows().push(inserted[k - 1]));
        assert(inserted.take(k) =~= inserted.take(k - 1).push(inserted[k - 1]));
    }
}

} // verus!
