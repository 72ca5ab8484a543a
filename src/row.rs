use vstd::prelude::*;
use vstd::slice::slice_subrange;
use vstd::string::StringSliceAdditionalSpecFns;
use vstd::utf8::valid_utf8;

verus! {

/// Capacity of the username column, in bytes.
pub const COLUMN_USERNAME_SIZE: usize = 32;

/// Capacity of the email column, in bytes.
pub const COLUMN_EMAIL_SIZE: usize = 255;

/// Errors raised while building a row from text values.
#[derive(Debug, Clone, Copy, PartialEq, Eq, Structural)]
pub enum RowError {
    UserNameTooLong,
    EmailTooLong,
}

/// One record of the table. The text columns are kept as fixed-width,
/// zero-padded byte buffers, exactly as they are laid out in a page.
#[derive(Debug)]
pub struct Row {
    pub id: u32,
    pub username: Vec<u8>,
    pub email: Vec<u8>,
}

/// The mathematical value of a row: its identifier and its two column buffers.
pub struct RowView {
    pub id: u32,
    pub username: Seq<u8>,
    pub email: Seq<u8>,
}

impl View for Row {
    type V = RowView;

    open spec fn view(&self) -> RowView {
        RowView { id: self.id, username: self.username@, email: self.email@ }
    }
}

/// `text` left-packed into a field of `width` bytes, the rest filled with zeros.
pub open spec fn padded(text: Seq<u8>, width: nat) -> Seq<u8> {
    text + Seq::new((width - text.len()) as nat, |_i: int| 0u8)
}

/// The row built from an identifier and the UTF-8 bytes of its two text columns.
pub open spec fn row_of(id: u32, username: Seq<u8>, email: Seq<u8>) -> RowView {
    RowView {
        id,
        username: padded(username, COLUMN_USERNAME_SIZE as nat),
        email: padded(email, COLUMN_EMAIL_SIZE as nat),
    }
}

/// The stored text of `field` ends at `n`: no zero byte comes before `n`, and
/// `n` is either the end of the field or the position of a zero byte.
pub open spec fn ends_text_at(field: Seq<u8>, n: int) -> bool {
    &&& 0 <= n <= field.len()
    &&& forall|i: int| 0 <= i < n ==> field[i] != 0
    &&& n == field.len() || field[n] == 0
}

/// Where the stored text of `field` ends.
pub open spec fn text_end(field: Seq<u8>) -> int {
    choose|n: int| ends_text_at(field, n)
}

/// The text held by a column: its bytes up to the first zero byte, or nothing
/// when those bytes are not valid UTF-8.
pub open spec fn field_text(field: Seq<u8>) -> Seq<u8> {
    let t = field.take(text_end(field));
    if valid_utf8(t) {
        t
    } else {
        Seq::empty()
    }
}

/// There is exactly one place where the stored text of a field ends.
pub proof fn lemma_text_end_unique(field: Seq<u8>, n: int)
    requires
        ends_text_at(field, n),
    ensures
        text_end(field) == n,
{
    let m = text_end(field);
    assert(ends_text_at(field, m));
    if m < n {
        assert(field[m] != 0);
    } else if n < m {
        assert(field[n] != 0);
    }
}

/// Text without zero bytes that fits its field is read back unchanged after padding.
pub proof fn lemma_text_round_trip(text: Seq<u8>, width: nat)
    requires
        text.len() <= width,
        valid_utf8(text),
        forall|i: int| 0 <= i < text.len() ==> text[i] != 0,
    ensures
        field_text(padded(text, width)) == text,
{
    let field = padded(text, width);
    assert(ends_text_at(field, text.len() as int));
    lemma_text_end_unique(field, text.len() as int);
    assert(field.take(text.len() as int) =~= text);
}

impl Row {
    pub open spec fn wf(&self) -> bool {
        &&& self.username@.len() == COLUMN_USERNAME_SIZE
        &&& self.email@.len() == COLUMN_EMAIL_SIZE
    }

    /// A row with identifier zero and both columns zero-filled.
    pub fn empty() -> (r: Row)
        ensures
            r.wf(),
            r@ == row_of(0, Seq::empty(), Seq::empty()),
    {
        let r = Row {
            id: 0,
            username: zero_field(COLUMN_USERNAME_SIZE),
            email: zero_field(COLUMN_EMAIL_SIZE),
        };
        assert(r.username@ =~= padded(Seq::empty(), COLUMN_USERNAME_SIZE as nat));
        assert(r.email@ =~= padded(Seq::empty(), COLUMN_EMAIL_SIZE as nat));
        r
    }

    /// Builds a row, rejecting text that does not fit its column.
    pub fn from_values(id: u32, username: &str, email: &str) -> (r: Result<Row, RowError>)
        ensures
            username.spec_bytes().len() > COLUMN_USERNAME_SIZE ==> r == Err::<Row, RowError>(
                RowError::UserNameTooLong,
            ),
            username.spec_bytes().len() <= COLUMN_USERNAME_SIZE && email.spec_bytes().len()
                > COLUMN_EMAIL_SIZE ==> r == Err::<Row, RowError>(RowError::EmailTooLong),
            username.spec_bytes().len() <= COLUMN_USERNAME_SIZE && email.spec_bytes().len()
                <= COLUMN_EMAIL_SIZE ==> (r matches Ok(row) && row.wf() && row@ == row_of(
                id,
                username.spec_bytes(),
                email.spec_bytes(),
            )),
    {
        let username_bytes = username.as_bytes();
        let email_bytes = email.as_bytes();
        if username_bytes.len() > COLUMN_USERNAME_SIZE {
            return Err(RowError::UserNameTooLong);
        }
        if email_bytes.len() > COLUMN_EMAIL_SIZE {
            return Err(RowError::EmailTooLong);
        }
        let row = Row {
            id,
            username: padded_field(username_bytes, COLUMN_USERNAME_SIZE),
            email: padded_field(email_bytes, COLUMN_EMAIL_SIZE),
        };
        Ok(row)
    }

    /// The username as text: the bytes before the first zero byte, or the
    /// empty string when they are not valid UTF-8.
    pub fn username_as_str(&self) -> (r: &str)
        ensures
            r.spec_bytes() == field_text(self.username@),
    {
        field_as_str(self.username.as_slice())
    }

    /// The email as text: the bytes before the first zero byte, or the
    /// empty string when they are not valid UTF-8.
    pub fn email_as_str(&self) -> (r: &str)
        ensures
            r.spec_bytes() == field_text(self.email@),
    {
        field_as_str(self.email.as_slice())
    }
}

/// A field of `width` zero bytes.
pub(crate) fn zero_field(width: usize) -> (r: Vec<u8>)
    ensures
        r@ == Seq::new(width as nat, |_i: int| 0u8),
{
    let mut r: Vec<u8> = Vec::new();
    let mut i: usize = 0;
    while i < width
        invariant
            i <= width,
            r@ == Seq::new(i as nat, |_i: int| 0u8),
        decreases width - i,
    {
        r.push(0u8);
        i = i + 1;
        assert(r@ =~= Seq::new(i as nat, |_i: int| 0u8));
    }
    r
}

/// `text` copied into a fresh field of `width` bytes, zero-padded.
fn padded_field(text: &[u8], width: usize) -> (r: Vec<u8>)
    requires
        text@.len() <= width,
    ensures
        r@ == padded(text@, width as nat),
{
    let mut r: Vec<u8> = Vec::new();
    let mut i: usize = 0;
    while i < width
        invariant
            text@.len() <= width,
            i <= width,
            r@ == padded(text@, width as nat).take(i as int),
        decreases width - i,
    {
        if i < text.len() {
            r.push(text[i]);
        } else {
            r.push(0u8);
        }
        i = i + 1;
        assert(r@ =~= padded(text@, width as nat).take(i as int));
    }
    assert(r@ =~= padded(text@, width as nat));
    r
}

/// Where the text stored in `field` ends.
fn find_text_end(field: &[u8]) -> (n: usize)
    ensures
        ends_text_at(field@, n as int),
{
    let mut n: usize = 0;
    while n < field.len() && field[n] != 0
        invariant
            n <= field@.len(),
            forall|i: int| 0 <= i < n ==> field@[i] != 0,
        decreases field@.len() - n,
    {
        n = n + 1;
    }
    n
}

fn field_as_str(field: &[u8]) -> (r: &str)
    ensures
        r.spec_bytes() == field_text(field@),
{
    let end = find_text_end(field);
    proof {
        lemma_text_end_unique(field@, end as int);
    }
    let text = slice_subrange(field, 0, end);
    assert(text@ =~= field@.take(end as int));
    match utf8_str(text) {
        Some(s) => s,
        None => {
            let empty = "";
            proof {
                reveal_strlit("");
            }
            empty
        },
    }
}

/// Relies on std::str::from_utf8: it accepts exactly the byte sequences that
/// are valid UTF-8, and then reads those same bytes as text.
#[verifier::external_body]
fn utf8_str(bytes: &[u8]) -> (r: Option<&str>)
    ensures
        r is Some <==> valid_utf8(bytes@),
        r matches Some(s) ==> s.spec_bytes() == bytes@,
{
    std::str::from_utf8(bytes).ok()
}

} // verus!
