use vstd::prelude::*;
use vstd::utf8::encode_utf8;
use crate::input_buffer::InputBuffer;
use crate::row::{row_of, Row, RowError, RowView, COLUMN_EMAIL_SIZE, COLUMN_USERNAME_SIZE};
use crate::statement::{MetaCommandResult, PrepareResult, Statement, StatementType};

verus! {

/// The whitespace-separated words of `s`, in order.
pub uninterp spec fn words_of(s: Seq<char>) -> Seq<Seq<char>>;

/// Relies on str::split_whitespace: the words of the line, in order.
#[verifier::external_body]
fn split_words(s: &str) -> (r: Vec<String>)
    ensures
        r.deep_view() == words_of(s@),
{
    s.split_whitespace().map(String::from).collect()
}

/// The value of a decimal digit.
pub open spec fn digit_value(c: char) -> int {
    c as int - '0' as int
}

/// `d` is one or more ASCII decimal digits.
pub open spec fn is_digits(d: Seq<char>) -> bool {
    &&& d.len() > 0
    &&& forall|i: int| 0 <= i < d.len() ==> '0' <= #[trigger] d[i] <= '9'
}

/// The number that the decimal digits `d` write.
pub open spec fn decimal_value(d: Seq<char>) -> int
    decreases d.len(),
{
    if d.len() == 0 {
        0
    } else {
        decimal_value(d.drop_last()) * 10 + digit_value(d.last())
    }
}

/// `s` without a leading '+', if it has one.
pub open spec fn unsigned_part(s: Seq<char>) -> Seq<char> {
    if s.len() > 0 && s[0] == '+' {
        s.drop_first()
    } else {
        s
    }
}

/// The `u32` that `s` writes in decimal, with an optional leading '+'.
pub open spec fn u32_text(s: Seq<char>) -> Option<u32> {
    let d = unsigned_part(s);
    if is_digits(d) && decimal_value(d) <= u32::MAX {
        Some(decimal_value(d) as u32)
    } else {
        None
    }
}

/// Relies on u32's FromStr: an optional '+' followed by decimal digits whose
/// value fits in 32 bits; anything else is an error.
#[verifier::external_body]
fn parse_u32(s: &str) -> (r: Option<u32>)
    ensures
        r == u32_text(s@),
{
    s.parse::<u32>().ok()
}

/// The row that the words `insert <id> <username> <email>` describe, when the
/// id is a `u32` and both texts fit their columns.
pub open spec fn inserted_row(w: Seq<Seq<char>>) -> Option<RowView> {
    if w.len() >= 4 && u32_text(w[1]) is Some && encode_utf8(w[2]).len() <= COLUMN_USERNAME_SIZE
        && encode_utf8(w[3]).len() <= COLUMN_EMAIL_SIZE {
        Some(row_of(u32_text(w[1]).unwrap(), encode_utf8(w[2]), encode_utf8(w[3])))
    } else {
        None
    }
}

/// How preparing a statement from the words `w` ends.
pub open spec fn prepare_outcome(w: Seq<Seq<char>>) -> PrepareResult {
    if w.len() == 0 {
        PrepareResult::SyntaxError
    } else if w[0] == "insert"@ {
        if inserted_row(w) is Some {
            PrepareResult::Success
        } else {
            PrepareResult::SyntaxError
        }
    } else if w[0] == "select"@ {
        PrepareResult::Success
    } else {
        PrepareResult::UnrecognizedStatement
    }
}

/// Reads a statement from the words of a line into `statement`, which is
/// left as it was unless the result is `Success`.
pub fn prepare_words(words: &Vec<String>, statement: &mut Statement) -> (r: PrepareResult)
    ensures
        r == prepare_outcome(words.deep_view()),
        r != PrepareResult::Success ==> *final(statement) == *old(statement),
        r == PrepareResult::Success && words.deep_view()[0] == "insert"@ ==> final(statement).stype
            == StatementType::Insert && (final(statement).row_to_insert matches Some(row) && row.wf()
            && inserted_row(words.deep_view()) == Some(row@)),
        r == PrepareResult::Success && words.deep_view()[0] != "insert"@ ==> final(statement).stype
            == StatementType::Select && final(statement).row_to_insert is None,
{
    let ghost w = words.deep_view();
    if words.len() == 0 {
        return PrepareResult::SyntaxError;
    }
    assert(words@[0]@ == w[0]);
    if words[0] == "insert".to_owned() {
        if words.len() < 4 {
            return PrepareResult::SyntaxError;
        }
        assert(words@[1]@ == w[1] && words@[2]@ == w[2] && words@[3]@ == w[3]);
        let id = match parse_u32(words[1].as_str()) {
            Some(v) => v,
            None => {
                return PrepareResult::SyntaxError;
            },
        };
        let row = match Row::from_values(id, words[2].as_str(), words[3].as_str()) {
            Ok(row) => row,
            Err(RowError::UserNameTooLong) | Err(RowError::EmailTooLong) => {
                return PrepareResult::SyntaxError;
            },
        };
        statement.stype = StatementType::Insert;
        statement.row_to_insert = Some(row);
        return PrepareResult::Success;
    }
    if words[0] == "select".to_owned() {
        statement.stype = StatementType::Select;
        statement.row_to_insert = None;
        return PrepareResult::Success;
    }
    PrepareResult::UnrecognizedStatement
}

/// Reads a statement from the input line into `statement`, which is left as
/// it was unless the result is `Success`.
pub fn prepare_statement(input: &InputBuffer, statement: &mut Statement) -> (r: PrepareResult)
    ensures
        r == prepare_outcome(words_of(input.buffer@)),
        r != PrepareResult::Success ==> *final(statement) == *old(statement),
        r == PrepareResult::Success && words_of(input.buffer@)[0] == "insert"@
            ==> final(statement).stype == StatementType::Insert && (final(statement).row_to_insert
            matches Some(row) && row.wf() && inserted_row(words_of(input.buffer@)) == Some(row@)),
        r == PrepareResult::Success && words_of(input.buffer@)[0] != "insert"@
            ==> final(statement).stype == StatementType::Select && final(statement).row_to_insert
            is None,
{
    let words = split_words(input.buffer.as_str());
    prepare_words(&words, statement)
}

/// What a meta command line asks for: `.exit` ends the session, anything
/// else is not recognised.
pub fn do_meta_command(input: &InputBuffer) -> (r: MetaCommandResult)
    ensures
        input.buffer@ == ".exit"@ ==> r == MetaCommandResult::Exit,
        input.buffer@ != ".exit"@ ==> r == MetaCommandResult::UnrecognizedCommand,
{
    if input.buffer == ".exit".to_owned() {
        MetaCommandResult::Exit
    } else {
        MetaCommandResult::UnrecognizedCommand
    }
}

} // verus!
