use vstd::prelude::*;

verus! {

/// The text of one input line.
pub struct InputBuffer {
    pub buffer: String,
}

/// `s` without its leading and trailing whitespace.
pub uninterp spec fn trimmed(s: Seq<char>) -> Seq<char>;

/// Relies on str::trim: the same text without leading and trailing whitespace.
#[verifier::external_body]
fn trim_text(s: &str) -> (r: &str)
    ensures
        r@ == trimmed(s@),
{
    s.trim()
}

impl InputBuffer {
    /// An empty buffer.
    pub fn new() -> (r: InputBuffer)
        ensures
            r.buffer@ == Seq::<char>::empty(),
    {
        InputBuffer { buffer: String::new() }
    }

    /// Whether the line is a meta command, that is, starts with '.'.
    pub fn is_meta_command(&self) -> (r: bool)
        ensures
            r == (self.buffer@.len() > 0 && self.buffer@[0] == '.'),
    {
        let text = self.buffer.as_str();
        text.unicode_len() > 0 && text.get_char(0) == '.'
    }

    /// Removes leading and trailing whitespace, line endings included.
    pub fn normalize(&mut self)
        ensures
            final(self).buffer@ == trimmed(old(self).buffer@),
    {
        let text = trim_text(self.buffer.as_str()).to_owned();
        self.buffer = text;
    }
}

} // verus!
