use vstd::prelude::*;
use vstd::string::StringExecFns;

verus! {

/// The exact text that `submit` accepts: the sentinel followed by the six
/// expected tokens, single-space separated.
pub open spec fn secret_text() -> Seq<char> {
    ">: 4 8 15 16 23 42"@
}

/// The sentinel prefix that an empty entry buffer shows.
pub open spec fn sentinel() -> Seq<char> {
    ">:"@
}

/// A fixed two-line text naming the accepted code; the embedder places it
/// once, after the bulk pass.
pub open spec fn note_text() -> Seq<char> {
    "THE CODE IS LOST: 4 8 15 16 23 42\nUTILIZE THE CODE TO FIX FILES"@
}

/// The note's text as a value.
pub fn recovery_note() -> (s: String)
    ensures
        s@ == note_text(),
{
    "THE CODE IS LOST: 4 8 15 16 23 42\nUTILIZE THE CODE TO FIX FILES".to_owned()
}

/// Entry gate: accumulates up to six token labels into a display buffer and
/// compares the buffer against the exact secret text on submit. Comparison is
/// plain text equality, never numeric parsing.
pub struct Gate {
    buf: String,
    count: usize,
}

impl Gate {
    /// The current display buffer.
    pub closed spec fn buffer(&self) -> Seq<char> {
        self.buf@
    }

    /// How many tokens are currently accumulated.
    pub closed spec fn token_count(&self) -> nat {
        self.count as nat
    }

    /// The buffer never accumulates more than six tokens.
    pub open spec fn well_formed(&self) -> bool {
        self.token_count() <= 6
    }

    pub fn new() -> (g: Gate)
        ensures
            g.well_formed(),
            g.buffer() == sentinel(),
            g.token_count() == 0,
    {
        Gate { buf: ">:".to_owned(), count: 0 }
    }

    /// The buffer as text, for display.
    pub fn text(&self) -> (t: String)
        ensures
            t@ == self.buffer(),
    {
        self.buf.clone()
    }

    /// How many tokens are currently accumulated.
    pub fn tokens_accumulated(&self) -> (n: usize)
        ensures
            n == self.token_count(),
    {
        self.count
    }

    /// Appends one token label while fewer than six tokens are accumulated;
    /// any further token is dropped, not queued.
    pub fn append_token(&mut self, label: &str)
        requires
            old(self).well_formed(),
        ensures
            final(self).well_formed(),
            old(self).token_count() < 6 ==> final(self).buffer() == old(self).buffer() + " "@
                + label@ && final(self).token_count() == old(self).token_count() + 1,
            old(self).token_count() >= 6 ==> *final(self) == *old(self),
    {
        if self.count <= 5 {
            self.buf.append(" ");
            self.buf.append(label);
            self.count = self.count + 1;
        }
    }

    /// Compares the buffer against the exact secret text. Accepted or not,
    /// the buffer resets to the bare sentinel and the token count to zero.
    pub fn submit(&mut self) -> (accepted: bool)
        ensures
            accepted == (old(self).buffer() == secret_text()),
            final(self).buffer() == sentinel(),
            final(self).token_count() == 0,
            final(self).well_formed(),
    {
        let secret: String = ">: 4 8 15 16 23 42".to_owned();
        let accepted: bool = self.buf == secret;
        self.buf = ">:".to_owned();
        self.count = 0;
        accepted
    }
}

} // verus!
