//! The transport abstraction: the bytes received on a connection, consumed
//! through a line reader and an exact-byte reader.

use vstd::prelude::*;

use vstd::utf8::{decode_utf8, valid_utf8};

verus! {

/// The line-feed and carriage-return bytes.
pub open spec fn lf() -> u8 {
    10
}

pub open spec fn cr() -> u8 {
    13
}

/// The position of the first line feed at or after `pos`, or the end of the
/// data when there is none.
pub open spec fn line_end(data: Seq<u8>, pos: int) -> int
    decreases data.len() - pos,
{
    if pos < 0 || pos >= data.len() {
        data.len() as int
    } else if data[pos] == lf() {
        pos
    } else {
        line_end(data, pos + 1)
    }
}

pub proof fn lemma_line_end(data: Seq<u8>, pos: int)
    requires
        0 <= pos <= data.len(),
    ensures
        pos <= line_end(data, pos) <= data.len(),
        line_end(data, pos) < data.len() ==> data[line_end(data, pos)] == lf(),
        forall|i: int| pos <= i < line_end(data, pos) ==> data[i] != lf(),
    decreases data.len() - pos,
{
    if pos < data.len() && data[pos] != lf() {
        lemma_line_end(data, pos + 1);
    }
}

/// A line's raw bytes with a single trailing carriage return removed.
pub open spec fn strip_cr(l: Seq<u8>) -> Seq<u8> {
    if l.len() > 0 && l.last() == cr() {
        l.drop_last()
    } else {
        l
    }
}

/// The content bytes of the line starting at `pos`: everything up to the
/// next line feed, with the terminator and a trailing carriage return
/// stripped.
pub open spec fn spec_line(data: Seq<u8>, pos: int) -> Seq<u8> {
    strip_cr(data.subrange(pos, line_end(data, pos)))
}

/// The position just past the line starting at `pos`.
pub open spec fn spec_next(data: Seq<u8>, pos: int) -> int {
    if line_end(data, pos) < data.len() {
        line_end(data, pos) + 1
    } else {
        data.len() as int
    }
}

/// Reading a line always advances a non-exhausted stream.
pub proof fn lemma_next_advances(data: Seq<u8>, pos: int)
    requires
        0 <= pos < data.len(),
    ensures
        pos < spec_next(data, pos) <= data.len(),
        line_end(data, pos) < data.len() ==> spec_next(data, pos) == line_end(data, pos) + 1,
{
    lemma_line_end(data, pos);
}

/// Relies on `String::from_utf8`: it returns `Ok` exactly on UTF-8 input,
/// decoding it, and `Err` otherwise.
#[verifier::external_body]
pub(crate) fn bytes_to_string(v: Vec<u8>) -> (r: Option<String>)
    ensures
        r matches Some(s) ==> valid_utf8(v@) && s@ == decode_utf8(v@),
        r is None ==> !valid_utf8(v@),
{
    String::from_utf8(v).ok()
}

/// The bytes received on one connection, consumed front to back.
pub struct ByteStream {
    data: Vec<u8>,
    pos: usize,
}

impl ByteStream {
    pub closed spec fn data(&self) -> Seq<u8> {
        self.data@
    }

    pub closed spec fn pos(&self) -> int {
        self.pos as int
    }

    /// The stream is a cursor into its data.
    pub open spec fn wf(&self) -> bool {
        0 <= self.pos() <= self.data().len()
    }

    /// Wraps the bytes received on a connection.
    pub fn new(data: Vec<u8>) -> (r: Self)
        ensures
            r.wf(),
            r.data() == data@,
            r.pos() == 0,
    {
        ByteStream { data, pos: 0 }
    }

    /// Takes the next line's content bytes, or `None` when the stream is
    /// exhausted.
    pub fn take_line_bytes(&mut self) -> (r: Option<Vec<u8>>)
        requires
            old(self).wf(),
        ensures
            final(self).wf(),
            final(self).data() == old(self).data(),
            old(self).pos() == old(self).data().len() ==> r is None && final(self).pos() == old(
                self,
            ).pos(),
            old(self).pos() < old(self).data().len() ==> (r matches Some(l) && l@ == spec_line(
                old(self).data(),
                old(self).pos(),
            ) && final(self).pos() == spec_next(old(self).data(), old(self).pos())),
    {
        proof {
            lemma_line_end(self.data@, self.pos as int);
        }
        let n = self.data.len();
        if self.pos == n {
            return None;
        }
        let start = self.pos;
        let mut end: usize = start;
        while end < n && self.data[end] != 10
            invariant
                start <= end <= n,
                n == self.data@.len(),
                forall|i: int| start <= i < end ==> self.data@[i] != lf(),
            decreases n - end,
        {
            end += 1;
        }
        proof {
            assert(end == line_end(self.data@, start as int)) by {
                lemma_line_end_unique(self.data@, start as int, end as int);
            }
        }
        let mut line: Vec<u8> = Vec::new();
        let mut i: usize = start;
        while i < end
            invariant
                start <= i <= end <= n,
                n == self.data@.len(),
                line@ == self.data@.subrange(start as int, i as int),
            decreases end - i,
        {
            line.push(self.data[i]);
            proof {
                assert(line@ =~= self.data@.subrange(start as int, i + 1));
            }
            i += 1;
        }
        if line.len() > 0 && line[line.len() - 1] == 13 {
            line.pop();
            proof {
                assert(line@ =~= spec_line(self.data@, start as int));
            }
        } else {
            proof {
                assert(line@ =~= spec_line(self.data@, start as int));
            }
        }
        if end < n {
            self.pos = end + 1;
        } else {
            self.pos = n;
        }
        Some(line)
    }

    /// Takes the next line decoded as text: `Ok(None)` on an exhausted
    /// stream, `Ok(Some(..))` on a UTF-8 line, `Err(())` on one that is not.
    pub fn take_line(&mut self) -> (r: Result<Option<String>, ()>)
        requires
            old(self).wf(),
        ensures
            final(self).wf(),
            final(self).data() == old(self).data(),
            old(self).pos() == old(self).data().len() ==> r == Ok::<Option<String>, ()>(None)
                && final(self).pos() == old(self).pos(),
            old(self).pos() < old(self).data().len() ==> {
                let content = spec_line(old(self).data(), old(self).pos());
                &&& final(self).pos() == spec_next(old(self).data(), old(self).pos())
                &&& valid_utf8(content) ==> (r matches Ok(o) && o matches Some(s) && s@
                    == decode_utf8(content))
                &&& !valid_utf8(content) ==> r is Err
            },
    {
        match self.take_line_bytes() {
            None => Ok(None),
            Some(bytes) => match bytes_to_string(bytes) {
                Some(s) => Ok(Some(s)),
                None => Err(()),
            },
        }
    }

    /// How many bytes remain.
    pub fn remaining(&self) -> (r: usize)
        requires
            self.wf(),
        ensures
            r == self.data().len() - self.pos(),
    {
        self.data.len() - self.pos
    }

    /// Reads exactly `n` bytes. When fewer remain the stream is left
    /// unchanged and the read fails, as a read from a closed connection
    /// does.
    pub fn read_exact(&mut self, n: usize) -> (r: Result<Vec<u8>, ()>)
        requires
            old(self).wf(),
        ensures
            final(self).wf(),
            final(self).data() == old(self).data(),
            old(self).pos() + n <= old(self).data().len() ==> (r matches Ok(b) && b@ == old(
                self,
            ).data().subrange(old(self).pos(), old(self).pos() + n) && final(self).pos() == old(
                self,
            ).pos() + n),
            old(self).pos() + n > old(self).data().len() ==> r is Err && final(self).pos() == old(
                self,
            ).pos(),
    {
        if n > self.data.len() - self.pos {
            return Err(());
        }
        let start = self.pos;
        let len = self.data.len();
        let mut out: Vec<u8> = Vec::new();
        let mut i: usize = 0;
        while i < n
            invariant
                i <= n,
                start + n <= len,
                len == self.data@.len(),
                out@ == self.data@.subrange(start as int, start + i),
            decreases n - i,
        {
            out.push(self.data[start + i]);
            proof {
                assert(out@ =~= self.data@.subrange(start as int, start + i + 1));
            }
            i += 1;
        }
        self.pos = start + n;
        Ok(out)
    }
}

/// A scan that stops at the first line feed at or after `pos` finds
/// `line_end`.
proof fn lemma_line_end_unique(data: Seq<u8>, pos: int, e: int)
    requires
        0 <= pos <= e <= data.len(),
        forall|i: int| pos <= i < e ==> data[i] != lf(),
        e < data.len() ==> data[e] == lf(),
    ensures
        line_end(data, pos) == e,
    decreases e - pos,
{
    if pos < e {
        lemma_line_end_unique(data, pos + 1, e);
    }
}

} // verus!
