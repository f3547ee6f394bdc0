//! Splitting a byte buffer into lines on the newline byte.
use vstd::prelude::*;
use vstd::slice::slice_subrange;

verus! {

/// Relies on memchr::memchr: the index of the first byte equal to `needle`,
/// or `None` when there is none.
pub assume_specification[ memchr::memchr ](needle: u8, haystack: &[u8]) -> (r: Option<usize>)
    ensures
        match r {
            Some(n) => {
                &&& n < haystack@.len()
                &&& haystack@[n as int] == needle
                &&& forall|i: int| 0 <= i < n ==> haystack@[i] != needle
            },
            None => forall|i: int| 0 <= i < haystack@.len() ==> haystack@[i] != needle,
        },
;

/// The lines of `buf[start..]` for a line that began at `start` and has been
/// read up to `pos`: split on the newline byte, the newline left out, a last
/// line without newline kept, nothing for an empty rest.
pub open spec fn split_from(buf: Seq<u8>, start: int, pos: int) -> Seq<Seq<u8>>
    decreases buf.len() - pos,
{
    if pos >= buf.len() {
        if start < buf.len() {
            seq![buf.subrange(start, buf.len() as int)]
        } else {
            seq![]
        }
    } else if buf[pos] == 10u8 {
        seq![buf.subrange(start, pos)] + split_from(buf, pos + 1, pos + 1)
    } else {
        split_from(buf, start, pos + 1)
    }
}

/// The lines of a whole buffer.
pub open spec fn lines_of(buf: Seq<u8>) -> Seq<Seq<u8>> {
    split_from(buf, 0, 0)
}

proof fn lemma_skip_plain(buf: Seq<u8>, start: int, k: int, m: int)
    requires
        start <= k <= m <= buf.len(),
        forall|i: int| k <= i < m ==> buf[i] != 10u8,
    ensures
        split_from(buf, start, k) == split_from(buf, start, m),
    decreases m - k,
{
    if k < m {
        lemma_skip_plain(buf, start, k + 1, m);
    }
}

/// A buffer of `n` bytes has at most `n` lines.
pub proof fn lemma_lines_len(buf: Seq<u8>, start: int, pos: int)
    requires
        0 <= start <= pos <= buf.len(),
    ensures
        split_from(buf, start, pos).len() <= buf.len() - start,
    decreases buf.len() - pos,
{
    if pos < buf.len() {
        if buf[pos] == 10u8 {
            lemma_lines_len(buf, pos + 1, pos + 1);
        } else {
            lemma_lines_len(buf, start, pos + 1);
        }
    }
}

/// A byte buffer to be read line by line.
pub struct ByteLines<'a>(pub &'a [u8]);

/// A position in a buffer, always at the start of a line or at its end.
pub struct ByteLinesState<'a> {
    pub buf: &'a [u8],
    pub pos: usize,
}

impl<'a> ByteLinesState<'a> {
    /// The lines not read yet.
    pub open spec fn remaining(&self) -> Seq<Seq<u8>> {
        split_from(self.buf@, self.pos as int, self.pos as int)
    }

    /// Hands out the next line, without its newline byte.
    pub fn next(&mut self) -> (r: Option<&'a [u8]>)
        requires
            old(self).pos <= old(self).buf@.len(),
        ensures
            final(self).buf == old(self).buf,
            final(self).pos <= final(self).buf@.len(),
            match r {
                None => old(self).remaining() == Seq::<Seq<u8>>::empty() && final(self).pos
                    == old(self).pos,
                Some(line) => {
                    &&& old(self).remaining() == seq![line@] + final(self).remaining()
                    &&& final(self).pos > old(self).pos
                },
            },
    {
        let len = self.buf.len();
        let rest = slice_subrange(self.buf, self.pos, len);
        let ghost buf = self.buf@;
        let ghost p = self.pos as int;
        match memchr::memchr(10u8, rest) {
            Some(n) => {
                let start = self.pos;
                proof {
                    assert forall|i: int| p <= i < p + n implies buf[i] != 10u8 by {
                        assert(rest@[i - p] == buf[i]);
                    }
                    assert(rest@[n as int] == buf[p + n]);
                    lemma_skip_plain(buf, p, p, p + n);
                }
                self.pos = self.pos + n + 1;
                Some(slice_subrange(self.buf, start, self.pos - 1))
            },
            None => {
                if self.pos == len {
                    return None;
                }
                let start = self.pos;
                proof {
                    assert forall|i: int| p <= i < buf.len() implies buf[i] != 10u8 by {
                        assert(rest@[i - p] == buf[i]);
                    }
                    lemma_skip_plain(buf, p, p, buf.len() as int);
                }
                self.pos = len;
                Some(slice_subrange(self.buf, start, len))
            },
        }
    }
}

/// The number of lines of a buffer.
pub fn line_count(bytes: &[u8]) -> (r: usize)
    ensures
        r == lines_of(bytes@).len(),
{
    let len = bytes.len();
    proof {
        lemma_lines_len(bytes@, 0, 0);
    }
    let mut it = ByteLines(bytes).lines();
    let mut n: usize = 0;
    loop
        invariant
            it.buf == bytes,
            it.pos <= bytes@.len(),
            len == bytes@.len(),
            lines_of(bytes@).len() <= len,
            n + it.remaining().len() == lines_of(bytes@).len(),
        ensures
            n == lines_of(bytes@).len(),
        decreases bytes@.len() - it.pos,
    {
        match it.next() {
            None => break,
            Some(_) => {
                n = n + 1;
            },
        }
    }
    n
}

impl<'a> ByteLines<'a> {
    /// Starts reading at the first line.
    pub fn lines(&self) -> (r: ByteLinesState<'a>)
        ensures
            r.buf == self.0,
            r.pos == 0,
            r.remaining() == lines_of(self.0@),
    {
        ByteLinesState { buf: self.0, pos: 0 }
    }
}

} // verus!
