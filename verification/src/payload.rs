//! The byte source that frames are decoded from: chunks of bytes in the
//! order of their arrival, consumed from the front.
//!
//! The transport hands over each chunk as it arrives, and says when the
//! stream has ended. Nothing here waits: an operation that lacks bytes says
//! so, and is asked again once more have been fed.

use crate::poll::Async;
use std::collections::VecDeque;
use vstd::prelude::*;
use vstd::slice::slice_subrange;

verus! {

/// The bytes of a list of chunks, one chunk after the other.
pub open spec fn concat(chunks: Seq<Vec<u8>>) -> Seq<u8>
    decreases chunks.len(),
{
    if chunks.len() == 0 {
        Seq::empty()
    } else {
        chunks[0]@ + concat(chunks.drop_first())
    }
}

/// A chunk added at the back adds its bytes at the end.
pub proof fn lemma_concat_push(chunks: Seq<Vec<u8>>, chunk: Vec<u8>)
    ensures
        concat(chunks.push(chunk)) == concat(chunks) + chunk@,
    decreases chunks.len(),
{
    if chunks.len() == 0 {
        assert(chunks.push(chunk).drop_first() =~= chunks);
        assert(concat(chunks.push(chunk)) =~= concat(chunks) + chunk@);
    } else {
        lemma_concat_push(chunks.drop_first(), chunk);
        assert(chunks.push(chunk).drop_first() =~= chunks.drop_first().push(chunk));
        assert(concat(chunks.push(chunk)) =~= concat(chunks) + chunk@);
    }
}

/// The bytes of a list are those of its first `n` chunks followed by those
/// of the rest.
pub proof fn lemma_concat_split(chunks: Seq<Vec<u8>>, n: int)
    requires
        0 <= n <= chunks.len(),
    ensures
        concat(chunks) == concat(chunks.take(n)) + concat(chunks.skip(n)),
    decreases n,
{
    if n == 0 {
        assert(chunks.skip(0) =~= chunks);
        assert(concat(chunks) =~= concat(chunks.take(n)) + concat(chunks.skip(n)));
    } else {
        let rest = chunks.drop_first();
        lemma_concat_split(rest, n - 1);
        assert(chunks.take(n).drop_first() =~= rest.take(n - 1));
        assert(chunks.skip(n) =~= rest.skip(n - 1));
        assert(concat(chunks) =~= concat(chunks.take(n)) + concat(chunks.skip(n)));
    }
}

/// Where chunk `i` lies within the bytes of its list: right after the
/// bytes of the chunks before it.
pub proof fn lemma_concat_chunk(chunks: Seq<Vec<u8>>, i: int)
    requires
        0 <= i < chunks.len(),
    ensures
        concat(chunks.take(i + 1)) == concat(chunks.take(i)) + chunks[i]@,
        concat(chunks.take(i)).len() + chunks[i]@.len() <= concat(chunks).len(),
        concat(chunks).subrange(
            concat(chunks.take(i)).len() as int,
            (concat(chunks.take(i)).len() + chunks[i]@.len()) as int,
        ) == chunks[i]@,
{
    lemma_concat_push(chunks.take(i), chunks[i]);
    assert(chunks.take(i + 1) =~= chunks.take(i).push(chunks[i]));
    lemma_concat_split(chunks, i + 1);
    let before = concat(chunks.take(i)).len() as int;
    assert(concat(chunks).subrange(before, before + chunks[i]@.len()) =~= chunks[i]@);
}

/// Buffered input of one connection.
pub struct PayloadBuffer {
    /// Chunks in arrival order; none is empty.
    chunks: VecDeque<Vec<u8>>,
    /// How many bytes of the first chunk have been consumed already.
    head: usize,
    /// How many bytes are buffered and not consumed.
    len: usize,
    /// Whether the stream has ended.
    eof: bool,
}

impl PayloadBuffer {
    /// The representation is consistent: no chunk is empty, the first one
    /// is not used up, and the count of bytes is right.
    pub closed spec fn wf(&self) -> bool {
        &&& forall|i: int| 0 <= i < self.chunks@.len() ==> (#[trigger] self.chunks@[i])@.len() > 0
        &&& self.chunks@.len() == 0 ==> self.head == 0
        &&& self.chunks@.len() > 0 ==> self.head < self.chunks@[0]@.len()
        &&& self.len + self.head == concat(self.chunks@).len()
    }

    /// The bytes that are buffered and not yet consumed, in arrival order.
    pub closed spec fn bytes(&self) -> Seq<u8> {
        concat(self.chunks@).skip(self.head as int)
    }

    /// The bytes at the front that lie in one piece: what is left of the
    /// first chunk.
    pub closed spec fn front(&self) -> Seq<u8> {
        if self.chunks@.len() == 0 {
            Seq::empty()
        } else {
            self.chunks@[0]@.skip(self.head as int)
        }
    }

    /// Whether the stream has ended: no byte will follow those buffered.
    pub closed spec fn ended(&self) -> bool {
        self.eof
    }

    /// The front piece is a prefix of the buffered bytes, and is empty only
    /// if nothing is buffered.
    pub proof fn lemma_front_is_prefix(&self)
        requires
            self.wf(),
        ensures
            self.front().len() <= self.bytes().len(),
            self.front() == self.bytes().subrange(0, self.front().len() as int),
            self.front().len() == 0 <==> self.bytes().len() == 0,
    {
        if self.chunks@.len() > 0 {
            assert(self.front() =~= self.bytes().subrange(0, self.front().len() as int));
        }
    }

    /// The buffered bytes can be counted in a `usize`.
    pub proof fn lemma_len_fits(&self)
        requires
            self.wf(),
        ensures
            self.bytes().len() <= usize::MAX,
    {
    }

    /// An empty buffer on a stream that has not ended.
    pub fn new() -> (pl: PayloadBuffer)
        ensures
            pl.wf(),
            pl.bytes() == Seq::<u8>::empty(),
            !pl.ended(),
    {
        let pl = PayloadBuffer { chunks: VecDeque::new(), head: 0, len: 0, eof: false };
        assert(pl.bytes() =~= Seq::<u8>::empty());
        pl
    }

    /// Takes in a chunk that has arrived.
    pub fn feed(&mut self, chunk: Vec<u8>)
        requires
            old(self).wf(),
            old(self).bytes().len() + chunk@.len() <= usize::MAX,
        ensures
            final(self).wf(),
            final(self).bytes() == old(self).bytes() + chunk@,
            final(self).ended() == old(self).ended(),
    {
        if chunk.len() == 0 {
            assert(self.bytes() + chunk@ =~= self.bytes());
            return ;
        }
        proof {
            lemma_concat_push(self.chunks@, chunk);
        }
        self.len = self.len + chunk.len();
        self.chunks.push_back(chunk);
        assert(self.bytes() =~= old(self).bytes() + chunk@);
    }

    /// Records that the stream has ended.
    pub fn feed_eof(&mut self)
        requires
            old(self).wf(),
        ensures
            final(self).wf(),
            final(self).bytes() == old(self).bytes(),
            final(self).ended(),
    {
        self.eof = true;
    }

    /// The number of bytes buffered.
    pub fn len(&self) -> (n: usize)
        requires
            self.wf(),
        ensures
            n == self.bytes().len(),
    {
        self.len
    }

    /// Whether the stream has ended.
    pub fn is_eof(&self) -> (b: bool)
        ensures
            b == self.ended(),
    {
        self.eof
    }

    /// The bytes at the front that lie in one piece, without consuming
    /// them. With nothing buffered: `Ready(None)` once the stream has
    /// ended, `NotReady` before.
    pub fn get_chunk(&self) -> (r: Async<Option<&[u8]>>)
        requires
            self.wf(),
        ensures
            match r {
                Async::Ready(Some(chunk)) => chunk@ == self.front() && self.bytes().len() > 0,
                Async::Ready(None) => self.bytes().len() == 0 && self.ended(),
                Async::NotReady => self.bytes().len() == 0 && !self.ended(),
            },
    {
        if self.chunks.len() == 0 {
            if self.eof {
                Async::Ready(None)
            } else {
                Async::NotReady
            }
        } else {
            let first = &self.chunks[0];
            let chunk = slice_subrange(first.as_slice(), self.head, first.len());
            Async::Ready(Some(chunk))
        }
    }

    /// Whether `size` bytes are buffered. With fewer: `Ready(None)` once
    /// the stream has ended, `NotReady` before.
    pub fn can_read(&self, size: usize) -> (r: Async<Option<bool>>)
        requires
            self.wf(),
        ensures
            match r {
                Async::Ready(Some(b)) => b && size <= self.bytes().len(),
                Async::Ready(None) => size > self.bytes().len() && self.ended(),
                Async::NotReady => size > self.bytes().len() && !self.ended(),
            },
    {
        if size <= self.len {
            Async::Ready(Some(true))
        } else if self.eof {
            Async::Ready(None)
        } else {
            Async::NotReady
        }
    }

    /// A copy of the first `size` bytes, gathered across chunks, without
    /// consuming them. With fewer buffered: `Ready(None)` once the stream
    /// has ended, `NotReady` before.
    pub fn copy(&self, size: usize) -> (r: Async<Option<Vec<u8>>>)
        requires
            self.wf(),
        ensures
            match r {
                Async::Ready(Some(buf)) => size <= self.bytes().len() && buf@
                    == self.bytes().subrange(0, size as int),
                Async::Ready(None) => size > self.bytes().len() && self.ended(),
                Async::NotReady => size > self.bytes().len() && !self.ended(),
            },
    {
        if size <= self.len {
            Async::Ready(Some(self.gather(size)))
        } else if self.eof {
            Async::Ready(None)
        } else {
            Async::NotReady
        }
    }

    /// A copy of the first `size` bytes, which must be buffered.
    fn gather(&self, size: usize) -> (buf: Vec<u8>)
        requires
            self.wf(),
            size <= self.bytes().len(),
        ensures
            buf@ == self.bytes().subrange(0, size as int),
    {
        let ghost all = concat(self.chunks@);
        let mut buf: Vec<u8> = Vec::with_capacity(size);
        let count = self.chunks.len();
        let mut i: usize = 0;
        let mut start: usize = self.head;
        while buf.len() < size
            invariant
                self.wf(),
                count == self.chunks@.len(),
                all == concat(self.chunks@),
                size <= self.len,
                buf@.len() <= size,
                i <= self.chunks@.len(),
                i < self.chunks@.len() ==> start < self.chunks@[i as int]@.len(),
                self.head + buf@.len() == concat(self.chunks@.take(i as int)).len() + start,
                buf@ == all.subrange(self.head as int, self.head + buf@.len()),
            decreases size - buf@.len(),
        {
            proof {
                assert(self.chunks@.take(self.chunks@.len() as int) =~= self.chunks@);
                if i < self.chunks@.len() {
                    lemma_concat_chunk(self.chunks@, i as int);
                }
            }
            let chunk = &self.chunks[i];
            let avail = chunk.len() - start;
            let want = size - buf.len();
            let take = if want < avail {
                want
            } else {
                avail
            };
            let piece = slice_subrange(chunk.as_slice(), start, start + take);
            let ghost before = buf@;
            buf.extend_from_slice(piece);
            assert(buf@ =~= before + piece@);
            assert(buf@ =~= all.subrange(self.head as int, self.head + buf@.len()));
            if take == avail {
                i = i + 1;
                start = 0;
            } else {
                start = start + take;
            }
        }
        assert(buf@ =~= self.bytes().subrange(0, size as int));
        buf
    }

    /// Discards the first `size` bytes, which must be buffered.
    pub fn drop_payload(&mut self, size: usize)
        requires
            old(self).wf(),
            size <= old(self).bytes().len(),
        ensures
            final(self).wf(),
            final(self).bytes() == old(self).bytes().skip(size as int),
            final(self).ended() == old(self).ended(),
    {
        let mut left: usize = size;
        while left > 0
            invariant
                self.wf(),
                left <= size,
                size <= old(self).bytes().len(),
                left <= self.bytes().len(),
                self.bytes() == old(self).bytes().skip(size - left),
                self.ended() == old(self).ended(),
            decreases left,
        {
            let ghost prev = *self;
            let ghost done = size - left;
            let avail = self.chunks[0].len() - self.head;
            let step = if left < avail {
                left
            } else {
                avail
            };
            if left < avail {
                self.head = self.head + left;
            } else {
                let first = self.chunks.pop_front();
                assert(self.chunks@ =~= prev.chunks@.drop_first());
                self.head = 0;
            }
            self.len = self.len - step;
            left = left - step;
            assert(self.bytes() =~= prev.bytes().skip(step as int));
            assert(prev.bytes().skip(step as int) =~= old(self).bytes().skip(done + step));
        }
        assert(self.bytes() =~= old(self).bytes().skip(size as int));
    }

    /// Consumes the first `size` bytes, which must be buffered, and returns
    /// them.
    pub fn read_exact(&mut self, size: usize) -> (buf: Vec<u8>)
        requires
            old(self).wf(),
            size <= old(self).bytes().len(),
        ensures
            final(self).wf(),
            buf@ == old(self).bytes().subrange(0, size as int),
            final(self).bytes() == old(self).bytes().skip(size as int),
            final(self).ended() == old(self).ended(),
    {
        let buf = self.gather(size);
        self.drop_payload(size);
        buf
    }
}

} // verus!
