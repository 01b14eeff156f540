//! Buffer of request payload chunks.
//!
//! A `Payload` stores the chunks of a request body in arrival order. Readers
//! take data from the front (`readany`, `readexactly`, `readuntil`,
//! `readline`, `readall`), writers append at the back (`feed_data`) and
//! unused data can be put back at the front (`unread_data`).
use std::collections::VecDeque;
use vstd::prelude::*;

verus! {

/// Max buffer size, 64k.
pub const DEFAULT_BUFFER_SIZE: usize = 65_536;

/// Readiness of a read: the value, or "not yet, try again when notified".
#[derive(Debug, PartialEq, Eq)]
pub enum Async<T> {
    /// The value is available.
    Ready(T),
    /// The value is not available yet.
    NotReady,
}

/// Just a chunk of bytes.
#[derive(Debug)]
pub struct PayloadItem(pub Vec<u8>);

/// Stream of byte chunks.
///
/// The payload stores chunks in a queue. The first chunk can be received
/// with `readany()`.
pub struct Payload<E> {
    len: usize,
    eof: bool,
    err: Option<E>,
    items: VecDeque<Vec<u8>>,
    buf_size: usize,
}

/// The byte content of a queue of chunks.
pub open spec fn chunk_seqs(items: Seq<Vec<u8>>) -> Seq<Seq<u8>> {
    items.map_values(|v: Vec<u8>| v@)
}

/// The chunks that are left after `need` bytes are taken from the front: whole
/// chunks are dropped while they are no longer than what is still to be taken,
/// and the first chunk that is longer is cut, its tail staying in front.
pub open spec fn chunks_after_take(chunks: Seq<Seq<u8>>, need: nat) -> Seq<Seq<u8>>
    decreases chunks.len(),
{
    if need == 0 || chunks.len() == 0 {
        chunks
    } else if chunks[0].len() > need {
        seq![chunks[0].skip(need as int)] + chunks.drop_first()
    } else {
        chunks_after_take(chunks.drop_first(), (need - chunks[0].len()) as nat)
    }
}

/// Whether `line` occurs in `data` ending just before index `k`.
pub open spec fn line_ends_at(data: Seq<u8>, line: Seq<u8>, k: int) -> bool {
    &&& line.len() <= k <= data.len()
    &&& data.subrange(k - line.len(), k) == line
}

/// Whether `data` holds a non-empty `line` somewhere.
pub open spec fn has_line(data: Seq<u8>, line: Seq<u8>) -> bool {
    &&& line.len() > 0
    &&& exists|k: int| #[trigger] line_ends_at(data, line, k)
}

/// `k` is the end of the first occurrence of `line` in `data`: the shortest
/// prefix of `data` that ends with `line` has length `k`.
pub open spec fn first_line_end(data: Seq<u8>, line: Seq<u8>, k: int) -> bool {
    &&& line_ends_at(data, line, k)
    &&& forall|j: int| j < k ==> !#[trigger] line_ends_at(data, line, j)
}

impl<E> Payload<E> {
    /// The chunks in the buffer, front first.
    pub closed spec fn chunks(&self) -> Seq<Seq<u8>> {
        chunk_seqs(self.items@)
    }

    /// All buffered bytes, in order.
    pub open spec fn content(&self) -> Seq<u8> {
        self.chunks().flatten()
    }

    /// Whether the writer has signalled the end of the stream.
    pub closed spec fn eof_fed(&self) -> bool {
        self.eof
    }

    /// The error set by the writer and not yet handed to a reader.
    pub closed spec fn error(&self) -> Option<E> {
        self.err
    }

    /// The size the buffer is meant to hold.
    pub closed spec fn buf_size(&self) -> nat {
        self.buf_size as nat
    }

    /// The length counter agrees with the buffered bytes.
    pub closed spec fn wf(&self) -> bool {
        self.len == self.content().len()
    }

    /// An empty payload; `eof` tells whether the stream has already ended.
    pub fn new(eof: bool) -> (p: Self)
        ensures
            p.wf(),
            p.chunks() == Seq::<Seq<u8>>::empty(),
            p.eof_fed() == eof,
            p.error() is None,
            p.buf_size() == DEFAULT_BUFFER_SIZE,
    {
        let p = Payload {
            len: 0,
            eof: eof,
            err: None,
            items: VecDeque::new(),
            buf_size: DEFAULT_BUFFER_SIZE,
        };
        assert(p.chunks() =~= Seq::<Seq<u8>>::empty());
        p
    }

    /// Indicates EOF of payload: the stream has ended and nothing is buffered.
    pub fn eof(&self) -> (b: bool)
        ensures
            b == (self.chunks().len() == 0 && self.eof_fed()),
    {
        self.items.len() == 0 && self.eof
    }

    /// Length of the data in this payload.
    pub fn len(&self) -> (n: usize)
        requires
            self.wf(),
        ensures
            n == self.content().len(),
    {
        self.len
    }

    /// Is payload empty.
    pub fn is_empty(&self) -> (b: bool)
        requires
            self.wf(),
        ensures
            b == (self.content().len() == 0),
    {
        self.len == 0
    }

    /// Records an error, to be handed to the next read that finds no data.
    pub fn set_error(&mut self, err: E)
        ensures
            final(self).error() == Some(err),
            final(self).chunks() == old(self).chunks(),
            final(self).eof_fed() == old(self).eof_fed(),
            final(self).buf_size() == old(self).buf_size(),
            old(self).wf() ==> final(self).wf(),
    {
        self.err = Some(err);
    }

    /// Marks the end of the stream.
    pub fn feed_eof(&mut self)
        ensures
            final(self).eof_fed(),
            final(self).error() == old(self).error(),
            final(self).chunks() == old(self).chunks(),
            final(self).buf_size() == old(self).buf_size(),
            old(self).wf() ==> final(self).wf(),
    {
        self.eof = true;
    }

    /// Appends a chunk at the back.
    pub fn feed_data(&mut self, data: Vec<u8>)
        requires
            old(self).wf(),
            old(self).content().len() + data@.len() <= usize::MAX,
        ensures
            final(self).wf(),
            final(self).chunks() == old(self).chunks().push(data@),
            final(self).content() == old(self).content() + data@,
            final(self).eof_fed() == old(self).eof_fed(),
            final(self).error() == old(self).error(),
            final(self).buf_size() == old(self).buf_size(),
    {
        proof {
            old(self).chunks().lemma_flatten_push(data@);
        }
        self.len = self.len + data.len();
        self.items.push_back(data);
        assert(self.chunks() =~= old(self).chunks().push(data@));
    }

    /// Puts unused data back at the front.
    pub fn unread_data(&mut self, data: Vec<u8>)
        requires
            old(self).wf(),
            old(self).content().len() + data@.len() <= usize::MAX,
        ensures
            final(self).wf(),
            final(self).chunks() == seq![data@] + old(self).chunks(),
            final(self).content() == data@ + old(self).content(),
            final(self).eof_fed() == old(self).eof_fed(),
            final(self).error() == old(self).error(),
            final(self).buf_size() == old(self).buf_size(),
    {
        let ghost d = data@;
        self.len = self.len + data.len();
        self.items.push_front(data);
        assert(self.chunks() =~= seq![d] + old(self).chunks());
        proof {
            lemma_flatten_cons(d, old(self).chunks());
        }
    }

    /// Takes the first available chunk. `Ready(None)` indicates EOF; an error
    /// is handed out only when no data is buffered and the stream has not
    /// ended; otherwise the reader has to wait.
    pub fn readany(&mut self) -> (r: Result<Async<Option<PayloadItem>>, E>)
        requires
            old(self).wf(),
        ensures
            final(self).wf(),
            final(self).eof_fed() == old(self).eof_fed(),
            final(self).buf_size() == old(self).buf_size(),
            old(self).chunks().len() > 0 ==> {
                &&& r matches Ok(Async::Ready(Some(item)))
                &&& item.0@ == old(self).chunks()[0]
                &&& final(self).chunks() == old(self).chunks().drop_first()
                &&& final(self).error() == old(self).error()
            },
            old(self).chunks().len() == 0 ==> final(self).chunks() == old(self).chunks(),
            old(self).chunks().len() == 0 && old(self).eof_fed() ==> {
                &&& r matches Ok(Async::Ready(None))
                &&& final(self).error() == old(self).error()
            },
            old(self).chunks().len() == 0 && !old(self).eof_fed() ==> match old(self).error() {
                Some(e) => r == Err::<Async<Option<PayloadItem>>, E>(e) && final(self).error() is None,
                None => r matches Ok(Async::NotReady) && final(self).error() is None,
            },
    {
        if let Some(data) = self.items.pop_front() {
            proof {
                lemma_flatten_cons(data@, old(self).chunks().drop_first());
                assert(seq![data@] + old(self).chunks().drop_first() =~= old(self).chunks());
                assert(self.chunks() =~= old(self).chunks().drop_first());
            }
            self.len = self.len - data.len();
            Ok(Async::Ready(Some(PayloadItem(data))))
        } else if self.eof {
            Ok(Async::Ready(None))
        } else if let Some(err) = self.err.take() {
            Err(err)
        } else {
            Ok(Async::NotReady)
        }
    }

    /// A copy of all buffered bytes, in order; the buffer is left as it is.
    fn copy_content(&self) -> (buf: Vec<u8>)
        requires
            self.wf(),
        ensures
            buf@ == self.content(),
    {
        let mut buf: Vec<u8> = Vec::new();
        let n = self.items.len();
        let mut i: usize = 0;
        while i < n
            invariant
                n == self.items@.len(),
                i <= n,
                buf@ == chunk_seqs(self.items@).take(i as int).flatten(),
                buf@.len() <= self.len,
                self.wf(),
            decreases n - i,
        {
            let chunk = &self.items[i];
            proof {
                let cs = chunk_seqs(self.items@);
                assert(cs.take(i + 1) =~= cs.take(i as int).push(cs[i as int]));
                cs.take(i as int).lemma_flatten_push(cs[i as int]);
                lemma_flatten_take_len_le(cs, i + 1);
            }
            let mut j: usize = 0;
            while j < chunk.len()
                invariant
                    j <= chunk@.len(),
                    buf@ == chunk_seqs(self.items@).take(i as int).flatten() + chunk@.subrange(
                        0,
                        j as int,
                    ),
                    chunk@ == chunk_seqs(self.items@)[i as int],
                    chunk_seqs(self.items@).take(i as int).flatten().len() + chunk@.len()
                        <= self.len,
                    self.len <= usize::MAX,
                decreases chunk@.len() - j,
            {
                buf.push(chunk[j]);
                j += 1;
            }
            assert(chunk@.subrange(0, chunk@.len() as int) =~= chunk@);
            i += 1;
        }
        assert(chunk_seqs(self.items@).take(n as int) =~= self.chunks());
        buf
    }

    /// Takes all buffered data as one chunk, or `None` when no byte is
    /// buffered (empty chunks then stay).
    pub fn readall(&mut self) -> (r: Option<Vec<u8>>)
        requires
            old(self).wf(),
        ensures
            final(self).wf(),
            final(self).eof_fed() == old(self).eof_fed(),
            final(self).error() == old(self).error(),
            final(self).buf_size() == old(self).buf_size(),
            old(self).content().len() > 0 ==> {
                &&& r matches Some(all)
                &&& all@ == old(self).content()
                &&& final(self).chunks() == Seq::<Seq<u8>>::empty()
            },
            old(self).content().len() == 0 ==> r is None && final(self).chunks() == old(
                self,
            ).chunks(),
    {
        if self.len > 0 {
            let buf = self.copy_content();
            self.items = VecDeque::new();
            self.len = 0;
            assert(self.chunks() =~= Seq::<Seq<u8>>::empty());
            Some(buf)
        } else {
            None
        }
    }

    /// Takes the first `size` bytes from the front: whole chunks are dropped
    /// and the chunk that holds the last byte taken is cut, its tail staying
    /// in front.
    fn take_front(&mut self, size: usize) -> (buf: Vec<u8>)
        requires
            old(self).wf(),
            size <= old(self).content().len(),
        ensures
            final(self).wf(),
            buf@ == old(self).content().take(size as int),
            final(self).content() == old(self).content().skip(size as int),
            final(self).chunks() == chunks_after_take(old(self).chunks(), size as nat),
            final(self).eof_fed() == old(self).eof_fed(),
            final(self).error() == old(self).error(),
            final(self).buf_size() == old(self).buf_size(),
    {
        let mut buf: Vec<u8> = Vec::new();
        while buf.len() < size
            invariant
                self.wf(),
                buf@.len() <= size,
                size <= old(self).content().len(),
                old(self).content() == buf@ + self.content(),
                chunks_after_take(old(self).chunks(), size as nat) == chunks_after_take(
                    self.chunks(),
                    (size - buf@.len()) as nat,
                ),
                self.eof == old(self).eof,
                self.err == old(self).err,
                self.buf_size == old(self).buf_size,
            decreases size - buf@.len(), self.items@.len(),
        {
            let ghost before = self.chunks();
            proof {
                if before.len() == 0 {
                    assert(self.content() =~= Seq::<u8>::empty());
                }
            }
            let mut chunk = self.items.pop_front().unwrap();
            let ghost c = chunk@;
            proof {
                assert(before =~= seq![c] + self.chunks());
                lemma_flatten_cons(c, self.chunks());
            }
            let need = size - buf.len();
            let rem = if need < chunk.len() {
                need
            } else {
                chunk.len()
            };
            self.len = self.len - rem;
            let tail = chunk.split_off(rem);
            let ghost b0 = buf@;
            buf.append(&mut chunk);
            proof {
                assert(c =~= c.take(rem as int) + c.skip(rem as int));
                assert(buf@ =~= b0 + c.take(rem as int));
            }
            if tail.len() > 0 {
                let ghost t = tail@;
                self.items.push_front(tail);
                proof {
                    assert(self.chunks() =~= seq![t] + before.drop_first());
                    lemma_flatten_cons(t, before.drop_first());
                    assert(old(self).content() =~= buf@ + self.content());
                }
            } else {
                proof {
                    assert(self.chunks() =~= before.drop_first());
                    assert(old(self).content() =~= buf@ + self.content());
                }
            }
        }
        proof {
            assert(buf@ =~= old(self).content().take(size as int));
            assert(self.content() =~= old(self).content().skip(size as int));
        }
        buf
    }

    /// Takes exactly `size` bytes from the front when that many are buffered.
    /// When fewer are buffered, nothing is consumed and the reader gets the
    /// pending error, or has to wait.
    pub fn readexactly(&mut self, size: usize) -> (r: Result<Async<Vec<u8>>, E>)
        requires
            old(self).wf(),
        ensures
            final(self).wf(),
            final(self).eof_fed() == old(self).eof_fed(),
            final(self).buf_size() == old(self).buf_size(),
            size <= old(self).content().len() ==> {
                &&& r matches Ok(Async::Ready(data))
                &&& data@ == old(self).content().take(size as int)
                &&& final(self).content() == old(self).content().skip(size as int)
                &&& final(self).chunks() == chunks_after_take(old(self).chunks(), size as nat)
                &&& final(self).error() == old(self).error()
            },
            size > old(self).content().len() ==> {
                &&& final(self).chunks() == old(self).chunks()
                &&& match old(self).error() {
                    Some(e) => r == Err::<Async<Vec<u8>>, E>(e) && final(self).error() is None,
                    None => r matches Ok(Async::NotReady) && final(self).error() is None,
                }
            },
    {
        if size <= self.len {
            let buf = self.take_front(size);
            return Ok(Async::Ready(buf));
        }
        if let Some(err) = self.err.take() {
            Err(err)
        } else {
            Ok(Async::NotReady)
        }
    }

    /// Reads up to and including the first occurrence of `line`: the
    /// shortest buffered prefix that ends with `line`. When `line` does not
    /// occur in the buffered bytes, nothing is consumed and the reader gets
    /// the pending error, or has to wait.
    pub fn readuntil(&mut self, line: &[u8]) -> (r: Result<Async<Vec<u8>>, E>)
        requires
            old(self).wf(),
            line@.len() > 0 || old(self).content().len() == 0,
        ensures
            final(self).wf(),
            final(self).eof_fed() == old(self).eof_fed(),
            final(self).buf_size() == old(self).buf_size(),
            has_line(old(self).content(), line@) ==> {
                &&& r matches Ok(Async::Ready(data))
                &&& first_line_end(old(self).content(), line@, data@.len() as int)
                &&& data@ == old(self).content().take(data@.len() as int)
                &&& final(self).content() == old(self).content().skip(data@.len() as int)
                &&& final(self).chunks() == chunks_after_take(
                    old(self).chunks(),
                    data@.len() as nat,
                )
                &&& final(self).error() == old(self).error()
            },
            !has_line(old(self).content(), line@) ==> {
                &&& final(self).chunks() == old(self).chunks()
                &&& match old(self).error() {
                    Some(e) => r == Err::<Async<Vec<u8>>, E>(e) && final(self).error() is None,
                    None => r matches Ok(Async::NotReady) && final(self).error() is None,
                }
            },
    {
        if line.len() > 0 {
            let data = self.copy_content();
            if let Some(k) = find_line_end(&data, line) {
                let buf = self.take_front(k);
                return Ok(Async::Ready(buf));
            }
        }
        if let Some(err) = self.err.take() {
            Err(err)
        } else {
            Ok(Async::NotReady)
        }
    }

    /// Read until `\n`.
    pub fn readline(&mut self) -> (r: Result<Async<Vec<u8>>, E>)
        requires
            old(self).wf(),
        ensures
            final(self).wf(),
            final(self).eof_fed() == old(self).eof_fed(),
            final(self).buf_size() == old(self).buf_size(),
            has_line(old(self).content(), seq![10u8]) ==> {
                &&& r matches Ok(Async::Ready(data))
                &&& first_line_end(old(self).content(), seq![10u8], data@.len() as int)
                &&& data@ == old(self).content().take(data@.len() as int)
                &&& final(self).content() == old(self).content().skip(data@.len() as int)
                &&& final(self).error() == old(self).error()
            },
            !has_line(old(self).content(), seq![10u8]) ==> {
                &&& final(self).chunks() == old(self).chunks()
                &&& match old(self).error() {
                    Some(e) => r == Err::<Async<Vec<u8>>, E>(e) && final(self).error() is None,
                    None => r matches Ok(Async::NotReady) && final(self).error() is None,
                }
            },
    {
        let nl: [u8; 1] = [10u8];
        assert(nl@ =~= seq![10u8]);
        self.readuntil(nl.as_slice())
    }

    /// Room left in the buffer before it reaches its size.
    pub fn capacity(&self) -> (n: usize)
        requires
            self.wf(),
        ensures
            n == if self.content().len() > self.buf_size() {
                0
            } else {
                (self.buf_size() - self.content().len()) as nat
            },
    {
        if self.len > self.buf_size {
            0
        } else {
            self.buf_size - self.len
        }
    }

    /// Get size of payload buffer.
    pub fn buffer_size(&self) -> (n: usize)
        ensures
            n == self.buf_size(),
    {
        self.buf_size
    }

    /// Set size of payload buffer.
    pub fn set_buffer_size(&mut self, size: usize)
        ensures
            final(self).buf_size() == size,
            final(self).chunks() == old(self).chunks(),
            final(self).eof_fed() == old(self).eof_fed(),
            final(self).error() == old(self).error(),
            old(self).wf() ==> final(self).wf(),
    {
        self.buf_size = size;
    }
}

/// Flattening a chunk in front of other chunks puts its bytes in front.
pub proof fn lemma_flatten_cons(c: Seq<u8>, rest: Seq<Seq<u8>>)
    ensures
        (seq![c] + rest).flatten() == c + rest.flatten(),
{
    assert((seq![c] + rest).drop_first() =~= rest);
    assert((seq![c] + rest)[0] == c);
}

/// Where the first occurrence of `line` in `data` ends, if `line` occurs.
fn find_line_end(data: &Vec<u8>, line: &[u8]) -> (k: Option<usize>)
    requires
        line@.len() > 0,
    ensures
        match k {
            Some(k) => first_line_end(data@, line@, k as int),
            None => !has_line(data@, line@),
        },
{
    let m = line.len();
    let n = data.len();
    if m > n {
        assert forall|j: int| !#[trigger] line_ends_at(data@, line@, j) by {}
        return None;
    }
    let mut i: usize = 0;
    while i <= n - m
        invariant
            m == line@.len(),
            n == data@.len(),
            0 < m <= n,
            i <= n - m + 1,
            forall|j: int| j < i + m ==> !#[trigger] line_ends_at(data@, line@, j),
        decreases n - m + 1 - i,
    {
        let mut t: usize = 0;
        while t < m && data[i + t] == line[t]
            invariant
                m == line@.len(),
                n == data@.len(),
                i + m <= n,
                t <= m,
                data@.subrange(i as int, i + t) == line@.subrange(0, t as int),
            decreases m - t,
        {
            proof {
                assert(data@.subrange(i as int, i + t + 1) =~= data@.subrange(i as int, i + t).push(
                    data@[i + t],
                ));
                assert(line@.subrange(0, t + 1) =~= line@.subrange(0, t as int).push(line@[t as int]));
            }
            t += 1;
        }
        if t == m {
            proof {
                assert(line@.subrange(0, m as int) =~= line@);
                assert(line_ends_at(data@, line@, i + m));
            }
            return Some(i + m);
        }
        proof {
            assert(data@[i + t] != line@[t as int]);
            if line_ends_at(data@, line@, i + m) {
                assert(data@.subrange(i as int, i + m)[t as int] == data@[i + t]);
            }
        }
        i += 1;
    }
    proof {
        assert forall|j: int| !#[trigger] line_ends_at(data@, line@, j) by {
            if j < i + m {
            }
        }
    }
    None
}

/// What a read until `line` hands out ends with `line`: the first `k` bytes,
/// where the first occurrence of `line` ends at `k`, have `line` as their
/// last bytes.
pub proof fn law_read_until_ends_with_line(data: Seq<u8>, line: Seq<u8>, k: int)
    requires
        first_line_end(data, line, k),
    ensures
        data.take(k).len() >= line.len(),
        data.take(k).skip(k - line.len()) == line,
{
    assert(data.take(k).skip(k - line.len()) =~= data.subrange(k - line.len(), k));
}

/// Data put back with `unread_data` is what the next `readany` hands out, and
/// afterwards the chunks are as they were before.
pub proof fn law_unread_then_readany(chunks: Seq<Seq<u8>>, data: Seq<u8>)
    ensures
        (seq![data] + chunks).len() > 0,
        (seq![data] + chunks)[0] == data,
        (seq![data] + chunks).drop_first() == chunks,
{
    assert((seq![data] + chunks).drop_first() =~= chunks);
}

/// Taking bytes from the front leaves the rest of the bytes: the chunks that
/// `readexactly` leaves hold the bytes after the first `need`.
pub proof fn law_take_leaves_rest(chunks: Seq<Seq<u8>>, need: nat)
    requires
        need <= chunks.flatten().len(),
    ensures
        chunks_after_take(chunks, need).flatten() == chunks.flatten().skip(need as int),
    decreases chunks.len(),
{
    if need == 0 {
        assert(chunks.flatten().skip(0) =~= chunks.flatten());
    } else if chunks.len() == 0 {
    } else {
        let c = chunks[0];
        lemma_flatten_cons(c, chunks.drop_first());
        assert(chunks =~= seq![c] + chunks.drop_first());
        if c.len() > need {
            lemma_flatten_cons(c.skip(need as int), chunks.drop_first());
            assert(c.skip(need as int) + chunks.drop_first().flatten() =~= (c
                + chunks.drop_first().flatten()).skip(need as int));
        } else {
            law_take_leaves_rest(chunks.drop_first(), (need - c.len()) as nat);
            assert(chunks.drop_first().flatten().skip(need - c.len()) =~= (c
                + chunks.drop_first().flatten()).skip(need as int));
        }
    }
}

/// The bytes of the first chunks are no more than all the bytes.
proof fn lemma_flatten_take_len_le(cs: Seq<Seq<u8>>, k: int)
    requires
        0 <= k <= cs.len(),
    ensures
        cs.take(k).flatten().len() <= cs.flatten().len(),
{
    assert(cs =~= cs.take(k) + cs.skip(k));
    vstd::seq_lib::lemma_flatten_concat(cs.take(k), cs.skip(k));
}

} // verus!
