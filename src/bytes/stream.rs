use vstd::prelude::*;

use crate::bytes::{ByteBox, ByteBoxBuf};
use crate::error::BufError;

verus! {

/// The outcome of one attempt at a stream operation.
#[derive(Debug)]
pub enum Progress<T> {
    /// The operation finished with this value.
    Ready(T),
    /// The operation cannot go on yet: wait for the other side and retry.
    Blocked,
}

/// Whether a push must wait: a limit is set and the buffered bytes exceed it.
pub open spec fn push_blocked(len: nat, max: nat) -> bool {
    max > 0 && len > max
}

/// One push of `d` onto the buffered bytes `q` under the limit `max` while
/// the stream reads `done`: the bytes afterwards and the outcome.
pub open spec fn push_model(q: Seq<u8>, max: nat, done: bool, d: Seq<u8>) -> (Seq<u8>, Progress<
    Result<usize, BufError>,
>) {
    if done {
        (q, Progress::Ready(Err(BufError::Closed)))
    } else if push_blocked(q.len(), max) {
        (q, Progress::Blocked)
    } else {
        (q + d, Progress::Ready(Ok(d.len() as usize)))
    }
}

/// The limit that `more_max(adds)` leaves: raised, if needed, so that `adds`
/// more bytes fit.
pub open spec fn raised_max(len: nat, max: nat, adds: nat) -> nat {
    if len + adds > max {
        len + adds
    } else {
        max
    }
}

/// The state of a backpressured byte stream: the buffered chunks and the
/// limit above which writers wait (0 for none). Every operation takes
/// whether the stream's context reads done; the caller holds the lock,
/// waits on `Blocked` and wakes the other side after progress.
///
/// Once the stream is done, writes fail with `Closed` while reads still hand
/// out what is buffered and fail (or report the end) only when it does not
/// suffice: closing stops the writers and lets the readers drain.
pub struct ByteSteamBuf {
    buf: ByteBoxBuf,
    max: usize,
}

impl View for ByteSteamBuf {
    type V = Seq<u8>;

    open spec fn view(&self) -> Seq<u8> {
        self.buffer()@
    }
}

impl ByteSteamBuf {
    pub closed spec fn buffer(&self) -> ByteBoxBuf {
        self.buf
    }

    pub closed spec fn max(&self) -> nat {
        self.max as nat
    }

    pub open spec fn wf(&self) -> bool {
        self.buffer().wf()
    }

    /// An empty stream with the limit `max`.
    pub fn new(max: usize) -> (r: Self)
        ensures
            r.wf(),
            r@ == Seq::<u8>::empty(),
            r.max() == max,
    {
        ByteSteamBuf { buf: ByteBoxBuf::new(), max }
    }

    pub fn len(&self) -> (r: usize)
        requires
            self.wf(),
        ensures
            r == self@.len(),
    {
        self.buf.len()
    }

    /// The length of the front chunk, 0 when there is none.
    pub fn frtlen(&self) -> (r: usize)
        ensures
            self.buffer().chunks().len() == 0 ==> r == 0,
            self.buffer().chunks().len() > 0 ==> r == self.buffer().chunks()[0].len(),
            self.wf() ==> (r == 0 <==> self@.len() == 0),
    {
        self.buf.frtlen()
    }

    pub fn get_max(&self) -> (r: usize)
        ensures
            r == self.max(),
    {
        self.max
    }

    pub fn set_max(&mut self, max: usize)
        ensures
            final(self).max() == max,
            final(self).buffer() == old(self).buffer(),
    {
        self.max = max;
    }

    /// Raises the limit to `max` if it is lower.
    pub fn set_maxs(&mut self, max: usize)
        ensures
            final(self).max() == if max > old(self).max() {
                max as nat
            } else {
                old(self).max()
            },
            final(self).buffer() == old(self).buffer(),
    {
        if max > self.max {
            self.max = max;
        }
    }

    /// Raises the limit, if needed, so that `adds` more bytes can be buffered.
    pub fn more_max(&mut self, adds: usize)
        requires
            old(self).wf(),
            old(self)@.len() + adds <= usize::MAX,
        ensures
            final(self).wf(),
            final(self).max() == raised_max(old(self)@.len(), old(self).max(), adds as nat),
            final(self).buffer() == old(self).buffer(),
    {
        let sz = self.buf.len() + adds;
        if sz > self.max {
            self.max = sz;
        }
    }

    /// The byte at offset `idx` from the front.
    pub fn get_byte(&self, idx: usize) -> (r: Result<u8, BufError>)
        requires
            self.wf(),
        ensures
            idx < self@.len() ==> r == Ok::<u8, BufError>(self@[idx as int]),
            idx >= self@.len() ==> r == Err::<u8, BufError>(BufError::OutOfBounds),
    {
        self.buf.get_byte(idx)
    }

    /// Drops every buffered byte.
    pub fn clear(&mut self)
        ensures
            final(self).wf(),
            final(self)@ == Seq::<u8>::empty(),
            final(self).max() == old(self).max(),
    {
        self.buf.clear();
    }

    /// One attempt to append `data`. A done stream fails with `Closed` and a
    /// stream over its limit blocks, both without change; otherwise the data
    /// is appended and its length returned.
    pub fn push(&mut self, done: bool, data: ByteBox) -> (r: Progress<Result<usize, BufError>>)
        requires
            old(self).wf(),
            old(self)@.len() + data@.len() <= usize::MAX,
        ensures
            final(self).wf(),
            final(self).max() == old(self).max(),
            (final(self)@, r) == push_model(old(self)@, old(self).max(), done, data@),
            !done && !push_blocked(old(self)@.len(), old(self).max()) ==> final(self).buffer().chunks()
                == if data@.len() == 0 {
                old(self).buffer().chunks()
            } else {
                old(self).buffer().chunks().push(data@)
            },
            r is Blocked || r is Ready && r->Ready_0 is Err ==> final(self).buffer() == old(self).buffer(),
    {
        if done {
            return Progress::Ready(Err(BufError::Closed));
        }
        if self.max > 0 && self.buf.len() > self.max {
            return Progress::Blocked;
        }
        let n = data.len();
        self.buf.push(data);
        Progress::Ready(Ok(n))
    }

    /// Like `push`, but puts `data` in front of the buffered bytes.
    pub fn push_front(&mut self, done: bool, data: ByteBox) -> (r: Progress<Result<usize, BufError>>)
        requires
            old(self).wf(),
            old(self)@.len() + data@.len() <= usize::MAX,
        ensures
            final(self).wf(),
            final(self).max() == old(self).max(),
            done ==> r == Progress::Ready(Err::<usize, BufError>(BufError::Closed)) && final(self)@
                == old(self)@,
            !done && push_blocked(old(self)@.len(), old(self).max()) ==> r is Blocked && final(self)@
                == old(self)@,
            !done && !push_blocked(old(self)@.len(), old(self).max()) ==> r == Progress::Ready(
                Ok::<usize, BufError>(data@.len() as usize),
            ) && final(self)@ == data@ + old(self)@,
            !done && !push_blocked(old(self)@.len(), old(self).max()) ==> final(self).buffer().chunks()
                == if data@.len() == 0 {
                old(self).buffer().chunks()
            } else {
                seq![data@] + old(self).buffer().chunks()
            },
    {
        if done {
            return Progress::Ready(Err(BufError::Closed));
        }
        if self.max > 0 && self.buf.len() > self.max {
            return Progress::Blocked;
        }
        let n = data.len();
        self.buf.push_front(data);
        Progress::Ready(Ok(n))
    }

    /// One attempt to take the front chunk: blocks while the stream is open
    /// and empty; a done stream still hands out what it holds, then `None`.
    pub fn pull(&mut self, done: bool) -> (r: Progress<Option<ByteBox>>)
        requires
            old(self).wf(),
        ensures
            final(self).wf(),
            final(self).max() == old(self).max(),
            !done && old(self)@.len() == 0 ==> r is Blocked && final(self)@ == old(self)@,
            done && old(self)@.len() == 0 ==> r == Progress::<Option<ByteBox>>::Ready(None)
                && final(self)@ == old(self)@,
            old(self)@.len() > 0 ==> (r matches Progress::Ready(Some(c)) && c@.len() > 0
                && old(self)@ == c@ + final(self)@ && c@ == old(self).buffer().chunks()[0]
                && final(self).buffer().chunks() == old(self).buffer().chunks().drop_first()),
    {
        if self.buf.len() == 0 {
            if !done {
                return Progress::Blocked;
            }
            proof {
                self.buf.lemma_wf();
            }
            return Progress::Ready(None);
        }
        proof {
            self.buf.lemma_wf();
        }
        Progress::Ready(self.buf.pull())
    }

    /// Like `pull`, but hands out at most `max` bytes of the front chunk and
    /// keeps the rest in front.
    pub fn pull_max(&mut self, done: bool, max: usize) -> (r: Progress<Option<ByteBox>>)
        requires
            old(self).wf(),
        ensures
            final(self).wf(),
            final(self).max() == old(self).max(),
            !done && old(self)@.len() == 0 ==> r is Blocked && final(self)@ == old(self)@,
            done && old(self)@.len() == 0 ==> r == Progress::<Option<ByteBox>>::Ready(None)
                && final(self)@ == old(self)@,
            old(self)@.len() > 0 ==> (r matches Progress::Ready(Some(c)) && c@.len() <= max
                && (max > 0 ==> c@.len() > 0) && old(self)@ == c@ + final(self)@),
            old(self)@.len() > 0 ==> (r matches Progress::Ready(Some(c)) && ({
                let f = old(self).buffer().chunks()[0];
                let rest = old(self).buffer().chunks().drop_first();
                if max < f.len() {
                    c@ == f.subrange(0, max as int) && final(self).buffer().chunks() == seq![
                        f.subrange(max as int, f.len() as int),
                    ] + rest
                } else {
                    c@ == f && final(self).buffer().chunks() == rest
                }
            })),
    {
        proof {
            self.buf.lemma_wf();
        }
        match self.pull(done) {
            Progress::Blocked => Progress::Blocked,
            Progress::Ready(None) => Progress::Ready(None),
            Progress::Ready(Some(c)) => {
                let mut c = c;
                if c.len() > max {
                    let ghost whole = c@;
                    let tail = c.cut(max);
                    let tail = tail.unwrap();
                    self.buf.push_front(tail);
                    assert(whole =~= c@ + tail@);
                }
                Progress::Ready(Some(c))
            },
        }
    }

    /// One attempt to take exactly `sz` bytes. With enough bytes buffered
    /// they are cut off the front. Otherwise a done stream fails with
    /// `Closed`, a done caller context (`caller_done`) with `Cancelled`, and
    /// an open stream blocks. A caller waiting for `sz` bytes first calls
    /// `more_max(sz)` once, so that writers are let through until they arrive.
    pub fn pull_size(&mut self, done: bool, caller_done: bool, sz: usize) -> (r: Progress<
        Result<ByteBoxBuf, BufError>,
    >)
        requires
            old(self).wf(),
        ensures
            final(self).wf(),
            final(self).max() == old(self).max(),
            !done && caller_done ==> r == Progress::Ready(Err::<ByteBoxBuf, BufError>(BufError::Cancelled))
                && final(self)@ == old(self)@,
            !(!done && caller_done) && old(self)@.len() >= sz ==> (r matches Progress::Ready(Ok(b))
                && b.wf() && b@ == old(self)@.subrange(0, sz as int) && final(self)@
                == old(self)@.subrange(sz as int, old(self)@.len() as int)),
            done && old(self)@.len() < sz ==> r == Progress::Ready(Err::<ByteBoxBuf, BufError>(BufError::Closed))
                && final(self)@ == old(self)@,
            !done && !caller_done && old(self)@.len() < sz ==> r is Blocked && final(self)@ == old(self)@,
    {
        if !done && caller_done {
            return Progress::Ready(Err(BufError::Cancelled));
        }
        if self.buf.len() >= sz {
            return Progress::Ready(self.buf.cut_front(sz));
        }
        if done {
            Progress::Ready(Err(BufError::Closed))
        } else {
            Progress::Blocked
        }
    }
}

/// With a limit `max` set and more than `max` bytes buffered, a push waits
/// and changes nothing; once a reader has taken `k >= 1` bytes from the front
/// so that at most `max` remain, the same push appends its data; and once
/// the stream is done the push fails with `Closed` and changes nothing.
pub proof fn lemma_backpressure(q: Seq<u8>, max: nat, d: Seq<u8>, k: nat)
    requires
        max > 0,
        q.len() > max,
        1 <= k <= q.len(),
        q.len() - k <= max,
    ensures
        push_model(q, max, false, d) == (q, Progress::<Result<usize, BufError>>::Blocked),
        push_model(q, max, true, d) == (q, Progress::Ready(Err::<usize, BufError>(BufError::Closed))),
        push_model(q.subrange(k as int, q.len() as int), max, false, d) == (q.subrange(
            k as int,
            q.len() as int,
        ) + d, Progress::Ready(Ok::<usize, BufError>(d.len() as usize))),
{
}

} // verus!
