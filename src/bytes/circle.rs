use vstd::prelude::*;

use crate::bytes::ring::{pop_model, put_model, wrap, RingBuf};
use crate::context::Context;
use crate::error::BufError;

verus! {

/// A fixed-capacity ring buffer that can be closed, by `close` or through
/// its context: once closed every operation fails with `Closed` and leaves
/// the buffered bytes as they were.
pub struct CircleBuf {
    ctx: Context,
    shut: bool,
    ring: RingBuf,
}

impl View for CircleBuf {
    type V = Seq<u8>;

    closed spec fn view(&self) -> Seq<u8> {
        self.ring@
    }
}

impl CircleBuf {
    pub closed spec fn wf(&self) -> bool {
        self.ring.wf()
    }

    /// The storage without the closing.
    pub closed spec fn ring(&self) -> RingBuf {
        self.ring
    }

    /// Whether `close` was called.
    pub closed spec fn is_shut(&self) -> bool {
        self.shut
    }

    /// How many bytes it can hold at most.
    pub open spec fn capacity(&self) -> nat {
        self.ring().capacity()
    }

    /// The buffer's bytes are its storage's, so the storage's lemmas apply.
    pub proof fn lemma_ring(&self)
        requires
            self.wf(),
        ensures
            self.ring().wf(),
            self@ == self.ring()@,
    {
    }

    /// An empty, open buffer of `ln` slots, also closed once `ctx` is done.
    pub fn new(ctx: &Context, ln: usize) -> (r: Self)
        ensures
            r.wf(),
            r@ == Seq::<u8>::empty(),
            r.ring().size() == ln,
            !r.is_shut(),
            r.ring().head() == 0 && r.ring().tail() == 0,
    {
        CircleBuf { ctx: Context::background(Some(ctx.clone())), shut: false, ring: RingBuf::new(ln) }
    }

    /// Closes the buffer; the context it was made with stays as it is.
    pub fn close(&mut self)
        ensures
            final(self).is_shut(),
            final(self).ring() == old(self).ring(),
            final(self)@ == old(self)@,
            final(self).wf() == old(self).wf(),
    {
        self.shut = true;
        self.ctx.stop();
    }

    /// Whether the buffer was closed, itself or through its context.
    pub fn closed(&self) -> (r: bool)
        ensures
            self.is_shut() ==> r,
    {
        self.shut || self.ctx.done()
    }

    pub fn len(&self) -> (r: usize)
        requires
            self.wf(),
        ensures
            r == self@.len(),
    {
        self.ring.len()
    }

    /// The number of bytes that can still be written.
    pub fn avail(&self) -> (r: usize)
        requires
            self.wf(),
        ensures
            r == self.capacity() - self@.len(),
    {
        self.ring.avail()
    }

    pub fn clear(&mut self)
        requires
            old(self).wf(),
        ensures
            final(self).wf(),
            final(self)@ == Seq::<u8>::empty(),
            final(self).ring().size() == old(self).ring().size(),
            final(self).is_shut() == old(self).is_shut(),
            final(self).ring().head() == 0 && final(self).ring().tail() == 0,
    {
        self.ring.clear();
    }

    /// Appends one byte.
    pub fn put_byte(&mut self, b: u8) -> (r: Result<(), BufError>)
        requires
            old(self).wf(),
        ensures
            final(self).wf(),
            final(self).ring().size() == old(self).ring().size(),
            final(self).is_shut() == old(self).is_shut(),
            old(self).is_shut() ==> r == Err::<(), BufError>(BufError::Closed),
            r == Err::<(), BufError>(BufError::Closed) ==> final(self)@ == old(self)@,
            r != Err::<(), BufError>(BufError::Closed) ==> (final(self)@, r) == put_model(
                old(self)@,
                old(self).capacity(),
                b,
            ),
            r is Ok ==> final(self).ring().head() == old(self).ring().head() && final(self).ring().tail()
                == wrap(old(self).ring().tail() + 1int, old(self).ring().size() as int),
            r is Err ==> final(self).ring() == old(self).ring(),
    {
        if self.closed() {
            return Err(BufError::Closed);
        }
        self.ring.put_byte(b)
    }

    /// Removes and returns the oldest byte.
    pub fn pop_byte(&mut self) -> (r: Result<u8, BufError>)
        requires
            old(self).wf(),
        ensures
            final(self).wf(),
            final(self).ring().size() == old(self).ring().size(),
            final(self).is_shut() == old(self).is_shut(),
            old(self).is_shut() ==> r == Err::<u8, BufError>(BufError::Closed),
            r == Err::<u8, BufError>(BufError::Closed) ==> final(self)@ == old(self)@,
            r != Err::<u8, BufError>(BufError::Closed) ==> (final(self)@, r) == pop_model(old(self)@),
            r is Ok ==> final(self).ring().tail() == old(self).ring().tail() && final(self).ring().head()
                == wrap(old(self).ring().head() + 1int, old(self).ring().size() as int),
            r is Err ==> final(self).ring() == old(self).ring(),
    {
        if self.closed() {
            return Err(BufError::Closed);
        }
        self.ring.pop_byte()
    }

    /// The byte `i` places after the oldest one.
    pub fn get_byte(&self, i: usize) -> (r: Result<u8, BufError>)
        requires
            self.wf(),
        ensures
            i < self@.len() ==> r == Ok::<u8, BufError>(self@[i as int]),
            i >= self@.len() ==> r == Err::<u8, BufError>(BufError::OutOfBounds),
    {
        self.ring.get_byte(i)
    }

    /// A view of at most `ln` of the oldest bytes, none past the wrap point.
    pub fn borrow_read_buf(&self, ln: usize) -> (r: Result<&[u8], BufError>)
        requires
            self.wf(),
        ensures
            self.is_shut() ==> r == Err::<&[u8], BufError>(BufError::Closed),
            r == Err::<&[u8], BufError>(BufError::Closed) || (self@.len() == 0 && r == Err::<
                &[u8],
                BufError,
            >(BufError::Empty)) || (self@.len() > 0 && r is Ok && r->Ok_0@ == self@.subrange(
                0,
                if ln < self.ring().read_room() {
                    ln as int
                } else {
                    self.ring().read_room() as int
                },
            )),
            r != Err::<&[u8], BufError>(BufError::Closed) ==> (self@.len() == 0 <==> r is Err),
            r matches Ok(w) ==> w@.len() <= ln && w@.len() <= self@.len() && (ln > 0 ==> w@.len() > 0),
    {
        if self.closed() {
            return Err(BufError::Closed);
        }
        self.ring.borrow_read_buf(ln)
    }

    /// Consumes the `ln` oldest bytes after a read window was used.
    pub fn borrow_read_ok(&mut self, ln: usize) -> (r: Result<(), BufError>)
        requires
            old(self).wf(),
        ensures
            final(self).wf(),
            final(self).ring().size() == old(self).ring().size(),
            final(self).is_shut() == old(self).is_shut(),
            ln == 0 ==> r is Ok && final(self)@ == old(self)@,
            ln > 0 && old(self).is_shut() ==> r == Err::<(), BufError>(BufError::Closed),
            r == Err::<(), BufError>(BufError::Closed) ==> final(self)@ == old(self)@,
            r != Err::<(), BufError>(BufError::Closed) && ln <= old(self)@.len() ==> r is Ok
                && final(self)@ == old(self)@.subrange(ln as int, old(self)@.len() as int),
            r != Err::<(), BufError>(BufError::Closed) && ln > old(self)@.len() ==> r == Err::<
                (),
                BufError,
            >(BufError::OutOfBounds) && final(self)@ == old(self)@,
            r is Ok ==> final(self).ring().tail() == old(self).ring().tail() && final(self).ring().head()
                == wrap(old(self).ring().head() + ln, old(self).ring().size() as int),
            r is Err ==> final(self).ring() == old(self).ring(),
    {
        if ln == 0 {
            proof {
                self.ring.lemma_rooms();
            }
            assert(self@.subrange(0, self@.len() as int) =~= self@);
            return Ok(());
        }
        if self.closed() {
            return Err(BufError::Closed);
        }
        self.ring.borrow_read_ok(ln)
    }

    /// Copies what fits of `src` into the free slots before the wrap point
    /// and returns how many bytes; `borrow_write_ok` makes them data.
    pub fn borrow_write_buf(&mut self, src: &[u8]) -> (r: Result<usize, BufError>)
        requires
            old(self).wf(),
        ensures
            final(self).wf(),
            final(self)@ == old(self)@,
            final(self).ring().size() == old(self).ring().size(),
            final(self).is_shut() == old(self).is_shut(),
            old(self).is_shut() ==> r == Err::<usize, BufError>(BufError::Closed),
            r != Err::<usize, BufError>(BufError::Closed) && old(self)@.len() >= old(self).capacity()
                ==> r == Err::<usize, BufError>(BufError::Full),
            r != Err::<usize, BufError>(BufError::Closed) && old(self)@.len() < old(self).capacity()
                ==> r is Ok && r->Ok_0 == (if src@.len() < old(self).ring().write_room() {
                src@.len()
            } else {
                old(self).ring().write_room()
            }) && final(self).ring().free_slots(r->Ok_0 as nat) == src@.subrange(0, r->Ok_0 as int),
            r matches Ok(k) ==> k <= src@.len() && k <= old(self).capacity() - old(self)@.len() && (
            src@.len() > 0 ==> k > 0),
            r matches Ok(k) ==> forall|n: nat|
                n <= k ==> #[trigger] final(self).ring().free_slots(n) == src@.subrange(0, n as int),
            final(self).ring().head() == old(self).ring().head() && final(self).ring().tail() == old(
                self,
            ).ring().tail(),
    {
        if self.closed() {
            return Err(BufError::Closed);
        }
        self.ring.borrow_write_buf(src)
    }

    /// Makes the `ln` slots after the buffered bytes part of the data.
    pub fn borrow_write_ok(&mut self, ln: usize) -> (r: Result<(), BufError>)
        requires
            old(self).wf(),
        ensures
            final(self).wf(),
            final(self).ring().size() == old(self).ring().size(),
            final(self).is_shut() == old(self).is_shut(),
            ln == 0 ==> r is Ok && final(self)@ == old(self)@,
            ln > 0 && old(self).is_shut() ==> r == Err::<(), BufError>(BufError::Closed),
            r == Err::<(), BufError>(BufError::Closed) ==> final(self)@ == old(self)@,
            r != Err::<(), BufError>(BufError::Closed) && ln <= old(self).capacity() - old(self)@.len()
                ==> r is Ok && final(self)@ == old(self)@ + old(self).ring().free_slots(ln as nat),
            r != Err::<(), BufError>(BufError::Closed) && ln > old(self).capacity() - old(self)@.len()
                ==> r == Err::<(), BufError>(BufError::OutOfBounds) && final(self)@ == old(self)@,
            r is Ok ==> final(self).ring().head() == old(self).ring().head() && final(self).ring().tail()
                == wrap(old(self).ring().tail() + ln, old(self).ring().size() as int),
            r is Err ==> final(self).ring() == old(self).ring(),
    {
        if ln == 0 {
            proof {
                self.ring.lemma_rooms();
            }
            assert(self@ + self.ring.free_slots(0) =~= self@);
            return Ok(());
        }
        if self.closed() {
            return Err(BufError::Closed);
        }
        self.ring.borrow_write_ok(ln)
    }

    /// Writes what fits of `buf` before the wrap point and returns how many
    /// bytes were taken.
    pub fn write(&mut self, buf: &[u8]) -> (r: Result<usize, BufError>)
        requires
            old(self).wf(),
        ensures
            final(self).wf(),
            final(self).ring().size() == old(self).ring().size(),
            final(self).is_shut() == old(self).is_shut(),
            old(self).is_shut() ==> r == Err::<usize, BufError>(BufError::Closed),
            r is Err ==> final(self)@ == old(self)@,
            r is Err && r != Err::<usize, BufError>(BufError::Closed) ==> r == Err::<usize, BufError>(BufError::Full)
                && old(self)@.len() >= old(self).capacity(),
            r is Ok ==> r->Ok_0 <= buf@.len() && final(self)@ == old(self)@ + buf@.subrange(0, r->Ok_0 as int),
            r is Ok && buf@.len() > 0 ==> r->Ok_0 > 0,
    {
        proof {
            self.ring.lemma_rooms();
        }
        let n = self.borrow_write_buf(buf);
        match n {
            Err(e) => Err(e),
            Ok(n) => {
                proof {
                    self.ring.lemma_rooms();
                }
                match self.borrow_write_ok(n) {
                    Ok(()) => Ok(n),
                    Err(e) => Err(e),
                }
            }
        }
    }

    /// Moves the oldest bytes, as many as `buf` takes and none past the wrap
    /// point, into `buf` and returns how many.
    pub fn read(&mut self, buf: &mut [u8]) -> (r: Result<usize, BufError>)
        requires
            old(self).wf(),
        ensures
            final(self).wf(),
            final(self).ring().size() == old(self).ring().size(),
            final(self).is_shut() == old(self).is_shut(),
            final(buf)@.len() == old(buf)@.len(),
            old(self).is_shut() ==> r == Err::<usize, BufError>(BufError::Closed),
            r is Err ==> final(self)@ == old(self)@,
            r is Err && r != Err::<usize, BufError>(BufError::Closed) ==> r == Err::<usize, BufError>(BufError::Empty)
                && old(self)@.len() == 0,
            r is Ok ==> r->Ok_0 <= old(buf)@.len() && r->Ok_0 <= old(self)@.len()
                && final(buf)@.subrange(0, r->Ok_0 as int) == old(self)@.subrange(0, r->Ok_0 as int)
                && final(self)@ == old(self)@.subrange(r->Ok_0 as int, old(self)@.len() as int),
            r is Ok && old(buf)@.len() > 0 ==> r->Ok_0 > 0,
    {
        let ghost q = self@;
        proof {
            self.ring.lemma_rooms();
        }
        let n = {
            let win = self.borrow_read_buf(buf.len());
            match win {
                Err(e) => {
                    return Err(e);
                },
                Ok(win) => {
                    let n = win.len();
                    let mut i: usize = 0;
                    while i < n
                        invariant
                            0 <= i <= n,
                            n == win@.len(),
                            n <= buf@.len(),
                            buf@.len() == old(buf)@.len(),
                            win@ == q.subrange(0, n as int),
                            forall|k: int| 0 <= k < i ==> #[trigger] buf@[k] == win@[k],
                        decreases n - i,
                    {
                        buf[i] = win[i];
                        i = i + 1;
                    }
                    assert(buf@.subrange(0, n as int) =~= q.subrange(0, n as int));
                    n
                },
            }
        };
        proof {
            self.ring.lemma_rooms();
        }
        match self.borrow_read_ok(n) {
            Ok(()) => Ok(n),
            Err(e) => Err(e),
        }
    }
}

} // verus!
