use vstd::prelude::*;

use crate::error::BufError;

verus! {

/// `x` folded back into `[0, size)`, for `x < 2 * size`.
pub open spec fn wrap(x: int, size: int) -> int {
    if x < size {
        x
    } else {
        x - size
    }
}

/// The number of bytes between the cursors of a ring of `size` slots.
pub open spec fn ring_len(start: int, end: int, size: int) -> int {
    if start <= end {
        end - start
    } else {
        size - start + end
    }
}

/// One byte put into a queue `q` that holds at most `cap` bytes: the new
/// queue and the outcome.
pub open spec fn put_model(q: Seq<u8>, cap: nat, b: u8) -> (Seq<u8>, Result<(), BufError>) {
    if q.len() < cap {
        (q.push(b), Ok(()))
    } else {
        (q, Err(BufError::Full))
    }
}

/// One byte taken from the front of a queue `q`: the new queue and the outcome.
pub open spec fn pop_model(q: Seq<u8>) -> (Seq<u8>, Result<u8, BufError>) {
    if q.len() > 0 {
        (q.drop_first(), Ok(q[0]))
    } else {
        (q, Err(BufError::Empty))
    }
}

/// The queue after putting the bytes of `w` one at a time.
pub open spec fn put_all(q: Seq<u8>, cap: nat, w: Seq<u8>) -> Seq<u8>
    decreases w.len(),
{
    if w.len() == 0 {
        q
    } else {
        put_all(put_model(q, cap, w[0]).0, cap, w.drop_first())
    }
}

/// The bytes that `n` single takes from the front of `q` return, as long as
/// each succeeds.
pub open spec fn pop_all(q: Seq<u8>, n: nat) -> Seq<u8>
    decreases n,
{
    if n == 0 {
        Seq::empty()
    } else {
        match pop_model(q).1 {
            Ok(b) => seq![b] + pop_all(pop_model(q).0, (n - 1) as nat),
            Err(_) => Seq::empty(),
        }
    }
}

proof fn lemma_put_all(q: Seq<u8>, cap: nat, w: Seq<u8>)
    requires
        q.len() + w.len() <= cap,
    ensures
        put_all(q, cap, w) == q + w,
    decreases w.len(),
{
    if w.len() > 0 {
        lemma_put_all(q.push(w[0]), cap, w.drop_first());
        assert(q.push(w[0]) + w.drop_first() =~= q + w);
    } else {
        assert(q + w =~= q);
    }
}

proof fn lemma_pop_all(q: Seq<u8>, n: nat)
    requires
        n <= q.len(),
    ensures
        pop_all(q, n) == q.subrange(0, n as int),
    decreases n,
{
    if n > 0 {
        lemma_pop_all(q.drop_first(), (n - 1) as nat);
        assert(seq![q[0]] + q.drop_first().subrange(0, n - 1) =~= q.subrange(0, n as int));
    } else {
        assert(q.subrange(0, 0) =~= Seq::<u8>::empty());
    }
}

/// A ring with room for `w` returns, through single takes, exactly the
/// bytes of `w` put into it one at a time, in order; a put into a full ring
/// fails with `Full` and a take from an empty one with `Empty`, both leaving
/// it unchanged.
pub proof fn lemma_ring_fifo(cap: nat, w: Seq<u8>, b: u8)
    requires
        w.len() <= cap,
    ensures
        put_all(Seq::empty(), cap, w) == w,
        pop_all(put_all(Seq::empty(), cap, w), w.len()) == w,
        forall|q: Seq<u8>| q.len() == cap ==> #[trigger] put_model(q, cap, b) == (q, Err::<(), BufError>(BufError::Full)),
        pop_model(Seq::empty()) == (Seq::<u8>::empty(), Err::<u8, BufError>(BufError::Empty)),
{
    lemma_put_all(Seq::empty(), cap, w);
    assert(Seq::<u8>::empty() + w =~= w);
    lemma_pop_all(w, w.len());
    assert(w.subrange(0, w.len() as int) =~= w);
}

/// A fixed ring of `size` slots of which `size - 1` hold data, so that equal
/// cursors always mean empty. Not synchronised; [`CircleBuf`](crate::bytes::CircleBuf)
/// adds closing on top.
pub struct RingBuf {
    data: Vec<u8>,
    start: usize,
    end: usize,
    size: usize,
}

impl View for RingBuf {
    type V = Seq<u8>;

    /// The buffered bytes, oldest first.
    closed spec fn view(&self) -> Seq<u8> {
        Seq::new(
            ring_len(self.start as int, self.end as int, self.size as int) as nat,
            |i: int| self.data@[wrap(self.start + i, self.size as int)],
        )
    }
}

impl RingBuf {
    /// The number of slots.
    pub closed spec fn size(&self) -> nat {
        self.size as nat
    }

    /// How many bytes it can hold at most.
    pub open spec fn capacity(&self) -> nat {
        if self.size() == 0 {
            0
        } else {
            (self.size() - 1) as nat
        }
    }

    /// The `n` free slots after the buffered bytes, in the order in which
    /// a write fills them.
    pub closed spec fn free_slots(&self, n: nat) -> Seq<u8> {
        Seq::new(n, |i: int| self.data@[wrap(self.end + i, self.size as int)])
    }

    /// The slot of the oldest buffered byte (the read cursor).
    pub closed spec fn head(&self) -> nat {
        self.start as nat
    }

    /// The slot that the next written byte takes (the write cursor).
    pub closed spec fn tail(&self) -> nat {
        self.end as nat
    }

    /// How many bytes the next write window can take: the free slots up to
    /// the wrap point.
    pub open spec fn write_room(&self) -> nat {
        if self.size() == 0 {
            0
        } else if self.tail() < self.head() {
            (self.head() - 1 - self.tail()) as nat
        } else if self.head() == 0 {
            (self.size() - 1 - self.tail()) as nat
        } else {
            (self.size() - self.tail()) as nat
        }
    }

    /// How many bytes the next read window can show: the buffered bytes up
    /// to the wrap point.
    pub open spec fn read_room(&self) -> nat {
        if self.head() <= self.tail() {
            (self.tail() - self.head()) as nat
        } else {
            (self.size() - self.head()) as nat
        }
    }

    pub closed spec fn wf(&self) -> bool {
        &&& self.data@.len() == self.size
        &&& self.size == 0 ==> self.start == 0 && self.end == 0
        &&& self.size > 0 ==> self.start < self.size && self.end < self.size
    }

    proof fn lemma_len(&self)
        requires
            self.wf(),
        ensures
            self@.len() <= self.capacity(),
            self.size() > 0 ==> wrap(self.start + self@.len(), self.size as int) == self.end,
            self.read_room() <= self@.len(),
            self@.len() == 0 ==> self.read_room() == 0,
            self@.len() > 0 ==> self.read_room() > 0,
            self.write_room() <= self.capacity() - self@.len(),
            self.capacity() - self@.len() > 0 ==> self.write_room() > 0,
    {
    }

    /// Whether the buffered bytes run past the last slot and on from the first.
    pub open spec fn wraps(&self) -> bool {
        self.head() > self.tail()
    }

    /// Neither window reaches past what it may use, and each is non-empty
    /// while there is something to read or room to write; a read window of
    /// bytes that do not wrap shows all of them.
    pub proof fn lemma_rooms(&self)
        requires
            self.wf(),
        ensures
            self.read_room() <= self@.len(),
            self.write_room() <= self.capacity() - self@.len(),
            self@.len() > 0 ==> self.read_room() > 0,
            self@.len() < self.capacity() ==> self.write_room() > 0,
            !self.wraps() ==> self.read_room() == self@.len(),
            self.free_slots(0) == Seq::<u8>::empty(),
            self.size() > 0 ==> self.head() < self.size() && self.tail() < self.size(),
            self.size() == 0 ==> self.head() == 0 && self.tail() == 0,
    {
        self.lemma_len();
        assert(self.free_slots(0) =~= Seq::<u8>::empty());
    }

    /// The first `n` free slots are the first `n` of any longer run of them.
    pub proof fn lemma_free_slots_prefix(&self, n: nat, m: nat)
        requires
            n <= m,
        ensures
            self.free_slots(n) == self.free_slots(m).subrange(0, n as int),
    {
        assert(self.free_slots(n) =~= self.free_slots(m).subrange(0, n as int));
    }

    /// A ring of `ln` slots, empty.
    pub fn new(ln: usize) -> (r: Self)
        ensures
            r.wf(),
            r@ == Seq::<u8>::empty(),
            r.size() == ln,
            r.head() == 0 && r.tail() == 0,
    {
        let r = RingBuf { data: vec![0u8; ln], start: 0, end: 0, size: ln };
        assert(r@ =~= Seq::<u8>::empty());
        r
    }

    pub fn len(&self) -> (r: usize)
        requires
            self.wf(),
        ensures
            r == self@.len(),
    {
        if self.start <= self.end {
            self.end - self.start
        } else {
            self.size - (self.start - self.end)
        }
    }

    /// The number of bytes that can still be written.
    pub fn avail(&self) -> (r: usize)
        requires
            self.wf(),
        ensures
            r == self.capacity() - self@.len(),
    {
        proof {
            self.lemma_len();
        }
        if self.size == 0 {
            0
        } else {
            self.size - 1 - self.len()
        }
    }

    /// Drops all buffered bytes.
    pub fn clear(&mut self)
        requires
            old(self).wf(),
        ensures
            final(self).wf(),
            final(self)@ == Seq::<u8>::empty(),
            final(self).size() == old(self).size(),
            final(self).head() == 0 && final(self).tail() == 0,
    {
        self.start = 0;
        self.end = 0;
        assert(self@ =~= Seq::<u8>::empty());
    }

    /// Appends one byte; `Full` when `capacity()` bytes are buffered.
    pub fn put_byte(&mut self, b: u8) -> (r: Result<(), BufError>)
        requires
            old(self).wf(),
        ensures
            final(self).wf(),
            final(self).size() == old(self).size(),
            (final(self)@, r) == put_model(old(self)@, old(self).capacity(), b),
            r is Ok ==> final(self).head() == old(self).head() && final(self).tail() == wrap(
                old(self).tail() + 1int,
                old(self).size() as int,
            ),
            r is Err ==> *final(self) == *old(self),
    {
        proof {
            self.lemma_len();
        }
        if self.size == 0 {
            return Err(BufError::Full);
        }
        let mut pos = self.end + 1;
        if pos == self.size {
            pos = 0;
        }
        if pos == self.start {
            return Err(BufError::Full);
        }
        let ghost before = self@;
        let e = self.end;
        self.data.set(e, b);
        self.end = pos;
        assert(self@ =~= before.push(b));
        Ok(())
    }

    /// Removes and returns the oldest byte; `Empty` when none is buffered.
    pub fn pop_byte(&mut self) -> (r: Result<u8, BufError>)
        requires
            old(self).wf(),
        ensures
            final(self).wf(),
            final(self).size() == old(self).size(),
            (final(self)@, r) == pop_model(old(self)@),
            r is Ok ==> final(self).tail() == old(self).tail() && final(self).head() == wrap(
                old(self).head() + 1int,
                old(self).size() as int,
            ),
            r is Err ==> *final(self) == *old(self),
    {
        if self.start == self.end {
            return Err(BufError::Empty);
        }
        let ghost before = self@;
        let v = self.data[self.start];
        let mut pos = self.start + 1;
        if pos == self.size {
            pos = 0;
        }
        self.start = pos;
        assert(self@ =~= before.drop_first());
        Ok(v)
    }

    /// The byte `i` places after the oldest one.
    pub fn get_byte(&self, i: usize) -> (r: Result<u8, BufError>)
        requires
            self.wf(),
        ensures
            i < self@.len() ==> r == Ok::<u8, BufError>(self@[i as int]),
            i >= self@.len() ==> r == Err::<u8, BufError>(BufError::OutOfBounds),
    {
        if i >= self.len() {
            return Err(BufError::OutOfBounds);
        }
        let pos = if i >= self.size - self.start {
            i - (self.size - self.start)
        } else {
            self.start + i
        };
        Ok(self.data[pos])
    }

    /// A view of the oldest buffered bytes, at most `ln` of them and none
    /// past the wrap point. Nothing is consumed: see `borrow_read_ok`.
    pub fn borrow_read_buf(&self, ln: usize) -> (r: Result<&[u8], BufError>)
        requires
            self.wf(),
        ensures
            self@.len() == 0 ==> r == Err::<&[u8], BufError>(BufError::Empty),
            r matches Ok(w) ==> w@.len() <= ln && w@.len() <= self@.len() && (ln > 0 ==> w@.len() > 0),
            self@.len() > 0 ==> r is Ok && r->Ok_0@ == self@.subrange(
                0,
                if ln < self.read_room() {
                    ln as int
                } else {
                    self.read_room() as int
                },
            ),
    {
        proof {
            self.lemma_len();
        }
        if self.start == self.end {
            return Err(BufError::Empty);
        }
        let room = if self.start < self.end {
            self.end - self.start
        } else {
            self.size - self.start
        };
        let w = if ln < room {
            ln
        } else {
            room
        };
        let out = vstd::slice::slice_subrange(self.data.as_slice(), self.start, self.start + w);
        assert(out@ =~= self@.subrange(0, w as int));
        Ok(out)
    }

    /// Consumes the `ln` oldest bytes after a read window was used.
    pub fn borrow_read_ok(&mut self, ln: usize) -> (r: Result<(), BufError>)
        requires
            old(self).wf(),
        ensures
            final(self).wf(),
            final(self).size() == old(self).size(),
            ln <= old(self)@.len() ==> r is Ok && final(self)@ == old(self)@.subrange(
                ln as int,
                old(self)@.len() as int,
            ),
            ln > old(self)@.len() ==> r == Err::<(), BufError>(BufError::OutOfBounds) && final(self)@
                == old(self)@,
            r is Ok ==> final(self).tail() == old(self).tail() && final(self).head() == wrap(
                old(self).head() + ln,
                old(self).size() as int,
            ),
            r is Err ==> *final(self) == *old(self),
    {
        if ln == 0 {
            assert(self@.subrange(0, self@.len() as int) =~= self@);
            return Ok(());
        }
        if ln > self.len() {
            return Err(BufError::OutOfBounds);
        }
        let ghost before = self@;
        let pos = if ln >= self.size - self.start {
            ln - (self.size - self.start)
        } else {
            self.start + ln
        };
        self.start = pos;
        assert(self@ =~= before.subrange(ln as int, before.len() as int));
        Ok(())
    }

    /// Copies the first bytes of `src` into the free slots after the buffered
    /// bytes, as many as fit before the wrap point, and returns how many. They
    /// become data only through `borrow_write_ok`.
    pub fn borrow_write_buf(&mut self, src: &[u8]) -> (r: Result<usize, BufError>)
        requires
            old(self).wf(),
        ensures
            final(self).wf(),
            final(self)@ == old(self)@,
            final(self).size() == old(self).size(),
            old(self)@.len() >= old(self).capacity() ==> r == Err::<usize, BufError>(BufError::Full)
                && *final(self) == *old(self),
            r matches Ok(k) ==> k <= src@.len() && k <= old(self).capacity() - old(self)@.len() && (
            src@.len() > 0 ==> k > 0),
            final(self).capacity() == old(self).capacity(),
            r matches Ok(k) ==> forall|n: nat|
                n <= k ==> #[trigger] final(self).free_slots(n) == src@.subrange(0, n as int),
            old(self)@.len() < old(self).capacity() ==> r is Ok && r->Ok_0 == (if src@.len()
                < old(self).write_room() {
                src@.len()
            } else {
                old(self).write_room()
            }) && final(self).free_slots(r->Ok_0 as nat) == src@.subrange(0, r->Ok_0 as int),
            final(self).head() == old(self).head() && final(self).tail() == old(self).tail(),
    {
        proof {
            self.lemma_len();
        }
        if self.avail() == 0 {
            return Err(BufError::Full);
        }
        let room = if self.end < self.start {
            self.start - 1 - self.end
        } else if self.start == 0 {
            self.size - 1 - self.end
        } else {
            self.size - self.end
        };
        let w = if src.len() < room {
            src.len()
        } else {
            room
        };
        let e = self.end;
        let ghost before = *self;
        let mut j: usize = 0;
        while j < w
            invariant
                self.wf(),
                self.start == before.start,
                self.end == before.end,
                self.size == before.size,
                before.wf(),
                e == self.end,
                0 <= j <= w,
                w <= room,
                room == before.write_room(),
                e + room <= self.size,
                forall|k: int|
                    0 <= k < self.size && !(e <= k < e + j) ==> #[trigger] self.data@[k]
                        == before.data@[k],
                forall|i: int| 0 <= i < j ==> #[trigger] self.data@[e + i] == src@[i],
                w <= src@.len(),
            decreases w - j,
        {
            self.data.set(e + j, src[j]);
            j = j + 1;
        }
        assert(self@ =~= before@);
        assert(self.free_slots(w as nat) =~= src@.subrange(0, w as int));
        assert forall|n: nat| n <= w implies #[trigger] self.free_slots(n) == src@.subrange(0, n as int) by {
            assert(self.free_slots(n) =~= src@.subrange(0, n as int));
        }
        Ok(w)
    }

    /// Makes the `ln` free slots after the buffered bytes part of the data,
    /// after a write window was filled.
    pub fn borrow_write_ok(&mut self, ln: usize) -> (r: Result<(), BufError>)
        requires
            old(self).wf(),
        ensures
            final(self).wf(),
            final(self).size() == old(self).size(),
            ln <= old(self).capacity() - old(self)@.len() ==> r is Ok && final(self)@ == old(self)@
                + old(self).free_slots(ln as nat),
            ln > old(self).capacity() - old(self)@.len() ==> r == Err::<(), BufError>(
                BufError::OutOfBounds,
            ) && final(self)@ == old(self)@,
            r is Ok ==> final(self).head() == old(self).head() && final(self).tail() == wrap(
                old(self).tail() + ln,
                old(self).size() as int,
            ),
            r is Err ==> *final(self) == *old(self),
    {
        proof {
            self.lemma_len();
        }
        if ln == 0 {
            assert(self@ + self.free_slots(0) =~= self@);
            return Ok(());
        }
        if ln > self.avail() {
            return Err(BufError::OutOfBounds);
        }
        let ghost before = *self;
        let pos = if ln >= self.size - self.end {
            ln - (self.size - self.end)
        } else {
            self.end + ln
        };
        self.end = pos;
        assert(self@ =~= before@ + before.free_slots(ln as nat));
        Ok(())
    }
}

} // verus!
