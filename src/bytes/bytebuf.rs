use std::collections::VecDeque;
use vstd::prelude::*;
use vstd::seq_lib::lemma_flatten_concat;

use crate::bytes::ByteBox;
use crate::error::BufError;

verus! {

broadcast use vstd::seq_lib::group_seq_properties;

/// The bytes of `chunks` laid end to end.
pub open spec fn concat_chunks(chunks: Seq<Seq<u8>>) -> Seq<u8> {
    chunks.flatten()
}

proof fn lemma_concat_front(x: Seq<u8>, s: Seq<Seq<u8>>)
    ensures
        concat_chunks(seq![x] + s) == x + concat_chunks(s),
{
    let t = seq![x] + s;
    assert(t.drop_first() =~= s);
    assert(t.first() == x);
}

proof fn lemma_concat_prefix(s: Seq<Seq<u8>>, i: int)
    requires
        0 <= i < s.len(),
    ensures
        concat_chunks(s.subrange(0, i + 1)) == concat_chunks(s.subrange(0, i)) + s[i],
        concat_chunks(s) == concat_chunks(s.subrange(0, i + 1)) + concat_chunks(
            s.subrange(i + 1, s.len() as int),
        ),
{
    assert(s.subrange(0, i + 1) =~= s.subrange(0, i).push(s[i]));
    s.subrange(0, i).lemma_flatten_push(s[i]);
    lemma_flatten_concat(s.subrange(0, i + 1), s.subrange(i + 1, s.len() as int));
    assert(s.subrange(0, i + 1) + s.subrange(i + 1, s.len() as int) =~= s);
}

/// An empty buffer that was handed `a` and then `b` holds `a + b`; cutting
/// `k` bytes off its front hands out the first `k` bytes of `a + b` and
/// leaves the rest, which together give back `a + b`.
pub proof fn lemma_push_cut_round_trip(a: Seq<u8>, b: Seq<u8>, k: nat)
    requires
        k <= a.len() + b.len(),
    ensures
        Seq::<u8>::empty() + a + b == a + b,
        (a + b).subrange(0, k as int) + (a + b).subrange(k as int, (a + b).len() as int) == a + b,
        k <= a.len() ==> (a + b).subrange(0, k as int) == a.subrange(0, k as int),
        k >= a.len() ==> (a + b).subrange(k as int, (a + b).len() as int) == b.subrange(
            k - a.len(),
            b.len() as int,
        ),
{
    assert(Seq::<u8>::empty() + a + b =~= a + b);
    let s = a + b;
    assert(s.subrange(0, k as int) + s.subrange(k as int, s.len() as int) =~= s);
    if k <= a.len() {
        assert(s.subrange(0, k as int) =~= a.subrange(0, k as int));
    }
    if k >= a.len() {
        assert(s.subrange(k as int, s.len() as int) =~= b.subrange(k - a.len(), b.len() as int));
    }
}

/// An ordered queue of byte chunks with a running total length.
pub struct ByteBoxBuf {
    count: usize,
    list: VecDeque<ByteBox>,
}

impl View for ByteBoxBuf {
    type V = Seq<u8>;

    /// All buffered bytes, front first.
    open spec fn view(&self) -> Seq<u8> {
        concat_chunks(self.chunks())
    }
}

impl ByteBoxBuf {
    /// The chunks, front first.
    pub closed spec fn chunks(&self) -> Seq<Seq<u8>> {
        self.list@.map_values(|c: ByteBox| c@)
    }

    /// The running total equals the bytes held, and no chunk is empty.
    pub closed spec fn wf(&self) -> bool {
        &&& self.count == self@.len()
        &&& forall|i: int| 0 <= i < self.chunks().len() ==> #[trigger] self.chunks()[i].len() > 0
    }

    /// The buffer is empty exactly when it has no chunk, and its length fits a `usize`.
    pub proof fn lemma_wf(&self)
        requires
            self.wf(),
        ensures
            (self@.len() == 0) == (self.chunks().len() == 0),
            self@.len() <= usize::MAX,
            forall|i: int| 0 <= i < self.chunks().len() ==> #[trigger] self.chunks()[i].len() > 0,
    {
        if self.chunks().len() > 0 {
            let s = self.chunks();
            assert(s[0].len() > 0);
            assert(s.flatten() == s.first() + s.drop_first().flatten());
        }
    }

    pub fn new() -> (r: Self)
        ensures
            r.wf(),
            r@ == Seq::<u8>::empty(),
            r.chunks() == Seq::<Seq<u8>>::empty(),
    {
        let r = ByteBoxBuf { count: 0, list: VecDeque::new() };
        assert(r.chunks() =~= Seq::<Seq<u8>>::empty());
        r
    }

    /// Puts a chunk in front; an empty chunk is dropped.
    pub fn push_front(&mut self, data: ByteBox)
        requires
            old(self).wf(),
            old(self)@.len() + data@.len() <= usize::MAX,
        ensures
            final(self).wf(),
            final(self)@ == data@ + old(self)@,
            data@.len() == 0 ==> final(self).chunks() == old(self).chunks(),
            data@.len() > 0 ==> final(self).chunks() == seq![data@] + old(self).chunks(),
    {
        let n = data.len();
        if n > 0 {
            let ghost before = self.chunks();
            self.count = self.count + n;
            self.list.push_front(data);
            assert(self.chunks() =~= seq![data@] + before);
            proof {
                lemma_concat_front(data@, before);
            }
        } else {
            assert(data@ + old(self)@ =~= old(self)@);
        }
    }

    /// Appends a chunk at the back; an empty chunk is dropped.
    pub fn push(&mut self, data: ByteBox)
        requires
            old(self).wf(),
            old(self)@.len() + data@.len() <= usize::MAX,
        ensures
            final(self).wf(),
            final(self)@ == old(self)@ + data@,
            data@.len() == 0 ==> final(self).chunks() == old(self).chunks(),
            data@.len() > 0 ==> final(self).chunks() == old(self).chunks().push(data@),
    {
        let n = data.len();
        if n > 0 {
            let ghost before = self.chunks();
            self.count = self.count + n;
            self.list.push_back(data);
            assert(self.chunks() =~= before.push(data@));
            proof {
                before.lemma_flatten_push(data@);
            }
        } else {
            assert(old(self)@ + data@ =~= old(self)@);
        }
    }

    /// Appends every chunk of `data`, sharing their storage.
    pub fn push_all(&mut self, data: &Self)
        requires
            old(self).wf(),
            data.wf(),
            old(self)@.len() + data@.len() <= usize::MAX,
        ensures
            final(self).wf(),
            final(self)@ == old(self)@ + data@,
    {
        let n = data.list.len();
        let mut i: usize = 0;
        while i < n
            invariant
                self.wf(),
                data.wf(),
                n == data.chunks().len(),
                0 <= i <= n,
                self@ == old(self)@ + concat_chunks(data.chunks().subrange(0, i as int)),
                old(self)@.len() + data@.len() <= usize::MAX,
            decreases n - i,
        {
            proof {
                lemma_concat_prefix(data.chunks(), i as int);
            }
            let c = data.list[i].share();
            assert(c@ == data.chunks()[i as int]);
            self.push(c);
            i = i + 1;
        }
        assert(data.chunks().subrange(0, n as int) =~= data.chunks());
    }

    /// Appends the first `n` bytes of `dt` (all of them when `n` exceeds its length).
    pub fn pushs(&mut self, dt: Vec<u8>, n: usize)
        requires
            old(self).wf(),
            old(self)@.len() + dt@.len() <= usize::MAX,
        ensures
            final(self).wf(),
            n <= dt@.len() ==> final(self)@ == old(self)@ + dt@.subrange(0, n as int),
            n > dt@.len() ==> final(self)@ == old(self)@ + dt@,
    {
        let mut dt = dt;
        dt.truncate(n);
        self.push(ByteBox::new(dt));
    }

    /// Removes and returns the front chunk.
    pub fn pull(&mut self) -> (r: Option<ByteBox>)
        requires
            old(self).wf(),
        ensures
            final(self).wf(),
            old(self).chunks().len() == 0 ==> r is None && final(self)@ == old(self)@,
            old(self).chunks().len() > 0 ==> r is Some && r->Some_0@ == old(self).chunks()[0]
                && r->Some_0@.len() > 0 && final(self).chunks() == old(self).chunks().drop_first()
                && old(self)@ == r->Some_0@ + final(self)@,
    {
        let ghost before = self.chunks();
        match self.list.pop_front() {
            None => None,
            Some(v) => {
                assert(before =~= seq![v@] + self.chunks());
                proof {
                    lemma_concat_front(v@, self.chunks());
                    assert(before[0].len() > 0);
                }
                self.count = self.count - v.len();
                assert forall|i: int| 0 <= i < self.chunks().len() implies #[trigger] self.chunks()[i].len() > 0 by {
                    assert(self.chunks()[i] == before[i + 1]);
                }
                Some(v)
            }
        }
    }

    /// Moves every chunk into a new buffer and leaves `self` empty.
    pub fn pull_all(&mut self) -> (r: Self)
        requires
            old(self).wf(),
        ensures
            r.wf(),
            final(self).wf(),
            r@ == old(self)@,
            r.chunks() == old(self).chunks(),
            final(self)@ == Seq::<u8>::empty(),
    {
        let mut rts = Self::new();
        core::mem::swap(self, &mut rts);
        rts
    }

    pub fn clear(&mut self)
        ensures
            final(self).wf(),
            final(self)@ == Seq::<u8>::empty(),
    {
        *self = Self::new();
    }

    /// Shares of the chunks, front first.
    pub fn iter(&self) -> (r: Vec<ByteBox>)
        ensures
            r@.map_values(|c: ByteBox| c@) == self.chunks(),
    {
        let n = self.list.len();
        let mut out: Vec<ByteBox> = Vec::new();
        let mut i: usize = 0;
        while i < n
            invariant
                n == self.chunks().len(),
                0 <= i <= n,
                out@.map_values(|c: ByteBox| c@) == self.chunks().subrange(0, i as int),
            decreases n - i,
        {
            let c = self.list[i].share();
            let ghost before = out@;
            out.push(c);
            assert(out@.map_values(|c: ByteBox| c@) =~= before.map_values(|c: ByteBox| c@).push(c@));
            assert(self.chunks().subrange(0, i + 1) =~= self.chunks().subrange(0, i as int).push(self.chunks()[i as int]));
            i = i + 1;
        }
        assert(self.chunks().subrange(0, n as int) =~= self.chunks());
        out
    }

    /// The number of buffered bytes.
    pub fn len(&self) -> (r: usize)
        requires
            self.wf(),
        ensures
            r == self@.len(),
    {
        self.count
    }

    /// The length of the front chunk, 0 when there is none.
    pub fn frtlen(&self) -> (r: usize)
        ensures
            self.chunks().len() == 0 ==> r == 0,
            self.chunks().len() > 0 ==> r == self.chunks()[0].len(),
            self.wf() ==> (r == 0 <==> self@.len() == 0),
    {
        proof {
            if self.wf() {
                self.lemma_wf();
            }
        }
        if self.list.len() > 0 {
            self.list[0].len()
        } else {
            0
        }
    }

    /// The number of buffered bytes, summed over the chunks.
    pub fn lens(&self) -> (r: usize)
        requires
            self.wf(),
        ensures
            r == self@.len(),
    {
        let n = self.list.len();
        let mut total: usize = 0;
        let mut i: usize = 0;
        while i < n
            invariant
                self.wf(),
                n == self.chunks().len(),
                0 <= i <= n,
                total == concat_chunks(self.chunks().subrange(0, i as int)).len(),
            decreases n - i,
        {
            proof {
                lemma_concat_prefix(self.chunks(), i as int);
            }
            total = total + self.list[i].len();
            i = i + 1;
        }
        assert(self.chunks().subrange(0, n as int) =~= self.chunks());
        total
    }

    /// The byte at offset `idx` from the front.
    pub fn get_byte(&self, idx: usize) -> (r: Result<u8, BufError>)
        requires
            self.wf(),
        ensures
            idx < self@.len() ==> r == Ok::<u8, BufError>(self@[idx as int]),
            idx >= self@.len() ==> r == Err::<u8, BufError>(BufError::OutOfBounds),
    {
        if idx >= self.count {
            return Err(BufError::OutOfBounds);
        }
        let n = self.list.len();
        let mut lns: usize = 0;
        let mut i: usize = 0;
        while i < n
            invariant
                self.wf(),
                n == self.chunks().len(),
                0 <= i <= n,
                lns == concat_chunks(self.chunks().subrange(0, i as int)).len(),
                lns <= idx < self@.len(),
            decreases n - i,
        {
            proof {
                lemma_concat_prefix(self.chunks(), i as int);
            }
            let c = &self.list[i];
            let k = idx - lns;
            if k < c.len() {
                proof {
                    let s = self.chunks();
                    let pre = concat_chunks(s.subrange(0, i as int));
                    assert(self@ == pre + s[i as int] + concat_chunks(s.subrange(i + 1, s.len() as int)));
                    assert(self@[idx as int] == s[i as int][k as int]);
                }
                return c.get(k);
            }
            lns = lns + c.len();
            i = i + 1;
        }
        assert(self.chunks().subrange(0, n as int) =~= self.chunks());
        Err(BufError::OutOfBounds)
    }

    /// All buffered bytes in one vector.
    fn collect(&self) -> (r: Vec<u8>)
        requires
            self.wf(),
        ensures
            r@ == self@,
    {
        let n = self.list.len();
        let mut out: Vec<u8> = Vec::new();
        let mut i: usize = 0;
        while i < n
            invariant
                self.wf(),
                n == self.chunks().len(),
                0 <= i <= n,
                out@ == concat_chunks(self.chunks().subrange(0, i as int)),
            decreases n - i,
        {
            proof {
                lemma_concat_prefix(self.chunks(), i as int);
            }
            let c = &self.list[i];
            let m = c.len();
            let mut j: usize = 0;
            while j < m
                invariant
                    0 <= j <= m,
                    m == c@.len(),
                    c@ == self.chunks()[i as int],
                    out@ == concat_chunks(self.chunks().subrange(0, i as int)) + c@.subrange(0, j as int),
                decreases m - j,
            {
                let b = c.get(j);
                out.push(b.unwrap());
                assert(c@.subrange(0, j + 1) =~= c@.subrange(0, j as int).push(c@[j as int]));
                j = j + 1;
            }
            assert(c@.subrange(0, m as int) =~= c@);
            i = i + 1;
        }
        assert(self.chunks().subrange(0, n as int) =~= self.chunks());
        out
    }

    /// Copies `len` bytes starting at offset `start`, and returns them with
    /// the offset just past them. The buffer is left as it is.
    pub fn gets(&self, start: usize, len: usize) -> (r: Result<(Vec<u8>, usize), BufError>)
        requires
            self.wf(),
        ensures
            (len == 0 || start + len > self@.len()) ==> r == Err::<(Vec<u8>, usize), BufError>(
                BufError::OutOfBounds,
            ),
            (len > 0 && start + len <= self@.len()) ==> r is Ok && r->Ok_0.0@ == self@.subrange(
                start as int,
                start + len,
            ) && r->Ok_0.1 == start + len,
    {
        if len == 0 || start >= self.count || len > self.count - start {
            return Err(BufError::OutOfBounds);
        }
        let all = self.collect();
        let mut out: Vec<u8> = Vec::new();
        let end = start + len;
        let mut i: usize = start;
        while i < end
            invariant
                all@ == self@,
                end == start + len,
                start <= i <= end <= self@.len(),
                out@ == self@.subrange(start as int, i as int),
            decreases end - i,
        {
            out.push(all[i]);
            assert(self@.subrange(start as int, i + 1) =~= self@.subrange(start as int, i as int).push(self@[i as int]));
            i = i + 1;
        }
        Ok((out, end))
    }

    /// Removes exactly `pos` bytes from the front and returns them as a new
    /// buffer; a chunk that straddles the cut is split, its tail staying in front.
    pub fn cut_front(&mut self, pos: usize) -> (r: Result<Self, BufError>)
        requires
            old(self).wf(),
        ensures
            final(self).wf(),
            pos > old(self)@.len() ==> r == Err::<Self, BufError>(BufError::OutOfBounds) && final(self)@ == old(self)@
                && final(self).chunks() == old(self).chunks(),
            pos == 0 ==> r is Ok && r->Ok_0@.len() == 0 && final(self).chunks() == old(self).chunks(),
            pos <= old(self)@.len() ==> r is Ok && r->Ok_0.wf() && r->Ok_0@ == old(self)@.subrange(0, pos as int)
                && final(self)@ == old(self)@.subrange(pos as int, old(self)@.len() as int),
    {
        if pos > self.count {
            return Err(BufError::OutOfBounds);
        }
        if pos == 0 {
            return Ok(Self::new());
        }
        let mut frt = Self::new();
        let mut rest: usize = pos;
        while rest > 0
            invariant
                self.wf(),
                frt.wf(),
                frt@ + self@ == old(self)@,
                frt@.len() + rest == pos,
                pos <= old(self)@.len(),
            decreases rest,
        {
            let v = self.pull();
            let mut v = v.unwrap();
            let k = if rest < v.len() { rest } else { v.len() };
            let head = v.cuts(k);
            let head = head.unwrap();
            self.push_front(v);
            frt.push(head);
            assert(frt@ + self@ =~= old(self)@);
            rest = rest - k;
        }
        assert(old(self)@ == frt@ + self@);
        assert(frt@ =~= old(self)@.subrange(0, pos as int));
        assert(self@ =~= old(self)@.subrange(pos as int, old(self)@.len() as int));
        Ok(frt)
    }

    /// All buffered bytes as one chunk (one copy).
    pub fn to_bytes(&self) -> (r: ByteBox)
        requires
            self.wf(),
        ensures
            r@ == self@,
    {
        ByteBox::new(self.collect())
    }

    /// All buffered bytes as one chunk; a buffer of exactly one chunk is
    /// shared without a copy.
    pub fn to_byte_box(&self) -> (r: ByteBox)
        requires
            self.wf(),
        ensures
            r@ == self@,
    {
        if self.list.len() == 1 {
            proof {
                let s = self.chunks();
                s.lemma_flatten_one_element();
                assert(self.list@[0]@ == s[0]);
            }
            self.list[0].share()
        } else {
            self.to_bytes()
        }
    }
}

} // verus!
