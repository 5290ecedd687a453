use vstd::prelude::*;

use crate::error::BufError;

verus! {

#[verifier::external_type_specification]
#[verifier::external_body]
pub struct ExBytes(::bytes::Bytes);

/// The bytes that a `bytes::Bytes` value holds, in order.
pub uninterp spec fn bytes_content(b: ::bytes::Bytes) -> Seq<u8>;

/// Relies on `From<Vec<u8>> for bytes::Bytes`: the value holds the vector's bytes.
#[verifier::external_body]
fn bytes_from_vec(v: Vec<u8>) -> (r: ::bytes::Bytes)
    ensures
        bytes_content(r) == v@,
{
    ::bytes::Bytes::from(v)
}

/// Relies on `bytes::Bytes::len`: the number of bytes held.
#[verifier::external_body]
fn bytes_len(b: &::bytes::Bytes) -> (r: usize)
    ensures
        r == bytes_content(*b).len(),
{
    b.len()
}

/// Relies on `Clone for bytes::Bytes`: the clone shares the same bytes.
#[verifier::external_body]
fn bytes_clone(b: &::bytes::Bytes) -> (r: ::bytes::Bytes)
    ensures
        bytes_content(r) == bytes_content(*b),
{
    b.clone()
}

/// Relies on `bytes::Bytes::split_off`: `b` keeps `[0, at)`, the result holds
/// `[at, len)`; it panics when `at > len`.
#[verifier::external_body]
fn bytes_split_off(b: &mut ::bytes::Bytes, at: usize) -> (r: ::bytes::Bytes)
    requires
        at <= bytes_content(*old(b)).len(),
    ensures
        bytes_content(*final(b)) == bytes_content(*old(b)).subrange(0, at as int),
        bytes_content(r) == bytes_content(*old(b)).subrange(
            at as int,
            bytes_content(*old(b)).len() as int,
        ),
{
    b.split_off(at)
}

/// Relies on `bytes::Bytes::split_to`: `b` keeps `[at, len)`, the result holds
/// `[0, at)`; it panics when `at > len`.
#[verifier::external_body]
fn bytes_split_to(b: &mut ::bytes::Bytes, at: usize) -> (r: ::bytes::Bytes)
    requires
        at <= bytes_content(*old(b)).len(),
    ensures
        bytes_content(*final(b)) == bytes_content(*old(b)).subrange(
            at as int,
            bytes_content(*old(b)).len() as int,
        ),
        bytes_content(r) == bytes_content(*old(b)).subrange(0, at as int),
{
    b.split_to(at)
}

/// Relies on indexing through `Deref<Target = [u8]> for bytes::Bytes`.
#[verifier::external_body]
fn bytes_at(b: &::bytes::Bytes, i: usize) -> (r: u8)
    requires
        i < bytes_content(*b).len(),
    ensures
        r == bytes_content(*b)[i as int],
{
    b[i]
}

/// Cutting a chunk at any `pos` within it and laying the head and the tail
/// end to end gives back the chunk, with no byte dropped or repeated.
pub proof fn lemma_cut_rejoins(s: Seq<u8>, pos: nat)
    requires
        pos <= s.len(),
    ensures
        s.subrange(0, pos as int) + s.subrange(pos as int, s.len() as int) == s,
        s.subrange(0, pos as int).len() + s.subrange(pos as int, s.len() as int).len() == s.len(),
{
    assert(s.subrange(0, pos as int) + s.subrange(pos as int, s.len() as int) =~= s);
}

/// An immutable, shared view of a run of bytes. Cloning and cutting share
/// the underlying storage; no byte is copied.
pub struct ByteBox {
    data: ::bytes::Bytes,
}

impl View for ByteBox {
    type V = Seq<u8>;

    closed spec fn view(&self) -> Seq<u8> {
        bytes_content(self.data)
    }
}

impl ByteBox {
    /// A chunk holding the bytes of `v`.
    pub fn new(v: Vec<u8>) -> (r: Self)
        ensures
            r@ == v@,
    {
        ByteBox { data: bytes_from_vec(v) }
    }

    /// An empty chunk.
    pub fn empty() -> (r: Self)
        ensures
            r@ == Seq::<u8>::empty(),
    {
        Self::new(Vec::new())
    }

    pub fn len(&self) -> (r: usize)
        ensures
            r == self@.len(),
    {
        bytes_len(&self.data)
    }

    pub fn is_empty(&self) -> (r: bool)
        ensures
            r == (self@.len() == 0),
    {
        self.len() == 0
    }

    /// Another view of the same bytes.
    pub fn share(&self) -> (r: Self)
        ensures
            r@ == self@,
    {
        ByteBox { data: bytes_clone(&self.data) }
    }

    /// The byte at `i`.
    pub fn get(&self, i: usize) -> (r: Result<u8, BufError>)
        ensures
            i < self@.len() ==> r == Ok::<u8, BufError>(self@[i as int]),
            i >= self@.len() ==> r == Err::<u8, BufError>(BufError::OutOfBounds),
    {
        if i < self.len() {
            Ok(bytes_at(&self.data, i))
        } else {
            Err(BufError::OutOfBounds)
        }
    }

    /// A copy of the bytes.
    pub fn to_vec(&self) -> (r: Vec<u8>)
        ensures
            r@ == self@,
    {
        let n = self.len();
        let mut out: Vec<u8> = Vec::new();
        let mut i: usize = 0;
        while i < n
            invariant
                0 <= i <= n,
                n == self@.len(),
                out@ == self@.subrange(0, i as int),
            decreases n - i,
        {
            out.push(bytes_at(&self.data, i));
            assert(self@.subrange(0, i + 1) =~= self@.subrange(0, i as int).push(self@[i as int]));
            i = i + 1;
        }
        assert(self@.subrange(0, n as int) =~= self@);
        out
    }

    /// Splits at `pos`: `self` keeps the head `[0, pos)` and the tail
    /// `[pos, len)` is returned.
    pub fn cut(&mut self, pos: usize) -> (r: Result<ByteBox, BufError>)
        ensures
            pos <= old(self)@.len() ==> r is Ok && final(self)@ == old(self)@.subrange(0, pos as int)
                && r->Ok_0@ == old(self)@.subrange(pos as int, old(self)@.len() as int),
            pos > old(self)@.len() ==> r == Err::<ByteBox, BufError>(BufError::OutOfBounds)
                && final(self)@ == old(self)@,
    {
        if pos > self.len() {
            return Err(BufError::OutOfBounds);
        }
        let tail = bytes_split_off(&mut self.data, pos);
        Ok(ByteBox { data: tail })
    }

    /// Splits at `pos`: the head `[0, pos)` is returned and `self` becomes
    /// the tail `[pos, len)`.
    pub fn cuts(&mut self, pos: usize) -> (r: Result<ByteBox, BufError>)
        ensures
            pos <= old(self)@.len() ==> r is Ok && r->Ok_0@ == old(self)@.subrange(0, pos as int)
                && final(self)@ == old(self)@.subrange(pos as int, old(self)@.len() as int),
            pos > old(self)@.len() ==> r == Err::<ByteBox, BufError>(BufError::OutOfBounds)
                && final(self)@ == old(self)@,
    {
        if pos > self.len() {
            return Err(BufError::OutOfBounds);
        }
        let head = bytes_split_to(&mut self.data, pos);
        Ok(ByteBox { data: head })
    }
}

} // verus!
