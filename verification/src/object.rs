//! Heap objects and the pool that owns their bytes.
//!
//! A value cell never owns heap memory. A string value holds a
//! [`StringObj`], a reference into the [`StringPool`], which keeps every
//! buffer for as long as it lives and never moves or drops one.
use vstd::prelude::*;
use vstd::slice::slice_to_vec;
use vstd::string::StringSliceAdditionalSpecFns;
use vstd::utf8::valid_utf8;

verus! {

/// A reference to a string in a [`StringPool`]: the slot and the length of
/// the bytes in it.
#[derive(Copy, Clone, Debug)]
pub struct StringObj {
    pub index: usize,
    pub len: usize,
}

/// A heap object; strings are the only kind.
#[derive(Copy, Clone, Debug)]
pub enum Obj {
    StringObj(StringObj),
}

/// The owner of every string buffer. Buffers are added at the end and never
/// removed, so a reference stays good for the life of the pool.
pub struct StringPool {
    pub strings: Vec<Vec<u8>>,
}

impl StringObj {
    /// Whether the reference points at a buffer of `pool` of its length.
    pub open spec fn live_in(self, pool: Seq<Seq<u8>>) -> bool {
        self.index < pool.len() && pool[self.index as int].len() == self.len
    }

    /// The bytes the reference stands for.
    pub open spec fn bytes(self, pool: Seq<Seq<u8>>) -> Seq<u8> {
        pool[self.index as int]
    }

    /// The bytes of the string.
    pub fn as_slice<'a>(&self, pool: &'a StringPool) -> (r: &'a [u8])
        requires
            self.live_in(pool@),
        ensures
            r@ == self.bytes(pool@),
    {
        pool.strings[self.index].as_slice()
    }

    /// The string as text, where its bytes are UTF-8.
    pub fn as_str<'a>(&self, pool: &'a StringPool) -> (r: Option<&'a str>)
        requires
            self.live_in(pool@),
        ensures
            r is Some <==> valid_utf8(self.bytes(pool@)),
            r is Some ==> r.unwrap().spec_bytes() == self.bytes(pool@),
    {
        text_of(self.as_slice(pool))
    }
}

/// `core::str::from_utf8`: the bytes as a `str` when they are valid UTF-8,
/// and nothing otherwise. The `str` borrows the very bytes it was given.
#[verifier::external_body]
fn text_of<'a>(bytes: &'a [u8]) -> (r: Option<&'a str>)
    ensures
        r is Some <==> valid_utf8(bytes@),
        r is Some ==> r.unwrap().spec_bytes() == bytes@,
{
    core::str::from_utf8(bytes).ok()
}

impl StringPool {
    /// The buffers, oldest first.
    pub open spec fn view(&self) -> Seq<Seq<u8>> {
        Seq::new(self.strings@.len(), |i: int| self.strings@[i]@)
    }

    /// An empty pool.
    pub fn new() -> (r: Self)
        ensures
            r@ == Seq::<Seq<u8>>::empty(),
    {
        let r = StringPool { strings: Vec::new() };
        assert(r@ =~= Seq::<Seq<u8>>::empty());
        r
    }

    /// The number of buffers.
    pub fn len(&self) -> (r: usize)
        ensures
            r == self@.len(),
    {
        self.strings.len()
    }

    /// Stores a copy of `bytes` in a new buffer and returns the reference to
    /// it. Equal contents are not shared: each call makes a buffer.
    pub fn intern(&mut self, bytes: &[u8]) -> (r: StringObj)
        ensures
            final(self)@ == old(self)@.push(bytes@),
            r.index == old(self)@.len(),
            r.len == bytes@.len(),
            r.live_in(final(self)@),
            r.bytes(final(self)@) == bytes@,
    {
        let index = self.strings.len();
        let len = bytes.len();
        self.strings.push(slice_to_vec(bytes));
        assert(self@ =~= old(self)@.push(bytes@));
        StringObj { index, len }
    }

    /// Stores the bytes of `a` followed by those of `b` in a new buffer.
    pub fn concatenate(&mut self, a: StringObj, b: StringObj) -> (r: StringObj)
        requires
            a.live_in(old(self)@),
            b.live_in(old(self)@),
        ensures
            final(self)@ == old(self)@.push(a.bytes(old(self)@) + b.bytes(old(self)@)),
            r.index == old(self)@.len(),
            r.len == a.len + b.len,
            r.live_in(final(self)@),
    {
        let mut joined = slice_to_vec(self.strings[a.index].as_slice());
        let tail = slice_to_vec(self.strings[b.index].as_slice());
        let mut tail = tail;
        joined.append(&mut tail);
        let index = self.strings.len();
        let len = joined.len();
        self.strings.push(joined);
        assert(self@ =~= old(self)@.push(a.bytes(old(self)@) + b.bytes(old(self)@)));
        StringObj { index, len }
    }
}

/// Adding a buffer keeps every earlier reference live, with the same bytes.
pub proof fn lemma_push_keeps_live(pool: Seq<Seq<u8>>, added: Seq<u8>, s: StringObj)
    requires
        s.live_in(pool),
    ensures
        s.live_in(pool.push(added)),
        s.bytes(pool.push(added)) == s.bytes(pool),
{
}

} // verus!
