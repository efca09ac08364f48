//! A growable array indexed by `u32`, and the encoding of its stored length.

use crate::errors::StdError;
use vstd::prelude::*;

verus! {

/// Elements at indexes `0..len`, with `len` a `u32`.
pub struct Vector<T> {
    items: Vec<T>,
}

impl<T> View for Vector<T> {
    type V = Seq<T>;

    closed spec fn view(&self) -> Seq<T> {
        self.items@
    }
}

/// The number a big-endian byte string stands for.
pub open spec fn be_value(b: Seq<u8>) -> nat
    decreases b.len(),
{
    if b.len() == 0 {
        0
    } else {
        be_value(b.drop_last()) * 256 + b.last() as nat
    }
}

impl<T> Vector<T> {
    /// The length fits in a `u32`.
    pub open spec fn wf(&self) -> bool {
        self@.len() <= u32::MAX
    }

    /// An empty vector.
    pub fn new() -> (r: Self)
        ensures
            r@ == Seq::<T>::empty(),
    {
        Vector { items: Vec::new() }
    }

    /// Appends `item`; fails when the length would leave `u32`.
    pub fn push(&mut self, item: T) -> (r: Result<(), StdError>)
        requires
            old(self).wf(),
        ensures
            final(self).wf(),
            r is Ok <==> old(self)@.len() < u32::MAX,
            r is Ok ==> final(self)@ == old(self)@.push(item),
            r matches Err(e) ==> (e matches StdError::GenericErr { msg } && msg@ == "Vector overflow"@) && *final(self)
                == *old(self),
    {
        if self.items.len() >= 0xffff_ffff {
            return Err(StdError::GenericErr { msg: String::from_str("Vector overflow") });
        }
        self.items.push(item);
        Ok(())
    }

    /// Removes and returns the last element; fails when empty.
    pub fn pop(&mut self) -> (r: Result<T, StdError>)
        requires
            old(self).wf(),
        ensures
            final(self).wf(),
            r is Ok <==> old(self)@.len() > 0,
            r matches Ok(v) ==> v == old(self)@.last() && final(self)@ == old(self)@.drop_last(),
            r matches Err(e) ==> (e matches StdError::GenericErr { msg } && msg@ == "Pop on empty Vector"@)
                && final(self)@ == old(self)@,
    {
        match self.items.pop() {
            Some(v) => Ok(v),
            None => Err(StdError::GenericErr { msg: String::from_str("Pop on empty Vector") }),
        }
    }

    /// The element at `key`; fails at or beyond the end.
    pub fn get(&self, key: u32) -> (r: Result<&T, StdError>)
        requires
            self.wf(),
        ensures
            r is Ok <==> key < self@.len(),
            r matches Ok(v) ==> *v == self@[key as int],
            r matches Err(e) ==> e == (StdError::OutOfBounds { key }),
    {
        if (key as usize) >= self.items.len() {
            return Err(StdError::OutOfBounds { key });
        }
        Ok(&self.items[key as usize])
    }

    /// Replaces the element at `key`, or appends when `key` is the length;
    /// fails beyond the end.
    pub fn set(&mut self, key: u32, item: T) -> (r: Result<(), StdError>)
        requires
            old(self).wf(),
            key < u32::MAX || key != old(self)@.len(),
        ensures
            final(self).wf(),
            r is Ok <==> key <= old(self)@.len(),
            r is Ok && key < old(self)@.len() ==> final(self)@ == old(self)@.update(key as int, item),
            r is Ok && key == old(self)@.len() ==> final(self)@ == old(self)@.push(item),
            r matches Err(e) ==> e == (StdError::OutOfBounds { key }) && *final(self) == *old(self),
    {
        let len = self.items.len();
        if (key as usize) > len {
            return Err(StdError::OutOfBounds { key });
        }
        if (key as usize) == len {
            self.items.push(item);
        } else {
            self.items.set(key as usize, item);
        }
        Ok(())
    }

    /// The number of elements.
    pub fn len(&self) -> (r: u32)
        requires
            self.wf(),
        ensures
            r == self@.len(),
    {
        self.items.len() as u32
    }

    /// Every index with its element, in ascending order of index.
    pub fn range(&self) -> (r: Vec<(u32, &T)>)
        requires
            self.wf(),
        ensures
            r@.len() == self@.len(),
            forall|i: int| 0 <= i < r@.len() ==> #[trigger] r@[i].0 == i && *r@[i].1 == self@[i],
    {
        let mut out: Vec<(u32, &T)> = Vec::new();
        let mut i: usize = 0;
        while i < self.items.len()
            invariant
                i <= self.items@.len() <= u32::MAX,
                out@.len() == i,
                forall|j: int| 0 <= j < i ==> #[trigger] out@[j].0 == j && *out@[j].1 == self.items@[j],
            decreases self.items@.len() - i,
        {
            out.push((i as u32, &self.items[i]));
            assert(out@[i as int].0 == i);
            i += 1;
        }
        out
    }
}

/// The stored length: absent means zero, four bytes are read big-endian, and
/// any other size is a parse error.
pub fn decode_len(stored: Option<&[u8]>) -> (r: Result<u32, StdError>)
    ensures
        stored is None ==> r == Ok::<u32, StdError>(0),
        stored matches Some(b) ==> (r is Ok <==> b@.len() == 4),
        stored matches Some(b) ==> (r matches Ok(v) ==> v == be_value(b@)),
        r matches Err(e) ==> e is ParseErr,
{
    match stored {
        None => Ok(0),
        Some(b) => {
            if b.len() != 4 {
                return Err(StdError::ParseErr {
                    target_type: String::from_str("u32"),
                    msg: String::from_str("could not convert slice to array"),
                });
            }
            let v: u32 = (b[0] as u32) * 0x100_0000 + (b[1] as u32) * 0x1_0000 + (b[2] as u32) * 0x100 + (b[3] as u32);
            proof {
                let s = b@;
                assert(s.drop_last().drop_last().drop_last().drop_last().len() == 0);
                assert(s.drop_last().last() == s[2]);
                assert(s.drop_last().drop_last().last() == s[1]);
                assert(s.drop_last().drop_last().drop_last().last() == s[0]);
                reveal_with_fuel(be_value, 5);
                assert(be_value(s) == ((s[0] * 256 + s[1]) * 256 + s[2]) * 256 + s[3]);
            }
            Ok(v)
        },
    }
}

/// The four big-endian bytes that store `len`.
pub open spec fn encode_len_spec(len: u32) -> Seq<u8> {
    seq![(len / 0x100_0000) as u8, ((len / 0x1_0000) % 0x100) as u8, ((len / 0x100) % 0x100) as u8, (len % 0x100) as u8]
}

/// The four big-endian bytes that store `len`.
pub fn encode_len(len: u32) -> (r: Vec<u8>)
    ensures
        r@ == encode_len_spec(len),
{
    let b0: u8 = (len / 0x100_0000) as u8;
    let b1: u8 = ((len / 0x1_0000) % 0x100) as u8;
    let b2: u8 = ((len / 0x100) % 0x100) as u8;
    let b3: u8 = (len % 0x100) as u8;
    let mut r: Vec<u8> = Vec::new();
    r.push(b0);
    r.push(b1);
    r.push(b2);
    r.push(b3);
    assert(r@ =~= encode_len_spec(len));
    r
}

/// Decoding the stored form of a length gives the length back: the bytes are
/// four long, so `decode_len` accepts them, and they read as `len`.
pub proof fn lemma_len_round_trip(len: u32)
    ensures
        encode_len_spec(len).len() == 4,
        be_value(encode_len_spec(len)) == len,
{
    let s = encode_len_spec(len);
    assert(s.drop_last().drop_last().drop_last().drop_last().len() == 0);
    assert(s.drop_last().last() == s[2]);
    assert(s.drop_last().drop_last().last() == s[1]);
    assert(s.drop_last().drop_last().drop_last().last() == s[0]);
    reveal_with_fuel(be_value, 5);
    assert(be_value(s) == ((s[0] * 256 + s[1]) * 256 + s[2]) * 256 + s[3]);
    let l = len as int;
    assert((((l / 0x100_0000) * 256 + (l / 0x1_0000) % 0x100) * 256 + (l / 0x100) % 0x100) * 256 + l % 0x100 == l);
}

/// Popping right after pushing gives back the pushed element and the vector as it was.
pub proof fn lemma_push_then_pop<T>(s: Seq<T>, x: T)
    ensures
        s.push(x).last() == x,
        s.push(x).drop_last() == s,
{
    assert(s.push(x).drop_last() =~= s);
}

/// Reading an index right after setting it gives the element set; other
/// indexes keep their elements.
pub proof fn lemma_set_then_get<T>(s: Seq<T>, key: int, x: T, other: int)
    requires
        0 <= key < s.len(),
        0 <= other < s.len(),
        other != key,
    ensures
        s.update(key, x)[key] == x,
        s.update(key, x)[other] == s[other],
{
}

} // verus!
