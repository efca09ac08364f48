//! The order in which contract storage lists records keyed by an address and
//! a share id: by the bytes of the stored key, which are the address's length
//! (two bytes, big-endian), its UTF-8 bytes, and the id (four bytes,
//! big-endian).

use vstd::prelude::*;
use vstd::string::StringSliceAdditionalSpecFns;
use vstd::utf8::{encode_utf8, encode_utf8_decode_utf8};

verus! {

/// `x` comes before `y` byte by byte: at the first place where they differ,
/// `x` has the smaller byte.
pub open spec fn bytes_lt(x: Seq<u8>, y: Seq<u8>) -> bool {
    exists|k: int| #![trigger x[k], y[k]] 0 <= k < x.len() && k < y.len() && x[k] < y[k] && x.take(k) == y.take(k)
}

/// Address-and-id keys in storage order: a shorter address (in UTF-8 bytes)
/// first, then the address's bytes, then the id.
pub open spec fn holder_key_lt(a: (Seq<char>, u32), b: (Seq<char>, u32)) -> bool {
    let x = encode_utf8(a.0);
    let y = encode_utf8(b.0);
    ||| x.len() < y.len()
    ||| x.len() == y.len() && bytes_lt(x, y)
    ||| x == y && a.1 < b.1
}

/// The keys of `s`, each as its view, in strictly increasing storage order.
pub open spec fn holder_keys_sorted(s: Seq<(String, u32)>) -> bool {
    forall|i: int, j: int| 0 <= i < j < s.len() ==> holder_key_lt(#[trigger] s[i]@, #[trigger] s[j]@)
}

/// Some entry of `s` has the key `key`.
pub open spec fn has_holder_key(s: Seq<(String, u32)>, key: (Seq<char>, u32)) -> bool {
    exists|i: int| 0 <= i < s.len() && (#[trigger] s[i])@ == key
}

/// Byte order is transitive.
pub proof fn lemma_bytes_lt_trans(x: Seq<u8>, y: Seq<u8>, z: Seq<u8>)
    requires
        bytes_lt(x, y),
        bytes_lt(y, z),
    ensures
        bytes_lt(x, z),
{
    let k1 = choose|k: int| #![trigger x[k], y[k]] 0 <= k < x.len() && k < y.len() && x[k] < y[k] && x.take(k) == y.take(k);
    let k2 = choose|k: int| #![trigger y[k], z[k]] 0 <= k < y.len() && k < z.len() && y[k] < z[k] && y.take(k) == z.take(k);
    let k = if k1 < k2 { k1 } else { k2 };
    assert forall|i: int| 0 <= i < k implies #[trigger] x[i] == z[i] by {
        assert(x.take(k1)[i] == y.take(k1)[i]);
        assert(y.take(k2)[i] == z.take(k2)[i]);
    }
    assert(x.take(k) =~= z.take(k));
    if k1 < k2 {
        assert(y.take(k2)[k1] == z.take(k2)[k1]);
    } else if k2 < k1 {
        assert(x.take(k1)[k2] == y.take(k1)[k2]);
    }
    assert(x[k] < z[k]);
}

/// Two different byte strings of one length are ordered one way or the other.
proof fn lemma_bytes_total_from(x: Seq<u8>, y: Seq<u8>, k: int)
    requires
        x.len() == y.len(),
        0 <= k <= x.len(),
        x.take(k) == y.take(k),
        x != y,
    ensures
        bytes_lt(x, y) || bytes_lt(y, x),
    decreases x.len() - k,
{
    if k == x.len() {
        assert(x =~= x.take(k));
        assert(y =~= y.take(k));
    } else if x[k] != y[k] {
        if x[k] < y[k] {
            assert(x[k] < y[k] && x.take(k) == y.take(k));
        } else {
            assert(y[k] < x[k] && y.take(k) == x.take(k));
        }
    } else {
        assert(x.take(k + 1) =~= y.take(k + 1)) by {
            assert forall|i: int| 0 <= i < k + 1 implies #[trigger] x.take(k + 1)[i] == y.take(k + 1)[i] by {
                if i < k {
                    assert(x.take(k)[i] == y.take(k)[i]);
                }
            }
        }
        lemma_bytes_total_from(x, y, k + 1);
    }
}

/// Storage order is transitive.
pub proof fn lemma_holder_key_lt_trans(a: (Seq<char>, u32), b: (Seq<char>, u32), c: (Seq<char>, u32))
    requires
        holder_key_lt(a, b),
        holder_key_lt(b, c),
    ensures
        holder_key_lt(a, c),
{
    let x = encode_utf8(a.0);
    let y = encode_utf8(b.0);
    let z = encode_utf8(c.0);
    if x.len() == y.len() && y.len() == z.len() && bytes_lt(x, y) && bytes_lt(y, z) {
        lemma_bytes_lt_trans(x, y, z);
    }
}

/// Two different keys are ordered one way or the other.
pub proof fn lemma_holder_key_lt_total(a: (Seq<char>, u32), b: (Seq<char>, u32))
    requires
        a != b,
    ensures
        holder_key_lt(a, b) || holder_key_lt(b, a),
{
    let x = encode_utf8(a.0);
    let y = encode_utf8(b.0);
    if x == y {
        encode_utf8_decode_utf8(a.0);
        encode_utf8_decode_utf8(b.0);
        assert(a.0 == b.0);
    } else if x.len() == y.len() {
        assert(x.take(0) =~= y.take(0));
        lemma_bytes_total_from(x, y, 0);
    }
}

/// Whether `a` comes before `b` in storage order.
pub fn holder_key_less(a: &(String, u32), b: &(String, u32)) -> (r: bool)
    ensures
        r == holder_key_lt(a@, b@),
{
    let x = a.0.as_str().as_bytes();
    let y = b.0.as_str().as_bytes();
    assert(x@ == encode_utf8(a.0@));
    assert(y@ == encode_utf8(b.0@));
    if x.len() != y.len() {
        return x.len() < y.len();
    }
    let mut i: usize = 0;
    while i < x.len()
        invariant
            x@ == encode_utf8(a.0@),
            y@ == encode_utf8(b.0@),
            x@.len() == y@.len(),
            i <= x@.len(),
            x@.take(i as int) == y@.take(i as int),
        decreases x@.len() - i,
    {
        if x[i] != y[i] {
            proof {
                if x[i as int] < y[i as int] {
                    assert(x@[i as int] < y@[i as int] && x@.take(i as int) == y@.take(i as int));
                } else if bytes_lt(x@, y@) {
                    let k = choose|k: int| #![trigger x@[k], y@[k]]
                        0 <= k < x@.len() && k < y@.len() && x@[k] < y@[k] && x@.take(k) == y@.take(k);
                    if k < i {
                        assert(x@.take(i as int)[k] == y@.take(i as int)[k]);
                    } else if k > i {
                        assert(x@.take(k)[i as int] == y@.take(k)[i as int]);
                    }
                    assert(false);
                }
                assert(x@ != y@);
            }
            return x[i] < y[i];
        }
        proof {
            assert forall|j: int| 0 <= j < i + 1 implies #[trigger] x@.take(i + 1)[j] == y@.take(i + 1)[j] by {
                if j < i {
                    assert(x@.take(i as int)[j] == y@.take(i as int)[j]);
                }
            }
            assert(x@.take(i + 1) =~= y@.take(i + 1));
        }
        i += 1;
    }
    assert(x@ =~= x@.take(x@.len() as int));
    assert(y@ =~= y@.take(y@.len() as int));
    a.1 < b.1
}

/// Inserts `k`, whose key is absent from the sorted `v`, at its place.
pub fn insert_holder_key(v: &mut Vec<(String, u32)>, k: (String, u32))
    requires
        holder_keys_sorted(old(v)@),
        forall|i: int| 0 <= i < old(v)@.len() ==> (#[trigger] old(v)@[i])@ != k@,
    ensures
        holder_keys_sorted(final(v)@),
        forall|key: (Seq<char>, u32)|
            #[trigger] has_holder_key(final(v)@, key) <==> (has_holder_key(old(v)@, key) || key == k@),
{
    let mut pos: usize = 0;
    while pos < v.len() && holder_key_less(&v[pos], &k)
        invariant
            pos <= v@.len(),
            forall|i: int| 0 <= i < pos ==> holder_key_lt((#[trigger] v@[i])@, k@),
        decreases v@.len() - pos,
    {
        pos += 1;
    }
    let ghost before = v@;
    proof {
        if pos < before.len() {
            lemma_holder_key_lt_total(before[pos as int]@, k@);
        }
    }
    let ghost kv = k@;
    v.insert(pos, k);
    assert forall|i: int, j: int| 0 <= i < j < v@.len() implies holder_key_lt(#[trigger] v@[i]@, #[trigger] v@[j]@) by {
        if j < pos {
            assert(v@[i] == before[i] && v@[j] == before[j]);
        } else if j == pos {
            assert(v@[i] == before[i]);
        } else if i == pos {
            assert(v@[j] == before[j - 1]);
            if j - 1 > pos {
                lemma_holder_key_lt_trans(kv, before[pos as int]@, before[j - 1]@);
            }
        } else if i < pos {
            assert(v@[i] == before[i] && v@[j] == before[j - 1]);
        } else {
            assert(v@[i] == before[i - 1] && v@[j] == before[j - 1]);
        }
    }
    assert forall|key: (Seq<char>, u32)|
        #[trigger] has_holder_key(v@, key) <==> (has_holder_key(before, key) || key == kv) by {
        if exists|i: int| 0 <= i < v@.len() && (#[trigger] v@[i])@ == key {
            let i = choose|i: int| 0 <= i < v@.len() && (#[trigger] v@[i])@ == key;
            if i < pos {
                assert(before[i] == v@[i]);
            } else if i > pos {
                assert(before[i - 1] == v@[i]);
            }
        }
        if exists|i: int| 0 <= i < before.len() && (#[trigger] before[i])@ == key {
            let i = choose|i: int| 0 <= i < before.len() && (#[trigger] before[i])@ == key;
            if i < pos {
                assert(v@[i] == before[i]);
            } else {
                assert(v@[i + 1] == before[i]);
            }
        }
        if key == kv {
            assert(v@[pos as int]@ == key);
        }
    }
}

} // verus!
