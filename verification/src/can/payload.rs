//! Payloads in the fixed arrays of driver records.
use vstd::prelude::*;

verus! {

/// The first `n` bytes of a payload, filled up with zeros.
pub open spec fn zero_padded(data: Seq<u8>, n: nat) -> Seq<u8> {
    Seq::new(
        n,
        |i: int|
            if i < data.len() {
                data[i]
            } else {
                0u8
            },
    )
}

/// The first bytes of an array of eight.
pub fn head_of_8(data: &[u8; 8], len: usize) -> (r: Vec<u8>)
    requires
        len <= 8,
    ensures
        r@ == data@.take(len as int),
{
    let mut out: Vec<u8> = Vec::new();
    let mut i: usize = 0;
    while i < len
        invariant
            i <= len <= 8,
            data@.len() == 8,
            out@ == data@.take(i as int),
        decreases len - i,
    {
        out.push(data[i]);
        assert(data@.take(i + 1) =~= data@.take(i as int).push(data@[i as int]));
        i += 1;
    }
    out
}

/// The first bytes of an array of 64.
pub fn head_of_64(data: &[u8; 64], len: usize) -> (r: Vec<u8>)
    requires
        len <= 64,
    ensures
        r@ == data@.take(len as int),
{
    let mut out: Vec<u8> = Vec::new();
    let mut i: usize = 0;
    while i < len
        invariant
            i <= len <= 64,
            data@.len() == 64,
            out@ == data@.take(i as int),
        decreases len - i,
    {
        out.push(data[i]);
        assert(data@.take(i + 1) =~= data@.take(i as int).push(data@[i as int]));
        i += 1;
    }
    out
}

/// A payload of up to eight bytes, filled up with zeros.
pub fn padded_8(payload: &[u8]) -> (r: [u8; 8])
    requires
        payload.len() <= 8,
    ensures
        r@ == zero_padded(payload@, 8),
{
    let mut data: [u8; 8] = [0;8];
    let mut i: usize = 0;
    while i < payload.len()
        invariant
            i <= payload.len() <= 8,
            data@ == zero_padded(payload@.take(i as int), 8),
        decreases payload.len() - i,
    {
        data[i] = payload[i];
        assert(data@ =~= zero_padded(payload@.take(i + 1), 8));
        i += 1;
    }
    assert(payload@.take(payload@.len() as int) =~= payload@);
    data
}

/// The first `len` bytes of a payload, filled up with zeros.
pub fn padded_64(payload: &[u8], len: usize) -> (r: [u8; 64])
    requires
        len <= 64,
        len <= payload.len(),
    ensures
        r@ == zero_padded(payload@.take(len as int), 64),
{
    let mut data: [u8; 64] = [0;64];
    let mut i: usize = 0;
    while i < len
        invariant
            i <= len <= 64,
            len <= payload@.len(),
            data@ == zero_padded(payload@.take(i as int), 64),
        decreases len - i,
    {
        data[i] = payload[i];
        assert(data@ =~= zero_padded(payload@.take(i + 1), 64));
        i += 1;
    }
    data
}

} // verus!
