//! The size of a blob as a page: eight bytes, the least significant first.

use crate::buffer::{bytes_as_slice, bytes_from_vec, bytes_view, result_view};
use crate::error::Error;
use hyper::body::Bytes;
use vstd::arithmetic::div_mod::lemma_div_denominator;
use vstd::arithmetic::power::{lemma_pow0, lemma_pow_positive, pow};
use vstd::prelude::*;

verus! {

/// The `len` low-order bytes of `n`, the least significant first.
pub open spec fn le_bytes(n: nat, len: nat) -> Seq<u8>
    decreases len,
{
    if len == 0 {
        Seq::empty()
    } else {
        seq![(n % 256) as u8] + le_bytes(n / 256, (len - 1) as nat)
    }
}

/// The number whose bytes, the least significant first, are `bytes`.
pub open spec fn le_value(bytes: Seq<u8>) -> nat
    decreases bytes.len(),
{
    if bytes.len() == 0 {
        0
    } else {
        bytes[0] as nat + 256 * le_value(bytes.drop_first())
    }
}

/// The page that a blob's size is kept in, or the error that came instead of the size.
pub open spec fn page_of_size(head: Result<u64, Error>) -> Result<Seq<u8>, Error> {
    match head {
        Ok(size) => Ok(le_bytes(size as nat, 8)),
        Err(error) => Err(error),
    }
}

/// The size that a page of eight bytes holds, or the error that came instead of the page.
pub open spec fn size_of_page(page: Result<Seq<u8>, Error>) -> Result<u64, Error> {
    match page {
        Ok(bytes) => Ok(le_value(bytes) as u64),
        Err(error) => Err(error),
    }
}

/// The page that a blob's size is kept in, or the error that came instead of the size.
pub fn size_page(head: Result<u64, Error>) -> (page: Result<Bytes, Error>)
    ensures
        result_view(page) == page_of_size(head),
        head is Ok <==> page is Ok,
        head matches Ok(size) ==> bytes_view(page->Ok_0) == le_bytes(size as nat, 8),
        head matches Err(error) ==> page == Err::<Bytes, Error>(error),
{
    let size: u64 = match head {
        Ok(size) => size,
        Err(error) => return Err(error),
    };
    let mut bytes: Vec<u8> = Vec::new();
    let mut rest: u64 = size;
    let mut i: usize = 0;
    while i < 8
        invariant
            i <= 8,
            le_bytes(size as nat, 8) == bytes@ + le_bytes(rest as nat, (8 - i) as nat),
        decreases 8 - i,
    {
        let ghost before = bytes@;
        let ghost whole = rest;
        bytes.push((rest % 256) as u8);
        rest = rest / 256;
        i = i + 1;
        assert(bytes@ + le_bytes(rest as nat, (8 - i) as nat) =~= before + le_bytes(
            whole as nat,
            (9 - i) as nat,
        ));
    }
    assert(bytes@ =~= le_bytes(size as nat, 8));
    Ok(bytes_from_vec(bytes))
}

/// The size that a page holds. A page of any length but eight holds none.
pub fn page_size(page: Result<Bytes, Error>) -> (size: Result<u64, Error>)
    ensures
        match page {
            Ok(bytes) => if bytes_view(bytes).len() == 8 {
                &&& size == size_of_page(result_view(page))
                &&& size is Ok
                &&& size->Ok_0 == le_value(bytes_view(bytes))
            } else {
                size is Err && size->Err_0 is Internal && size->Err_0->Internal_0@
                    == "could not convert slice to array"@
            },
            Err(error) => {
                &&& size == size_of_page(result_view(page))
                &&& size == Err::<u64, Error>(error)
            },
        },
{
    let bytes: Bytes = match page {
        Ok(bytes) => bytes,
        Err(error) => return Err(error),
    };
    let slice: &[u8] = bytes_as_slice(&bytes);
    if slice.len() != 8 {
        return Err(Error::Internal("could not convert slice to array".to_owned()));
    }
    let mut value: u64 = 0;
    let mut i: usize = 8;
    proof {
        assert(slice@.skip(8) =~= Seq::<u8>::empty());
    }
    while i > 0
        invariant
            i <= 8,
            slice@.len() == 8,
            value == le_value(slice@.skip(i as int)),
            i == 8 ==> value < 1,
            i == 7 ==> value < 0x100,
            i == 6 ==> value < 0x1_0000,
            i == 5 ==> value < 0x100_0000,
            i == 4 ==> value < 0x1_0000_0000,
            i == 3 ==> value < 0x100_0000_0000,
            i == 2 ==> value < 0x1_0000_0000_0000,
            i == 1 ==> value < 0x100_0000_0000_0000,
        decreases i,
    {
        i = i - 1;
        assert(slice@.skip(i as int).drop_first() =~= slice@.skip(i + 1));
        value = slice[i] as u64 + 256 * value;
    }
    assert(slice@.skip(0) =~= slice@);
    Ok(value)
}

/// What is left of `n` without its `len` low-order bytes.
spec fn high_bytes(n: nat, len: nat) -> nat
    decreases len,
{
    if len == 0 {
        n
    } else {
        high_bytes(n / 256, (len - 1) as nat)
    }
}

/// Bytes that hold all of a number have its value.
proof fn lemma_le_value(n: nat, len: nat)
    requires
        high_bytes(n, len) == 0,
    ensures
        le_bytes(n, len).len() == len,
        le_value(le_bytes(n, len)) == n,
    decreases len,
{
    if len > 0 {
        lemma_le_value(n / 256, (len - 1) as nat);
        assert(le_bytes(n, len).drop_first() =~= le_bytes(n / 256, (len - 1) as nat));
    }
}

/// The size that is read back from the page of a size is that size.
pub proof fn law_size_round_trip(size: u64)
    ensures
        le_bytes(size as nat, 8).len() == 8,
        le_value(le_bytes(size as nat, 8)) == size,
        size_of_page(page_of_size(Ok(size))) == Ok::<u64, Error>(size),
{
    reveal_with_fuel(high_bytes, 9);
    lemma_le_value(size as nat, 8);
}

/// Bytes are what the number that they stand for is written as, so no two pages of eight bytes
/// hold the same size.
pub proof fn law_size_page_is_unique(bytes: Seq<u8>)
    ensures
        le_bytes(le_value(bytes), bytes.len()) == bytes,
    decreases bytes.len(),
{
    if bytes.len() > 0 {
        law_size_page_is_unique(bytes.drop_first());
        assert(le_bytes(le_value(bytes), bytes.len()) =~= bytes);
    } else {
        assert(le_bytes(le_value(bytes), bytes.len()) =~= bytes);
    }
}

/// Each byte of a number is what is left of it after dividing by 256 once for every byte before.
proof fn lemma_le_bytes_at(n: nat, len: nat, i: nat)
    requires
        i < len,
    ensures
        le_bytes(n, len).len() == len,
        le_bytes(n, len)[i as int] == (n as int / pow(256, i)) % 256,
    decreases len,
{
    if len > 1 {
        lemma_le_bytes_at(n / 256, (len - 1) as nat, if i == 0 { 0 } else { (i - 1) as nat });
    } else {
        assert(le_bytes(n / 256, 0).len() == 0);
    }
    if i == 0 {
        lemma_pow0(256);
    } else {
        let below = pow(256, (i - 1) as nat);
        lemma_pow_positive(256, (i - 1) as nat);
        assert(pow(256, i) == 256 * below) by {
            reveal(pow);
        }
        lemma_div_denominator(n as int, 256, below);
        assert(le_bytes(n, len)[i as int] == le_bytes(n / 256, (len - 1) as nat)[i - 1]);
    }
}

/// The page of a size has eight bytes, of which the byte at `i` counts the multiples of `256^i` in
/// the size, modulo 256. An error is no page.
pub proof fn law_size_page_is_little_endian(size: u64, i: nat, error: Error)
    requires
        i < 8,
    ensures
        page_of_size(Ok(size)) matches Ok(page) && page.len() == 8 && page[i as int] == (size as int
            / pow(256, i)) % 256,
        page_of_size(Err(error)) == Err::<Seq<u8>, Error>(error),
        size_of_page(Err(error)) == Err::<u64, Error>(error),
{
    lemma_le_bytes_at(size as nat, 8, i);
}

} // verus!
