//! Decoding the canonical representation back into an object.

use vstd::prelude::*;
use vstd::slice::slice_to_vec;
use vstd::utf8::valid_utf8;
use crate::header::{
    Kind, all_ascii, canonical, decimal, find_byte, first_index, header, is_first, is_utf8,
    kind_name, kind_named, lemma_ascii_is_utf8, lemma_decimal, lemma_first_unique, parse_kind,
    parse_size, size_value,
};

verus! {

/// Why an object could not be addressed or decoded.
#[derive(Debug, PartialEq, Eq)]
pub enum ObjectError {
    /// The hash is not 40 lowercase hexadecimal characters.
    MalformedHash,
    /// The stored bytes are not a compressed stream.
    Corrupt,
    /// No NUL byte ends the header.
    HeaderUnterminated,
    /// The header is not valid UTF-8 text.
    HeaderNotText,
    /// The header does not have the shape `<kind> <size>`.
    HeaderShape,
    /// The header names a kind that is not supported; the name is kept.
    UnsupportedKind(Vec<u8>),
    /// The header's size field is not an unsigned 64-bit integer; the field is kept.
    InvalidSize(Vec<u8>),
    /// The payload is not as long as the header declares.
    SizeMismatch { expected: u64, actual: u64 },
}

/// An object read back from the store.
#[derive(Debug, PartialEq, Eq)]
pub struct Object {
    pub kind: Kind,
    pub expected_size: u64,
    pub payload: Vec<u8>,
}

/// `r` is what reading the header text `h` (without its NUL) gives: the
/// kind and declared size, or the first fault found, checked in this order:
/// UTF-8 text, a space, a known kind, a size.
pub open spec fn header_parsed(h: Seq<u8>, r: Result<(Kind, u64), ObjectError>) -> bool {
    let sp = first_index(h, 32);
    if !valid_utf8(h) {
        r == Err::<(Kind, u64), ObjectError>(ObjectError::HeaderNotText)
    } else if sp < 0 {
        r == Err::<(Kind, u64), ObjectError>(ObjectError::HeaderShape)
    } else {
        let kt = h.take(sp);
        let st = h.skip(sp + 1);
        match kind_named(kt) {
            None => r matches Err(ObjectError::UnsupportedKind(t)) && t@ == kt,
            Some(k) => match size_value(st) {
                None => r matches Err(ObjectError::InvalidSize(t)) && t@ == st,
                Some(n) => r == Ok::<(Kind, u64), ObjectError>((k, n)),
            },
        }
    }
}

/// `r` is what decoding the canonical bytes `d` gives: the header up to the
/// first NUL is read, and the bytes after it must be exactly as many as it
/// declares.
pub open spec fn decoded(d: Seq<u8>, r: Result<Object, ObjectError>) -> bool {
    let z = first_index(d, 0);
    if z < 0 {
        r == Err::<Object, ObjectError>(ObjectError::HeaderUnterminated)
    } else {
        let h = d.take(z);
        let p = d.skip(z + 1);
        match r {
            Ok(o) => header_parsed(h, Ok((o.kind, o.expected_size))) && p.len()
                == o.expected_size && o.payload@ == p,
            Err(ObjectError::SizeMismatch { expected, actual }) => (exists|k: Kind|
                header_parsed(h, Ok((k, expected)))) && p.len() != expected && actual == p.len(),
            Err(e) => header_parsed(h, Err(e)),
        }
    }
}

/// Reads the header text `h` (without its NUL).
pub fn parse_header(h: &[u8]) -> (r: Result<(Kind, u64), ObjectError>)
    ensures
        header_parsed(h@, r),
{
    if !is_utf8(h) {
        return Err(ObjectError::HeaderNotText);
    }
    let sp = match find_byte(h, 32u8) {
        None => {
            return Err(ObjectError::HeaderShape);
        },
        Some(sp) => sp,
    };
    let n = h.len();
    assert(sp < n);
    let kt = &h[0..sp];
    let st = &h[sp + 1..h.len()];
    assert(kt@ =~= h@.take(sp as int));
    assert(st@ =~= h@.skip(sp as int + 1));
    match parse_kind(kt) {
        None => Err(ObjectError::UnsupportedKind(slice_to_vec(kt))),
        Some(k) => match parse_size(st) {
            None => Err(ObjectError::InvalidSize(slice_to_vec(st))),
            Some(n) => Ok((k, n)),
        },
    }
}

/// Decodes canonical bytes: header, then a payload of exactly the declared size.
pub fn decode(d: &[u8]) -> (r: Result<Object, ObjectError>)
    ensures
        decoded(d@, r),
{
    let z = match find_byte(d, 0u8) {
        None => {
            return Err(ObjectError::HeaderUnterminated);
        },
        Some(z) => z,
    };
    let n = d.len();
    assert(z < n);
    let h = &d[0..z];
    assert(h@ =~= d@.take(z as int));
    let (kind, size) = match parse_header(h) {
        Err(e) => {
            return Err(e);
        },
        Ok(f) => f,
    };
    let p = &d[z + 1..d.len()];
    assert(p@ =~= d@.skip(z as int + 1));
    let actual = p.len() as u64;
    if actual != size {
        return Err(ObjectError::SizeMismatch { expected: size, actual });
    }
    Ok(Object { kind, expected_size: size, payload: slice_to_vec(p) })
}


/// In the bytes of `header(k, n)` followed by `p`, the header text is
/// `<kind> <n>`, it reads back as `(k, n)` and as nothing else, and `p`
/// follows its NUL.
pub proof fn lemma_header_reads_back(k: Kind, n: u64, p: Seq<u8>)
    ensures
        ({
            let d = header(k, n as nat) + p;
            let z = first_index(d, 0);
            &&& z >= 0
            &&& header_parsed(d.take(z), Ok((k, n)))
            &&& forall|r: Result<(Kind, u64), ObjectError>|
                #[trigger] header_parsed(d.take(z), r) ==> r == Ok::<(Kind, u64), ObjectError>((k, n))
            &&& d.skip(z + 1) == p
        }),
{
    let dec = decimal(n as nat);
    lemma_decimal(n as nat);
    let name = kind_name(k);
    let d = header(k, n as nat) + p;
    let z: int = (name.len() + 1 + dec.len()) as int;
    let h = name + seq![32u8] + dec;
    assert(name.len() == 4);
    assert forall|j: int| 0 <= j < z implies d[j] != 0 && d[j] == h[j] && h[j] < 128 by {
        if j >= 5 {
            assert(d[j] == dec[j - 5]);
            assert(crate::header::is_digit(dec[j - 5]));
        }
    }
    assert(d[z] == 0);
    lemma_first_unique(d, 0, z);
    assert(d.take(z) =~= h);
    assert(d.skip(z + 1) =~= p);
    assert(is_first(h, 32, 4));
    lemma_first_unique(h, 32, 4);
    assert(h.take(4) =~= name);
    assert(h.skip(5) =~= dec);
    assert(crate::header::is_digit(dec[0]));
    assert(all_ascii(h));
    lemma_ascii_is_utf8(h);
    assert(kind_named(name) == Some(k));
    assert(size_value(dec) == Some(n));
}

/// What decoding the bytes of `header(k, n)` followed by `p` gives: the
/// object where `p` has the declared length, a size mismatch otherwise.
proof fn lemma_decoded_header(k: Kind, n: u64, p: Seq<u8>, r: Result<Object, ObjectError>)
    requires
        p.len() <= u64::MAX,
        decoded(header(k, n as nat) + p, r),
    ensures
        p.len() == n ==> r is Ok && r->Ok_0.kind == k && r->Ok_0.expected_size == n
            && r->Ok_0.payload@ == p,
        p.len() != n ==> r == Err::<Object, ObjectError>(
            ObjectError::SizeMismatch { expected: n, actual: p.len() as u64 },
        ),
{
    lemma_header_reads_back(k, n, p);
    let d = header(k, n as nat) + p;
    let h = d.take(first_index(d, 0));
    match r {
        Ok(o) => {
            assert(header_parsed(h, Ok((o.kind, o.expected_size))));
        },
        Err(ObjectError::SizeMismatch { expected, actual }) => {
            let kk = choose|kk: Kind| header_parsed(h, Ok((kk, expected)));
            assert(header_parsed(h, Ok((kk, expected))));
        },
        Err(e) => {
            assert(header_parsed(h, Err(e)));
        },
    }
}

/// Decoding the canonical representation of an object gives the object back.
pub proof fn lemma_canonical_decodes(k: Kind, p: Seq<u8>, r: Result<Object, ObjectError>)
    requires
        p.len() <= u64::MAX,
        decoded(canonical(k, p), r),
    ensures
        r is Ok,
        r->Ok_0.kind == k,
        r->Ok_0.expected_size == p.len(),
        r->Ok_0.payload@ == p,
{
    lemma_decoded_header(k, p.len() as u64, p, r);
}

/// A header whose declared size differs from the payload that follows it
/// is rejected as a size mismatch, whatever the payload.
pub proof fn lemma_size_mismatch(k: Kind, n: u64, p: Seq<u8>, r: Result<Object, ObjectError>)
    requires
        n != p.len(),
        p.len() <= u64::MAX,
        decoded(header(k, n as nat) + p, r),
    ensures
        r == Err::<Object, ObjectError>(
            ObjectError::SizeMismatch { expected: n, actual: p.len() as u64 },
        ),
{
    lemma_decoded_header(k, n, p, r);
}

} // verus!
