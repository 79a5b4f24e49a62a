//! Encoding an object for the store, and loading it back.

use vstd::prelude::*;
use crate::address::{is_hash_text, is_hex_lower, object_path, path_for};
use crate::codec::{
    hex_digit, hex_text, inflate_of, sha1_of, zlib_of, hex_lower, sha1_digest, zlib_compress,
    zlib_decompress,
};
use crate::header::{Kind, canonical, canonical_bytes, header};
use crate::object::{
    Object, ObjectError, decoded, decode, lemma_canonical_decodes, lemma_size_mismatch,
};

verus! {

/// Where and what to write so that an object is stored.
#[derive(Debug, PartialEq, Eq)]
pub struct Placement {
    /// The object's path relative to the store root.
    pub path: String,
    /// The compressed canonical representation.
    pub bytes: Vec<u8>,
}

/// The outcome of encoding an object: its hash, and where persisting was
/// asked for, what to place in the store.
#[derive(Debug, PartialEq, Eq)]
pub struct Stored {
    /// The hash text of the object.
    pub hash: String,
    pub placement: Option<Placement>,
}

/// The identity of an object: the hexadecimal text of the SHA-1 digest of
/// its canonical representation.
pub open spec fn object_id(k: Kind, p: Seq<u8>) -> Seq<char> {
    hex_text(sha1_of(canonical(k, p)))
}

/// `s` is the outcome of encoding `p` as kind `k`, persisted or not.
pub open spec fn encoded_as(k: Kind, p: Seq<u8>, persist: bool, s: Stored) -> bool {
    &&& s.hash@ == object_id(k, p)
    &&& if persist {
        s.placement matches Some(pl) && pl.path@ == object_path(object_id(k, p)) && pl.bytes@
            == zlib_of(canonical(k, p))
    } else {
        s.placement is None
    }
}

/// A store, as a map from paths to file contents, after `s` is placed in it.
pub open spec fn placed(store: Map<Seq<char>, Seq<u8>>, s: Stored) -> Map<Seq<char>, Seq<u8>> {
    match s.placement {
        Some(pl) => store.insert(pl.path@, pl.bytes@),
        None => store,
    }
}

/// `r` is what loading the stored bytes `b` gives: a stream that does not
/// decompress is corrupt, and what decompresses is decoded. Bytes that
/// compress a canonical representation `x` decode as `x` does.
pub open spec fn loaded(b: Seq<u8>, r: Result<Object, ObjectError>) -> bool {
    &&& match inflate_of(b) {
        None => r == Err::<Object, ObjectError>(ObjectError::Corrupt),
        Some(d) => decoded(d, r),
    }
    &&& forall|x: Seq<u8>| #[trigger] zlib_of(x) == b ==> decoded(x, r)
}

/// The hexadecimal text of a 20-byte digest is a well-formed hash text.
pub proof fn lemma_hex_is_hash(b: Seq<u8>)
    requires
        b.len() == 20,
    ensures
        is_hash_text(hex_text(b)),
{
    let h = hex_text(b);
    assert forall|i: int| 0 <= i < h.len() implies is_hex_lower(#[trigger] h[i]) by {
        let v: u8 = if i % 2 == 0 {
            b[i / 2] / 16
        } else {
            b[i / 2] % 16
        };
        assert(v < 16);
        assert(h[i] == hex_digit(v));
    }
}

/// Encodes `payload` as an object of kind `kind` and gives its hash; where
/// `persist` is set, also what to place where in the store. The hash is
/// computed in the same way whether or not the object is persisted.
pub fn encode_and_store(kind: Kind, payload: &[u8], persist: bool) -> (r: Stored)
    ensures
        encoded_as(kind, payload@, persist, r),
{
    let c = canonical_bytes(kind, payload);
    let digest = sha1_digest(c.as_slice());
    let hash = hex_lower(digest.as_slice());
    proof {
        lemma_hex_is_hash(digest@);
    }
    if !persist {
        return Stored { hash, placement: None };
    }
    let path = path_for(hash.as_str()).unwrap();
    let bytes = zlib_compress(c.as_slice()).unwrap();
    Stored { hash, placement: Some(Placement { path, bytes }) }
}

/// Loads an object from the bytes of its stored file: decompresses them,
/// reads the header, and checks that the payload has the declared size.
pub fn load(stored: &[u8]) -> (r: Result<Object, ObjectError>)
    ensures
        loaded(stored@, r),
{
    match zlib_decompress(stored) {
        None => Err(ObjectError::Corrupt),
        Some(d) => decode(d.as_slice()),
    }
}

/// Loading what was stored for `p` as kind `k` gives back `k`, the length of
/// `p`, and `p` itself.
pub proof fn lemma_store_then_load(
    k: Kind,
    p: Seq<u8>,
    s: Stored,
    r: Result<Object, ObjectError>,
)
    requires
        p.len() <= u64::MAX,
        encoded_as(k, p, true, s),
        loaded(s.placement->0.bytes@, r),
    ensures
        r is Ok,
        r->Ok_0.kind == k,
        r->Ok_0.expected_size == p.len(),
        r->Ok_0.payload@ == p,
{
    assert(zlib_of(canonical(k, p)) == s.placement->0.bytes@);
    lemma_canonical_decodes(k, p, r);
}

/// Loading a stored object whose header declares a size other than its
/// payload's length fails with a size mismatch rather than returning the
/// payload cut or padded.
pub proof fn lemma_load_size_mismatch(
    k: Kind,
    n: u64,
    p: Seq<u8>,
    b: Seq<u8>,
    r: Result<Object, ObjectError>,
)
    requires
        n != p.len(),
        p.len() <= u64::MAX,
        zlib_of(header(k, n as nat) + p) == b,
        loaded(b, r),
    ensures
        r == Err::<Object, ObjectError>(
            ObjectError::SizeMismatch { expected: n, actual: p.len() as u64 },
        ),
{
    assert(decoded(header(k, n as nat) + p, r));
    lemma_size_mismatch(k, n, p, r);
}

/// Encoding the same payload as the same kind twice gives the same hash and,
/// where persisted, the same path and the same bytes.
pub proof fn lemma_deterministic(k: Kind, p: Seq<u8>, persist: bool, a: Stored, b: Stored)
    requires
        encoded_as(k, p, persist, a),
        encoded_as(k, p, persist, b),
    ensures
        a.hash@ == b.hash@,
        a.placement is Some <==> b.placement is Some,
        a.placement is Some ==> a.placement->0.path@ == b.placement->0.path@
            && a.placement->0.bytes@ == b.placement->0.bytes@,
{
}

/// Storing an object that is already stored leaves the store as it was: the
/// file at its path keeps its bytes.
pub proof fn lemma_store_idempotent(
    store: Map<Seq<char>, Seq<u8>>,
    k: Kind,
    p: Seq<u8>,
    a: Stored,
    b: Stored,
)
    requires
        encoded_as(k, p, true, a),
        encoded_as(k, p, true, b),
    ensures
        placed(placed(store, a), b) == placed(store, a),
        placed(store, a)[a.placement->0.path@] == a.placement->0.bytes@,
{
    assert(placed(placed(store, a), b) =~= placed(store, a));
}

/// Encoding without persisting gives the same hash as persisting does, and
/// places nothing in the store.
pub proof fn lemma_dry_run(
    store: Map<Seq<char>, Seq<u8>>,
    k: Kind,
    p: Seq<u8>,
    dry: Stored,
    wet: Stored,
)
    requires
        encoded_as(k, p, false, dry),
        encoded_as(k, p, true, wet),
    ensures
        dry.hash@ == wet.hash@,
        placed(store, dry) == store,
{
}

} // verus!
