//! The canonical representation of an object: `<kind> <size>\0<payload>`.

use vstd::prelude::*;
use vstd::utf8::{partial_valid_utf8, partial_valid_utf8_extend_ascii_block, valid_utf8};

verus! {

/// The kinds of object that the store understands.
#[derive(Clone, Copy, Debug, PartialEq, Eq, Structural)]
pub enum Kind {
    /// Raw bytes, stored verbatim.
    Blob,
}

/// The ASCII name of a kind, as it stands in a header.
pub open spec fn kind_name(k: Kind) -> Seq<u8> {
    match k {
        Kind::Blob => seq![98u8, 108u8, 111u8, 98u8],
    }
}

/// The decimal text of `n`, without leading zeros.
pub open spec fn decimal(n: nat) -> Seq<u8>
    decreases n,
{
    if n < 10 {
        seq![(48 + n) as u8]
    } else {
        decimal(n / 10).push((48 + n % 10) as u8)
    }
}

/// The header of an object of kind `k` whose payload is `n` bytes long,
/// terminating NUL included.
pub open spec fn header(k: Kind, n: nat) -> Seq<u8> {
    kind_name(k) + seq![32u8] + decimal(n) + seq![0u8]
}

/// The canonical representation of an object: its header, then its payload.
/// This is the byte sequence whose digest identifies the object.
pub open spec fn canonical(k: Kind, p: Seq<u8>) -> Seq<u8> {
    header(k, p.len()) + p
}

impl Kind {
    /// The kind's name as bytes.
    pub fn name(&self) -> (r: Vec<u8>)
        ensures
            r@ == kind_name(*self),
    {
        match self {
            Kind::Blob => {
                let r = vec![98u8, 108u8, 111u8, 98u8];
                assert(r@ =~= kind_name(*self));
                r
            },
        }
    }
}

/// Appends the decimal text of `n` to `out`.
pub fn push_decimal(n: u64, out: &mut Vec<u8>)
    ensures
        final(out)@ == old(out)@ + decimal(n as nat),
    decreases n,
{
    if n >= 10 {
        push_decimal(n / 10, out);
    }
    let d: u8 = (n % 10) as u8;
    out.push(48u8 + d);
    assert(final(out)@ =~= old(out)@ + decimal(n as nat));
}

/// The header of an object of kind `kind` with a payload of `size` bytes.
pub fn header_bytes(kind: Kind, size: u64) -> (r: Vec<u8>)
    ensures
        r@ == header(kind, size as nat),
{
    let mut r = kind.name();
    r.push(32u8);
    push_decimal(size, &mut r);
    r.push(0u8);
    assert(r@ =~= header(kind, size as nat));
    r
}

/// The canonical representation of `payload` as an object of kind `kind`.
pub fn canonical_bytes(kind: Kind, payload: &[u8]) -> (r: Vec<u8>)
    ensures
        r@ == canonical(kind, payload@),
{
    let mut r = header_bytes(kind, payload.len() as u64);
    r.extend_from_slice(payload);
    assert(r@ =~= canonical(kind, payload@));
    r
}


/// `i` is the position of the first `b` in `s`.
pub open spec fn is_first(s: Seq<u8>, b: u8, i: int) -> bool {
    0 <= i < s.len() && s[i] == b && forall|j: int| 0 <= j < i ==> s[j] != b
}

/// The position of the first `b` in `s`, or -1 where `s` holds none.
pub open spec fn first_index(s: Seq<u8>, b: u8) -> int {
    if exists|i: int| is_first(s, b, i) {
        choose|i: int| is_first(s, b, i)
    } else {
        -1
    }
}

/// Only one position is the first.
pub proof fn lemma_first_unique(s: Seq<u8>, b: u8, i: int)
    requires
        is_first(s, b, i),
    ensures
        first_index(s, b) == i,
{
    let c = first_index(s, b);
    assert(is_first(s, b, c));
    if c < i {
        assert(s[c] != b);
    } else if i < c {
        assert(s[i] != b);
    }
}

/// Where `s` holds no `b`, its first index is -1.
pub proof fn lemma_first_absent(s: Seq<u8>, b: u8)
    requires
        forall|j: int| 0 <= j < s.len() ==> s[j] != b,
    ensures
        first_index(s, b) == -1,
{
    if exists|i: int| is_first(s, b, i) {
        let i = choose|i: int| is_first(s, b, i);
        assert(s[i] == b);
    }
}

/// The position of the first `b` in `s`, if any.
pub fn find_byte(s: &[u8], b: u8) -> (r: Option<usize>)
    ensures
        r is None ==> first_index(s@, b) == -1,
        r is Some ==> first_index(s@, b) == r->0 as int && is_first(s@, b, r->0 as int),
{
    let mut i: usize = 0;
    while i < s.len()
        invariant
            i <= s@.len(),
            forall|j: int| 0 <= j < i ==> s@[j] != b,
        decreases s@.len() - i,
    {
        if s[i] == b {
            proof {
                lemma_first_unique(s@, b, i as int);
            }
            return Some(i);
        }
        i = i + 1;
    }
    proof {
        lemma_first_absent(s@, b);
    }
    None
}

/// `b` is an ASCII decimal digit.
pub open spec fn is_digit(b: u8) -> bool {
    48 <= b <= 57
}

/// Every byte of `s` is a decimal digit.
pub open spec fn all_digits(s: Seq<u8>) -> bool {
    forall|i: int| 0 <= i < s.len() ==> is_digit(#[trigger] s[i])
}

/// Every byte of `s` is ASCII.
pub open spec fn all_ascii(s: Seq<u8>) -> bool {
    forall|i: int| 0 <= i < s.len() ==> #[trigger] s[i] < 128
}

/// The number that the decimal digits `s` denote.
pub open spec fn digits_value(s: Seq<u8>) -> nat
    decreases s.len(),
{
    if s.len() == 0 {
        0
    } else {
        digits_value(s.drop_last()) * 10 + (s.last() - 48) as nat
    }
}

/// The size that a header's size field denotes, read as an unsigned 64-bit
/// integer: an optional `+`, then one or more decimal digits whose value fits.
pub open spec fn size_value(t: Seq<u8>) -> Option<u64> {
    let d = if t.len() > 0 && t[0] == 43 {
        t.drop_first()
    } else {
        t
    };
    if d.len() > 0 && all_digits(d) && digits_value(d) <= u64::MAX {
        Some(digits_value(d) as u64)
    } else {
        None
    }
}

/// The kind that a header's kind field names, if any.
pub open spec fn kind_named(t: Seq<u8>) -> Option<Kind> {
    if t == kind_name(Kind::Blob) {
        Some(Kind::Blob)
    } else {
        None
    }
}

/// Appending a digit never lowers the value of a digit string.
proof fn lemma_digits_prefix(s: Seq<u8>, i: int)
    requires
        0 <= i <= s.len(),
        all_digits(s),
    ensures
        digits_value(s.take(i)) <= digits_value(s),
    decreases s.len() - i,
{
    if i < s.len() {
        lemma_digits_prefix(s, i + 1);
        assert(s.take(i + 1).drop_last() =~= s.take(i));
        assert(digits_value(s.take(i + 1)) == digits_value(s.take(i)) * 10 + (s.take(i
            + 1).last() - 48) as nat);
    } else {
        assert(s.take(i) =~= s);
    }
}

/// The value of `s`, if `s` is a non-empty run of digits whose value fits in
/// 64 bits.
pub fn digits_to_u64(s: &[u8]) -> (r: Option<u64>)
    ensures
        r == (if s@.len() > 0 && all_digits(s@) && digits_value(s@) <= u64::MAX {
            Some(digits_value(s@) as u64)
        } else {
            None::<u64>
        }),
{
    if s.len() == 0 {
        return None;
    }
    let mut v: u64 = 0;
    let mut i: usize = 0;
    while i < s.len()
        invariant
            i <= s@.len(),
            all_digits(s@.take(i as int)),
            v as nat == digits_value(s@.take(i as int)),
        decreases s@.len() - i,
    {
        let c = s[i];
        if c < 48 || c > 57 {
            assert(!is_digit(s@[i as int]));
            return None;
        }
        assert(s@.take(i as int + 1).drop_last() =~= s@.take(i as int));
        assert(all_digits(s@.take(i as int + 1)));
        let d: u64 = (c - 48) as u64;
        if v > (u64::MAX - d) / 10 {
            proof {
                assert(digits_value(s@.take(i as int + 1)) > u64::MAX) by (nonlinear_arith)
                    requires
                        v > (u64::MAX - d) / 10,
                        digits_value(s@.take(i as int + 1)) == v * 10 + d,
                ;
                if all_digits(s@) {
                    lemma_digits_prefix(s@, i as int + 1);
                }
            }
            return None;
        }
        assert(v * 10 + d <= u64::MAX) by (nonlinear_arith)
            requires
                v <= (u64::MAX - d) / 10,
        ;
        v = v * 10 + d;
        i = i + 1;
    }
    assert(s@.take(i as int) =~= s@);
    Some(v)
}

/// Reads a size field as `str::parse::<u64>` does.
pub fn parse_size(t: &[u8]) -> (r: Option<u64>)
    ensures
        r == size_value(t@),
{
    if t.len() > 0 && t[0] == 43u8 {
        let rest = &t[1..t.len()];
        assert(rest@ =~= t@.drop_first());
        digits_to_u64(rest)
    } else {
        digits_to_u64(t)
    }
}

/// Whether two byte strings are equal.
pub fn bytes_equal(a: &[u8], b: &[u8]) -> (r: bool)
    ensures
        r == (a@ == b@),
{
    if a.len() != b.len() {
        return false;
    }
    let mut i: usize = 0;
    while i < a.len()
        invariant
            i <= a@.len(),
            a@.len() == b@.len(),
            forall|j: int| 0 <= j < i ==> a@[j] == b@[j],
        decreases a@.len() - i,
    {
        if a[i] != b[i] {
            return false;
        }
        i = i + 1;
    }
    assert(a@ =~= b@);
    true
}

/// The kind that the text `t` names, if it names one.
pub fn parse_kind(t: &[u8]) -> (r: Option<Kind>)
    ensures
        r == kind_named(t@),
{
    let blob = Kind::Blob.name();
    if bytes_equal(t, blob.as_slice()) {
        Some(Kind::Blob)
    } else {
        None
    }
}

/// Relies on `std::str::from_utf8`: it succeeds exactly on valid UTF-8.
#[verifier::external_body]
pub(crate) fn is_utf8(s: &[u8]) -> (r: bool)
    ensures
        r == valid_utf8(s@),
{
    std::str::from_utf8(s).is_ok()
}

/// ASCII bytes are valid UTF-8.
pub proof fn lemma_ascii_is_utf8(s: Seq<u8>)
    requires
        all_ascii(s),
    ensures
        valid_utf8(s),
{
    assert(s.subrange(0, 0) =~= Seq::<u8>::empty());
    assert(partial_valid_utf8(s, 0));
    partial_valid_utf8_extend_ascii_block(s, 0, s.len() as int);
    assert(s.subrange(0, s.len() as int) =~= s);
}

/// The decimal text of `n` is a non-empty run of digits that denotes `n`.
pub proof fn lemma_decimal(n: nat)
    ensures
        decimal(n).len() > 0,
        all_digits(decimal(n)),
        digits_value(decimal(n)) == n,
    decreases n,
{
    if n >= 10 {
        lemma_decimal(n / 10);
        let s = decimal(n);
        assert(s.drop_last() =~= decimal(n / 10));
        assert(s.last() == (48 + n % 10) as u8);
        assert((s.last() - 48) as nat == n % 10);
        assert(digits_value(s) == digits_value(s.drop_last()) * 10 + (s.last() - 48) as nat);
        assert(n == (n / 10) * 10 + n % 10);
        assert(all_digits(s)) by {
            assert forall|i: int| 0 <= i < s.len() implies is_digit(#[trigger] s[i]) by {
                if i < s.len() - 1 {
                    assert(s[i] == decimal(n / 10)[i]);
                }
            }
        }
    } else {
        assert(decimal(n).drop_last() =~= Seq::<u8>::empty());
        assert(digits_value(decimal(n)) == digits_value(decimal(n).drop_last()) * 10 + (
        decimal(n).last() - 48) as nat);
    }
}

} // verus!
