//! Where an object is stored: `objects/<2 hex>/<38 hex>`.

use vstd::prelude::*;
use vstd::string::{StrSliceExecFns, StringExecFns};
use crate::object::ObjectError;

verus! {

broadcast use vstd::string::group_string_axioms;

/// `c` is a lowercase hexadecimal digit.
pub open spec fn is_hex_lower(c: char) -> bool {
    ('0' <= c && c <= '9') || ('a' <= c && c <= 'f')
}

/// `h` is the text of a digest: 40 lowercase hexadecimal digits.
pub open spec fn is_hash_text(h: Seq<char>) -> bool {
    h.len() == 40 && forall|i: int| 0 <= i < h.len() ==> is_hex_lower(#[trigger] h[i])
}

/// The path of the object with hash text `h`, relative to the store root.
pub open spec fn object_path(h: Seq<char>) -> Seq<char> {
    seq!['o', 'b', 'j', 'e', 'c', 't', 's', '/'] + h.take(2) + seq!['/'] + h.skip(2)
}

/// The path at which the object with hash `hash` is stored, relative to the
/// store root; a malformed hash is refused.
pub fn path_for(hash: &str) -> (r: Result<String, ObjectError>)
    ensures
        r is Ok <==> is_hash_text(hash@),
        r matches Ok(p) ==> p@ == object_path(hash@),
        r is Err ==> r == Err::<String, ObjectError>(ObjectError::MalformedHash),
{
    if !hash.is_ascii() {
        proof {
            if is_hash_text(hash@) {
                assert forall|i: int| 0 <= i < hash@.len() implies '\0' <= #[trigger] hash@[i]
                    <= '\u{7f}' by {
                    assert(is_hex_lower(hash@[i]));
                }
            }
        }
        return Err(ObjectError::MalformedHash);
    }
    let n = hash.unicode_len();
    if n != 40 {
        return Err(ObjectError::MalformedHash);
    }
    let mut i: usize = 0;
    while i < 40
        invariant
            hash.is_ascii(),
            hash@.len() == 40,
            i <= 40,
            forall|j: int| 0 <= j < i ==> is_hex_lower(#[trigger] hash@[j]),
        decreases 40 - i,
    {
        let b = hash.get_ascii(i);
        assert('\0' <= hash@[i as int] <= '\u{7f}');
        if !((48 <= b && b <= 57) || (97 <= b && b <= 102)) {
            assert(!is_hex_lower(hash@[i as int]));
            return Err(ObjectError::MalformedHash);
        }
        i = i + 1;
    }
    let mut p = String::from_str("objects/");
    proof {
        reveal_strlit("objects/");
        reveal_strlit("/");
    }
    p.append(hash.substring_ascii(0, 2));
    p.append("/");
    p.append(hash.substring_ascii(2, 40));
    assert(p@ =~= object_path(hash@));
    Ok(p)
}

} // verus!
