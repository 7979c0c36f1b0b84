use vstd::prelude::*;
use vstd::utf8::*;
use vstd::string::StringSliceAdditionalSpecFns;

verus! {

/// Relies on std's `String::from_utf8`: it accepts exactly the byte strings
/// that are valid UTF-8, and the text it returns holds the decoded characters.
#[verifier::external_body]
pub(crate) fn utf8_to_string(bytes: Vec<u8>) -> (r: Option<String>)
    ensures
        r.is_some() <==> valid_utf8(bytes@),
        r matches Some(s) ==> s@ == decode_utf8(bytes@),
{
    match String::from_utf8(bytes) {
        Ok(s) => Some(s),
        Err(_) => None,
    }
}

/// Whether two texts hold the same characters.
pub fn text_eq(a: &str, b: &str) -> (r: bool)
    ensures
        r == (a@ == b@),
{
    proof {
        encode_utf8_decode_utf8(a@);
        encode_utf8_decode_utf8(b@);
    }
    let x = a.as_bytes();
    let y = b.as_bytes();
    if x.len() != y.len() {
        return false;
    }
    let mut i: usize = 0;
    while i < x.len()
        invariant
            0 <= i <= x@.len(),
            x@.len() == y@.len(),
            x@ == a.spec_bytes(),
            y@ == b.spec_bytes(),
            a@ == b@ ==> x@ == y@,
            x@ == y@ ==> a@ == b@,
            forall|j: int| 0 <= j < i ==> x@[j] == #[trigger] y@[j],
        decreases x@.len() - i,
    {
        if x[i] != y[i] {
            return false;
        }
        i = i + 1;
    }
    assert(x@ =~= y@);
    true
}

} // verus!
