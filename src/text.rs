use vstd::prelude::*;
use vstd::string::StringSliceAdditionalSpecFns;

verus! {

/// The byte of an ASCII space.
pub const SPACE: u8 = 32;

/// The longer of two strings by length in bytes; the second one on a tie.
pub fn longest<'a>(x: &'a str, y: &'a str) -> (r: &'a str)
    ensures
        x.len() > y.len() ==> r@ == x@,
        x.len() <= y.len() ==> r@ == y@,
{
    if x.len() > y.len() {
        x
    } else {
        y
    }
}

/// The text of `s` before its first space, or all of `s` if it has none.
pub fn first_word(s: &str) -> (r: &str)
    ensures
        r.spec_bytes().len() <= s.spec_bytes().len(),
        r.spec_bytes() == s.spec_bytes().subrange(0, r.spec_bytes().len() as int),
        forall|j: int| 0 <= j < r.spec_bytes().len() ==> s.spec_bytes()[j] != SPACE,
        r.spec_bytes().len() == s.spec_bytes().len() || s.spec_bytes()[r.spec_bytes().len() as int]
            == SPACE,
{
    let bytes = s.as_bytes();
    let mut i: usize = 0;
    while i < bytes.len()
        invariant
            bytes@ == s.spec_bytes(),
            i <= bytes@.len(),
            forall|j: int| 0 <= j < i ==> bytes@[j] != SPACE,
        decreases bytes@.len() - i,
    {
        if bytes[i] == SPACE {
            proof {
                vstd::utf8::encode_utf8_valid_utf8(s@);
                vstd::utf8::is_char_boundary_iff_not_is_continuation_byte(s.spec_bytes(), i as int);
            }
            let (word, _) = s.split_at(i);
            return word;
        }
        i += 1;
    }
    proof {
        assert(s.spec_bytes() =~= s.spec_bytes().subrange(0, s.spec_bytes().len() as int));
    }
    s
}

} // verus!
