//! The random character code the captcha asks the user to read back.

use rand::rngs::StdRng;
use vstd::prelude::*;
use vstd::string::StrSliceExecFns;
use vstd::string::StringExecFns;

use crate::rng::rand_below;

verus! {

/// The fixed alphabet: the digits 2 through 9 and the upper-case letters
/// without the easily confused I and O.
pub open spec fn alphabet() -> Seq<char> {
    "23456789ABCDEFGHJKLMNPQRSTUVWXYZ"@
}

/// The alphabet as a string slice.
pub fn charset() -> (s: &'static str)
    ensures
        s@ == alphabet(),
        s@.len() == 32,
        vstd::string::is_ascii(s),
{
    let s = "23456789ABCDEFGHJKLMNPQRSTUVWXYZ";
    proof {
        reveal_strlit("23456789ABCDEFGHJKLMNPQRSTUVWXYZ");
    }
    s
}

/// A code of exactly `len` characters, each drawn uniformly, with
/// replacement, from the fixed alphabet.
pub fn generate_code(len: usize, rng: &mut StdRng) -> (code: String)
    ensures
        code@.len() == len,
        forall|i: int| 0 <= i < code@.len() ==> alphabet().contains(#[trigger] code@[i]),
{
    let cs = charset();
    let mut code = String::new();
    let mut i: usize = 0;
    while i < len
        invariant
            cs@ == alphabet(),
            cs@.len() == 32,
            vstd::string::is_ascii(cs),
            i <= len,
            code@.len() == i,
            forall|j: int| 0 <= j < code@.len() ==> alphabet().contains(#[trigger] code@[j]),
        decreases len - i,
    {
        let idx = rand_below(rng, 32) as usize;
        let piece = cs.substring_ascii(idx, idx + 1);
        code.append(piece);
        proof {
            assert(piece@ =~= alphabet().subrange(idx as int, idx as int + 1));
            assert(code@[code@.len() - 1] == alphabet()[idx as int]);
        }
        i = i + 1;
    }
    code
}

} // verus!
