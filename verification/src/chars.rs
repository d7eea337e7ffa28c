use vstd::prelude::*;
use vstd::std_specs::iter::IteratorSpec;

verus! {

/// The characters of `s`, in order.
pub fn chars_of(s: &str) -> (res: Vec<char>)
    ensures
        res@ == s@,
{
    broadcast use vstd::string::group_string_axioms;
    let mut res: Vec<char> = Vec::new();
    let mut chars = s.chars();
    loop
        invariant
            chars.obeys_prophetic_iter_laws(),
            s@ == res@ + chars.remaining(),
            chars.decrease() is Some,
        ensures
            res@ == s@,
        decreases chars.decrease()->0,
    {
        let ghost before = chars.remaining();
        match chars.next() {
            Some(c) => {
                proof {
                    assert(res@.push(c) + chars.remaining() =~= res@ + before);
                }
                res.push(c);
            },
            None => {
                proof {
                    assert(res@ + before =~= res@);
                }
                break;
            },
        }
    }
    res
}

} // verus!
