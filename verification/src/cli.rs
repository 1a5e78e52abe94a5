use vstd::prelude::*;
use vstd::string::*;

verus! {

/// The text after the first `=` of a `--name=value` argument, or the empty
/// text when the argument has no `=`.
pub fn value_after_equals(arg: &str) -> (value: &str)
    ensures
        (exists|i: int| 0 <= i < arg@.len() && arg@[i] == '=') ==> exists|i: int|
            0 <= i < arg@.len() && arg@[i] == '=' && (forall|j: int| 0 <= j < i ==> arg@[j] != '=')
                && value@ == arg@.subrange(i + 1, arg@.len() as int),
        !(exists|i: int| 0 <= i < arg@.len() && arg@[i] == '=') ==> value@ == Seq::<char>::empty(),
{
    let len: usize = arg.unicode_len();
    let mut i: usize = 0;
    while i < len
        invariant
            len == arg@.len(),
            i <= len,
            forall|j: int| 0 <= j < i ==> arg@[j] != '=',
        decreases len - i,
    {
        if arg.get_char(i) == '=' {
            return arg.substring_char(i + 1, len);
        }
        i += 1;
    }
    proof {
        reveal_strlit("");
    }
    ""
}

} // verus!
