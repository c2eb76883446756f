//! The order bookkeeping of the parallel map: work items leave the input
//! back to front, each tagged with the slot its result must land in, so
//! that results arriving in any order can be placed correctly.

use vstd::prelude::*;

verus! {

/// Empties `input` from the back, tagging each value with its original
/// position: the `k`-th pair drained holds the element that sat at index
/// `len - 1 - k`, under exactly that index.
pub fn drain_positions<T>(input: &mut Vec<T>) -> (r: Vec<(usize, T)>)
    ensures
        final(input)@.len() == 0,
        r@.len() == old(input)@.len(),
        forall|k: int|
            0 <= k < r@.len() ==> (#[trigger] r@[k]).0 == old(input)@.len() - 1 - k && r@[k].1
                == old(input)@[old(input)@.len() - 1 - k],
{
    let mut out: Vec<(usize, T)> = Vec::new();
    loop
        invariant
            input@ == old(input)@.subrange(0, input@.len() as int),
            out@.len() + input@.len() == old(input)@.len(),
            forall|k: int|
                0 <= k < out@.len() ==> (#[trigger] out@[k]).0 == old(input)@.len() - 1 - k
                    && out@[k].1 == old(input)@[old(input)@.len() - 1 - k],
        ensures
            input@.len() == 0,
            out@.len() == old(input)@.len(),
        decreases input@.len(),
    {
        if input.len() == 0 {
            break ;
        }
        let ghost pre = input@;
        let v = match input.pop() {
            Some(v) => v,
            None => {
                proof {
                    assert(false);
                }
                break ;
            },
        };
        let pos = input.len();
        out.push((pos, v));
        proof {
            assert(input@ =~= old(input)@.subrange(0, input@.len() as int));
        }
    }
    out
}

} // verus!
