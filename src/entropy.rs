use vstd::multiset::Multiset;
use vstd::prelude::*;

verus! {

broadcast use vstd::seq_lib::group_to_multiset_ensures;

/// How often each byte value occurs in `payload`: entry `b` counts the bytes equal to `b`.
/// The Shannon entropy of a payload is computed from these counts.
pub fn byte_frequencies(payload: &[u8]) -> (r: Vec<usize>)
    ensures
        r@.len() == 256,
        forall|b: int| 0 <= b < 256 ==> #[trigger] r@[b] == payload@.to_multiset().count(b as u8),
{
    let mut counts: Vec<usize> = vec![0; 256];
    let mut i: usize = 0;
    assert(payload@.take(0).to_multiset() =~= Multiset::empty());
    while i < payload.len()
        invariant
            0 <= i <= payload@.len(),
            counts@.len() == 256,
            forall|b: int|
                0 <= b < 256 ==> #[trigger] counts@[b] == payload@.take(i as int).to_multiset().count(
                    b as u8,
                ),
        decreases payload@.len() - i,
    {
        let byte = payload[i];
        let ghost prefix = payload@.take(i as int);
        assert(payload@.take(i + 1) =~= prefix.push(byte));
        assert(prefix.to_multiset().count(byte) <= prefix.len()) by {
            assert(prefix.to_multiset().count(byte) <= prefix.to_multiset().len());
        }
        counts[byte as usize] = counts[byte as usize] + 1;
        i = i + 1;
    }
    assert(payload@.take(payload@.len() as int) =~= payload@);
    counts
}

} // verus!
