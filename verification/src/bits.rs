use vstd::prelude::*;

verus! {

/// Bit `i` of `v`, counting from the least significant.
pub open spec fn bit_of(v: u64, i: u64) -> bool {
    (v >> i) & 1 == 1
}

/// The lowest `n` bits of `v`, least significant first.
pub open spec fn word_bits(v: u64, n: nat) -> Seq<bool> {
    Seq::new(n, |i: int| bit_of(v, i as u64))
}

/// Appends the lowest `n` bits of `v` to `out`, least significant first.
pub fn push_word_bits(out: &mut Vec<bool>, v: u64, n: u64)
    requires
        n <= 64,
    ensures
        final(out)@ == old(out)@ + word_bits(v, n as nat),
{
    let mut i: u64 = 0;
    while i < n
        invariant
            i <= n <= 64,
            out@ == old(out)@ + word_bits(v, i as nat),
        decreases n - i,
    {
        let b = (v >> i) & 1 == 1;
        out.push(b);
        i += 1;
        assert(out@ =~= old(out)@ + word_bits(v, i as nat));
    }
}

} // verus!
