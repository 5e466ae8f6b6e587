//! The reservation rule for the matrix buffer: a buffer of `len` cells reserves
//! the smallest power of two that holds them.
use vstd::prelude::*;

verus! {

/// `n` is one of 1, 2, 4, 8, ...
pub open spec fn is_power_of_two(n: nat) -> bool
    decreases n,
{
    if n == 1 {
        true
    } else if n >= 2 && n % 2 == 0 {
        is_power_of_two(n / 2)
    } else {
        false
    }
}

/// The capacity reserved for `len` cells: `len` itself when it is zero or a
/// power of two, otherwise the smallest power of two strictly greater.
pub open spec fn is_reserved_capacity(len: nat, cap: nat) -> bool {
    if len == 0 || is_power_of_two(len) {
        cap == len
    } else {
        &&& is_power_of_two(cap)
        &&& len < cap
        &&& forall|p: nat| #[trigger] is_power_of_two(p) && len < p ==> cap <= p
    }
}

/// Of two powers of two, the larger is at least twice the smaller.
proof fn lemma_power_of_two_gap(a: nat, b: nat)
    requires
        is_power_of_two(a),
        is_power_of_two(b),
        a < b,
    ensures
        2 * a <= b,
    decreases a,
{
    if a != 1 {
        lemma_power_of_two_gap(a / 2, b / 2);
    }
}

/// The capacity that the reservation rule gives for `len` cells, or `None`
/// when that power of two does not fit in a `usize`.
pub fn reserved_capacity(len: usize) -> (r: Option<usize>)
    ensures
        match r {
            Some(cap) => is_reserved_capacity(len as nat, cap as nat),
            None => forall|p: nat| #[trigger] is_power_of_two(p) && len <= p ==> p > usize::MAX,
        },
{
    if len == 0 {
        return Some(0);
    }
    let mut cap: usize = 1;
    while cap < len
        invariant
            1 <= cap,
            is_power_of_two(cap as nat),
            forall|p: nat| #[trigger] is_power_of_two(p) && p < cap ==> p < len,
        decreases usize::MAX - cap,
    {
        if cap > usize::MAX / 2 {
            assert forall|p: nat| #[trigger] is_power_of_two(p) && len <= p implies p > usize::MAX by {
                lemma_power_of_two_gap(cap as nat, p);
            }
            return None;
        }
        assert forall|p: nat| #[trigger] is_power_of_two(p) && p < 2 * cap implies p < len by {
            if p > cap {
                lemma_power_of_two_gap(cap as nat, p);
            }
        }
        assert(is_power_of_two(2 * cap as nat)) by {
            assert((2 * cap as nat) / 2 == cap as nat);
        }
        cap = 2 * cap;
    }
    proof {
        if !is_power_of_two(len as nat) {
            assert forall|p: nat| #[trigger] is_power_of_two(p) && len < p implies cap <= p by {}
        }
    }
    Some(cap)
}

} // verus!
