//! Bit-level helpers over qubit masks.
use vstd::prelude::*;

verus! {

/// The single-bit mask of qubit `k`.
pub open spec fn qubit(k: nat) -> usize {
    if k < usize::BITS { 1usize << (k as usize) } else { 0 }
}

/// Whether qubit `k` belongs to `mask`.
pub open spec fn has_qubit(mask: usize, k: nat) -> bool {
    k < usize::BITS && mask & qubit(k) != 0
}

/// The single-bit masks of the qubits of `mask` numbered `k` or higher, in increasing order.
pub open spec fn qubits_from(mask: usize, k: nat) -> Seq<usize>
    decreases usize::BITS - k,
{
    if k >= usize::BITS {
        seq![]
    } else if has_qubit(mask, k) {
        seq![qubit(k)].add(qubits_from(mask, k + 1))
    } else {
        qubits_from(mask, k + 1)
    }
}

/// The single-bit masks of all qubits of `mask`, in increasing order.
pub open spec fn qubits(mask: usize) -> Seq<usize> {
    qubits_from(mask, 0)
}

/// The number of qubits in `mask`.
pub open spec fn popcount(mask: usize) -> nat {
    qubits(mask).len()
}

/// The union of a sequence of masks.
pub open spec fn union_all(s: Seq<usize>) -> usize
    decreases s.len(),
{
    if s.len() == 0 {
        0
    } else {
        s[0] | union_all(s.drop_first())
    }
}

/// The mask of the qubits numbered `k` or higher.
pub open spec fn high_mask(k: nat) -> usize {
    if k >= usize::BITS { 0 } else { (!0usize << (k as usize)) }
}

pub proof fn lemma_qubits_from_union(mask: usize, k: nat)
    requires
        k <= usize::BITS,
    ensures
        union_all(qubits_from(mask, k)) == mask & high_mask(k),
    decreases usize::BITS - k,
{
    if k < usize::BITS {
        lemma_qubits_from_union(mask, k + 1);
        let s = qubits_from(mask, k);
        let rest = mask & high_mask(k + 1);
        let ku = k as usize;
        assert(qubit(k) == 1usize << ku);
        assert(high_mask(k) == !0usize << ku);
        assert(mask & (1usize << ku) != 0 ==> mask & (1usize << ku) == 1usize << ku) by (bit_vector)
            requires ku < usize::BITS;
        if k + 1 < usize::BITS {
            let k1 = (k + 1) as usize;
            assert(rest == mask & (!0usize << k1));
            assert((mask & (1usize << ku)) | (mask & (!0usize << k1)) == mask & (!0usize << ku)) by (bit_vector)
                requires k1 == ku + 1, k1 < usize::BITS;
        } else {
            assert(rest == 0);
            assert((mask & (1usize << ku)) | 0 == mask & (!0usize << ku)) by (bit_vector)
                requires ku + 1 == usize::BITS;
        }
        if has_qubit(mask, k) {
            assert(s.drop_first() =~= qubits_from(mask, k + 1));
            assert(union_all(s) == qubit(k) | rest);
        } else {
            assert(s == qubits_from(mask, k + 1));
            assert(mask & (1usize << ku) == 0);
            assert(0usize | rest == rest) by (bit_vector);
        }
    } else {
        assert(mask & 0 == 0) by (bit_vector);
        assert(qubits_from(mask, k) =~= seq![]);
    }
}

/// Every mask is the union of its qubits.
pub proof fn lemma_union_of_qubits(mask: usize)
    ensures
        union_all(qubits(mask)) == mask,
{
    lemma_qubits_from_union(mask, 0);
    assert(mask & (!0usize << 0usize) == mask) by (bit_vector);
}

/// A mask with one qubit is that qubit's single-bit mask; a mask with none is empty.
pub proof fn lemma_small_popcount(mask: usize)
    ensures
        popcount(mask) == 0 ==> mask == 0,
        popcount(mask) == 1 ==> qubits(mask) == seq![mask],
{
    lemma_union_of_qubits(mask);
    let s = qubits(mask);
    if s.len() == 1 {
        let b = s[0];
        assert(s.drop_first() =~= Seq::<usize>::empty());
        assert(union_all(s.drop_first()) == 0);
        assert(union_all(s) == b | 0usize);
        assert(b | 0usize == b) by (bit_vector);
        assert(s =~= seq![mask]);
    }
}

/// Returns the number of qubits in `n` (its number of set bits).
pub fn count_bits(n: usize) -> (r: usize)
    ensures
        r == popcount(n),
{
    let mut c: usize = 0;
    let mut k: usize = 0;
    while k < usize::BITS as usize
        invariant
            k <= usize::BITS,
            c <= k,
            c + qubits_from(n, k as nat).len() == popcount(n),
        decreases usize::BITS - k,
    {
        if n & (1usize << k) != 0 {
            c = c + 1;
        }
        k = k + 1;
    }
    c
}

/// Shifting a single-bit mask left moves it to the next qubit.
pub proof fn lemma_qubit_shift(k: nat)
    requires
        k < usize::BITS,
    ensures
        qubit(k) << 1usize == qubit(k + 1),
        qubit(k) != 0,
{
    let ku = k as usize;
    if k + 1 < usize::BITS {
        let k1 = (k + 1) as usize;
        assert((1usize << ku) << 1usize == 1usize << k1 && (1usize << ku) != 0) by (bit_vector)
            requires k1 == ku + 1, k1 < usize::BITS;
    } else {
        assert((1usize << ku) << 1usize == 0 && (1usize << ku) != 0) by (bit_vector)
            requires ku + 1 == usize::BITS;
    }
}

/// A mask below qubit `k` has no qubit numbered `k` or higher.
pub proof fn lemma_qubits_from_below(mask: usize, k: nat)
    requires
        k < usize::BITS,
        mask < qubit(k),
    ensures
        qubits_from(mask, k) =~= Seq::<usize>::empty(),
    decreases usize::BITS - k,
{
    let ku = k as usize;
    assert(qubit(k) == 1usize << ku);
    assert(mask < (1usize << ku) ==> mask & (1usize << ku) == 0) by (bit_vector)
        requires ku < usize::BITS;
    if k + 1 < usize::BITS {
        let k1 = (k + 1) as usize;
        assert(mask < (1usize << ku) ==> mask < (1usize << k1)) by (bit_vector)
            requires k1 == ku + 1, k1 < usize::BITS;
        assert(qubit(k + 1) == 1usize << k1);
        lemma_qubits_from_below(mask, k + 1);
    } else {
        assert(qubits_from(mask, k + 1) =~= Seq::<usize>::empty());
    }
}

/// A mask has at most one qubit per bit position at or above `k`.
pub proof fn lemma_qubits_from_len(mask: usize, k: nat)
    requires
        k <= usize::BITS,
    ensures
        qubits_from(mask, k).len() <= usize::BITS - k,
    decreases usize::BITS - k,
{
    if k < usize::BITS {
        lemma_qubits_from_len(mask, k + 1);
    }
}

/// Entry `i` of the qubits of `mask` from `k` is some qubit `q` at or above `k` that
/// belongs to `mask`, and the entries after it are the qubits of `mask` above `q`.
pub proof fn lemma_qubits_from_index(mask: usize, k: nat, i: int) -> (q: nat)
    requires
        k <= usize::BITS,
        0 <= i < qubits_from(mask, k).len(),
    ensures
        k <= q < usize::BITS,
        has_qubit(mask, q),
        qubits_from(mask, k)[i] == qubit(q),
        qubits_from(mask, k).skip(i + 1) == qubits_from(mask, q + 1),
    decreases usize::BITS - k,
{
    let s = qubits_from(mask, k);
    if has_qubit(mask, k) {
        if i == 0 {
            assert(s.skip(1) =~= qubits_from(mask, k + 1));
            k
        } else {
            let q = lemma_qubits_from_index(mask, k + 1, i - 1);
            assert(s.skip(i + 1) =~= qubits_from(mask, k + 1).skip(i));
            q
        }
    } else {
        lemma_qubits_from_index(mask, k + 1, i)
    }
}

/// A qubit is disjoint from the qubits of a mask above it.
pub proof fn lemma_qubit_disjoint_above(mask: usize, q: nat)
    requires
        q < usize::BITS,
    ensures
        qubit(q) & union_all(qubits_from(mask, q + 1)) == 0,
{
    lemma_qubits_from_union(mask, q + 1);
    let qu = q as usize;
    assert(qubit(q) == 1usize << qu);
    if q + 1 < usize::BITS {
        let q1 = (q + 1) as usize;
        assert((1usize << qu) & (mask & (!0usize << q1)) == 0) by (bit_vector)
            requires q1 == qu + 1, q1 < usize::BITS;
    } else {
        assert((1usize << qu) & 0 == 0) by (bit_vector);
    }
}

/// Entries of the qubits of a mask are disjoint from the union of the later entries.
pub proof fn lemma_qubits_disjoint_later(mask: usize, i: int)
    requires
        0 <= i < qubits(mask).len(),
    ensures
        qubits(mask)[i] & union_all(qubits(mask).skip(i + 1)) == 0,
{
    let q = lemma_qubits_from_index(mask, 0, i);
    lemma_qubit_disjoint_above(mask, q);
}

/// Every entry of the qubits of a mask is a single-bit mask.
pub proof fn lemma_qubits_single(mask: usize, i: int)
    requires
        0 <= i < qubits(mask).len(),
    ensures
        popcount(qubits(mask)[i]) == 1,
{
    let q = lemma_qubits_from_index(mask, 0, i);
    lemma_qubit_alone(q);
    lemma_two_qubits_count(qubit(q), q, q, 0);
}

/// The only qubit of a single-bit mask is its own.
pub proof fn lemma_qubit_alone(q: nat)
    requires
        q < usize::BITS,
    ensures
        forall|j: nat| j < usize::BITS ==> (has_qubit(qubit(q), j) <==> (j == q || j == q)),
{
    let qu = q as usize;
    assert forall|j: nat| j < usize::BITS implies (has_qubit(qubit(q), j) <==> (j == q || j == q)) by {
        let ju = j as usize;
        assert(qubit(j) == 1usize << ju);
        assert(qubit(q) == 1usize << qu);
        assert((1usize << qu) & (1usize << ju) != 0 <==> ju == qu) by (bit_vector)
            requires qu < usize::BITS, ju < usize::BITS;
    }
}

/// The number of qubits, from `k` on, of a mask whose qubits are exactly `a` and `b`.
pub proof fn lemma_two_qubits_count(x: usize, a: nat, b: nat, k: nat)
    requires
        a <= b < usize::BITS,
        k <= usize::BITS,
        forall|j: nat| j < usize::BITS ==> (has_qubit(x, j) <==> (j == a || j == b)),
    ensures
        qubits_from(x, k).len() == (if a == b {
            if k <= a { 1nat } else { 0nat }
        } else {
            if k <= a { 2nat } else if k <= b { 1nat } else { 0nat }
        }),
    decreases usize::BITS - k,
{
    if k < usize::BITS {
        lemma_two_qubits_count(x, a, b, k + 1);
        assert(has_qubit(x, k) <==> (k == a || k == b));
    }
}

/// The union of two distinct qubits of a mask holds two qubits.
pub proof fn lemma_pair_popcount(mask: usize, i: int, j: int)
    requires
        0 <= i < j < qubits(mask).len(),
    ensures
        popcount(qubits(mask)[i] | qubits(mask)[j]) == 2,
        qubits(mask)[i] & qubits(mask)[j] == 0,
{
    let qi = lemma_qubits_from_index(mask, 0, i);
    let qj = lemma_qubits_from_index(mask, 0, j);
    let s = qubits(mask);
    assert(s.skip(i + 1)[j - i - 1] == s[j]);
    let q3 = lemma_qubits_from_index(mask, qi + 1, j - i - 1);
    assert(qubit(q3) == qubit(qj));
    let c = q3 as usize;
    let d = qj as usize;
    assert(qubit(q3) == 1usize << c);
    assert(qubit(qj) == 1usize << d);
    assert((1usize << c) == (1usize << d) ==> c == d) by (bit_vector)
        requires c < usize::BITS, d < usize::BITS;
    assert(qi < qj);
    let x = qubit(qi) | qubit(qj);
    let a = qi as usize;
    let b = qj as usize;
    assert forall|k: nat| k < usize::BITS implies (has_qubit(x, k) <==> (k == qi || k == qj)) by {
        let ku = k as usize;
        assert(qubit(k) == 1usize << ku);
        assert(((1usize << a) | (1usize << b)) & (1usize << ku) != 0 <==> (ku == a || ku == b)) by (bit_vector)
            requires a < usize::BITS, b < usize::BITS, ku < usize::BITS;
    }
    lemma_two_qubits_count(x, qi, qj, 0);
    assert((1usize << a) & (1usize << b) == 0) by (bit_vector)
        requires a < b, b < usize::BITS;
}

proof fn lemma_popcount_split_from(i: usize, m: usize, k: nat)
    requires
        k <= usize::BITS,
    ensures
        qubits_from((i ^ m) & m, k).len() + qubits_from(i & m, k).len() == qubits_from(m, k).len(),
    decreases usize::BITS - k,
{
    if k < usize::BITS {
        lemma_popcount_split_from(i, m, k + 1);
        let ku = k as usize;
        assert(qubit(k) == 1usize << ku);
        assert((((i ^ m) & m) & (1usize << ku) != 0) == (m & (1usize << ku) != 0 && i & (1usize
            << ku) == 0)) by (bit_vector)
            requires
                ku < usize::BITS,
        ;
        assert(((i & m) & (1usize << ku) != 0) == (m & (1usize << ku) != 0 && i & (1usize << ku)
            != 0)) by (bit_vector)
            requires
                ku < usize::BITS,
        ;
    }
}

/// Flipping the qubits of `m` in `i` turns the qubits of `m` that are set in `i`
/// into those that are not.
pub proof fn lemma_popcount_split(i: usize, m: usize)
    ensures
        popcount((i ^ m) & m) + popcount(i & m) == popcount(m),
{
    lemma_popcount_split_from(i, m, 0);
}

proof fn lemma_zero_qubits_from(k: nat)
    requires
        k <= usize::BITS,
    ensures
        qubits_from(0, k).len() == 0,
    decreases usize::BITS - k,
{
    if k < usize::BITS {
        lemma_zero_qubits_from(k + 1);
        let ku = k as usize;
        assert(qubit(k) == 1usize << ku);
        assert(0usize & (1usize << ku) == 0) by (bit_vector);
    }
}

/// A mask has no qubit exactly when it is empty.
pub proof fn lemma_popcount_zero(x: usize)
    ensures
        popcount(x) == 0 <==> x == 0,
{
    lemma_small_popcount(x);
    if x == 0 {
        lemma_zero_qubits_from(0);
    }
}

/// A mask of one qubit is not empty, and flipping it in `i` sets it exactly
/// when it was not set.
pub proof fn lemma_one_qubit_flip(i: usize, m: usize)
    requires
        popcount(m) == 1,
    ensures
        m != 0,
        ((i ^ m) & m != 0) == (i & m == 0),
{
    lemma_popcount_zero(m);
    lemma_popcount_split(i, m);
    lemma_popcount_zero((i ^ m) & m);
    lemma_popcount_zero(i & m);
}

/// Two masks of one qubit each whose union has two qubits are disjoint and not empty.
pub proof fn lemma_two_single_qubits(a: usize, b: usize)
    requires
        popcount(a) == 1,
        popcount(b) == 1,
        popcount(a | b) == 2,
    ensures
        a & b == 0,
        a != 0,
        b != 0,
{
    lemma_popcount_zero(a);
    lemma_popcount_zero(b);
    lemma_small_popcount(a);
    lemma_small_popcount(b);
    let p = lemma_qubits_from_index(a, 0, 0);
    let q = lemma_qubits_from_index(b, 0, 0);
    let pu = p as usize;
    let qu = q as usize;
    assert(a == 1usize << pu);
    assert(b == 1usize << qu);
    assert((1usize << pu) | (1usize << pu) == 1usize << pu && (pu != qu ==> (1usize << pu) & (
    1usize << qu) == 0)) by (bit_vector)
        requires
            pu < usize::BITS,
            qu < usize::BITS,
    ;
    if p == q {
        assert(a | b == a);
    }
}

/// Splits the index `idx` of a tensor product of a register of `q` qubits
/// (the low bits) and another register (the high bits) into the index in the
/// first register and the index in the second.
pub fn tensor_split(idx: usize, q: u32) -> (r: (usize, usize))
    requires
        q < usize::BITS,
    ensures
        r.0 == idx & ((1usize << q) - 1) as usize,
        r.1 == idx >> q,
        r.0 < 1usize << q,
        idx == (r.1 << q) | r.0,
{
    let mask = !(!0usize << q);
    let low = idx & mask;
    let high = idx >> q;
    assert(mask == ((1usize << q) - 1) as usize && low < 1usize << q && idx == (high << q) | low)
        by (bit_vector)
        requires
            q < usize::BITS,
            mask == !(!0usize << q),
            low == idx & mask,
            high == idx >> q,
    ;
    (low, high)
}

/// The qubits of a mask are single-bit masks, in strictly increasing order,
/// and together they make up the mask: what `BitsIter` hands out, one by one.
pub proof fn lemma_qubits_shape(mask: usize, a: int, b: int)
    requires
        0 <= a < b < qubits(mask).len(),
    ensures
        popcount(qubits(mask)[a]) == 1,
        qubits(mask)[a] < qubits(mask)[b],
        union_all(qubits(mask)) == mask,
{
    lemma_qubits_single(mask, a);
    lemma_union_of_qubits(mask);
    let qa = lemma_qubits_from_index(mask, 0, a);
    let s = qubits(mask);
    assert(s.skip(a + 1)[b - a - 1] == s[b]);
    let qb = lemma_qubits_from_index(mask, qa + 1, b - a - 1);
    let x = qa as usize;
    let y = qb as usize;
    assert(x < y && y < usize::BITS ==> (1usize << x) < (1usize << y)) by (bit_vector);
}

/// The single-bit masks of the qubits of `mask`, from the lowest.
pub fn qubit_list(mask: usize) -> (v: Vec<usize>)
    ensures
        v@ == qubits(mask),
{
    let mut v: Vec<usize> = Vec::new();
    let mut it = BitsIter::from(mask);
    loop
        invariant
            it.mask() == mask,
            v@ + it.remaining() == qubits(mask),
        decreases it.remaining().len(),
    {
        let ghost before = it.remaining();
        match it.next() {
            Some(b) => {
                v.push(b);
                proof {
                    assert(v@ + it.remaining() =~= qubits(mask)) by {
                        assert(before =~= seq![b] + it.remaining());
                    }
                }
            },
            None => {
                proof {
                    assert(v@ =~= qubits(mask));
                }
                return v;
            },
        }
    }
}

/// Yields, one by one and from the lowest, the single-bit masks of the qubits of a mask.
pub struct BitsIter {
    bits: usize,
    pos: usize,
    k: Ghost<nat>,
}

impl BitsIter {
    #[verifier::type_invariant]
    closed spec fn wf(self) -> bool {
        &&& self.k@ <= usize::BITS
        &&& self.pos == qubit(self.k@)
    }

    /// The mask being walked.
    pub closed spec fn mask(self) -> usize {
        self.bits
    }

    /// The single-bit masks still to be yielded, in order.
    pub closed spec fn remaining(self) -> Seq<usize> {
        qubits_from(self.bits, self.k@)
    }

    /// Starts a walk over the qubits of `bits`.
    pub fn from(bits: usize) -> (it: BitsIter)
        ensures
            it.mask() == bits,
            it.remaining() == qubits(bits),
    {
        proof {
            assert(1usize << 0usize == 1usize) by (bit_vector);
        }
        BitsIter { bits, pos: 1, k: Ghost(0) }
    }

    /// Yields the next qubit's single-bit mask, or `None` once all have been yielded.
    pub fn next(&mut self) -> (r: Option<usize>)
        ensures
            next_step(*old(self), r, *final(self)),
    {
        proof {
            use_type_invariant(&*self);
        }
        let bits = self.bits;
        let mut pos = self.pos;
        let ghost mut k: nat = self.k@;
        loop
            invariant
                bits == old(self).bits,
                old(self).k@ <= k <= usize::BITS,
                pos == qubit(k),
                qubits_from(bits, old(self).k@) == qubits_from(bits, k),
            decreases usize::BITS - k,
        {
            if pos == 0 {
                proof {
                    if k < usize::BITS {
                        lemma_qubit_shift(k);
                    }
                }
                *self = BitsIter { bits, pos, k: Ghost(k) };
                return None;
            }
            proof {
                if k >= usize::BITS {
                    assert(false);
                }
                lemma_qubit_shift(k);
            }
            proof {
                assert((pos & bits != 0) == (bits & pos != 0)) by (bit_vector);
            }
            if pos & bits != 0 {
                proof {
                    assert(qubits_from(bits, k).drop_first() =~= qubits_from(bits, k + 1));
                }
                *self = BitsIter { bits, pos: pos << 1, k: Ghost(k + 1) };
                return Some(pos);
            } else if pos > bits {
                proof {
                    lemma_qubits_from_below(bits, k);
                }
                *self = BitsIter { bits, pos, k: Ghost(k) };
                return None;
            }
            pos = pos << 1;
            proof {
                k = k + 1;
            }
        }
    }
}

/// What one call of `next` does: the walk keeps its mask; with nothing left it
/// yields `None` and stays put, else it yields the first mask still to come and
/// drops it.
pub open spec fn next_step(before: BitsIter, r: Option<usize>, after: BitsIter) -> bool {
    &&& after.mask() == before.mask()
    &&& before.remaining().len() == 0 ==> r is None && after.remaining() == before.remaining()
    &&& before.remaining().len() > 0 ==> r == Some(before.remaining()[0])
        && after.remaining() == before.remaining().drop_first()
}

proof fn lemma_walk_remaining(bits: usize, its: Seq<BitsIter>, outs: Seq<Option<usize>>, j: int)
    requires
        its.len() == outs.len() + 1,
        its[0].remaining() == qubits(bits),
        forall|i: int| 0 <= i < outs.len() ==> next_step(#[trigger] its[i], outs[i], its[i + 1]),
        0 <= j < its.len(),
    ensures
        its[j].remaining() == qubits(bits).skip(if j < popcount(bits) { j } else { popcount(bits) as int }),
    decreases j,
{
    if j > 0 {
        lemma_walk_remaining(bits, its, outs, j - 1);
        assert(next_step(its[j - 1], outs[j - 1], its[j]));
        let q = qubits(bits);
        if j - 1 < popcount(bits) {
            assert(q.skip(j - 1).drop_first() =~= q.skip(j));
        }
    } else {
        assert(qubits(bits).skip(0) =~= qubits(bits));
    }
}

/// Walking the qubits of `bits` call by call, from `BitsIter::from(bits)`: the
/// `j`-th call yields the `j`-th qubit's single-bit mask while there is one, and
/// `None` at every later call; these masks are single bits, strictly
/// increasing (so each comes once), there are `popcount(bits)` of them, and
/// together they make up `bits`.
pub proof fn lemma_bits_walk(bits: usize, its: Seq<BitsIter>, outs: Seq<Option<usize>>)
    requires
        its.len() == outs.len() + 1,
        its[0].remaining() == qubits(bits),
        forall|i: int| 0 <= i < outs.len() ==> next_step(#[trigger] its[i], outs[i], its[i + 1]),
    ensures
        forall|j: int| 0 <= j < outs.len() ==> #[trigger] outs[j] == if j < popcount(bits) {
            Some(qubits(bits)[j])
        } else {
            None::<usize>
        },
        forall|j: int| 0 <= j < popcount(bits) ==> popcount(#[trigger] qubits(bits)[j]) == 1,
        forall|a: int, b: int| 0 <= a < b < popcount(bits) ==> #[trigger] qubits(bits)[a] < #[trigger] qubits(bits)[b],
        union_all(qubits(bits)) == bits,
{
    assert forall|j: int| 0 <= j < outs.len() implies #[trigger] outs[j] == if j < popcount(bits) {
        Some(qubits(bits)[j])
    } else {
        None::<usize>
    } by {
        lemma_walk_remaining(bits, its, outs, j);
        assert(next_step(its[j], outs[j], its[j + 1]));
    }
    assert forall|j: int| 0 <= j < popcount(bits) implies popcount(#[trigger] qubits(bits)[j]) == 1 by {
        lemma_qubits_single(bits, j);
    }
    assert forall|a: int, b: int| 0 <= a < b < popcount(bits) implies #[trigger] qubits(bits)[a]
        < #[trigger] qubits(bits)[b] by {
        lemma_qubits_shape(bits, a, b);
    }
    lemma_union_of_qubits(bits);
}

} // verus!
