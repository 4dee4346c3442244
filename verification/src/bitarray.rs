use vstd::prelude::*;

verus! {

pub use crate::base::Base;

/// The bits of a base value, least significant first.
pub open spec fn bits_of<B: Base>(v: B) -> Seq<bool> {
    Seq::new(B::width(), |i: int| v.spec_bit(i))
}

/// `width` copies of `bit`.
pub open spec fn uniform(width: nat, bit: bool) -> Seq<bool> {
    Seq::new(width, |i: int| bit)
}

/// The indices `i >= start` of `bits` with `bits[i] == value`, in increasing order.
pub open spec fn positions(bits: Seq<bool>, value: bool, start: int) -> Seq<int>
    decreases bits.len() - start,
{
    if start < 0 || start >= bits.len() {
        Seq::empty()
    } else if bits[start] == value {
        seq![start].add(positions(bits, value, start + 1))
    } else {
        positions(bits, value, start + 1)
    }
}

/// `bits` without the zeros above its highest 1 (least significant first).
pub open spec fn trim_high_zeros(bits: Seq<bool>) -> Seq<bool>
    decreases bits.len(),
{
    if bits.len() > 0 && !bits.last() {
        trim_high_zeros(bits.drop_last())
    } else {
        bits
    }
}

/// The binary digits of `bits` (least significant first), most significant
/// digit first, without leading zeros; `"0"` when no bit is set.
pub open spec fn binary_digits(bits: Seq<bool>) -> Seq<char> {
    let t = trim_high_zeros(bits);
    if t.len() == 0 {
        seq!['0']
    } else {
        Seq::new(t.len(), |k: int| if t[t.len() - 1 - k] { '1' } else { '0' })
    }
}

/// Reading a bit back after writing it: `set(i, b)` then `get(i)` gives `b`,
/// every other bit keeps its value, and of two writes to one bit the last wins.
pub proof fn lemma_get_after_set(bits: Seq<bool>, i: int, j: int, b: bool, c: bool)
    requires
        0 <= i < bits.len(),
        0 <= j < bits.len(),
    ensures
        bits.update(i, b)[i] == b,
        i != j ==> bits.update(i, b)[j] == bits[j],
        bits.update(i, b).update(i, c) == bits.update(i, c),
        bits.update(i, bits[i]) == bits,
{
    assert(bits.update(i, b).update(i, c) =~= bits.update(i, c));
    assert(bits.update(i, bits[i]) =~= bits);
}

/// Building an array from the bits of another array gives that array back.
pub proof fn lemma_from_bits_round_trip(bits: Seq<bool>, width: nat)
    requires
        bits.len() == width,
    ensures
        Seq::new(width, |i: int| i < bits.len() && bits[i]) == bits,
{
    assert(Seq::new(width, |i: int| i < bits.len() && bits[i]) =~= bits);
}

/// The indexes yielded from `start` on are exactly those at or above `start`
/// whose bit equals `value`, each once and in increasing order.
pub proof fn lemma_positions(bits: Seq<bool>, value: bool, start: int)
    requires
        0 <= start <= bits.len(),
    ensures
        forall|k: int| #[trigger]
            positions(bits, value, start).contains(k) <==> (start <= k < bits.len() && bits[k]
                == value),
        forall|i: int|
            0 <= i < positions(bits, value, start).len() ==> start <= #[trigger] positions(
                bits,
                value,
                start,
            )[i] < bits.len() && bits[positions(bits, value, start)[i]] == value,
        forall|i: int, j: int|
            0 <= i < j < positions(bits, value, start).len() ==> #[trigger] positions(
                bits,
                value,
                start,
            )[i] < #[trigger] positions(bits, value, start)[j],
    decreases bits.len() - start,
{
    if start < bits.len() {
        lemma_positions(bits, value, start + 1);
        let rest = positions(bits, value, start + 1);
        if bits[start] == value {
            let p = seq![start].add(rest);
            assert(positions(bits, value, start) == p);
            assert forall|k: int| p.contains(k) <==> (start <= k < bits.len() && bits[k] == value) by {
                if k == start {
                    assert(p[0] == k);
                } else if p.contains(k) {
                    let w = choose|w: int| 0 <= w < p.len() && p[w] == k;
                    assert(rest[w - 1] == k);
                    assert(rest.contains(k));
                } else if start < k < bits.len() && bits[k] == value {
                    assert(rest.contains(k));
                    let w = choose|w: int| 0 <= w < rest.len() && rest[w] == k;
                    assert(p[w + 1] == k);
                }
            }
            assert forall|i: int| 0 <= i < p.len() implies start <= #[trigger] p[i] < bits.len()
                && bits[p[i]] == value by {
                if i > 0 {
                    assert(p[i] == rest[i - 1]);
                }
            }
            assert forall|i: int, j: int| 0 <= i < j < p.len() implies #[trigger] p[i]
                < #[trigger] p[j] by {
                assert(p[j] == rest[j - 1]);
                if i > 0 {
                    assert(p[i] == rest[i - 1]);
                }
            }
        }
    }
}

/// From any position, the indexes of 1 bits and those of 0 bits still to
/// come together number the bits still to come: every bit is yielded by
/// exactly one of [Ones] and [Zeroes].
pub proof fn lemma_ones_zeroes_partition(bits: Seq<bool>, start: int)
    requires
        0 <= start <= bits.len(),
    ensures
        positions(bits, true, start).len() + positions(bits, false, start).len() == bits.len()
            - start,
        forall|k: int|
            start <= k < bits.len() ==> (positions(bits, true, start).contains(k) <==> !positions(
                bits,
                false,
                start,
            ).contains(k)),
    decreases bits.len() - start,
{
    lemma_positions(bits, true, start);
    lemma_positions(bits, false, start);
    if start < bits.len() {
        lemma_ones_zeroes_partition(bits, start + 1);
    }
}

/// Facts on trimming high zeros: the result is a prefix of `bits`, the bits
/// above it are 0, and it is empty or ends with a 1.
pub proof fn lemma_trim_high_zeros(bits: Seq<bool>)
    ensures
        trim_high_zeros(bits).len() <= bits.len(),
        trim_high_zeros(bits) == bits.subrange(0, trim_high_zeros(bits).len() as int),
        forall|k: int| trim_high_zeros(bits).len() <= k < bits.len() ==> !bits[k],
        trim_high_zeros(bits).len() > 0 ==> trim_high_zeros(bits).last(),
    decreases bits.len(),
{
    if bits.len() > 0 && !bits.last() {
        lemma_trim_high_zeros(bits.drop_last());
        let t = trim_high_zeros(bits.drop_last());
        assert(bits.drop_last().subrange(0, t.len() as int) =~= bits.subrange(0, t.len() as int));
        assert forall|k: int| t.len() <= k < bits.len() implies !bits[k] by {
            if k < bits.len() - 1 {
                assert(bits.drop_last()[k] == bits[k]);
            }
        }
    } else {
        assert(bits.subrange(0, bits.len() as int) =~= bits);
    }
}

/// Binary digits read back: `"0"` exactly when no bit is set; otherwise the
/// first digit is `'1'`, the `k`-th digit from the right is bit `k`, and every
/// bit beyond the digits is 0.
pub proof fn lemma_binary_digits(bits: Seq<bool>)
    ensures
        binary_digits(bits).len() >= 1,
        binary_digits(bits).len() <= bits.len() || binary_digits(bits) == seq!['0'],
        (forall|k: int| 0 <= k < bits.len() ==> !bits[k]) <==> binary_digits(bits) == seq!['0'],
        binary_digits(bits) != seq!['0'] ==> binary_digits(bits)[0] == '1' && forall|k: int|
            0 <= k < binary_digits(bits).len() ==> binary_digits(bits)[binary_digits(bits).len() - 1
                - k] == (if bits[k] {
                '1'
            } else {
                '0'
            }) && forall|k: int| binary_digits(bits).len() <= k < bits.len() ==> !bits[k],
{
    lemma_trim_high_zeros(bits);
    let t = trim_high_zeros(bits);
    let d = binary_digits(bits);
    if t.len() == 0 {
        assert forall|k: int| 0 <= k < bits.len() implies !bits[k] by {}
    } else {
        assert(d.len() == t.len());
        assert(d[0] == '1');
        assert(d != seq!['0'] || t.len() == 1);
        if d == seq!['0'] {
            assert(d[0] == '0');
        }
        assert(bits[t.len() - 1]);
        assert forall|k: int| 0 <= k < d.len() implies d[d.len() - 1 - k] == (if bits[k] {
            '1'
        } else {
            '0'
        }) by {
            assert(t[k] == bits[k]);
        }
    }
}

/// An array for bit values (0 or 1) which holds all its data in a single integer.
///
/// The following types are supported as a base:
/// - [`u8`]
/// - [`u16`]
/// - [`u32`]
/// - [`u64`]
/// - [`u128`]
/// - [`usize`] (max capacity depends on target architecture)
///
/// Bit access by index asks, in its contract, for an index below [Base::max_len];
/// no bound is checked at run time.
#[derive(Clone, Copy, Debug, Eq, PartialEq, Hash)]
pub struct BitArray<B: Base>(B);

impl<B: Base> BitArray<B> {
    /// The base value that holds the bits.
    pub closed spec fn base_value(&self) -> B {
        self.0
    }

    /// Two arrays with the same bits are the same array.
    pub proof fn lemma_view_determines(a: Self, b: Self)
        requires
            a@ == b@,
        ensures
            a == b,
    {
        assert(bits_of(a.0) == bits_of(b.0));
        assert forall|i: int| 0 <= i < B::width() implies a.0.spec_bit(i) == b.0.spec_bit(i) by {
            assert(bits_of(a.0)[i] == bits_of(b.0)[i]);
        }
        B::lemma_bits_determine(a.0, b.0);
    }
}

impl<B: Base> View for BitArray<B> {
    type V = Seq<bool>;

    /// The bits of the array, least significant first; its length is `B::width()`.
    open spec fn view(&self) -> Seq<bool> {
        bits_of(self.base_value())
    }
}

impl<B: Base> Default for BitArray<B> {
    /// An array where every bit is 0.
    fn default() -> (r: Self)
        ensures
            r@ == uniform(B::width(), false),
    {
        Self::all_zero()
    }
}

impl<B: Base> BitArray<B> {
    /// Create a new [BitArray] from the given base value.
    pub fn new(value: B) -> (r: Self)
        ensures
            r.base_value() == value,
            r@ == bits_of(value),
    {
        BitArray(value)
    }

    /// Create a new BitArray from a sequence of bool values.
    ///
    /// If the sequence has fewer elements than [Base::max_len],
    /// any remaining bit will default to false.
    /// If the sequence has more elements than [Base::max_len],
    /// any additional element will be ignored.
    pub fn from_bits(bits: &[bool]) -> (r: Self)
        ensures
            r@ == Seq::new(B::width(), |i: int| i < bits@.len() && bits@[i]),
    {
        proof {
            B::lemma_width();
        }
        let mut arr: Self = BitArray::default();
        let max_len = B::max_len();
        let n: usize = if bits.len() < max_len as usize {
            bits.len()
        } else {
            max_len as usize
        };
        let mut i: usize = 0;
        while i < n
            invariant
                n <= bits@.len(),
                n <= B::width(),
                B::width() <= 128,
                i <= n,
                arr@ == Seq::new(B::width(), |k: int| k < i && bits@[k]),
            decreases n - i,
        {
            arr.set(i as u8, bits[i]);
            i = i + 1;
            assert(arr@ =~= Seq::new(B::width(), |k: int| k < i && bits@[k]));
        }
        assert(arr@ =~= Seq::new(B::width(), |k: int| k < bits@.len() && bits@[k]));
        arr
    }

    /// Create a new BitArray from a sequence of indexes. The bits at the given
    /// indexes will be true and everything else will be false.
    pub fn from_indices(indices: &[u8]) -> (r: Self)
        requires
            forall|k: int| 0 <= k < indices@.len() ==> (indices@[k] as nat) < B::width(),
        ensures
            r@ == Seq::new(B::width(), |i: int| indices@.contains(i as u8)),
    {
        proof {
            B::lemma_width();
        }
        let mut arr: Self = BitArray::default();
        let mut k: usize = 0;
        while k < indices.len()
            invariant
                k <= indices@.len(),
                B::width() <= 128,
                forall|j: int| 0 <= j < indices@.len() ==> (indices@[j] as nat) < B::width(),
                arr@ == Seq::new(B::width(), |i: int| indices@.subrange(0, k as int).contains(i as u8)),
            decreases indices@.len() - k,
        {
            let index = indices[k];
            arr.set(index, true);
            proof {
                let before = indices@.subrange(0, k as int);
                let after = indices@.subrange(0, k + 1);
                assert(after =~= before.push(index));
                assert forall|i: int| 0 <= i < B::width() implies arr@[i] == after.contains(i as u8) by {
                    if i == index as int {
                        assert(after[k as int] == index);
                    } else if after.contains(i as u8) {
                        let w = choose|w: int| 0 <= w < after.len() && after[w] == i as u8;
                        assert(before[w] == i as u8);
                    }
                }
            }
            k = k + 1;
            assert(arr@ =~= Seq::new(B::width(), |i: int| indices@.subrange(0, k as int).contains(i as u8)));
        }
        assert(indices@.subrange(0, k as int) =~= indices@);
        arr
    }

    /// Create a new BitArray where every bit is 0.
    pub fn all_zero() -> (r: Self)
        ensures
            r@ == uniform(B::width(), false),
    {
        let r = BitArray(B::zero());
        assert(r@ =~= uniform(B::width(), false));
        r
    }

    /// Crate a new BitArray where every bit is 1.
    pub fn all_one() -> (r: Self)
        ensures
            r@ == uniform(B::width(), true),
    {
        let r = BitArray(B::max());
        assert(r@ =~= uniform(B::width(), true));
        r
    }

    /// Get the bit value of the array at the given index.
    pub fn get(&self, index: u8) -> (r: bool)
        requires
            (index as nat) < B::width(),
        ensures
            r == self@[index as int],
    {
        // Bitwise AND with data and the desired index, which
        // will leave a number with a single bit set or zero if the bit was not set.
        // If anything remained, the bit was set (true), otherwise not (false)
        let masked = self.0.bit_and(B::one_at_index(index));
        let r = !masked.is_zero();
        proof {
            if !r {
                assert(!masked.spec_bit(index as int));
            }
        }
        r
    }

    /// Set the bit at the given index to the given bit.
    pub fn set(&mut self, index: u8, bit: bool)
        requires
            (index as nat) < B::width(),
        ensures
            final(self)@ == old(self)@.update(index as int, bit),
    {
        if bit {
            // perform bitwise OR with a 1 shifted to the desired index, which will switch it to 1
            self.0 = self.0.bit_or(B::one_at_index(index));
        } else {
            // perform bitwise AND with a number where every bit is switched to 1 except the desired
            // one, which will switch it to 0
            self.0 = self.0.bit_and(B::one_at_index(index).bit_not());
        }
        assert(self@ =~= old(self)@.update(index as int, bit));
    }

    /// The base value written in binary: most significant digit first,
    /// without leading zeros, `"0"` when every bit is 0.
    pub fn to_string(&self) -> (r: String)
        ensures
            r@ == binary_digits(self@),
    {
        proof {
            B::lemma_width();
        }
        let max_len = B::max_len();
        let mut top: u8 = max_len;
        assert(self@.subrange(0, top as int) =~= self@);
        while top > 0 && !self.get(top - 1)
            invariant
                top <= max_len,
                max_len as nat == B::width(),
                trim_high_zeros(self@) == trim_high_zeros(self@.subrange(0, top as int)),
            decreases top,
        {
            assert(self@.subrange(0, top as int).drop_last() =~= self@.subrange(0, top - 1));
            top = top - 1;
        }
        let ghost kept = self@.subrange(0, top as int);
        assert(trim_high_zeros(kept) == kept);
        let mut s = String::new();
        if top == 0 {
            proof {
                reveal_strlit("0");
            }
            s.append("0");
        } else {
            let mut k: u8 = top;
            while k > 0
                invariant
                    k <= top,
                    top <= max_len,
                    max_len as nat == B::width(),
                    kept == self@.subrange(0, top as int),
                    s@ == Seq::new((top - k) as nat, |m: int| if kept[top - 1 - m] { '1' } else { '0' }),
                decreases k,
            {
                k = k - 1;
                let bit = self.get(k);
                proof {
                    reveal_strlit("1");
                    reveal_strlit("0");
                }
                if bit {
                    s.append("1");
                } else {
                    s.append("0");
                }
                assert(s@ =~= Seq::new((top - k) as nat, |m: int| if kept[top - 1 - m] { '1' } else { '0' }));
            }
        }
        s
    }

    /// Create an iterator over all the bits of this array
    pub fn iter(&self) -> (r: BitArrayIter<B>)
        ensures
            r.array() == self@,
            r.position() == 0,
    {
        // Just copy the array, as it is not that big
        BitArrayIter::new(*self)
    }

    /// Creating an iterator over all the indexes set to 1.
    pub fn ones(&self) -> (r: Ones<B>)
        ensures
            r.wf(),
            r.array() == self@,
            r.position() == 0,
    {
        Ones::new(*self)
    }

    /// Creating an iterator over all the indexes set to 0.
    pub fn zeroes(&self) -> (r: Zeroes<B>)
        ensures
            r.wf(),
            r.array() == self@,
            r.position() == 0,
    {
        Zeroes::new(*self)
    }
}

/// An iterator over all the bits of a [BitArray], from index 0 upwards.
pub struct BitArrayIter<B: Base> {
    array: BitArray<B>,
    counter: u8,
}

impl<B: Base> BitArrayIter<B> {
    #[verifier::type_invariant]
    spec fn counter_in_range(self) -> bool {
        self.counter <= B::width()
    }

    /// The bits being iterated over.
    pub closed spec fn array(&self) -> Seq<bool> {
        self.array@
    }

    /// The index of the next bit to yield.
    pub closed spec fn position(&self) -> nat {
        self.counter as nat
    }

    /// The bits still to come.
    pub open spec fn remaining(&self) -> Seq<bool> {
        self.array().subrange(self.position() as int, self.array().len() as int)
    }

    fn new(array: BitArray<B>) -> (r: Self)
        ensures
            r.array() == array@,
            r.position() == 0,
    {
        BitArrayIter { array, counter: 0 }
    }

    /// Yield the next bit, or `None` once all [Base::max_len] bits were yielded.
    pub fn next(&mut self) -> (r: Option<bool>)
        ensures
            final(self).array() == old(self).array(),
            old(self).array().len() == B::width(),
            old(self).position() <= old(self).array().len(),
            final(self).position() <= final(self).array().len(),
            old(self).position() == old(self).array().len() ==> r == None::<bool>
                && final(self).position() == old(self).position(),
            old(self).position() < old(self).array().len() ==> r == Some(old(self).array()[old(self).position() as int])
                && final(self).position() == old(self).position() + 1,
    {
        proof {
            use_type_invariant(&*self);
        }
        if self.counter == B::max_len() {
            return None;
        }
        let item = self.array.get(self.counter);
        self.counter += 1;
        Some(item)
    }

    /// Bounds on the number of bits still to come: from 0 up to [Base::max_len].
    pub fn size_hint(&self) -> (r: (usize, Option<usize>))
        ensures
            r.0 == 0,
            r.1 == Some(B::width() as usize),
            self.array().len() == B::width(),
            self.position() <= self.array().len(),
            self.remaining().len() <= B::width(),
    {
        proof {
            use_type_invariant(self);
        }
        (0, Some(B::max_len() as usize))
    }
}


/// An iterator yielding the indexes of all 1 values of a [BitArray];
pub struct Ones<B: Base> {
    counter: u8,
    inner: BitArrayIter<B>,
}

impl<B: Base> Ones<B> {
    /// The own counter and that of the inner iterator agree.
    pub closed spec fn wf(&self) -> bool {
        self.counter as nat == self.inner.position()
    }

    /// The bits being searched.
    pub closed spec fn array(&self) -> Seq<bool> {
        self.inner.array()
    }

    /// The index from which the search goes on.
    pub closed spec fn position(&self) -> nat {
        self.counter as nat
    }

    /// The indexes still to be yielded, in increasing order.
    pub open spec fn remaining(&self) -> Seq<int> {
        positions(self.array(), true, self.position() as int)
    }

    fn new(array: BitArray<B>) -> (r: Self)
        ensures
            r.wf(),
            r.array() == array@,
            r.position() == 0,
    {
        Ones { counter: 0, inner: BitArrayIter::new(array) }
    }

    /// Yield the next index at or above the current position whose bit is 1,
    /// or `None` when there is none.
    pub fn next(&mut self) -> (r: Option<u8>)
        requires
            old(self).wf(),
        ensures
            final(self).wf(),
            final(self).array() == old(self).array(),
            match r {
                None => old(self).remaining().len() == 0 && final(self).remaining().len() == 0,
                Some(index) => old(self).remaining().len() > 0
                    && index as int == old(self).remaining()[0]
                    && final(self).remaining() == old(self).remaining().drop_first(),
            },
    {
        loop
            invariant
                self.wf(),
                self.array() == old(self).array(),
                self.remaining() == old(self).remaining(),
            decreases self.array().len() - self.position(),
        {
            proof {
                use_type_invariant(&self.inner);
            }
            if self.counter == B::max_len() {
                return None;
            }
            let elem = self.inner.next();
            let index = self.counter;
            self.counter += 1;
            match elem {
                Some(true) => {
                    return Some(index);
                },
                _ => {},
            }
        }
    }
}

/// An iterator yielding the indexes of all 0 values of a [BitArray];
pub struct Zeroes<B: Base> {
    counter: u8,
    inner: BitArrayIter<B>,
}

impl<B: Base> Zeroes<B> {
    /// The own counter and that of the inner iterator agree.
    pub closed spec fn wf(&self) -> bool {
        self.counter as nat == self.inner.position()
    }

    /// The bits being searched.
    pub closed spec fn array(&self) -> Seq<bool> {
        self.inner.array()
    }

    /// The index from which the search goes on.
    pub closed spec fn position(&self) -> nat {
        self.counter as nat
    }

    /// The indexes still to be yielded, in increasing order.
    pub open spec fn remaining(&self) -> Seq<int> {
        positions(self.array(), false, self.position() as int)
    }

    fn new(array: BitArray<B>) -> (r: Self)
        ensures
            r.wf(),
            r.array() == array@,
            r.position() == 0,
    {
        Zeroes { counter: 0, inner: BitArrayIter::new(array) }
    }

    /// Yield the next index at or above the current position whose bit is 0,
    /// or `None` when there is none.
    pub fn next(&mut self) -> (r: Option<u8>)
        requires
            old(self).wf(),
        ensures
            final(self).wf(),
            final(self).array() == old(self).array(),
            match r {
                None => old(self).remaining().len() == 0 && final(self).remaining().len() == 0,
                Some(index) => old(self).remaining().len() > 0
                    && index as int == old(self).remaining()[0]
                    && final(self).remaining() == old(self).remaining().drop_first(),
            },
    {
        loop
            invariant
                self.wf(),
                self.array() == old(self).array(),
                self.remaining() == old(self).remaining(),
            decreases self.array().len() - self.position(),
        {
            proof {
                use_type_invariant(&self.inner);
            }
            if self.counter == B::max_len() {
                return None;
            }
            let elem = self.inner.next();
            let index = self.counter;
            self.counter += 1;
            match elem {
                Some(false) => {
                    return Some(index);
                },
                _ => {},
            }
        }
    }
}

} // verus!
