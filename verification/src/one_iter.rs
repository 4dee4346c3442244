use vstd::prelude::*;

verus! {

/// Combines 2 different types of iterators, yielding the same item type,
/// to be represented by one wrapper.
pub enum OneIter<IA, IB> {
    IterA(IA),
    IterB(IB),
}

impl<T, IA, IB> OneIter<IA, IB> where IA: Iterator<Item = T>, IB: Iterator<Item = T> {
    /// Create an [`OneIter::IterA`] from an iterator (call `into_iter` on a
    /// collection first).
    pub fn iter_a(iter: IA) -> (r: Self)
        ensures
            r == OneIter::<IA, IB>::IterA(iter),
    {
        OneIter::IterA(iter)
    }

    /// Create an [`OneIter::IterB`] from an iterator (call `into_iter` on a
    /// collection first).
    pub fn iter_b(iter: IB) -> (r: Self)
        ensures
            r == OneIter::<IA, IB>::IterB(iter),
    {
        OneIter::IterB(iter)
    }

    /// Advance the wrapped iterator and return what it yields. For an iterator
    /// that obeys vstd's iterator laws, that is the first of its remaining
    /// items, which it then drops, or `None`, which leaves it unchanged; the
    /// variant never changes, nor does whether the iterator obeys the laws.
    pub fn next(&mut self) -> (r: Option<T>)
        ensures
            match (*old(self), *final(self)) {
                (OneIter::IterA(a0), OneIter::IterA(a1)) => {
                    &&& vstd::std_specs::iter::IteratorSpec::obeys_prophetic_iter_laws(&a1) == vstd::std_specs::iter::IteratorSpec::obeys_prophetic_iter_laws(&a0)
                    &&& vstd::std_specs::iter::IteratorSpec::obeys_prophetic_iter_laws(&a0) ==> {
                        let rest = vstd::std_specs::iter::IteratorSpec::remaining(&a0);
                        if rest.len() > 0 {
                            r == Some(rest[0]) && vstd::std_specs::iter::IteratorSpec::remaining(&a1) == rest.drop_first()
                        } else {
                            r is None && vstd::std_specs::iter::IteratorSpec::remaining(&a1) == rest
                        }
                    }
                },
                (OneIter::IterB(b0), OneIter::IterB(b1)) => {
                    &&& vstd::std_specs::iter::IteratorSpec::obeys_prophetic_iter_laws(&b1) == vstd::std_specs::iter::IteratorSpec::obeys_prophetic_iter_laws(&b0)
                    &&& vstd::std_specs::iter::IteratorSpec::obeys_prophetic_iter_laws(&b0) ==> {
                        let rest = vstd::std_specs::iter::IteratorSpec::remaining(&b0);
                        if rest.len() > 0 {
                            r == Some(rest[0]) && vstd::std_specs::iter::IteratorSpec::remaining(&b1) == rest.drop_first()
                        } else {
                            r is None && vstd::std_specs::iter::IteratorSpec::remaining(&b1) == rest
                        }
                    }
                },
                _ => false,
            },
    {
        match self {
            OneIter::IterA(i) => i.next(),
            OneIter::IterB(i) => i.next(),
        }
    }
}

/// Repeated `next` calls on an iterator that obeys vstd's iterator laws, each
/// one from the state the last one left (`states[j]` before call `j`,
/// `states[j + 1]` after it, `results[j]` its result), return its remaining
/// items in order and then `None`.
pub proof fn lemma_next_calls<I: Iterator>(states: Seq<I>, results: Seq<Option<I::Item>>, k: int)
    requires
        states.len() == results.len() + 1,
        0 <= k <= results.len(),
        vstd::std_specs::iter::IteratorSpec::obeys_prophetic_iter_laws(&states[0]),
        forall|j: int|
            0 <= j < results.len() ==> {
                &&& vstd::std_specs::iter::IteratorSpec::obeys_prophetic_iter_laws(&states[j + 1])
                    == vstd::std_specs::iter::IteratorSpec::obeys_prophetic_iter_laws(&states[j])
                &&& vstd::std_specs::iter::IteratorSpec::obeys_prophetic_iter_laws(&states[j]) ==> {
                    let rest = vstd::std_specs::iter::IteratorSpec::remaining(&states[j]);
                    if rest.len() > 0 {
                        #[trigger] results[j] == Some(rest[0])
                            && vstd::std_specs::iter::IteratorSpec::remaining(&states[j + 1])
                            == rest.drop_first()
                    } else {
                        results[j] is None && vstd::std_specs::iter::IteratorSpec::remaining(
                            &states[j + 1],
                        ) == rest
                    }
                }
            },
    ensures
        vstd::std_specs::iter::IteratorSpec::obeys_prophetic_iter_laws(&states[k]),
        ({
            let first = vstd::std_specs::iter::IteratorSpec::remaining(&states[0]);
            let n = first.len() as int;
            vstd::std_specs::iter::IteratorSpec::remaining(&states[k]) == first.subrange(
                if k < n { k } else { n },
                n,
            )
        }),
        forall|j: int|
            0 <= j < k ==> {
                let first = vstd::std_specs::iter::IteratorSpec::remaining(&states[0]);
                #[trigger] results[j] == if j < first.len() {
                    Some(first[j])
                } else {
                    None
                }
            },
    decreases k,
{
    let first = vstd::std_specs::iter::IteratorSpec::remaining(&states[0]);
    let n = first.len() as int;
    if k == 0 {
        assert(first.subrange(0, n) =~= first);
    } else {
        lemma_next_calls(states, results, k - 1);
        let j = k - 1;
        let rest = vstd::std_specs::iter::IteratorSpec::remaining(&states[j]);
        assert(results[j] == results[j]);
        if j < n {
            assert(rest[0] == first[j]);
            assert(rest.drop_first() =~= first.subrange(k, n));
        }
    }
}

/// Repeated `next` calls on a [OneIter] return what the same calls on the
/// wrapped iterator would: its remaining items in order, then `None`.
pub proof fn lemma_one_iter_calls<T, IA, IB>(states: Seq<OneIter<IA, IB>>, results: Seq<Option<T>>)
    where IA: Iterator<Item = T>, IB: Iterator<Item = T>
    requires
        states.len() == results.len() + 1,
        match states[0] {
            OneIter::IterA(a) => vstd::std_specs::iter::IteratorSpec::obeys_prophetic_iter_laws(&a),
            OneIter::IterB(b) => vstd::std_specs::iter::IteratorSpec::obeys_prophetic_iter_laws(&b),
        },
        forall|j: int|
            0 <= j < results.len() ==> match (states[j], states[j + 1]) {
                (OneIter::IterA(a0), OneIter::IterA(a1)) => {
                    &&& vstd::std_specs::iter::IteratorSpec::obeys_prophetic_iter_laws(&a1)
                        == vstd::std_specs::iter::IteratorSpec::obeys_prophetic_iter_laws(&a0)
                    &&& vstd::std_specs::iter::IteratorSpec::obeys_prophetic_iter_laws(&a0) ==> {
                        let rest = vstd::std_specs::iter::IteratorSpec::remaining(&a0);
                        if rest.len() > 0 {
                            #[trigger] results[j] == Some(rest[0])
                                && vstd::std_specs::iter::IteratorSpec::remaining(&a1)
                                == rest.drop_first()
                        } else {
                            results[j] is None && vstd::std_specs::iter::IteratorSpec::remaining(&a1)
                                == rest
                        }
                    }
                },
                (OneIter::IterB(b0), OneIter::IterB(b1)) => {
                    &&& vstd::std_specs::iter::IteratorSpec::obeys_prophetic_iter_laws(&b1)
                        == vstd::std_specs::iter::IteratorSpec::obeys_prophetic_iter_laws(&b0)
                    &&& vstd::std_specs::iter::IteratorSpec::obeys_prophetic_iter_laws(&b0) ==> {
                        let rest = vstd::std_specs::iter::IteratorSpec::remaining(&b0);
                        if rest.len() > 0 {
                            results[j] == Some(rest[0])
                                && vstd::std_specs::iter::IteratorSpec::remaining(&b1)
                                == rest.drop_first()
                        } else {
                            results[j] is None && vstd::std_specs::iter::IteratorSpec::remaining(&b1)
                                == rest
                        }
                    }
                },
                _ => false,
            },
    ensures
        forall|j: int|
            0 <= j < results.len() ==> match states[0] {
                OneIter::IterA(a) => {
                    let first = vstd::std_specs::iter::IteratorSpec::remaining(&a);
                    #[trigger] results[j] == if j < first.len() {
                        Some(first[j])
                    } else {
                        None
                    }
                },
                OneIter::IterB(b) => {
                    let first = vstd::std_specs::iter::IteratorSpec::remaining(&b);
                    results[j] == if j < first.len() {
                        Some(first[j])
                    } else {
                        None
                    }
                },
            },
{
    let m = results.len() as int;
    assert forall|j: int| 0 <= j < m implies (#[trigger] states[j] is IterA) == (states[j + 1] is IterA) by {
        assert(results[j] == results[j]);
    }
    lemma_same_variant(states, m);
    match states[0] {
        OneIter::IterA(_) => {
            let inner = Seq::new(states.len(), |j: int| states[j]->IterA_0);
            assert forall|j: int| 0 <= j <= m implies states[j] == OneIter::<IA, IB>::IterA(#[trigger] inner[j]) by {
                assert(states[j] is IterA);
            }
            lemma_next_calls(inner, results, m);
        },
        OneIter::IterB(_) => {
            let inner = Seq::new(states.len(), |j: int| states[j]->IterB_0);
            assert forall|j: int| 0 <= j <= m implies states[j] == OneIter::<IA, IB>::IterB(#[trigger] inner[j]) by {
                assert(!(states[j] is IterA));
            }
            lemma_next_calls(inner, results, m);
        },
    }
}

/// Consecutive states that each keep the variant all have the variant of the first.
proof fn lemma_same_variant<IA, IB>(states: Seq<OneIter<IA, IB>>, k: int)
    requires
        0 <= k < states.len(),
        forall|j: int|
            0 <= j < k ==> (#[trigger] states[j] is IterA) == (states[j + 1] is IterA),
    ensures
        forall|j: int| 0 <= j <= k ==> (#[trigger] states[j] is IterA) == (states[0] is IterA),
    decreases k,
{
    if k > 0 {
        lemma_same_variant(states, k - 1);
        assert((states[k - 1] is IterA) == (states[k] is IterA));
    }
}

} // verus!
