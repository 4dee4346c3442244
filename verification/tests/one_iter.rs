use tools::one_iter::OneIter;

fn collect<T, IA: Iterator<Item = T>, IB: Iterator<Item = T>>(mut it: OneIter<IA, IB>) -> Vec<T> {
    let mut out = Vec::new();
    while let Some(x) = it.next() {
        out.push(x);
    }
    out
}

/// Test if I can return either the items of one iterator or nothing, based on a condition.
#[test]
pub fn iter_or_empty_works() {
    let items = collect(if true {
        OneIter::iter_a(vec![1, 2, 3].into_iter())
    } else {
        OneIter::iter_b([].into_iter())
    });

    assert_eq!(items, vec![1, 2, 3]);

    let items = collect(if false {
        OneIter::iter_a(vec![1, 2, 3].into_iter())
    } else {
        OneIter::iter_b([].into_iter())
    });

    assert_eq!(items, Vec::<i32>::new())
}

#[test]
fn second_alternative_yields_its_items() {
    let it: OneIter<std::vec::IntoIter<u8>, std::ops::Range<u8>> = OneIter::iter_b(4..7);
    assert_eq!(collect(it), vec![4, 5, 6]);
}
