//! What a transformation of a syntax tree says of one node: keep it, or
//! put another in its place.

use vstd::prelude::*;

verus! {

/// The verdict on a node.
#[derive(Clone, Debug)]
pub enum Transformed<T> {
    Keep,
    Replace(T),
}

/// The verdict on a part of a node, such as a list of its children.
#[derive(Clone, Debug)]
pub enum TransformedValue<T> {
    Keep,
    Replace(T),
}

impl<T> TransformedValue<T> {
    /// Whether the part is kept as it is.
    pub fn should_keep(&self) -> (keep: bool)
        ensures
            keep == (self is Keep),
    {
        match self {
            TransformedValue::Keep => true,
            TransformedValue::Replace(_) => false,
        }
    }

    /// The replacement, or what `f` gives where the part is kept.
    pub fn replace_or_else<F>(self, f: F) -> (value: T) where F: FnOnce() -> T
        requires
            self is Keep ==> f.requires(()),
        ensures
            match self {
                TransformedValue::Keep => f.ensures((), value),
                TransformedValue::Replace(next) => value == next,
            },
    {
        match self {
            TransformedValue::Keep => f(),
            TransformedValue::Replace(next_value) => next_value,
        }
    }

    /// The same verdict as one on a node.
    pub fn into_transformed(self) -> (t: Transformed<T>)
        ensures
            match self {
                TransformedValue::Keep => t is Keep,
                TransformedValue::Replace(next) => t == Transformed::Replace(next),
            },
    {
        match self {
            TransformedValue::Keep => Transformed::Keep,
            TransformedValue::Replace(replacement) => Transformed::Replace(replacement),
        }
    }
}

/// In a list that a transformation gives for another, `next` stands for
/// `item`: it is a copy of `item`, which `f` keeps, or what `f` puts in
/// its place.
pub open spec fn stands_for<I: Clone, F: Fn(&I) -> Transformed<I>>(f: F, item: I, next: I) -> bool {
    (f.ensures((&item,), Transformed::Keep) && cloned(item, next)) || f.ensures(
        (&item,),
        Transformed::Replace(next),
    )
}

/// Transforms a list item by item: the list is kept where `f` keeps each
/// of its items; where `f` replaces one, the list is replaced by one that
/// holds, in the same order, the replacements and copies of the items
/// that are kept.
pub fn transform_list<I, F>(list: &[I], f: F) -> (r: TransformedValue<Vec<I>>) where
    I: Clone,
    F: Fn(&I) -> Transformed<I>,

    requires
        forall|i: int| 0 <= i < list@.len() ==> f.requires((&#[trigger] list@[i],)),
    ensures
        match r {
            TransformedValue::Keep => forall|i: int|
                0 <= i < list@.len() ==> f.ensures((&#[trigger] list@[i],), Transformed::Keep),
            TransformedValue::Replace(v) => {
                &&& v@.len() == list@.len()
                &&& exists|i: int|
                    0 <= i < list@.len() && f.ensures(
                        (&#[trigger] list@[i],),
                        Transformed::Replace(v@[i]),
                    )
                &&& forall|i: int|
                    0 <= i < list@.len() ==> stands_for(f, #[trigger] list@[i], v@[i])
            },
        },
{
    let n = list.len();
    let mut result: Vec<I> = Vec::new();
    let mut has_changes = false;
    let ghost mut first: int = 0;
    let mut index: usize = 0;
    while index < n
        invariant
            index <= n,
            n == list@.len(),
            forall|i: int| 0 <= i < list@.len() ==> f.requires((&#[trigger] list@[i],)),
            !has_changes ==> result@.len() == 0 && forall|i: int|
                0 <= i < index ==> f.ensures((&#[trigger] list@[i],), Transformed::Keep),
            has_changes ==> result@.len() == index && 0 <= first < index && f.ensures(
                (&list@[first],),
                Transformed::Replace(result@[first]),
            ) && forall|i: int| 0 <= i < index ==> stands_for(f, #[trigger] list@[i], result@[i]),
        decreases n - index,
    {
        let next_item = f(&list[index]);
        match next_item {
            Transformed::Keep => {
                if has_changes {
                    let copy = list[index].clone();
                    let ghost before = result@;
                    result.push(copy);
                    assert forall|i: int| 0 <= i < index + 1 implies stands_for(
                        f,
                        #[trigger] list@[i],
                        result@[i],
                    ) by {
                        if i < index {
                            assert(result@[i] == before[i]);
                        }
                    }
                    assert(result@[first] == before[first]);
                }
            },
            Transformed::Replace(next) => {
                if !has_changes {
                    let mut k: usize = 0;
                    while k < index
                        invariant
                            k <= index <= n,
                            n == list@.len(),
                            result@.len() == k,
                            forall|i: int|
                                0 <= i < index ==> f.ensures(
                                    (&#[trigger] list@[i],),
                                    Transformed::Keep,
                                ),
                            forall|i: int|
                                0 <= i < k ==> stands_for(f, #[trigger] list@[i], result@[i]),
                        decreases index - k,
                    {
                        let copy = list[k].clone();
                        let ghost before = result@;
                        result.push(copy);
                        assert forall|i: int| 0 <= i < k + 1 implies stands_for(
                            f,
                            #[trigger] list@[i],
                            result@[i],
                        ) by {
                            if i < k {
                                assert(result@[i] == before[i]);
                            }
                        }
                        k += 1;
                    }
                    proof {
                        first = index as int;
                    }
                }
                let ghost before = result@;
                result.push(next);
                has_changes = true;
                assert forall|i: int| 0 <= i < index + 1 implies stands_for(
                    f,
                    #[trigger] list@[i],
                    result@[i],
                ) by {
                    if i < index {
                        assert(result@[i] == before[i]);
                    }
                }
                assert(first < index ==> result@[first] == before[first]);
            },
        }
        index += 1;
    }
    if has_changes {
        TransformedValue::Replace(result)
    } else {
        TransformedValue::Keep
    }
}

} // verus!
