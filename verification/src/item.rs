use vstd::prelude::*;

verus! {

/// A value that can be compared and copied by its view.
pub trait Item: View + Sized {
    /// Whether the two values have the same view.
    fn same(&self, other: &Self) -> (r: bool)
        ensures
            r == (self@ == other@),
    ;

    /// A fresh value with the same view.
    fn duplicate(&self) -> (r: Self)
        ensures
            r@ == self@,
    ;
}

/// The views of the elements of `s`, in order.
pub open spec fn models<T: View>(s: Seq<T>) -> Seq<T::V> {
    Seq::new(s.len(), |i: int| s[i]@)
}

/// `acc` followed by each element of `from`, in order, that is not yet in
/// the list when its turn comes.
pub open spec fn merged<M>(acc: Seq<M>, from: Seq<M>) -> Seq<M>
    decreases from.len(),
{
    if from.len() == 0 {
        acc
    } else {
        let prev = merged(acc, from.drop_last());
        if prev.contains(from.last()) {
            prev
        } else {
            prev.push(from.last())
        }
    }
}

/// Appending one element extends the list of views by that element's view.
pub proof fn lemma_models_push<T: View>(s: Seq<T>, x: T)
    ensures
        models(s.push(x)) == models(s).push(x@),
{
    assert(models(s.push(x)) =~= models(s).push(x@));
}

/// Removing one element removes its view.
pub proof fn lemma_models_remove<T: View>(s: Seq<T>, i: int)
    requires
        0 <= i < s.len(),
    ensures
        models(s.remove(i)) == models(s).remove(i),
{
    assert(models(s.remove(i)) =~= models(s).remove(i));
}

/// Merging keeps the list it started from as a prefix and adds at most the
/// elements of `from`.
pub proof fn lemma_merged_extends<M>(acc: Seq<M>, from: Seq<M>)
    ensures
        acc.len() <= merged(acc, from).len() <= acc.len() + from.len(),
        merged(acc, from).take(acc.len() as int) == acc,
    decreases from.len(),
{
    if from.len() == 0 {
        assert(acc.take(acc.len() as int) =~= acc);
    } else {
        lemma_merged_extends(acc, from.drop_last());
        let prev = merged(acc, from.drop_last());
        assert(prev.push(from.last()).take(acc.len() as int) =~= prev.take(acc.len() as int));
    }
}

/// A merged list holds exactly what either list held.
pub proof fn lemma_merged_contains<M>(acc: Seq<M>, from: Seq<M>, x: M)
    ensures
        merged(acc, from).contains(x) <==> acc.contains(x) || from.contains(x),
    decreases from.len(),
{
    if from.len() == 0 {
    } else {
        let init = from.drop_last();
        let prev = merged(acc, init);
        lemma_merged_contains(acc, init, x);
        if from.contains(x) {
            let i = choose|i: int| 0 <= i < from.len() && from[i] == x;
            if i < init.len() {
                assert(init[i] == x);
            }
        }
        if init.contains(x) {
            let i = choose|i: int| 0 <= i < init.len() && init[i] == x;
            assert(from[i] == x);
        }
        assert(from[from.len() - 1] == from.last());
        if !prev.contains(from.last()) {
            let next = prev.push(from.last());
            assert(next[prev.len() as int] == from.last());
            if prev.contains(x) {
                let i = choose|i: int| 0 <= i < prev.len() && prev[i] == x;
                assert(next[i] == x);
            }
        }
    }
}

/// Merging into a list without repetitions gives a list without repetitions.
pub proof fn lemma_merged_no_duplicates<M>(acc: Seq<M>, from: Seq<M>)
    requires
        acc.no_duplicates(),
    ensures
        merged(acc, from).no_duplicates(),
    decreases from.len(),
{
    if from.len() > 0 {
        lemma_merged_no_duplicates(acc, from.drop_last());
    }
}

/// Merging the same list a second time changes nothing.
pub proof fn lemma_merged_twice<M>(acc: Seq<M>, from: Seq<M>)
    ensures
        merged(merged(acc, from), from) == merged(acc, from),
{
    let once = merged(acc, from);
    assert forall|x: M| from.contains(x) implies once.contains(x) by {
        lemma_merged_contains(acc, from, x);
    }
    lemma_merged_absorbs(once, from);
}

/// Merging a list whose elements are all present changes nothing.
pub proof fn lemma_merged_absorbs<M>(acc: Seq<M>, from: Seq<M>)
    requires
        forall|x: M| from.contains(x) ==> acc.contains(x),
    ensures
        merged(acc, from) == acc,
    decreases from.len(),
{
    if from.len() > 0 {
        let init = from.drop_last();
        assert forall|x: M| init.contains(x) implies acc.contains(x) by {
            let i = choose|i: int| 0 <= i < init.len() && init[i] == x;
            assert(from[i] == x);
        }
        lemma_merged_absorbs(acc, init);
        assert(from[from.len() - 1] == from.last());
    }
}

/// Whether `list` holds an element with the view of `x`.
pub fn contains_item<T: Item>(list: &Vec<T>, x: &T) -> (r: bool)
    ensures
        r == models(list@).contains(x@),
{
    let mut i: usize = 0;
    while i < list.len()
        invariant
            i <= list.len(),
            forall|j: int| 0 <= j < i ==> models(list@)[j] != x@,
        decreases list.len() - i,
    {
        if list[i].same(x) {
            assert(models(list@)[i as int] == x@);
            return true;
        }
        i += 1;
    }
    false
}

/// A fresh list whose elements have the views of those of `list`.
pub fn duplicate_list<T: Item>(list: &Vec<T>) -> (r: Vec<T>)
    ensures
        models(r@) == models(list@),
{
    let mut out: Vec<T> = Vec::new();
    let mut i: usize = 0;
    while i < list.len()
        invariant
            i <= list.len(),
            models(out@) == models(list@.take(i as int)),
        decreases list.len() - i,
    {
        let copy = list[i].duplicate();
        proof {
            lemma_models_push(out@, copy);
            assert(models(list@.take(i as int)).push(list@[i as int]@) =~= models(
                list@.take(i as int + 1),
            ));
        }
        out.push(copy);
        i += 1;
    }
    proof {
        assert(list@.take(list@.len() as int) =~= list@);
    }
    out
}

/// Appends to `into` a copy of each element of `from` that it does not hold
/// yet, in the order of `from`.
pub fn merge_unique<T: Item>(into: &mut Vec<T>, from: &Vec<T>)
    ensures
        models(final(into)@) == merged(models(old(into)@), models(from@)),
{
    let mut i: usize = 0;
    while i < from.len()
        invariant
            i <= from.len(),
            models(into@) == merged(models(old(into)@), models(from@.take(i as int))),
        decreases from.len() - i,
    {
        proof {
            let next = models(from@.take(i as int + 1));
            assert(next.drop_last() =~= models(from@.take(i as int)));
            assert(next.last() == from@[i as int]@);
        }
        if !contains_item(into, &from[i]) {
            let copy = from[i].duplicate();
            proof {
                lemma_models_push(into@, copy);
            }
            into.push(copy);
        }
        i += 1;
    }
    proof {
        assert(from@.take(from@.len() as int) =~= from@);
    }
}

impl Item for String {
    fn same(&self, other: &Self) -> (r: bool) {
        *self == *other
    }

    fn duplicate(&self) -> (r: Self) {
        self.clone()
    }
}

} // verus!
