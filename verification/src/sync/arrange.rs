//! The order in which the actions of a plan are carried out.
use vstd::prelude::*;

use crate::text::{
    bytes_less, lemma_bytes_less_irreflexive, lemma_bytes_less_total, lemma_bytes_less_transitive,
};

verus! {

/// What decides the place of an action: its rank, then its depth, then the
/// bytes of its path.
pub struct SortKey {
    pub rank: int,
    pub depth: int,
    pub path: Seq<u8>,
}

/// The order of keys.
pub open spec fn key_less(a: SortKey, b: SortKey) -> bool {
    ||| a.rank < b.rank
    ||| a.rank == b.rank && a.depth < b.depth
    ||| a.rank == b.rank && a.depth == b.depth && bytes_less(a.path, b.path)
}

/// Values that have a place in an order of execution.
pub trait Arranged: View + Sized {
    /// The key of a value.
    spec fn sort_key(view: Self::V) -> SortKey;

    /// Whether this value has to come before another one.
    fn comes_before(&self, other: &Self) -> (r: bool)
        ensures
            r == key_less(Self::sort_key(self@), Self::sort_key(other@)),
    ;
}

/// The views of a list.
pub open spec fn views<A: View>(values: Seq<A>) -> Seq<A::V> {
    Seq::new(values.len(), |i: int| values[i]@)
}

/// The values with a given key, in their order.
pub open spec fn with_key<A: Arranged>(values: Seq<A::V>, key: SortKey) -> Seq<A::V>
    decreases values.len(),
{
    if values.len() == 0 {
        Seq::empty()
    } else {
        let rest = with_key::<A>(values.drop_last(), key);
        if A::sort_key(values.last()) == key {
            rest.push(values.last())
        } else {
            rest
        }
    }
}

/// No value comes before one that it follows.
pub open spec fn in_order<A: Arranged>(values: Seq<A::V>) -> bool {
    forall|i: int, j: int|
        0 <= i < j < values.len() ==> !key_less(
            A::sort_key(#[trigger] values[j]),
            A::sort_key(#[trigger] values[i]),
        )
}

/// `output` is `input` put in order, where values with the same key keep the
/// order they had.
pub open spec fn arrangement_of<A: Arranged>(input: Seq<A::V>, output: Seq<A::V>) -> bool {
    &&& in_order::<A>(output)
    &&& output.to_multiset() == input.to_multiset()
    &&& forall|key: SortKey| #[trigger] with_key::<A>(output, key) == with_key::<A>(input, key)
}

/// The order of keys is strict, transitive and total.
pub proof fn lemma_key_less_transitive(a: SortKey, b: SortKey, c: SortKey)
    requires
        !key_less(b, a),
        !key_less(c, b),
    ensures
        !key_less(c, a),
        !key_less(a, a),
{
    lemma_bytes_less_irreflexive(a.path);
    if key_less(c, a) && c.rank == a.rank && c.depth == a.depth {
        assert(bytes_less(c.path, a.path));
        assert(a.rank == b.rank && a.depth == b.depth);
        lemma_bytes_less_total(a.path, b.path);
        lemma_bytes_less_total(b.path, c.path);
        if a.path == b.path {
            if b.path != c.path {
                lemma_bytes_less_transitive(b.path, c.path, a.path);
            }
        } else if b.path == c.path {
            lemma_bytes_less_transitive(c.path, a.path, b.path);
        } else {
            lemma_bytes_less_transitive(a.path, b.path, c.path);
            lemma_bytes_less_transitive(a.path, c.path, a.path);
        }
    }
}

/// Keys that do not precede each other are equal.
pub proof fn lemma_key_less_total(a: SortKey, b: SortKey)
    ensures
        a == b || key_less(a, b) || key_less(b, a),
{
    lemma_bytes_less_total(a.path, b.path);
}

proof fn lemma_with_key_add<A: Arranged>(a: Seq<A::V>, b: Seq<A::V>, key: SortKey)
    ensures
        with_key::<A>(a + b, key) == with_key::<A>(a, key) + with_key::<A>(b, key),
    decreases b.len(),
{
    if b.len() == 0 {
        assert(a + b =~= a);
        assert(with_key::<A>(b, key) =~= Seq::empty());
    } else {
        assert((a + b).drop_last() =~= a + b.drop_last());
        lemma_with_key_add::<A>(a, b.drop_last(), key);
    }
}

proof fn lemma_with_key_absent<A: Arranged>(values: Seq<A::V>, key: SortKey)
    requires
        forall|i: int| 0 <= i < values.len() ==> A::sort_key(#[trigger] values[i]) != key,
    ensures
        with_key::<A>(values, key) == Seq::<A::V>::empty(),
    decreases values.len(),
{
    if values.len() > 0 {
        assert(values.last() == values[values.len() - 1]);
        assert forall|i: int| 0 <= i < values.drop_last().len() implies A::sort_key(
            #[trigger] values.drop_last()[i],
        ) != key by {
            assert(values.drop_last()[i] == values[i]);
        }
        lemma_with_key_absent::<A>(values.drop_last(), key);
    }
}

/// The content of a stack, from the top down.
spec fn from_top<A: View>(stack: Seq<A>) -> Seq<A::V> {
    Seq::new(stack.len(), |i: int| stack[stack.len() - 1 - i]@)
}

/// Turns a list into a stack with its first value on top.
fn stacked<A: View>(values: Vec<A>) -> (r: Vec<A>)
    ensures
        from_top(r@) == views(values@),
{
    let mut values = values;
    let ghost all = values@;
    let mut r: Vec<A> = Vec::new();
    while values.len() > 0
        invariant
            views(all) == views(values@) + from_top(r@),
        decreases values@.len(),
    {
        let ghost before = values@;
        let ghost done = from_top(r@);
        let value = values.pop().unwrap();
        r.push(value);
        proof {
            assert(from_top(r@) =~= seq![value@] + done);
            assert(views(before) =~= views(values@).push(value@));
            assert(views(values@) + from_top(r@) =~= views(before) + done);
        }
    }
    assert(views(values@) + from_top(r@) =~= from_top(r@));
    r
}

/// What is left to do while two ordered lists are merged.
spec fn merging<A: Arranged>(out: Seq<A::V>, left: Seq<A::V>, right: Seq<A::V>, all: Seq<A::V>) -> bool {
    &&& in_order::<A>(out)
    &&& in_order::<A>(left)
    &&& in_order::<A>(right)
    &&& forall|i: int, j: int|
        0 <= i < out.len() && 0 <= j < left.len() ==> !key_less(
            A::sort_key(#[trigger] left[j]),
            A::sort_key(#[trigger] out[i]),
        )
    &&& forall|i: int, j: int|
        0 <= i < out.len() && 0 <= j < right.len() ==> !key_less(
            A::sort_key(#[trigger] right[j]),
            A::sort_key(#[trigger] out[i]),
        )
    &&& (out + left + right).to_multiset() == all.to_multiset()
    &&& forall|key: SortKey|
        #[trigger] with_key::<A>(all, key) == with_key::<A>(out, key) + with_key::<A>(left, key) + with_key::<A>(
            right,
            key,
        )
}

proof fn lemma_with_key_first<A: Arranged>(values: Seq<A::V>, key: SortKey)
    requires
        values.len() > 0,
    ensures
        with_key::<A>(values, key) == with_key::<A>(seq![values[0]], key) + with_key::<A>(values.drop_first(), key),
{
    assert(values =~= seq![values[0]] + values.drop_first());
    lemma_with_key_add::<A>(seq![values[0]], values.drop_first(), key);
}

proof fn lemma_take_left<A: Arranged>(out: Seq<A::V>, left: Seq<A::V>, right: Seq<A::V>, all: Seq<A::V>)
    requires
        merging::<A>(out, left, right, all),
        left.len() > 0,
        right.len() > 0 ==> !key_less(A::sort_key(right[0]), A::sort_key(left[0])),
    ensures
        merging::<A>(out.push(left[0]), left.drop_first(), right, all),
{
    let value = left[0];
    let next = out.push(value);
    let rest = left.drop_first();
    assert(next + rest + right =~= out + left + right);
    assert forall|key: SortKey|
        #[trigger] with_key::<A>(all, key) == with_key::<A>(next, key) + with_key::<A>(rest, key) + with_key::<A>(
            right,
            key,
        ) by {
        assert(next =~= out + seq![value]);
        lemma_with_key_add::<A>(out, seq![value], key);
        lemma_with_key_first::<A>(left, key);
        assert(with_key::<A>(next, key) + with_key::<A>(rest, key) =~= with_key::<A>(out, key) + with_key::<A>(
            left,
            key,
        ));
    }
    assert forall|i: int, j: int| 0 <= i < next.len() && 0 <= j < right.len() implies !key_less(
        A::sort_key(#[trigger] right[j]),
        A::sort_key(#[trigger] next[i]),
    ) by {
        if i == out.len() && j > 0 {
            lemma_key_less_transitive(A::sort_key(value), A::sort_key(right[0]), A::sort_key(right[j]));
        }
    }
}

proof fn lemma_take_right<A: Arranged>(out: Seq<A::V>, left: Seq<A::V>, right: Seq<A::V>, all: Seq<A::V>)
    requires
        merging::<A>(out, left, right, all),
        right.len() > 0,
        left.len() > 0 ==> key_less(A::sort_key(right[0]), A::sort_key(left[0])),
    ensures
        merging::<A>(out.push(right[0]), left, right.drop_first(), all),
{
    let value = right[0];
    let next = out.push(value);
    let rest = right.drop_first();
    assert(next + left + rest =~= (out + seq![value]) + left + rest);
    lemma_same_multiset(out, seq![value], left, rest);
    assert(out + left + right =~= out + left + seq![value] + rest);
    lemma_key_less_transitive(A::sort_key(value), A::sort_key(value), A::sort_key(value));
    assert forall|j: int| 0 <= j < left.len() implies key_less(A::sort_key(value), A::sort_key(#[trigger] left[j])) by {
        lemma_key_less_total(A::sort_key(value), A::sort_key(left[j]));
        if !key_less(A::sort_key(value), A::sort_key(left[j])) {
            if j > 0 {
                lemma_key_less_transitive(A::sort_key(left[0]), A::sort_key(left[j]), A::sort_key(value));
            }
        }
    }
    assert forall|key: SortKey|
        #[trigger] with_key::<A>(all, key) == with_key::<A>(next, key) + with_key::<A>(left, key) + with_key::<A>(
            rest,
            key,
        ) by {
        assert(next =~= out + seq![value]);
        lemma_with_key_add::<A>(out, seq![value], key);
        lemma_with_key_first::<A>(right, key);
        if A::sort_key(value) == key {
            lemma_with_key_absent::<A>(left, key);
        } else {
            assert(with_key::<A>(seq![value], key) =~= Seq::empty()) by {
                lemma_with_key_absent::<A>(seq![value], key);
            }
        }
        assert(with_key::<A>(next, key) + with_key::<A>(left, key) + with_key::<A>(rest, key) =~= with_key::<A>(
            out,
            key,
        ) + with_key::<A>(left, key) + with_key::<A>(right, key));
    }
    assert forall|i: int, j: int| 0 <= i < next.len() && 0 <= j < left.len() implies !key_less(
        A::sort_key(#[trigger] left[j]),
        A::sort_key(#[trigger] next[i]),
    ) by {
        if i == out.len() {
            if key_less(A::sort_key(left[j]), A::sort_key(value)) {
                lemma_key_less_asymmetric(A::sort_key(left[j]), A::sort_key(value));
            }
        }
    }
}

proof fn lemma_key_less_asymmetric(a: SortKey, b: SortKey)
    requires
        key_less(a, b),
    ensures
        !key_less(b, a),
{
    if key_less(b, a) && a.rank == b.rank && a.depth == b.depth {
        lemma_bytes_less_transitive(a.path, b.path, a.path);
        lemma_bytes_less_irreflexive(a.path);
    }
}

proof fn lemma_same_multiset<T>(a: Seq<T>, b: Seq<T>, c: Seq<T>, d: Seq<T>)
    ensures
        (a + b + c + d).to_multiset() == (a + c + b + d).to_multiset(),
{
    broadcast use vstd::seq_lib::lemma_multiset_commutative;

}

/// Merges two ordered lists; of values with the same key those of the first
/// list come first.
fn merged<A: Arranged>(left: Vec<A>, right: Vec<A>) -> (r: Vec<A>)
    requires
        in_order::<A>(views(left@)),
        in_order::<A>(views(right@)),
    ensures
        arrangement_of::<A>(views(left@) + views(right@), views(r@)),
{
    let ghost all = views(left@) + views(right@);
    let mut left = stacked(left);
    let mut right = stacked(right);
    let mut out: Vec<A> = Vec::new();
    proof {
        assert(views(out@) =~= Seq::empty());
        assert(views(out@) + from_top(left@) + from_top(right@) =~= all);
        assert forall|key: SortKey|
            #[trigger] with_key::<A>(all, key) == with_key::<A>(views(out@), key) + with_key::<A>(
                from_top(left@),
                key,
            ) + with_key::<A>(from_top(right@), key) by {
            lemma_with_key_add::<A>(from_top(left@), from_top(right@), key);
            assert(with_key::<A>(views(out@), key) =~= Seq::empty());
        }
    }
    while left.len() > 0 || right.len() > 0
        invariant
            merging::<A>(views(out@), from_top(left@), from_top(right@), all),
        decreases left@.len() + right@.len(),
    {
        let ghost o = views(out@);
        let ghost l = from_top(left@);
        let ghost r = from_top(right@);
        let from_left = if left.len() == 0 {
            false
        } else if right.len() == 0 {
            true
        } else {
            !right[right.len() - 1].comes_before(&left[left.len() - 1])
        };
        if from_left {
            proof {
                lemma_take_left::<A>(o, l, r, all);
            }
            let value = left.pop().unwrap();
            out.push(value);
            assert(views(out@) =~= o.push(l[0]));
            assert(from_top(left@) =~= l.drop_first());
        } else {
            proof {
                lemma_take_right::<A>(o, l, r, all);
            }
            let value = right.pop().unwrap();
            out.push(value);
            assert(views(out@) =~= o.push(r[0]));
            assert(from_top(right@) =~= r.drop_first());
        }
    }
    proof {
        assert(views(out@) + from_top(left@) + from_top(right@) =~= views(out@));
        assert forall|key: SortKey| #[trigger] with_key::<A>(views(out@), key) == with_key::<A>(all, key) by {
            assert(with_key::<A>(all, key) =~= with_key::<A>(views(out@), key));
        }
    }
    out
}

proof fn lemma_arranged_halves<A: Arranged>(
    a: Seq<A::V>,
    b: Seq<A::V>,
    x: Seq<A::V>,
    y: Seq<A::V>,
    out: Seq<A::V>,
)
    requires
        arrangement_of::<A>(a, x),
        arrangement_of::<A>(b, y),
        arrangement_of::<A>(x + y, out),
    ensures
        arrangement_of::<A>(a + b, out),
{
    broadcast use vstd::seq_lib::lemma_multiset_commutative;

    assert forall|key: SortKey| #[trigger] with_key::<A>(out, key) == with_key::<A>(a + b, key) by {
        lemma_with_key_add::<A>(a, b, key);
        lemma_with_key_add::<A>(x, y, key);
        assert(with_key::<A>(x, key) == with_key::<A>(a, key));
        assert(with_key::<A>(y, key) == with_key::<A>(b, key));
        assert(with_key::<A>(out, key) == with_key::<A>(x + y, key));
    }
}

/// Puts the values in their order; values with the same key keep their order.
pub fn arrange<A: Arranged>(values: Vec<A>) -> (r: Vec<A>)
    ensures
        arrangement_of::<A>(views(values@), views(r@)),
    decreases values@.len(),
{
    if values.len() <= 1 {
        return values;
    }
    let ghost all = values@;
    let middle: usize = values.len() / 2;
    let mut left = values;
    let right = left.split_off(middle);
    proof {
        assert(views(all) =~= views(left@) + views(right@));
    }
    let ghost a = views(left@);
    let ghost b = views(right@);
    let left = arrange(left);
    let right = arrange(right);
    let r = merged(left, right);
    proof {
        lemma_arranged_halves::<A>(a, b, views(left@), views(right@), views(r@));
    }
    r
}

/// The sum of a measure over a list.
pub open spec fn total<T>(values: Seq<T>, measure: spec_fn(T) -> nat) -> nat
    decreases values.len(),
{
    if values.len() == 0 {
        0
    } else {
        total(values.drop_last(), measure) + measure(values.last())
    }
}

/// A measure sums up the same over a list that is taken apart.
pub proof fn lemma_total_add<T>(a: Seq<T>, b: Seq<T>, measure: spec_fn(T) -> nat)
    ensures
        total(a + b, measure) == total(a, measure) + total(b, measure),
    decreases b.len(),
{
    if b.len() == 0 {
        assert(a + b =~= a);
    } else {
        assert((a + b).drop_last() =~= a + b.drop_last());
        lemma_total_add(a, b.drop_last(), measure);
    }
}

/// Pushing a value adds its measure.
pub proof fn lemma_total_push<T>(a: Seq<T>, value: T, measure: spec_fn(T) -> nat)
    ensures
        total(a.push(value), measure) == total(a, measure) + measure(value),
{
    assert(a.push(value).drop_last() =~= a);
}

/// The sum of a measure does not depend on the order.
pub proof fn lemma_total_permutation<T>(a: Seq<T>, b: Seq<T>, measure: spec_fn(T) -> nat)
    requires
        a.to_multiset() == b.to_multiset(),
    ensures
        total(a, measure) == total(b, measure),
    decreases a.len(),
{
    broadcast use vstd::seq_lib::group_to_multiset_ensures;

    vstd::seq_lib::to_multiset_len(a);
    vstd::seq_lib::to_multiset_len(b);
    if a.len() > 0 {
        let value = a.last();
        assert(a.contains(value));
        assert(b.to_multiset().count(value) > 0);
        let at = b.index_of(value);
        assert(b.contains(value));
        assert(b[at] == value);
        let rest = b.remove(at);
        assert(a.drop_last() =~= a.remove(a.len() - 1));
        assert(a.drop_last().to_multiset() =~= rest.to_multiset());
        lemma_total_permutation(a.drop_last(), rest, measure);
        assert(rest =~= b.take(at) + b.skip(at + 1));
        lemma_total_add(b.take(at), b.skip(at + 1), measure);
        assert(b =~= b.take(at).push(value) + b.skip(at + 1));
        lemma_total_add(b.take(at).push(value), b.skip(at + 1), measure);
        lemma_total_push(b.take(at), value, measure);
    }
}

/// Values are ordered by their rank first, then by their depth, and last by
/// their path.
pub proof fn law_rank_goes_before_depth_and_path(a: SortKey, b: SortKey)
    ensures
        a.rank < b.rank ==> key_less(a, b) && !key_less(b, a),
        a.rank == b.rank && a.depth < b.depth ==> key_less(a, b) && !key_less(b, a),
        a.rank == b.rank && a.depth == b.depth ==> (key_less(a, b) <==> bytes_less(a.path, b.path)),
{
}

/// A sum over a list is that over its front and what its last value counts.
pub proof fn law_sums_go_value_by_value<T>(values: Seq<T>, value: T, measure: spec_fn(T) -> nat)
    ensures
        total(values.push(value), measure) == total(values, measure) + measure(value),
        total(Seq::<T>::empty(), measure) == 0,
{
    assert(values.push(value).drop_last() =~= values);
}

/// An arrangement holds the same values, each as often, and none behind one that
/// it has to come before.
pub proof fn law_arrangements_are_in_order<A: Arranged>(input: Seq<A::V>, output: Seq<A::V>, i: int, j: int)
    requires
        arrangement_of::<A>(input, output),
        0 <= i < j < output.len(),
    ensures
        output.to_multiset() == input.to_multiset(),
        !key_less(A::sort_key(output[j]), A::sort_key(output[i])),
{
}

/// The views of a list are those of its values, in their order.
pub proof fn law_views_are_in_order<A: View>(values: Seq<A>, i: int)
    requires
        0 <= i < values.len(),
    ensures
        views(values).len() == values.len(),
        views(values)[i] == values[i]@,
{
}

} // verus!
