use vstd::prelude::*;

verus! {

/// One operation on a deque.
pub enum Op<T> {
    /// `push_front` with this element.
    PushFront(T),
    /// `push_back` with this element.
    PushBack(T),
    /// `pop_front`.
    PopFront,
    /// `pop_back`.
    PopBack,
    /// `remove` at this index.
    Remove(usize),
}

/// The elements of a deque after one operation on a deque with the elements `s`, and the
/// element that the operation returns. Each case is the contract of the operation it names.
pub open spec fn step<T>(s: Seq<T>, op: Op<T>) -> (Seq<T>, Option<T>) {
    match op {
        Op::PushFront(elem) => (seq![elem] + s, None),
        Op::PushBack(elem) => (s.push(elem), None),
        Op::PopFront => if s.len() > 0 {
            (s.drop_first(), Some(s.first()))
        } else {
            (s, None)
        },
        Op::PopBack => if s.len() > 0 {
            (s.drop_last(), Some(s.last()))
        } else {
            (s, None)
        },
        Op::Remove(index) => if index < s.len() {
            (s.remove(index as int), Some(s[index as int]))
        } else {
            (s, None)
        },
    }
}

/// The elements of a deque after the operations `ops`, one after the other, on a deque with
/// the elements `s`.
pub open spec fn run<T>(s: Seq<T>, ops: Seq<Op<T>>) -> Seq<T>
    decreases ops.len(),
{
    if ops.len() == 0 {
        s
    } else {
        step(run(s, ops.drop_last()), ops.last()).0
    }
}

/// The elements that the operations `ops` return, in the order in which they return them.
pub open spec fn outputs<T>(s: Seq<T>, ops: Seq<Op<T>>) -> Seq<T>
    decreases ops.len(),
{
    if ops.len() == 0 {
        Seq::empty()
    } else {
        let before = outputs(s, ops.drop_last());
        match step(run(s, ops.drop_last()), ops.last()).1 {
            Some(elem) => before.push(elem),
            None => before,
        }
    }
}

/// The elements that the operations `ops` push, in the order in which they push them.
pub open spec fn pushed<T>(ops: Seq<Op<T>>) -> Seq<T>
    decreases ops.len(),
{
    if ops.len() == 0 {
        Seq::empty()
    } else {
        let before = pushed(ops.drop_last());
        match ops.last() {
            Op::PushFront(elem) => before.push(elem),
            Op::PushBack(elem) => before.push(elem),
            _ => before,
        }
    }
}

/// Every operation of `ops` is a `push_back` or a `pop_front`: the deque is used as a queue.
pub open spec fn fifo<T>(ops: Seq<Op<T>>) -> bool {
    forall|i: int| 0 <= i < ops.len() ==> (#[trigger] ops[i] is PushBack) || ops[i] is PopFront
}

/// A `push_back` for each element of `elems`, in their order.
pub open spec fn pushes_back<T>(elems: Seq<T>) -> Seq<Op<T>> {
    Seq::new(elems.len(), |i: int| Op::PushBack(elems[i]))
}

/// A `push_front` for each element of `elems`, in their order.
pub open spec fn pushes_front<T>(elems: Seq<T>) -> Seq<Op<T>> {
    Seq::new(elems.len(), |i: int| Op::PushFront(elems[i]))
}

/// `n` times `pop_back`.
pub open spec fn pops_back<T>(n: nat) -> Seq<Op<T>> {
    Seq::new(n, |i: int| Op::PopBack)
}

/// `n` times `pop_front`.
pub open spec fn pops_front<T>(n: nat) -> Seq<Op<T>> {
    Seq::new(n, |i: int| Op::PopFront)
}

/// A `push_front` of an element of `fronts` and a `push_back` of an element of `backs` in
/// turn, for each place of the two sequences.
pub open spec fn pushes_both<T>(fronts: Seq<T>, backs: Seq<T>) -> Seq<Op<T>> {
    Seq::new(
        2 * fronts.len(),
        |i: int|
            if i % 2 == 0 {
                Op::PushFront(fronts[i / 2])
            } else {
                Op::PushBack(backs[i / 2])
            },
    )
}

/// Running two runs of operations one after the other is running them as one.
pub proof fn lemma_run_append<T>(s: Seq<T>, first: Seq<Op<T>>, second: Seq<Op<T>>)
    ensures
        run(s, first + second) == run(run(s, first), second),
        outputs(s, first + second) == outputs(s, first) + outputs(run(s, first), second),
        pushed(first + second) == pushed(first) + pushed(second),
    decreases second.len(),
{
    if second.len() == 0 {
        assert(first + second =~= first);
        assert(outputs(s, first) + Seq::<T>::empty() =~= outputs(s, first));
        assert(pushed(first) + Seq::<T>::empty() =~= pushed(first));
    } else {
        lemma_run_append(s, first, second.drop_last());
        assert((first + second).drop_last() =~= first + second.drop_last());
        assert((first + second).last() == second.last());
        let mid = run(s, first);
        let before = outputs(mid, second.drop_last());
        match step(run(mid, second.drop_last()), second.last()).1 {
            Some(elem) => {
                assert((outputs(s, first) + before).push(elem) =~= outputs(s, first) + before.push(
                    elem,
                ));
            },
            None => {},
        }
        match second.last() {
            Op::PushFront(elem) => {
                assert((pushed(first) + pushed(second.drop_last())).push(elem) =~= pushed(first)
                    + pushed(second.drop_last()).push(elem));
            },
            Op::PushBack(elem) => {
                assert((pushed(first) + pushed(second.drop_last())).push(elem) =~= pushed(first)
                    + pushed(second.drop_last()).push(elem));
            },
            _ => {},
        }
    }
}

/// Used as a queue, a deque returns what it held and what was pushed, in that order: the
/// elements returned so far, followed by the elements still held, are the elements held at
/// first followed by the elements pushed.
pub proof fn lemma_fifo_order<T>(s: Seq<T>, ops: Seq<Op<T>>)
    requires
        fifo(ops),
    ensures
        outputs(s, ops) + run(s, ops) == s + pushed(ops),
    decreases ops.len(),
{
    if ops.len() == 0 {
        assert(Seq::<T>::empty() + s =~= s + Seq::<T>::empty());
    } else {
        let rest = ops.drop_last();
        assert(fifo(rest)) by {
            assert forall|i: int| 0 <= i < rest.len() implies (#[trigger] rest[i] is PushBack)
                || rest[i] is PopFront by {
                assert(rest[i] == ops[i]);
            }
        }
        lemma_fifo_order(s, rest);
        let held = run(s, rest);
        let out = outputs(s, rest);
        assert(ops[ops.len() - 1] is PushBack || ops[ops.len() - 1] is PopFront);
        match ops.last() {
            Op::PushBack(elem) => {
                assert(out + held.push(elem) =~= (out + held).push(elem));
                assert(s + pushed(rest).push(elem) =~= (s + pushed(rest)).push(elem));
            },
            Op::PopFront => {
                if held.len() > 0 {
                    assert(out.push(held.first()) + held.drop_first() =~= out + held);
                }
            },
            _ => {},
        }
    }
}

/// The number of elements in a deque is the number it held at first, plus the number of
/// elements pushed, minus the number of elements returned.
pub proof fn lemma_length<T>(s: Seq<T>, ops: Seq<Op<T>>)
    ensures
        run(s, ops).len() == s.len() + pushed(ops).len() - outputs(s, ops).len(),
    decreases ops.len(),
{
    if ops.len() > 0 {
        lemma_length(s, ops.drop_last());
    }
}

/// Pushing elements at the back adds them at the back, in their order, and returns nothing.
pub proof fn lemma_pushes_back<T>(s: Seq<T>, elems: Seq<T>)
    ensures
        run(s, pushes_back(elems)) == s + elems,
        outputs(s, pushes_back(elems)) == Seq::<T>::empty(),
    decreases elems.len(),
{
    let ops = pushes_back(elems);
    if elems.len() == 0 {
        assert(s + elems =~= s);
    } else {
        lemma_pushes_back(s, elems.drop_last());
        assert(ops.drop_last() =~= pushes_back(elems.drop_last()));
        assert((s + elems.drop_last()).push(elems.last()) =~= s + elems);
    }
}

/// Pushing elements at the front adds them at the front, the last pushed first, and returns
/// nothing.
pub proof fn lemma_pushes_front<T>(s: Seq<T>, elems: Seq<T>)
    ensures
        run(s, pushes_front(elems)) == elems.reverse() + s,
        outputs(s, pushes_front(elems)) == Seq::<T>::empty(),
    decreases elems.len(),
{
    let ops = pushes_front(elems);
    if elems.len() == 0 {
        assert(elems.reverse() + s =~= s);
    } else {
        lemma_pushes_front(s, elems.drop_last());
        assert(ops.drop_last() =~= pushes_front(elems.drop_last()));
        assert(seq![elems.last()] + (elems.drop_last().reverse() + s) =~= elems.reverse() + s);
    }
}

/// Popping `n` elements at the back returns the last `n` elements, the last one first, and
/// leaves the others.
pub proof fn lemma_pops_back<T>(s: Seq<T>, n: nat)
    requires
        n <= s.len(),
    ensures
        run(s, pops_back::<T>(n)) == s.take(s.len() - n),
        outputs(s, pops_back::<T>(n)) == s.skip(s.len() - n).reverse(),
    decreases n,
{
    let ops = pops_back::<T>(n);
    if n == 0 {
        assert(s.take(s.len() as int) =~= s);
        assert(s.skip(s.len() as int).reverse() =~= Seq::<T>::empty());
    } else {
        lemma_pops_back(s, (n - 1) as nat);
        assert(ops.drop_last() =~= pops_back::<T>((n - 1) as nat));
        let held = s.take(s.len() - (n - 1));
        assert(held.drop_last() =~= s.take(s.len() - n));
        assert(s.skip(s.len() - (n - 1)).reverse().push(held.last()) =~= s.skip(
            s.len() - n,
        ).reverse());
    }
}

/// Popping `n` elements at the front returns the first `n` elements in their order, and
/// leaves the others.
pub proof fn lemma_pops_front<T>(s: Seq<T>, n: nat)
    requires
        n <= s.len(),
    ensures
        run(s, pops_front::<T>(n)) == s.skip(n as int),
        outputs(s, pops_front::<T>(n)) == s.take(n as int),
    decreases n,
{
    let ops = pops_front::<T>(n);
    if n == 0 {
        assert(s.skip(0) =~= s);
        assert(s.take(0) =~= Seq::<T>::empty());
    } else {
        lemma_pops_front(s, (n - 1) as nat);
        assert(ops.drop_last() =~= pops_front::<T>((n - 1) as nat));
        let held = s.skip(n - 1);
        assert(held.drop_first() =~= s.skip(n as int));
        assert(s.take(n - 1).push(held.first()) =~= s.take(n as int));
    }
}

/// Elements that are pushed at the back and then popped at the front come out in the order
/// in which they went in, after the elements that the deque held, and leave it empty.
pub proof fn lemma_round_trip_fifo<T>(s: Seq<T>, elems: Seq<T>)
    ensures
        run(s, pushes_back(elems) + pops_front::<T>(s.len() + elems.len()))
            == Seq::<T>::empty(),
        outputs(s, pushes_back(elems) + pops_front::<T>(s.len() + elems.len())) == s + elems,
{
    let n = s.len() + elems.len();
    lemma_run_append(s, pushes_back(elems), pops_front::<T>(n));
    lemma_pushes_back(s, elems);
    lemma_pops_front(s + elems, n);
    assert((s + elems).skip(n as int) =~= Seq::<T>::empty());
    assert((s + elems).take(n as int) =~= s + elems);
    assert(Seq::<T>::empty() + (s + elems) =~= s + elems);
}

/// Elements that are pushed at the back and then popped at the back come out in the
/// reverse of the order in which they went in, and leave the deque as it was.
pub proof fn lemma_round_trip_lifo_back<T>(s: Seq<T>, elems: Seq<T>)
    ensures
        run(s, pushes_back(elems) + pops_back::<T>(elems.len())) == s,
        outputs(s, pushes_back(elems) + pops_back::<T>(elems.len())) == elems.reverse(),
{
    let n = elems.len();
    lemma_run_append(s, pushes_back(elems), pops_back::<T>(n));
    lemma_pushes_back(s, elems);
    lemma_pops_back(s + elems, n);
    assert((s + elems).take(s.len() as int) =~= s);
    assert((s + elems).skip(s.len() as int) =~= elems);
    assert(Seq::<T>::empty() + elems.reverse() =~= elems.reverse());
}

/// Elements that are pushed at the front and then popped at the front come out in the
/// reverse of the order in which they went in, and leave the deque as it was.
pub proof fn lemma_round_trip_lifo_front<T>(s: Seq<T>, elems: Seq<T>)
    ensures
        run(s, pushes_front(elems) + pops_front::<T>(elems.len())) == s,
        outputs(s, pushes_front(elems) + pops_front::<T>(elems.len())) == elems.reverse(),
{
    let n = elems.len();
    lemma_run_append(s, pushes_front(elems), pops_front::<T>(n));
    lemma_pushes_front(s, elems);
    lemma_pops_front(elems.reverse() + s, n);
    assert((elems.reverse() + s).skip(n as int) =~= s);
    assert((elems.reverse() + s).take(n as int) =~= elems.reverse());
    assert(Seq::<T>::empty() + elems.reverse() =~= elems.reverse());
}

/// Popping as many elements as a deque holds, at either end, leaves it empty.
pub proof fn lemma_drained<T>(s: Seq<T>)
    ensures
        run(s, pops_front::<T>(s.len())) == Seq::<T>::empty(),
        outputs(s, pops_front::<T>(s.len())) == s,
        run(s, pops_back::<T>(s.len())) == Seq::<T>::empty(),
        outputs(s, pops_back::<T>(s.len())) == s.reverse(),
{
    lemma_pops_front(s, s.len());
    lemma_pops_back(s, s.len());
    assert(s.skip(s.len() as int) =~= Seq::<T>::empty());
    assert(s.take(s.len() as int) =~= s);
    assert(s.take(0) =~= Seq::<T>::empty());
    assert(s.skip(0) =~= s);
}

/// Pushing the elements of `fronts` at the front and those of `backs` at the back in turn
/// puts the first ones before what the deque held, the last pushed first, and the second
/// ones after it, in their order.
pub proof fn lemma_pushes_both<T>(s: Seq<T>, fronts: Seq<T>, backs: Seq<T>)
    requires
        fronts.len() == backs.len(),
    ensures
        run(s, pushes_both(fronts, backs)) == fronts.reverse() + s + backs,
        outputs(s, pushes_both(fronts, backs)) == Seq::<T>::empty(),
    decreases fronts.len(),
{
    let ops = pushes_both(fronts, backs);
    if fronts.len() == 0 {
        assert(fronts.reverse() + s + backs =~= s);
    } else {
        let f = fronts.drop_last();
        let b = backs.drop_last();
        lemma_pushes_both(s, f, b);
        let once = ops.drop_last();
        assert(ops.len() == 2 * fronts.len());
        assert(once.len() == ops.len() - 1);
        assert(once.drop_last() =~= pushes_both(f, b));
        assert(ops.last() == Op::PushBack(backs.last()));
        assert(once.last() == Op::PushFront(fronts.last()));
        let held = f.reverse() + s + b;
        assert(run(s, once) == seq![fronts.last()] + held);
        assert(outputs(s, once) == outputs(s, once.drop_last()));
        assert(outputs(s, ops) == outputs(s, once));
        assert((seq![fronts.last()] + held).push(backs.last()) =~= fronts.reverse() + s + backs);
    }
}

/// After the elements of `fronts` went in at the front and those of `backs` at the back in
/// turn, popping at the front returns those of `fronts`, the last pushed first, and popping
/// at the back then returns those of `backs`, the last pushed first; the deque is empty
/// afterwards.
pub proof fn lemma_symmetry<T>(fronts: Seq<T>, backs: Seq<T>)
    requires
        fronts.len() == backs.len(),
    ensures
        run(
            Seq::<T>::empty(),
            pushes_both(fronts, backs) + pops_front::<T>(fronts.len()) + pops_back::<T>(
                backs.len(),
            ),
        ) == Seq::<T>::empty(),
        outputs(
            Seq::<T>::empty(),
            pushes_both(fronts, backs) + pops_front::<T>(fronts.len()) + pops_back::<T>(
                backs.len(),
            ),
        ) == fronts.reverse() + backs.reverse(),
{
    let empty = Seq::<T>::empty();
    let n = fronts.len();
    let pushes = pushes_both(fronts, backs);
    lemma_pushes_both(empty, fronts, backs);
    let held = fronts.reverse() + empty + backs;
    lemma_run_append(empty, pushes, pops_front::<T>(n));
    lemma_pops_front(held, n);
    assert(held.skip(n as int) =~= backs);
    assert(held.take(n as int) =~= fronts.reverse());
    lemma_run_append(empty, pushes + pops_front::<T>(n), pops_back::<T>(n));
    lemma_pops_back(backs, n);
    assert(backs.take(0) =~= empty);
    assert(backs.skip(0) =~= backs);
    assert(empty + fronts.reverse() =~= fronts.reverse());
}

} // verus!
