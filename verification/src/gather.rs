//! Private accumulators and their final sum.
//!
//! Where the pairs or the points of a sum are shared out to workers, each
//! worker adds what it computes to a buffer of its own, with one entry for
//! each particle. When all are done the buffers are added, entry by entry and
//! in the order of the buffers, to the output.

use vstd::prelude::*;
use crate::density::{lemma_sum_of_none, lemma_sum_one_more, sums_to};

verus! {

/// What the buffers hold for particle `a`, in the order of the buffers.
pub open spec fn column<T>(buffers: Seq<Vec<T>>, a: int) -> Seq<T> {
    Seq::new(buffers.len(), |w: int| buffers[w]@[a])
}

/// Whether `after` is `before` with what each of the buffers holds for
/// particle `a` added, one buffer after the other from the first.
pub open spec fn gathered<T, A: Fn(T, T) -> T>(
    plus: &A,
    buffers: Seq<Vec<T>>,
    a: int,
    before: T,
    after: T,
) -> bool {
    sums_to(plus, before, column(buffers, a), after)
}

/// Whether each of the buffers has `count` entries.
pub open spec fn buffers_of<T>(buffers: Seq<Vec<T>>, count: nat) -> bool {
    forall|w: int| 0 <= w < buffers.len() ==> (#[trigger] buffers[w])@.len() == count
}

/// A buffer of `count` entries, each of them `zero`.
pub fn zeroed<T: Copy>(count: usize, zero: T) -> (buffer: Vec<T>)
    ensures
        buffer@.len() == count,
        forall|a: int| 0 <= a < count ==> #[trigger] buffer@[a] == zero,
{
    let mut buffer: Vec<T> = Vec::new();
    let mut a: usize = 0;
    while a < count
        invariant
            a <= count,
            buffer@.len() == a,
            forall|b: int| 0 <= b < a ==> #[trigger] buffer@[b] == zero,
        decreases count - a,
    {
        buffer.push(zero);
        a = a + 1;
    }
    buffer
}

/// Adds to each entry of `output` the entries that the buffers hold for the
/// same particle, one buffer after the other from the first.
pub fn sum_into<T: Copy, A: Fn(T, T) -> T>(buffers: &Vec<Vec<T>>, plus: &A, output: &mut Vec<T>)
    requires
        buffers_of(buffers@, old(output)@.len()),
        forall|a: T, b: T| call_requires(*plus, (a, b)),
    ensures
        final(output)@.len() == old(output)@.len(),
        forall|a: int|
            0 <= a < old(output)@.len() ==> gathered(
                plus,
                buffers@,
                a,
                old(output)@[a],
                #[trigger] final(output)@[a],
            ),
{
    let count = output.len();
    let workers = buffers.len();
    let mut a: usize = 0;
    while a < count
        invariant
            count == old(output)@.len(),
            workers == buffers@.len(),
            a <= count,
            output@.len() == count,
            buffers_of(buffers@, count as nat),
            forall|a: T, b: T| call_requires(*plus, (a, b)),
            forall|b: int| a <= b < count ==> #[trigger] output@[b] == old(output)@[b],
            forall|b: int|
                0 <= b < a ==> gathered(plus, buffers@, b, old(output)@[b], #[trigger] output@[b]),
        decreases count - a,
    {
        let mut total = output[a];
        let ghost start = total;
        let mut w: usize = 0;
        proof {
            lemma_sum_of_none(plus, start);
            assert(column(buffers@, a as int).take(0) =~= Seq::<T>::empty());
        }
        while w < workers
            invariant
                workers == buffers@.len(),
                w <= workers,
                a < count,
                buffers_of(buffers@, count as nat),
                forall|a: T, b: T| call_requires(*plus, (a, b)),
                sums_to(plus, start, column(buffers@, a as int).take(w as int), total),
            decreases workers - w,
        {
            let ghost before = total;
            assert(buffers@[w as int]@.len() == count);
            let term = buffers[w][a];
            total = plus(total, term);
            proof {
                let whole = column(buffers@, a as int);
                lemma_sum_one_more(plus, start, whole.take(w as int), before, term, total);
                assert(whole.take(w as int).push(term) =~= whole.take(w + 1));
            }
            w = w + 1;
        }
        proof {
            let whole = column(buffers@, a as int);
            assert(whole.take(workers as int) =~= whole);
        }
        let ghost entered = output@;
        output[a] = total;
        proof {
            assert forall|b: int| 0 <= b < a + 1 implies gathered(
                plus,
                buffers@,
                b,
                old(output)@[b],
                #[trigger] output@[b],
            ) by {
                if b < a {
                    assert(output@[b] == entered[b]);
                }
            }
        }
        a = a + 1;
    }
}

} // verus!
