//! The model of a bounded log that keeps only its most recent lines.

use vstd::prelude::*;

verus! {

/// The lines after one more line `x` arrived at a log that keeps at most `max` lines:
/// a log that keeps none stays empty; a full log drops its oldest line.
pub open spec fn keep_recent<T>(lines: Seq<T>, max: nat, x: T) -> Seq<T> {
    if max == 0 {
        lines
    } else if lines.len() >= max {
        lines.drop_first().push(x)
    } else {
        lines.push(x)
    }
}

/// The last `max` of all the lines that arrived, in the order they arrived.
pub open spec fn last_n<T>(all: Seq<T>, max: nat) -> Seq<T> {
    if all.len() <= max {
        all
    } else {
        all.skip(all.len() - max)
    }
}

/// A bounded log holds exactly the `max` most recent lines: if it held the last `max`
/// of the lines so far, after one more line it holds the last `max` of them all.
pub proof fn lemma_keep_recent_is_last_n<T>(all: Seq<T>, max: nat, x: T)
    ensures
        keep_recent(last_n(all, max), max, x) == last_n(all.push(x), max),
{
    let n = all.len();
    if max == 0 {
        if n > 0 {
            assert(all.skip(n as int) =~= Seq::<T>::empty());
        }
        assert(all.push(x).skip(n + 1 as int) =~= Seq::<T>::empty());
        if n == 0 {
            assert(all =~= Seq::<T>::empty());
        }
    } else if n < max {
    } else {
        assert(all.skip(n - max).drop_first().push(x) =~= all.push(x).skip(n + 1 - max as int));
    }
}

/// An empty log holds the last lines of nothing.
pub proof fn lemma_last_n_empty<T>(max: nat)
    ensures
        last_n(Seq::<T>::empty(), max) == Seq::<T>::empty(),
{
}

/// The lines after one more line arrived at a log that held at most `max`: the last
/// `k` of the old lines and the new one, where `k` is one more than it held, capped at
/// `max`; one line is dropped exactly when the log keeps none or was full; and the new
/// line comes last unless the log keeps none.
pub proof fn lemma_keep_recent_shape<T>(lines: Seq<T>, max: nat, x: T)
    requires
        lines.len() <= max,
    ensures
        ({
            let k: int = if lines.len() + 1 < max { lines.len() + 1 as int } else { max as int };
            &&& keep_recent(lines, max, x) == lines.push(x).skip(lines.len() + 1 - k)
            &&& keep_recent(lines, max, x).len() == k
            &&& lines.len() + 1 - k == (if max == 0 || lines.len() == max { 1int } else { 0int })
            &&& (max > 0 ==> keep_recent(lines, max, x).last() == x)
        }),
{
    if max == 0 {
        assert(lines =~= Seq::<T>::empty());
        assert(lines.push(x).skip(1) =~= Seq::<T>::empty());
    } else if lines.len() == max {
        assert(lines.drop_first().push(x) =~= lines.push(x).skip(1));
    } else {
        assert(lines.push(x).skip(0) =~= lines.push(x));
    }
}

} // verus!
