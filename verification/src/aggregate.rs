//! The aggregation core: a state machine fed one checker outcome at a time.
//!
//! It stops at the first success, and otherwise holds one error chosen by
//! size-one reservoir sampling, so that after `k` errors each of them is
//! equally likely (probability `1/k`) to be the one held.

use vstd::prelude::*;
use crate::rng::draw_index;
use crate::rng::fresh_rng;

verus! {

/// How many of the outcomes in `s` are errors.
pub open spec fn err_count<T, E>(s: Seq<Result<T, E>>) -> int
    decreases s.len(),
{
    if s.len() == 0 {
        0
    } else {
        err_count(s.drop_last()) + if s.last() is Err {
            1int
        } else {
            0int
        }
    }
}

/// Whether some outcome in `s` is a success.
pub open spec fn has_ok<T, E>(s: Seq<Result<T, E>>) -> bool {
    exists|i: int| 0 <= i < s.len() && (#[trigger] s[i]) is Ok
}

/// The first success in `s`, where there is one.
pub open spec fn first_ok<T, E>(s: Seq<Result<T, E>>) -> Result<T, E>
    decreases s.len(),
{
    if s.len() == 0 {
        arbitrary()
    } else if s.first() is Ok {
        s.first()
    } else {
        first_ok(s.drop_first())
    }
}

/// The outcomes the aggregator is asked to judge: the first `length` of the
/// arrival-ordered stream `s`, or all of `s` if the stream ended sooner.
pub open spec fn seen_prefix<T, E>(s: Seq<Result<T, E>>, length: int) -> Seq<Result<T, E>> {
    if length <= s.len() {
        s.take(length)
    } else {
        s
    }
}

proof fn lemma_err_count_push<T, E>(s: Seq<Result<T, E>>, x: Result<T, E>)
    ensures
        err_count(s.push(x)) == err_count(s) + if x is Err {
            1int
        } else {
            0int
        },
{
    assert(s.push(x).drop_last() =~= s);
}

proof fn lemma_err_count_bounds<T, E>(s: Seq<Result<T, E>>)
    ensures
        0 <= err_count(s) <= s.len(),
    decreases s.len(),
{
    if s.len() > 0 {
        lemma_err_count_bounds(s.drop_last());
    }
}

proof fn lemma_has_ok_push<T, E>(s: Seq<Result<T, E>>, x: Result<T, E>)
    ensures
        has_ok(s.push(x)) == (has_ok(s) || x is Ok),
{
    let p = s.push(x);
    assert(p[s.len() as int] == x);
    if has_ok(s) {
        let i = choose|i: int| 0 <= i < s.len() && (#[trigger] s[i]) is Ok;
        assert(p[i] is Ok);
    }
    if has_ok(p) && !(x is Ok) {
        let i = choose|i: int| 0 <= i < p.len() && (#[trigger] p[i]) is Ok;
        assert(s[i] is Ok);
    }
}

proof fn lemma_all_err_count<T, E>(s: Seq<Result<T, E>>)
    requires
        !has_ok(s),
    ensures
        err_count(s) == s.len(),
    decreases s.len(),
{
    if s.len() > 0 {
        let t = s.drop_last();
        assert(!has_ok(t)) by {
            if has_ok(t) {
                let i = choose|i: int| 0 <= i < t.len() && (#[trigger] t[i]) is Ok;
                assert(s[i] is Ok);
            }
        }
        assert(s.last() is Err) by {
            assert(!((s[s.len() - 1]) is Ok));
        }
        lemma_all_err_count(t);
    }
}

proof fn lemma_first_ok_at<T, E>(s: Seq<Result<T, E>>, i: int)
    requires
        0 <= i < s.len(),
        s[i] is Ok,
        forall|j: int| 0 <= j < i ==> !((#[trigger] s[j]) is Ok),
    ensures
        first_ok(s) == s[i],
    decreases i,
{
    if i == 0 {
        assert(s.first() == s[0]);
    } else {
        assert(!(s.first() is Ok)) by {
            assert(!((s[0]) is Ok));
        }
        let t = s.drop_first();
        assert(forall|j: int| 0 <= j < t.len() ==> #[trigger] t[j] == s[j + 1]);
        lemma_first_ok_at(t, i - 1);
    }
}

/// Where a stream holds a success, its first success is indeed a success.
/// Together with the contract of `aggregate_outcomes`, a run over a stream
/// with at least one success among the consumed outcomes always returns
/// `Some(Ok(_))`, never an error, however many other outcomes failed.
pub proof fn lemma_success_is_never_an_error<T, E>(s: Seq<Result<T, E>>)
    requires
        has_ok(s),
    ensures
        first_ok(s) is Ok,
    decreases s.len(),
{
    let i = choose|i: int| 0 <= i < s.len() && (#[trigger] s[i]) is Ok;
    if !(s.first() is Ok) {
        let t = s.drop_first();
        assert(t[i - 1] == s[i]);
        lemma_success_is_never_an_error(t);
    }
}

/// The aggregator's state between two received outcomes: the candidate
/// result, how many errors have gone into the reservoir, and whether a
/// success already ended the run.
pub struct Aggregator<T, E> {
    /// What would be returned if the stream ended now.
    pub result: Option<Result<T, E>>,
    /// How many error outcomes have been observed.
    pub errors_seen: usize,
    /// Whether a success has been observed; no further outcome is accepted.
    pub done: bool,
    /// The outcomes observed so far, in arrival order.
    pub outcomes: Ghost<Seq<Result<T, E>>>,
}

impl<T, E> Aggregator<T, E> {
    /// What every constructor establishes and every step preserves: the
    /// candidate result is `None` exactly as long as nothing has arrived, it
    /// is the single success as soon as one arrives (and arrival stops
    /// there), and among errors it is always one actually observed.
    pub open spec fn inv(self) -> bool {
        &&& self.errors_seen == err_count(self.outcomes@)
        &&& self.done == has_ok(self.outcomes@)
        &&& if self.done {
            &&& self.outcomes@.len() > 0
            &&& self.outcomes@.last() is Ok
            &&& forall|i: int|
                0 <= i < self.outcomes@.len() - 1 ==> (#[trigger] self.outcomes@[i]) is Err
            &&& self.result == Some(self.outcomes@.last())
        } else if err_count(self.outcomes@) == 0 {
            self.result is None
        } else {
            &&& self.result matches Some(e)
            &&& e is Err
            &&& self.outcomes@.contains(e)
        }
    }

    /// An aggregator that has seen nothing yet.
    pub fn new() -> (a: Aggregator<T, E>)
        ensures
            a.inv(),
            a.outcomes@ == Seq::<Result<T, E>>::empty(),
            a.result is None,
            !a.done,
            a.errors_seen == 0,
    {
        Aggregator { result: None, errors_seen: 0, done: false, outcomes: Ghost(Seq::empty()) }
    }

    /// Records the next error outcome, given the index already drawn for the
    /// reservoir step. The error is the n-th one seen (n = errors_seen + 1,
    /// and `draw` lies below n), and it replaces the held selection exactly
    /// when `draw` is zero — the event a uniform draw gives probability 1/n.
    pub fn observe_error(&mut self, error: E, draw: usize)
        requires
            old(self).inv(),
            !old(self).done,
            old(self).outcomes@.len() < usize::MAX,
            draw <= old(self).errors_seen,
        ensures
            final(self).inv(),
            final(self).outcomes@ == old(self).outcomes@.push(Err::<T, E>(error)),
            !final(self).done,
            final(self).errors_seen == old(self).errors_seen + 1,
            final(self).result == if draw == 0 {
                Some(Err::<T, E>(error))
            } else {
                old(self).result
            },
    {
        proof {
            lemma_err_count_bounds(self.outcomes@);
            lemma_err_count_push(self.outcomes@, Err::<T, E>(error));
            lemma_has_ok_push(self.outcomes@, Err::<T, E>(error));
            broadcast use vstd::seq_lib::lemma_seq_contains_after_push;
        }
        self.errors_seen = self.errors_seen + 1;
        if draw == 0 {
            self.result = Some(Err(error));
        }
        self.outcomes = Ghost(self.outcomes@.push(Err(error)));
    }

    /// Records the next success outcome: it becomes the result, and the run
    /// is over.
    pub fn observe_ok(&mut self, value: T)
        requires
            old(self).inv(),
            !old(self).done,
            old(self).outcomes@.len() < usize::MAX,
        ensures
            final(self).inv(),
            final(self).outcomes@ == old(self).outcomes@.push(Ok::<T, E>(value)),
            final(self).done,
            final(self).result == Some(Ok::<T, E>(value)),
    {
        proof {
            lemma_err_count_push(self.outcomes@, Ok::<T, E>(value));
            lemma_has_ok_push(self.outcomes@, Ok::<T, E>(value));
        }
        self.result = Some(Ok(value));
        self.done = true;
        self.outcomes = Ghost(self.outcomes@.push(Ok(value)));
    }

    /// Feeds one outcome to the aggregator: a success is kept and stops the
    /// run; an error enters the reservoir, replacing the held error with
    /// probability 1/n where n counts the errors seen so far. Whatever the
    /// draw, the held error is always one that was actually observed.
    pub fn observe(&mut self, outcome: Result<T, E>, rng: &mut rand::rngs::ThreadRng) -> (stop:
        bool)
        requires
            old(self).inv(),
            !old(self).done,
            old(self).outcomes@.len() < usize::MAX,
        ensures
            final(self).inv(),
            final(self).outcomes@ == old(self).outcomes@.push(outcome),
            stop == (outcome is Ok),
            final(self).done == (outcome is Ok),
            outcome is Ok ==> final(self).result == Some(outcome),
            outcome is Err ==> final(self).result == Some(outcome) || final(self).result == old(
                self,
            ).result,
    {
        match outcome {
            Ok(value) => {
                self.observe_ok(value);
                true
            },
            Err(error) => {
                proof {
                    lemma_err_count_bounds(self.outcomes@);
                }
                let draw: usize = draw_index(rng, self.errors_seen + 1);
                self.observe_error(error, draw);
                false
            },
        }
    }

    /// The result for the stream observed so far: `None` when nothing
    /// arrived, the first success, or the error the reservoir holds.
    pub fn finish(self) -> (r: Option<Result<T, E>>)
        ensures
            r == self.result,
    {
        self.result
    }
}

/// Runs the whole aggregation over an arrival-ordered stream of outcomes:
/// consume at most `length` of them, stop at the first success, and otherwise
/// keep one of the observed errors, chosen uniformly at random among them.
///
/// The result is `None` exactly when no outcome was consumed; it is the first
/// success among the consumed prefix whenever that prefix holds one; and when
/// the prefix is non-empty and all errors, it is one of those errors.
pub fn aggregate_outcomes<T, E>(length: usize, outcomes: Vec<Result<T, E>>) -> (r: Option<
    Result<T, E>,
>)
    ensures
        ({
            let seen = seen_prefix(outcomes@, length as int);
            &&& (r is None <==> seen.len() == 0)
            &&& has_ok(seen) ==> r == Some(first_ok(seen))
            &&& (!has_ok(seen) && seen.len() > 0) ==> (r matches Some(e) && e is Err
                && seen.contains(e))
        }),
{
    let ghost stream = outcomes@;
    let mut outcomes = outcomes;
    let mut rng = fresh_rng();
    let mut agg = Aggregator::<T, E>::new();
    let n: usize = if length <= outcomes.len() {
        length
    } else {
        outcomes.len()
    };
    let ghost seen = seen_prefix(stream, length as int);
    proof {
        assert(stream.take(stream.len() as int) =~= stream);
        assert(seen =~= stream.take(n as int));
        assert(stream.take(0) =~= Seq::<Result<T, E>>::empty());
    }
    let mut i: usize = 0;
    let mut stopped = false;
    while i < n && !stopped
        invariant
            i <= n,
            n <= stream.len(),
            seen == stream.take(n as int),
            outcomes@ == stream.skip(i as int),
            agg.inv(),
            agg.outcomes@ == stream.take(i as int),
            stopped == agg.done,
            stopped ==> i >= 1,
        decreases n - i,
    {
        proof {
            assert(stream.skip(i as int).len() > 0);
        }
        let outcome = outcomes.remove(0);
        proof {
            assert(stream.skip(i as int)[0] == stream[i as int]);
            assert(stream.skip(i as int).remove(0) =~= stream.skip(i as int + 1));
            assert(stream.take(i as int).push(stream[i as int]) =~= stream.take(i as int + 1));
        }
        stopped = agg.observe(outcome, &mut rng);
        i = i + 1;
    }
    proof {
        if stopped {
            let k = i - 1;
            assert(agg.outcomes@ == stream.take(i as int));
            assert(seen[k] == stream[k]) by {
                assert(seen == stream.take(n as int));
            }
            assert(stream.take(i as int).last() == stream[k]);
            assert(forall|j: int| 0 <= j < k ==> !((#[trigger] seen[j]) is Ok)) by {
                assert(forall|j: int|
                    0 <= j < k ==> (#[trigger] stream.take(i as int)[j]) is Err);
            }
            lemma_first_ok_at(seen, k);
        } else {
            assert(agg.outcomes@ == seen);
            if !has_ok(seen) && seen.len() > 0 {
                lemma_all_err_count(seen);
            }
        }
    }
    agg.finish()
}

} // verus!
