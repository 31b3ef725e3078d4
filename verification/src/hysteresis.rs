//! Laws of the fall/rise hysteresis state machine.
//!
//! These proof functions characterise runs of the state machine over whole
//! probe-result sequences: a health flip from `Success` to `Failure` happens
//! exactly when `fall` consecutive failures have accumulated, a flip from
//! `Failure` to `Success` exactly when `rise` consecutive successes have, and
//! results that agree with the current state never flip it.

use vstd::prelude::*;

use crate::service::{spec_transition, ServiceState};

verus! {

/// The state reached after feeding every result in `results` (oldest first)
/// through the transition function, starting from `s0`.
pub open spec fn spec_run(s0: ServiceState, results: Seq<bool>, fall: u32, rise: u32) -> ServiceState
    decreases results.len(),
{
    if results.len() == 0 {
        s0
    } else {
        spec_transition(spec_run(s0, results.drop_last(), fall, rise), results.last(), fall, rise).0
    }
}

/// Whether processing `results[i]` reports a transition, in the run over
/// `results` from `s0`.
pub open spec fn transitioned_at(
    s0: ServiceState,
    results: Seq<bool>,
    fall: u32,
    rise: u32,
    i: int,
) -> bool
    recommends
        0 <= i < results.len(),
{
    spec_transition(spec_run(s0, results.take(i), fall, rise), results[i], fall, rise).1
}

/// A down-flip at step `i`: the service is `Success` before the step and the
/// step reports a transition.
pub open spec fn down_transition_at(
    s0: ServiceState,
    results: Seq<bool>,
    fall: u32,
    rise: u32,
    i: int,
) -> bool
    recommends
        0 <= i < results.len(),
{
    spec_run(s0, results.take(i), fall, rise) is Success && transitioned_at(
        s0,
        results,
        fall,
        rise,
        i,
    )
}

/// An up-flip at step `i`: the service is `Failure` before the step and the
/// step reports a transition.
pub open spec fn up_transition_at(
    s0: ServiceState,
    results: Seq<bool>,
    fall: u32,
    rise: u32,
    i: int,
) -> bool
    recommends
        0 <= i < results.len(),
{
    spec_run(s0, results.take(i), fall, rise) is Failure && transitioned_at(
        s0,
        results,
        fall,
        rise,
        i,
    )
}

/// How many results equal to `val` stand consecutively at the end of
/// `results`.
pub open spec fn trailing_count(results: Seq<bool>, val: bool) -> nat
    decreases results.len(),
{
    if results.len() == 0 {
        0
    } else if results.last() == val {
        1 + trailing_count(results.drop_last(), val)
    } else {
        0
    }
}

/// The meaning of the counters: while `Success`, the counter equals the
/// number of consecutive failures just seen (and stays below `fall`); while
/// `Failure`, it equals the number of consecutive successes just seen (and
/// stays below `rise`).
///
/// The startup state `Failure { nb_of_success: rise - 1 }` deliberately
/// breaks this reading — its counter pretends `rise - 1` successes have been
/// seen — which is exactly the startup fast path.
pub open spec fn counters_match(
    s: ServiceState,
    results: Seq<bool>,
    fall: u32,
    rise: u32,
) -> bool {
    match s {
        ServiceState::Failure { nb_of_success } => nb_of_success == trailing_count(results, true)
            && nb_of_success < rise,
        ServiceState::Success { nb_of_failure } => nb_of_failure == trailing_count(results, false)
            && nb_of_failure < fall,
    }
}

/// Runs preserve the meaning of the counters: starting from a state whose
/// counter is consistent with an empty history (`Success { 0 }` or
/// `Failure { 0 }`), after any result sequence the counter counts exactly
/// the trailing run of opposite results.
pub proof fn lemma_counters_match(s0: ServiceState, results: Seq<bool>, fall: u32, rise: u32)
    requires
        fall >= 1,
        rise >= 1,
        counters_match(s0, Seq::<bool>::empty(), fall, rise),
    ensures
        counters_match(spec_run(s0, results, fall, rise), results, fall, rise),
    decreases results.len(),
{
    if results.len() > 0 {
        lemma_counters_match(s0, results.drop_last(), fall, rise);
    }
}

/// A `Success -> Failure` transition occurs at step `i` if and only if that
/// step is the `fall`-th consecutive failure: the flip happens exactly when
/// the trailing run of failures reaches `fall`, and only while the service
/// stands in `Success`.
pub proof fn lemma_down_transition_iff(
    s0: ServiceState,
    results: Seq<bool>,
    fall: u32,
    rise: u32,
    i: int,
)
    requires
        fall >= 1,
        rise >= 1,
        counters_match(s0, Seq::<bool>::empty(), fall, rise),
        0 <= i < results.len(),
    ensures
        down_transition_at(s0, results, fall, rise, i) <==> (spec_run(
            s0,
            results.take(i),
            fall,
            rise,
        ) is Success && results[i] == false && trailing_count(results.take(i + 1), false) == fall),
{
    lemma_counters_match(s0, results.take(i), fall, rise);
    assert(results.take(i + 1).drop_last() =~= results.take(i));
    assert(results.take(i + 1).last() == results[i]);
}

/// A `Failure -> Success` transition occurs at step `i` if and only if that
/// step is the `rise`-th consecutive success, and only while the service
/// stands in `Failure`.  (A freshly initialised service does not satisfy the
/// premise on `s0`: its startup fast path is covered by
/// [`lemma_startup_fast_path`].)
pub proof fn lemma_up_transition_iff(
    s0: ServiceState,
    results: Seq<bool>,
    fall: u32,
    rise: u32,
    i: int,
)
    requires
        fall >= 1,
        rise >= 1,
        counters_match(s0, Seq::<bool>::empty(), fall, rise),
        0 <= i < results.len(),
    ensures
        up_transition_at(s0, results, fall, rise, i) <==> (spec_run(
            s0,
            results.take(i),
            fall,
            rise,
        ) is Failure && results[i] == true && trailing_count(results.take(i + 1), true) == rise),
{
    lemma_counters_match(s0, results.take(i), fall, rise);
    assert(results.take(i + 1).drop_last() =~= results.take(i));
    assert(results.take(i + 1).last() == results[i]);
}

/// The counter reading for a run that began in the startup state
/// `Failure { rise - 1 }`: as [`counters_match`], except that while no
/// result has been processed the `Failure` counter still holds its startup
/// pretence of `rise - 1` successes.
pub open spec fn counters_match_startup(
    s: ServiceState,
    results: Seq<bool>,
    fall: u32,
    rise: u32,
) -> bool {
    match s {
        ServiceState::Failure { nb_of_success } => nb_of_success < rise && (nb_of_success
            == trailing_count(results, true) || (results.len() == 0 && nb_of_success == rise - 1)),
        ServiceState::Success { nb_of_failure } => nb_of_failure == trailing_count(results, false)
            && nb_of_failure < fall,
    }
}

/// Runs from the startup state preserve that reading.
pub proof fn lemma_counters_match_startup(results: Seq<bool>, fall: u32, rise: u32)
    requires
        fall >= 1,
        rise >= 1,
    ensures
        counters_match_startup(
            spec_run(ServiceState::spec_initial(rise), results, fall, rise),
            results,
            fall,
            rise,
        ),
    decreases results.len(),
{
    if results.len() > 0 {
        lemma_counters_match_startup(results.drop_last(), fall, rise);
    }
}

/// The down law holds of a freshly initialised service as it stands: a
/// `Success -> Failure` transition occurs at step `i` if and only if that
/// step is the `fall`-th consecutive failure, while the service stands in
/// `Success`.
pub proof fn lemma_down_transition_iff_from_startup(
    results: Seq<bool>,
    fall: u32,
    rise: u32,
    i: int,
)
    requires
        fall >= 1,
        rise >= 1,
        0 <= i < results.len(),
    ensures
        ({
            let s0 = ServiceState::spec_initial(rise);
            down_transition_at(s0, results, fall, rise, i) <==> (spec_run(
                s0,
                results.take(i),
                fall,
                rise,
            ) is Success && results[i] == false && trailing_count(results.take(i + 1), false)
                == fall)
        }),
{
    lemma_counters_match_startup(results.take(i), fall, rise);
    assert(results.take(i + 1).drop_last() =~= results.take(i));
    assert(results.take(i + 1).last() == results[i]);
}

/// The up law for a freshly initialised service, startup fast path
/// included: a `Failure -> Success` transition occurs at step `i` if and
/// only if that step is a success and either it is the very first result —
/// the fast path, whatever `rise` says — or it completes `rise` consecutive
/// successes.
pub proof fn lemma_up_transition_iff_from_startup(results: Seq<bool>, fall: u32, rise: u32, i: int)
    requires
        fall >= 1,
        rise >= 1,
        0 <= i < results.len(),
    ensures
        ({
            let s0 = ServiceState::spec_initial(rise);
            up_transition_at(s0, results, fall, rise, i) <==> (spec_run(
                s0,
                results.take(i),
                fall,
                rise,
            ) is Failure && results[i] == true && (i == 0 || trailing_count(
                results.take(i + 1),
                true,
            ) == rise))
        }),
{
    lemma_counters_match_startup(results.take(i), fall, rise);
    assert(results.take(i + 1).drop_last() =~= results.take(i));
    assert(results.take(i + 1).last() == results[i]);
    if i == 0 {
        assert(results.take(0) =~= Seq::<bool>::empty());
    }
}

/// Runs compose: feeding `a` and then `b` is one run over `a + b`.
///
/// Together with [`lemma_startup_fast_path`] this carries the transition
/// laws over to a freshly initialised service: its first success leaves it
/// in `Success { 0 }`, a state whose counter is consistent with an empty
/// history, and from there [`lemma_down_transition_iff`] and
/// [`lemma_up_transition_iff`] govern the rest of the run.
pub proof fn lemma_run_append(s0: ServiceState, a: Seq<bool>, b: Seq<bool>, fall: u32, rise: u32)
    ensures
        spec_run(s0, a + b, fall, rise) == spec_run(spec_run(s0, a, fall, rise), b, fall, rise),
    decreases b.len(),
{
    if b.len() == 0 {
        assert(a + b =~= a);
    } else {
        lemma_run_append(s0, a, b.drop_last(), fall, rise);
        assert((a + b).drop_last() =~= a + b.drop_last());
        assert((a + b).last() == b.last());
    }
}

/// Startup fast path: a freshly initialised service transitions to `Success`
/// on its very first successful probe, whatever `rise` was configured.
pub proof fn lemma_startup_fast_path(fall: u32, rise: u32)
    requires
        rise >= 1,
    ensures
        spec_transition(ServiceState::spec_initial(rise), true, fall, rise) == (
            ServiceState::Success { nb_of_failure: 0u32 },
            true,
        ),
{
}

/// Idempotence, up side: successes while already `Success` keep the service
/// in `Success` and never report a transition.
pub proof fn lemma_repeated_success_no_transition(
    s0: ServiceState,
    results: Seq<bool>,
    fall: u32,
    rise: u32,
)
    requires
        s0 is Success,
        forall|j: int| 0 <= j < results.len() ==> results[j] == true,
    ensures
        forall|i: int|
            0 <= i <= results.len() ==> spec_run(s0, #[trigger] results.take(i), fall, rise)
                is Success,
        forall|i: int|
            0 <= i < results.len() ==> !#[trigger] transitioned_at(s0, results, fall, rise, i),
    decreases results.len(),
{
    assert forall|i: int| 0 <= i <= results.len() implies spec_run(
        s0,
        #[trigger] results.take(i),
        fall,
        rise,
    ) is Success by {
        lemma_prefix_stays(s0, results, fall, rise, i, true);
    }
}

/// Idempotence, down side: failures while already `Failure` keep the service
/// in `Failure` and never report a transition.
pub proof fn lemma_repeated_failure_no_transition(
    s0: ServiceState,
    results: Seq<bool>,
    fall: u32,
    rise: u32,
)
    requires
        s0 is Failure,
        forall|j: int| 0 <= j < results.len() ==> results[j] == false,
    ensures
        forall|i: int|
            0 <= i <= results.len() ==> spec_run(s0, #[trigger] results.take(i), fall, rise)
                is Failure,
        forall|i: int|
            0 <= i < results.len() ==> !#[trigger] transitioned_at(s0, results, fall, rise, i),
{
    assert forall|i: int| 0 <= i <= results.len() implies spec_run(
        s0,
        #[trigger] results.take(i),
        fall,
        rise,
    ) is Failure by {
        lemma_prefix_stays(s0, results, fall, rise, i, false);
    }
}

/// Helper: a run over results that all agree with the current variant stays
/// in that variant.
proof fn lemma_prefix_stays(
    s0: ServiceState,
    results: Seq<bool>,
    fall: u32,
    rise: u32,
    i: int,
    val: bool,
)
    requires
        val ==> s0 is Success,
        !val ==> s0 is Failure,
        forall|j: int| 0 <= j < results.len() ==> results[j] == val,
        0 <= i <= results.len(),
    ensures
        val ==> spec_run(s0, results.take(i), fall, rise) is Success,
        !val ==> spec_run(s0, results.take(i), fall, rise) is Failure,
    decreases i,
{
    if i > 0 {
        lemma_prefix_stays(s0, results, fall, rise, i - 1, val);
        assert(results.take(i).drop_last() =~= results.take(i - 1));
        assert(results.take(i).last() == results[i - 1]);
    }
}

/// Boundary, `fall = 1`: the first failure from `Success` flips the service
/// down immediately.
pub proof fn lemma_fall_one_immediate(s: ServiceState, rise: u32)
    requires
        s is Success,
    ensures
        spec_transition(s, false, 1, rise) == (ServiceState::Failure { nb_of_success: 0u32 }, true),
{
}

/// Boundary, `rise = 1`: the first success from `Failure` flips the service
/// up immediately.
pub proof fn lemma_rise_one_immediate(s: ServiceState, fall: u32)
    requires
        s is Failure,
    ensures
        spec_transition(s, true, fall, 1) == (ServiceState::Success { nb_of_failure: 0u32 }, true),
{
}

} // verus!
