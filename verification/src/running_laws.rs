//! What the calls on a running router do, said of their arguments and results.
use vstd::prelude::*;

use crate::chunk_queue::{Chunk, ChunkQueue, Stamped};
use crate::config::Duration;
use crate::error::Error;
use crate::event_loop::{next_action, LoopAction, LoopEvent};
use crate::router::Router;
use crate::routing::Hop;
use crate::routing_laws::shares_prefix;
use crate::running::{InboundOutcome, Processed, PushOutcome};

verus! {

/// A span of time as a number of nanoseconds.
pub open spec fn ns(d: Duration) -> int {
    d.secs * 1_000_000_000 + d.subsec_nanos
}

/// A span of time is written with less than a second of nanoseconds.
pub open spec fn is_proper(d: Duration) -> bool {
    d.subsec_nanos < 1_000_000_000
}

/// The router is the same but for its queue, which keeps its bound.
pub open spec fn only_queue_changed<P, F>(before: Router<P, F>, after: Router<P, F>) -> bool {
    &&& after == (Router { queue: after.queue, ..before })
    &&& after.queue.max_size == before.queue.max_size
}

/// A router that is at rest starts, and then runs with both channels open. One that runs is refused and
/// left alone.
pub proof fn start_takes_a_router_at_rest<P, F>(r: &mut Router<P, F>, res: Result<(), Error>)
    requires
        call_ensures(Router::<P, F>::start, (r,), res),
    ensures
        res is Ok <==> !old(r).done,
        res is Err ==> res == Err::<(), Error>(Error::RouterAlreadyStarted),
        res is Err ==> *final(r) == *old(r),
        res is Ok ==> final(r).done && final(r).push_ch,
        *final(r) == (Router { done: final(r).done, push_ch: final(r).push_ch, ..*old(r) }),
{
}

/// A router that runs stops, and then has both channels closed. One at rest is refused and left alone.
pub proof fn stop_takes_a_running_router<P, F>(r: &mut Router<P, F>, res: Result<(), Error>)
    requires
        call_ensures(Router::<P, F>::stop, (r,), res),
    ensures
        res is Ok <==> old(r).done,
        res is Err ==> res == Err::<(), Error>(Error::RouterAlreadyStopped),
        res is Err ==> *final(r) == *old(r),
        res is Ok ==> !final(r).done && !final(r).push_ch,
        *final(r) == (Router { done: final(r).done, push_ch: final(r).push_ch, ..*old(r) }),
{
}

/// A chunk was taken in, or lost: it is lost where the router is at rest, and where the queue has a
/// bound and has reached it. Else it waits behind all others, stamped with the time.
pub open spec fn taken_in<P, F>(
    before: Router<P, F>,
    after: Router<P, F>,
    chunk: Chunk<P>,
    now: Duration,
    res: PushOutcome,
) -> bool {
    &&& res is NotRunning <==> !before.done
    &&& res is QueueFull <==> before.done && 0 < before.queue.max_size
        <= before.queue.chunks@.len()
    &&& res matches PushOutcome::Queued { wake } ==> {
        &&& wake == before.push_ch
        &&& after.queue.chunks@.len() == before.queue.chunks@.len() + 1
        &&& after.queue.chunks@.last().timestamp == now
        &&& after.queue.chunks@.last().chunk == chunk
        &&& after.queue.chunks@.drop_last() == before.queue.chunks@
    }
    &&& res !is Queued ==> after.queue.chunks@ == before.queue.chunks@
    &&& only_queue_changed(before, after)
}

/// A running router takes in each chunk until its queue is full.
pub proof fn running_router_takes_chunks_until_full<P, F>(
    r: &mut Router<P, F>,
    chunk: Chunk<P>,
    now: Duration,
    res: PushOutcome,
)
    requires
        call_ensures(Router::<P, F>::push, (r, chunk, now), res),
    ensures
        taken_in(*old(r), *final(r), chunk, now, res),
        old(r).done && old(r).queue.max_size == 0 ==> res is Queued,
        old(r).done && old(r).queue.chunks@.len() < old(r).queue.max_size ==> res is Queued,
{
    if res is Queued {
        assert(final(r).queue.chunks@.drop_last() =~= old(r).queue.chunks@);
    }
}

/// A chunk from the parent is pushed where the translation made something of it, and is lost else.
pub proof fn inbound_chunk_is_pushed<P, F, E>(
    r: &mut Router<P, F>,
    translated: Result<Option<Chunk<P>>, E>,
    now: Duration,
    res: InboundOutcome<E>,
)
    requires
        call_ensures(Router::<P, F>::on_inbound_chunk::<E>, (r, translated, now), res),
    ensures
        res is Pushed <==> (translated matches Ok(made) && made is Some),
        res is Dropped <==> (translated matches Ok(made) && made is None),
        translated matches Ok(Some(chunk)) ==> (res matches InboundOutcome::Pushed(outcome)
            && taken_in(*old(r), *final(r), chunk, now, outcome)),
        translated matches Err(err) ==> res == InboundOutcome::NatFailed(err),
        res !is Pushed ==> *final(r) == *old(r),
{
    if let Ok(Some(chunk)) = translated {
        let outcome = res->Pushed_0;
        if outcome is Queued {
            assert(final(r).queue.chunks@.drop_last() =~= old(r).queue.chunks@);
        }
    }
}

/// A chunk from a child is pushed where the child's translation made something of it, and is lost else.
pub proof fn outbound_chunk_is_pushed<P, F, E>(
    r: &mut Router<P, F>,
    translated: Result<Option<Chunk<P>>, E>,
    now: Duration,
    res: Result<Option<PushOutcome>, E>,
)
    requires
        call_ensures(Router::<P, F>::on_outbound_chunk::<E>, (r, translated, now), res),
    ensures
        translated matches Ok(Some(chunk)) ==> (res matches Ok(Some(outcome)) && taken_in(
            *old(r),
            *final(r),
            chunk,
            now,
            outcome,
        )),
        translated matches Ok(None) ==> (res matches Ok(made) && made is None),
        translated matches Err(err) ==> (res matches Err(given) && given == err),
        !(translated matches Ok(Some(_))) ==> *final(r) == *old(r),
{
    if let Ok(Some(chunk)) = translated {
        let outcome = res->Ok_0->Some_0;
        if outcome is Queued {
            assert(final(r).queue.chunks@.drop_last() =~= old(r).queue.chunks@);
        }
    }
}

/// A filter that is added comes behind all others, which stay, however many there are.
pub proof fn added_filter_joins_the_others<P, F>(r: &mut Router<P, F>, filter: F)
    requires
        call_ensures(Router::<P, F>::add_chunk_filter, (r, filter), ()),
    ensures
        final(r).chunk_filters@.len() == old(r).chunk_filters@.len() + 1,
        final(r).chunk_filters@.last() == filter,
        forall|i: int|
            0 <= i < old(r).chunk_filters@.len() ==> #[trigger] final(r).chunk_filters@[i] == old(
                r,
            ).chunk_filters@[i],
        *final(r) == (Router { chunk_filters: final(r).chunk_filters, ..*old(r) }),
{
}

/// Each filter can let the chunk pass.
pub open spec fn all_can_pass<P, F: Fn(&Chunk<P>) -> bool>(
    filters: Seq<F>,
    chunk: Chunk<P>,
) -> bool {
    forall|i: int|
        0 <= i < filters.len() ==> call_ensures(#[trigger] filters[i], (&chunk,), true)
}

/// Some filter can drop the chunk, where each one before it can let it pass.
pub open spec fn one_can_drop<P, F: Fn(&Chunk<P>) -> bool>(
    filters: Seq<F>,
    chunk: Chunk<P>,
) -> bool {
    exists|n: int|
        {
            &&& 0 <= n < filters.len()
            &&& call_ensures(#[trigger] filters[n], (&chunk,), false)
            &&& forall|i: int| 0 <= i < n ==> call_ensures(#[trigger] filters[i], (&chunk,), true)
        }
}

/// A chunk passes where each filter lets it pass, and is dropped where one drops it.
pub proof fn filters_decide_together<P, F: Fn(&Chunk<P>) -> bool>(
    r: &Router<P, F>,
    chunk: &Chunk<P>,
    res: bool,
)
    requires
        call_ensures(Router::<P, F>::passes_filters, (r, chunk), res),
    ensures
        res ==> all_can_pass(r.chunk_filters@, *chunk),
        !res ==> one_can_drop(r.chunk_filters@, *chunk),
        r.chunk_filters@.len() == 0 ==> res,
{
}

/// Where the next chunk stands: a chunk is due once the least delay has passed since it was taken in.
pub open spec fn due<P, F>(r: Router<P, F>, now: Duration) -> bool {
    &&& r.queue.chunks@.len() > 0
    &&& ns(r.queue.chunks@[0].timestamp) + ns(r.min_delay) <= ns(now)
}

/// A chunk that is due leaves the queue, alone and from its front. It is sent on where each filter lets
/// it pass, and is dropped where one of them drops it.
pub proof fn due_chunk_leaves_the_queue<P, F: Fn(&Chunk<P>) -> bool>(
    r: &mut Router<P, F>,
    now: Duration,
    res: Processed<P>,
)
    requires
        call_ensures(Router::<P, F>::process_chunks, (r, now), res),
    ensures
        res is Rest <==> !due(*old(r), now),
        due(*old(r), now) ==> {
            &&& final(r).queue.chunks@.len() == old(r).queue.chunks@.len() - 1
            &&& forall|i: int|
                0 <= i < final(r).queue.chunks@.len() ==> #[trigger] final(r).queue.chunks@[i]
                    == old(r).queue.chunks@[i + 1]
        },
        only_queue_changed(*old(r), *final(r)),
        res matches Processed::Filtered(chunk) ==> {
            &&& chunk == old(r).queue.chunks@[0].chunk
            &&& one_can_drop(old(r).chunk_filters@, chunk)
        },
        res matches Processed::Forward { chunk, .. } ==> {
            &&& chunk == old(r).queue.chunks@[0].chunk
            &&& all_can_pass(old(r).chunk_filters@, chunk)
        },
{
}

/// Where no chunk is due, nothing changes. The router rests for as long as the next chunk has to wait,
/// or, where there is none, for no time.
pub proof fn router_rests_until_the_next_chunk_is_due<P, F: Fn(&Chunk<P>) -> bool>(
    r: &mut Router<P, F>,
    now: Duration,
    rest: Duration,
)
    requires
        call_ensures(Router::<P, F>::process_chunks, (r, now), Processed::Rest(rest)),
    ensures
        *final(r) == *old(r),
        is_proper(rest),
        old(r).queue.chunks@.len() == 0 ==> ns(rest) == 0,
        old(r).queue.chunks@.len() > 0 ==> {
            let wait = ns(old(r).queue.chunks@[0].timestamp) + ns(old(r).min_delay) - ns(now);
            &&& wait > 0
            &&& ns(rest) <= wait
            &&& wait <= ns(Duration { secs: u64::MAX, subsec_nanos: 999_999_999 }) ==> ns(rest)
                == wait
            &&& wait > ns(Duration { secs: u64::MAX, subsec_nanos: 999_999_999 }) ==> rest.secs
                == u64::MAX && rest.subsec_nanos == 999_999_999
        },
{
}

/// A chunk that is sent on goes to the controller that its destination leads to. Outside the router's
/// network it goes to the parent, whether or not the router runs, and where there is none, nowhere.
pub proof fn sent_chunk_goes_by_its_destination<P, F: Fn(&Chunk<P>) -> bool>(
    r: &mut Router<P, F>,
    now: Duration,
    chunk: Chunk<P>,
    hop: Hop,
)
    requires
        call_ensures(
            Router::<P, F>::process_chunks,
            (r, now),
            Processed::Forward { chunk, hop },
        ),
    ensures
        hop is NoRoute <==> !shares_prefix(old(r).ipv4net, chunk.destination) && old(
            r,
        ).parent is None,
        !shares_prefix(old(r).ipv4net, chunk.destination) ==> (old(r).parent matches Some(p) ==> hop
            == Hop::ToParent(p)),
        hop is Unreachable <==> shares_prefix(old(r).ipv4net, chunk.destination) && !old(
            r,
        ).nics@.dom().contains(chunk.destination),
        shares_prefix(old(r).ipv4net, chunk.destination) && old(r).nics@.dom().contains(
            chunk.destination,
        ) ==> hop == Hop::Deliver(old(r).nics@[chunk.destination]),
{
}

/// Once a filter has been added, no chunk that it cannot let pass is sent on, whatever calls come in
/// between that leave the filters as they are.
pub proof fn added_filter_is_asked<P, F: Fn(&Chunk<P>) -> bool>(
    r: &mut Router<P, F>,
    filter: F,
    later: &mut Router<P, F>,
    now: Duration,
    res: Processed<P>,
)
    requires
        call_ensures(Router::<P, F>::add_chunk_filter, (r, filter), ()),
        old(later).chunk_filters@ == final(r).chunk_filters@,
        call_ensures(Router::<P, F>::process_chunks, (later, now), res),
    ensures
        res matches Processed::Forward { chunk, .. } ==> {
            &&& call_ensures(filter, (&chunk,), true)
            &&& all_can_pass(old(r).chunk_filters@, chunk)
        },
        res matches Processed::Filtered(chunk) ==> one_can_drop(old(r).chunk_filters@, chunk) || {
            &&& all_can_pass(old(r).chunk_filters@, chunk)
            &&& call_ensures(filter, (&chunk,), false)
        },
{
    added_filter_joins_the_others(r, filter);
    due_chunk_leaves_the_queue(later, now, res);
    let fewer = old(r).chunk_filters@;
    let more = old(later).chunk_filters@;
    if let Processed::Forward { chunk, .. } = res {
        assert(more[fewer.len() as int] == filter);
        assert forall|i: int| 0 <= i < fewer.len() implies call_ensures(
            #[trigger] fewer[i],
            (&chunk,),
            true,
        ) by {
            assert(more[i] == fewer[i]);
        }
    }
    if let Processed::Filtered(chunk) = res {
        let n = choose|n: int|
            {
                &&& 0 <= n < more.len()
                &&& call_ensures(#[trigger] more[n], (&chunk,), false)
                &&& forall|i: int|
                    0 <= i < n ==> call_ensures(#[trigger] more[i], (&chunk,), true)
            };
        assert forall|i: int| 0 <= i < n && i < fewer.len() implies call_ensures(
            #[trigger] fewer[i],
            (&chunk,),
            true,
        ) by {
            assert(more[i] == fewer[i]);
        }
        if n < fewer.len() {
            assert(more[n] == fewer[n]);
            assert(call_ensures(fewer[n], (&chunk,), false));
        } else {
            assert(more[n] == filter);
        }
    }
}

/// The jitter is a time below the greatest one, spread evenly over the random numbers: counting the
/// random number up by one counts the time up by one nanosecond, and behind the longest comes none.
pub proof fn jitter_stays_below_the_greatest<P, F>(
    r: &Router<P, F>,
    random: u64,
    res: Duration,
)
    requires
        call_ensures(Router::<P, F>::jitter, (r, random), res),
    ensures
        is_proper(res),
        ns(r.max_jitter) == 0 ==> ns(res) == 0,
        ns(r.max_jitter) > 0 ==> ns(res) < ns(r.max_jitter),
        random < ns(r.max_jitter) ==> ns(res) == random,
        ns(r.max_jitter) > 0 ==> exists|k: int| random == #[trigger] (k * ns(r.max_jitter)) + ns(
            res,
        ),
{
    let m = ns(r.max_jitter);
    if m > 0 {
        vstd::arithmetic::div_mod::lemma_fundamental_div_mod(random as int, m);
        vstd::arithmetic::div_mod::lemma_mod_bound(random as int, m);
        vstd::arithmetic::mul::lemma_mul_is_commutative(m, random as int / m);
        if random < m {
            vstd::arithmetic::div_mod::lemma_small_mod(random as nat, m as nat);
        }
        assert(random == (random as int / m) * m + random as int % m);
    }
}

/// The loop goes on to process chunks after a push and after a sleep, and ends when the router is
/// stopped or the chunks cannot be processed.
pub proof fn loop_goes_on_until_stopped<E>(event: LoopEvent<E>, res: LoopAction)
    requires
        call_ensures(next_action::<E>, (event,), res),
    ensures
        res is Process <==> event is Pushed || event is Elapsed,
        res is Exit <==> event is Done || (event matches LoopEvent::Processed(out) && out is Err),
        res is WaitForPush <==> (event matches LoopEvent::Processed(Ok(d)) && d.secs == 0
            && d.subsec_nanos == 0),
        res matches LoopAction::Sleep(d) ==> (event matches LoopEvent::Processed(Ok(given)) && given
            == d),
{
}

/// A queue takes a chunk behind all others unless it has reached a bound.
pub proof fn queue_takes_chunks_up_to_its_bound<P>(
    q: &mut ChunkQueue<P>,
    chunk: Stamped<P>,
    res: bool,
)
    requires
        call_ensures(ChunkQueue::<P>::push, (q, chunk), res),
    ensures
        !res <==> 0 < old(q).max_size <= old(q).chunks@.len(),
        res ==> final(q).chunks@ == old(q).chunks@.push(chunk),
        !res ==> final(q).chunks@ == old(q).chunks@,
        final(q).max_size == old(q).max_size,
{
}

/// A queue gives back its chunks from the front, each once.
pub proof fn queue_gives_chunks_from_its_front<P>(
    q: &mut ChunkQueue<P>,
    seen: Option<&Stamped<P>>,
    res: Option<Stamped<P>>,
)
    requires
        call_ensures(ChunkQueue::<P>::peek, (&*old(q),), seen),
        call_ensures(ChunkQueue::<P>::pop, (q,), res),
    ensures
        res is Some <==> old(q).chunks@.len() > 0,
        seen is Some <==> res is Some,
        res matches Some(first) ==> {
            &&& *seen->Some_0 == first
            &&& seq![first] + final(q).chunks@ == old(q).chunks@
        },
        res is None ==> final(q).chunks@ == old(q).chunks@,
        final(q).max_size == old(q).max_size,
{
    if let Some(first) = res {
        assert(seq![first] + final(q).chunks@ =~= old(q).chunks@);
    }
}

/// A new queue is empty and has the bound that it was given.
pub proof fn new_queue_is_empty<P>(max_size: usize, res: ChunkQueue<P>)
    requires
        call_ensures(ChunkQueue::<P>::new, (max_size,), res),
    ensures
        res.chunks@.len() == 0,
        res.max_size == max_size,
{
}

/// Durations and numbers of nanoseconds stand for each other.
pub proof fn durations_count_nanoseconds(
    d: Duration,
    n: u128,
    back: Duration,
    secs: u64,
    whole: Duration,
)
    requires
        call_ensures(Duration::as_nanos, (&d,), n),
        call_ensures(Duration::from_nanos, (n,), back),
        call_ensures(Duration::from_secs, (secs,), whole),
    ensures
        n == ns(d),
        is_proper(back),
        is_proper(d) ==> back == d,
        whole.secs == secs && whole.subsec_nanos == 0,
{
}

/// A number of nanoseconds is kept up to the longest duration.
pub proof fn long_durations_are_cut(n: u128, res: Duration)
    requires
        call_ensures(Duration::from_nanos, (n,), res),
    ensures
        is_proper(res),
        ns(res) <= n,
        ns(res) == n || (res.secs == u64::MAX && res.subsec_nanos == 999_999_999),
{
}

} // verus!
