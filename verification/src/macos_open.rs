//! The queue of files that the operating system asks the app to open.
use vstd::prelude::*;

verus! {

/// A call on the queue: adding the paths of one request, or taking all.
pub enum QueueCall {
    Enqueue(Seq<String>),
    Take,
}

/// The queue after a call.
pub open spec fn queue_after(q: Seq<String>, call: QueueCall) -> Seq<String> {
    match call {
        QueueCall::Enqueue(found) => q + found,
        QueueCall::Take => Seq::<String>::empty(),
    }
}

/// Takes every queued path, in arrival order, and leaves the queue empty.
pub fn take_pending(queue: &mut Vec<String>) -> (taken: Vec<String>)
    ensures
        taken@ == old(queue)@,
        final(queue)@ == queue_after(old(queue)@, QueueCall::Take),
{
    let mut taken: Vec<String> = Vec::new();
    std::mem::swap(&mut taken, queue);
    taken
}

/// Adds the paths of one open-documents request to the queue, in order.
/// Returns whether any arrived, that is whether the app must wake up to
/// take them.
pub fn enqueue_found(queue: &mut Vec<String>, found: Vec<String>) -> (wake: bool)
    ensures
        final(queue)@ == queue_after(old(queue)@, QueueCall::Enqueue(found@)),
        wake == (found@.len() > 0),
{
    let wake = found.len() > 0;
    let mut found = found;
    queue.append(&mut found);
    wake
}

/// A run of calls from queue `q`: the queue at the end, and what each
/// `take_pending` returned, in call order.
pub open spec fn run_queue(q: Seq<String>, calls: Seq<QueueCall>) -> (Seq<String>, Seq<Seq<String>>)
    decreases calls.len(),
{
    if calls.len() == 0 {
        (q, seq![])
    } else {
        let rest = run_queue(queue_after(q, calls[0]), calls.drop_first());
        match calls[0] {
            QueueCall::Take => (rest.0, seq![q] + rest.1),
            QueueCall::Enqueue(_) => rest,
        }
    }
}

/// All paths that a run of calls adds, in order.
pub open spec fn all_enqueued(calls: Seq<QueueCall>) -> Seq<String>
    decreases calls.len(),
{
    if calls.len() == 0 {
        seq![]
    } else {
        match calls[0] {
            QueueCall::Enqueue(found) => found + all_enqueued(calls.drop_first()),
            QueueCall::Take => all_enqueued(calls.drop_first()),
        }
    }
}

/// The batches one after another.
pub open spec fn concat_all(batches: Seq<Seq<String>>) -> Seq<String>
    decreases batches.len(),
{
    if batches.len() == 0 {
        seq![]
    } else {
        batches[0] + concat_all(batches.drop_first())
    }
}

/// Over any run of calls, nothing is lost or repeated: what the takes
/// return, one after another, followed by what is still queued, is what
/// was queued at the start followed by every path added, in order.
pub proof fn law_queue_loses_nothing(q: Seq<String>, calls: Seq<QueueCall>)
    ensures
        concat_all(run_queue(q, calls).1) + run_queue(q, calls).0 == q + all_enqueued(calls),
    decreases calls.len(),
{
    if calls.len() == 0 {
        assert(concat_all(seq![]) =~= Seq::<String>::empty());
        assert(Seq::<String>::empty() + q =~= q);
        assert(q + Seq::<String>::empty() =~= q);
    } else {
        let rest_calls = calls.drop_first();
        let q2 = queue_after(q, calls[0]);
        law_queue_loses_nothing(q2, rest_calls);
        let r = run_queue(q2, rest_calls);
        match calls[0] {
            QueueCall::Take => {
                let outs = seq![q] + r.1;
                assert(outs.drop_first() =~= r.1);
                assert(outs[0] == q);
                assert(concat_all(outs) == q + concat_all(r.1));
                assert(q2 =~= Seq::<String>::empty());
                assert(Seq::<String>::empty() + all_enqueued(rest_calls) =~= all_enqueued(rest_calls));
                assert(q + concat_all(r.1) + r.0 =~= q + (concat_all(r.1) + r.0));
            },
            QueueCall::Enqueue(found) => {
                assert(q2 + all_enqueued(rest_calls) =~= q + (found + all_enqueued(rest_calls)));
            },
        }
    }
}

/// Taking twice in a row, the second take gets nothing.
pub proof fn law_second_take_is_empty(q: Seq<String>, calls: Seq<QueueCall>)
    ensures
        run_queue(q, seq![QueueCall::Take, QueueCall::Take] + calls).1[1] == Seq::<String>::empty(),
{
    let all = seq![QueueCall::Take, QueueCall::Take] + calls;
    assert(all.drop_first() =~= seq![QueueCall::Take] + calls);
    assert((seq![QueueCall::Take] + calls).drop_first() =~= calls);
    let inner = run_queue(Seq::<String>::empty(), seq![QueueCall::Take] + calls);
    assert(inner.1[0] == Seq::<String>::empty());
    assert((seq![q] + inner.1)[1] == inner.1[0]);
}

} // verus!
