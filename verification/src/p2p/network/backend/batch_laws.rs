//! Which operations a batch holds, and when batches are due.
use crate::p2p::network::backend::batch_processor::{
    added_data, automatic_step, by_priority, combine_adds, combined, extract_batch,
    has_old_operations, is_batch_of, operations, pin_hashes, pinned_hashes, ranges, AutomaticStep,
    BatchConfig, BatchOperation, BatchProcessor, CombinedAdd, DueBatches, Immediate,
    IndividualStep, OperationData, OperationHistory, OperationType, TimingEntry, TypedQueues,
};
use crate::sorting::{sorts_stably, with_key};
use crate::text::texts;
use vstd::prelude::*;

verus! {

/// Whether the key of each pair is that of its priority.
spec fn keyed_by_priority(s: Seq<(i64, BatchOperation)>) -> bool {
    forall|i: int| 0 <= i < s.len() ==> (#[trigger] s[i]).0 == -(s[i].1.priority as int)
}

/// The operations of a priority, by their key.
proof fn lemma_of_priority(s: Seq<(i64, BatchOperation)>, priority: u8)
    requires
        keyed_by_priority(s),
    ensures
        operations(with_key(s, (-(priority as int)) as i64)) == operations(s).filter(
            |op: BatchOperation| op.priority == priority,
        ),
    decreases s.len(),
{
    reveal(Seq::filter);
    let key = (-(priority as int)) as i64;
    let keep = |op: BatchOperation| op.priority == priority;
    if s.len() > 0 {
        let front = s.drop_last();
        assert forall|i: int| 0 <= i < front.len() implies (#[trigger] front[i]).0 == -(
        front[i].1.priority as int) by {
            assert(front[i] == s[i]);
        }
        lemma_of_priority(front, priority);
        let all = operations(s);
        assert(all.drop_last() =~= operations(front));
        assert(all.last() == s.last().1);
        assert(s[s.len() - 1].0 == -(s[s.len() - 1].1.priority as int));
        let before = with_key(front, key);
        assert(operations(before.push(s.last())) =~= operations(before).push(s.last().1));
    } else {
        assert(operations(s) =~= Seq::empty());
        assert(operations(with_key(s, key)) =~= operations(s).filter(keep));
    }
}

/// Operations come out of a queue by priority, the highest first; those of one priority come
/// out in the order in which they came in, and none is lost or changed, up to the size that is
/// asked for. The queue is empty then.
pub proof fn lemma_extract_batch(
    queue: &mut Vec<BatchOperation>,
    max_size: usize,
    r: Vec<BatchOperation>,
)
    requires
        call_ensures(extract_batch, (queue, max_size), r),
    ensures
        final(queue)@.len() == 0,
        r@.len() == if max_size <= old(queue)@.len() {
            max_size as nat
        } else {
            old(queue)@.len()
        },
        forall|i: int, j: int|
            0 <= i <= j < r@.len() ==> (#[trigger] r@[i]).priority >= (#[trigger] r@[j]).priority,
        max_size >= old(queue)@.len() ==> forall|priority: u8|
            #[trigger] of_priority(r@, priority) == of_priority(old(queue)@, priority),
{
    let before = old(queue)@;
    crate::p2p::network::backend::batch_processor::lemma_batch_is_unique(
        before,
        max_size as nat,
        r@,
        r@,
    );
    if max_size >= before.len() {
        lemma_whole_batch(before, max_size as nat, r@);
    }
}

/// The operations of a priority, in order.
pub open spec fn of_priority(ops: Seq<BatchOperation>, priority: u8) -> Seq<BatchOperation> {
    ops.filter(|op: BatchOperation| op.priority == priority)
}

/// A batch that takes everything holds the operations of each priority in order.
proof fn lemma_whole_batch(queue: Seq<BatchOperation>, max_size: nat, batch: Seq<BatchOperation>)
    requires
        is_batch_of(queue, max_size, batch),
        max_size >= queue.len(),
    ensures
        forall|priority: u8| #[trigger]
            of_priority(batch, priority) == of_priority(queue, priority),
{
    let keyed = by_priority(queue);
    let sorted = choose|sorted: Seq<(i64, BatchOperation)>|
        #[trigger] sorts_stably(keyed, sorted) && batch == operations(sorted).take(
            if max_size <= queue.len() {
                max_size as int
            } else {
                queue.len() as int
            },
        );
    assert(operations(sorted).take(queue.len() as int) =~= operations(sorted));
    assert(keyed_by_priority(keyed));
    assert forall|i: int| 0 <= i < sorted.len() implies (#[trigger] sorted[i]).0 == -(
    sorted[i].1.priority as int) by {
        crate::sorting::lemma_sorted_member(keyed, sorted, i);
        let k = choose|k: int| 0 <= k < keyed.len() && keyed[k] == sorted[i];
        assert(keyed[k].0 == -(keyed[k].1.priority as int));
    }
    assert(operations(keyed) =~= queue);
    assert forall|priority: u8| #[trigger] of_priority(batch, priority) == of_priority(
        queue,
        priority,
    ) by {
        lemma_of_priority(sorted, priority);
        lemma_of_priority(keyed, priority);
    }
}

/// A smaller batch of a queue is the beginning of a larger one.
pub proof fn lemma_smaller_batch(
    queue: &mut Vec<BatchOperation>,
    size: usize,
    r: Vec<BatchOperation>,
    same: &mut Vec<BatchOperation>,
    larger: usize,
    more: Vec<BatchOperation>,
)
    requires
        call_ensures(extract_batch, (queue, size), r),
        call_ensures(extract_batch, (same, larger), more),
        old(queue)@ == old(same)@,
        size <= larger,
    ensures
        r@ == more@.take(r@.len() as int),
{
    let ops = old(queue)@;
    let n = if size <= ops.len() {
        size as int
    } else {
        ops.len() as int
    };
    let m = if larger <= ops.len() {
        larger as int
    } else {
        ops.len() as int
    };
    let a = choose|sorted: Seq<(i64, BatchOperation)>|
        #[trigger] sorts_stably(by_priority(ops), sorted) && r@ == operations(sorted).take(n);
    let b = choose|sorted: Seq<(i64, BatchOperation)>|
        #[trigger] sorts_stably(by_priority(ops), sorted) && more@ == operations(sorted).take(m);
    crate::sorting::lemma_stable_sort_unique(by_priority(ops), a, b);
    assert(r@ =~= more@.take(r@.len() as int));
}

/// An operation waits at the end of the queue for what it does: to add, to get, to publish, or
/// to pin and unpin. The other queues stay as they are.
pub proof fn lemma_queue_by_type(queues: &mut TypedQueues, op: BatchOperation)
    requires
        call_ensures(TypedQueues::add_to_typed_queue, (queues, op), ()),
    ensures
        final(queues).add_queue@ == if op.operation_type == OperationType::Add {
            old(queues).add_queue@.push(op)
        } else {
            old(queues).add_queue@
        },
        final(queues).get_queue@ == if op.operation_type == OperationType::Get {
            old(queues).get_queue@.push(op)
        } else {
            old(queues).get_queue@
        },
        final(queues).pubsub_queue@ == if op.operation_type == OperationType::PubSubPublish {
            old(queues).pubsub_queue@.push(op)
        } else {
            old(queues).pubsub_queue@
        },
        final(queues).pin_queue@ == if op.operation_type == OperationType::Pin || op.operation_type
            == OperationType::Unpin {
            old(queues).pin_queue@.push(op)
        } else {
            old(queues).pin_queue@
        },
{
}

/// An operation that is added waits, by type where that is asked for, and with all others
/// otherwise; nothing that waited is lost. It is told when many wait.
pub proof fn lemma_added_operation(
    processor: &mut BatchProcessor,
    op: BatchOperation,
    r: Immediate,
)
    requires
        call_ensures(BatchProcessor::add_batch_operation, (processor, op), r),
    ensures
        ({
            let before = *old(processor);
            let after = *final(processor);
            let smart = before.batch_config.enable_smart_batching;
            let largest = before.batch_config.max_batch_size as int;
            &&& after.batch_config == before.batch_config
            &&& !smart ==> after.pending_operations@ == before.pending_operations@.push(op)
            &&& !smart ==> (r == Immediate::Pending <==> before.pending_operations@.len() + 1
                >= largest)
            &&& !smart ==> r != Immediate::Ready
            &&& smart ==> after.pending_operations == before.pending_operations
            &&& smart && op.operation_type == OperationType::Add
                ==> after.typed_queues.add_queue@ == before.typed_queues.add_queue@.push(op)
            &&& smart && op.operation_type == OperationType::Get
                ==> after.typed_queues.get_queue@ == before.typed_queues.get_queue@.push(op)
            &&& smart && op.operation_type == OperationType::Pin
                ==> after.typed_queues.pin_queue@ == before.typed_queues.pin_queue@.push(op)
            &&& smart && op.operation_type == OperationType::PubSubPublish
                ==> after.typed_queues.pubsub_queue@ == before.typed_queues.pubsub_queue@.push(op)
            &&& smart ==> (r == Immediate::Ready <==> after.typed_queues.add_queue@.len() >= largest
                / 4 || after.typed_queues.get_queue@.len() >= largest / 2
                || after.typed_queues.pin_queue@.len() >= largest / 3)
            &&& smart ==> r != Immediate::Pending
        }),
{
}

/// Operations that wait with all others are taken in order, as many as make the largest batch;
/// the others go on waiting.
pub proof fn lemma_pending_batch(processor: &mut BatchProcessor, r: Vec<BatchOperation>)
    requires
        call_ensures(BatchProcessor::take_pending_batch, (processor,), r),
    ensures
        ({
            let waiting = old(processor).pending_operations@;
            let largest = old(processor).batch_config.max_batch_size as int;
            let n = if waiting.len() <= largest {
                waiting.len() as int
            } else {
                largest
            };
            &&& r@ == waiting.take(n)
            &&& final(processor).pending_operations@ == waiting.skip(n)
        }),
{
    let waiting = old(processor).pending_operations@;
    let n = r@.len() as int;
    assert(r@ =~= waiting.take(n));
    assert(final(processor).pending_operations@ =~= waiting.skip(n));
}

/// The first operation of a queue is old once it has waited for more than twice the time that a
/// batch may wait.
pub proof fn lemma_old_operations(
    queue: &Vec<BatchOperation>,
    max_wait_ms: u64,
    now: u64,
    r: bool,
)
    requires
        call_ensures(has_old_operations, (queue, max_wait_ms, now), r),
    ensures
        r <==> queue@.len() > 0 && now > queue@[0].created_at + 2_000_000 * max_wait_ms,
{
}

/// What the automatic processor takes of a queue it takes whole, and it takes it exactly where
/// enough operations wait or the first has waited for long; what is to be published it always
/// takes.
pub proof fn lemma_automatic_batches(
    queues: &mut TypedQueues,
    config: &BatchConfig,
    now: u64,
    r: DueBatches,
)
    requires
        call_ensures(TypedQueues::take_automatic_batches, (queues, config, now), r),
    ensures
        taken_whole(
            old(queues).add_queue@,
            final(queues).add_queue@,
            r.add@,
            config.max_batch_size as int / 4,
            config.max_batch_wait_ms,
            now,
        ),
        taken_whole(
            old(queues).get_queue@,
            final(queues).get_queue@,
            r.get@,
            config.max_batch_size as int / 2,
            config.max_batch_wait_ms,
            now,
        ),
        taken_whole(
            old(queues).pin_queue@,
            final(queues).pin_queue@,
            r.pin@,
            config.max_batch_size as int / 3,
            config.max_batch_wait_ms,
            now,
        ),
        final(queues).pubsub_queue@.len() == 0,
        r.pubsub@.len() == old(queues).pubsub_queue@.len(),
{
    lemma_taken(old(queues).add_queue@, r.add@);
    lemma_taken(old(queues).get_queue@, r.get@);
    lemma_taken(old(queues).pin_queue@, r.pin@);
    lemma_taken(old(queues).pubsub_queue@, r.pubsub@);
}

/// Whether a queue was taken whole, by priority, where enough operations wait or the first has
/// waited for long, and was left as it is otherwise.
pub open spec fn taken_whole(
    before: Seq<BatchOperation>,
    after: Seq<BatchOperation>,
    batch: Seq<BatchOperation>,
    enough: int,
    max_wait_ms: u64,
    now: u64,
) -> bool {
    let due = before.len() > 0 && (before.len() >= enough || now > before[0].created_at + 2_000_000
        * max_wait_ms);
    &&& due ==> after.len() == 0 && batch.len() == before.len() && forall|priority: u8|
        #[trigger] of_priority(batch, priority) == of_priority(before, priority)
    &&& !due ==> after == before && batch.len() == 0
}

/// A batch of a whole queue holds the operations of each priority in order.
proof fn lemma_taken(queue: Seq<BatchOperation>, batch: Seq<BatchOperation>)
    ensures
        is_batch_of(queue, queue.len(), batch) ==> batch.len() == queue.len() && forall|
            priority: u8,
        | #[trigger]
            of_priority(batch, priority) == of_priority(queue, priority),
{
    if is_batch_of(queue, queue.len(), batch) {
        crate::p2p::network::backend::batch_processor::lemma_batch_is_unique(
            queue,
            queue.len(),
            batch,
            batch,
        );
        lemma_whole_batch(queue, queue.len(), batch);
    }
}

/// The automatic processor looks at the queues exactly when one of them is to be taken, or
/// enough is to be published.
pub proof fn lemma_due_batches(queues: &TypedQueues, config: &BatchConfig, now: u64, r: bool)
    requires
        call_ensures(TypedQueues::should_process, (queues, config, now), r),
    ensures
        r <==> {
            let largest = config.max_batch_size as int;
            let wait = 2_000_000 * config.max_batch_wait_ms;
            ||| queues.add_queue@.len() >= largest / 4
            ||| queues.get_queue@.len() >= largest / 2
            ||| queues.pin_queue@.len() >= largest / 3
            ||| queues.pubsub_queue@.len() >= largest / 6
            ||| queues.add_queue@.len() > 0 && now > queues.add_queue@[0].created_at + wait
            ||| queues.get_queue@.len() > 0 && now > queues.get_queue@[0].created_at + wait
            ||| queues.pin_queue@.len() > 0 && now > queues.pin_queue@[0].created_at + wait
        },
{
}

/// What operations add is put together in order, where that is more than the threshold and
/// there is more than one; every operation that adds has a place in it, which holds its content.
pub proof fn lemma_combined_adds(
    batch: &Vec<BatchOperation>,
    threshold: usize,
    r: Option<CombinedAdd>,
)
    requires
        call_ensures(combine_adds, (batch, threshold), r),
    ensures
        r is Some <==> batch@.len() > 1 && total_size(batch@) > threshold,
        r is Some ==> r->0.data@.len() == total_size(batch@),
        r is Some ==> r->0.ranges@.len() == batch@.filter(
            |op: BatchOperation| op.data is AddData,
        ).len(),
        r is Some ==> forall|i: int|
            0 <= i < r->0.ranges@.len() ==> holds_its_content(
                batch@,
                r->0.data@,
                #[trigger] r->0.ranges@[i],
            ),
{
    lemma_total(batch@);
    if r is Some {
        let views = crate::p2p::network::backend::batch_processor::range_views(r->0.ranges@);
        assert(views.len() == r->0.ranges@.len());
        assert forall|i: int| 0 <= i < r->0.ranges@.len() implies holds_its_content(
            batch@,
            r->0.data@,
            #[trigger] r->0.ranges@[i],
        ) by {
            crate::p2p::network::backend::batch_processor::lemma_ranges_hold_contents(
                batch@,
                i,
            );
            assert(views[i] == (
                r->0.ranges@[i].0@,
                r->0.ranges@[i].1 as nat,
                r->0.ranges@[i].2 as nat,
            ));
            let k = choose|k: int|
                0 <= k < batch@.len() && (#[trigger] batch@[k]).data is AddData && batch@[k].id@
                    == ranges(batch@)[i].0 && combined(batch@).subrange(
                    ranges(batch@)[i].1 as int,
                    ranges(batch@)[i].2 as int,
                ) == added_data(batch@[k]);
            assert(batch@[k].data is AddData);
        }
    }
}

/// Whether a place in what was put together is within it and holds what an operation adds.
pub open spec fn holds_its_content(
    ops: Seq<BatchOperation>,
    whole: Seq<u8>,
    place: (String, usize, usize),
) -> bool {
    &&& place.1 <= place.2 <= whole.len()
    &&& exists|k: int|
        0 <= k < ops.len() && (#[trigger] ops[k]).data is AddData && ops[k].id@ == place.0@
            && whole.subrange(place.1 as int, place.2 as int) == ops[k].data->AddData_data@
}

/// How much operations add.
pub open spec fn total_size(ops: Seq<BatchOperation>) -> nat
    decreases ops.len(),
{
    if ops.len() == 0 {
        0
    } else {
        total_size(ops.drop_last()) + if ops.last().data is AddData {
            ops.last().data->AddData_data@.len()
        } else {
            0
        }
    }
}

/// What operations add is as large as they add together.
proof fn lemma_total(ops: Seq<BatchOperation>)
    ensures
        combined(ops).len() == total_size(ops),
        ranges(ops).len() == ops.filter(|op: BatchOperation| op.data is AddData).len(),
    decreases ops.len(),
{
    reveal(Seq::filter);
    if ops.len() > 0 {
        lemma_total(ops.drop_last());
    }
}

/// The hashes that are pinned are those of the operations that pin, in order.
pub proof fn lemma_pinned(batch: &Vec<BatchOperation>, r: Vec<String>)
    requires
        call_ensures(pin_hashes, (batch,), r),
    ensures
        texts(r@) == batch@.filter(|op: BatchOperation| op.data is PinHash).map_values(
            |op: BatchOperation| op.data->PinHash_hash@,
        ),
{
    lemma_pins(batch@);
}

/// The same of the model.
proof fn lemma_pins(ops: Seq<BatchOperation>)
    ensures
        pinned_hashes(ops) == ops.filter(|op: BatchOperation| op.data is PinHash).map_values(
            |op: BatchOperation| op.data->PinHash_hash@,
        ),
    decreases ops.len(),
{
    reveal(Seq::filter);
    let keep = |op: BatchOperation| op.data is PinHash;
    let hash = |op: BatchOperation| op.data->PinHash_hash@;
    if ops.len() > 0 {
        lemma_pins(ops.drop_last());
        let before = ops.drop_last().filter(keep);
        assert(before.push(ops.last()).map_values(hash) =~= before.map_values(hash).push(
            hash(ops.last()),
        ));
    } else {
        assert(ops.filter(keep).map_values(hash) =~= Seq::empty());
    }
}

/// An operation that is carried out by itself asks for what it says, with what it was given.
pub proof fn lemma_individual_step(data: OperationData, r: IndividualStep)
    requires
        call_ensures(BatchProcessor::individual_step, (data,), r),
    ensures
        data is AddData ==> r is Add && r->Add_0 == data->AddData_data,
        data is GetHash ==> r is Get && r->Get_0 == data->GetHash_hash,
        data is PinHash ==> r is Pin && r->Pin_0 == data->PinHash_hash,
        data is UnpinHash ==> r is Unpin && r->Unpin_0 == data->UnpinHash_hash,
        data is PubSubData ==> r is Publish && r->topic == data->topic && r->data
            == data->PubSubData_data,
{
}

/// The automatic processor adds, gets and pins as asked for; it answers what it cannot do.
pub proof fn lemma_automatic_step(data: OperationData, r: AutomaticStep)
    requires
        call_ensures(automatic_step, (data,), r),
    ensures
        data is AddData ==> r is Add && r->Add_0 == data->AddData_data,
        data is GetHash ==> r is Get && r->Get_0 == data->GetHash_hash,
        data is PinHash ==> r is Pin && r->Pin_0 == data->PinHash_hash,
        data is UnpinHash ==> r is Answer && r->Answer_0 is Err,
        data is PubSubData ==> r is Answer && r->Answer_0 is Ok,
{
}

/// A timing is noted behind the others, of which the oldest gives way where there are ten
/// thousand; the average size of its type goes half way to its size, and the others stay.
pub proof fn lemma_recorded_timing(history: &mut OperationHistory, entry: TimingEntry)
    requires
        call_ensures(OperationHistory::record_operation_timing, (history, entry), ()),
    ensures
        final(history).timings().last() == entry,
        final(history).timings().len() > 0,
        final(history).timings().drop_last() == if old(history).timings().len() >= 10_000 {
            old(history).timings().skip(1)
        } else {
            old(history).timings()
        },
        final(history).average(entry.operation_type) == Some(
            (((match old(history).average(entry.operation_type) {
                Some(a) => a as int,
                None => 0,
            }) + entry.data_size) / 2) as u64,
        ),
        forall|t: OperationType|
            t != entry.operation_type ==> #[trigger] final(history).average(t) == old(history).average(t),
{
    let before = old(history).timings();
    assert(final(history).timings().drop_last() =~= if before.len() >= 10_000 {
        before.skip(1)
    } else {
        before
    });
}

} // verus!
