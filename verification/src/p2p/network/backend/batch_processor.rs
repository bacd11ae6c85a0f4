//! Operations that are carried out in batches.
//!
//! Operations wait in queues; the state kept here decides when a batch is due,
//! which operations it holds and what each of them is answered. Times are
//! nanoseconds on a clock that never goes back.
use crate::entries::{lookup, without_entry, TextMap};
use crate::error::{outcome, Failure, GuardianError};
use crate::ids;
use crate::ids::is_random_id;
use crate::p2p::network::types::AddResponse;
use crate::sorting;
use crate::sorting::sorts_stably;
use crate::text;
use crate::text::{decimal_text, texts};
use vstd::prelude::*;

verus! {

/// How many batches may be processed at a time.
pub const MAX_CONCURRENT_BATCHES: usize = 8;

/// How many timings are remembered.
pub const MAX_TIMINGS: usize = 10_000;

/// What an operation does.
#[derive(Clone, Copy, PartialEq, Eq, Structural, Hash, Debug)]
pub enum OperationType {
    Add,
    Get,
    Pin,
    Unpin,
    PubSubPublish,
}

/// How content is added.
#[derive(Debug)]
pub struct AddOptions {
    pub pin: bool,
    pub wrap_with_directory: bool,
    pub chunker: Option<String>,
}

impl Default for AddOptions {
    fn default() -> (r: AddOptions)
        ensures
            r == (AddOptions { pin: false, wrap_with_directory: false, chunker: None }),
    {
        AddOptions { pin: false, wrap_with_directory: false, chunker: None }
    }
}

/// How content is got.
#[derive(Debug)]
pub struct GetOptions {
    /// How long it may take, in milliseconds.
    pub timeout: Option<u64>,
    /// The peers that are asked first.
    pub preferred_peers: Vec<String>,
}

impl Default for GetOptions {
    fn default() -> (r: GetOptions)
        ensures
            r.timeout is None,
            r.preferred_peers@ == Seq::<String>::empty(),
    {
        GetOptions { timeout: None, preferred_peers: Vec::new() }
    }
}

/// How content is pinned.
#[derive(Clone, Copy, PartialEq, Eq, Structural, Debug)]
pub struct PinOptions {
    pub recursive: bool,
    pub progress: bool,
}

impl Default for PinOptions {
    fn default() -> (r: PinOptions)
        ensures
            r == (PinOptions { recursive: false, progress: false }),
    {
        PinOptions { recursive: false, progress: false }
    }
}

/// What an operation is given.
#[derive(Debug)]
#[allow(inconsistent_fields)]
pub enum OperationData {
    AddData { data: Vec<u8>, options: AddOptions },
    GetHash { hash: String, options: GetOptions },
    PinHash { hash: String, options: PinOptions },
    UnpinHash { hash: String },
    PubSubData { topic: String, data: Vec<u8> },
}

/// What an operation gives.
#[derive(Debug)]
pub enum OperationResult {
    AddResult(AddResponse),
    GetResult(Vec<u8>),
    PinResult(bool),
    UnpinResult(bool),
    PubSubResult(bool),
}

/// What an operation is expected to take.
#[derive(Clone, Copy, PartialEq, Eq, Structural, Debug)]
pub struct ResourceEstimate {
    /// The share of a processor, in hundredths.
    pub cpu_percent: u8,
    pub memory_bytes: u64,
    pub io_bytes: u64,
    pub bandwidth_bytes: u64,
    pub estimated_time_ms: u64,
}

/// An operation that waits.
#[derive(Debug)]
pub struct BatchOperation {
    pub id: String,
    pub operation_type: OperationType,
    pub data: OperationData,
    pub created_at: u64,
    /// The higher, the sooner.
    pub priority: u8,
    pub resource_estimate: ResourceEstimate,
}

/// When batches are due, and how large they are.
#[derive(Clone, Copy, PartialEq, Eq, Structural, Debug)]
pub struct BatchConfig {
    pub max_batch_size: usize,
    pub max_batch_wait_ms: u64,
    pub max_processing_threads: usize,
    pub memory_flush_threshold: u64,
    /// Whether operations wait by type.
    pub enable_smart_batching: bool,
    pub enable_batch_compression: bool,
    /// The size above which added contents are put together.
    pub compression_threshold: usize,
}

impl Default for BatchConfig {
    fn default() -> (r: BatchConfig)
        ensures
            r == (BatchConfig {
                max_batch_size: 100,
                max_batch_wait_ms: 50,
                max_processing_threads: 8,
                memory_flush_threshold: 67_108_864,
                enable_smart_batching: true,
                enable_batch_compression: true,
                compression_threshold: 1_024,
            }),
    {
        BatchConfig {
            max_batch_size: 100,
            max_batch_wait_ms: 50,
            max_processing_threads: 8,
            memory_flush_threshold: 67_108_864,
            enable_smart_batching: true,
            enable_batch_compression: true,
            compression_threshold: 1_024,
        }
    }
}

/// What the processor can be told.
#[derive(Clone, Copy, PartialEq, Eq, Structural, Debug)]
pub enum BatchControl {
    FlushNow,
    Pause,
    Resume,
    Stop,
    UpdateConfig(BatchConfig),
}

/// How many operations were processed, and how.
#[derive(Clone, Copy, PartialEq, Eq, Structural, Debug)]
pub struct BatchStats {
    pub total_operations: u64,
    pub batched_operations: u64,
    pub individual_operations: u64,
}

/// What an operation of a type is expected to take.
pub open spec fn estimate(operation_type: OperationType) -> ResourceEstimate {
    match operation_type {
        OperationType::Add => ResourceEstimate {
            cpu_percent: 30,
            memory_bytes: 65_536,
            io_bytes: 131_072,
            bandwidth_bytes: 262_144,
            estimated_time_ms: 20,
        },
        OperationType::Get => ResourceEstimate {
            cpu_percent: 20,
            memory_bytes: 32_768,
            io_bytes: 65_536,
            bandwidth_bytes: 131_072,
            estimated_time_ms: 15,
        },
        OperationType::PubSubPublish => ResourceEstimate {
            cpu_percent: 15,
            memory_bytes: 16_384,
            io_bytes: 8_192,
            bandwidth_bytes: 65_536,
            estimated_time_ms: 8,
        },
        _ => ResourceEstimate {
            cpu_percent: 10,
            memory_bytes: 8_192,
            io_bytes: 16_384,
            bandwidth_bytes: 32_768,
            estimated_time_ms: 5,
        },
    }
}

/// What an operation of a type is expected to take.
pub fn estimate_resources(operation_type: OperationType) -> (r: ResourceEstimate)
    ensures
        r == estimate(operation_type),
{
    match operation_type {
        OperationType::Add => ResourceEstimate {
            cpu_percent: 30,
            memory_bytes: 65_536,
            io_bytes: 131_072,
            bandwidth_bytes: 262_144,
            estimated_time_ms: 20,
        },
        OperationType::Get => ResourceEstimate {
            cpu_percent: 20,
            memory_bytes: 32_768,
            io_bytes: 65_536,
            bandwidth_bytes: 131_072,
            estimated_time_ms: 15,
        },
        OperationType::PubSubPublish => ResourceEstimate {
            cpu_percent: 15,
            memory_bytes: 16_384,
            io_bytes: 8_192,
            bandwidth_bytes: 65_536,
            estimated_time_ms: 8,
        },
        _ => ResourceEstimate {
            cpu_percent: 10,
            memory_bytes: 8_192,
            io_bytes: 16_384,
            bandwidth_bytes: 32_768,
            estimated_time_ms: 5,
        },
    }
}

/// Operations with a key that is the lower the higher their priority.
pub open spec fn by_priority(queue: Seq<BatchOperation>) -> Seq<(i64, BatchOperation)> {
    queue.map_values(|op: BatchOperation| ((-(op.priority as int)) as i64, op))
}

/// The operations of pairs.
pub open spec fn operations(pairs: Seq<(i64, BatchOperation)>) -> Seq<BatchOperation> {
    pairs.map_values(|p: (i64, BatchOperation)| p.1)
}

/// Whether a batch is made of the first operations of a queue, at most so many, in order
/// of priority, and of arrival where priorities are equal.
pub open spec fn is_batch_of(
    queue: Seq<BatchOperation>,
    max_size: nat,
    batch: Seq<BatchOperation>,
) -> bool {
    exists|sorted: Seq<(i64, BatchOperation)>|
        #[trigger] sorts_stably(by_priority(queue), sorted) && batch == operations(sorted).take(
            if max_size <= queue.len() {
                max_size as int
            } else {
                queue.len() as int
            },
        )
}

/// Takes a batch out of a queue, which is empty then.
pub fn extract_batch(queue: &mut Vec<BatchOperation>, max_size: usize) -> (r: Vec<BatchOperation>)
    ensures
        final(queue)@ == Seq::<BatchOperation>::empty(),
        is_batch_of(old(queue)@, max_size as nat, r@),
{
    let ghost whole = queue@;
    let mut taken: Vec<BatchOperation> = Vec::new();
    std::mem::swap(&mut taken, queue);
    let mut backwards: Vec<BatchOperation> = sorting::reversed(taken);
    let mut keyed: Vec<(i64, BatchOperation)> = Vec::new();
    while backwards.len() > 0
        invariant
            keyed@.len() + backwards@.len() == whole.len(),
            backwards@ == whole.reverse().take(backwards@.len() as int),
            keyed@ == by_priority(whole).take(keyed@.len() as int),
        decreases backwards@.len(),
    {
        let ghost n = backwards@.len() as int;
        let ghost k = keyed@.len() as int;
        match backwards.pop() {
            Some(op) => {
                assert(op == whole.reverse()[n - 1]);
                assert(op == whole[k]);
                let key: i64 = -(op.priority as i64);
                keyed.push((key, op));
                assert(by_priority(whole)[k] == (key, op));
                assert(keyed@ =~= by_priority(whole).take(k + 1));
            },
            None => {},
        }
        assert(whole.reverse().take(n).drop_last() =~= whole.reverse().take(n - 1));
    }
    assert(by_priority(whole).take(keyed@.len() as int) =~= by_priority(whole));
    let mut sorted: Vec<(i64, BatchOperation)> = sorting::stable_sort(keyed);
    let ghost all = sorted@;
    let size: usize = if max_size <= sorted.len() {
        max_size
    } else {
        sorted.len()
    };
    sorted.truncate(size);
    let mut left: Vec<(i64, BatchOperation)> = sorting::reversed(sorted);
    let mut batch: Vec<BatchOperation> = Vec::new();
    let ghost chosen = all.take(size as int);
    assert(operations(all).take(size as int) =~= operations(chosen));
    while left.len() > 0
        invariant
            batch@.len() + left@.len() == chosen.len(),
            left@ == chosen.reverse().take(left@.len() as int),
            batch@ == operations(chosen).take(batch@.len() as int),
        decreases left@.len(),
    {
        let ghost n = left@.len() as int;
        let ghost k = batch@.len() as int;
        match left.pop() {
            Some(pair) => {
                assert(pair == chosen.reverse()[n - 1]);
                assert(pair == chosen[k]);
                batch.push(pair.1);
                assert(batch@ =~= operations(chosen).take(k + 1));
            },
            None => {},
        }
        assert(chosen.reverse().take(n).drop_last() =~= chosen.reverse().take(n - 1));
    }
    assert(operations(chosen).take(batch@.len() as int) =~= operations(chosen));
    batch
}

/// Whether the operation that came first has waited for twice the time.
pub open spec fn is_old(queue: Seq<BatchOperation>, max_wait_ms: u64, now: u64) -> bool {
    queue.len() > 0 && now - queue[0].created_at > max_wait_ms * 2 * 1_000_000
}

/// Whether the operation that came first has waited for twice the time.
pub fn has_old_operations(queue: &Vec<BatchOperation>, max_wait_ms: u64, now: u64) -> (r: bool)
    ensures
        r == is_old(queue@, max_wait_ms, now),
{
    if queue.len() == 0 {
        return false;
    }
    let created: u64 = queue[0].created_at;
    if now < created {
        return false;
    }
    let limit: u128 = (max_wait_ms as u128) * 2 * 1_000_000;
    ((now - created) as u128) > limit
}

/// The operations that wait by type.
#[derive(Debug)]
pub struct TypedQueues {
    pub add_queue: Vec<BatchOperation>,
    pub get_queue: Vec<BatchOperation>,
    pub pin_queue: Vec<BatchOperation>,
    pub pubsub_queue: Vec<BatchOperation>,
}

/// Batches that are due; an empty one is not.
#[derive(Debug)]
pub struct DueBatches {
    pub add: Vec<BatchOperation>,
    pub get: Vec<BatchOperation>,
    pub pin: Vec<BatchOperation>,
    pub pubsub: Vec<BatchOperation>,
}

/// Whether an operation waits at the end of the queue for its type, and nothing else changed.
pub open spec fn queued(before: TypedQueues, op: BatchOperation, after: TypedQueues) -> bool {
    match op.operation_type {
        OperationType::Add => after.add_queue@ == before.add_queue@.push(op) && after.get_queue
            == before.get_queue && after.pin_queue == before.pin_queue && after.pubsub_queue
            == before.pubsub_queue,
        OperationType::Get => after.get_queue@ == before.get_queue@.push(op) && after.add_queue
            == before.add_queue && after.pin_queue == before.pin_queue && after.pubsub_queue
            == before.pubsub_queue,
        OperationType::PubSubPublish => after.pubsub_queue@ == before.pubsub_queue@.push(op)
            && after.add_queue == before.add_queue && after.get_queue == before.get_queue
            && after.pin_queue == before.pin_queue,
        _ => after.pin_queue@ == before.pin_queue@.push(op) && after.add_queue == before.add_queue
            && after.get_queue == before.get_queue && after.pubsub_queue == before.pubsub_queue,
    }
}

/// Whether a queue has as many operations as a share of the largest batch.
pub open spec fn reaches(queue: Seq<BatchOperation>, max_batch_size: usize, share: int) -> bool {
    queue.len() >= max_batch_size as int / share
}

/// Whether a queue gave up a batch if that was due, and stayed as it is if not.
pub open spec fn gave(
    due: bool,
    max_size: nat,
    before: Seq<BatchOperation>,
    after: Seq<BatchOperation>,
    batch: Seq<BatchOperation>,
) -> bool {
    if due {
        after.len() == 0 && is_batch_of(before, max_size, batch)
    } else {
        after == before && batch.len() == 0
    }
}

impl TypedQueues {
    /// Nothing waits.
    pub fn new() -> (r: TypedQueues)
        ensures
            r.add_queue@.len() == 0,
            r.get_queue@.len() == 0,
            r.pin_queue@.len() == 0,
            r.pubsub_queue@.len() == 0,
    {
        TypedQueues {
            add_queue: Vec::new(),
            get_queue: Vec::new(),
            pin_queue: Vec::new(),
            pubsub_queue: Vec::new(),
        }
    }

    /// Lets an operation wait in the queue for its type.
    pub fn add_to_typed_queue(&mut self, operation: BatchOperation)
        ensures
            queued(*old(self), operation, *final(self)),
    {
        match operation.operation_type {
            OperationType::Add => {
                self.add_queue.push(operation);
            },
            OperationType::Get => {
                self.get_queue.push(operation);
            },
            OperationType::PubSubPublish => {
                self.pubsub_queue.push(operation);
            },
            _ => {
                self.pin_queue.push(operation);
            },
        }
    }

    /// Whether a batch is due because many operations wait: a quarter of the largest batch
    /// to add, half of it to get, or a third of it to pin.
    pub fn check_smart_processing(&self, config: &BatchConfig) -> (r: bool)
        ensures
            r == (reaches(self.add_queue@, config.max_batch_size, 4) || reaches(
                self.get_queue@,
                config.max_batch_size,
                2,
            ) || reaches(self.pin_queue@, config.max_batch_size, 3)),
    {
        self.add_queue.len() >= config.max_batch_size / 4 || self.get_queue.len()
            >= config.max_batch_size / 2 || self.pin_queue.len() >= config.max_batch_size / 3
    }

    /// Takes out the batches to add and to get that are due because many operations wait.
    pub fn take_ready_batches(&mut self, config: &BatchConfig) -> (r: DueBatches)
        ensures
            gave(
                reaches(old(self).add_queue@, config.max_batch_size, 4),
                (config.max_batch_size / 4) as nat,
                old(self).add_queue@,
                final(self).add_queue@,
                r.add@,
            ),
            gave(
                reaches(old(self).get_queue@, config.max_batch_size, 2),
                (config.max_batch_size / 2) as nat,
                old(self).get_queue@,
                final(self).get_queue@,
                r.get@,
            ),
            r.pin@.len() == 0,
            r.pubsub@.len() == 0,
            final(self).pin_queue == old(self).pin_queue,
            final(self).pubsub_queue == old(self).pubsub_queue,
    {
        let mut add: Vec<BatchOperation> = Vec::new();
        let mut get: Vec<BatchOperation> = Vec::new();
        if self.add_queue.len() >= config.max_batch_size / 4 {
            add = extract_batch(&mut self.add_queue, config.max_batch_size / 4);
        }
        if self.get_queue.len() >= config.max_batch_size / 2 {
            get = extract_batch(&mut self.get_queue, config.max_batch_size / 2);
        }
        DueBatches { add, get, pin: Vec::new(), pubsub: Vec::new() }
    }

    /// Whether the automatic processor has anything to do: many operations wait, or the
    /// first one to add, to get or to pin has waited for long.
    pub fn should_process(&self, config: &BatchConfig, now: u64) -> (r: bool)
        ensures
            r == (reaches(self.add_queue@, config.max_batch_size, 4) || reaches(
                self.get_queue@,
                config.max_batch_size,
                2,
            ) || reaches(self.pin_queue@, config.max_batch_size, 3) || reaches(
                self.pubsub_queue@,
                config.max_batch_size,
                6,
            ) || is_old(self.add_queue@, config.max_batch_wait_ms, now) || is_old(
                self.get_queue@,
                config.max_batch_wait_ms,
                now,
            ) || is_old(self.pin_queue@, config.max_batch_wait_ms, now)),
    {
        self.check_smart_processing(config) || self.pubsub_queue.len() >= config.max_batch_size / 6
            || has_old_operations(&self.add_queue, config.max_batch_wait_ms, now)
            || has_old_operations(&self.get_queue, config.max_batch_wait_ms, now)
            || has_old_operations(&self.pin_queue, config.max_batch_wait_ms, now)
    }

    /// Takes out everything that waits in the queues whose turn it is: to add, to get and
    /// to pin if many operations wait or the first has waited for long, and to publish
    /// always.
    pub fn take_automatic_batches(&mut self, config: &BatchConfig, now: u64) -> (r: DueBatches)
        ensures
            gave(
                old(self).add_queue@.len() > 0 && (reaches(
                    old(self).add_queue@,
                    config.max_batch_size,
                    4,
                ) || is_old(old(self).add_queue@, config.max_batch_wait_ms, now)),
                old(self).add_queue@.len(),
                old(self).add_queue@,
                final(self).add_queue@,
                r.add@,
            ),
            gave(
                old(self).get_queue@.len() > 0 && (reaches(
                    old(self).get_queue@,
                    config.max_batch_size,
                    2,
                ) || is_old(old(self).get_queue@, config.max_batch_wait_ms, now)),
                old(self).get_queue@.len(),
                old(self).get_queue@,
                final(self).get_queue@,
                r.get@,
            ),
            gave(
                old(self).pin_queue@.len() > 0 && (reaches(
                    old(self).pin_queue@,
                    config.max_batch_size,
                    3,
                ) || is_old(old(self).pin_queue@, config.max_batch_wait_ms, now)),
                old(self).pin_queue@.len(),
                old(self).pin_queue@,
                final(self).pin_queue@,
                r.pin@,
            ),
            gave(
                old(self).pubsub_queue@.len() > 0,
                old(self).pubsub_queue@.len(),
                old(self).pubsub_queue@,
                final(self).pubsub_queue@,
                r.pubsub@,
            ),
    {
        let mut add: Vec<BatchOperation> = Vec::new();
        let mut get: Vec<BatchOperation> = Vec::new();
        let mut pin: Vec<BatchOperation> = Vec::new();
        let mut pubsub: Vec<BatchOperation> = Vec::new();
        let add_len: usize = self.add_queue.len();
        if add_len > 0 && (add_len >= config.max_batch_size / 4 || has_old_operations(
            &self.add_queue,
            config.max_batch_wait_ms,
            now,
        )) {
            add = extract_batch(&mut self.add_queue, add_len);
        }
        let get_len: usize = self.get_queue.len();
        if get_len > 0 && (get_len >= config.max_batch_size / 2 || has_old_operations(
            &self.get_queue,
            config.max_batch_wait_ms,
            now,
        )) {
            get = extract_batch(&mut self.get_queue, get_len);
        }
        let pin_len: usize = self.pin_queue.len();
        if pin_len > 0 && (pin_len >= config.max_batch_size / 3 || has_old_operations(
            &self.pin_queue,
            config.max_batch_wait_ms,
            now,
        )) {
            pin = extract_batch(&mut self.pin_queue, pin_len);
        }
        let pubsub_len: usize = self.pubsub_queue.len();
        if pubsub_len > 0 {
            pubsub = extract_batch(&mut self.pubsub_queue, pubsub_len);
        }
        DueBatches { add, get, pin, pubsub }
    }
}

/// What is due once an operation was added.
#[derive(Clone, Copy, PartialEq, Eq, Structural, Debug)]
pub enum Immediate {
    Nothing,
    /// The batches that are ready.
    Ready,
    /// The operations that wait in one queue.
    Pending,
}

/// What the automatic processor does when it looks.
#[derive(Clone, Copy, PartialEq, Eq, Structural, Debug)]
pub enum Tick {
    Nothing,
    /// It takes the automatic batches by type.
    Typed,
    /// It takes a batch of the operations that wait in one queue.
    Pending,
}

/// Operations of one kind or another that wait.
#[derive(Debug)]
pub struct BatchProcessor {
    pub pending_operations: Vec<BatchOperation>,
    pub typed_queues: TypedQueues,
    pub batch_config: BatchConfig,
}

impl BatchProcessor {
    /// Nothing waits.
    pub fn new(batch_config: BatchConfig) -> (r: BatchProcessor)
        ensures
            r.pending_operations@.len() == 0,
            r.typed_queues.add_queue@.len() == 0,
            r.typed_queues.get_queue@.len() == 0,
            r.typed_queues.pin_queue@.len() == 0,
            r.typed_queues.pubsub_queue@.len() == 0,
            r.batch_config == batch_config,
    {
        BatchProcessor {
            pending_operations: Vec::new(),
            typed_queues: TypedQueues::new(),
            batch_config,
        }
    }

    /// An operation with an identifier of its own.
    pub fn operation(
        operation_type: OperationType,
        data: OperationData,
        priority: u8,
        now: u64,
    ) -> (r: BatchOperation)
        ensures
            is_random_id(r.id@),
            r == (BatchOperation {
                id: r.id,
                operation_type,
                data,
                created_at: now,
                priority,
                resource_estimate: estimate(operation_type),
            }),
    {
        BatchOperation {
            id: ids::random_id(),
            operation_type,
            data,
            created_at: now,
            priority,
            resource_estimate: estimate_resources(operation_type),
        }
    }

    /// Lets an operation wait, by type or with all others; tells what is due then.
    pub fn add_batch_operation(&mut self, operation: BatchOperation) -> (r: Immediate)
        ensures
            final(self).batch_config == old(self).batch_config,
            if old(self).batch_config.enable_smart_batching {
                &&& queued(old(self).typed_queues, operation, final(self).typed_queues)
                &&& final(self).pending_operations == old(self).pending_operations
                &&& r == if reaches(
                    final(self).typed_queues.add_queue@,
                    old(self).batch_config.max_batch_size,
                    4,
                ) || reaches(
                    final(self).typed_queues.get_queue@,
                    old(self).batch_config.max_batch_size,
                    2,
                ) || reaches(
                    final(self).typed_queues.pin_queue@,
                    old(self).batch_config.max_batch_size,
                    3,
                ) {
                    Immediate::Ready
                } else {
                    Immediate::Nothing
                }
            } else {
                &&& final(self).pending_operations@ == old(self).pending_operations@.push(operation)
                &&& final(self).typed_queues == old(self).typed_queues
                &&& r == if final(self).pending_operations@.len()
                    >= old(self).batch_config.max_batch_size {
                    Immediate::Pending
                } else {
                    Immediate::Nothing
                }
            },
    {
        if self.batch_config.enable_smart_batching {
            self.typed_queues.add_to_typed_queue(operation);
            if self.typed_queues.check_smart_processing(&self.batch_config) {
                Immediate::Ready
            } else {
                Immediate::Nothing
            }
        } else {
            self.pending_operations.push(operation);
            if self.pending_operations.len() >= self.batch_config.max_batch_size {
                Immediate::Pending
            } else {
                Immediate::Nothing
            }
        }
    }

    /// What the automatic processor does each time that it looks, if it is free.
    pub fn automatic_tick(&self, now: u64) -> (r: Tick)
        ensures
            r == if self.batch_config.enable_smart_batching {
                if reaches(self.typed_queues.add_queue@, self.batch_config.max_batch_size, 4)
                    || reaches(self.typed_queues.get_queue@, self.batch_config.max_batch_size, 2)
                    || reaches(self.typed_queues.pin_queue@, self.batch_config.max_batch_size, 3)
                    || reaches(self.typed_queues.pubsub_queue@, self.batch_config.max_batch_size, 6)
                    || is_old(
                    self.typed_queues.add_queue@,
                    self.batch_config.max_batch_wait_ms,
                    now,
                ) || is_old(
                    self.typed_queues.get_queue@,
                    self.batch_config.max_batch_wait_ms,
                    now,
                ) || is_old(
                    self.typed_queues.pin_queue@,
                    self.batch_config.max_batch_wait_ms,
                    now,
                ) {
                    Tick::Typed
                } else {
                    Tick::Nothing
                }
            } else if self.pending_operations@.len() > 0 {
                Tick::Pending
            } else {
                Tick::Nothing
            },
    {
        if self.batch_config.enable_smart_batching {
            if self.typed_queues.should_process(&self.batch_config, now) {
                Tick::Typed
            } else {
                Tick::Nothing
            }
        } else if self.pending_operations.len() > 0 {
            Tick::Pending
        } else {
            Tick::Nothing
        }
    }

    /// Takes out the operations that wait with all others, at most as many as make the
    /// largest batch, in order of arrival.
    pub fn take_pending_batch(&mut self) -> (r: Vec<BatchOperation>)
        ensures
            r@.len() <= old(self).batch_config.max_batch_size,
            final(self).pending_operations@.len() == 0 || r@.len()
                == old(self).batch_config.max_batch_size,
            old(self).pending_operations@ == r@ + final(self).pending_operations@,
            final(self).typed_queues == old(self).typed_queues,
            final(self).batch_config == old(self).batch_config,
    {
        let ghost whole = self.pending_operations@;
        let size: usize = if self.batch_config.max_batch_size <= self.pending_operations.len() {
            self.batch_config.max_batch_size
        } else {
            self.pending_operations.len()
        };
        let rest: Vec<BatchOperation> = self.pending_operations.split_off(size);
        let mut batch: Vec<BatchOperation> = rest;
        std::mem::swap(&mut batch, &mut self.pending_operations);
        assert(batch@ + self.pending_operations@ =~= whole);
        batch
    }
}

impl BatchStats {
    /// Nothing was processed.
    pub fn new() -> (r: BatchStats)
        ensures
            r == (BatchStats {
                total_operations: 0,
                batched_operations: 0,
                individual_operations: 0,
            }),
    {
        BatchStats { total_operations: 0, batched_operations: 0, individual_operations: 0 }
    }

    /// Counts a batch of one type that was ready.
    pub fn typed_batch(&mut self, size: usize)
        requires
            old(self).batched_operations + size <= u64::MAX,
        ensures
            *final(self) == (BatchStats {
                batched_operations: (old(self).batched_operations + size) as u64,
                ..*old(self)
            }),
    {
        self.batched_operations = self.batched_operations + size as u64;
    }

    /// Counts a batch of one type that the automatic processor took.
    pub fn automatic_batch(&mut self, size: usize)
        requires
            old(self).batched_operations + size <= u64::MAX,
            old(self).total_operations + size <= u64::MAX,
        ensures
            *final(self) == (BatchStats {
                batched_operations: (old(self).batched_operations + size) as u64,
                total_operations: (old(self).total_operations + size) as u64,
                ..*old(self)
            }),
    {
        self.batched_operations = self.batched_operations + size as u64;
        self.total_operations = self.total_operations + size as u64;
    }

    /// Counts operations that waited with all others and were due at once.
    pub fn pending_batch(&mut self, size: usize)
        requires
            old(self).total_operations + size <= u64::MAX,
        ensures
            *final(self) == (BatchStats {
                total_operations: (old(self).total_operations + size) as u64,
                ..*old(self)
            }),
    {
        self.total_operations = self.total_operations + size as u64;
    }

    /// Counts operations that waited with all others and that the automatic processor took.
    pub fn automatic_pending_batch(&mut self, size: usize)
        requires
            old(self).total_operations + size <= u64::MAX,
            old(self).individual_operations + size <= u64::MAX,
        ensures
            *final(self) == (BatchStats {
                total_operations: (old(self).total_operations + size) as u64,
                individual_operations: (old(self).individual_operations + size) as u64,
                ..*old(self)
            }),
    {
        self.total_operations = self.total_operations + size as u64;
        self.individual_operations = self.individual_operations + size as u64;
    }
}

/// What an operation adds, if it does.
pub open spec fn added_data(op: BatchOperation) -> Seq<u8> {
    match op.data {
        OperationData::AddData { data, options } => data@,
        _ => Seq::empty(),
    }
}

/// What operations add, put together.
pub open spec fn combined(ops: Seq<BatchOperation>) -> Seq<u8>
    decreases ops.len(),
{
    if ops.len() == 0 {
        Seq::empty()
    } else {
        combined(ops.drop_last()) + added_data(ops.last())
    }
}

/// Where the contents that operations add are in what is put together: for each operation
/// that adds, its identifier, where its content begins and where it ends.
pub open spec fn ranges(ops: Seq<BatchOperation>) -> Seq<(Seq<char>, nat, nat)>
    decreases ops.len(),
{
    if ops.len() == 0 {
        Seq::empty()
    } else {
        let before = ranges(ops.drop_last());
        if ops.last().data is AddData {
            before.push(
                (
                    ops.last().id@,
                    combined(ops.drop_last()).len(),
                    combined(ops).len(),
                ),
            )
        } else {
            before
        }
    }
}

/// The views of ranges.
pub open spec fn range_views(v: Seq<(String, usize, usize)>) -> Seq<(Seq<char>, nat, nat)> {
    v.map_values(|e: (String, usize, usize)| (e.0@, e.1 as nat, e.2 as nat))
}

/// Contents that were put together, and where each of them is.
#[derive(Debug)]
pub struct CombinedAdd {
    pub data: Vec<u8>,
    pub ranges: Vec<(String, usize, usize)>,
}

/// Puts together what the operations of a batch add, if that is large enough and there is
/// more than one operation; otherwise they are carried out one by one.
pub fn combine_adds(batch: &Vec<BatchOperation>, compression_threshold: usize) -> (r: Option<
    CombinedAdd,
>)
    requires
        combined(batch@).len() <= usize::MAX,
    ensures
        match r {
            Some(c) => combined(batch@).len() > compression_threshold && batch@.len() > 1 && c.data@
                == combined(batch@) && range_views(c.ranges@) == ranges(batch@),
            None => combined(batch@).len() <= compression_threshold || batch@.len() <= 1,
        },
{
    let mut data: Vec<u8> = Vec::new();
    let mut places: Vec<(String, usize, usize)> = Vec::new();
    let mut i: usize = 0;
    assert(batch@.take(0) =~= Seq::empty());
    assert(range_views(places@) =~= Seq::empty());
    assert(data@ =~= Seq::<u8>::empty());
    while i < batch.len()
        invariant
            i <= batch@.len(),
            data@ == combined(batch@.take(i as int)),
            range_views(places@) == ranges(batch@.take(i as int)),
        decreases batch@.len() - i,
    {
        let ghost taken = batch@.take(i + 1);
        assert(taken.drop_last() =~= batch@.take(i as int));
        assert(taken.last() == batch@[i as int]);
        let ghost had = range_views(places@);
        match &batch[i].data {
            OperationData::AddData { data: content, options } => {
                let start: usize = data.len();
                data.extend_from_slice(content.as_slice());
                assert(data@ =~= combined(taken));
                let end: usize = data.len();
                places.push((batch[i].id.clone(), start, end));
                assert(range_views(places@) =~= ranges(taken));
            },
            _ => {
                assert(data@ =~= combined(taken));
            },
        }
        i += 1;
    }
    assert(batch@.take(i as int) =~= batch@);
    if data.len() > compression_threshold && batch.len() > 1 {
        Some(CombinedAdd { data, ranges: places })
    } else {
        None
    }
}

/// Whether answers are those for contents at places in what was put together and added as
/// one: the name with the operation's identifier behind it, the hash with the place behind
/// it, and the size of the content.
pub open spec fn shares(
    whole: AddResponse,
    places: Seq<(Seq<char>, nat, nat)>,
    answers: Seq<(String, AddResponse)>,
) -> bool {
    &&& answers.len() == places.len()
    &&& forall|i: int|
        0 <= i < answers.len() ==> {
            let (id, response) = #[trigger] answers[i];
            let (name, start, end) = places[i];
            &&& id@ == name
            &&& response.name@ == whole.name@ + "_"@ + name
            &&& response.hash@ == whole.hash@ + "_"@ + decimal_text(start)
            &&& response.size@ == decimal_text((end - start) as nat)
        }
}

/// The answers to operations whose contents were put together and added as one.
pub fn distribute_add(whole: &AddResponse, places: &Vec<(String, usize, usize)>) -> (r: Vec<
    (String, AddResponse),
>)
    requires
        forall|i: int| 0 <= i < places@.len() ==> (#[trigger] places@[i]).1 <= places@[i].2,
    ensures
        shares(*whole, range_views(places@), r@),
{
    let mut out: Vec<(String, AddResponse)> = Vec::new();
    let mut i: usize = 0;
    while i < places.len()
        invariant
            i <= places@.len(),
            out@.len() == i,
            forall|j: int| 0 <= j < places@.len() ==> (#[trigger] places@[j]).1 <= places@[j].2,
            forall|j: int|
                0 <= j < i ==> {
                    let (id, response) = #[trigger] out@[j];
                    let (name, start, end) = range_views(places@)[j];
                    &&& id@ == name
                    &&& response.name@ == whole.name@ + "_"@ + name
                    &&& response.hash@ == whole.hash@ + "_"@ + decimal_text(start)
                    &&& response.size@ == decimal_text((end - start) as nat)
                },
        decreases places@.len() - i,
    {
        let id: String = places[i].0.clone();
        let start: usize = places[i].1;
        let end: usize = places[i].2;
        assert(places@[i as int].1 <= places@[i as int].2);
        let place: String = text::decimal(start as u64);
        let response = AddResponse {
            name: text::join3(whole.name.as_str(), "_", id.as_str()),
            hash: text::join3(whole.hash.as_str(), "_", place.as_str()),
            size: text::decimal((end - start) as u64),
        };
        out.push((id, response));
        i += 1;
    }
    out
}

/// The ranges of a batch lie within what was put together, each of them holds the content
/// of its operation, and none ends before it begins.
pub proof fn lemma_ranges_hold_contents(ops: Seq<BatchOperation>, i: int)
    requires
        0 <= i < ranges(ops).len(),
    ensures
        ranges(ops)[i].1 <= ranges(ops)[i].2 <= combined(ops).len(),
        exists|k: int|
            0 <= k < ops.len() && (#[trigger] ops[k]).data is AddData && ops[k].id@
                == ranges(ops)[i].0 && combined(ops).subrange(
                ranges(ops)[i].1 as int,
                ranges(ops)[i].2 as int,
            ) == added_data(ops[k]),
    decreases ops.len(),
{
    if ops.len() > 0 {
        let front = ops.drop_last();
        let inner = ranges(front);
        let all = combined(ops);
        if i < inner.len() {
            lemma_ranges_hold_contents(front, i);
            let k = choose|k: int|
                0 <= k < front.len() && (#[trigger] front[k]).data is AddData && front[k].id@
                    == inner[i].0 && combined(front).subrange(
                    inner[i].1 as int,
                    inner[i].2 as int,
                ) == added_data(front[k]);
            assert(ops[k] == front[k]);
            assert(all.subrange(inner[i].1 as int, inner[i].2 as int) =~= combined(front).subrange(
                inner[i].1 as int,
                inner[i].2 as int,
            ));
        } else {
            let k = ops.len() - 1;
            assert(ops[k] == ops.last());
            assert(all.subrange(ranges(ops)[i].1 as int, ranges(ops)[i].2 as int) =~= added_data(
                ops[k],
            ));
        }
    }
}

/// The hashes that operations pin, in order; operations that do something else have none.
pub open spec fn pinned_hashes(ops: Seq<BatchOperation>) -> Seq<Seq<char>>
    decreases ops.len(),
{
    if ops.len() == 0 {
        Seq::empty()
    } else {
        match ops.last().data {
            OperationData::PinHash { hash, options } => pinned_hashes(ops.drop_last()).push(hash@),
            _ => pinned_hashes(ops.drop_last()),
        }
    }
}

/// The hashes that the operations of a batch pin.
pub fn pin_hashes(batch: &Vec<BatchOperation>) -> (r: Vec<String>)
    ensures
        texts(r@) == pinned_hashes(batch@),
{
    let mut out: Vec<String> = Vec::new();
    let mut i: usize = 0;
    assert(batch@.take(0) =~= Seq::empty());
    assert(texts(out@) =~= Seq::empty());
    while i < batch.len()
        invariant
            i <= batch@.len(),
            texts(out@) == pinned_hashes(batch@.take(i as int)),
        decreases batch@.len() - i,
    {
        let ghost taken = batch@.take(i + 1);
        assert(taken.drop_last() =~= batch@.take(i as int));
        assert(taken.last() == batch@[i as int]);
        let ghost had = texts(out@);
        match &batch[i].data {
            OperationData::PinHash { hash, options } => {
                out.push(hash.clone());
                assert(texts(out@) =~= had.push(hash@));
            },
            _ => {},
        }
        i += 1;
    }
    assert(batch@.take(i as int) =~= batch@);
    out
}

/// The answers to the operations of a batch, by place: whether the hash at that place was
/// pinned, and that it was not where there is none.
pub fn distribute_pins(batch: &Vec<BatchOperation>, pinned: &Vec<bool>) -> (r: Vec<bool>)
    ensures
        r@.len() == batch@.len(),
        forall|i: int|
            0 <= i < r@.len() ==> #[trigger] r@[i] == (i < pinned@.len() && pinned@[i]),
{
    let mut out: Vec<bool> = Vec::new();
    let mut i: usize = 0;
    while i < batch.len()
        invariant
            i <= batch@.len(),
            out@.len() == i,
            forall|j: int|
                0 <= j < i ==> #[trigger] out@[j] == (j < pinned@.len() && pinned@[j]),
        decreases batch@.len() - i,
    {
        let ok: bool = if i < pinned.len() {
            pinned[i]
        } else {
            false
        };
        out.push(ok);
        i += 1;
    }
    out
}

/// The topic that an operation publishes to, if it does.
pub open spec fn topic_of(op: BatchOperation) -> Option<Seq<char>> {
    match op.data {
        OperationData::PubSubData { topic, data } => Some(topic@),
        _ => None,
    }
}

/// The operations that publish to a topic, in order.
pub open spec fn on_topic(ops: Seq<BatchOperation>, topic: Seq<char>) -> Seq<BatchOperation> {
    ops.filter(|op: BatchOperation| topic_of(op) == Some(topic))
}

/// The contents of groups.
pub open spec fn group(groups: Seq<(Seq<char>, Vec<BatchOperation>)>, topic: Seq<char>) -> Seq<
    BatchOperation,
> {
    match lookup(groups, topic) {
        Some(v) => v@,
        None => Seq::empty(),
    }
}

/// Groups the operations of a batch by the topic that they publish to; others are left out.
pub fn group_by_topic(batch: Vec<BatchOperation>) -> (r: TextMap<Vec<BatchOperation>>)
    ensures
        forall|topic: Seq<char>| #[trigger] group(r@, topic) == on_topic(batch@, topic),
{
    let ghost whole = batch@;
    let mut left: Vec<BatchOperation> = sorting::reversed(batch);
    let mut groups: TextMap<Vec<BatchOperation>> = TextMap::new();
    let ghost mut done: int = 0;
    proof {
        reveal(Seq::filter);
        assert(whole.take(0) =~= Seq::empty());
    }
    while left.len() > 0
        invariant
            done + left@.len() == whole.len(),
            0 <= done,
            left@ == whole.reverse().take(left@.len() as int),
            forall|topic: Seq<char>|
                #[trigger] group(groups@, topic) == on_topic(whole.take(done), topic),
        decreases left@.len(),
    {
        let ghost n = left@.len() as int;
        let ghost before = groups@;
        let ghost taken = whole.take(done + 1);
        assert(taken.drop_last() =~= whole.take(done));
        match left.pop() {
            Some(op) => {
                assert(op == whole.reverse()[n - 1]);
                assert(op == whole[done]);
                assert(taken.last() == op);
                let topic: Option<String> = match &op.data {
                    OperationData::PubSubData { topic, data } => Some(topic.clone()),
                    _ => None,
                };
                proof {
                    reveal(Seq::filter);
                }
                match topic {
                    Some(name) => {
                        let ghost had = group(before, name@);
                        let mut list: Vec<BatchOperation> = match groups.remove(name.as_str()) {
                            Some(list) => list,
                            None => Vec::new(),
                        };
                        assert(list@ =~= had);
                        let ghost rest = groups@;
                        list.push(op);
                        let ghost now = list;
                        let ghost key = name@;
                        groups.insert(name, list);
                        proof {
                            assert forall|t: Seq<char>| #[trigger] group(groups@, t) == on_topic(
                                taken,
                                t,
                            ) by {
                                crate::entries::lemma_lookup_with_entry(rest, key, now, t);
                                if t != key {
                                    lemma_lookup_other(before, key, t);
                                    assert(group(before, t) == on_topic(whole.take(done), t));
                                } else {
                                    assert(group(before, key) == on_topic(whole.take(done), key));
                                }
                            }
                        }
                    },
                    None => {
                        assert forall|t: Seq<char>| #[trigger] group(groups@, t) == on_topic(
                            taken,
                            t,
                        ) by {
                            assert(group(before, t) == on_topic(whole.take(done), t));
                        }
                    },
                }
            },
            None => {},
        }
        proof {
            done = done + 1;
        }
        assert(whole.reverse().take(n).drop_last() =~= whole.reverse().take(n - 1));
    }
    assert(whole.take(done) =~= whole);
    groups
}

/// Removing a key leaves what is found under another.
proof fn lemma_lookup_other<V>(entries: Seq<(Seq<char>, V)>, key: Seq<char>, other: Seq<char>)
    requires
        other != key,
    ensures
        lookup(without_entry(entries, key), other) == lookup(entries, other),
    decreases entries.len(),
{
    if entries.len() > 0 {
        let rest = entries.skip(1);
        if entries[0].0 == key {
            assert(without_entry(entries, key) =~= rest);
        } else {
            lemma_lookup_other(rest, key, other);
            let after = without_entry(entries, key);
            assert(after.skip(1) =~= without_entry(rest, key));
        }
    }
}

/// What the backend is asked to do about an operation that is carried out by itself.
#[derive(Debug)]
pub enum IndividualStep {
    /// Add content.
    Add(Vec<u8>),
    /// Get the content under a hash.
    Get(String),
    /// Pin the content under a hash.
    Pin(String),
    /// Unpin the content under a hash.
    Unpin(String),
    /// Publish to a topic.
    Publish { topic: String, data: Vec<u8> },
}

impl BatchProcessor {
    /// What the backend is asked to do about an operation that is carried out by itself.
    pub fn individual_step(data: OperationData) -> (r: IndividualStep)
        ensures
            r == match data {
                OperationData::AddData { data: content, options } => IndividualStep::Add(content),
                OperationData::GetHash { hash, options } => IndividualStep::Get(hash),
                OperationData::PinHash { hash, options } => IndividualStep::Pin(hash),
                OperationData::UnpinHash { hash } => IndividualStep::Unpin(hash),
                OperationData::PubSubData { topic, data: content } => IndividualStep::Publish {
                    topic,
                    data: content,
                },
            },
    {
        match data {
            OperationData::AddData { data: content, options } => IndividualStep::Add(content),
            OperationData::GetHash { hash, options } => IndividualStep::Get(hash),
            OperationData::PinHash { hash, options } => IndividualStep::Pin(hash),
            OperationData::UnpinHash { hash } => IndividualStep::Unpin(hash),
            OperationData::PubSubData { topic, data: content } => IndividualStep::Publish {
                topic,
                data: content,
            },
        }
    }

    /// The answer to an operation that adds, by what the backend answered.
    pub fn add_operation(added: Result<AddResponse, String>) -> (r: Result<
        OperationResult,
        GuardianError,
    >)
        ensures
            outcome(r) == match added {
                Ok(response) => Ok::<OperationResult, Failure>(
                    OperationResult::AddResult(response),
                ),
                Err(detail) => Err(Failure::Other("Error in IrohBackend.add(): "@ + detail@)),
            },
    {
        match added {
            Ok(response) => Ok(OperationResult::AddResult(response)),
            Err(detail) => Err(
                GuardianError::Other(text::join2("Error in IrohBackend.add(): ", detail.as_str())),
            ),
        }
    }

    /// The answer to an operation that gets, by what the backend answered.
    pub fn get_operation(hash: &str, got: Result<Vec<u8>, String>) -> (r: Result<
        OperationResult,
        GuardianError,
    >)
        ensures
            outcome(r) == match got {
                Ok(data) => Ok::<OperationResult, Failure>(OperationResult::GetResult(data)),
                Err(detail) => Err(
                    Failure::Other("Error in IrohBackend.cat("@ + hash@ + "): "@ + detail@),
                ),
            },
    {
        match got {
            Ok(data) => Ok(OperationResult::GetResult(data)),
            Err(detail) => {
                let head: String = text::join3("Error in IrohBackend.cat(", hash, "): ");
                Err(GuardianError::Other(text::join2(head.as_str(), detail.as_str())))
            },
        }
    }

    /// The answer to an operation that pins: that the backend cannot is no error.
    pub fn pin_operation(pinned: Result<(), String>) -> (r: OperationResult)
        ensures
            r == OperationResult::PinResult(pinned is Ok),
    {
        OperationResult::PinResult(pinned.is_ok())
    }

    /// The answer to an operation that unpins: that the backend cannot is no error.
    pub fn unpin_operation(unpinned: Result<(), String>) -> (r: OperationResult)
        ensures
            r == OperationResult::UnpinResult(unpinned is Ok),
    {
        OperationResult::UnpinResult(unpinned.is_ok())
    }

    /// The answer to an operation that publishes: that it cannot be done is no error.
    pub fn pubsub_operation(published: Result<(), String>) -> (r: OperationResult)
        ensures
            r == OperationResult::PubSubResult(published is Ok),
    {
        OperationResult::PubSubResult(published.is_ok())
    }

    /// The answer of the automatic processor to an operation that adds.
    pub fn add_operation_static(added: Result<AddResponse, String>) -> (r: Result<
        OperationResult,
        GuardianError,
    >)
        ensures
            outcome(r) == match added {
                Ok(response) => Ok::<OperationResult, Failure>(
                    OperationResult::AddResult(response),
                ),
                Err(detail) => Err(Failure::Other("Error in add: "@ + detail@)),
            },
    {
        match added {
            Ok(response) => Ok(OperationResult::AddResult(response)),
            Err(detail) => Err(
                GuardianError::Other(text::join2("Error in add: ", detail.as_str())),
            ),
        }
    }

    /// The answer of the automatic processor to an operation that gets.
    pub fn get_operation_static(hash: &str, got: Result<Vec<u8>, String>) -> (r: Result<
        OperationResult,
        GuardianError,
    >)
        ensures
            outcome(r) == match got {
                Ok(data) => Ok::<OperationResult, Failure>(OperationResult::GetResult(data)),
                Err(detail) => Err(
                    Failure::Other("Error in cat for "@ + hash@ + ": "@ + detail@),
                ),
            },
    {
        match got {
            Ok(data) => Ok(OperationResult::GetResult(data)),
            Err(detail) => {
                let head: String = text::join3("Error in cat for ", hash, ": ");
                Err(GuardianError::Other(text::join2(head.as_str(), detail.as_str())))
            },
        }
    }
}

/// What the automatic processor does about an operation.
#[derive(Debug)]
pub enum AutomaticStep {
    /// Adds content; the result is the operation's.
    Add(Vec<u8>),
    /// Gets content; the result is the operation's.
    Get(String),
    /// Pins content; that it failed is no error.
    Pin(String),
    /// Nothing: the answer is known.
    Answer(Result<OperationResult, GuardianError>),
}

/// What the automatic processor does about an operation. It cannot publish, which is
/// answered with `false`, nor unpin, which is an error.
pub fn automatic_step(data: OperationData) -> (r: AutomaticStep)
    ensures
        match data {
            OperationData::AddData { data: content, options } => r == AutomaticStep::Add(content),
            OperationData::GetHash { hash, options } => r == AutomaticStep::Get(hash),
            OperationData::PinHash { hash, options } => r == AutomaticStep::Pin(hash),
            OperationData::PubSubData { topic, data: content } => r == AutomaticStep::Answer(
                Ok(OperationResult::PubSubResult(false)),
            ),
            OperationData::UnpinHash { hash } => r matches AutomaticStep::Answer(answer) && outcome(
                answer,
            ) == Err::<OperationResult, Failure>(Failure::Other("Operation not implemented"@)),
        },
{
    match data {
        OperationData::AddData { data: content, options } => AutomaticStep::Add(content),
        OperationData::GetHash { hash, options } => AutomaticStep::Get(hash),
        OperationData::PinHash { hash, options } => AutomaticStep::Pin(hash),
        OperationData::PubSubData { topic, data: content } => AutomaticStep::Answer(
            Ok(OperationResult::PubSubResult(false)),
        ),
        OperationData::UnpinHash { hash } => AutomaticStep::Answer(
            Err(GuardianError::Other(text::owned("Operation not implemented"))),
        ),
    }
}

/// The timing of an operation.
#[derive(Clone, Copy, PartialEq, Eq, Structural, Debug)]
pub struct TimingEntry {
    pub operation_type: OperationType,
    pub timestamp: u64,
    pub duration_ms: u64,
    pub data_size: u64,
}

/// The timings of the last operations, and how large they were on average.
#[derive(Debug)]
pub struct OperationHistory {
    timing_history: Vec<TimingEntry>,
    add: Option<u64>,
    get: Option<u64>,
    pin: Option<u64>,
    unpin: Option<u64>,
    pubsub: Option<u64>,
}

/// The average once one more size was taken in: half way between the average, which is 0
/// at first, and the size.
pub open spec fn next_average(average: Option<u64>, size: u64) -> u64 {
    (((match average {
        Some(a) => a as int,
        None => 0,
    }) + size) / 2) as u64
}

/// The timings once one more was taken in: the oldest gives way if there are too many.
pub open spec fn next_timings(timings: Seq<TimingEntry>, entry: TimingEntry) -> Seq<TimingEntry> {
    if timings.len() >= MAX_TIMINGS {
        timings.push(entry).skip(1)
    } else {
        timings.push(entry)
    }
}

/// The average once one more size was taken in.
fn average_with(average: Option<u64>, size: u64) -> (r: u64)
    ensures
        r == next_average(average, size),
{
    let had: u64 = match average {
        Some(a) => a,
        None => 0,
    };
    (((had as u128) + (size as u128)) / 2) as u64
}

impl OperationHistory {
    /// The timings.
    pub closed spec fn timings(self) -> Seq<TimingEntry> {
        self.timing_history@
    }

    /// The average size of operations of a type.
    pub closed spec fn average(self, t: OperationType) -> Option<u64> {
        match t {
            OperationType::Add => self.add,
            OperationType::Get => self.get,
            OperationType::Pin => self.pin,
            OperationType::Unpin => self.unpin,
            OperationType::PubSubPublish => self.pubsub,
        }
    }

    /// Nothing was timed yet.
    pub fn new() -> (r: OperationHistory)
        ensures
            r.timings() == Seq::<TimingEntry>::empty(),
            forall|t: OperationType| #[trigger] r.average(t) is None,
    {
        OperationHistory {
            timing_history: Vec::new(),
            add: None,
            get: None,
            pin: None,
            unpin: None,
            pubsub: None,
        }
    }

    /// Takes in the timing of an operation.
    pub fn record_operation_timing(&mut self, entry: TimingEntry)
        ensures
            final(self).timings() == next_timings(old(self).timings(), entry),
            forall|t: OperationType|
                #[trigger] final(self).average(t) == if t == entry.operation_type {
                    Some(next_average(old(self).average(t), entry.data_size))
                } else {
                    old(self).average(t)
                },
    {
        self.timing_history.push(entry);
        if self.timing_history.len() > MAX_TIMINGS {
            let ghost before = self.timing_history@;
            let _ = self.timing_history.remove(0);
            assert(self.timing_history@ =~= before.skip(1));
        }
        match entry.operation_type {
            OperationType::Add => {
                self.add = Some(average_with(self.add, entry.data_size));
            },
            OperationType::Get => {
                self.get = Some(average_with(self.get, entry.data_size));
            },
            OperationType::Pin => {
                self.pin = Some(average_with(self.pin, entry.data_size));
            },
            OperationType::Unpin => {
                self.unpin = Some(average_with(self.unpin, entry.data_size));
            },
            OperationType::PubSubPublish => {
                self.pubsub = Some(average_with(self.pubsub, entry.data_size));
            },
        }
    }

    /// The average size of operations of a type.
    pub fn avg_data_size(&self, operation_type: OperationType) -> (r: Option<u64>)
        ensures
            r == self.average(operation_type),
    {
        match operation_type {
            OperationType::Add => self.add,
            OperationType::Get => self.get,
            OperationType::Pin => self.pin,
            OperationType::Unpin => self.unpin,
            OperationType::PubSubPublish => self.pubsub,
        }
    }
}

/// There is one batch of a queue and a size, and it goes from high to low priority.
pub proof fn lemma_batch_is_unique(
    queue: Seq<BatchOperation>,
    max_size: nat,
    a: Seq<BatchOperation>,
    b: Seq<BatchOperation>,
)
    requires
        is_batch_of(queue, max_size, a),
        is_batch_of(queue, max_size, b),
    ensures
        a == b,
        a.len() == if max_size <= queue.len() {
            max_size
        } else {
            queue.len()
        },
        forall|i: int, j: int| 0 <= i <= j < a.len() ==> (#[trigger] a[i]).priority >= (#[trigger] a[j]).priority,
{
    let keyed = by_priority(queue);
    let n = if max_size <= queue.len() {
        max_size as int
    } else {
        queue.len() as int
    };
    let x = choose|sorted: Seq<(i64, BatchOperation)>|
        #[trigger] sorts_stably(keyed, sorted) && a == operations(sorted).take(n);
    let y = choose|sorted: Seq<(i64, BatchOperation)>|
        #[trigger] sorts_stably(keyed, sorted) && b == operations(sorted).take(n);
    sorting::lemma_stable_sort_unique(keyed, x, y);
    assert forall|i: int| 0 <= i < x.len() implies (#[trigger] x[i]).0 == -(x[i].1.priority as int) by {
        sorting::lemma_sorted_member(keyed, x, i);
        let k = choose|k: int| 0 <= k < keyed.len() && keyed[k] == x[i];
        assert(keyed[k] == ((-(queue[k].priority as int)) as i64, queue[k]));
    }
    assert forall|i: int, j: int| 0 <= i <= j < a.len() implies (#[trigger] a[i]).priority >= (
    #[trigger] a[j]).priority by {
        assert(a[i] == x[i].1 && a[j] == x[j].1);
        assert(x[i].0 <= x[j].0);
    }
}

} // verus!
