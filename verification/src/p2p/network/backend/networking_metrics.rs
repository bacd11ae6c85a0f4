//! Counts and samples of what happens on the network.
//!
//! A sample is a measured duration; it is held by the bits of its floating-point
//! number. Counters wrap around. What is shown is how things were when it was last brought
//! up to date.
use crate::clock;
use vstd::prelude::*;

verus! {

/// How many samples of a kind are kept.
pub const MAX_SAMPLES: usize = 100;

/// How often things happened.
#[derive(Clone, Copy, PartialEq, Eq, Structural, Debug)]
pub struct MetricsCounters {
    pub messages_sent: u64,
    pub messages_received: u64,
    pub connections_total: u64,
    pub disconnections_total: u64,
    pub add_operations: u64,
    pub cat_operations: u64,
    pub discovery_attempts: u64,
    pub successful_discoveries: u64,
}

/// The last samples of each kind, the oldest first.
#[derive(Debug)]
pub struct LatencySamples {
    pub peer_latencies: Vec<u64>,
    pub message_propagation: Vec<u64>,
    pub discovery_times: Vec<u64>,
    pub add_operation_times: Vec<u64>,
    pub cat_operation_times: Vec<u64>,
}

/// The model of the samples.
#[verifier::ext_equal]
pub struct SamplesModel {
    pub peer_latencies: Seq<u64>,
    pub message_propagation: Seq<u64>,
    pub discovery_times: Seq<u64>,
    pub add_operation_times: Seq<u64>,
    pub cat_operation_times: Seq<u64>,
}

impl View for LatencySamples {
    type V = SamplesModel;

    open spec fn view(&self) -> SamplesModel {
        SamplesModel {
            peer_latencies: self.peer_latencies@,
            message_propagation: self.message_propagation@,
            discovery_times: self.discovery_times@,
            add_operation_times: self.add_operation_times@,
            cat_operation_times: self.cat_operation_times@,
        }
    }
}

/// Samples once one more was taken: the oldest gives way if there are too many.
pub open spec fn sampled(samples: Seq<u64>, sample: u64) -> Seq<u64> {
    if samples.len() >= MAX_SAMPLES {
        samples.push(sample).skip(1)
    } else {
        samples.push(sample)
    }
}

/// Samples once one more may have been taken.
pub open spec fn sampled_if(samples: Seq<u64>, sample: Option<u64>) -> Seq<u64> {
    match sample {
        Some(s) => sampled(samples, s),
        None => samples,
    }
}

/// Takes one more sample.
fn take_sample(samples: &mut Vec<u64>, sample: u64)
    ensures
        final(samples)@ == sampled(old(samples)@, sample),
{
    samples.push(sample);
    if samples.len() > MAX_SAMPLES {
        let ghost before = samples@;
        let _ = samples.remove(0);
        assert(samples@ =~= before.skip(1));
    }
}

/// How things were when this was last brought up to date.
#[derive(Clone, Copy, PartialEq, Eq, Structural, Debug)]
pub struct NetworkingMetrics {
    pub counters: MetricsCounters,
    /// In seconds since the start of 1970.
    pub last_updated: u64,
}

/// Collects counts and samples.
#[derive(Debug)]
pub struct NetworkingMetricsCollector {
    pub counters: MetricsCounters,
    pub samples: LatencySamples,
    pub metrics: NetworkingMetrics,
}

/// Counts of nothing.
pub open spec fn no_counts() -> MetricsCounters {
    MetricsCounters {
        messages_sent: 0,
        messages_received: 0,
        connections_total: 0,
        disconnections_total: 0,
        add_operations: 0,
        cat_operations: 0,
        discovery_attempts: 0,
        successful_discoveries: 0,
    }
}

impl NetworkingMetricsCollector {
    /// Nothing happened yet.
    pub fn new() -> (r: NetworkingMetricsCollector)
        ensures
            r.counters == no_counts(),
            r.metrics.counters == no_counts(),
            r.samples@ == (SamplesModel {
                peer_latencies: Seq::empty(),
                message_propagation: Seq::empty(),
                discovery_times: Seq::empty(),
                add_operation_times: Seq::empty(),
                cat_operation_times: Seq::empty(),
            }),
    {
        let counters = MetricsCounters {
            messages_sent: 0,
            messages_received: 0,
            connections_total: 0,
            disconnections_total: 0,
            add_operations: 0,
            cat_operations: 0,
            discovery_attempts: 0,
            successful_discoveries: 0,
        };
        NetworkingMetricsCollector {
            counters,
            metrics: NetworkingMetrics { counters, last_updated: clock::now_seconds() },
            samples: LatencySamples {
                peer_latencies: Vec::new(),
                message_propagation: Vec::new(),
                discovery_times: Vec::new(),
                add_operation_times: Vec::new(),
                cat_operation_times: Vec::new(),
            },
        }
    }

    /// Takes in that a peer was connected, maybe with a latency.
    pub fn record_peer_connected(&mut self, latency: Option<u64>)
        ensures
            final(self).metrics == old(self).metrics,
            final(self).counters == (MetricsCounters {
                connections_total: old(self).counters.connections_total.wrapping_add(1),
                ..old(self).counters
            }),
            final(self).samples@ == (SamplesModel {
                peer_latencies: sampled_if(old(self).samples@.peer_latencies, latency),
                ..old(self).samples@
            }),
    {
        self.counters.connections_total = self.counters.connections_total.wrapping_add(1);
        match latency {
            Some(sample) => {
                take_sample(&mut self.samples.peer_latencies, sample);
            },
            None => {},
        }
    }

    /// Takes in that a peer was disconnected.
    pub fn record_peer_disconnected(&mut self)
        ensures
            final(self).metrics == old(self).metrics,
            final(self).counters == (MetricsCounters {
                disconnections_total: old(self).counters.disconnections_total.wrapping_add(1),
                ..old(self).counters
            }),
            final(self).samples@ == old(self).samples@,
    {
        self.counters.disconnections_total = self.counters.disconnections_total.wrapping_add(1);
    }

    /// Takes in that a message was sent.
    pub fn record_message_sent(&mut self)
        ensures
            final(self).metrics == old(self).metrics,
            final(self).counters == (MetricsCounters {
                messages_sent: old(self).counters.messages_sent.wrapping_add(1),
                ..old(self).counters
            }),
            final(self).samples@ == old(self).samples@,
    {
        self.counters.messages_sent = self.counters.messages_sent.wrapping_add(1);
    }

    /// Takes in that a message was received, maybe with the time that it took.
    pub fn record_message_received(&mut self, propagation_latency: Option<u64>)
        ensures
            final(self).metrics == old(self).metrics,
            final(self).counters == (MetricsCounters {
                messages_received: old(self).counters.messages_received.wrapping_add(1),
                ..old(self).counters
            }),
            final(self).samples@ == (SamplesModel {
                message_propagation: sampled_if(
                    old(self).samples@.message_propagation,
                    propagation_latency,
                ),
                ..old(self).samples@
            }),
    {
        self.counters.messages_received = self.counters.messages_received.wrapping_add(1);
        match propagation_latency {
            Some(sample) => {
                take_sample(&mut self.samples.message_propagation, sample);
            },
            None => {},
        }
    }

    /// Takes in that content was added, with the time that it took.
    pub fn record_add_operation(&mut self, duration: u64)
        ensures
            final(self).metrics == old(self).metrics,
            final(self).counters == (MetricsCounters {
                add_operations: old(self).counters.add_operations.wrapping_add(1),
                ..old(self).counters
            }),
            final(self).samples@ == (SamplesModel {
                add_operation_times: sampled(old(self).samples@.add_operation_times, duration),
                ..old(self).samples@
            }),
    {
        self.counters.add_operations = self.counters.add_operations.wrapping_add(1);
        take_sample(&mut self.samples.add_operation_times, duration);
    }

    /// Takes in that content was read, with the time that it took.
    pub fn record_cat_operation(&mut self, duration: u64)
        ensures
            final(self).metrics == old(self).metrics,
            final(self).counters == (MetricsCounters {
                cat_operations: old(self).counters.cat_operations.wrapping_add(1),
                ..old(self).counters
            }),
            final(self).samples@ == (SamplesModel {
                cat_operation_times: sampled(old(self).samples@.cat_operation_times, duration),
                ..old(self).samples@
            }),
    {
        self.counters.cat_operations = self.counters.cat_operations.wrapping_add(1);
        take_sample(&mut self.samples.cat_operation_times, duration);
    }

    /// Takes in that a peer was looked for, with the time that it took, and whether it was
    /// found.
    pub fn record_discovery(&mut self, duration: u64, successful: bool)
        ensures
            final(self).metrics == old(self).metrics,
            final(self).counters == (MetricsCounters {
                discovery_attempts: old(self).counters.discovery_attempts.wrapping_add(1),
                successful_discoveries: if successful {
                    old(self).counters.successful_discoveries.wrapping_add(1)
                } else {
                    old(self).counters.successful_discoveries
                },
                ..old(self).counters
            }),
            final(self).samples@ == (SamplesModel {
                discovery_times: sampled(old(self).samples@.discovery_times, duration),
                ..old(self).samples@
            }),
    {
        self.counters.discovery_attempts = self.counters.discovery_attempts.wrapping_add(1);
        if successful {
            self.counters.successful_discoveries =
            self.counters.successful_discoveries.wrapping_add(1);
        }
        take_sample(&mut self.samples.discovery_times, duration);
    }

    /// Brings what is shown up to date.
    pub fn update_computed_metrics(&mut self)
        ensures
            final(self).counters == old(self).counters,
            final(self).samples@ == old(self).samples@,
            final(self).metrics.counters == old(self).counters,
    {
        let now: u64 = clock::now_seconds();
        self.update_computed_metrics_at(now);
    }

    /// Brings what is shown up to date at a time.
    pub fn update_computed_metrics_at(&mut self, now: u64)
        ensures
            final(self).counters == old(self).counters,
            final(self).samples@ == old(self).samples@,
            final(self).metrics == (NetworkingMetrics {
                counters: old(self).counters,
                last_updated: now,
            }),
    {
        self.metrics = NetworkingMetrics { counters: self.counters, last_updated: now };
    }

    /// What is shown.
    pub fn get_metrics(&self) -> (r: NetworkingMetrics)
        ensures
            r == self.metrics,
    {
        self.metrics
    }
}

impl Default for NetworkingMetricsCollector {
    fn default() -> (r: Self)
        ensures
            r.counters == no_counts(),
            r.metrics.counters == no_counts(),
            r.samples@ == (SamplesModel {
                peer_latencies: Seq::empty(),
                message_propagation: Seq::empty(),
                discovery_times: Seq::empty(),
                add_operation_times: Seq::empty(),
                cat_operation_times: Seq::empty(),
            }),
    {
        Self::new()
    }
}

/// No more samples are ever kept than may be, and the last one is.
pub proof fn lemma_samples_are_bounded(samples: Seq<u64>, sample: u64)
    requires
        samples.len() <= MAX_SAMPLES,
    ensures
        sampled(samples, sample).len() <= MAX_SAMPLES,
        sampled(samples, sample).last() == sample,
{
}

} // verus!
