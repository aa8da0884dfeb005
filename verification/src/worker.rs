//! Worker decisions: assembling one sample per tick, batching samples for
//! the persistence writer, and the bounded live fan-out with lag
//! signalling for slow subscribers.

use vstd::prelude::*;

use crate::models::{
    CpuStats, FullSystemSnapshot, NetworkStats, RamStats, StorageStats, SystemStatsDynamic,
};

verus! {

/// Capacity of the snapshot queue feeding the writer: twice the flush
/// batch, and never less than 32, so a lagging disk applies backpressure
/// before samples pile up unboundedly.
pub fn writer_channel_capacity(flush_rate: u64) -> (r: usize)
    requires
        flush_rate <= (usize::MAX / 2) as u64,
    ensures
        r == if 2 * flush_rate >= 32 {
            2 * flush_rate
        } else {
            32int
        },
{
    let doubled = (flush_rate as usize) * 2;
    if doubled >= 32 {
        doubled
    } else {
        32
    }
}

/// Timing settings of the sampling worker.
pub struct WorkerConfig {
    pub sample_interval_ms: u64,
    /// How often to log app stats, in real seconds.
    pub stats_log_interval_secs: u64,
    /// How often to prune old data, in real seconds.
    pub prune_interval_secs: u64,
}

/// Batching settings of the persistence writer.
pub struct HistoryWriterConfig {
    pub flush_rate: u64,
    pub flush_interval_secs: u64,
}

/// The persistence writer's state: the batch being gathered and the
/// running count of samples committed.
pub struct HistoryWriter {
    pub buffer: Vec<FullSystemSnapshot>,
    pub snapshots_saved_total: u64,
}

impl HistoryWriter {
    pub fn new() -> (r: Self)
        ensures
            r.buffer@.len() == 0,
            r.snapshots_saved_total == 0,
    {
        HistoryWriter { buffer: Vec::new(), snapshots_saved_total: 0 }
    }

    /// Take one received sample into the batch; a flush is due exactly
    /// when the batch has reached the flush rate.
    pub fn push_snapshot(&mut self, s: FullSystemSnapshot, flush_rate: u64) -> (flush_due: bool)
        ensures
            final(self).buffer@ == old(self).buffer@.push(s),
            final(self).snapshots_saved_total == old(self).snapshots_saved_total,
            flush_due <==> final(self).buffer@.len() >= flush_rate,
    {
        self.buffer.push(s);
        self.buffer.len() as u64 >= flush_rate
    }

    /// When the flush interval elapses, a transaction is issued exactly
    /// when the batch holds something: an empty batch stays a no-op.
    pub fn interval_flush_due(&self) -> (r: bool)
        ensures
            r <==> self.buffer@.len() > 0,
    {
        self.buffer.len() > 0
    }

    /// Hand the gathered batch out for one transaction, emptying the
    /// buffer.
    pub fn take_batch(&mut self) -> (batch: Vec<FullSystemSnapshot>)
        ensures
            batch@ == old(self).buffer@,
            final(self).buffer@.len() == 0,
            final(self).snapshots_saved_total == old(self).snapshots_saved_total,
    {
        let mut batch: Vec<FullSystemSnapshot> = Vec::new();
        core::mem::swap(&mut batch, &mut self.buffer);
        batch
    }

    /// Record the outcome of one flush transaction. On commit the counter
    /// grows by the batch; on failure the batch goes back in front of
    /// anything received meanwhile, preserved for the next trigger.
    pub fn complete_flush(&mut self, batch: Vec<FullSystemSnapshot>, committed: bool)
        requires
            committed ==> old(self).snapshots_saved_total + batch@.len() <= u64::MAX,
        ensures
            committed ==> final(self).buffer@ == old(self).buffer@
                && final(self).snapshots_saved_total == old(self).snapshots_saved_total
                + batch@.len(),
            !committed ==> final(self).buffer@ == batch@ + old(self).buffer@
                && final(self).snapshots_saved_total == old(self).snapshots_saved_total,
    {
        if committed {
            self.snapshots_saved_total = self.snapshots_saved_total + batch.len() as u64;
        } else {
            let mut merged = batch;
            let ghost merged0 = merged@;
            let mut rest: Vec<FullSystemSnapshot> = Vec::new();
            core::mem::swap(&mut rest, &mut self.buffer);
            let ghost rest0 = rest@;
            merged.append(&mut rest);
            proof {
                assert(merged@ =~= merged0 + rest0);
            }
            core::mem::swap(&mut self.buffer, &mut merged);
        }
    }
}

/// The bounded live fan-out: the last `capacity` published samples, and a
/// running sequence number.
pub struct BroadcastChannel {
    pub capacity: usize,
    pub next_seq: u64,
    pub buffer: Vec<FullSystemSnapshot>,
}

impl BroadcastChannel {
    /// The channel never retains more than its capacity, nor more than it
    /// ever published.
    pub open spec fn wf(&self) -> bool {
        &&& self.capacity > 0
        &&& self.buffer@.len() <= self.capacity
        &&& self.buffer@.len() <= self.next_seq
    }

    /// Sequence number of the oldest retained sample.
    pub open spec fn oldest_retained(&self) -> int {
        self.next_seq - self.buffer@.len()
    }

    pub fn new(capacity: usize) -> (r: Self)
        requires
            capacity > 0,
        ensures
            r.wf(),
            r.next_seq == 0,
            r.buffer@.len() == 0,
            r.capacity == capacity,
    {
        BroadcastChannel { capacity, next_seq: 0, buffer: Vec::new() }
    }

    /// Publish one sample: it takes the next sequence number, and when
    /// the channel is full the oldest retained sample falls out.
    pub fn publish(&mut self, s: FullSystemSnapshot)
        requires
            old(self).wf(),
            old(self).next_seq < u64::MAX,
        ensures
            final(self).wf(),
            final(self).capacity == old(self).capacity,
            final(self).next_seq == old(self).next_seq + 1,
            old(self).buffer@.len() < old(self).capacity ==> final(self).buffer@ == old(
                self,
            ).buffer@.push(s),
            old(self).buffer@.len() == old(self).capacity ==> final(self).buffer@ == old(
                self,
            ).buffer@.subrange(1, old(self).buffer@.len() as int).push(s),
    {
        if self.buffer.len() == self.capacity {
            self.buffer.remove(0);
            proof {
                assert(self.buffer@ =~= old(self).buffer@.subrange(
                    1,
                    old(self).buffer@.len() as int,
                ));
            }
        }
        self.buffer.push(s);
        self.next_seq = self.next_seq + 1;
    }
}

/// A subscriber's cursor into the fan-out.
pub struct BroadcastReceiver {
    pub next: u64,
}

/// What one receive attempt yields: a skip notice with the number of
/// samples lost, the next sample, or nothing new yet.
pub enum RecvOutcome {
    Lagged(u64),
    Item(FullSystemSnapshot),
    Empty,
}

impl BroadcastChannel {
    /// Open a subscription: it sees only what is published afterwards.
    pub fn subscribe(&self) -> (r: BroadcastReceiver)
        ensures
            r.next == self.next_seq,
    {
        BroadcastReceiver { next: self.next_seq }
    }

    /// One receive attempt. A subscriber that fell behind the retained
    /// window gets a skip notice counting exactly the samples that fell
    /// out of the channel, and resumes at the newest sample — it is not
    /// disconnected, and the receive after the notice yields the newest
    /// published sample. A subscriber within the window gets the sample
    /// at its cursor, or nothing when it has seen everything.
    pub fn recv(&self, sub: &mut BroadcastReceiver) -> (r: RecvOutcome)
        requires
            self.wf(),
            old(sub).next <= self.next_seq,
        ensures
            final(sub).next <= self.next_seq,
            old(sub).next < self.oldest_retained() ==> r == RecvOutcome::Lagged(
                (self.oldest_retained() - old(sub).next) as u64,
            ) && final(sub).next == self.next_seq - 1,
            self.oldest_retained() <= old(sub).next < self.next_seq ==> (r matches
                RecvOutcome::Item(s) && s@ == self.buffer@[old(sub).next - self.oldest_retained()]@
                && final(sub).next == old(sub).next + 1),
            old(sub).next == self.next_seq ==> r == RecvOutcome::Empty && final(sub).next == old(
                sub,
            ).next,
    {
        let oldest = self.next_seq - self.buffer.len() as u64;
        if sub.next < oldest {
            let skipped = oldest - sub.next;
            sub.next = self.next_seq - 1;
            RecvOutcome::Lagged(skipped)
        } else if sub.next < self.next_seq {
            let idx = (sub.next - oldest) as usize;
            let item = self.buffer[idx].duplicate();
            sub.next = sub.next + 1;
            RecvOutcome::Item(item)
        } else {
            RecvOutcome::Empty
        }
    }
}

/// Assemble one sample from the probes' results: all of them at once, or
/// none — a tick with any failed probe publishes nothing.
pub fn assemble_snapshot(
    timestamp: u64,
    cpu: Option<CpuStats>,
    ram: Option<RamStats>,
    containers: Vec<crate::models::ContainerStats>,
    storage: Option<StorageStats>,
    network: Option<NetworkStats>,
    system: Option<SystemStatsDynamic>,
) -> (r: Option<FullSystemSnapshot>)
    ensures
        r is Some <==> cpu is Some && ram is Some && storage is Some && network is Some && system
            is Some,
        r matches Some(s) ==> {
            &&& s.timestamp == timestamp
            &&& cpu matches Some(c) && s.cpu@ == c@
            &&& ram matches Some(m) && s.ram@ == m@
            &&& crate::models::container_views(s.containers@) == crate::models::container_views(
                containers@,
            )
            &&& storage matches Some(st) && s.storage@ == st@
            &&& network matches Some(n) && s.network@ == n@
            &&& system matches Some(sy) && s.system@ == sy@
        },
{
    match (cpu, ram, storage, network, system) {
        (Some(cpu), Some(ram), Some(storage), Some(network), Some(system)) => Some(
            FullSystemSnapshot { timestamp, cpu, ram, containers, storage, network, system },
        ),
        _ => None,
    }
}

/// Whether the no-subscribers notice may be logged again: at most once
/// per interval, measured against the last time it was logged.
pub fn warn_due(now_ms: u64, last_warn_ms: Option<u64>, interval_ms: u64) -> (r: bool)
    requires
        last_warn_ms matches Some(l) ==> l <= now_ms,
    ensures
        r <==> match last_warn_ms {
            None => true,
            Some(l) => now_ms - l >= interval_ms,
        },
{
    match last_warn_ms {
        None => true,
        Some(l) => now_ms - l >= interval_ms,
    }
}

} // verus!
