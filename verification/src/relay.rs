use crate::config::{clone_addresses, Instance, SocketAddress};
use crate::health_prober::{texts, HealthDataPoint, Timestamp};
use vstd::prelude::*;

verus! {

/// What a relayed connection needs to know of its instance.
pub struct RelayContext {
    pub name: String,
    pub egress_addresses: Vec<SocketAddress>,
    /// Seconds allowed for connecting to an egress address.
    pub ttl: u64,
}

/// The text forms of a list of addresses.
pub open spec fn address_texts(addrs: Seq<SocketAddress>) -> Seq<Seq<char>> {
    addrs.map_values(|a: SocketAddress| a.text())
}

impl RelayContext {
    /// The context of a relay of `instance`.
    pub fn from_instance(instance: &Instance) -> (r: RelayContext)
        ensures
            r.name == instance.name,
            r.egress_addresses@ == instance.egress_addresses@,
            r.ttl == instance.ttl,
    {
        RelayContext {
            name: instance.name.clone(),
            egress_addresses: clone_addresses(&instance.egress_addresses),
            ttl: instance.ttl,
        }
    }

    /// The record of a finished relay that came in at `ingress`, sent
    /// `bytes_sent` bytes and ended at `timestamp`.
    pub fn data_point(&self, ingress: &SocketAddress, bytes_sent: u32, timestamp: Timestamp) -> (r:
        HealthDataPoint)
        ensures
            r@.id == self.name@,
            r@.ingress_addresses == seq![ingress.text()],
            r@.egress_addresses == address_texts(self.egress_addresses@),
            r@.bytes_sent == bytes_sent,
            r@.timestamp == timestamp,
    {
        let mut ingress_addresses: Vec<String> = Vec::new();
        ingress_addresses.push(ingress.to_string());
        let mut egress_addresses: Vec<String> = Vec::new();
        let mut i: usize = 0;
        while i < self.egress_addresses.len()
            invariant
                i <= self.egress_addresses@.len(),
                texts(egress_addresses@) == address_texts(self.egress_addresses@.take(i as int)),
            decreases self.egress_addresses.len() - i,
        {
            let t = self.egress_addresses[i].to_string();
            let ghost before = egress_addresses@;
            egress_addresses.push(t);
            proof {
                assert(egress_addresses@ =~= before.push(t));
                assert(self.egress_addresses@.take(i + 1) =~= self.egress_addresses@.take(
                    i as int,
                ).push(self.egress_addresses@[i as int]));
                assert(texts(egress_addresses@) =~= texts(before).push(t@));
                assert(address_texts(self.egress_addresses@.take(i + 1)) =~= address_texts(
                    self.egress_addresses@.take(i as int),
                ).push(self.egress_addresses@[i as int].text()));
            }
            i = i + 1;
        }
        assert(self.egress_addresses@.take(self.egress_addresses@.len() as int)
            =~= self.egress_addresses@);
        let r = HealthDataPoint {
            id: self.name.clone(),
            ingress_addresses,
            egress_addresses,
            bytes_sent,
            timestamp,
        };
        assert(r@.ingress_addresses =~= seq![ingress.text()]);
        r
    }
}

/// What the relay loop reports after each piece of outside work.
pub enum RelayEvent {
    /// A read from the incoming stream returned `len` bytes.
    Read { len: usize },
    /// The `len` bytes were written to every outgoing stream; `shutdown`
    /// tells whether the proxy is shutting down.
    Forwarded { len: usize, shutdown: bool },
}

/// What the relay loop is to do next.
#[derive(PartialEq, Eq, Structural)]
pub enum RelayAction {
    /// Write the `len` bytes just read to every outgoing stream.
    Forward { len: usize },
    /// Read from the incoming stream again.
    ReadMore,
    /// Shut all streams down, then finish.
    ShutDown,
    /// Finish: the incoming stream is closed.
    Finish,
}

/// `a + b`, or `u32::MAX` when the sum does not fit.
pub open spec fn saturating_add_u32(a: u32, b: u32) -> u32 {
    if a + b > u32::MAX {
        u32::MAX
    } else {
        (a + b) as u32
    }
}

/// Counts the bytes relayed over one connection and decides the next step
/// of the relay loop.
pub struct RelayMeter {
    pub bytes_sent: u32,
}

impl RelayMeter {
    /// A meter of a relay that has sent nothing.
    pub fn new() -> (r: RelayMeter)
        ensures
            r.bytes_sent == 0,
    {
        RelayMeter { bytes_sent: 0 }
    }

    /// The next step after `event`. A read of no bytes finishes the relay;
    /// other reads are forwarded. A forwarded chunk is counted (saturating
    /// at `u32::MAX`) and is followed by another read, or by a shutdown
    /// when the proxy is shutting down.
    pub fn step(&mut self, event: RelayEvent) -> (r: RelayAction)
        ensures
            match event {
                RelayEvent::Read { len } => {
                    &&& final(self).bytes_sent == old(self).bytes_sent
                    &&& r == if len == 0 {
                        RelayAction::Finish
                    } else {
                        RelayAction::Forward { len }
                    }
                },
                RelayEvent::Forwarded { len, shutdown } => {
                    &&& final(self).bytes_sent == saturating_add_u32(
                        old(self).bytes_sent,
                        len as u32,
                    )
                    &&& r == if shutdown {
                        RelayAction::ShutDown
                    } else {
                        RelayAction::ReadMore
                    }
                },
            },
    {
        match event {
            RelayEvent::Read { len } => {
                if len == 0 {
                    RelayAction::Finish
                } else {
                    RelayAction::Forward { len }
                }
            },
            RelayEvent::Forwarded { len, shutdown } => {
                self.bytes_sent = self.bytes_sent.saturating_add(len as u32);
                if shutdown {
                    RelayAction::ShutDown
                } else {
                    RelayAction::ReadMore
                }
            },
        }
    }
}

/// The count after forwarding each chunk of `chunks`, starting from `start`.
pub open spec fn counted(start: u32, chunks: Seq<u32>) -> u32
    decreases chunks.len(),
{
    if chunks.len() == 0 {
        start
    } else {
        saturating_add_u32(counted(start, chunks.drop_last()), chunks.last())
    }
}

/// The sum of `chunks`.
pub open spec fn chunk_sum(chunks: Seq<u32>) -> nat
    decreases chunks.len(),
{
    if chunks.len() == 0 {
        0
    } else {
        chunk_sum(chunks.drop_last()) + chunks.last() as nat
    }
}

/// Counting chunk by chunk from zero gives their sum, or `u32::MAX` when
/// the sum does not fit.
pub proof fn lemma_counted_is_saturated_sum(chunks: Seq<u32>)
    ensures
        counted(0, chunks) == if chunk_sum(chunks) > u32::MAX {
            u32::MAX as nat
        } else {
            chunk_sum(chunks)
        },
    decreases chunks.len(),
{
    if chunks.len() > 0 {
        lemma_counted_is_saturated_sum(chunks.drop_last());
    }
}

} // verus!
