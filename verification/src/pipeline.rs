//! The verdict policy and the per-packet pipeline.
//!
//! One packet yields exactly one verdict, fail-open: anything that is not
//! an inspected, successfully decoded, blocklisted DNS query is accepted.
//! Only a UDP destination-port-53 packet that was selected for inspection,
//! whose question name decoded, and whose name matches the blocklist is
//! dropped.
//!
//! The functions here are the decision core that every scheduling strategy
//! shares; pulling packets from the kernel queue and returning verdicts to
//! it — sequentially, thread-per-packet, or from a fixed worker pool — is
//! the caller's loop.

use vstd::prelude::*;
use crate::blocklist::Blocklist;
use crate::blocklist::name_blocked;
use crate::classify::classify;
use crate::classify::is_ipv4_udp;
use crate::classify::udp_dst_port;
use crate::classify::udp_payload;
use crate::dns::decode_qname;
use crate::dns::decode_qname_spec;
use crate::sampling::SAMPLE_DENOM;
use crate::sampling::SamplingGate;

verus! {

/// The UDP destination port on which DNS queries travel.
pub const DNS_PORT: u16 = 53;

/// The output capacity the agent grants a decoded question name.
pub const QNAME_CAPACITY: usize = 256;

/// The decision returned to the kernel path for one packet.
#[derive(Clone, Copy, Debug, PartialEq, Eq, Structural)]
pub enum Verdict {
    /// Let the packet pass.
    Accept,
    /// Discard the packet.
    Drop,
}

/// A packet as received from the verdict queue: its bytes and the opaque
/// correlation id under which its verdict must be returned.
pub struct RawPacket {
    /// The opaque id pairing this packet with its eventual verdict.
    pub id: u64,
    /// The raw packet bytes.
    pub bytes: Vec<u8>,
}

/// The verdict for packet bytes `p` given the sampling decision `inspect`:
/// non-IPv4/UDP traffic and UDP traffic off port 53 pass; a DNS packet not
/// selected for inspection passes; a decode failure passes (fail-open);
/// a decoded name is dropped exactly when the blocklist matches it.
pub open spec fn spec_verdict(p: Seq<u8>, inspect: bool, entries: Seq<Seq<u8>>, cap: int) -> Verdict {
    if !is_ipv4_udp(p) {
        Verdict::Accept
    } else if udp_dst_port(p) != DNS_PORT {
        Verdict::Accept
    } else if !inspect {
        Verdict::Accept
    } else {
        match decode_qname_spec(udp_payload(p), cap) {
            Ok(name) => if name_blocked(name, entries) {
                Verdict::Drop
            } else {
                Verdict::Accept
            },
            Err(_) => Verdict::Accept,
        }
    }
}

/// The verdict `v` is one that some sampling decision leads to for the
/// packet bytes `p`: the per-packet guarantee that holds whatever a gate
/// draws.
pub open spec fn verdict_possible(v: Verdict, p: Seq<u8>, entries: Seq<Seq<u8>>, cap: int) -> bool {
    exists|inspect: bool| v == spec_verdict(p, inspect, entries, cap)
}

/// Classify, decode and match one packet, with the sampling decision
/// already made: the pure decision core, total over all inputs.
pub fn decide_packet(packet: &[u8], inspect: bool, blocklist: &Blocklist, capacity: usize) -> (v:
    Verdict)
    ensures
        v == spec_verdict(packet@, inspect, blocklist@, capacity as int),
{
    match classify(packet) {
        None => Verdict::Accept,
        Some(info) => {
            if info.dst_port != DNS_PORT {
                Verdict::Accept
            } else if !inspect {
                Verdict::Accept
            } else {
                let payload = &packet[info.payload_offset..packet.len()];
                match decode_qname(payload, capacity) {
                    Ok(name) => {
                        if blocklist.is_blocked(name.as_slice()) {
                            Verdict::Drop
                        } else {
                            Verdict::Accept
                        }
                    },
                    Err(_) => Verdict::Accept,
                }
            }
        },
    }
}

/// Process one packet: draw the sampling decision, then decide. Whatever
/// the draw, the verdict is the one some sampling decision leads to; at
/// skip level zero the packet is fully inspected, at the full skip level
/// it passes untouched; and only a decoded, blocklisted DNS query is ever
/// dropped.
pub fn process_packet(packet: &[u8], blocklist: &Blocklist, gate: &SamplingGate, capacity: usize)
    -> (v: Verdict)
    requires
        gate.wf(),
    ensures
        verdict_possible(v, packet@, blocklist@, capacity as int),
        gate.skip_level() == 0 ==> v == spec_verdict(packet@, true, blocklist@, capacity as int),
        gate.skip_level() == SAMPLE_DENOM ==> v == Verdict::Accept,
        v == Verdict::Drop ==> {
            &&& is_ipv4_udp(packet@)
            &&& udp_dst_port(packet@) == DNS_PORT
            &&& decode_qname_spec(udp_payload(packet@), capacity as int) matches Ok(name)
                && name_blocked(name, blocklist@)
        },
{
    let inspect = gate.should_inspect();
    decide_packet(packet, inspect, blocklist, capacity)
}

/// The sequential scheduling strategy over a batch: one packet at a time,
/// in order. Exactly one verdict comes back for every packet, under its
/// own correlation id — no duplicates, no omissions.
#[verifier::loop_isolation(false)]
pub fn run_sequential(
    packets: &Vec<RawPacket>,
    blocklist: &Blocklist,
    gate: &SamplingGate,
    capacity: usize,
) -> (verdicts: Vec<(u64, Verdict)>)
    requires
        gate.wf(),
    ensures
        verdicts@.len() == packets@.len(),
        forall|i: int| 0 <= i < packets@.len() ==> (#[trigger] verdicts@[i]).0 == packets@[i].id,
        forall|i: int|
            0 <= i < packets@.len() ==> verdict_possible(
                (#[trigger] verdicts@[i]).1,
                packets@[i].bytes@,
                blocklist@,
                capacity as int,
            ),
        gate.skip_level() == 0 ==> forall|i: int|
            0 <= i < packets@.len() ==> (#[trigger] verdicts@[i]).1 == spec_verdict(
                packets@[i].bytes@,
                true,
                blocklist@,
                capacity as int,
            ),
{
    let mut verdicts: Vec<(u64, Verdict)> = Vec::new();
    let mut i: usize = 0;
    while i < packets.len()
        invariant
            i <= packets@.len(),
            verdicts@.len() == i,
            forall|k: int| 0 <= k < i ==> (#[trigger] verdicts@[k]).0 == packets@[k].id,
            forall|k: int|
                0 <= k < i ==> verdict_possible(
                    (#[trigger] verdicts@[k]).1,
                    packets@[k].bytes@,
                    blocklist@,
                    capacity as int,
                ),
            gate.skip_level() == 0 ==> forall|k: int|
                0 <= k < i ==> (#[trigger] verdicts@[k]).1 == spec_verdict(
                    packets@[k].bytes@,
                    true,
                    blocklist@,
                    capacity as int,
                ),
        decreases packets@.len() - i,
    {
        let v = process_packet(packets[i].bytes.as_slice(), blocklist, gate, capacity);
        verdicts.push((packets[i].id, v));
        i += 1;
    }
    verdicts
}

} // verus!
