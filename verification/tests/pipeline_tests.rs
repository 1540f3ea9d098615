use std::sync::Arc;
use std::sync::Mutex;

use dns_filter::blocklist::Blocklist;
use dns_filter::pipeline::decide_packet;
use dns_filter::pipeline::process_packet;
use dns_filter::pipeline::run_sequential;
use dns_filter::pipeline::RawPacket;
use dns_filter::pipeline::Verdict;
use dns_filter::pipeline::QNAME_CAPACITY;
use dns_filter::sampling::SamplingGate;
use dns_filter::sampling::SAMPLE_DENOM;
use threadpool::ThreadPool;

fn dns_payload(labels: &[&[u8]]) -> Vec<u8> {
    let mut p = vec![0u8; 12];
    for label in labels {
        p.push(label.len() as u8);
        p.extend_from_slice(label);
    }
    p.push(0);
    p
}

/// A minimal IPv4 datagram: 20-byte header, the given protocol, then a
/// UDP header with the given destination port and the payload.
fn ipv4_packet(protocol: u8, dst_port: u16, udp_payload: &[u8]) -> Vec<u8> {
    let mut p = vec![0u8; 20];
    p[0] = 0x45; // version 4, header length 5 words
    p[9] = protocol;
    // UDP header: source port 5353, destination port, length, checksum
    p.extend_from_slice(&5353u16.to_be_bytes());
    p.extend_from_slice(&dst_port.to_be_bytes());
    p.extend_from_slice(&((8 + udp_payload.len()) as u16).to_be_bytes());
    p.extend_from_slice(&[0, 0]);
    p.extend_from_slice(udp_payload);
    p
}

fn dns_query_packet(labels: &[&[u8]]) -> Vec<u8> {
    ipv4_packet(17, 53, &dns_payload(labels))
}

fn list(entries: &[&[u8]]) -> Blocklist {
    Blocklist::new(entries.iter().map(|e| e.to_vec()).collect())
}

#[test]
fn blocked_query_is_dropped() {
    let packet = dns_query_packet(&[b"ads", b"example", b"com"]);
    let gate = SamplingGate::new(0); // inspect everything
    let verdict = process_packet(&packet, &list(&[b"example.com"]), &gate, QNAME_CAPACITY);
    assert_eq!(verdict, Verdict::Drop);
}

#[test]
fn other_blocklist_accepts_same_packet() {
    let packet = dns_query_packet(&[b"ads", b"example", b"com"]);
    let gate = SamplingGate::new(0);
    let verdict = process_packet(&packet, &list(&[b"other.com"]), &gate, QNAME_CAPACITY);
    assert_eq!(verdict, Verdict::Accept);
}

#[test]
fn non_udp_packet_is_accepted() {
    let packet = ipv4_packet(6, 53, &dns_payload(&[b"ads", b"example", b"com"]));
    let gate = SamplingGate::new(0);
    let verdict = process_packet(&packet, &list(&[b"example.com"]), &gate, QNAME_CAPACITY);
    assert_eq!(verdict, Verdict::Accept);
}

#[test]
fn udp_off_port_53_is_accepted() {
    let packet = ipv4_packet(17, 4444, &dns_payload(&[b"ads", b"example", b"com"]));
    let verdict = decide_packet(&packet, true, &list(&[b"example.com"]), QNAME_CAPACITY);
    assert_eq!(verdict, Verdict::Accept);
}

#[test]
fn malformed_dns_payload_fails_open() {
    let packet = ipv4_packet(17, 53, &[0u8; 5]); // too short for a DNS header
    let verdict = decide_packet(&packet, true, &list(&[b"example.com"]), QNAME_CAPACITY);
    assert_eq!(verdict, Verdict::Accept);
}

#[test]
fn truncated_ipv4_header_is_accepted() {
    let verdict = decide_packet(&[0x45, 0, 0], true, &list(&[b"example.com"]), QNAME_CAPACITY);
    assert_eq!(verdict, Verdict::Accept);
}

#[test]
fn full_skip_level_accepts_blocked_query() {
    let packet = dns_query_packet(&[b"ads", b"example", b"com"]);
    let gate = SamplingGate::new(SAMPLE_DENOM); // inspect nothing
    let verdict = process_packet(&packet, &list(&[b"example.com"]), &gate, QNAME_CAPACITY);
    assert_eq!(verdict, Verdict::Accept);
}

fn mixed_packets() -> Vec<RawPacket> {
    let mut packets = Vec::new();
    for round in 0..10u64 {
        packets.push(RawPacket {
            id: round * 5,
            bytes: dns_query_packet(&[b"ads", b"example", b"com"]),
        });
        packets.push(RawPacket { id: round * 5 + 1, bytes: dns_query_packet(&[b"good", b"org"]) });
        packets.push(RawPacket {
            id: round * 5 + 2,
            bytes: ipv4_packet(6, 53, b"not udp at all"),
        });
        packets.push(RawPacket { id: round * 5 + 3, bytes: ipv4_packet(17, 53, &[1, 2, 3]) });
        packets.push(RawPacket { id: round * 5 + 4, bytes: vec![0xde, 0xad] });
    }
    packets
}

fn assert_one_verdict_per_id(verdicts: &[(u64, Verdict)], n: u64) {
    assert_eq!(verdicts.len(), n as usize);
    let mut ids: Vec<u64> = verdicts.iter().map(|(id, _)| *id).collect();
    ids.sort();
    let expected: Vec<u64> = (0..n).collect();
    assert_eq!(ids, expected);
}

#[test]
fn sequential_strategy_yields_one_verdict_per_packet() {
    let packets = mixed_packets();
    let n = packets.len() as u64;
    let blocklist = list(&[b"example.com"]);
    let gate = SamplingGate::new(0);
    let verdicts = run_sequential(&packets, &blocklist, &gate, QNAME_CAPACITY);
    assert_one_verdict_per_id(&verdicts, n);
    // at skip level zero every packet is fully inspected, so the blocked
    // queries are dropped and everything else passes
    for (id, verdict) in &verdicts {
        if id % 5 == 0 {
            assert_eq!(*verdict, Verdict::Drop);
        } else {
            assert_eq!(*verdict, Verdict::Accept);
        }
    }
}

fn pooled_verdicts(workers: usize) -> Vec<(u64, Verdict)> {
    let packets = mixed_packets();
    let n = packets.len();
    let blocklist = Arc::new(list(&[b"example.com"]));
    let gate = Arc::new(SamplingGate::new(0));
    let verdicts: Arc<Mutex<Vec<(u64, Verdict)>>> = Arc::new(Mutex::new(Vec::new()));
    let pool = ThreadPool::new(workers);
    for packet in packets {
        let blocklist = Arc::clone(&blocklist);
        let gate = Arc::clone(&gate);
        let verdicts = Arc::clone(&verdicts);
        pool.execute(move || {
            let verdict = process_packet(&packet.bytes, &blocklist, &gate, QNAME_CAPACITY);
            verdicts.lock().unwrap().push((packet.id, verdict));
        });
    }
    pool.join();
    assert_eq!(pool.panic_count(), 0);
    let out = verdicts.lock().unwrap().clone();
    assert_eq!(out.len(), n);
    out
}

#[test]
fn worker_pool_strategy_yields_one_verdict_per_packet() {
    let verdicts = pooled_verdicts(4);
    assert_one_verdict_per_id(&verdicts, 50);
    for (id, verdict) in &verdicts {
        if id % 5 == 0 {
            assert_eq!(*verdict, Verdict::Drop);
        } else {
            assert_eq!(*verdict, Verdict::Accept);
        }
    }
}

#[test]
fn one_unit_per_packet_yields_one_verdict_per_packet() {
    // one concurrent unit for every packet, as the thread-per-packet
    // strategy runs
    let verdicts = pooled_verdicts(50);
    assert_one_verdict_per_id(&verdicts, 50);
}
