use sls::chunk::Chunk;
use sls::config::Config;
use sls::congestion::{CongestionControl, MAX_RATE, MIN_RATE};
use sls::error::Error;
use sls::handshake::{HandshakeStep, ReceiverHandshake, SenderHandshake};
use sls::message::{
    read_header, FlowControlMessage, HeartbeatMessage, InitAckMessage, InitMessage,
    KeyExchangeMessage, Message, MessageType, NackMessage, SegmentCompleteMessage,
};
use sls::multipath::{PathManager, WEIGHT_SCALE};
use sls::queue::OutboundQueues;
use sls::receiver::{initial_rate_hint, ChunkOutcome, ReceiverSession, Termination};
use sls::sender::{segment_range, Sender, SenderAction};
use sls::stats::{NicStats, TransferStats};

fn test_config() -> Config {
    let mut c = Config::default();
    c.chunk_size = 1200;
    c.segment_size = 65536;
    c.base_redundancy_ratio = 200_000;
    c
}

fn source(len: usize) -> Vec<u8> {
    (0..len).map(|i| ((i * 31 + i / 251) % 256) as u8).collect()
}

struct Outcome {
    output: Vec<u8>,
    first_copies: usize,
    redundants: usize,
    nack_frames: usize,
    completed: u64,
    retransmitted: u64,
    nonces: Vec<Vec<u8>>,
}

/// Runs a whole session in process. `drop` decides, by frame number, which
/// first-time frames are lost; `tamper` flips a byte of one frame's data.
fn run_session(data: &[u8], encrypt: bool, drop: &dyn Fn(usize) -> bool, tamper: Option<usize>) -> Outcome {
    let config = test_config();
    let mut sender = Sender::new(config, data.len() as u64, 0).unwrap();
    let (mut rh, init) = ReceiverHandshake::start(encrypt, 0);
    let mut sh = SenderHandshake::new();
    assert!(matches!(sh.on_datagram(&init), HandshakeStep::Done));
    sender.crypto = sh.take_crypto();
    let ack = match sender.handle_control_message(&init, 10).unwrap() {
        SenderAction::Reply(f) => f,
        _ => panic!("no InitAck"),
    };
    assert!(matches!(rh.on_datagram(&ack), HandshakeStep::Done));
    let params = rh.ack.unwrap();
    let mut receiver = ReceiverSession::new(&params, rh.take_crypto(), 20).unwrap();

    let mut out = Outcome {
        output: vec![],
        first_copies: 0,
        redundants: 0,
        nack_frames: 0,
        completed: 0,
        retransmitted: 0,
        nonces: vec![],
    };
    let mut frame_no = 0usize;
    let mut now = 100u64;
    let total = params.total_segments;
    for id in 1..=total {
        let (s, e) = segment_range(data.len(), 65536, id);
        let (sid, frames) = sender.send_data(&data[s..e], now).unwrap();
        assert_eq!(sid, id);
        for f in frames {
            let mut chunk = Chunk::from_bytes(&f).unwrap();
            if chunk.header.is_redundant {
                out.redundants += 1;
            } else {
                out.first_copies += 1;
                if encrypt && chunk.header.chunk_id == 0 {
                    out.nonces.push(chunk.data[0..12].to_vec());
                }
            }
            frame_no += 1;
            if drop(frame_no) {
                continue;
            }
            if tamper == Some(frame_no) {
                chunk.data[0] ^= 0x55;
            }
            now += 1;
            deliver(&mut receiver, &mut sender, &chunk, now);
        }
    }
    for _round in 0..100 {
        let nacks = receiver.nack_frames();
        if nacks.is_empty() {
            break;
        }
        out.nack_frames += nacks.len();
        for n in nacks {
            now += 1000;
            if let SenderAction::Retransmit(frames) = sender.handle_control_message(&n, now).unwrap() {
                for f in frames {
                    let chunk = Chunk::from_bytes(&f).unwrap();
                    now += 1;
                    deliver(&mut receiver, &mut sender, &chunk, now);
                }
            }
        }
    }
    out.output = receiver.output();
    out.completed = receiver.assembled_count;
    out.retransmitted = sender.retransmitted;
    assert_eq!(receiver.should_terminate(now), Some(Termination::Complete));
    out
}

fn deliver(receiver: &mut ReceiverSession, sender: &mut Sender, chunk: &Chunk, now: u64) {
    if receiver.handle_chunk(chunk, now) == ChunkOutcome::Completed {
        let done = SegmentCompleteMessage {
            segment_id: chunk.header.segment_id,
            total_chunks_received: chunk.header.total_chunks,
            duplicates_received: 0,
            elapsed_ms: 0,
        };
        sender.handle_control_message(&done.to_bytes(), now).unwrap();
    }
}

#[test]
fn plaintext_one_mib_loopback() {
    let data = source(1_048_576);
    let out = run_session(&data, false, &|_| false, None);
    assert_eq!(out.completed, 16);
    assert_eq!(out.first_copies, 16 * 55);
    assert_eq!(out.redundants, 16 * 11);
    assert_eq!(out.nack_frames, 0);
    assert_eq!(out.retransmitted, 0);
    assert_eq!(out.output, data);
}

#[test]
fn plaintext_with_ten_percent_drop() {
    let data = source(1_048_576);
    let out = run_session(&data, false, &|n| n % 10 == 3, None);
    assert_eq!(out.output, data);
    assert_eq!(out.completed, 16);
    assert!(out.nack_frames >= 1);
    assert!(out.retransmitted >= 1);
}

#[test]
fn encrypted_one_mib() {
    let data = source(1_048_576);
    let out = run_session(&data, true, &|_| false, None);
    assert_eq!(out.output, data);
    assert_eq!(out.completed, 16);
    assert_eq!(out.nonces.len(), 16);
    let mut n = out.nonces.clone();
    n.sort();
    n.dedup();
    assert_eq!(n.len(), 16);
}

#[test]
fn tampered_chunk_is_recovered() {
    let data = source(200_000);
    let out = run_session(&data, false, &|_| false, Some(5));
    assert_eq!(out.output, data);
    let enc = run_session(&data, true, &|_| false, Some(7));
    assert_eq!(enc.output, data);
}

#[test]
fn handshake_retry_succeeds_within_five_attempts() {
    let (mut rh, _init) = ReceiverHandshake::start(false, 0);
    for _ in 0..4 {
        assert!(matches!(rh.on_timeout(1), HandshakeStep::Send(_)));
    }
    assert_eq!(rh.attempts, 5);
    let ack = InitAckMessage::with_client_timestamp(1000, 1200, 65536, 200_000, 0, 2_000_000);
    assert!(matches!(rh.on_datagram(&ack.to_bytes()), HandshakeStep::Done));
    assert!(rh.attempts <= 5);
    assert!(matches!(rh.on_timeout(1), HandshakeStep::Done));
}

#[test]
fn handshake_gives_up_after_twenty_inits() {
    let (mut rh, _) = ReceiverHandshake::start(false, 0);
    for _ in 0..19 {
        assert!(matches!(rh.on_timeout(1), HandshakeStep::Send(_)));
    }
    assert!(matches!(rh.on_timeout(1), HandshakeStep::Failed));
}

#[test]
fn key_exchange_frames_variant_interoperates() {
    // the receiver sends a zero key, so the sender asks for one in a frame
    let init = InitMessage::new(true, [0u8; 32], 5).to_bytes();
    let mut sh = SenderHandshake::new();
    let key = match sh.on_datagram(&init) {
        HandshakeStep::Send(f) => f,
        _ => panic!("expected a key frame"),
    };
    assert!(matches!(sh.on_timeout(), HandshakeStep::Send(_)));
    let (mut rh, _) = ReceiverHandshake::start(true, 0);
    let reply = match rh.on_datagram(&key) {
        HandshakeStep::Send(f) => f,
        _ => panic!("expected our key"),
    };
    assert!(matches!(sh.on_datagram(&reply), HandshakeStep::Done));
    let mut a = sh.take_crypto().unwrap();
    let b = rh.take_crypto().unwrap();
    let sealed = a.encrypt(1, b"hello").unwrap();
    assert_eq!(b.decrypt(&sealed).unwrap(), b"hello".to_vec());
}

#[test]
fn premature_sender_termination() {
    let data = source(100 * 65536);
    let config = test_config();
    let mut sender = Sender::new(config, data.len() as u64, 0).unwrap();
    let init = InitMessage::new(false, [0u8; 32], 0).to_bytes();
    let ack = match sender.handle_control_message(&init, 0).unwrap() {
        SenderAction::Reply(f) => InitAckMessage::from_bytes(&f).unwrap(),
        _ => panic!(),
    };
    let mut receiver = ReceiverSession::new(&ack, None, 0).unwrap();
    let mut now = 1;
    for id in 1..=93u64 {
        let (s, e) = segment_range(data.len(), 65536, id);
        let (_, frames) = sender.send_data(&data[s..e], now).unwrap();
        for f in frames {
            now += 1;
            receiver.handle_chunk(&Chunk::from_bytes(&f).unwrap(), now);
        }
    }
    assert_eq!(receiver.assembled_count, 93);
    assert_eq!(receiver.should_terminate(now + 30_000_000), None);
    assert_eq!(receiver.should_terminate(now + 60_000_001), Some(Termination::Idle));
    assert!(receiver.nack_frames().len() > 0);
    assert!(receiver.nacks_sent > 0);
    let output = receiver.output();
    assert_eq!(output.len(), 93 * 65536);
    assert_eq!(receiver.success_rate(output.len() as u64), 930_000);
}

#[test]
fn mostly_complete_stops_after_ten_idle_seconds() {
    let ack = InitAckMessage::with_client_timestamp(20 * 65536, 1200, 65536, 0, 0, 0);
    let mut r = ReceiverSession::new(&ack, None, 0).unwrap();
    let builder = sls::chunk::SegmentBuilder::new(1200);
    for id in 1..=19u64 {
        for c in builder.split_into_chunks(id, &vec![id as u8; 65536], 0, 0) {
            r.handle_chunk(&c, 5);
        }
    }
    assert_eq!(r.should_terminate(5 + 10_000_001), Some(Termination::MostlyComplete));
    assert_eq!(r.should_terminate(5 + 9_000_000), None);
    assert_eq!(r.should_terminate(181_000_000 + 5), Some(Termination::MostlyComplete));
}

#[test]
fn receiver_deadline_has_a_floor() {
    let ack = InitAckMessage::with_client_timestamp(1000, 1200, 65536, 0, 0, 0);
    let r = ReceiverSession::new(&ack, None, 0).unwrap();
    let mut r2 = r;
    r2.last_chunk_us = 179_000_000;
    assert_eq!(r2.should_terminate(179_500_000), None);
    assert_eq!(r2.should_terminate(180_000_001), Some(Termination::Deadline));
}

#[test]
fn receiver_refuses_foreign_chunks() {
    let ack = InitAckMessage::with_client_timestamp(3000, 1200, 1500, 0, 0, 0);
    let mut r = ReceiverSession::new(&ack, None, 0).unwrap();
    assert_eq!(ack.total_segments, 2);
    let c0 = Chunk::new(0, 0, 1, 0, 10, vec![1; 10], 0, false, 0);
    assert_eq!(r.handle_chunk(&c0, 1), ChunkOutcome::OutOfRange);
    let c3 = Chunk::new(3, 0, 1, 0, 10, vec![1; 10], 0, false, 0);
    assert_eq!(r.handle_chunk(&c3, 1), ChunkOutcome::OutOfRange);
    let big = Chunk::new(1, 0, 2, 0, 5000, vec![1; 10], 0, false, 0);
    assert_eq!(r.handle_chunk(&big, 1), ChunkOutcome::Inconsistent);
    let a = Chunk::new(1, 0, 2, 0, 1500, vec![1; 1200], 0, false, 0);
    assert_eq!(r.handle_chunk(&a, 1), ChunkOutcome::Accepted);
    assert_eq!(r.handle_chunk(&a, 1), ChunkOutcome::Ignored);
    let other = Chunk::new(1, 1, 3, 1200, 1500, vec![1; 300], 0, false, 0);
    assert_eq!(r.handle_chunk(&other, 1), ChunkOutcome::Inconsistent);
    let b = Chunk::new(1, 1, 2, 1200, 1500, vec![2; 300], 0, false, 0);
    assert_eq!(r.handle_chunk(&b, 1), ChunkOutcome::Completed);
    assert_eq!(r.handle_chunk(&b, 1), ChunkOutcome::AlreadyAssembled);
    let plan = r.nack_plan(50);
    assert_eq!(plan.len(), 1);
    assert_eq!(plan[0].segment_id, 2);
    assert_eq!(plan[0].missing_chunk_ids, vec![0, 1]);
    assert_eq!(r.flow_control().last_completed_segment, 1);
    assert_eq!(r.flow_control().processing_rate, 1);
}

#[test]
fn nack_plan_lists_partial_segments_first() {
    let ack = InitAckMessage::with_client_timestamp(4 * 300, 100, 300, 0, 0, 0);
    let mut r = ReceiverSession::new(&ack, None, 0).unwrap();
    let c = Chunk::new(3, 1, 3, 100, 300, vec![4; 100], 0, false, 0);
    assert_eq!(r.handle_chunk(&c, 1), ChunkOutcome::Accepted);
    let plan = r.nack_plan(50);
    let ids: Vec<u64> = plan.iter().map(|n| n.segment_id).collect();
    assert_eq!(ids, vec![3, 1, 2, 4]);
    assert_eq!(plan[0].missing_chunk_ids, vec![0, 2]);
    assert_eq!(plan[0].receive_ratio, 333_333);
    assert_eq!(plan[1].missing_chunk_ids, vec![0, 1, 2]);
    assert_eq!(r.nack_plan(2).len(), 2);
    assert_eq!(r.in_progress_count(), 1);
}

#[test]
fn sender_serves_nacks_and_evicts_confirmed_segments() {
    let mut sender = Sender::new(test_config(), 3000, 0).unwrap();
    assert_eq!(sender.send_data(&[1u8; 3000], 0).unwrap_err(), Error::ConnectionClosed);
    let init = InitMessage::new(false, [0u8; 32], 0).to_bytes();
    sender.handle_control_message(&init, 1).unwrap();
    let (id, frames) = sender.send_data(&[2u8; 3000], 2).unwrap();
    assert_eq!(id, 2);
    assert_eq!(frames.len(), 3 + 1);
    let nack = NackMessage::new(2, vec![2, 0, 9], 0, 0);
    let resent = sender.handle_nack(&nack, 3);
    assert_eq!(resent.len(), 2);
    assert_eq!(Chunk::from_bytes(&resent[0]).unwrap().header.chunk_id, 2);
    assert_eq!(Chunk::from_bytes(&resent[1]).unwrap().header.chunk_id, 0);
    let done = SegmentCompleteMessage { segment_id: 2, total_chunks_received: 3, duplicates_received: 0, elapsed_ms: 1 };
    sender.handle_segment_complete(&done);
    assert_eq!(sender.confirmed, 1);
    assert!(sender.handle_nack(&nack, 4).is_empty());
    assert!(!sender.should_finish(5));
    sender.handle_segment_complete(&SegmentCompleteMessage { segment_id: 1, ..done });
    assert!(sender.should_finish(5));
}

#[test]
fn sender_deadline_has_a_floor() {
    let sender = Sender::new(test_config(), 10, 0).unwrap();
    assert!(!sender.should_finish(120_000_000));
    assert!(sender.should_finish(120_000_001));
}

#[test]
fn sender_answers_heartbeat_and_close() {
    let mut sender = Sender::new(test_config(), 10, 0).unwrap();
    let hb = HeartbeatMessage::new(7, 1).to_bytes();
    match sender.handle_control_message(&hb, 9).unwrap() {
        SenderAction::Reply(f) => assert_eq!(HeartbeatMessage::from_bytes(&f).unwrap(), HeartbeatMessage { sequence: 7, timestamp_us: 9 }),
        _ => panic!(),
    }
    let close = sls::message::encode_frame(MessageType::Close, &[]);
    assert!(matches!(sender.handle_control_message(&close, 9).unwrap(), SenderAction::Closed));
    assert!(sender.handle_control_message(&[1, 2, 3], 9).is_err());
}

#[test]
fn message_round_trips() {
    let init = InitMessage::new(true, [3u8; 32], 123);
    let back = InitMessage::from_bytes(&init.to_bytes()).unwrap();
    assert_eq!(back.client_public_key, [3u8; 32]);
    assert_eq!(back.timestamp_us, 123);
    assert_eq!(back.buffer_size, 2 * 1024 * 1024);
    assert!(back.encryption_enabled);

    let ack = InitAckMessage::with_client_timestamp(1_048_576, 1200, 65536, 200_000, 11, 22);
    assert_eq!(ack.total_segments, 16);
    assert_eq!(ack.chunks_per_segment, 55);
    let back = InitAckMessage::from_bytes(&ack.to_bytes()).unwrap();
    assert_eq!(back.total_file_size, 1_048_576);
    assert_eq!(back.client_timestamp_us, 11);
    assert_eq!(back.server_timestamp_us, 22);
    assert_eq!(back.redundancy_ratio, 200_000);

    let nack = NackMessage::new(5, vec![1, 2, 300], 250_000, 0);
    let bytes = nack.to_bytes();
    assert_eq!(bytes.len(), 13 + 21 + 12);
    let back = NackMessage::from_bytes(&bytes).unwrap();
    assert_eq!(back.segment_id, 5);
    assert_eq!(back.missing_chunk_ids, vec![1, 2, 300]);
    assert_eq!(back.receive_ratio, 250_000);

    let fc = FlowControlMessage::new(1000, 4, 2, 0, 3);
    assert_eq!(FlowControlMessage::from_bytes(&fc.to_bytes()).unwrap(), fc);
    let sc = SegmentCompleteMessage { segment_id: 1, total_chunks_received: 2, duplicates_received: 3, elapsed_ms: 4 };
    assert_eq!(SegmentCompleteMessage::from_bytes(&sc.to_bytes()).unwrap(), sc);
    let hb = HeartbeatMessage::new(9, 10);
    assert_eq!(HeartbeatMessage::from_bytes(&hb.to_bytes()).unwrap(), hb);
    let key = KeyExchangeMessage { public_key: [8u8; 32] };
    assert_eq!(KeyExchangeMessage::from_bytes(&key.to_bytes()).unwrap().public_key, [8u8; 32]);
    match Message::from_bytes(&fc.to_bytes()).unwrap() {
        Message::FlowControl(m) => assert_eq!(m, fc),
        _ => panic!(),
    }
    assert_eq!(Message::from_bytes(&fc.to_bytes()).unwrap().msg_type(), MessageType::FlowControl);
}

#[test]
fn frame_header_errors_are_typed() {
    let good = HeartbeatMessage::new(1, 2).to_bytes();
    assert_eq!(&good[0..4], &0x53465050u32.to_le_bytes());
    assert_eq!(read_header(&good[..12]).unwrap_err(), Error::Malformed);
    let mut bad_magic = good.clone();
    bad_magic[0] = 0;
    assert!(matches!(read_header(&bad_magic).unwrap_err(), Error::InvalidMagicNumber { expected: 0x53465050, .. }));
    let mut bad_version = good.clone();
    bad_version[4] = 9;
    assert_eq!(read_header(&bad_version).unwrap_err(), Error::InvalidVersion { expected: 1, got: 9 });
    assert_eq!(
        FlowControlMessage::from_bytes(&good).unwrap_err(),
        Error::MessageTypeMismatch { expected: MessageType::FlowControl, got: MessageType::Heartbeat }
    );
    let mut long = good.clone();
    long.push(0);
    assert_eq!(HeartbeatMessage::from_bytes(&long).unwrap_err(), Error::Malformed);
    let mut bad_tag = good.clone();
    bad_tag[5] = 77;
    assert_eq!(read_header(&bad_tag).unwrap_err(), Error::Malformed);
}

#[test]
fn suggested_rate_follows_loss_and_headroom() {
    assert_eq!(FlowControlMessage::new(10, 0, 0, 200_000, 100).suggested_rate, 50);
    assert_eq!(FlowControlMessage::new(10, 0, 0, 60_000, 100).suggested_rate, 100);
    assert_eq!(FlowControlMessage::new(101, 0, 0, 0, 100).suggested_rate, 120);
    assert_eq!(FlowControlMessage::new(100, 0, 0, 0, 100).suggested_rate, 100);
}

#[test]
fn pacing_doubles_in_slow_start_and_halves_on_loss() {
    let mut cc = CongestionControl::new(0);
    assert_eq!(cc.send_rate, MIN_RATE);
    assert_eq!(MIN_RATE, 50_000_000);
    assert_eq!(MAX_RATE, 1_000_000_000);
    cc.set_initial_rate(100);
    assert_eq!(cc.send_rate, 100_000_000);
    assert_eq!(cc.ssthresh, 200_000_000);
    cc.set_initial_rate(400);
    assert_eq!(cc.send_rate, 100_000_000);
    cc.on_feedback(100_000_000, 1_000_000);
    assert_eq!(cc.send_rate, 200_000_000);
    assert!(!cc.in_slow_start);
    cc.on_feedback(200_000_000, 1_000_000);
    assert_eq!(cc.send_rate, 250_000_000);
    cc.on_feedback(10, 1_000_000);
    assert_eq!(cc.send_rate, 125_000_000);
    cc.on_feedback(10, 1_000_000);
    assert_eq!(cc.send_rate, 62_500_000);
    cc.on_feedback(10, 1_000_000);
    assert_eq!(cc.send_rate, MIN_RATE);
    assert_eq!(cc.batch_delay_us(MIN_RATE), 1_000_000);
    let mut ca = CongestionControl::new(0);
    ca.in_slow_start = false;
    ca.send_rate = 100_000_000;
    ca.on_feedback(100_000_000, 1_000_000);
    assert_eq!(ca.send_rate, 150_000_000);
    let mut loss = CongestionControl::new(0);
    loss.send_rate = 60_000_000;
    loss.on_feedback(1, 1_000_000);
    assert_eq!(loss.send_rate, 50_000_000);
    let mut ss = CongestionControl::new(0);
    ss.send_rate = 520_000_000;
    ss.ssthresh = 1_000_000_000;
    ss.on_feedback(520_000_000, 1_000_000);
    assert_eq!(ss.send_rate, 1_000_000_000);
    let mut top = CongestionControl::new(0);
    top.in_slow_start = false;
    top.send_rate = MAX_RATE;
    top.on_feedback(u64::MAX, 1);
    assert_eq!(top.send_rate, MAX_RATE);
}

#[test]
fn flow_control_reports_seed_then_measure() {
    let mut cc = CongestionControl::new(0);
    let first = FlowControlMessage::new(1000, 0, 0, 0, 300);
    cc.handle_flow_control(&first, 5, 66_000);
    assert_eq!(cc.send_rate, 300_000_000);
    let later = FlowControlMessage::new(0, 0, 0, 0, 10);
    cc.handle_flow_control(&later, 1_000_005, 66_000);
    assert_eq!(cc.prev_completed, 10);
    assert_eq!(cc.send_rate, 150_000_000);
}

#[test]
fn weights_stay_normalized() {
    let mut config = test_config();
    config.ratio_adjust_interval_ms = 0;
    let mut pm = PathManager::new(config, 0);
    for _ in 0..3 {
        pm.add_nic(0).unwrap();
    }
    let sum: u64 = pm.get_ratios().iter().map(|r| r.1).sum();
    assert_eq!(sum, WEIGHT_SCALE);
    for k in 0..50u64 {
        pm.record_chunk_arrival(0, 1200, k * 1000);
        pm.record_chunk_arrival(1, 120, k * 1000);
    }
    pm.record_loss(1, 5);
    pm.adjust_ratios(1_000_000);
    let ratios = pm.get_ratios();
    let sum: u64 = ratios.iter().map(|r| r.1).sum();
    assert_eq!(sum, WEIGHT_SCALE);
    for r in &ratios {
        assert!(r.1 * 3 >= 100_000_000);
    }
    assert!(ratios[0].1 > ratios[1].1);
    pm.deactivate_nic(2);
    let ratios = pm.get_ratios();
    assert_eq!(ratios[2].1, 0);
    assert_eq!(ratios.iter().map(|r| r.1).sum::<u64>(), WEIGHT_SCALE);
    assert_eq!(pm.active_nic_count(), 2);
    let picks: Vec<u8> = (0..100).map(|_| pm.select_nic_for_chunk().unwrap()).collect();
    assert_eq!(picks.iter().filter(|&&p| p == 0).count(), 50);
}

#[test]
fn redundancy_follows_loss() {
    let c = Config::default();
    assert_eq!(c.calculate_redundancy(0), 150_000);
    assert_eq!(c.calculate_redundancy(100_000), 350_000);
    assert_eq!(c.calculate_redundancy(500_000), 700_000);
    assert_eq!(Config::low_spec().calculate_redundancy(0), 200_000);
    assert_eq!(c.chunks_per_segment(), 55);
    assert_eq!(Config::high_performance().chunk_size, 1400);
    assert_eq!(Config::unstable_network().base_redundancy_ratio, 350_000);
}

#[test]
fn link_statistics() {
    let mut s = NicStats::new(0, 3, 0);
    assert_eq!(s.average_rtt_us(), None);
    for rtt in 1..=12u64 {
        s.record_rtt(rtt * 10);
    }
    assert_eq!(s.rtt_samples.len(), 10);
    assert_eq!(s.average_rtt_us(), Some(75));
    s.record_arrival(100, 0);
    assert_eq!(s.throughput(), 0);
    s.record_arrival(100, 500_000);
    s.record_arrival(100, 1_000_000);
    s.record_arrival(100, 2_000_000);
    assert_eq!(s.arrivals.len(), 3);
    assert_eq!(s.throughput(), 200);
    assert_eq!(s.chunk_arrival_rate(), 1);
    s.record_loss(1);
    assert_eq!(s.loss_rate(), 200_000);
    s.record_duplicate();
    assert_eq!(s.duplicate_chunks, 1);
    s.reset(5);
    assert_eq!(s.total_chunks, 0);
    assert_eq!(s.loss_rate(), 0);
}

#[test]
fn transfer_statistics() {
    let mut t = TransferStats::new(2, 10, 1_000_000);
    assert_eq!(t.nic_stats.len(), 2);
    assert_eq!(t.nic_stats[1].nic_id, 1);
    assert_eq!(t.elapsed(3_000_000), 2_000_000);
    assert_eq!(t.elapsed(0), 0);
    t.total_bytes = 4_000_000;
    t.total_chunks = 100;
    t.redundant_chunks = 20;
    t.retransmitted_chunks = 5;
    assert_eq!(t.overall_throughput(3_000_000), 2_000_000);
    assert_eq!(t.effective_throughput(3_000_000), 1_500_000);
    t.nic_stats[0].record_loss(25);
    assert_eq!(t.overall_loss_rate(), 200_000);
}

#[test]
fn rate_hint_is_clamped() {
    assert_eq!(initial_rate_hint(0), 100);
    assert_eq!(initial_rate_hint(1000), 400);
    assert_eq!(initial_rate_hint(1), 500);
    assert_eq!(initial_rate_hint(1_000_000), 50);
}

#[test]
fn outbound_control_is_never_dropped() {
    let mut q = OutboundQueues::new(2, 3);
    for i in 0..10u8 {
        q.offer_data(vec![i]);
    }
    assert_eq!(q.dropped_data, 7);
    assert!(q.offer_control(vec![100]).is_ok());
    assert!(q.offer_control(vec![101]).is_ok());
    assert_eq!(q.offer_control(vec![102]), Err(vec![102]));
    assert!(!q.offer_data(vec![50]));
    assert_eq!(q.next(), Some(vec![100]));
    assert_eq!(q.next(), Some(vec![101]));
    assert_eq!(q.next(), Some(vec![0]));
    assert!(q.offer_control(vec![102]).is_ok());
    assert_eq!(q.next(), Some(vec![102]));
}

#[test]
fn segment_ranges_cover_the_source() {
    assert_eq!(segment_range(150, 64, 1), (0, 64));
    assert_eq!(segment_range(150, 64, 3), (128, 150));
    assert_eq!(segment_range(150, 64, 4), (150, 150));
}

#[test]
fn transfer_summary_and_ratios() {
    let mut t = TransferStats::new(2, 10, 0);
    t.total_segments = 16;
    t.completed_segments = 3;
    t.total_bytes = 5000;
    t.total_nacks = 2;
    t.total_chunks = 40;
    t.nic_stats[0].record_loss(10);
    assert_eq!(
        t.summary(2_500_000),
        "Elapsed: 2500 ms | Segments: 3/16 | Bytes: 5000 | Throughput: 2000 B/s | Loss: 200000 ppm | NACKs: 2"
    );
    t.redundant_chunks = 10;
    assert_eq!(t.calculate_real_throughput(1_000_000), 600_000);
    assert_eq!(t.nic_ratios(), vec![500_000, 500_000]);
    t.nic_stats[0].record_arrival(300, 0);
    t.nic_stats[0].record_arrival(300, 1_000_000);
    t.nic_stats[1].record_arrival(100, 0);
    t.nic_stats[1].record_arrival(100, 1_000_000);
    assert_eq!(t.nic_ratios(), vec![750_000, 250_000]);
    let d = TransferStats::default();
    assert_eq!(d.nic_stats.len(), 1);
}

#[test]
fn single_path_takes_all_weight() {
    let pm = sls::multipath::create_single_path(Config::default(), 0);
    assert_eq!(pm.nic_count(), 1);
    assert_eq!(pm.get_ratios(), vec![(0, WEIGHT_SCALE)]);
}

#[test]
fn send_file_produces_every_segment() {
    let data = source(3 * 65536 + 10);
    let mut sender = Sender::new(test_config(), data.len() as u64, 0).unwrap();
    assert!(sender.send_file(&data, 0).is_err());
    let mut sender = Sender::new(test_config(), data.len() as u64, 0).unwrap();
    let init = InitMessage::new(false, [0u8; 32], 0).to_bytes();
    sender.handle_control_message(&init, 1).unwrap();
    let frames = sender.send_file(&data, 2).unwrap();
    assert_eq!(sender.segments.len(), 4);
    assert_eq!(frames.len(), 3 * (55 + 11) + 1 + 1);
    let last = Chunk::from_bytes(frames.last().unwrap()).unwrap();
    assert_eq!(last.header.segment_id, 4);
}

#[test]
fn tampered_sealed_segment_is_refused_then_recovered() {
    let data = source(65536);
    let config = test_config();
    let mut sender = Sender::new(config, data.len() as u64, 0).unwrap();
    let (mut rh, init) = ReceiverHandshake::start(true, 0);
    let mut sh = SenderHandshake::new();
    assert!(matches!(sh.on_datagram(&init), HandshakeStep::Done));
    sender.crypto = sh.take_crypto();
    let ack = match sender.handle_control_message(&init, 1).unwrap() {
        SenderAction::Reply(f) => f,
        _ => panic!(),
    };
    assert!(matches!(rh.on_datagram(&ack), HandshakeStep::Done));
    let params = rh.ack.unwrap();
    let mut r = ReceiverSession::new(&params, rh.take_crypto(), 0).unwrap();
    let (_, frames) = sender.send_data(&data, 2).unwrap();
    let first_copies: Vec<Chunk> = frames
        .iter()
        .map(|f| Chunk::from_bytes(f).unwrap())
        .filter(|c| !c.header.is_redundant)
        .collect();
    assert_eq!(first_copies.len(), 55);
    let mut last = ChunkOutcome::Ignored;
    for (i, c) in first_copies.iter().enumerate() {
        let chunk = if i == 3 {
            let mut bytes = c.data.clone();
            bytes[10] ^= 1;
            let h = c.header;
            Chunk::new(h.segment_id, h.chunk_id, h.total_chunks, h.offset, h.segment_size, bytes, 0, false, 0)
        } else {
            Chunk::new(c.header.segment_id, c.header.chunk_id, c.header.total_chunks, c.header.offset, c.header.segment_size, c.data.clone(), 0, false, 0)
        };
        last = r.handle_chunk(&chunk, 5);
    }
    assert_eq!(last, ChunkOutcome::SealRejected);
    assert_eq!(r.completed_segments(), 0);
    for c in &first_copies {
        last = r.handle_chunk(c, 6);
    }
    assert_eq!(last, ChunkOutcome::Completed);
    assert_eq!(r.output(), data);
}

#[test]
fn crc_failing_chunk_changes_nothing() {
    let ack = InitAckMessage::with_client_timestamp(3000, 1200, 1500, 0, 0, 0);
    let mut r = ReceiverSession::new(&ack, None, 0).unwrap();
    let mut bad = Chunk::new(1, 0, 0, 0, 0, vec![], 0, false, 0);
    bad.header.crc32 ^= 1;
    assert_eq!(r.handle_chunk(&bad, 1), ChunkOutcome::Ignored);
    assert_eq!(r.in_progress_count(), 0);
    assert_eq!(r.completed_segments(), 0);
    let empty = Chunk::new(1, 0, 0, 0, 0, vec![], 0, false, 0);
    assert_eq!(r.handle_chunk(&empty, 1), ChunkOutcome::Inconsistent);
    assert_eq!(r.completed_segments(), 0);
    let mut c = Chunk::new(1, 0, 2, 0, 1500, vec![1; 1200], 0, false, 0);
    c.data[0] = 9;
    assert_eq!(r.handle_chunk(&c, 1), ChunkOutcome::Ignored);
    assert_eq!(r.in_progress_count(), 0);
}

#[test]
fn init_is_answered_with_echoed_timestamp() {
    let mut sender = Sender::new(test_config(), 1_048_576, 0).unwrap();
    let init = InitMessage::new(false, [0u8; 32], 4242).to_bytes();
    let ack = match sender.handle_control_message(&init, 99).unwrap() {
        SenderAction::Reply(f) => InitAckMessage::from_bytes(&f).unwrap(),
        _ => panic!(),
    };
    assert!(sender.connected);
    assert_eq!(ack.client_timestamp_us, 4242);
    assert_eq!(ack.server_timestamp_us, 99);
    assert_eq!(ack.total_segments, 16);
    assert_eq!(ack.chunks_per_segment, 55);
    assert_eq!(ack.redundancy_ratio, 200_000);
    assert!(!ack.encryption_enabled);
}

#[test]
fn encrypted_init_ack_counts_sealed_chunks() {
    let mut sender = Sender::new(test_config(), 1_048_576, 0).unwrap();
    let (_rh, init) = ReceiverHandshake::start(true, 0);
    let mut sh = SenderHandshake::new();
    assert!(matches!(sh.on_datagram(&init), HandshakeStep::Done));
    sender.crypto = sh.take_crypto();
    let ack = match sender.handle_control_message(&init, 1).unwrap() {
        SenderAction::Reply(f) => InitAckMessage::from_bytes(&f).unwrap(),
        _ => panic!(),
    };
    assert!(ack.encryption_enabled);
    assert_eq!(ack.chunks_per_segment, 55);
    assert_ne!(ack.server_public_key, [0u8; 32]);
}

#[test]
fn report_without_progress_counts_as_loss() {
    let mut cc = CongestionControl::new(0);
    cc.handle_flow_control(&FlowControlMessage::new(1000, 0, 0, 0, 400), 1, 66_000);
    assert_eq!(cc.send_rate, 400_000_000);
    cc.handle_flow_control(&FlowControlMessage::new(0, 0, 0, 0, 0), 100_000, 66_000);
    assert_eq!(cc.send_rate, 200_000_000);
    assert_eq!(cc.ssthresh, 200_000_000);
    assert!(!cc.in_slow_start);
}

#[test]
fn sender_flow_control_paces() {
    let mut sender = Sender::new(test_config(), 1000, 0).unwrap();
    let fc = FlowControlMessage::new(1000, 0, 0, 0, 100).to_bytes();
    sender.handle_control_message(&fc, 1).unwrap();
    assert_eq!(sender.congestion.send_rate, 100_000_000);
    let fc = FlowControlMessage::new(0, 0, 0, 0, 2000).to_bytes();
    sender.handle_control_message(&fc, 1_000_001).unwrap();
    assert_eq!(sender.congestion.send_rate, 200_000_000);
}

#[test]
fn nack_service_is_counted() {
    let mut sender = Sender::new(test_config(), 3000, 0).unwrap();
    sender.handle_control_message(&InitMessage::new(false, [0u8; 32], 0).to_bytes(), 1).unwrap();
    sender.send_data(&[5u8; 3000], 2).unwrap();
    let before = sender.stats.total_chunks;
    let frames = sender.handle_nack(&NackMessage::new(1, vec![0, 1, 7], 0, 0), 3);
    assert_eq!(frames.len(), 2);
    assert_eq!(sender.stats.total_nacks, 1);
    assert_eq!(sender.retransmitted, 2);
    assert_eq!(sender.stats.retransmitted_chunks, 2);
    assert_eq!(sender.stats.total_chunks, before + 2);
    assert_eq!(sender.path_manager.stats[0].lost_chunks, 3);
}

#[test]
fn receiver_timers_pace_reports_and_nacks() {
    let mut t = sls::receiver::ReceiverTimers::new(0);
    let a = t.on_tick(50_000, 40_000);
    assert!(!a.send_report && !a.send_nacks);
    let a = t.on_tick(100_000, 90_000);
    assert!(a.send_report && a.send_nacks);
    let a = t.on_tick(150_000, 140_000);
    assert!(!a.send_report && !a.send_nacks);
    let a = t.on_tick(190_000, 185_000);
    assert!(!a.send_nacks);
    let a = t.on_tick(200_000, 0);
    assert!(a.send_report && a.send_nacks);
}
