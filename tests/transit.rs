use aria_telemetry::ccem::{DriftCompensator, RxDeJitter, TxConditioner};
use aria_telemetry::crypto::{CryptoBox, ICryptoBox, KeyManager, NonceCounter};
use aria_telemetry::envelope::{Envelope, EnvelopeMetadata, Priority};
use aria_telemetry::error::AriaError;
use aria_telemetry::link_health::{LinkHealthController, SystemMetrics};
use aria_telemetry::packetization::{Defragmenter, Packetizer};
use aria_telemetry::qos::{QoSPolicy, QoSShaper, TokenBucket};
use aria_telemetry::recovery::RecoveryManager;
use aria_telemetry::transport::{reconnect_delay_secs, DtnTransport, MqttSnTransport, QuicTransport};

fn make_envelope(priority: Priority, seq: u64, payload: Vec<u8>) -> Envelope {
    Envelope {
        id: uuid::Uuid::new_v4().as_u128(),
        timestamp: chrono::Utc::now().timestamp_micros(),
        schema_id: 1,
        priority,
        topic: "test".into(),
        payload,
        metadata: EnvelopeMetadata {
            source_node: "test".into(),
            sequence_number: seq,
            fragment_info: None,
            fec_info: None,
            crypto_info: None,
            qos_class: "default".into(),
        },
    }
}

// ---- packetization ----

#[test]
fn test_no_fragmentation() {
    let packetizer = Packetizer::new(1400);
    let envelope = make_envelope(Priority::P2, 0, vec![0u8; 1000]);

    let fragments = packetizer.fragment(envelope.clone()).unwrap();
    assert_eq!(fragments.len(), 1);
    assert_eq!(fragments[0].payload.len(), 1000);
}

#[test]
fn test_fragmentation() {
    let packetizer = Packetizer::new(1400);
    let envelope = make_envelope(Priority::P2, 0, vec![0u8; 3000]);

    let fragments = packetizer.fragment(envelope).unwrap();
    assert_eq!(fragments.len(), 3);
    assert_eq!(fragments[0].payload.len(), 1400);
    assert_eq!(fragments[1].payload.len(), 1400);
    assert_eq!(fragments[2].payload.len(), 200);
}

#[test]
fn test_defragmentation() {
    let packetizer = Packetizer::new(1400);
    let mut defragmenter = Defragmenter::new(10_000_000);

    let original = make_envelope(Priority::P2, 0, vec![0u8; 3000]);
    let original_payload = original.payload.clone();

    let fragments = packetizer.fragment(original).unwrap();

    for (i, frag) in fragments.iter().enumerate() {
        let result = defragmenter.add_fragment(frag.clone());
        if i < fragments.len() - 1 {
            assert!(result.is_none());
        } else {
            let complete = result.unwrap();
            assert_eq!(complete.payload, original_payload);
        }
    }
}

#[test]
fn test_defragmentation_out_of_order() {
    let packetizer = Packetizer::new(1400);
    let mut defragmenter = Defragmenter::new(10_000_000);

    let original = make_envelope(Priority::P2, 0, vec![0u8; 3000]);
    let original_payload = original.payload.clone();

    let fragments = packetizer.fragment(original).unwrap();

    let result1 = defragmenter.add_fragment(fragments[2].clone());
    assert!(result1.is_none());

    let result2 = defragmenter.add_fragment(fragments[0].clone());
    assert!(result2.is_none());

    let result3 = defragmenter.add_fragment(fragments[1].clone());
    assert!(result3.is_some());

    let complete = result3.unwrap();
    assert_eq!(complete.payload, original_payload);
}

#[test]
fn fragmentation_scenario_metadata_and_reassembly() {
    let packetizer = Packetizer::new(1400);
    let payload: Vec<u8> = (0..3000u32).map(|i| (i % 253) as u8).collect();
    let original = make_envelope(Priority::P1, 5, payload.clone());
    let fragments = packetizer.fragment(original.clone()).unwrap();
    let sizes: Vec<usize> = fragments.iter().map(|f| f.payload.len()).collect();
    assert_eq!(sizes, vec![1400, 1400, 200]);
    for (i, f) in fragments.iter().enumerate() {
        let info = f.metadata.fragment_info.unwrap();
        assert_eq!(info.fragment_id, i as u32);
        assert_eq!(info.total_fragments, 3);
        assert_eq!(info.fragment_offset, (i * 1400) as u64);
        assert_eq!(info.correlation_key, original.id);
        assert_eq!(f.topic, original.topic);
    }
    let mut defrag = Defragmenter::new(5_000_000);
    let t = 1_000_000;
    assert!(defrag.add_fragment_at(fragments[1].clone(), t).is_none());
    assert!(defrag.add_fragment_at(fragments[1].clone(), t + 1).is_none());
    assert!(defrag.add_fragment_at(fragments[2].clone(), t + 2).is_none());
    assert_eq!(defrag.pending(), 1);
    let done = defrag.add_fragment_at(fragments[0].clone(), t + 3).unwrap();
    assert_eq!(done.payload, payload);
    assert_eq!(done.id, original.id);
    assert!(done.metadata.fragment_info.is_none());
    assert_eq!(done.metadata.sequence_number, 5);
    assert_eq!(defrag.pending(), 0);
}

#[test]
fn non_fragment_passes_through_defragmenter() {
    let mut defrag = Defragmenter::new(5_000_000);
    let e = make_envelope(Priority::P3, 1, b"abc".to_vec());
    let out = defrag.add_fragment_at(e.clone(), 0).unwrap();
    assert_eq!(out.payload, e.payload);
    assert_eq!(out.id, e.id);
}

#[test]
fn defragmenter_gc_drops_stale_buffers() {
    let packetizer = Packetizer::new(10);
    let fragments = packetizer.fragment(make_envelope(Priority::P2, 0, vec![1u8; 25])).unwrap();
    let mut defrag = Defragmenter::new(1000);
    assert!(defrag.add_fragment_at(fragments[0].clone(), 0).is_none());
    defrag.gc_expired_at(999);
    assert_eq!(defrag.pending(), 1);
    assert_eq!(defrag.losses(), 0);
    defrag.gc_expired_at(1000);
    assert_eq!(defrag.pending(), 0);
    assert_eq!(defrag.losses(), 1);
}

#[test]
fn refragmenting_a_fragment_is_refused() {
    let packetizer = Packetizer::new(10);
    let fragments = packetizer.fragment(make_envelope(Priority::P2, 0, vec![1u8; 25])).unwrap();
    let small = Packetizer::new(5);
    assert!(matches!(small.fragment(fragments[0].clone()), Err(AriaError::InvalidState(_))));
}

// ---- crypto ----

#[test]
fn test_sign_verify() {
    let crypto = CryptoBox::new("test-key".into());
    let data = b"Hello, World!";

    let signature = crypto.sign(data).unwrap();
    assert!(crypto.verify(data, &signature).unwrap());

    assert!(!crypto.verify(b"Wrong data", &signature).unwrap());
}

#[test]
fn test_encrypt_decrypt() {
    let crypto = CryptoBox::new("test-key".into());
    let data = b"Secret message";
    let nonce = [0u8; 12];

    let ciphertext = crypto.encrypt(data, &nonce).unwrap();
    assert_ne!(ciphertext.as_slice(), data);

    let plaintext = crypto.decrypt(&ciphertext, &nonce).unwrap();
    assert_eq!(plaintext.as_slice(), data);
}

#[test]
fn test_wrong_nonce_fails() {
    let crypto = CryptoBox::new("test-key".into());
    let data = b"Secret message";
    let nonce1 = [0u8; 12];
    let nonce2 = [1u8; 12];

    let ciphertext = crypto.encrypt(data, &nonce1).unwrap();
    let result = crypto.decrypt(&ciphertext, &nonce2);
    assert!(result.is_err());
}

#[test]
fn test_key_manager() {
    let mut manager = KeyManager::new();

    let key1 = CryptoBox::new("key1".into());
    let key2 = CryptoBox::new("key2".into());

    manager.add_key("key1".into(), key1);
    manager.add_key("key2".into(), key2);

    assert!(manager.get_active_key().is_some());

    manager.rotate("key2".into());
    assert_eq!(manager.get_active_key().unwrap().key_id(), "key2");
}

#[test]
fn crypto_integrity_every_bit_flip_fails() {
    let crypto = CryptoBox::from_keys([3u8; 32], &[4u8; 32], "k".into());
    let data = b"Hello, World!".to_vec();
    let sig = crypto.sign(&data).unwrap();
    assert_eq!(sig.len(), 64);
    assert!(crypto.verify(&data, &sig).unwrap());
    for byte in 0..data.len() {
        for bit in 0..8 {
            let mut flipped = data.clone();
            flipped[byte] ^= 1 << bit;
            assert!(!crypto.verify(&flipped, &sig).unwrap());
        }
    }
    let ct = crypto.encrypt(&data, &[0u8; 12]).unwrap();
    assert!(matches!(crypto.decrypt(&ct, &[1u8; 12]), Err(AriaError::CryptoDecryptionFailed)));
}

#[test]
fn crypto_bad_lengths() {
    let crypto = CryptoBox::new("k".into());
    assert!(matches!(crypto.verify(b"x", &[0u8; 10]), Err(AriaError::Crypto(_))));
    assert!(matches!(crypto.encrypt(b"x", &[0u8; 11]), Err(AriaError::Crypto(_))));
    assert!(matches!(crypto.decrypt(b"x", &[0u8; 13]), Err(AriaError::Crypto(_))));
}

#[test]
fn seal_then_open_with_key_manager() {
    let boxed = CryptoBox::from_keys([9u8; 32], &[8u8; 32], "k1".into());
    let e = make_envelope(Priority::P0, 4, b"command".to_vec());
    let sealed = boxed.seal(e.clone(), &[5u8; 12]).unwrap();
    assert_ne!(sealed.payload, e.payload);
    let info = sealed.metadata.crypto_info.clone().unwrap();
    assert_eq!(info.key_id, "k1");
    assert_eq!(info.nonce, vec![5u8; 12]);
    assert_eq!(info.signature.len(), 64);
    assert!(matches!(boxed.seal(sealed.clone(), &[5u8; 12]), Err(AriaError::InvalidState(_))));

    let mut manager = KeyManager::new();
    assert!(matches!(manager.open_envelope(sealed.clone()), Err(AriaError::CryptoUnknownKey)));
    manager.add_key("k1".into(), CryptoBox::from_keys([9u8; 32], &[8u8; 32], "k1".into()));
    let opened = manager.open_envelope(sealed.clone()).unwrap();
    assert_eq!(opened.payload, e.payload);
    assert!(opened.metadata.crypto_info.is_none());

    let mut tampered = sealed.clone();
    tampered.payload[0] ^= 1;
    assert!(matches!(manager.open_envelope(tampered), Err(AriaError::CryptoDecryptionFailed)));

    let other_signer = CryptoBox::from_keys([1u8; 32], &[8u8; 32], "k1".into());
    let forged = other_signer.seal(e.clone(), &[6u8; 12]).unwrap();
    assert!(matches!(manager.open_envelope(forged), Err(AriaError::CryptoSignatureInvalid)));
}

#[test]
fn rotate_to_unknown_key_keeps_active() {
    let mut manager = KeyManager::new();
    manager.add_key("a".into(), CryptoBox::new("a".into()));
    manager.rotate("missing".into());
    assert_eq!(manager.get_active_key().unwrap().key_id(), "a");
    assert!(manager.get_key("missing").is_none());
}

// ---- qos ----

#[test]
fn test_priority_ordering() {
    let mut shaper = QoSShaper::new();

    shaper.enqueue(make_envelope(Priority::P3, 1, vec![])).unwrap();
    shaper.enqueue(make_envelope(Priority::P0, 2, vec![])).unwrap();
    shaper.enqueue(make_envelope(Priority::P2, 3, vec![])).unwrap();

    let first = shaper.dequeue().unwrap();
    assert_eq!(first.priority, Priority::P0);
}

#[test]
fn test_token_bucket() {
    let t = 1_000_000;
    let mut bucket = TokenBucket::new(10, 5, t);

    for _ in 0..5 {
        assert!(bucket.try_consume(t));
    }
    for _ in 0..5 {
        assert!(bucket.try_consume(t));
    }
    assert!(!bucket.try_consume(t));

    bucket.refill(t + 200_000);
    assert!(bucket.try_consume(t + 200_000));
}

#[test]
fn test_queue_depth_limit() {
    let mut shaper = QoSShaper::new_at(0);
    shaper.set_priority_policy(
        Priority::P3,
        QoSPolicy { max_rate_per_sec: 1000, burst_size: 100, max_queue_depth: 5 },
        0,
    );

    for i in 0..10 {
        shaper.enqueue(make_envelope(Priority::P3, i, vec![])).unwrap();
    }

    assert_eq!(shaper.queue_len(Priority::P3), 5);
    assert_eq!(shaper.dequeue_at(0).unwrap().metadata.sequence_number, 5);
}

#[test]
fn qos_strict_priority_then_fifo() {
    let mut shaper = QoSShaper::new_at(0);
    let order = [(Priority::P2, 0), (Priority::P1, 1), (Priority::P2, 2), (Priority::P0, 3), (Priority::P1, 4)];
    for (p, s) in order {
        shaper.enqueue(make_envelope(p, s, vec![])).unwrap();
    }
    let out: Vec<u64> = (0..5).map(|_| shaper.dequeue_at(0).unwrap().metadata.sequence_number).collect();
    assert_eq!(out, vec![3, 1, 4, 0, 2]);
    assert!(shaper.dequeue_at(0).is_none());
    assert!(!shaper.can_send(Priority::P0));
}

#[test]
fn qos_bucket_limits_rate() {
    let mut shaper = QoSShaper::new_at(0);
    shaper.set_priority_policy(
        Priority::P0,
        QoSPolicy { max_rate_per_sec: 2, burst_size: 3, max_queue_depth: 100 },
        0,
    );
    for i in 0..10 {
        shaper.enqueue(make_envelope(Priority::P0, i, vec![])).unwrap();
    }
    let mut sent = 0;
    while shaper.dequeue_at(0).is_some() {
        sent += 1;
    }
    assert_eq!(sent, 3);
    let mut later = 0;
    while shaper.dequeue_at(1_000_000).is_some() {
        later += 1;
    }
    assert_eq!(later, 2);
}

#[test]
fn qos_blocked_class_lets_lower_class_through() {
    let mut shaper = QoSShaper::new_at(0);
    shaper.set_priority_policy(Priority::P0, QoSPolicy { max_rate_per_sec: 0, burst_size: 0, max_queue_depth: 10 }, 0);
    shaper.enqueue(make_envelope(Priority::P0, 1, vec![])).unwrap();
    shaper.enqueue(make_envelope(Priority::P3, 2, vec![])).unwrap();
    assert_eq!(shaper.dequeue_at(10).unwrap().metadata.sequence_number, 2);
    assert!(shaper.dequeue_at(10).is_none());
}

#[test]
fn qos_topic_policy_is_recorded() {
    let mut shaper = QoSShaper::new_at(0);
    shaper.set_policy("lidar", QoSPolicy { max_rate_per_sec: 5, burst_size: 1, max_queue_depth: 2 });
    shaper.enqueue(make_envelope(Priority::P1, 0, vec![])).unwrap();
    assert!(shaper.can_send(Priority::P1));
}

// ---- ccem ----

#[test]
fn test_tx_conditioner() {
    let mut conditioner = TxConditioner::new(10_000);
    let env = make_envelope(Priority::P2, 1, vec![]);

    let result = conditioner.condition(env.clone()).unwrap();
    assert!(result.is_some());
}

#[test]
fn tx_conditioner_defers_within_window() {
    let mut c = TxConditioner::new(100);
    assert_eq!(c.condition_at(make_envelope(Priority::P2, 1, vec![]), 0).unwrap().unwrap().metadata.sequence_number, 1);
    assert!(c.condition_at(make_envelope(Priority::P2, 2, vec![]), 50).unwrap().is_none());
    let out = c.condition_at(make_envelope(Priority::P2, 3, vec![]), 150).unwrap().unwrap();
    assert_eq!(out.metadata.sequence_number, 2);
    let out = c.condition_at(make_envelope(Priority::P2, 4, vec![]), 300).unwrap().unwrap();
    assert_eq!(out.metadata.sequence_number, 3);
}

#[test]
fn test_rx_dejitter_ordering() {
    let mut dejitter = RxDeJitter::new(10);

    // Receive out of order; each arrival releases what is then in order.
    let mut output = dejitter.add(make_envelope(Priority::P2, 2, vec![]));
    output.extend(dejitter.add(make_envelope(Priority::P2, 0, vec![])));
    output.extend(dejitter.add(make_envelope(Priority::P2, 1, vec![])));
    output.extend(dejitter.add(make_envelope(Priority::P2, 3, vec![])));
    // Should output 0, 1, 2, 3 in order
    assert_eq!(output.len(), 4);
}

#[test]
fn dejitter_reorder_scenario() {
    let mut dejitter = RxDeJitter::new(4);
    let mut stream = Vec::new();
    for s in [2u64, 0, 1, 3] {
        for e in dejitter.add(make_envelope(Priority::P2, s, vec![])) {
            stream.push(e.metadata.sequence_number);
        }
    }
    assert_eq!(stream, vec![0, 1, 2, 3]);
    assert_eq!(dejitter.next_sequence(), 4);
}

#[test]
fn dejitter_discards_duplicates_and_late() {
    let mut dejitter = RxDeJitter::new(4);
    assert!(dejitter.add(make_envelope(Priority::P2, 2, vec![])).is_empty());
    assert!(dejitter.add(make_envelope(Priority::P2, 2, vec![])).is_empty());
    assert_eq!(dejitter.add(make_envelope(Priority::P2, 0, vec![])).len(), 1);
    assert!(dejitter.add(make_envelope(Priority::P2, 0, vec![])).is_empty());
    let out = dejitter.add(make_envelope(Priority::P2, 1, vec![]));
    let seqs: Vec<u64> = out.iter().map(|e| e.metadata.sequence_number).collect();
    assert_eq!(seqs, vec![1, 2]);
}

#[test]
fn dejitter_skips_forward_when_full() {
    let mut dejitter = RxDeJitter::new(2);
    assert!(dejitter.add(make_envelope(Priority::P2, 5, vec![])).is_empty());
    assert!(dejitter.add(make_envelope(Priority::P2, 6, vec![])).is_empty());
    let out = dejitter.add(make_envelope(Priority::P2, 8, vec![]));
    let seqs: Vec<u64> = out.iter().map(|e| e.metadata.sequence_number).collect();
    assert_eq!(seqs, vec![6]);
    assert_eq!(dejitter.next_sequence(), 7);
}

#[test]
fn test_drift_compensator() {
    let mut compensator = DriftCompensator::new();
    compensator.update_offset(100_000);

    let timestamp = chrono::Utc::now().timestamp_micros();
    let compensated = compensator.compensate(timestamp);
    assert!(compensated > timestamp);
}

#[test]
fn drift_average_exact() {
    let mut c = DriftCompensator::new();
    c.update_offset(1000);
    assert_eq!(c.clock_offset(), 100);
    c.update_offset(1000);
    assert_eq!(c.clock_offset(), 190);
    assert_eq!(c.compensate(10), 200);
}

// ---- recovery, link health, transport ----

#[test]
fn recovery_counts_gaps() {
    let mut r = RecoveryManager::new();
    assert!(r.conceal_loss(3, 7).is_empty());
    assert_eq!(r.get_lost_count(), 4);
    r.conceal_loss(7, 7);
    assert_eq!(r.get_lost_count(), 4);
    r.observe(0);
    r.observe(1);
    r.observe(4);
    assert_eq!(r.get_lost_count(), 6);
}

#[test]
fn recovery_integrity_checks_metadata() {
    let r = RecoveryManager::new();
    let mut e = make_envelope(Priority::P2, 0, vec![]);
    assert!(r.check_integrity(&e).unwrap());
    e.metadata.fragment_info = Some(aria_telemetry::envelope::FragmentInfo {
        fragment_id: 3,
        total_fragments: 3,
        fragment_offset: 0,
        correlation_key: 1,
    });
    assert!(!r.check_integrity(&e).unwrap());
}

#[test]
fn test_link_health_advises_fec() {
    let mut controller = LinkHealthController::new();
    let metrics = SystemMetrics {
        packet_loss_permille: 150,
        latency_ms: 50,
        cpu_percent: 30,
        memory_mb: 512,
        bandwidth_kbps: 5000,
    };

    controller.update_metrics(metrics);
    let advice = controller.advise();

    assert!(advice.adjust_fec.is_some());
}

#[test]
fn link_health_thresholds() {
    let mut c = LinkHealthController::new();
    c.update_metrics(SystemMetrics { packet_loss_permille: 100, latency_ms: 150, cpu_percent: 0, memory_mb: 0, bandwidth_kbps: 1000 });
    let a = c.advise();
    assert_eq!(a.adjust_fec, None);
    assert_eq!(a.adjust_rate_percent, None);
    assert_eq!(a.adjust_codec, None);
    c.update_metrics(SystemMetrics { packet_loss_permille: 101, latency_ms: 151, cpu_percent: 0, memory_mb: 0, bandwidth_kbps: 999 });
    let a = c.advise();
    assert_eq!(a.adjust_fec, Some((4, 2)));
    assert_eq!(a.adjust_rate_percent, Some(80));
    assert_eq!(a.adjust_codec, Some("LZ4".to_string()));
}

#[test]
fn test_quic_transport() {
    let transport = QuicTransport::new();
    assert_eq!(transport.name(), "QUIC");
}

#[test]
fn test_dtn_store_and_forward() {
    let transport = DtnTransport::new();
    assert_eq!(transport.store_len(), 0);
}

#[test]
fn send_before_connect_is_invalid() {
    let mut t = MqttSnTransport::new();
    assert!(matches!(t.send(make_envelope(Priority::P2, 0, vec![])), Err(AriaError::InvalidState(_))));
    t.connect("udp://ground:1883").unwrap();
    assert!(t.send(make_envelope(Priority::P2, 1, vec![])).is_ok());
    assert_eq!(t.name(), "MQTT-SN");
}

#[test]
fn dtn_keeps_spool_across_reconnects() {
    let mut t = DtnTransport::new();
    t.send(make_envelope(Priority::P2, 0, vec![])).unwrap();
    assert!(t.drain().is_empty());
    t.connect("dtn://relay").unwrap();
    t.disconnect().unwrap();
    t.send(make_envelope(Priority::P2, 1, vec![])).unwrap();
    assert_eq!(t.store_len(), 2);
    t.connect("dtn://relay").unwrap();
    let out: Vec<u64> = t.drain().iter().map(|e| e.metadata.sequence_number).collect();
    assert_eq!(out, vec![0, 1]);
    assert_eq!(t.store_len(), 0);
}

// ---- end to end ----

#[test]
fn e2e_happy_path() {
    let mut shaper = QoSShaper::new_at(0);
    let mut dejitter = RxDeJitter::new(16);
    let mut delivered = Vec::new();
    for i in 0..10u64 {
        let e = make_envelope(Priority::P2, i, format!("Test message {}", i).into_bytes());
        shaper.enqueue(e).unwrap();
    }
    while let Some(e) = shaper.dequeue_at(0) {
        delivered.extend(dejitter.add(e));
    }
    assert_eq!(delivered.len(), 10);
    for (i, e) in delivered.iter().enumerate() {
        assert_eq!(e.metadata.sequence_number, i as u64);
        assert_eq!(e.payload, format!("Test message {}", i).into_bytes());
        assert_eq!(e.topic, "test");
        assert_eq!(e.priority, Priority::P2);
    }
}

#[test]
fn reconnect_backoff_doubles_then_caps() {
    let delays: Vec<u64> = (0..8).map(reconnect_delay_secs).collect();
    assert_eq!(delays, vec![1, 2, 4, 8, 16, 32, 60, 60]);
    assert_eq!(reconnect_delay_secs(1000), 60);
}

#[test]
fn nonce_counter_never_repeats() {
    let mut nonces = NonceCounter::new(0x0102_0304);
    let a = nonces.next_nonce().unwrap();
    let b = nonces.next_nonce().unwrap();
    assert_eq!(a, vec![1, 2, 3, 4, 0, 0, 0, 0, 0, 0, 0, 0]);
    assert_eq!(b, vec![1, 2, 3, 4, 0, 0, 0, 0, 0, 0, 0, 1]);
    let crypto = CryptoBox::new("k".into());
    let sealed = crypto.seal(make_envelope(Priority::P2, 0, b"x".to_vec()), &b).unwrap();
    assert_eq!(sealed.metadata.crypto_info.unwrap().nonce, b);
}

#[test]
fn recovery_checks_schema_registration() {
    let r = RecoveryManager::new();
    let mut registry = aria_telemetry::codec::SchemaRegistry::new();
    let e = make_envelope(Priority::P2, 0, vec![]);
    assert!(!r.check_envelope(&e, &registry));
    registry.register(1, "State".into());
    assert!(r.check_envelope(&e, &registry));
}

#[test]
fn dejitter_trims_before_emitting() {
    let mut dejitter = RxDeJitter::new(1);
    assert!(dejitter.add(make_envelope(Priority::P2, 2, vec![])).is_empty());
    // The buffer overflows: the lowest entry (the arrival itself) is lost
    // and emission skips past it, still waiting for 1.
    assert!(dejitter.add(make_envelope(Priority::P2, 0, vec![])).is_empty());
    assert_eq!(dejitter.next_sequence(), 1);
    let out: Vec<u64> = dejitter.add(make_envelope(Priority::P2, 1, vec![])).iter().map(|e| e.metadata.sequence_number).collect();
    assert_eq!(out, vec![2]);
}

#[test]
fn shape_lets_out_highest_priority() {
    let mut shaper = QoSShaper::new_at(0);
    shaper.enqueue(make_envelope(Priority::P3, 1, vec![])).unwrap();
    let out = shaper.shape_at(make_envelope(Priority::P0, 2, vec![]), 0).unwrap().unwrap();
    assert_eq!(out.metadata.sequence_number, 2);
    let out = shaper.shape(make_envelope(Priority::P2, 3, vec![])).unwrap().unwrap();
    assert_eq!(out.metadata.sequence_number, 3);
    assert_eq!(shaper.queue_len(Priority::P3), 1);
}

#[test]
fn drain_returns_everything_in_priority_order() {
    let mut shaper = QoSShaper::new_at(0);
    for (p, s) in [(Priority::P3, 0), (Priority::P1, 1), (Priority::P0, 2), (Priority::P1, 3), (Priority::P3, 4)] {
        shaper.enqueue(make_envelope(p, s, vec![])).unwrap();
    }
    let out: Vec<u64> = shaper.drain_at(0).iter().map(|e| e.metadata.sequence_number).collect();
    assert_eq!(out, vec![2, 1, 3, 0, 4]);
    assert!(shaper.drain_at(0).is_empty());
}

#[test]
fn dejitter_batch_restores_order() {
    let mut dejitter = RxDeJitter::new(8);
    let batch: Vec<Envelope> = [5u64, 3, 0, 7, 1, 6, 2, 4, 3].iter().map(|&s| make_envelope(Priority::P2, s, vec![])).collect();
    let out: Vec<u64> = dejitter.add_all(batch).iter().map(|e| e.metadata.sequence_number).collect();
    assert_eq!(out, (0..8).collect::<Vec<u64>>());
}
