use rustchain::codec::{FrameDecodeBuffer, FramedMessageCodec, MessageCodec};
use rustchain::engine::{OutboundEnvelope, SyncEngine};
use rustchain::message::{ChainStatus, Handshake, MessageValidationError, NetworkMessage};
use rustchain::p2p_error::P2pError;
use rustchain::peer::{PeerRegistry, PeerStatus};
use rustchain::queue::{OrderedMessageQueue, SequencedMessage};
use rustchain::transport::{encode_outbound_frames, TransportSession, TransportSessionPool};

fn local_status(height: u64) -> ChainStatus {
    ChainStatus {
        chain_id: "rustchain-lab-dev".to_string(),
        best_height: height,
        best_hash: format!("0x{height}"),
        difficulty: 2,
        genesis_hash: "0xgenesis".to_string(),
    }
}

#[test]
fn message_codec_roundtrip_should_work() {
    let msg = NetworkMessage::ChainStatus(ChainStatus {
        chain_id: "rustchain-lab-dev".to_string(),
        best_height: 12,
        best_hash: "0xabc".to_string(),
        difficulty: 2,
        genesis_hash: "0xgenesis".to_string(),
    });

    let encoded = MessageCodec::encode(&msg).expect("编码应当成功");
    let decoded = MessageCodec::decode(&encoded).expect("解码应当成功");

    assert_eq!(decoded, msg);
}

#[test]
fn invalid_message_should_fail_encode() {
    let msg = NetworkMessage::NewBlock { block: Vec::new() };
    let result = MessageCodec::encode(&msg);

    assert!(matches!(result, Err(P2pError::InvalidMessage(_))));
}

#[test]
fn framed_codec_should_roundtrip_message() {
    let msg = NetworkMessage::GetBlocks {
        from_height: 3,
        limit: 16,
    };

    let frame = FramedMessageCodec::encode_frame(&msg).expect("帧编码应成功");
    let decoded = FramedMessageCodec::decode_frame(&frame)
        .expect("帧解码应成功")
        .expect("完整帧应返回消息");

    assert_eq!(decoded.message, msg);
    assert_eq!(decoded.consumed, frame.len());
}

#[test]
fn framed_codec_should_wait_for_incomplete_frame() {
    let msg = NetworkMessage::GetMempool;
    let frame = FramedMessageCodec::encode_frame(&msg).expect("帧编码应成功");
    let incomplete = &frame[..frame.len() - 1];

    let decoded = FramedMessageCodec::decode_frame(incomplete).expect("半包解析应成功");

    assert!(decoded.is_none());
}

#[test]
fn framed_codec_should_reject_oversized_payload() {
    let msg = NetworkMessage::NewTransaction {
        transaction: vec![1, 2, 3, 4],
    };

    let result = FramedMessageCodec::encode_frame_with_max_len(&msg, 1);

    assert!(matches!(result, Err(P2pError::InvalidArgument(_))));
}

#[test]
fn frame_decode_buffer_should_wait_until_full_frame() {
    let msg = NetworkMessage::GetMempool;
    let frame = FramedMessageCodec::encode_frame(&msg).expect("帧编码应成功");
    let split_at = frame.len() / 2;

    let mut buffer = FrameDecodeBuffer::new();
    buffer.push(&frame[..split_at]);

    let first = buffer.next_message().expect("半包解析不应报错");
    assert!(first.is_none());
    assert_eq!(buffer.buffered_len(), split_at);

    buffer.push(&frame[split_at..]);
    let second = buffer
        .next_message()
        .expect("完整帧解析应成功")
        .expect("补齐后应返回消息");

    assert_eq!(second, msg);
    assert!(buffer.is_empty());
}

#[test]
fn frame_decode_buffer_should_drain_multiple_frames_from_sticky_packet() {
    let msg1 = NetworkMessage::GetMempool;
    let msg2 = NetworkMessage::GetBlocks {
        from_height: 8,
        limit: 4,
    };
    let mut packet = FramedMessageCodec::encode_frame(&msg1).expect("第一帧编码应成功");
    packet.extend(FramedMessageCodec::encode_frame(&msg2).expect("第二帧编码应成功"));

    let mut buffer = FrameDecodeBuffer::new();
    buffer.push(&packet);

    let messages = buffer.drain_messages().expect("粘包拆包应成功");

    assert_eq!(messages, vec![msg1, msg2]);
    assert!(buffer.is_empty());
}

#[test]
fn frame_decode_buffer_should_keep_partial_tail_after_drain() {
    let msg1 = NetworkMessage::GetMempool;
    let msg2 = NetworkMessage::GetBlocks {
        from_height: 9,
        limit: 2,
    };
    let frame1 = FramedMessageCodec::encode_frame(&msg1).expect("第一帧编码应成功");
    let frame2 = FramedMessageCodec::encode_frame(&msg2).expect("第二帧编码应成功");
    let split_at = frame2.len() - 1;

    let mut packet = frame1;
    packet.extend_from_slice(&frame2[..split_at]);

    let mut buffer = FrameDecodeBuffer::new();
    buffer.push(&packet);

    let messages = buffer.drain_messages().expect("批量拆包应成功");

    assert_eq!(messages, vec![msg1]);
    assert_eq!(buffer.buffered_len(), split_at);

    buffer.push(&frame2[split_at..]);
    let tail = buffer.drain_messages().expect("尾帧补齐后应成功");

    assert_eq!(tail, vec![msg2]);
    assert!(buffer.is_empty());
}

#[test]
fn frame_should_carry_big_endian_length_prefix() {
    let msg = NetworkMessage::GetChainStatus;
    let payload = MessageCodec::encode(&msg).expect("编码应当成功");
    let frame = FramedMessageCodec::encode_frame(&msg).expect("帧编码应成功");
    assert_eq!(frame.len(), payload.len() + 4);
    assert_eq!(&frame[..4], &(payload.len() as u32).to_be_bytes());
    assert_eq!(&frame[4..], payload.as_slice());
}

#[test]
fn decode_of_garbage_should_fail() {
    assert!(matches!(MessageCodec::decode(&[0xff, 0xff, 0xff, 0xff, 0x01]), Err(P2pError::Deserialize(_))));
}

#[test]
fn ping_should_produce_pong() {
    let mut engine = SyncEngine::new("local-node", local_status(5));
    let payload = MessageCodec::encode(&NetworkMessage::Ping {
        nonce: 7,
        timestamp: 123,
    })
    .expect("编码应当成功");

    let report = engine
        .on_incoming_encoded("peer-a", "/ip4/127.0.0.1/tcp/7001", 1, &payload)
        .expect("处理应当成功");

    assert_eq!(report.processed, 1);
    assert_eq!(report.outbound.len(), 1);
    assert_eq!(
        report.outbound[0].message,
        NetworkMessage::Pong {
            nonce: 7,
            timestamp: 123
        }
    );
}

#[test]
fn out_of_order_messages_should_be_processed_in_sequence() {
    let mut engine = SyncEngine::new("local-node", local_status(3));
    let msg2 = NetworkMessage::Ping {
        nonce: 9,
        timestamp: 10,
    };
    let msg1 = NetworkMessage::GetChainStatus;

    let report2 = engine
        .on_incoming_message("peer-a", "/ip4/127.0.0.1/tcp/7001", 2, msg2)
        .expect("处理应当成功");
    assert_eq!(report2.processed, 0);

    let report1 = engine
        .on_incoming_message("peer-a", "/ip4/127.0.0.1/tcp/7001", 1, msg1)
        .expect("处理应当成功");
    assert_eq!(report1.processed, 2);
    assert_eq!(report1.outbound.len(), 2);
    assert!(matches!(
        report1.outbound[0].message,
        NetworkMessage::ChainStatus(_)
    ));
    assert!(matches!(
        report1.outbound[1].message,
        NetworkMessage::Pong { .. }
    ));
}

#[test]
fn higher_remote_chain_should_trigger_get_blocks() {
    let mut engine = SyncEngine::new("local-node", local_status(2));
    let handshake = NetworkMessage::Handshake(Handshake {
        node_id: "peer-a".to_string(),
        protocol_version: "1.0.0".to_string(),
        listen_addr: "/ip4/127.0.0.1/tcp/7001".to_string(),
        best_height: 2,
        best_hash: "0x2".to_string(),
    });
    engine
        .on_incoming_message("peer-a", "/ip4/127.0.0.1/tcp/7001", 1, handshake)
        .expect("握手应当成功");

    let report = engine
        .on_incoming_message(
            "peer-a",
            "/ip4/127.0.0.1/tcp/7001",
            2,
            NetworkMessage::ChainStatus(local_status(8)),
        )
        .expect("状态同步应当成功");

    assert_eq!(report.processed, 1);
    assert_eq!(report.outbound.len(), 1);
    assert_eq!(
        report.outbound[0].message,
        NetworkMessage::GetBlocks {
            from_height: 3,
            limit: 128,
        }
    );
}

#[test]
fn broadcast_should_target_connected_peers() {
    let mut engine = SyncEngine::new("local-node", local_status(2));
    engine.register_peer("peer-a", "/ip4/127.0.0.1/tcp/7001");
    engine.register_peer("peer-b", "/ip4/127.0.0.1/tcp/7002");

    let _ = engine
        .on_incoming_message(
            "peer-a",
            "/ip4/127.0.0.1/tcp/7001",
            1,
            NetworkMessage::GetChainStatus,
        )
        .expect("处理应当成功");

    let outbound = engine.broadcast_to_connected(NetworkMessage::GetMempool);
    assert_eq!(outbound.len(), 1);
    assert_eq!(outbound[0].target_peer_id, "peer-a");
}

#[test]
fn stale_sequence_should_be_rejected_by_engine() {
    let mut engine = SyncEngine::new("local-node", local_status(2));
    engine
        .on_incoming_message("peer-a", "/ip4/127.0.0.1/tcp/7001", 1, NetworkMessage::GetChainStatus)
        .expect("处理应当成功");
    assert_eq!(engine.next_expected_sequence("peer-a"), Some(2));
    let result = engine.on_incoming_message("peer-a", "/ip4/127.0.0.1/tcp/7001", 1, NetworkMessage::GetChainStatus);
    assert_eq!(result, Err(P2pError::StaleSequence { seq: 1, expected: 2 }));
}

#[test]
fn invalid_incoming_message_should_be_rejected_by_engine() {
    let mut engine = SyncEngine::new("local-node", local_status(2));
    let result = engine.on_incoming_message(
        "peer-a",
        "/ip4/127.0.0.1/tcp/7001",
        1,
        NetworkMessage::GetBlocks { from_height: 1, limit: 0 },
    );
    assert!(matches!(result, Err(P2pError::InvalidMessage(_))));
}

#[test]
fn handshake_without_node_id_should_fail() {
    let msg = NetworkMessage::Handshake(Handshake {
        node_id: String::new(),
        protocol_version: "1.0.0".to_string(),
        listen_addr: "127.0.0.1:7000".to_string(),
        best_height: 1,
        best_hash: "abc".to_string(),
    });

    assert_eq!(
        msg.validate_basic(),
        Err(MessageValidationError::MissingField("node_id"))
    );
}

#[test]
fn get_blocks_with_invalid_limit_should_fail() {
    let msg = NetworkMessage::GetBlocks {
        from_height: 10,
        limit: 0,
    };

    assert_eq!(
        msg.validate_basic(),
        Err(MessageValidationError::InvalidField("limit"))
    );
}

#[test]
fn new_transaction_with_empty_payload_should_fail() {
    let msg = NetworkMessage::NewTransaction {
        transaction: Vec::new(),
    };

    assert_eq!(
        msg.validate_basic(),
        Err(MessageValidationError::EmptyPayload("transaction"))
    );
}

#[test]
fn valid_chain_status_should_pass() {
    let msg = NetworkMessage::ChainStatus(ChainStatus {
        chain_id: "rustchain-lab-dev".to_string(),
        best_height: 9,
        best_hash: "0xabc".to_string(),
        difficulty: 2,
        genesis_hash: "0xgenesis".to_string(),
    });

    assert!(msg.validate_basic().is_ok());
    assert_eq!(msg.message_type(), "chain_status");
}

#[test]
fn get_blocks_limit_bounds_should_be_inclusive() {
    assert!(NetworkMessage::GetBlocks { from_height: 0, limit: 200 }.validate_basic().is_ok());
    assert!(NetworkMessage::GetBlocks { from_height: 0, limit: 201 }.validate_basic().is_err());
    assert_eq!(
        NetworkMessage::Blocks { blocks: vec![vec![1], vec![]] }.validate_basic(),
        Err(MessageValidationError::EmptyPayload("blocks"))
    );
    assert_eq!(MessageValidationError::MissingField("node_id").message(), "字段缺失: node_id");
}

#[test]
fn peer_registry_upsert_should_work() {
    let mut registry = PeerRegistry::new();
    registry.upsert("node-a", "/ip4/127.0.0.1/tcp/7001");

    let peer = registry.get("node-a").expect("节点应当存在");
    assert_eq!(peer.id, "node-a");
    assert_eq!(peer.status, PeerStatus::Connecting);
    assert_eq!(registry.len(), 1);
}

#[test]
fn connected_peers_filter_should_work() {
    let mut registry = PeerRegistry::new();
    registry.upsert("node-a", "/ip4/127.0.0.1/tcp/7001");
    registry.upsert("node-b", "/ip4/127.0.0.1/tcp/7002");

    registry
        .get_mut("node-a")
        .expect("节点应当存在")
        .mark_alive(Some(12));
    registry.mark_disconnected("node-b");

    let connected = registry.connected_peers();
    assert_eq!(connected.len(), 1);
    assert_eq!(connected[0].id, "node-a");
}

#[test]
fn snapshot_should_include_all_peers() {
    let mut registry = PeerRegistry::new();
    registry.upsert("node-a", "/ip4/127.0.0.1/tcp/7001");
    registry.upsert("node-b", "/ip4/127.0.0.1/tcp/7002");

    let snapshot = registry.snapshot();
    assert_eq!(snapshot.len(), 2);
}

#[test]
fn nearest_peers_should_sort_and_limit() {
    let mut registry = PeerRegistry::new();
    registry.upsert("node-a", "/ip4/127.0.0.1/tcp/7001");
    registry.upsert("node-b", "/ip4/127.0.0.1/tcp/7002");
    registry.upsert("node-c", "/ip4/127.0.0.1/tcp/7003");

    let nearest = registry.nearest_peers("target-node", 2);
    assert_eq!(nearest.len(), 2);
    assert!(nearest[0].xor_distance_hex <= nearest[1].xor_distance_hex);
}

#[test]
fn nearest_peers_with_invalid_input_should_return_empty() {
    let mut registry = PeerRegistry::new();
    registry.upsert("node-a", "/ip4/127.0.0.1/tcp/7001");

    assert!(registry.nearest_peers("", 5).is_empty());
    assert!(registry.nearest_peers("target-node", 0).is_empty());
}

#[test]
fn dht_buckets_should_sort_by_bucket_index_desc() {
    let mut registry = PeerRegistry::new();
    registry.upsert("node-a", "/ip4/127.0.0.1/tcp/7001");
    registry.upsert("node-b", "/ip4/127.0.0.1/tcp/7002");
    registry.upsert("node-c", "/ip4/127.0.0.1/tcp/7003");

    let buckets = registry.dht_buckets("target-node", 8);
    assert!(!buckets.is_empty());
    for pair in buckets.windows(2) {
        assert!(pair[0].bucket_index >= pair[1].bucket_index);
    }
}

#[test]
fn upsert_of_known_peer_should_keep_one_entry_and_new_address() {
    let mut registry = PeerRegistry::new();
    registry.upsert("node-a", "/ip4/127.0.0.1/tcp/7001");
    registry.upsert("node-a", "/ip4/127.0.0.1/tcp/9001");
    assert_eq!(registry.len(), 1);
    assert_eq!(registry.get("node-a").expect("节点应当存在").address, "/ip4/127.0.0.1/tcp/9001");
    assert!(registry.get("node-z").is_none());
}

#[test]
fn out_of_order_messages_should_be_processed_in_order() {
    let mut queue = OrderedMessageQueue::new(10);
    queue
        .push(SequencedMessage::new(
            "peer-a",
            11,
            NetworkMessage::GetMempool,
        ))
        .expect("入队应当成功");
    queue
        .push(SequencedMessage::new(
            "peer-a",
            10,
            NetworkMessage::GetChainStatus,
        ))
        .expect("入队应当成功");

    let ready = queue.pop_all_ready();
    assert_eq!(ready.len(), 2);
    assert_eq!(ready[0].sequence, 10);
    assert_eq!(ready[1].sequence, 11);
    assert_eq!(queue.next_expected(), 12);
}

#[test]
fn stale_message_should_be_rejected() {
    let mut queue = OrderedMessageQueue::new(5);
    let result = queue.push(SequencedMessage::new(
        "peer-a",
        4,
        NetworkMessage::GetChainStatus,
    ));

    assert_eq!(
        result,
        Err(P2pError::StaleSequence {
            seq: 4,
            expected: 5,
        })
    );
}

#[test]
fn duplicate_sequence_should_keep_first_message() {
    let mut queue = OrderedMessageQueue::new(1);
    queue.push(SequencedMessage::new("peer-a", 2, NetworkMessage::GetMempool)).expect("入队应当成功");
    queue.push(SequencedMessage::new("peer-a", 2, NetworkMessage::GetChainStatus)).expect("入队应当成功");
    assert_eq!(queue.pending_len(), 1);
    queue.push(SequencedMessage::new("peer-a", 1, NetworkMessage::GetChainStatus)).expect("入队应当成功");
    let first = queue.pop_ready().expect("应有就绪消息");
    let second = queue.pop_ready().expect("应有就绪消息");
    assert_eq!(first.sequence, 1);
    assert_eq!(second.message, NetworkMessage::GetMempool);
    assert!(queue.pop_ready().is_none());
    assert_eq!(queue.ready_len(), 0);
}

#[test]
fn transport_session_should_process_frame_after_partial_bytes_completed() {
    let mut engine = SyncEngine::new("local-node", local_status(3));
    let mut session = TransportSession::new("peer-a", "/ip4/127.0.0.1/tcp/7001");
    let frame = FramedMessageCodec::encode_frame(&NetworkMessage::Ping {
        nonce: 11,
        timestamp: 22,
    })
    .expect("帧编码应成功");
    let split_at = frame.len() / 2;

    let first = session
        .push_inbound_bytes(&mut engine, &frame[..split_at])
        .expect("半包处理不应报错");
    assert_eq!(first.processed, 0);
    assert_eq!(session.next_sequence(), 1);

    let second = session
        .push_inbound_bytes(&mut engine, &frame[split_at..])
        .expect("补齐后应处理成功");
    assert_eq!(second.processed, 1);
    assert_eq!(session.next_sequence(), 2);
    assert_eq!(second.outbound.len(), 1);
    assert_eq!(
        second.outbound[0].message,
        NetworkMessage::Pong {
            nonce: 11,
            timestamp: 22
        }
    );
}

#[test]
fn transport_session_should_process_sticky_frames_in_order() {
    let mut engine = SyncEngine::new("local-node", local_status(3));
    let mut session = TransportSession::new("peer-a", "/ip4/127.0.0.1/tcp/7001");
    let mut packet = FramedMessageCodec::encode_frame(&NetworkMessage::GetChainStatus)
        .expect("第一帧应成功");
    packet.extend(
        FramedMessageCodec::encode_frame(&NetworkMessage::Ping {
            nonce: 7,
            timestamp: 9,
        })
        .expect("第二帧应成功"),
    );

    let report = session
        .push_inbound_bytes(&mut engine, &packet)
        .expect("粘包处理应成功");

    assert_eq!(report.processed, 2);
    assert_eq!(session.next_sequence(), 3);
    assert!(matches!(
        report.outbound[0].message,
        NetworkMessage::ChainStatus(_)
    ));
    assert!(matches!(
        report.outbound[1].message,
        NetworkMessage::Pong { .. }
    ));
}

#[test]
fn encode_outbound_frames_should_preserve_target_and_payload() {
    let outbound = vec![OutboundEnvelope {
        target_peer_id: "peer-a".to_string(),
        message: NetworkMessage::GetMempool,
    }];

    let frames = encode_outbound_frames(&outbound).expect("出站帧编码应成功");
    let decoded = FramedMessageCodec::decode_frame(&frames[0].bytes)
        .expect("出站帧解码应成功")
        .expect("应得到完整帧");

    assert_eq!(frames.len(), 1);
    assert_eq!(frames[0].target_peer_id, "peer-a");
    assert_eq!(decoded.message, NetworkMessage::GetMempool);
}

#[test]
fn transport_session_pool_should_keep_peer_buffers_isolated() {
    let mut engine = SyncEngine::new("local-node", local_status(3));
    let mut pool = TransportSessionPool::new();
    let frame_a = FramedMessageCodec::encode_frame(&NetworkMessage::Ping {
        nonce: 1,
        timestamp: 10,
    })
    .expect("peer-a 帧编码应成功");
    let frame_b = FramedMessageCodec::encode_frame(&NetworkMessage::Ping {
        nonce: 2,
        timestamp: 20,
    })
    .expect("peer-b 帧编码应成功");
    let split_at = frame_a.len() / 2;

    let first = pool
        .push_inbound_bytes(
            &mut engine,
            "peer-a",
            "/ip4/127.0.0.1/tcp/7001",
            &frame_a[..split_at],
        )
        .expect("peer-a 半包处理不应报错");
    let second = pool
        .push_inbound_bytes(&mut engine, "peer-b", "/ip4/127.0.0.1/tcp/7002", &frame_b)
        .expect("peer-b 完整帧应处理成功");

    assert_eq!(first.processed, 0);
    assert_eq!(second.processed, 1);
    assert_eq!(pool.session_count(), 2);
    assert_eq!(pool.next_sequence("peer-a"), Some(1));
    assert_eq!(pool.next_sequence("peer-b"), Some(2));
    assert_eq!(pool.buffered_len("peer-a"), Some(split_at));
    assert_eq!(pool.buffered_len("peer-b"), Some(0));

    let tail = pool
        .push_inbound_bytes(
            &mut engine,
            "peer-a",
            "/ip4/127.0.0.1/tcp/7001",
            &frame_a[split_at..],
        )
        .expect("peer-a 补齐后应处理成功");

    assert_eq!(tail.processed, 1);
    assert_eq!(pool.next_sequence("peer-a"), Some(2));
    assert_eq!(pool.buffered_len("peer-a"), Some(0));
}

#[test]
fn transport_session_pool_should_remove_disconnected_session() {
    let mut engine = SyncEngine::new("local-node", local_status(3));
    let mut pool = TransportSessionPool::new();
    let frame =
        FramedMessageCodec::encode_frame(&NetworkMessage::GetMempool).expect("帧编码应成功");

    pool.push_inbound_bytes(&mut engine, "peer-a", "/ip4/127.0.0.1/tcp/7001", &frame)
        .expect("完整帧应处理成功");

    assert!(pool.remove("peer-a"));
    assert_eq!(pool.session_count(), 0);
    assert_eq!(pool.next_sequence("peer-a"), None);
    assert!(!pool.remove("peer-a"));
}

#[test]
fn message_bytes_should_match_bincode_layout() {
    let encoded = MessageCodec::encode(&NetworkMessage::GetBlocks { from_height: 3, limit: 16 }).expect("编码应当成功");
    assert_eq!(encoded, bincode::serialize(&(5u32, 3u64, 16u32)).expect("bincode 应成功"));
    let encoded = MessageCodec::encode(&NetworkMessage::NewTransaction { transaction: vec![1, 2, 3] }).expect("编码应当成功");
    assert_eq!(encoded, bincode::serialize(&(3u32, vec![1u8, 2, 3])).expect("bincode 应成功"));
    let encoded = MessageCodec::encode(&NetworkMessage::Ping { nonce: 7, timestamp: -1 }).expect("编码应当成功");
    assert_eq!(encoded, bincode::serialize(&(0u32, 7u64, -1i64)).expect("bincode 应成功"));
}

#[test]
fn transport_session_snapshot_should_list_sessions_in_order() {
    let mut engine = SyncEngine::new("local-node", local_status(3));
    let mut pool = TransportSessionPool::new();
    let frame = FramedMessageCodec::encode_frame(&NetworkMessage::Ping { nonce: 1, timestamp: 10 }).expect("帧编码应成功");
    let half = frame.len() / 2;
    pool.push_inbound_bytes(&mut engine, "peer-a", "/ip4/127.0.0.1/tcp/7001", &frame[..half]).expect("半包处理不应报错");
    pool.push_inbound_bytes(&mut engine, "peer-b", "/ip4/127.0.0.1/tcp/7002", &frame).expect("完整帧应处理成功");
    let snapshot = pool.snapshot();
    assert_eq!(snapshot.len(), 2);
    assert_eq!(snapshot[0].peer_id, "peer-a");
    assert_eq!(snapshot[0].address, "/ip4/127.0.0.1/tcp/7001");
    assert_eq!(snapshot[0].next_sequence, 1);
    assert_eq!(snapshot[0].buffered_bytes, half);
    assert_eq!(snapshot[1].peer_id, "peer-b");
    assert_eq!(snapshot[1].next_sequence, 2);
    assert_eq!(snapshot[1].buffered_bytes, 0);
}
