use identify::frame::read_frame;
use identify::protocol::Upgrade;
use identify::varint::{read_uvarint, write_uvarint};
use identify::wire;
use identify::{Addr, Endpoint, IdentifyError, IdentifyInfo, IdentifyOutput, IdentifyProtocolConfig};

fn addr_of(s: &str) -> Addr {
    let ma: multiaddr::Multiaddr = s.parse().unwrap();
    Addr::from_bytes(ma.to_vec()).unwrap()
}

fn addr_bytes_of(s: &str) -> Vec<u8> {
    let ma: multiaddr::Multiaddr = s.parse().unwrap();
    ma.to_vec()
}

/// One full exchange over an in-memory channel: the listener sends its
/// identity, the dialer receives every field identically.
#[test]
fn correct_transfer() {
    let cfg = IdentifyProtocolConfig;
    let upgrade = cfg.upgrade(Endpoint::Listener, addr_of("/ip4/127.0.0.1/tcp/0"));
    let sender = match upgrade {
        Upgrade::Ready(IdentifyOutput::Sender { sender, .. }) => sender,
        _ => panic!(),
    };
    let wire_bytes = sender.send(
        IdentifyInfo {
            public_key: vec![1, 2, 3, 4, 5, 7],
            protocol_version: "proto_version".to_owned(),
            agent_version: "agent_version".to_owned(),
            listen_addrs: vec![
                addr_of("/ip4/80.81.82.83/tcp/500"),
                addr_of("/ip6/::1/udp/1000"),
            ],
            protocols: vec!["proto1".to_string(), "proto2".to_string()],
        },
        &addr_of("/ip4/100.101.102.103/tcp/5000"),
    );

    let (payload, consumed) = read_frame(&wire_bytes, 0).unwrap();
    assert_eq!(consumed, wire_bytes.len());
    let cfg = IdentifyProtocolConfig;
    let upgrade = cfg.upgrade(Endpoint::Dialer, addr_of("/ip4/127.0.0.1/tcp/0"));
    let flow = match upgrade {
        Upgrade::AwaitFrame(flow) => flow,
        _ => panic!(),
    };
    match flow.on_first_frame(Some(payload)).unwrap() {
        IdentifyOutput::RemoteInfo {
            info,
            observed_addr,
        } => {
            assert_eq!(
                observed_addr.bytes,
                addr_bytes_of("/ip4/100.101.102.103/tcp/5000")
            );
            assert_eq!(info.public_key, &[1, 2, 3, 4, 5, 7]);
            assert_eq!(info.protocol_version, "proto_version");
            assert_eq!(info.agent_version, "agent_version");
            assert_eq!(info.listen_addrs.len(), 2);
            assert_eq!(
                info.listen_addrs[0].bytes,
                addr_bytes_of("/ip4/80.81.82.83/tcp/500")
            );
            assert_eq!(
                info.listen_addrs[1].bytes,
                addr_bytes_of("/ip6/::1/udp/1000")
            );
            assert_eq!(info.protocols, &["proto1".to_string(), "proto2".to_string()]);
        }
        _ => panic!(),
    }
}

/// A record with arbitrary field values, including a non-ASCII protocol
/// name, comes back field for field from its own encoding.
#[test]
fn round_trip_arbitrary_record() {
    let info = IdentifyInfo {
        public_key: vec![0, 255, 128, 7],
        protocol_version: "ipfs/1.0.0".to_owned(),
        agent_version: "agent \u{00e9}\u{4e16}\u{1f680}".to_owned(),
        listen_addrs: vec![addr_of("/ip4/1.2.3.4/tcp/80")],
        protocols: vec!["pr\u{00f8}to".to_string(), "".to_string()],
    };
    let observed = addr_of("/dns4/example.com/tcp/443");
    let payload = identify::codec::encode_identify(&info, &observed);
    let (got, got_observed) = identify::codec::parse_proto_msg(&payload).unwrap();
    assert_eq!(got.public_key, vec![0, 255, 128, 7]);
    assert_eq!(got.protocol_version, "ipfs/1.0.0");
    assert_eq!(got.agent_version, "agent \u{00e9}\u{4e16}\u{1f680}");
    assert_eq!(got.listen_addrs.len(), 1);
    assert_eq!(got.listen_addrs[0].bytes, addr_bytes_of("/ip4/1.2.3.4/tcp/80"));
    assert_eq!(
        got.protocols,
        &["pr\u{00f8}to".to_string(), "".to_string()]
    );
    assert_eq!(got_observed.bytes, addr_bytes_of("/dns4/example.com/tcp/443"));
}

/// Empty listen address and protocol lists round-trip to empty lists.
#[test]
fn round_trip_empty_collections() {
    let info = IdentifyInfo {
        public_key: Vec::new(),
        protocol_version: String::new(),
        agent_version: String::new(),
        listen_addrs: Vec::new(),
        protocols: Vec::new(),
    };
    let observed = addr_of("/ip4/9.9.9.9/udp/53");
    let payload = identify::codec::encode_identify(&info, &observed);
    let (got, got_observed) = identify::codec::parse_proto_msg(&payload).unwrap();
    assert_eq!(got.public_key, Vec::<u8>::new());
    assert_eq!(got.protocol_version, "");
    assert_eq!(got.agent_version, "");
    assert_eq!(got.listen_addrs.len(), 0);
    assert_eq!(got.protocols.len(), 0);
    assert_eq!(got_observed.bytes, addr_bytes_of("/ip4/9.9.9.9/udp/53"));
}

/// A stream that closes before any frame fails with the incomplete-exchange
/// error, not a success and not another error.
#[test]
fn premature_close() {
    let cfg = IdentifyProtocolConfig;
    let flow = match cfg.upgrade(Endpoint::Dialer, addr_of("/ip4/127.0.0.1/tcp/4001")) {
        Upgrade::AwaitFrame(flow) => flow,
        _ => panic!(),
    };
    assert_eq!(
        flow.on_first_frame(None).unwrap_err(),
        IdentifyError::StreamClosedBeforeInfo
    );
}

/// Upgrading as the listener finishes at once, with a sender and the
/// supplied observed address, before anything is written anywhere.
#[test]
fn responder_returns_immediately() {
    let cfg = IdentifyProtocolConfig;
    match cfg.upgrade(Endpoint::Listener, addr_of("/ip4/10.0.0.1/tcp/7")) {
        Upgrade::Ready(IdentifyOutput::Sender { observed_addr, .. }) => {
            assert_eq!(observed_addr.bytes, addr_bytes_of("/ip4/10.0.0.1/tcp/7"));
        }
        _ => panic!(),
    }
}

/// Reading a frame consumes exactly the first frame: a second frame sitting
/// behind it in the buffer is untouched and still reads back intact.
#[test]
fn single_frame_consumed() {
    let mut buf: Vec<u8> = Vec::new();
    identify::frame::write_frame(&mut buf, &vec![10, 20, 30]);
    let first_len = buf.len();
    identify::frame::write_frame(&mut buf, &vec![99; 5]);
    let (payload, consumed) = read_frame(&buf, 0).unwrap();
    assert_eq!(payload, vec![10, 20, 30]);
    assert_eq!(consumed, first_len);
    let (second, end) = read_frame(&buf, consumed).unwrap();
    assert_eq!(second, vec![99; 5]);
    assert_eq!(end, buf.len());
}

/// A malformed second listen address fails the whole parse: no record with
/// only the first address ever comes out.
#[test]
fn fail_fast_on_bad_listen_addr() {
    let msg = wire::Identify {
        public_key: vec![1],
        protocol_version: b"p".to_vec(),
        agent_version: b"a".to_vec(),
        listen_addrs: vec![addr_bytes_of("/ip4/80.81.82.83/tcp/500"), vec![0xff]],
        observed_addr: addr_bytes_of("/ip4/1.1.1.1/tcp/1"),
        protocols: Vec::new(),
    };
    let payload = wire::encode_message(&msg);
    assert_eq!(
        identify::codec::parse_proto_msg(&payload).unwrap_err(),
        IdentifyError::MalformedAddress
    );
}

/// A malformed observed address also fails the whole parse.
#[test]
fn bad_observed_addr() {
    let msg = wire::Identify {
        public_key: Vec::new(),
        protocol_version: Vec::new(),
        agent_version: Vec::new(),
        listen_addrs: Vec::new(),
        observed_addr: vec![0xff, 0xff],
        protocols: Vec::new(),
    };
    let payload = wire::encode_message(&msg);
    assert_eq!(
        identify::codec::parse_proto_msg(&payload).unwrap_err(),
        IdentifyError::MalformedAddress
    );
}

/// A structurally broken payload is a malformed message.
#[test]
fn truncated_payload_is_malformed() {
    // Field one, declared length five, but only one byte follows.
    let payload = vec![0x0a, 0x05, 0x01];
    assert_eq!(
        identify::codec::parse_proto_msg(&payload).unwrap_err(),
        IdentifyError::MalformedMessage
    );
}

/// A string field that is not UTF-8 is a malformed message, not an address
/// error and not a success.
#[test]
fn invalid_utf8_is_malformed() {
    let msg = wire::Identify {
        public_key: Vec::new(),
        protocol_version: vec![0xff, 0xfe],
        agent_version: Vec::new(),
        listen_addrs: Vec::new(),
        observed_addr: addr_bytes_of("/ip4/1.1.1.1/tcp/1"),
        protocols: Vec::new(),
    };
    let payload = wire::encode_message(&msg);
    assert_eq!(
        identify::codec::parse_proto_msg(&payload).unwrap_err(),
        IdentifyError::MalformedMessage
    );
    let msg = wire::Identify {
        public_key: Vec::new(),
        protocol_version: Vec::new(),
        agent_version: Vec::new(),
        listen_addrs: Vec::new(),
        observed_addr: addr_bytes_of("/ip4/1.1.1.1/tcp/1"),
        protocols: vec![b"ok".to_vec(), vec![0x80]],
    };
    let payload = wire::encode_message(&msg);
    assert_eq!(
        identify::codec::parse_proto_msg(&payload).unwrap_err(),
        IdentifyError::MalformedMessage
    );
}

/// The address validator accepts real multiaddr bytes and rejects junk.
#[test]
fn addr_validation() {
    assert!(Addr::from_bytes(addr_bytes_of("/ip6/::1/udp/1000")).is_some());
    assert!(Addr::from_bytes(vec![0xff]).is_none());
    let a = Addr::from_bytes(addr_bytes_of("/ip4/8.8.8.8/tcp/53")).unwrap();
    assert_eq!(a.into_bytes(), addr_bytes_of("/ip4/8.8.8.8/tcp/53"));
}

/// Exactly one protocol token is offered, the fixed identify token.
#[test]
fn protocol_names() {
    let cfg = IdentifyProtocolConfig;
    let names = cfg.protocol_names();
    assert_eq!(names, vec!["/ipfs/id/1.0.0".to_string()]);
}

/// Exact varint encodings, and rejection of truncated or oversized input.
#[test]
fn varint_encoding() {
    let cases: Vec<(u64, Vec<u8>)> = vec![
        (0, vec![0x00]),
        (1, vec![0x01]),
        (127, vec![0x7f]),
        (128, vec![0x80, 0x01]),
        (300, vec![0xac, 0x02]),
        (u64::MAX, vec![0xff, 0xff, 0xff, 0xff, 0xff, 0xff, 0xff, 0xff, 0xff, 0x01]),
    ];
    for (value, expected) in cases {
        let mut out: Vec<u8> = Vec::new();
        write_uvarint(&mut out, value);
        assert_eq!(out, expected);
        let (back, used) = read_uvarint(&out, 0).unwrap();
        assert_eq!(back, value);
        assert_eq!(used, expected.len());
    }
    // Truncated: continuation bit set but nothing follows.
    assert!(read_uvarint(&vec![0x80], 0).is_none());
    // Oversized: two to the sixty-fourth does not fit.
    let big = vec![0x80, 0x80, 0x80, 0x80, 0x80, 0x80, 0x80, 0x80, 0x80, 0x02];
    assert!(read_uvarint(&big, 0).is_none());
}

/// A frame is the payload length as a varint, then the payload.
#[test]
fn frame_layout() {
    let mut buf: Vec<u8> = Vec::new();
    identify::frame::write_frame(&mut buf, &vec![7, 8, 9]);
    assert_eq!(buf, vec![3, 7, 8, 9]);
    // An incomplete frame reads as nothing yet.
    assert!(read_frame(&vec![5, 1, 2], 0).is_none());
}

/// Unknown fields of the length-delimited wire type are skipped; missing
/// fields stay at their empty defaults.
#[test]
fn unknown_field_skipped() {
    // Field seven, length two, then field one, length one.
    let payload = vec![0x3a, 0x02, 0xaa, 0xbb, 0x0a, 0x01, 0x42];
    let msg = wire::decode_message(&payload).unwrap();
    assert_eq!(msg.public_key, vec![0x42]);
    assert_eq!(msg.protocol_version, Vec::<u8>::new());
    assert_eq!(msg.listen_addrs.len(), 0);
    let (got, got_observed) = identify::codec::parse_proto_msg(&payload).unwrap();
    assert_eq!(got.public_key, vec![0x42]);
    assert_eq!(got.protocol_version, "");
    assert_eq!(got_observed.bytes, Vec::<u8>::new());
}

/// The exact wire bytes of a small record: tags in schema order, each field
/// length-prefixed.
#[test]
fn exact_wire_bytes() {
    let msg = wire::Identify {
        public_key: vec![9],
        protocol_version: b"pv".to_vec(),
        agent_version: b"av".to_vec(),
        listen_addrs: vec![vec![1, 2], vec![3]],
        observed_addr: vec![4],
        protocols: vec![b"x".to_vec()],
    };
    let payload = wire::encode_message(&msg);
    assert_eq!(
        payload,
        vec![
            0x0a, 0x01, 0x09, // publicKey
            0x12, 0x02, b'p', b'v', // protocolVersion
            0x1a, 0x02, b'a', b'v', // agentVersion
            0x22, 0x02, 0x01, 0x02, // listenAddrs[0]
            0x22, 0x01, 0x03, // listenAddrs[1]
            0x2a, 0x01, 0x04, // observedAddr
            0x32, 0x01, b'x', // protocols[0]
        ]
    );
    let back = wire::decode_message(&payload).unwrap();
    assert_eq!(back.public_key, vec![9]);
    assert_eq!(back.listen_addrs, vec![vec![1, 2], vec![3]]);
    assert_eq!(back.protocols, vec![b"x".to_vec()]);
}
