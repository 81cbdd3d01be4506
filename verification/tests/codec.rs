use rustc_serialize::json::Json;

use bt_tracker::announce::{Announce, Event};
use bt_tracker::ip::IpAddress;
use bt_tracker::response::Response;
use bt_tracker::serialize::{DecodeError, Field};
use bt_tracker::wire::WireValue;
use bt_tracker::{InfoHash, Peer, PeerId};

/// The wire value that a JSON value stands for.
fn wire_of_json(json: &Json) -> WireValue {
    match json {
        Json::String(text) => WireValue::Text(text.clone()),
        Json::I64(n) => WireValue::Integer(*n as i128),
        Json::U64(n) => WireValue::Integer(*n as i128),
        Json::Boolean(b) => WireValue::Boolean(*b),
        Json::Array(items) => WireValue::List(items.iter().map(wire_of_json).collect()),
        Json::Object(fields) => WireValue::Dict(
            fields.iter().map(|(name, value)| (name.clone(), wire_of_json(value))).collect(),
        ),
        Json::F64(_) | Json::Null => panic!("no wire value for {:?}", json),
    }
}

fn text(value: &str) -> WireValue {
    WireValue::Text(value.to_string())
}

fn record(fields: Vec<(&str, WireValue)>) -> WireValue {
    WireValue::Dict(fields.into_iter().map(|(name, value)| (name.to_string(), value)).collect())
}

fn full_record() -> Vec<(&'static str, WireValue)> {
    vec![
        ("info_hash", text("a415ab5cc17c8c093c015ccdb7e552aee7911aa4")),
        ("peer_id", text("-TR292Z-xa8w76ay04uq")),
        ("ip", text("127.0.0.1")),
        ("port", WireValue::Integer(9999)),
        ("uploaded", WireValue::Integer(0)),
        ("downloaded", WireValue::Integer(0)),
        ("left", WireValue::Integer(570000)),
        ("compact", WireValue::Boolean(true)),
        ("event", text("started")),
    ]
}

fn without(name: &str) -> WireValue {
    record(full_record().into_iter().filter(|(n, _)| *n != name).collect())
}

fn with(name: &'static str, value: WireValue) -> WireValue {
    let mut fields: Vec<(&str, WireValue)> =
        full_record().into_iter().filter(|(n, _)| *n != name).collect();
    fields.push((name, value));
    record(fields)
}

fn expected_announce() -> Announce {
    Announce {
        info_hash: "a415ab5cc17c8c093c015ccdb7e552aee7911aa4".parse().unwrap(),
        peer_id: "-TR292Z-xa8w76ay04uq".parse().unwrap(),
        ip: IpAddress::parse("127.0.0.1").unwrap(),
        port: 9999,
        uploaded: 0,
        downloaded: 0,
        left: 570000,
        compact: true,
        event: Some(Event::Started),
    }
}

#[test]
fn decode_announce() {
    let json = r#"{
        	"info_hash": "a415ab5cc17c8c093c015ccdb7e552aee7911aa4",
        	"peer_id": "-TR292Z-xa8w76ay04uq",
        	"ip": "127.0.0.1",
        	"port": 9999,
        	"uploaded": 0,
        	"downloaded": 0,
        	"left": 570000,
        	"compact": true,
        	"event": "started"
        }"#;

    let announce = Announce {
        info_hash: "a415ab5cc17c8c093c015ccdb7e552aee7911aa4".parse().unwrap(),
        peer_id: "-TR292Z-xa8w76ay04uq".parse().unwrap(),
        ip: IpAddress::parse("127.0.0.1").unwrap(),
        port: 9999,
        uploaded: 0,
        downloaded: 0,
        left: 570000,
        compact: true,
        event: Some(Event::Started),
    };

    let record = wire_of_json(&Json::from_str(json).unwrap());
    assert_eq!(Announce::decode(&record), Ok(announce));
}

#[test]
fn decode_announce_from_a_record_built_by_hand() {
    let announce = Announce::decode(&record(full_record())).unwrap();
    assert_eq!(announce, expected_announce());
    assert_eq!(announce.info_hash.as_str(), "a415ab5cc17c8c093c015ccdb7e552aee7911aa4");
    assert_eq!(announce.peer_id.as_str(), "-TR292Z-xa8w76ay04uq");
    assert_eq!(announce.ip, IpAddress::V4(127, 0, 0, 1));
    assert_eq!(announce.port, 9999);
    assert_eq!(announce.left, 570000);
    assert!(announce.compact);
    assert_eq!(announce.event, Some(Event::Started));
}

#[test]
fn decode_announce_normalizes_the_info_hash() {
    let announce = Announce::decode(&with(
        "info_hash",
        text("A415AB5CC17C8C093C015CCDB7E552AEE7911AA4"),
    ))
    .unwrap();
    assert_eq!(announce, expected_announce());
}

#[test]
fn compact_defaults_to_false() {
    let announce = Announce::decode(&without("compact")).unwrap();
    assert!(!announce.compact);
    assert_eq!(announce, Announce { compact: false, ..expected_announce() });
}

#[test]
fn event_may_be_absent() {
    let announce = Announce::decode(&without("event")).unwrap();
    assert_eq!(announce.event, None);
}

#[test]
fn event_tokens_are_matched_exactly() {
    assert_eq!(
        Announce::decode(&with("event", text("started"))).unwrap().event,
        Some(Event::Started)
    );
    assert_eq!(
        Announce::decode(&with("event", text("downloaded"))).unwrap().event,
        Some(Event::Downloaded)
    );
    for token in ["stopped", "completed", "Started", "STARTED", "started ", ""] {
        assert_eq!(
            Announce::decode(&with("event", text(token))),
            Err(DecodeError::MalformedEvent),
            "{:?}",
            token
        );
    }
}

#[test]
fn event_tokens_round_trip() {
    assert_eq!(Event::Started.token(), "started");
    assert_eq!(Event::Downloaded.token(), "downloaded");
    for event in [Event::Started, Event::Downloaded] {
        assert_eq!(Event::from_token(event.token()), Some(event));
        assert_eq!(Event::decode(&record(vec![("event", event.encode())])), Ok(Some(event)));
    }
    assert_eq!(Event::from_token("stopped"), None);
}

#[test]
fn each_required_field_must_be_there() {
    let required = [
        ("info_hash", Field::InfoHash),
        ("peer_id", Field::PeerId),
        ("ip", Field::Ip),
        ("port", Field::Port),
        ("uploaded", Field::Uploaded),
        ("downloaded", Field::Downloaded),
        ("left", Field::Left),
    ];
    for (name, field) in required {
        assert_eq!(field.name(), name);
        assert_eq!(Announce::decode(&without(name)), Err(DecodeError::MalformedField(field)));
    }
    assert_eq!(Field::Compact.name(), "compact");
    assert_eq!(Field::Event.name(), "event");
}

#[test]
fn each_field_must_be_of_its_wire_type() {
    let wrong = [
        ("info_hash", WireValue::Integer(1), Field::InfoHash),
        ("peer_id", WireValue::Boolean(true), Field::PeerId),
        ("ip", WireValue::Integer(2130706433), Field::Ip),
        ("port", text("9999"), Field::Port),
        ("uploaded", text("0"), Field::Uploaded),
        ("downloaded", WireValue::Boolean(false), Field::Downloaded),
        ("left", WireValue::List(vec![]), Field::Left),
        ("compact", WireValue::Integer(1), Field::Compact),
        ("event", WireValue::Integer(0), Field::Event),
    ];
    for (name, value, field) in wrong {
        assert_eq!(Announce::decode(&with(name, value)), Err(DecodeError::MalformedField(field)));
    }
}

#[test]
fn numbers_must_not_be_negative_nor_too_large() {
    assert_eq!(
        Announce::decode(&with("port", WireValue::Integer(-1))),
        Err(DecodeError::MalformedField(Field::Port))
    );
    assert_eq!(
        Announce::decode(&with("uploaded", WireValue::Integer(-1))),
        Err(DecodeError::MalformedField(Field::Uploaded))
    );
    assert_eq!(
        Announce::decode(&with("left", WireValue::Integer(u64::MAX as i128 + 1))),
        Err(DecodeError::MalformedField(Field::Left))
    );
    assert_eq!(
        Announce::decode(&with("port", WireValue::Integer(usize::MAX as i128 + 1))),
        Err(DecodeError::MalformedField(Field::Port))
    );
    let announce = Announce::decode(&with("downloaded", WireValue::Integer(u64::MAX as i128))).unwrap();
    assert_eq!(announce.downloaded, u64::MAX);
    let announce = Announce::decode(&with("port", WireValue::Integer(70000))).unwrap();
    assert_eq!(announce.port, 70000);
}

#[test]
fn malformed_values_are_told_apart() {
    assert_eq!(
        Announce::decode(&with("info_hash", text("a415ab5cc17c8c093c015ccdb7e552aee7911aa"))),
        Err(DecodeError::MalformedInfoHash)
    );
    assert_eq!(
        Announce::decode(&with("peer_id", text("-TR292Z-xa8w76ay04uqx"))),
        Err(DecodeError::MalformedPeerId)
    );
    assert_eq!(
        Announce::decode(&with("ip", text("127.0.0.256"))),
        Err(DecodeError::MalformedIp)
    );
    assert_eq!(
        Announce::decode(&with("event", text("stopped"))),
        Err(DecodeError::MalformedEvent)
    );
}

#[test]
fn the_first_failing_field_decides() {
    let broken = record(vec![
        ("info_hash", text("short")),
        ("peer_id", text("a peer id that is much too long")),
        ("ip", text("nowhere")),
        ("event", text("stopped")),
    ]);
    assert_eq!(Announce::decode(&broken), Err(DecodeError::MalformedInfoHash));
    let broken = record(vec![
        ("info_hash", text("a415ab5cc17c8c093c015ccdb7e552aee7911aa4")),
        ("peer_id", text("a peer id that is much too long")),
        ("ip", text("nowhere")),
    ]);
    assert_eq!(Announce::decode(&broken), Err(DecodeError::MalformedPeerId));
    let broken = record(vec![
        ("info_hash", text("a415ab5cc17c8c093c015ccdb7e552aee7911aa4")),
        ("peer_id", text("-TR292Z-xa8w76ay04uq")),
        ("ip", text("nowhere")),
    ]);
    assert_eq!(Announce::decode(&broken), Err(DecodeError::MalformedIp));
    let broken = with("left", WireValue::Integer(-5));
    assert_eq!(Announce::decode(&broken), Err(DecodeError::MalformedField(Field::Left)));
}

#[test]
fn a_value_that_is_no_dictionary_has_no_fields() {
    assert_eq!(
        Announce::decode(&text("info_hash")),
        Err(DecodeError::MalformedField(Field::InfoHash))
    );
    assert_eq!(
        Announce::decode(&WireValue::List(vec![])),
        Err(DecodeError::MalformedField(Field::InfoHash))
    );
}

#[test]
fn the_earlier_of_two_entries_counts() {
    let mut fields = full_record();
    fields.push(("port", WireValue::Integer(1)));
    assert_eq!(Announce::decode(&record(fields)).unwrap().port, 9999);
    let value = record(vec![("a", WireValue::Integer(1)), ("a", WireValue::Integer(2))]);
    assert_eq!(value.get("a"), Some(&WireValue::Integer(1)));
    assert_eq!(value.get("b"), None);
    assert_eq!(text("a").get("a"), None);
}

#[test]
fn identifiers_decode_and_encode() {
    let fields = record(full_record());
    let hash = InfoHash::decode(&fields).unwrap();
    assert_eq!(hash.encode(), text("a415ab5cc17c8c093c015ccdb7e552aee7911aa4"));
    let id = PeerId::decode(&fields).unwrap();
    assert_eq!(id.encode(), text("-TR292Z-xa8w76ay04uq"));
    let ip = IpAddress::decode(&fields).unwrap();
    assert_eq!(ip.encode(), text("127.0.0.1"));
    assert_eq!(Event::Downloaded.encode(), text("downloaded"));
}

#[test]
fn error_without_reason_has_no_field() {
    let encoded = Response::Error { failure_reason: None }.encode();
    assert_eq!(encoded, WireValue::Dict(vec![]));
    assert_eq!(encoded.get("failure_reason"), None);
}

#[test]
fn error_with_reason_has_one_field() {
    let encoded = Response::Error { failure_reason: Some("no such torrent".to_string()) }.encode();
    assert_eq!(encoded, record(vec![("failure_reason", text("no such torrent"))]));
    assert_eq!(encoded.get("failure_reason"), Some(&text("no such torrent")));
}

#[test]
fn peer_list_encodes_interval_and_peers_in_order() {
    let response = Response::PeerList {
        interval: 1800,
        peers: vec![
            Peer {
                peer_id: PeerId::parse("-TR292Z-xa8w76ay04uq").unwrap(),
                ip: IpAddress::V4(10, 0, 0, 7),
                port: 6881,
            },
            Peer {
                peer_id: PeerId::parse("second").unwrap(),
                ip: IpAddress::V6(0x2001, 0xdb8, 0, 0, 0, 0, 0, 1),
                port: 51413,
            },
        ],
    };
    let expected = record(vec![
        ("interval", WireValue::Integer(1800)),
        (
            "peers",
            WireValue::List(vec![
                record(vec![
                    ("peer_id", text("-TR292Z-xa8w76ay04uq")),
                    ("ip", text("10.0.0.7")),
                    ("port", WireValue::Integer(6881)),
                ]),
                record(vec![
                    ("peer_id", text("second")),
                    ("ip", text("2001:db8::1")),
                    ("port", WireValue::Integer(51413)),
                ]),
            ]),
        ),
    ]);
    assert_eq!(response.encode(), expected);
    let empty = Response::PeerList { interval: 0, peers: vec![] };
    assert_eq!(
        empty.encode(),
        record(vec![("interval", WireValue::Integer(0)), ("peers", WireValue::List(vec![]))])
    );
}

#[test]
fn peers_read_back_from_their_records() {
    let peers = [
        Peer { peer_id: PeerId::parse("").unwrap(), ip: IpAddress::V4(0, 0, 0, 0), port: 0 },
        Peer {
            peer_id: PeerId::parse("-TR292Z-xa8w76ay04uq").unwrap(),
            ip: IpAddress::V6(0, 0, 0, 0, 0, 0xffff, 0x0a00, 0x0001),
            port: usize::MAX,
        },
        Peer {
            peer_id: PeerId::parse("UPPER lower").unwrap(),
            ip: IpAddress::V6(0xfe80, 0, 0, 0, 0x1, 0, 0, 0xabcd),
            port: 6881,
        },
    ];
    for peer in peers {
        assert_eq!(Peer::decode(&peer.encode()), Ok(peer));
    }
}

#[test]
fn peer_records_are_validated() {
    let good = || {
        vec![
            ("peer_id", text("-TR292Z-xa8w76ay04uq")),
            ("ip", text("::1")),
            ("port", WireValue::Integer(1)),
        ]
    };
    assert!(Peer::decode(&record(good())).is_ok());
    let mut long = good();
    long[0].1 = text("-TR292Z-xa8w76ay04uq-");
    assert_eq!(Peer::decode(&record(long)), Err(DecodeError::MalformedPeerId));
    let mut nowhere = good();
    nowhere[1].1 = text("::1::");
    assert_eq!(Peer::decode(&record(nowhere)), Err(DecodeError::MalformedIp));
    let mut short = good();
    short.pop();
    assert_eq!(Peer::decode(&record(short)), Err(DecodeError::MalformedField(Field::Port)));
}

#[test]
fn errors_convert_to_failure_responses() {
    let error = "12x".parse::<u32>().unwrap_err();
    assert_eq!(
        Response::from_error(&error),
        Response::Error { failure_reason: Some("invalid digit found in string".to_string()) }
    );
    assert_eq!(
        Response::from_error(&std::fmt::Error),
        Response::Error { failure_reason: Some(std::fmt::Error.to_string()) }
    );
    assert_eq!(
        Response::from_description("swarm lookup failed".to_string()),
        Response::Error { failure_reason: Some("swarm lookup failed".to_string()) }
    );
}
