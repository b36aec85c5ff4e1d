use fetch_relay::caps::{local_caps_value, negotiate, parse_caps, PeerCaps};
use fetch_relay::codec::{BodyEncoding, Codecs, Compression};
use fetch_relay::handshake::{
    ensure_open, handle_packet, is_open, negotiated_caps, negotiated_chunk_size, HandshakeState,
    NegotiatedCaps, Outgoing, HS_TAG, HS_TIMEOUT,
};
use fetch_relay::json::Json;

const A: &str = "aa:bb";
const P: &str = "com.example.app";

fn rows(pairs: &[(&str, &str)]) -> Vec<(String, String)> {
    pairs.iter().map(|(a, b)| (a.to_string(), b.to_string())).collect()
}

fn codecs() -> Codecs {
    Codecs {
        encoding_spellings: rows(&[("base64", "base64"), ("b64", "base64"), ("hex", "hex"), ("ascii85", "ascii85")]),
        compression_spellings: rows(&[("none", "none"), ("deflate", "deflate"), ("zlib", "deflate")]),
        supported_encodings: vec![BodyEncoding::named("base64"), BodyEncoding::named("hex")],
        supported_compressions: vec![Compression::named("none"), Compression::named("deflate")],
    }
}

fn object(entries: Vec<(&str, Json)>) -> Json {
    Json::Object(entries.into_iter().map(|(k, v)| (k.to_string(), v)).collect())
}

fn texts(items: &[&str]) -> Json {
    Json::Array(items.iter().map(|s| Json::Text(s.to_string())).collect())
}

fn encoding_names(caps: &NegotiatedCaps) -> Vec<&str> {
    caps.encodings.iter().map(|e| e.as_str()).collect()
}

fn compression_names(caps: &NegotiatedCaps) -> Vec<&str> {
    caps.compressions.iter().map(|c| c.as_str()).collect()
}

fn peer(version: u32, chunked: bool, max_chunk_size: usize) -> PeerCaps {
    PeerCaps { protocol_version: version, chunked, max_chunk_size, encodings: vec![], compressions: vec![] }
}

fn count_of(message: &Outgoing) -> Option<i64> {
    message.body.get("count").and_then(|c| c.as_i64())
}

#[test]
fn chunk_sizes_are_kept_within_bounds() {
    let size = |max: usize| negotiate(&codecs(), peer(3, true, max)).chunk_size;
    assert_eq!(size(0), 4096);
    assert_eq!(size(1), 256);
    assert_eq!(size(255), 256);
    assert_eq!(size(256), 256);
    assert_eq!(size(1000), 1000);
    assert_eq!(size(4096), 4096);
    assert_eq!(size(4097), 4096);
    assert_eq!(size(usize::MAX), 4096);
}

#[test]
fn chunks_need_version_two_and_a_willing_peer() {
    let old = negotiate(&codecs(), peer(1, true, 1000));
    assert!(!old.chunked);
    assert_eq!(old.chunk_size, 0);
    assert_eq!(old.protocol_version, 1);
    let unwilling = negotiate(&codecs(), peer(3, false, 1000));
    assert!(!unwilling.chunked);
    assert_eq!(unwilling.chunk_size, 0);
    let able = negotiate(&codecs(), peer(2, true, 1000));
    assert!(able.chunked);
    assert_eq!(able.protocol_version, 2);
    assert_eq!(negotiate(&codecs(), peer(9, true, 0)).protocol_version, 3);
    assert_eq!(negotiate(&codecs(), peer(0, true, 0)).protocol_version, 0);
}

#[test]
fn codecs_keep_the_preference_of_the_peer() {
    let caps = object(vec![
        ("version", Json::Integer(3)),
        ("encodings", Json::Array(vec![
            Json::Text("hex".to_string()),
            Json::Integer(5),
            Json::Text("unheard-of".to_string()),
            Json::Text("ascii85".to_string()),
            Json::Text("b64".to_string()),
        ])),
        ("compressions", texts(&["zlib", "none"])),
    ]);
    let parsed = parse_caps(&codecs(), Some(&caps)).unwrap();
    let names: Vec<&str> = parsed.encodings.iter().map(|e| e.as_str()).collect();
    assert_eq!(names, ["hex", "ascii85", "base64"]);
    let agreed = negotiate(&codecs(), parsed);
    assert_eq!(encoding_names(&agreed), ["hex", "base64"]);
    assert_eq!(compression_names(&agreed), ["deflate", "none"]);
}

#[test]
fn missing_or_mistyped_caps_fall_back() {
    assert!(parse_caps(&codecs(), None).is_none());
    assert!(parse_caps(&codecs(), Some(&Json::Null)).is_none());
    assert!(parse_caps(&codecs(), Some(&texts(&["version"]))).is_none());
    let empty = parse_caps(&codecs(), Some(&object(vec![]))).unwrap();
    assert_eq!(empty.protocol_version, 1);
    assert!(!empty.chunked);
    assert_eq!(empty.max_chunk_size, 0);
    assert!(empty.encodings.is_empty());
    assert!(empty.compressions.is_empty());
    let odd = parse_caps(&codecs(), Some(&object(vec![
        ("version", Json::Integer(-2)),
        ("chunk", Json::Integer(1)),
        ("maxChunkSize", Json::Real),
        ("encodings", Json::Text("hex".to_string())),
    ]))).unwrap();
    assert_eq!(odd.protocol_version, 1);
    assert!(!odd.chunked);
    assert_eq!(odd.max_chunk_size, 0);
    assert!(odd.encodings.is_empty());
}

#[test]
fn oversized_version_loses_its_top_bits() {
    let caps = object(vec![("version", Json::Integer(0x1_0000_0002))]);
    assert_eq!(parse_caps(&codecs(), Some(&caps)).unwrap().protocol_version, 2);
}

#[test]
fn local_caps_are_as_documented() {
    let caps = local_caps_value(&codecs());
    assert_eq!(caps.get("version").unwrap().as_u64(), Some(3));
    assert_eq!(caps.get("chunk").unwrap().as_bool(), Some(true));
    assert_eq!(caps.get("maxChunkSize").unwrap().as_u64(), Some(4096));
    let listed = |key: &str| -> Vec<String> {
        caps.get(key).unwrap().as_array().unwrap().iter().map(|i| i.as_str().unwrap().to_string()).collect()
    };
    assert_eq!(listed("encodings"), ["base64", "hex"]);
    assert_eq!(listed("compressions"), ["none", "deflate"]);
}

#[test]
fn like_sides_agree_on_everything() {
    let offer = parse_caps(&codecs(), Some(&local_caps_value(&codecs()))).unwrap();
    let agreed = negotiate(&codecs(), offer);
    assert_eq!(agreed.protocol_version, 3);
    assert!(agreed.chunked);
    assert_eq!(agreed.chunk_size, 4096);
    assert_eq!(encoding_names(&agreed), ["base64", "hex"]);
    assert_eq!(compression_names(&agreed), ["none", "deflate"]);
}

#[test]
fn positive_counts_open_and_low_counts_are_answered() {
    let mut state = HandshakeState::new();
    for (count, opens, reply) in [(-7, false, Some(-6)), (0, false, Some(1)), (1, true, Some(2)), (2, false, None), (50, false, None)] {
        let packet = object(vec![("count", Json::Integer(count))]);
        let outcome = handle_packet(&mut state, &codecs(), A, P, &packet, 1000);
        assert_eq!(outcome.opened, opens);
        assert_eq!(outcome.count as i128, count);
        assert_eq!(outcome.reply.as_ref().and_then(count_of), reply);
        assert_eq!(is_open(&state, A, P, 1000), count > 0);
        if let Some(message) = outcome.reply {
            assert_eq!(message.tag, HS_TAG);
            assert_eq!(message.tag, "__hs__");
            assert!(message.body.get("caps").unwrap().is_object());
        }
    }
}

#[test]
fn count_of_another_type_is_zero() {
    for odd in [Json::Real, Json::Text("1".to_string())] {
        let mut state = HandshakeState::new();
        let packet = object(vec![("count", odd)]);
        let outcome = handle_packet(&mut state, &codecs(), A, P, &packet, 0);
        assert_eq!(outcome.count, 0);
        assert_eq!(count_of(&outcome.reply.unwrap()), Some(1));
    }
    let mut state = HandshakeState::new();
    let outcome = handle_packet(&mut state, &codecs(), A, P, &Json::Null, 0);
    assert_eq!(outcome.count, 0);
}

#[test]
fn counts_beyond_i64_open_and_are_not_answered() {
    for count in [i64::MAX as i128, i64::MAX as i128 + 1, u64::MAX as i128] {
        let mut state = HandshakeState::new();
        let packet = object(vec![("count", Json::Integer(count))]);
        let outcome = handle_packet(&mut state, &codecs(), A, P, &packet, 0);
        assert!(outcome.opened);
        assert_eq!(outcome.count, i64::MAX);
        assert!(outcome.reply.is_none());
        assert!(is_open(&state, A, P, 0));
    }
}

#[test]
fn sessions_time_out_after_three_seconds() {
    assert_eq!(HS_TIMEOUT, 3_000_000_000);
    let mut state = HandshakeState::new();
    let packet = object(vec![("count", Json::Integer(1)), ("caps", local_caps_value(&codecs()))]);
    handle_packet(&mut state, &codecs(), A, P, &packet, 10);
    assert!(is_open(&state, A, P, 10 + HS_TIMEOUT));
    assert!(!is_open(&state, A, P, 11 + HS_TIMEOUT));
    assert_eq!(negotiated_chunk_size(&state, A, P, 10 + HS_TIMEOUT), Some(4096));
    assert_eq!(negotiated_chunk_size(&state, A, P, 11 + HS_TIMEOUT), None);
    assert!(negotiated_caps(&state, A, P, 11 + HS_TIMEOUT).is_none());
}

#[test]
fn peers_are_independent() {
    let mut state = HandshakeState::new();
    let packet = object(vec![("count", Json::Integer(1))]);
    handle_packet(&mut state, &codecs(), A, P, &packet, 0);
    assert!(!is_open(&state, A, "other", 0));
    assert!(!is_open(&state, "other", P, 0));
    handle_packet(&mut state, &codecs(), A, "other", &packet, 5);
    assert!(is_open(&state, A, P, 5));
    assert!(is_open(&state, A, "other", 5));
}

#[test]
fn a_stale_session_starts_anew() {
    let mut state = HandshakeState::new();
    let full = object(vec![("count", Json::Integer(1)), ("caps", local_caps_value(&codecs()))]);
    handle_packet(&mut state, &codecs(), A, P, &full, 0);
    let bare = object(vec![("count", Json::Integer(0))]);
    handle_packet(&mut state, &codecs(), A, P, &bare, HS_TIMEOUT + 1);
    assert!(!is_open(&state, A, P, HS_TIMEOUT + 1));
    let opening = object(vec![("count", Json::Integer(1))]);
    handle_packet(&mut state, &codecs(), A, P, &opening, HS_TIMEOUT + 2);
    assert!(is_open(&state, A, P, HS_TIMEOUT + 2));
    assert!(negotiated_caps(&state, A, P, HS_TIMEOUT + 2).is_none());
}

#[test]
fn capabilities_are_kept_when_a_packet_omits_them() {
    let mut state = HandshakeState::new();
    let full = object(vec![("count", Json::Integer(1)), ("caps", object(vec![
        ("version", Json::Integer(2)),
        ("chunk", Json::Bool(true)),
        ("maxChunkSize", Json::Integer(512)),
    ]))]);
    handle_packet(&mut state, &codecs(), A, P, &full, 0);
    handle_packet(&mut state, &codecs(), A, P, &object(vec![("count", Json::Integer(2))]), 1);
    let caps = negotiated_caps(&state, A, P, 1).unwrap();
    assert_eq!(caps.protocol_version, 2);
    assert_eq!(caps.chunk_size, 512);
    assert_eq!(negotiated_chunk_size(&state, A, P, 1), Some(512));
}

#[test]
fn caps_of_a_closed_session_are_not_told() {
    let mut state = HandshakeState::new();
    let packet = object(vec![("count", Json::Integer(0)), ("caps", local_caps_value(&codecs()))]);
    let outcome = handle_packet(&mut state, &codecs(), A, P, &packet, 0);
    assert!(outcome.negotiated.is_some());
    assert!(negotiated_caps(&state, A, P, 0).is_none());
    assert!(ensure_open(&mut state, &codecs(), A, P, 1).is_some());
    assert_eq!(negotiated_chunk_size(&state, A, P, 1), Some(4096));
}

#[test]
fn no_chunks_for_a_peer_that_takes_none() {
    let mut state = HandshakeState::new();
    let packet = object(vec![("count", Json::Integer(1)), ("caps", object(vec![]))]);
    handle_packet(&mut state, &codecs(), A, P, &packet, 0);
    assert!(negotiated_caps(&state, A, P, 0).is_some());
    assert_eq!(negotiated_chunk_size(&state, A, P, 0), None);
}

#[test]
fn ensure_open_bootstraps_once() {
    let mut state = HandshakeState::default();
    let message = ensure_open(&mut state, &codecs(), A, P, 100).unwrap();
    assert_eq!(message.tag, "__hs__");
    assert_eq!(count_of(&message), Some(0));
    assert!(message.body.get("caps").unwrap().is_object());
    assert!(is_open(&state, A, P, 100));
    assert!(negotiated_caps(&state, A, P, 100).is_none());
    assert!(ensure_open(&mut state, &codecs(), A, P, 101).is_none());
    assert!(ensure_open(&mut state, &codecs(), A, P, 101 + HS_TIMEOUT).is_some());
}

#[test]
fn an_exchange_opens_both_sides() {
    let mut left = HandshakeState::new();
    let mut right = HandshakeState::new();
    let mut packet = ensure_open(&mut left, &codecs(), "right", P, 0).unwrap();
    let mut steps = 0;
    loop {
        let (state, from) = if steps % 2 == 0 { (&mut right, "left") } else { (&mut left, "right") };
        let outcome = handle_packet(state, &codecs(), from, P, &packet.body, 1 + steps);
        steps += 1;
        match outcome.reply {
            Some(reply) => packet = reply,
            None => break,
        }
    }
    assert_eq!(steps, 3);
    assert_eq!(negotiated_chunk_size(&left, "right", P, 3), Some(4096));
    assert_eq!(negotiated_chunk_size(&right, "left", P, 3), Some(4096));
}

#[test]
fn the_last_entry_of_a_key_counts() {
    let json = object(vec![("k", Json::Integer(1)), ("other", Json::Null), ("k", Json::Integer(2))]);
    assert_eq!(json.get("k").unwrap().as_i64(), Some(2));
    assert!(json.get("missing").is_none());
    assert!(Json::Null.get("k").is_none());
}

#[test]
fn integers_are_read_where_they_fit() {
    assert_eq!(Json::Integer(u64::MAX as i128).as_i64(), None);
    assert_eq!(Json::Integer(u64::MAX as i128).as_u64(), Some(u64::MAX));
    assert_eq!(Json::Integer(i64::MIN as i128).as_i64(), Some(i64::MIN));
    assert_eq!(Json::Integer(-1).as_u64(), None);
    assert_eq!(Json::Real.as_i64(), None);
}
