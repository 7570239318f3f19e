use zeronet_protocol::address::PeerAddr;
use zeronet_protocol::message::object::put_entry;
use zeronet_protocol::message::value::{Number, Value};
use zeronet_protocol::message::decode::decode;
use zeronet_protocol::message::encode::encode;
use zeronet_protocol::message::wire::{Decoded, Parsed, Wire};
use zeronet_protocol::message::ZeroMessage;
use zeronet_protocol::requestable::Requestable;

fn from_json(json: &serde_json::Value) -> Value {
    match json {
        serde_json::Value::Null => Value::Null,
        serde_json::Value::Bool(b) => Value::Bool(*b),
        serde_json::Value::Number(n) => {
            if let Some(u) = n.as_u64() {
                Value::Number(Number::PosInt(u))
            } else if let Some(i) = n.as_i64() {
                Value::Number(Number::NegInt(i))
            } else {
                Value::Number(Number::Float64(n.as_f64().unwrap().to_bits()))
            }
        }
        serde_json::Value::String(s) => Value::String(s.clone()),
        serde_json::Value::Array(items) => Value::Array(items.iter().map(from_json).collect()),
        serde_json::Value::Object(map) => {
            let mut entries = Vec::new();
            for (key, value) in map {
                put_entry(&mut entries, key.clone(), from_json(value));
            }
            Value::Object(entries)
        }
    }
}

fn json(text: &str) -> serde_json::Value {
    serde_json::from_str(text).unwrap()
}

fn des(text: &str) -> Result<ZeroMessage, String> {
    let json: serde_json::Value = serde_json::from_str(text).map_err(|e| e.to_string())?;
    ZeroMessage::from_value(from_json(&json)).ok_or("not a message".to_string())
}

fn rmps(msg: ZeroMessage) -> Vec<u8> {
    msg.encode().unwrap()
}

fn rmpd(bytes: Vec<u8>) -> ZeroMessage {
    match ZeroMessage::decode(&bytes) {
        Parsed::Message { message, used } => {
            assert_eq!(used, bytes.len());
            message
        }
        other => panic!("unexpected {:?}", other),
    }
}

fn field<'a>(value: &'a Value, key: &str) -> Option<&'a Value> {
    match value {
        Value::Object(entries) => entries.iter().find(|entry| entry.0 == key).map(|entry| &entry.1),
        _ => None,
    }
}

const ANNOUNCE: &str = r#"
		{
			"cmd": "announce",
			"req_id": 0,
			"params": {
				"hashes": [
					[89, 112, 7, 110, 192, 202, 246, 172, 153, 204, 68, 17, 131, 21, 113, 111, 125, 39, 66, 195, 91, 53, 41, 172, 78, 234, 146, 138, 48, 150, 109, 29],
					[29, 193, 202, 145, 155, 127, 205, 249, 222, 181, 121, 80, 223, 86, 149, 175, 49, 199, 10, 242, 237, 120, 239, 250, 84, 225, 196, 19, 67, 54, 74, 31],
					[154, 94, 94, 135, 80, 65, 245, 232, 228, 170, 254, 51, 215, 25, 155, 238, 32, 182, 95, 83, 131, 168, 192, 125, 22, 53, 43, 147, 91, 235, 29, 146]
				],
				"onion_signs": [],
				"onion_sign_this": "",
				"port": 15441,
				"need_types": ["ipv4"],
				"need_num": 20,
				"add": ["onion", "ipv4"],
				"delete": true
			}
		}"#;

fn announce_bytes() -> Vec<u8> {
    vec![
        131, 163, 99, 109, 100, 168, 97, 110, 110, 111, 117, 110, 99, 101, 166, 112, 97, 114, 97,
        109, 115, 136, 163, 97, 100, 100, 146, 165, 111, 110, 105, 111, 110, 164, 105, 112, 118, 52,
        166, 100, 101, 108, 101, 116, 101, 195, 166, 104, 97, 115, 104, 101, 115, 147, 220, 0, 32,
        89, 112, 7, 110, 204, 192, 204, 202, 204, 246, 204, 172, 204, 153, 204, 204, 68, 17, 204,
        131, 21, 113, 111, 125, 39, 66, 204, 195, 91, 53, 41, 204, 172, 78, 204, 234, 204, 146, 204,
        138, 48, 204, 150, 109, 29, 220, 0, 32, 29, 204, 193, 204, 202, 204, 145, 204, 155, 127, 204,
        205, 204, 249, 204, 222, 204, 181, 121, 80, 204, 223, 86, 204, 149, 204, 175, 49, 204, 199,
        10, 204, 242, 204, 237, 120, 204, 239, 204, 250, 84, 204, 225, 204, 196, 19, 67, 54, 74, 31,
        220, 0, 32, 204, 154, 94, 94, 204, 135, 80, 65, 204, 245, 204, 232, 204, 228, 204, 170, 204,
        254, 51, 204, 215, 25, 204, 155, 204, 238, 32, 204, 182, 95, 83, 204, 131, 204, 168, 204,
        192, 125, 22, 53, 43, 204, 147, 91, 204, 235, 29, 204, 146, 168, 110, 101, 101, 100, 95, 110,
        117, 109, 20, 170, 110, 101, 101, 100, 95, 116, 121, 112, 101, 115, 145, 164, 105, 112, 118,
        52, 175, 111, 110, 105, 111, 110, 95, 115, 105, 103, 110, 95, 116, 104, 105, 115, 160, 171,
        111, 110, 105, 111, 110, 95, 115, 105, 103, 110, 115, 144, 164, 112, 111, 114, 116, 205, 60,
        81, 166, 114, 101, 113, 95, 105, 100, 0,
    ]
}

#[test]
fn test_announce() {
    let text = ANNOUNCE;
    let msg = des(text).unwrap();
    assert_eq!(msg.is_request(), true);
    assert_eq!(rmpd(rmps(des(text).unwrap())), msg);

    let bytes = announce_bytes();
    assert_eq!(rmpd(bytes), msg);

    let params = msg.body();
    assert_eq!(field(&params, "port"), Some(&Value::Number(Number::PosInt(15441))));
}

#[test]
fn test_announce_msgpack() {}

#[test]
fn test_get_file() {
    let text = r#"
		{
			"cmd": "getFile",
			"req_id": 0,
			"params": {}
		}"#;
    let msg = des(text).unwrap();
    assert_eq!(msg.is_request(), true);
    assert_eq!(rmpd(rmps(des(text).unwrap())), msg);
}

#[test]
fn test_get_file_response() {
    let msg = des(
        r#"
		{
			"cmd": "response",
			"to": 1,
			"body": "content.json content",
			"location": 1132,
			"size": 1132
		}"#,
    );
    assert_eq!(msg.is_ok(), true, "Deserializes response");
}

#[test]
fn test_handshake() {
    let msg = des(
        r#"
		{
			"cmd": "handshake",
			"req_id": 0,
			"params": {
				"crypt": null,
				"crypt_supported": ["tls-rsa"],
				"fileserver_port": 15441,
				"onion": "zp2ynpztyxj2kw7x",
				"protocol": "v2",
				"port_opened": true,
				"peer_id": "-ZN0056-DMK3XX30mOrw",
				"rev": 2122,
				"target_ip": "192.168.1.13",
				"version": "0.5.6"
			}
		}"#,
    );
    assert_eq!(msg.is_ok(), true);
}

#[test]
fn test_handshake_response() {
    let msg = des(
        r#"
		{
			"protocol": "v2",
			"onion": "boot3rdez4rzn36x",
			"to": 0,
			"crypt": null,
			"cmd": "response",
			"rev": 2092,
			"crypt_supported": [],
			"target_ip": "zp2ynpztyxj2kw7x.onion",
			"version": "0.5.5",
			"fileserver_port": 15441,
			"port_opened": false,
			"peer_id": ""
		 }"#,
    );
    assert_eq!(msg.is_ok(), true);
}

#[test]
fn test_stream_file() {
    let msg = des(
        r#"
		{
			"cmd": "streamFile",
			"req_id": 1,
			"params": {
				"site": "1ADDR",
				"inner_path": "content.json",
				"size": 1234
			}
		}"#,
    );
    assert_eq!(msg.is_ok(), true);
}

#[test]
fn test_stream_file_response() {
    let msg = des(
        r#"
		{
			"cmd": "response",
			"to": 1,
			"stream_bytes": 1234
		}"#,
    );
    assert_eq!(msg.is_ok(), true);
}

#[test]
fn test_ping() {
    let msg = des(
        r#"
		{
			"cmd": "ping",
			"req_id": 0
		}"#,
    );
    assert_eq!(msg.is_ok(), true);
}

#[test]
fn test_pong() {
    let msg = des(
        r#"
		{
			"cmd": "response",
			"to": 0,
			"body": "Pong!"
		}"#,
    );
    assert_eq!(msg.is_ok(), true);
}

#[test]
fn test_pex() {
    let msg = des(
        r#"
		{
			"cmd": "pex",
			"req_id": 0,
			"params": {
				"site": "1ADDR"
			}
		}"#,
    );
    assert_eq!(msg.is_ok(), true);
}

#[test]
fn test_pex_response() {
    let msg = des(
        r#"
		{
			"cmd": "response",
			"to": 0,
			"peers": [],
			"peers_onion": []
		}"#,
    );
    assert_eq!(msg.is_ok(), true);
}

#[test]
fn test_bytevec_vs_bytebuf() {
    // This test is just here so that a change in how bytes are serialized
    // won't go unnoticed, particularly as that could mean they can be
    // simplified.
    let address = PeerAddr::parse("127.0.0.1:8001").unwrap();
    let bytes = address.pack();
    let serialized_bytes = rmp_serde::to_vec(&bytes).unwrap();

    let byte_buf = serde_bytes::ByteBuf::from(bytes.clone());
    let serialized_bytebuf = rmp_serde::to_vec(&byte_buf).unwrap();
    assert_ne!(
        serialized_bytes, serialized_bytebuf,
        "ByteBuf is serialized differently from bytes"
    );

    let serialized_bytebuf_json =
        rmp_serde::to_vec(&serde_json::to_value(&bytes).unwrap()).unwrap();
    assert_ne!(
        serialized_bytebuf, serialized_bytebuf_json,
        "ByteBuf is serialized differently from JSON Value equivalent"
    );

    assert_eq!(
        serialized_bytes, serialized_bytebuf_json,
        "Bytes and JSON equivalent are serialized the same"
    );

    // The library writes a byte string as the byte buffer is written, and
    // an array of numbers as the plain bytes are.
    assert_eq!(encode(&Value::Bytes(bytes.clone())).unwrap(), serialized_bytebuf);
    let numbers = bytes.iter().map(|b| Value::Number(Number::PosInt(*b as u64))).collect();
    assert_eq!(encode(&Value::Array(numbers)).unwrap(), serialized_bytes);
}

#[test]
fn the_wire_form_is_that_of_the_json_value() {
    let texts = [
        ANNOUNCE,
        r#"{"cmd": "getFile", "req_id": 0, "params": {}}"#,
        r#"{"cmd": "ping", "req_id": 7}"#,
        r#"{"cmd": "response", "to": 0, "body": "Pong!"}"#,
        r#"{"cmd": "response", "to": 1, "body": "content.json content", "location": 1132, "size": 1132}"#,
        r#"{"protocol": "v2", "onion": "boot3rdez4rzn36x", "to": 0, "crypt": null, "cmd": "response",
            "rev": 2092, "crypt_supported": [], "target_ip": "zp2ynpztyxj2kw7x.onion", "version": "0.5.5",
            "fileserver_port": 15441, "port_opened": false, "peer_id": ""}"#,
        r#"{"cmd": "x", "req_id": 70000, "params": {"n": -1, "m": -33, "k": -129, "j": -32769,
            "i": -2147483649, "h": 4294967296, "g": 255, "f": 256, "e": 65535, "d": 65536,
            "c": 127, "b": 128, "a": [1, [2, [3, {"deep": null}]]], "t": true, "u": false,
            "float": 1.5, "text": "grüße", "empty": ""}}"#,
    ];
    for text in texts {
        let expected = rmp_serde::to_vec_named(&json(text)).unwrap();
        assert_eq!(rmps(des(text).unwrap()), expected, "{}", text);
        assert_eq!(rmpd(expected), des(text).unwrap(), "{}", text);
    }
    assert_eq!(rmps(des(ANNOUNCE).unwrap()), announce_bytes());
}

#[test]
fn a_message_is_a_request_or_a_response() {
    let request = ZeroMessage::request("ping", 3, Value::Null);
    assert!(request.is_request());
    assert!(!request.is_response());
    assert_eq!(request.req_id(), Some(3));
    assert_eq!(request.to(), None);
    assert!(Requestable::is_request(&request));
    assert!(!Requestable::is_response(&request));
    let response = ZeroMessage::response(3, Value::Object(vec![]));
    assert!(response.is_response());
    assert!(!response.is_request());
    assert_eq!(response.req_id(), None);
    assert_eq!(response.to(), Some(3));
    assert!(Requestable::is_response(&response));
    assert!(!Requestable::is_request(&response));
    match response {
        ZeroMessage::Response(inner) => {
            assert_eq!(inner.cmd, "response");
            assert_eq!(inner.to, 3);
        }
        _ => unreachable!(),
    }
}

#[test]
fn body_is_what_the_message_carries() {
    let params = Value::Object(vec![("site".to_string(), Value::String("1ADDR".to_string()))]);
    let request = ZeroMessage::request("pex", 0, params);
    assert_eq!(
        request.body(),
        Value::Object(vec![("site".to_string(), Value::String("1ADDR".to_string()))])
    );
    let response = ZeroMessage::response(0, Value::Null);
    assert_eq!(response.body(), Value::Null);
}

#[test]
fn the_body_of_a_response_lies_beside_cmd_and_to() {
    let body = Value::Object(vec![("body".to_string(), Value::String("Pong!".to_string()))]);
    let bytes = ZeroMessage::response(0, body).encode().unwrap();
    let expected = rmp_serde::to_vec_named(&json(r#"{"cmd":"response","to":0,"body":"Pong!"}"#));
    assert_eq!(bytes, expected.unwrap());
    match decode(&bytes) {
        Decoded::Complete { value, .. } => {
            assert_eq!(field(&value, "body"), Some(&Value::String("Pong!".to_string())));
            assert_eq!(field(&value, "to"), Some(&Value::Number(Number::PosInt(0))));
            assert_eq!(field(&value, "cmd"), Some(&Value::String("response".to_string())));
        }
        other => panic!("unexpected {:?}", other),
    }
}

#[test]
fn null_parameters_are_left_out() {
    let bytes = ZeroMessage::request("ping", 0, Value::Null).encode().unwrap();
    assert_eq!(bytes, rmp_serde::to_vec_named(&json(r#"{"cmd":"ping","req_id":0}"#)).unwrap());
    assert_eq!(rmpd(bytes), ZeroMessage::request("ping", 0, Value::Null));
}

#[test]
fn a_response_without_an_object_has_no_wire_form() {
    let text = ZeroMessage::response(0, Value::String("Pong!".to_string()));
    assert!(text.encode().is_err());
    let array = ZeroMessage::response(0, Value::Array(vec![]));
    assert!(array.encode().is_err());
    // One that carries nothing is written as one that carries an empty
    // object.
    let null = ZeroMessage::response(4, Value::Null).encode().unwrap();
    assert_eq!(rmpd(null), ZeroMessage::response(4, Value::Object(vec![])));
}

#[test]
fn an_object_that_is_no_message_is_refused() {
    for text in [
        r#"{"cmd": "ping"}"#,
        r#"{"req_id": 0}"#,
        r#"{"to": 0}"#,
        r#"{"cmd": 1, "req_id": 0}"#,
        r#"{"cmd": "ping", "req_id": "0"}"#,
        r#"{"cmd": "ping", "req_id": -1}"#,
        r#"{"cmd": "ping", "to": -1}"#,
        r#"[1, 2]"#,
        r#"null"#,
        r#""ping""#,
    ] {
        assert!(des(text).is_err(), "{}", text);
        let bytes = rmp_serde::to_vec_named(&json(text)).unwrap();
        // The whole value is refused, and nothing of what follows it.
        let mut stream = bytes.clone();
        stream.extend_from_slice(&[0xc0, 0xc0]);
        assert_eq!(ZeroMessage::decode(&stream), Parsed::Refused { used: bytes.len() }, "{}", text);
    }
}

#[test]
fn a_message_with_both_ids_is_a_response() {
    let msg = des(r#"{"cmd": "response", "to": 1, "req_id": 2}"#).unwrap();
    assert!(msg.is_response());
    assert_eq!(msg.to(), Some(1));
    assert_eq!(
        msg.body(),
        Value::Object(vec![("req_id".to_string(), Value::Number(Number::PosInt(2)))])
    );
}

#[test]
fn what_a_request_needs_not_is_ignored() {
    let msg = des(r#"{"cmd": "ping", "req_id": 2, "extra": true}"#).unwrap();
    assert_eq!(msg, ZeroMessage::request("ping", 2, Value::Null));
}

#[test]
fn decoding_reads_one_message_and_leaves_the_rest() {
    let first = ZeroMessage::request("ping", 0, Value::Null).encode().unwrap();
    let second = ZeroMessage::request("ping", 1, Value::Null).encode().unwrap();
    let mut stream = first.clone();
    stream.extend_from_slice(&second);
    match ZeroMessage::decode(&stream) {
        Parsed::Message { message, used } => {
            assert_eq!(message, ZeroMessage::request("ping", 0, Value::Null));
            assert_eq!(used, first.len());
            assert_eq!(rmpd(stream[used..].to_vec()), ZeroMessage::request("ping", 1, Value::Null));
        }
        other => panic!("unexpected {:?}", other),
    }
    for cut in 0..first.len() {
        assert!(matches!(ZeroMessage::decode(&first[..cut]), Parsed::Incomplete), "{}", cut);
    }
}

#[test]
fn bytes_that_are_no_messagepack_are_refused_one_at_a_time() {
    assert_eq!(ZeroMessage::decode(&[0xc1]), Parsed::Refused { used: 1 });
    assert_eq!(ZeroMessage::decode(&[0xc1, 0xc0, 0xc0]), Parsed::Refused { used: 1 });
    // A whole value that is no object is refused as a whole.
    assert_eq!(ZeroMessage::decode(&[0xc0, 0xc0]), Parsed::Refused { used: 1 });
    assert_eq!(ZeroMessage::decode(&[0x92, 0x01, 0x02, 0xc0]), Parsed::Refused { used: 3 });
    assert_eq!(ZeroMessage::decode(&[0x92, 0x01]), Parsed::Incomplete);
    assert_eq!(ZeroMessage::decode(&[]), Parsed::Incomplete);
}
