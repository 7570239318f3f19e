use zeronet_protocol::message::templates::{
    Announce, AnnouncePeers, AnnounceResponse, Checkport, CheckportResponse, Diff, Error,
    FindHashIds, FindHashIdsResponse, GetFile, GetFileResponse, GetHashfield,
    GetHashfieldResponse, GetPieceFields, GetPieceFieldsResponse, Handshake, ListModified,
    ListModifiedResponse, Pex, PexResponse, PingResponse, SetHashfield, SetHashfieldResponse,
    SetPieceFields, SetPieceFieldsResponse, StreamFile, StreamFileResponse, UpdateFile,
    UpdateFileResponse,
};
use zeronet_protocol::message::value::Value;
use zeronet_protocol::message::encode::encode;

fn opening(handshake: &Handshake) {
    assert_eq!(handshake.version, "0.7.6");
    assert_eq!(handshake.rev, 4565);
    assert_eq!(handshake.protocol, "v2");
    assert_eq!(handshake.use_bin_type, true);
    assert_eq!(handshake.fileserver_port, 0);
    assert_eq!(handshake.port_opened, Some(false));
    assert!(handshake.crypt_supported.is_empty());
    assert_eq!(handshake.onion, None);
    assert_eq!(handshake.crypt, None);
    assert_eq!(handshake.target_address, None);
    assert_eq!(handshake.peer_id, "");
}

#[test]
fn the_opening_handshake_announces_this_library() {
    let handshake = Handshake::new();
    opening(&handshake);
    // The clock of the machine is read: the time lies after the year 2020.
    assert!(handshake.time > 1_577_836_800);
    let handshake = Handshake::at(12);
    opening(&handshake);
    assert_eq!(handshake.time, 12);
}

#[test]
fn a_handshake_on_the_wire_leaves_out_what_is_not_set() {
    let json: serde_json::Value = serde_json::from_str(
        r#"{"peer_id": "", "fileserver_port": 0, "time": 12, "use_bin_type": true,
            "protocol": "v2", "port_opened": false, "rev": 4565, "version": "0.7.6"}"#,
    )
    .unwrap();
    let expected = rmp_serde::to_vec_named(&json).unwrap();
    assert_eq!(encode(&Handshake::at(12).into_value()).unwrap(), expected);

    let bare = Handshake::default();
    let json: serde_json::Value =
        serde_json::from_str(r#"{"peer_id": "", "fileserver_port": 0, "time": 0}"#).unwrap();
    assert_eq!(
        encode(&bare.into_value()).unwrap(),
        rmp_serde::to_vec_named(&json).unwrap()
    );
}

#[test]
fn a_handshake_on_the_wire_holds_all_that_is_set() {
    let handshake = Handshake {
        peer_id: "-ZN0056-DMK3XX30mOrw".to_string(),
        fileserver_port: 15441,
        time: 1600000000,
        crypt: Some("tls-rsa".to_string()),
        crypt_supported: vec!["tls-rsa".to_string(), "ecc".to_string()],
        use_bin_type: true,
        onion: Some("zp2ynpztyxj2kw7x".to_string()),
        protocol: "v2".to_string(),
        port_opened: Some(true),
        rev: 2122,
        target_address: Some("192.168.1.13".to_string()),
        version: "0.5.6".to_string(),
    };
    let json: serde_json::Value = serde_json::from_str(
        r#"{"crypt": "tls-rsa", "crypt_supported": ["tls-rsa", "ecc"], "fileserver_port": 15441,
            "onion": "zp2ynpztyxj2kw7x", "protocol": "v2", "port_opened": true,
            "peer_id": "-ZN0056-DMK3XX30mOrw", "rev": 2122, "target_ip": "192.168.1.13",
            "version": "0.5.6", "time": 1600000000, "use_bin_type": true}"#,
    )
    .unwrap();
    assert_eq!(
        encode(&handshake.into_value()).unwrap(),
        rmp_serde::to_vec_named(&json).unwrap()
    );
    let unset = Handshake { use_bin_type: false, port_opened: None, ..Handshake::default() };
    match unset.into_value() {
        Value::Object(entries) => {
            let keys: Vec<&str> = entries.iter().map(|entry| entry.0.as_str()).collect();
            assert_eq!(keys, vec!["fileserver_port", "peer_id", "time"]);
        }
        _ => panic!("not an object"),
    }
}

#[test]
fn the_payloads_start_out_empty() {
    assert_eq!(PingResponse::default().body, "");
    let announce = Announce::default();
    assert_eq!(announce.port, 0);
    assert!(announce.add.is_empty());
    assert!(announce.need_types.is_empty());
    assert_eq!(announce.need_num, 0);
    assert!(announce.hashes.is_empty());
    assert!(announce.onions.is_empty());
    assert!(announce.onion_signs.is_empty());
    assert_eq!(announce.onion_sign_this, "");
    assert_eq!(announce.delete, false);
    assert!(AnnounceResponse::default().peers.is_empty());
    let peers = AnnouncePeers::default();
    assert!(peers.ip_v4.is_empty() && peers.ip_v6.is_empty() && peers.onion_v2.is_empty());
    assert!(peers.onion_v3.is_empty() && peers.i2p_b32.is_empty() && peers.loki.is_empty());
    let get_file = GetFile::default();
    assert_eq!((get_file.site.as_str(), get_file.inner_path.as_str()), ("", ""));
    assert_eq!((get_file.location, get_file.file_size), (0, 0));
    let file = GetFileResponse::default();
    assert!(file.body.is_empty());
    assert_eq!((file.location, file.size), (0, 0));
    assert_eq!(StreamFile::default().size, 0);
    assert_eq!(StreamFile::default().inner_path, "");
    assert_eq!(StreamFileResponse::default().stream_bytes, 0);
    assert_eq!(Pex::default().need, 0);
    assert!(Pex::default().peers.is_empty() && Pex::default().peers_onion.is_empty());
    assert_eq!(Pex::default().site, "");
    assert!(PexResponse::default().peers.is_empty());
    assert!(PexResponse::default().peers_onion.is_empty());
    assert!(UpdateFile::default().diffs.is_empty() && UpdateFile::default().body.is_empty());
    assert_eq!(Diff::default().opcode, "");
    assert_eq!(Diff::default().diff, "");
    assert_eq!(UpdateFileResponse::default().ok, false);
    assert_eq!(ListModified::default().since, 0);
    assert!(ListModifiedResponse::default().modified_files.is_empty());
    assert_eq!(GetHashfield::default().site, "");
    assert!(GetHashfieldResponse::default().hashfield_raw.is_empty());
    assert!(SetHashfield::default().hashfield_raw.is_empty());
    assert_eq!(SetHashfieldResponse::default().ok, false);
    assert!(FindHashIds::default().hash_ids.is_empty());
    assert!(FindHashIdsResponse::default().peers.is_empty());
    assert!(FindHashIdsResponse::default().peers_onion.is_empty());
    assert_eq!(Checkport::default().port, 0);
    assert_eq!(CheckportResponse::default().status, "");
    assert_eq!(CheckportResponse::default().ip_external, "");
    assert_eq!(GetPieceFields::default().site, "");
    assert!(GetPieceFieldsResponse::default().piecefields_packed.is_empty());
    assert!(SetPieceFields::default().piecefields_packed.is_empty());
    assert_eq!(SetPieceFieldsResponse::default().ok, false);
    assert_eq!(Error::default().error, "");
}

#[test]
fn announced_peers_are_described_by_their_text() {
    let peers = AnnouncePeers {
        ip_v4: vec![vec![127, 0, 0, 1, 225, 16], vec![10, 0, 0, 2, 1, 0]],
        ip_v6: vec![vec![0, 0, 0, 0, 0, 0, 0, 0, 0, 0, 0, 0, 0, 0, 0, 1, 144, 31]],
        onion_v2: vec![vec![196, 196, 220, 174, 135, 5, 208, 57, 132, 188, 225, 16]],
        ..AnnouncePeers::default()
    };
    assert_eq!(
        peers.describe().unwrap(),
        "[127.0.0.1:4321, 10.0.0.2:1, [::1]:8080, ytcnzluhaxidtbf4.onion:4321]"
    );
    assert_eq!(AnnouncePeers::default().describe().unwrap(), "[]");
    let one = AnnouncePeers { loki: vec![vec![1, 2, 3, 4, 5, 0]], ..AnnouncePeers::default() };
    assert_eq!(one.describe().unwrap(), "[1.2.3.4:5]");
    let broken = AnnouncePeers {
        ip_v4: vec![vec![127, 0, 0, 1, 225, 16], vec![1, 2, 3]],
        ..AnnouncePeers::default()
    };
    assert_eq!(broken.describe(), None);
}
