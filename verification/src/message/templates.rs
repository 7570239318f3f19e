//! The payloads of the commands of the protocol.

use std::collections::HashMap;
use std::time::{Duration, SystemTime};
use vstd::prelude::*;
use vstd::slice::slice_to_vec;
use crate::address::{unpacked, PeerAddr};
use crate::message::object::{put, put_entry};
use crate::message::value::{item_of, items_of, Item, Number, Value};
use crate::text::{push_text, string_of};

verus! {

#[verifier::external_type_specification]
#[verifier::external_body]
pub struct ExSystemTime(SystemTime);

/// Calls `SystemTime::now`. Nothing is promised of the time it gives.
#[verifier::external_body]
fn now() -> SystemTime {
    SystemTime::now()
}

/// Calls `SystemTime::duration_since` with the Unix epoch. Nothing is
/// promised of the duration; a clock that is set before the epoch gives
/// none.
#[verifier::external_body]
fn since_epoch(time: &SystemTime) -> Option<Duration> {
    time.duration_since(std::time::UNIX_EPOCH).ok()
}

/// Calls `Duration::as_secs`. Nothing is promised of the number.
#[verifier::external_body]
fn whole_seconds(duration: &Duration) -> u64 {
    duration.as_secs()
}

/// The first message on a connection, in both directions.
#[derive(Debug, Default)]
pub struct Handshake {
    /// The PeerID of the sender
    pub peer_id: String,
    pub fileserver_port: usize,
    /// Time at which the message was sent
    pub time: u64,
    pub crypt: Option<String>,
    pub crypt_supported: Vec<String>,
    /// For backwards compatibility with ZeroNet-py < v0.7.0
    pub use_bin_type: bool,
    pub onion: Option<String>,
    pub protocol: String,
    pub port_opened: Option<bool>,
    pub rev: usize,
    /// The address this handshake is addressed to, including ".onion" or ".b32.i2p"
    pub target_address: Option<String>,
    pub version: String,
}

/// The version that a handshake announces.
pub open spec fn announced_version() -> Seq<char> {
    "0.7.6"@
}

/// The protocol that a handshake announces.
pub open spec fn announced_protocol() -> Seq<char> {
    "v2"@
}

/// The revision that a handshake announces.
pub const ANNOUNCED_REV: usize = 4565;

impl Handshake {
    /// Whether the handshake is the one a peer opens with: it announces this
    /// library's version, revision and protocol and binary strings, names no
    /// file server port and no open port, offers no encryption, and names
    /// neither sender nor target.
    pub open spec fn is_opening(&self) -> bool {
        &&& self.version@ == announced_version()
        &&& self.rev == ANNOUNCED_REV
        &&& self.protocol@ == announced_protocol()
        &&& self.use_bin_type
        &&& self.fileserver_port == 0
        &&& self.port_opened == Some(false)
        &&& self.crypt_supported@.len() == 0
        &&& self.onion is None
        &&& self.crypt is None
        &&& self.target_address is None
        &&& self.peer_id@.len() == 0
    }

    /// The opening handshake, sent at `time`, in seconds since the Unix
    /// epoch.
    pub fn at(time: u64) -> (handshake: Handshake)
        ensures
            handshake.is_opening(),
            handshake.time == time,
    {
        Handshake {
            version: "0.7.6".to_owned(),
            rev: ANNOUNCED_REV,
            protocol: "v2".to_owned(),
            use_bin_type: true,
            fileserver_port: 0,
            port_opened: Some(false),
            crypt_supported: Vec::new(),
            time,
            onion: None,
            crypt: None,
            target_address: None,
            peer_id: String::new(),
        }
    }

    /// The opening handshake, sent now. With a clock that is set before
    /// the Unix epoch the time is 0.
    pub fn new() -> (handshake: Handshake)
        ensures
            handshake.is_opening(),
    {
        let time = match since_epoch(&now()) {
            Some(duration) => whole_seconds(&duration),
            None => 0,
        };
        Handshake::at(time)
    }
}

/// The texts as values.
pub open spec fn text_items(texts: Seq<String>) -> Seq<Item>
    decreases texts.len(),
{
    if texts.len() == 0 {
        Seq::empty()
    } else {
        text_items(texts.drop_last()).push(Item::Text(texts.last()@))
    }
}

/// The entries with `text` under `key`, where there is a text.
pub open spec fn put_text(
    entries: Seq<(Seq<char>, Item)>,
    key: Seq<char>,
    text: Option<String>,
) -> Seq<(Seq<char>, Item)> {
    match text {
        Some(text) => put(entries, key, Item::Text(text@)),
        None => entries,
    }
}

/// The entries with `item` under `key`, where `present` holds.
pub open spec fn put_if(
    entries: Seq<(Seq<char>, Item)>,
    present: bool,
    key: Seq<char>,
    item: Item,
) -> Seq<(Seq<char>, Item)> {
    if present {
        put(entries, key, item)
    } else {
        entries
    }
}

/// The texts as values.
fn values_of(texts: Vec<String>) -> (values: Vec<Value>)
    ensures
        items_of(values@) == text_items(texts@),
{
    let mut values: Vec<Value> = Vec::new();
    let mut rest = texts;
    let ghost all = rest@;
    let total = rest.len();
    let mut i: usize = 0;
    proof {
        assert(all.take(0) =~= Seq::<String>::empty());
        assert(all.skip(0) =~= all);
    }
    while rest.len() > 0
        invariant
            total == all.len(),
            i + rest@.len() == all.len(),
            rest@ == all.skip(i as int),
            items_of(values@) == text_items(all.take(i as int)),
        decreases rest.len(),
    {
        let text = rest.remove(0);
        let ghost before = values@;
        values.push(Value::String(text));
        proof {
            assert(text == all[i as int]);
            assert(values@.drop_last() =~= before);
            assert(item_of(values@.last()) == Item::Text(text@));
            assert(all.take(i + 1).drop_last() =~= all.take(i as int));
            assert(all.take(i + 1).last() == all[i as int]);
            assert(rest@ =~= all.skip(i + 1));
        }
        i += 1;
    }
    proof {
        assert(all.take(i as int) =~= all);
    }
    values
}

impl Handshake {
    /// The object that the handshake is on the wire. The sender, the port
    /// of its file server and the time are always there. Of the rest only
    /// what is set is there: a text that is not empty, a number that is not
    /// zero, an option that is given, a list that is not empty, a flag that
    /// is raised. The target address stands under `target_ip`.
    pub open spec fn item(&self) -> Item {
        let base = put(
            put(
                put(Seq::empty(), "peer_id"@, Item::Text(self.peer_id@)),
                "fileserver_port"@,
                Item::Number(Number::PosInt(self.fileserver_port as u64)),
            ),
            "time"@,
            Item::Number(Number::PosInt(self.time)),
        );
        let crypt = put_text(base, "crypt"@, self.crypt);
        let supported = put_if(
            crypt,
            self.crypt_supported@.len() > 0,
            "crypt_supported"@,
            Item::Array(text_items(self.crypt_supported@)),
        );
        let bin = put_if(supported, self.use_bin_type, "use_bin_type"@, Item::Bool(true));
        let onion = put_text(bin, "onion"@, self.onion);
        let protocol = put_if(
            onion,
            self.protocol@.len() > 0,
            "protocol"@,
            Item::Text(self.protocol@),
        );
        let opened = match self.port_opened {
            Some(opened) => put(protocol, "port_opened"@, Item::Bool(opened)),
            None => protocol,
        };
        let rev = put_if(
            opened,
            self.rev != 0,
            "rev"@,
            Item::Number(Number::PosInt(self.rev as u64)),
        );
        let target = put_text(rev, "target_ip"@, self.target_address);
        Item::Object(
            put_if(target, self.version@.len() > 0, "version"@, Item::Text(self.version@)),
        )
    }

    /// The object that the handshake is on the wire.
    pub fn into_value(self) -> (value: Value)
        ensures
            value@ == self.item(),
    {
        let mut entries: Vec<(String, Value)> = Vec::new();
        put_entry(&mut entries, "peer_id".to_owned(), Value::String(self.peer_id));
        put_entry(
            &mut entries,
            "fileserver_port".to_owned(),
            Value::Number(Number::PosInt(self.fileserver_port as u64)),
        );
        put_entry(&mut entries, "time".to_owned(), Value::Number(Number::PosInt(self.time)));
        match self.crypt {
            Some(crypt) => put_entry(&mut entries, "crypt".to_owned(), Value::String(crypt)),
            None => {},
        }
        if self.crypt_supported.len() > 0 {
            let values = values_of(self.crypt_supported);
            put_entry(&mut entries, "crypt_supported".to_owned(), Value::Array(values));
        }
        if self.use_bin_type {
            put_entry(&mut entries, "use_bin_type".to_owned(), Value::Bool(true));
        }
        match self.onion {
            Some(onion) => put_entry(&mut entries, "onion".to_owned(), Value::String(onion)),
            None => {},
        }
        if !self.protocol.as_str().is_empty() {
            put_entry(&mut entries, "protocol".to_owned(), Value::String(self.protocol));
        }
        match self.port_opened {
            Some(opened) => put_entry(&mut entries, "port_opened".to_owned(), Value::Bool(opened)),
            None => {},
        }
        if self.rev != 0 {
            put_entry(
                &mut entries,
                "rev".to_owned(),
                Value::Number(Number::PosInt(self.rev as u64)),
            );
        }
        match self.target_address {
            Some(target) => put_entry(
                &mut entries,
                "target_ip".to_owned(),
                Value::String(target),
            ),
            None => {},
        }
        if !self.version.as_str().is_empty() {
            put_entry(&mut entries, "version".to_owned(), Value::String(self.version));
        }
        Value::Object(entries)
    }
}

/// The answer to `ping`.
#[derive(Debug, Default)]
pub struct PingResponse {
    pub body: String,
}

/// Asks a tracker for peers.
#[derive(Debug, Default)]
pub struct Announce {
    pub port: usize,
    pub add: Vec<String>,
    pub need_types: Vec<String>,
    pub need_num: usize,
    pub hashes: Vec<Vec<u8>>,
    pub onions: Vec<String>,
    pub onion_signs: Vec<Vec<u8>>,
    pub onion_sign_this: String,
    pub delete: bool,
}

/// The peers that a tracker knows.
#[derive(Debug, Default)]
pub struct AnnounceResponse {
    pub peers: Vec<AnnouncePeers>,
}

/// Packed peer addresses, by family.
#[derive(Debug, Default)]
pub struct AnnouncePeers {
    pub ip_v4: Vec<Vec<u8>>,
    pub ip_v6: Vec<Vec<u8>>,
    pub onion_v2: Vec<Vec<u8>>,
    pub onion_v3: Vec<Vec<u8>>,
    pub i2p_b32: Vec<Vec<u8>>,
    pub loki: Vec<Vec<u8>>,
}

/// The packed addresses of a list, each as its bytes.
pub open spec fn packed_of(list: Seq<Vec<u8>>) -> Seq<Seq<u8>> {
    Seq::new(list.len(), |i: int| list[i]@)
}

/// Whether each of the byte strings is a packed address.
pub open spec fn all_unpack(addresses: Seq<Seq<u8>>) -> bool {
    forall|i: int| 0 <= i < addresses.len() ==> unpacked(#[trigger] addresses[i]) is Some
}

/// The text forms of the packed addresses, with a comma and a blank
/// between one and the next.
pub open spec fn joined_texts(addresses: Seq<Seq<u8>>) -> Seq<char>
    decreases addresses.len(),
{
    if addresses.len() == 0 {
        Seq::empty()
    } else {
        let text = match unpacked(addresses.last()) {
            Some(address) => address.text(),
            None => Seq::empty(),
        };
        if addresses.len() == 1 {
            text
        } else {
            joined_texts(addresses.drop_last()) + ", "@ + text
        }
    }
}

/// Appends copies of the byte strings of `list` to `all`.
fn collect(all: &mut Vec<Vec<u8>>, list: &Vec<Vec<u8>>)
    ensures
        packed_of(final(all)@) == packed_of(old(all)@) + packed_of(list@),
{
    let mut i: usize = 0;
    proof {
        assert(packed_of(all@) =~= packed_of(old(all)@) + packed_of(list@.take(0)));
    }
    while i < list.len()
        invariant
            i <= list.len(),
            packed_of(all@) == packed_of(old(all)@) + packed_of(list@.take(i as int)),
        decreases list.len() - i,
    {
        let ghost before = all@;
        all.push(slice_to_vec(list[i].as_slice()));
        proof {
            assert(packed_of(all@) =~= packed_of(before).push(list@[i as int]@));
            assert(packed_of(list@.take(i + 1)) =~= packed_of(list@.take(i as int)).push(
                list@[i as int]@,
            ));
            assert(packed_of(all@) =~= packed_of(old(all)@) + packed_of(list@.take(i + 1)));
        }
        i += 1;
    }
    proof {
        assert(list@.take(i as int) =~= list@);
    }
}

impl AnnouncePeers {
    /// All the packed addresses: IPv4, IPv6, onion of version 2 and 3, I2P
    /// and Loki, in this order.
    pub open spec fn packed_addresses(&self) -> Seq<Seq<u8>> {
        packed_of(self.ip_v4@) + packed_of(self.ip_v6@) + packed_of(self.onion_v2@) + packed_of(
            self.onion_v3@,
        ) + packed_of(self.i2p_b32@) + packed_of(self.loki@)
    }

    /// The peers in words: the text forms of all the addresses in square
    /// brackets, or `None` where an entry is no packed address.
    pub fn describe(&self) -> (r: Option<String>)
        ensures
            r is Some <==> all_unpack(self.packed_addresses()),
            r matches Some(text) ==> text@ == "["@ + joined_texts(self.packed_addresses())
                + "]"@,
    {
        let mut all: Vec<Vec<u8>> = Vec::new();
        proof {
            assert(packed_of(all@) =~= Seq::<Seq<u8>>::empty());
        }
        collect(&mut all, &self.ip_v4);
        collect(&mut all, &self.ip_v6);
        collect(&mut all, &self.onion_v2);
        collect(&mut all, &self.onion_v3);
        collect(&mut all, &self.i2p_b32);
        collect(&mut all, &self.loki);
        assert(packed_of(all@) =~= self.packed_addresses());
        let ghost addresses = packed_of(all@);
        let mut out: Vec<char> = Vec::new();
        push_text(&mut out, "[");
        let mut i: usize = 0;
        proof {
            assert(addresses.take(0) =~= Seq::<Seq<u8>>::empty());
            assert(out@ =~= "["@ + joined_texts(addresses.take(0)));
        }
        while i < all.len()
            invariant
                i <= all.len(),
                addresses == packed_of(all@),
                addresses == self.packed_addresses(),
                all_unpack(addresses.take(i as int)),
                out@ == "["@ + joined_texts(addresses.take(i as int)),
            decreases all.len() - i,
        {
            let ghost longer = addresses.take(i + 1);
            proof {
                assert(longer.drop_last() =~= addresses.take(i as int));
                assert(longer.last() == all@[i as int]@);
            }
            match PeerAddr::unpack(&all[i]) {
                Ok(address) => {
                    if i > 0 {
                        push_text(&mut out, ", ");
                    }
                    let text = address.to_string();
                    push_text(&mut out, text.as_str());
                    proof {
                        assert(out@ =~= "["@ + joined_texts(longer));
                        assert forall|j: int| 0 <= j < longer.len() implies unpacked(
                            #[trigger] longer[j],
                        ) is Some by {
                            if j < i {
                                assert(longer[j] == addresses.take(i as int)[j]);
                            }
                        }
                    }
                },
                Err(_) => {
                    proof {
                        assert(addresses[i as int] == all@[i as int]@);
                        assert(unpacked(addresses[i as int]) is None);
                    }
                    return None;
                },
            }
            i += 1;
        }
        proof {
            assert(addresses.take(i as int) =~= addresses);
        }
        push_text(&mut out, "]");
        Some(string_of(out.as_slice()))
    }
}

/// Asks for a file of a site.
#[derive(Debug, Default)]
pub struct GetFile {
    pub site: String,
    pub inner_path: String,
    pub location: usize,
    pub file_size: usize,
}

/// A part of a file.
#[derive(Debug, Default)]
pub struct GetFileResponse {
    pub body: Vec<u8>,
    pub location: usize,
    pub size: usize,
}

/// Asks for a file as a stream.
#[derive(Debug, Default)]
pub struct StreamFile {
    pub inner_path: String,
    pub size: usize,
}

/// Announces the bytes of a streamed file.
#[derive(Debug, Default)]
pub struct StreamFileResponse {
    pub stream_bytes: usize,
}

/// Exchanges peers of a site.
#[derive(Debug, Default)]
pub struct Pex {
    pub site: String,
    pub peers: Vec<Vec<u8>>,
    pub peers_onion: Vec<Vec<u8>>,
    pub need: usize,
}

/// The peers given in exchange.
#[derive(Debug, Default)]
pub struct PexResponse {
    pub peers: Vec<Vec<u8>>,
    pub peers_onion: Vec<Vec<u8>>,
}

/// Announces a new version of a file.
#[derive(Debug, Default)]
pub struct UpdateFile {
    pub site: String,
    pub inner_path: String,
    pub body: Vec<u8>,
    pub diffs: Vec<Diff>,
}

/// One step of a change to a file.
#[derive(Debug, Default)]
pub struct Diff {
    pub opcode: String,
    pub diff: String,
}

/// Whether the update was taken.
#[derive(Debug, Default)]
pub struct UpdateFileResponse {
    pub ok: bool,
}

/// Asks for the files of a site changed since a time.
#[derive(Debug, Default)]
pub struct ListModified {
    pub site: String,
    pub since: usize,
}

/// The changed files, each with the time of its change.
#[derive(Debug, Default)]
pub struct ListModifiedResponse {
    pub modified_files: HashMap<String, usize>,
}

/// Asks for the hashfield of a site.
#[derive(Debug, Default)]
pub struct GetHashfield {
    pub site: String,
}

/// The hashfield of a site.
#[derive(Debug, Default)]
pub struct GetHashfieldResponse {
    pub hashfield_raw: Vec<u8>,
}

/// Sets the hashfield of a site.
#[derive(Debug, Default)]
pub struct SetHashfield {
    pub site: String,
    pub hashfield_raw: Vec<u8>,
}

/// Whether the hashfield was taken.
#[derive(Debug, Default)]
pub struct SetHashfieldResponse {
    pub ok: bool,
}

/// Asks for the peers that hold given hashes.
#[derive(Debug, Default)]
pub struct FindHashIds {
    pub site: String,
    pub hash_ids: Vec<usize>,
}

/// The peers that hold the hashes, by hash.
#[derive(Debug, Default)]
pub struct FindHashIdsResponse {
    pub peers: HashMap<usize, Vec<Vec<u8>>>,
    pub peers_onion: HashMap<usize, Vec<Vec<u8>>>,
}

/// Asks whether a port can be reached from outside.
#[derive(Debug, Default)]
pub struct Checkport {
    pub port: u16,
}

/// Whether the port can be reached, and the address seen from outside.
#[derive(Debug, Default)]
pub struct CheckportResponse {
    pub status: String,
    pub ip_external: String,
}

/// Asks for the piecefields of a site.
#[derive(Debug, Default)]
pub struct GetPieceFields {
    pub site: String,
}

/// The piecefields of a site.
#[derive(Debug, Default)]
pub struct GetPieceFieldsResponse {
    pub piecefields_packed: Vec<u8>,
}

/// Sets the piecefields of a site.
#[derive(Debug, Default)]
pub struct SetPieceFields {
    pub site: String,
    pub piecefields_packed: Vec<u8>,
}

/// Whether the piecefields were taken.
#[derive(Debug, Default)]
pub struct SetPieceFieldsResponse {
    pub ok: bool,
}

/// The answer to a request that failed.
#[derive(Debug, Default)]
pub struct Error {
    pub error: String,
}

} // verus!
