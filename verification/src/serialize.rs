//! The codec: typed values read off wire dictionaries and written as them.

use vstd::prelude::*;
use crate::announce::{Announce, AnnounceModel, Event};
use crate::ip::IpAddress;
use crate::wire::{Wire, WireValue};
use crate::response::{Response, ResponseModel};
use crate::wire::fields_of;
use crate::{InfoHash, Peer, PeerId, PeerModel};

verus! {

/// The named fields of an announce record.
#[derive(Debug, Clone, Copy, PartialEq, Eq, Structural)]
pub enum Field {
    InfoHash,
    PeerId,
    Ip,
    Port,
    Uploaded,
    Downloaded,
    Left,
    Compact,
    Event,
}

impl Field {
    /// The name under which the field stands in a wire dictionary.
    pub open spec fn name_of(self) -> Seq<char> {
        match self {
            Field::InfoHash => "info_hash"@,
            Field::PeerId => "peer_id"@,
            Field::Ip => "ip"@,
            Field::Port => "port"@,
            Field::Uploaded => "uploaded"@,
            Field::Downloaded => "downloaded"@,
            Field::Left => "left"@,
            Field::Compact => "compact"@,
            Field::Event => "event"@,
        }
    }

    /// The name under which the field stands in a wire dictionary.
    pub fn name(&self) -> (name: &'static str)
        ensures
            name@ == self.name_of(),
    {
        match self {
            Field::InfoHash => "info_hash",
            Field::PeerId => "peer_id",
            Field::Ip => "ip",
            Field::Port => "port",
            Field::Uploaded => "uploaded",
            Field::Downloaded => "downloaded",
            Field::Left => "left",
            Field::Compact => "compact",
            Field::Event => "event",
        }
    }
}

/// Why a wire record was rejected.
#[derive(Debug, Clone, Copy, PartialEq, Eq, Structural)]
pub enum DecodeError {
    /// A required field is absent, or a field holds a value that is not of
    /// its wire type.
    MalformedField(Field),
    /// The information hash is not forty characters long.
    MalformedInfoHash,
    /// The peer id is longer than twenty characters.
    MalformedPeerId,
    /// The ip is no IP address literal.
    MalformedIp,
    /// The event is none of the known tokens.
    MalformedEvent,
}

/// The text that a record holds in a required text field.
pub open spec fn text_of(record: Wire, field: Field) -> Result<Seq<char>, DecodeError> {
    match record.field(field.name_of()) {
        Some(Wire::Text(text)) => Ok(text),
        _ => Err(DecodeError::MalformedField(field)),
    }
}

/// The number that a record holds in a required integer field: an integer
/// from zero up to `most`.
pub open spec fn integer_of(record: Wire, field: Field, most: int) -> Result<int, DecodeError> {
    match record.field(field.name_of()) {
        Some(Wire::Integer(n)) => if 0 <= n <= most {
            Ok(n)
        } else {
            Err(DecodeError::MalformedField(field))
        },
        _ => Err(DecodeError::MalformedField(field)),
    }
}

/// The information hash of a record, in normal form.
pub open spec fn info_hash_of(record: Wire) -> Result<Seq<char>, DecodeError> {
    match text_of(record, Field::InfoHash) {
        Ok(text) => if InfoHash::accepts(text) {
            Ok(crate::text::ascii_lowercase(text))
        } else {
            Err(DecodeError::MalformedInfoHash)
        },
        Err(e) => Err(e),
    }
}

/// The peer id of a record.
pub open spec fn peer_id_of(record: Wire) -> Result<Seq<char>, DecodeError> {
    match text_of(record, Field::PeerId) {
        Ok(text) => if PeerId::accepts(text) {
            Ok(text)
        } else {
            Err(DecodeError::MalformedPeerId)
        },
        Err(e) => Err(e),
    }
}

/// The IP address of a record.
pub open spec fn ip_of(record: Wire) -> Result<IpAddress, DecodeError> {
    match text_of(record, Field::Ip) {
        Ok(text) => match IpAddress::of_text(text) {
            Some(ip) => Ok(ip),
            None => Err(DecodeError::MalformedIp),
        },
        Err(e) => Err(e),
    }
}

/// The port of a record.
pub open spec fn port_of(record: Wire) -> Result<usize, DecodeError> {
    match integer_of(record, Field::Port, usize::MAX as int) {
        Ok(n) => Ok(n as usize),
        Err(e) => Err(e),
    }
}

/// The byte count that a record holds in one of its counter fields.
pub open spec fn count_of(record: Wire, field: Field) -> Result<u64, DecodeError> {
    match integer_of(record, field, u64::MAX as int) {
        Ok(n) => Ok(n as u64),
        Err(e) => Err(e),
    }
}

/// Whether a record asks for the compact format: `false` where it does not
/// say.
pub open spec fn compact_of(record: Wire) -> Result<bool, DecodeError> {
    match record.field(Field::Compact.name_of()) {
        None => Ok(false),
        Some(Wire::Boolean(compact)) => Ok(compact),
        Some(_) => Err(DecodeError::MalformedField(Field::Compact)),
    }
}

/// The event of a record: none where it names none.
pub open spec fn event_of(record: Wire) -> Result<Option<Event>, DecodeError> {
    match record.field(Field::Event.name_of()) {
        None => Ok(None),
        Some(Wire::Text(token)) => match Event::of_token(token) {
            Some(event) => Ok(Some(event)),
            None => Err(DecodeError::MalformedEvent),
        },
        Some(_) => Err(DecodeError::MalformedField(Field::Event)),
    }
}

/// The announce that a wire record denotes. The fields are taken in the
/// order info_hash, peer_id, ip, port, uploaded, downloaded, left, compact,
/// event, and the first one that fails decides the error.
pub open spec fn announce_of(record: Wire) -> Result<AnnounceModel, DecodeError> {
    if info_hash_of(record) is Err {
        Err(info_hash_of(record)->Err_0)
    } else if peer_id_of(record) is Err {
        Err(peer_id_of(record)->Err_0)
    } else if ip_of(record) is Err {
        Err(ip_of(record)->Err_0)
    } else if port_of(record) is Err {
        Err(port_of(record)->Err_0)
    } else if count_of(record, Field::Uploaded) is Err {
        Err(count_of(record, Field::Uploaded)->Err_0)
    } else if count_of(record, Field::Downloaded) is Err {
        Err(count_of(record, Field::Downloaded)->Err_0)
    } else if count_of(record, Field::Left) is Err {
        Err(count_of(record, Field::Left)->Err_0)
    } else if compact_of(record) is Err {
        Err(compact_of(record)->Err_0)
    } else if event_of(record) is Err {
        Err(event_of(record)->Err_0)
    } else {
        Ok(
            AnnounceModel {
                info_hash: info_hash_of(record)->Ok_0,
                peer_id: peer_id_of(record)->Ok_0,
                ip: ip_of(record)->Ok_0,
                port: port_of(record)->Ok_0,
                uploaded: count_of(record, Field::Uploaded)->Ok_0,
                downloaded: count_of(record, Field::Downloaded)->Ok_0,
                left: count_of(record, Field::Left)->Ok_0,
                compact: compact_of(record)->Ok_0,
                event: event_of(record)->Ok_0,
            },
        )
    }
}

/// A record that does not say whether it wants the compact format is read
/// as not wanting it.
pub proof fn lemma_compact_defaults_to_false(record: Wire)
    requires
        record.field(Field::Compact.name_of()) is None,
    ensures
        compact_of(record) == Ok::<bool, DecodeError>(false),
        announce_of(record) matches Ok(announce) ==> !announce.compact,
{
}

/// A record whose event is the token `started` has that event, and it is
/// kept where the record is an announce. A record whose event is `stopped`,
/// a token that names no event, is rejected.
pub proof fn lemma_event_tokens(record: Wire)
    ensures
        record.field(Field::Event.name_of()) == Some(Wire::Text("started"@)) ==> event_of(record)
            == Ok::<Option<Event>, DecodeError>(Some(Event::Started)) && (announce_of(record)
            matches Ok(announce) ==> announce.event == Some(Event::Started)),
        record.field(Field::Event.name_of()) == Some(Wire::Text("stopped"@)) ==> event_of(record)
            == Err::<Option<Event>, DecodeError>(DecodeError::MalformedEvent) && announce_of(
            record,
        ) is Err,
{
    reveal_strlit("started");
    reveal_strlit("downloaded");
    reveal_strlit("stopped");
    assert("stopped"@[2] == 'o');
    assert("started"@[2] == 'a');
    assert("downloaded"@.len() == 10);
    assert("stopped"@.len() == 7);
}

/// Reads a required text field.
fn read_text<'a>(record: &'a WireValue, field: Field) -> (r: Result<&'a str, DecodeError>)
    ensures
        match r {
            Ok(text) => text_of(record@, field) == Ok::<Seq<char>, DecodeError>(text@),
            Err(e) => text_of(record@, field) == Err::<Seq<char>, DecodeError>(e),
        },
{
    match record.get(field.name()) {
        Some(WireValue::Text(text)) => Ok(text.as_str()),
        _ => Err(DecodeError::MalformedField(field)),
    }
}

/// Reads a required integer field that holds a number up to `most`.
fn read_integer(record: &WireValue, field: Field, most: u64) -> (r: Result<u64, DecodeError>)
    ensures
        match r {
            Ok(n) => integer_of(record@, field, most as int) == Ok::<int, DecodeError>(n as int),
            Err(e) => integer_of(record@, field, most as int) == Err::<int, DecodeError>(e),
        },
{
    match record.get(field.name()) {
        Some(WireValue::Integer(n)) => {
            if 0 <= *n && *n <= most as i128 {
                Ok(*n as u64)
            } else {
                Err(DecodeError::MalformedField(field))
            }
        },
        _ => Err(DecodeError::MalformedField(field)),
    }
}

impl InfoHash {
    /// Reads the information hash of a wire record.
    pub fn decode(record: &WireValue) -> (r: Result<InfoHash, DecodeError>)
        ensures
            match r {
                Ok(hash) => info_hash_of(record@) == Ok::<Seq<char>, DecodeError>(hash@),
                Err(e) => info_hash_of(record@) == Err::<Seq<char>, DecodeError>(e),
            },
    {
        let text = read_text(record, Field::InfoHash)?;
        match InfoHash::parse(text) {
            Ok(hash) => Ok(hash),
            Err(_) => Err(DecodeError::MalformedInfoHash),
        }
    }

    /// The information hash as a wire value: its text.
    pub fn encode(&self) -> (value: WireValue)
        ensures
            value@ == Wire::Text(self@),
    {
        WireValue::Text(self.as_str().to_owned())
    }
}

impl PeerId {
    /// Reads the peer id of a wire record.
    pub fn decode(record: &WireValue) -> (r: Result<PeerId, DecodeError>)
        ensures
            match r {
                Ok(id) => peer_id_of(record@) == Ok::<Seq<char>, DecodeError>(id@),
                Err(e) => peer_id_of(record@) == Err::<Seq<char>, DecodeError>(e),
            },
    {
        let text = read_text(record, Field::PeerId)?;
        match PeerId::parse(text) {
            Ok(id) => Ok(id),
            Err(_) => Err(DecodeError::MalformedPeerId),
        }
    }

    /// The peer id as a wire value: its text.
    pub fn encode(&self) -> (value: WireValue)
        ensures
            value@ == Wire::Text(self@),
    {
        WireValue::Text(self.as_str().to_owned())
    }
}

impl IpAddress {
    /// Reads the IP address of a wire record.
    pub fn decode(record: &WireValue) -> (r: Result<IpAddress, DecodeError>)
        ensures
            r == ip_of(record@),
    {
        let text = read_text(record, Field::Ip)?;
        match IpAddress::parse(text) {
            Ok(ip) => Ok(ip),
            Err(_) => Err(DecodeError::MalformedIp),
        }
    }

    /// The address as a wire value: its text literal.
    pub fn encode(&self) -> (value: WireValue)
        ensures
            value@ == Wire::Text(self.literal()),
    {
        WireValue::Text(self.to_text())
    }
}

impl Event {
    /// Reads the event of a wire record, if it names one.
    pub fn decode(record: &WireValue) -> (r: Result<Option<Event>, DecodeError>)
        ensures
            r == event_of(record@),
    {
        match record.get(Field::Event.name()) {
            None => Ok(None),
            Some(WireValue::Text(token)) => match Event::from_token(token.as_str()) {
                Some(event) => Ok(Some(event)),
                None => Err(DecodeError::MalformedEvent),
            },
            Some(_) => Err(DecodeError::MalformedField(Field::Event)),
        }
    }

    /// The event as a wire value: its token.
    pub fn encode(&self) -> (value: WireValue)
        ensures
            value@ == Wire::Text(self.token_of()),
    {
        WireValue::Text(self.token().to_owned())
    }
}

/// Reads the port of a wire record.
fn decode_port(record: &WireValue) -> (r: Result<usize, DecodeError>)
    ensures
        r == port_of(record@),
{
    let port = read_integer(record, Field::Port, usize::MAX as u64)?;
    Ok(port as usize)
}

/// Reads whether a wire record asks for the compact format.
fn decode_compact(record: &WireValue) -> (r: Result<bool, DecodeError>)
    ensures
        r == compact_of(record@),
{
    match record.get(Field::Compact.name()) {
        None => Ok(false),
        Some(WireValue::Boolean(compact)) => Ok(*compact),
        Some(_) => Err(DecodeError::MalformedField(Field::Compact)),
    }
}

impl Announce {
    /// Reads an announce off a wire record. Either every field is valid or
    /// the record is rejected with the error of the first field that is not.
    pub fn decode(record: &WireValue) -> (r: Result<Announce, DecodeError>)
        ensures
            match r {
                Ok(announce) => announce_of(record@) == Ok::<AnnounceModel, DecodeError>(announce@),
                Err(e) => announce_of(record@) == Err::<AnnounceModel, DecodeError>(e),
            },
    {
        let info_hash = InfoHash::decode(record)?;
        let peer_id = PeerId::decode(record)?;
        let ip = IpAddress::decode(record)?;
        let port = decode_port(record)?;
        let uploaded = read_integer(record, Field::Uploaded, u64::MAX)?;
        let downloaded = read_integer(record, Field::Downloaded, u64::MAX)?;
        let left = read_integer(record, Field::Left, u64::MAX)?;
        let compact = decode_compact(record)?;
        let event = Event::decode(record)?;
        Ok(Announce { info_hash, peer_id, ip, port, uploaded, downloaded, left, compact, event })
    }
}

/// The wire record of a peer: its `peer_id` as text, its `ip` as a text
/// literal, its `port` as an integer.
pub open spec fn peer_wire(peer: PeerModel) -> Wire {
    Wire::Dict(
        Map::empty().insert(Field::PeerId.name_of(), Wire::Text(peer.peer_id)).insert(
            Field::Ip.name_of(),
            Wire::Text(peer.ip.literal()),
        ).insert(Field::Port.name_of(), Wire::Integer(peer.port as int)),
    )
}

/// The peer that a wire record denotes. The fields are taken in the order
/// peer_id, ip, port, and the first one that fails decides the error.
pub open spec fn peer_of(record: Wire) -> Result<PeerModel, DecodeError> {
    if peer_id_of(record) is Err {
        Err(peer_id_of(record)->Err_0)
    } else if ip_of(record) is Err {
        Err(ip_of(record)->Err_0)
    } else if port_of(record) is Err {
        Err(port_of(record)->Err_0)
    } else {
        Ok(
            PeerModel {
                peer_id: peer_id_of(record)->Ok_0,
                ip: ip_of(record)->Ok_0,
                port: port_of(record)->Ok_0,
            },
        )
    }
}

/// The name of the reason in a failure response.
pub open spec fn failure_reason_name() -> Seq<char> {
    "failure_reason"@
}

/// The name of the refresh interval in a peer list.
pub open spec fn interval_name() -> Seq<char> {
    "interval"@
}

/// The name of the peers in a peer list.
pub open spec fn peers_name() -> Seq<char> {
    "peers"@
}

/// The wire dictionary of a response. A failure has one field, its reason,
/// and none where no reason is given. A peer list has its interval and the
/// records of its peers, in their order.
pub open spec fn response_wire(response: ResponseModel) -> Wire {
    match response {
        ResponseModel::Error { failure_reason: None } => Wire::Dict(Map::empty()),
        ResponseModel::Error { failure_reason: Some(reason) } => Wire::Dict(
            Map::empty().insert(failure_reason_name(), Wire::Text(reason)),
        ),
        ResponseModel::PeerList { interval, peers } => Wire::Dict(
            Map::empty().insert(interval_name(), Wire::Integer(interval as int)).insert(
                peers_name(),
                Wire::List(peers.map_values(|peer: PeerModel| peer_wire(peer))),
            ),
        ),
    }
}

/// A failure without a reason is written without the field for it.
pub proof fn lemma_no_reason_no_field()
    ensures
        response_wire(ResponseModel::Error { failure_reason: None }).field(failure_reason_name())
            is None,
        response_wire(ResponseModel::Error { failure_reason: None }) == Wire::Dict(Map::empty()),
{
}

/// The names of the fields of a peer record differ from one another.
proof fn lemma_peer_names_differ()
    ensures
        Field::PeerId.name_of() != Field::Ip.name_of(),
        Field::PeerId.name_of() != Field::Port.name_of(),
        Field::Ip.name_of() != Field::Port.name_of(),
{
    reveal_strlit("peer_id");
    reveal_strlit("ip");
    reveal_strlit("port");
    assert("peer_id"@.len() == 7);
    assert("ip"@.len() == 2);
    assert("port"@.len() == 4);
}

/// A peer that is written as a wire record and read again is the same
/// peer: its peer id, its ip and its port are kept.
pub proof fn lemma_peer_reads_back(peer: PeerModel)
    requires
        PeerId::accepts(peer.peer_id),
    ensures
        peer_of(peer_wire(peer)) == Ok::<PeerModel, DecodeError>(peer),
{
    lemma_peer_names_differ();
    peer.ip.lemma_literal_reads_back();
    let record = peer_wire(peer);
    assert(record.field(Field::PeerId.name_of()) == Some(Wire::Text(peer.peer_id)));
    assert(record.field(Field::Ip.name_of()) == Some(Wire::Text(peer.ip.literal())));
    assert(record.field(Field::Port.name_of()) == Some(Wire::Integer(peer.port as int)));
}

impl Peer {
    /// Writes the peer as a wire record.
    pub fn encode(&self) -> (record: WireValue)
        ensures
            record@ == peer_wire(self@),
    {
        let mut entries: Vec<(String, WireValue)> = Vec::new();
        entries.push((Field::PeerId.name().to_owned(), self.peer_id.encode()));
        entries.push((Field::Ip.name().to_owned(), self.ip.encode()));
        entries.push((Field::Port.name().to_owned(), WireValue::Integer(self.port as i128)));
        proof {
            lemma_peer_names_differ();
            reveal_with_fuel(fields_of, 4);
            let rest1 = entries@.drop_first();
            let rest2 = rest1.drop_first();
            assert(rest2.drop_first().len() == 0);
            assert(fields_of(entries@) =~= peer_wire(self@)->Dict_0);
        }
        WireValue::Dict(entries)
    }

    /// Reads a peer off a wire record.
    pub fn decode(record: &WireValue) -> (r: Result<Peer, DecodeError>)
        ensures
            match r {
                Ok(peer) => peer_of(record@) == Ok::<PeerModel, DecodeError>(peer@),
                Err(e) => peer_of(record@) == Err::<PeerModel, DecodeError>(e),
            },
    {
        let peer_id = PeerId::decode(record)?;
        let ip = IpAddress::decode(record)?;
        let port = decode_port(record)?;
        Ok(Peer { peer_id, ip, port })
    }
}

impl Response {
    /// Writes the response as a wire dictionary.
    pub fn encode(&self) -> (record: WireValue)
        ensures
            record@ == response_wire(self@),
    {
        let mut entries: Vec<(String, WireValue)> = Vec::new();
        match self {
            Response::Error { failure_reason: None } => {
                assert(fields_of(entries@) =~= Map::empty());
            },
            Response::Error { failure_reason: Some(reason) } => {
                entries.push(("failure_reason".to_owned(), WireValue::Text(reason.clone())));
                proof {
                    reveal_with_fuel(fields_of, 2);
                    assert(entries@.drop_first().len() == 0);
                    assert(fields_of(entries@) =~= response_wire(self@)->Dict_0);
                }
            },
            Response::PeerList { interval, peers } => {
                let mut records: Vec<WireValue> = Vec::new();
                let mut i: usize = 0;
                while i < peers.len()
                    invariant
                        i <= peers.len(),
                        records.len() == i,
                        forall|k: int| 0 <= k < i ==> (#[trigger] records@[k])@ == peer_wire(peers@[k]@),
                    decreases peers.len() - i,
                {
                    records.push(peers[i].encode());
                    i = i + 1;
                }
                let list = WireValue::List(records);
                assert(list@ == Wire::List(
                    self@->PeerList_peers.map_values(|peer: PeerModel| peer_wire(peer)),
                )) by {
                    assert(list@->List_0 =~= self@->PeerList_peers.map_values(
                        |peer: PeerModel| peer_wire(peer),
                    ));
                }
                entries.push(("interval".to_owned(), WireValue::Integer(*interval as i128)));
                entries.push(("peers".to_owned(), list));
                proof {
                    reveal_strlit("interval");
                    reveal_strlit("peers");
                    assert("interval"@.len() == 8);
                    assert("peers"@.len() == 5);
                    reveal_with_fuel(fields_of, 3);
                    assert(entries@.drop_first().drop_first().len() == 0);
                    assert(fields_of(entries@) =~= response_wire(self@)->Dict_0);
                }
            },
        }
        WireValue::Dict(entries)
    }
}

} // verus!
