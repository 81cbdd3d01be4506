//! Protocol data layer of a BitTorrent tracker: identifiers, announce
//! requests, responses, and the codec that reads and writes them as wire
//! dictionaries.

use vstd::prelude::*;
use vstd::string::*;

pub mod announce;
pub mod ip;
pub mod ip_laws;
pub mod ip_text;
pub mod response;
pub mod serialize;
pub mod text;
pub mod wire;

use crate::ip::IpAddress;
use crate::text::{
    ascii_lowercase, is_hex_digit, is_lower_hex_digit, lemma_ascii_lowercase_idempotent,
    lemma_hex_in_lower_case, to_ascii_lowercase,
};

verus! {

/// Longest peer id, in characters.
pub const PEER_ID_MAX_LEN: usize = 20;

/// Length of an information hash, in characters.
pub const INFO_HASH_LEN: usize = 40;

/// Indicates a malformed information hash.
#[derive(Debug, PartialEq, Eq, Structural)]
pub struct InfoHashDecodeError;

/// The information hash of a torrent: forty characters, kept in lower case.
#[derive(Debug, Hash)]
pub struct InfoHash {
    text: String,
}

impl View for InfoHash {
    type V = Seq<char>;

    closed spec fn view(&self) -> Seq<char> {
        self.text@
    }
}

impl PartialEq for InfoHash {
    fn eq(&self, other: &InfoHash) -> (same: bool) {
        self.text == other.text
    }
}

impl Eq for InfoHash {

}

impl vstd::std_specs::cmp::PartialEqSpecImpl for InfoHash {
    open spec fn obeys_eq_spec() -> bool {
        true
    }

    open spec fn eq_spec(&self, other: &InfoHash) -> bool {
        self@ == other@
    }
}

impl InfoHash {
    #[verifier::type_invariant]
    spec fn inv(self) -> bool {
        InfoHash::normalized(self.text@)
    }

    /// Whether `text` is an information hash in its normal form.
    pub open spec fn normalized(text: Seq<char>) -> bool {
        text.len() == INFO_HASH_LEN && ascii_lowercase(text) == text
    }

    /// Whether `text` is acceptable as an information hash.
    pub open spec fn accepts(text: Seq<char>) -> bool {
        text.len() == INFO_HASH_LEN
    }

    /// Forty hexadecimal digits are accepted in whatever letter case, and
    /// their normal form is made of lower case hexadecimal digits. A text of
    /// any other length is not accepted.
    pub proof fn lemma_accepts_forty_hex_digits(text: Seq<char>)
        requires
            forall|i: int| 0 <= i < text.len() ==> is_hex_digit(text[i]),
        ensures
            InfoHash::accepts(text) <==> text.len() == 40,
            InfoHash::accepts(text) ==> InfoHash::normalized(ascii_lowercase(text)),
            forall|i: int|
                0 <= i < text.len() ==> is_lower_hex_digit(#[trigger] ascii_lowercase(text)[i]),
    {
        lemma_hex_in_lower_case(text);
        lemma_ascii_lowercase_idempotent(text);
    }

    /// Validates `text` as an information hash: it is put in lower case and
    /// must then be exactly forty characters long.
    pub fn parse(text: &str) -> (r: Result<InfoHash, InfoHashDecodeError>)
        ensures
            InfoHash::accepts(text@) ==> (r matches Ok(hash) && hash@ == ascii_lowercase(text@)
                && InfoHash::normalized(hash@)),
            !InfoHash::accepts(text@) ==> r is Err,
    {
        let hash = to_ascii_lowercase(text);
        if hash.as_str().unicode_len() == INFO_HASH_LEN {
            proof {
                lemma_ascii_lowercase_idempotent(text@);
            }
            Ok(InfoHash { text: hash })
        } else {
            Err(InfoHashDecodeError)
        }
    }

    /// The hash in its normal form.
    pub fn as_str(&self) -> (text: &str)
        ensures
            text@ == self@,
            InfoHash::normalized(self@),
    {
        proof {
            use_type_invariant(self);
        }
        self.text.as_str()
    }

    /// Gives up the hash for its text.
    pub fn into_string(self) -> (text: String)
        ensures
            text@ == self@,
            InfoHash::normalized(self@),
    {
        proof {
            use_type_invariant(&self);
        }
        self.text
    }
}

/// Indicates a malformed peer id.
#[derive(Debug, PartialEq, Eq, Structural)]
pub struct PeerIdDecodeError;

/// A random string used to identify a peer.
#[derive(Debug, Hash)]
pub struct PeerId {
    text: String,
}

impl View for PeerId {
    type V = Seq<char>;

    closed spec fn view(&self) -> Seq<char> {
        self.text@
    }
}

impl PartialEq for PeerId {
    fn eq(&self, other: &PeerId) -> (same: bool) {
        self.text == other.text
    }
}

impl Eq for PeerId {

}

impl vstd::std_specs::cmp::PartialEqSpecImpl for PeerId {
    open spec fn obeys_eq_spec() -> bool {
        true
    }

    open spec fn eq_spec(&self, other: &PeerId) -> bool {
        self@ == other@
    }
}

impl PeerId {
    /// The identifier as the peer supplied it.
    pub fn as_str(&self) -> (text: &str)
        ensures
            text@ == self@,
            PeerId::accepts(self@),
    {
        proof {
            use_type_invariant(self);
        }
        self.text.as_str()
    }

    /// Gives up the identifier for its text.
    pub fn into_string(self) -> (text: String)
        ensures
            text@ == self@,
            PeerId::accepts(self@),
    {
        proof {
            use_type_invariant(&self);
        }
        self.text
    }

    #[verifier::type_invariant]
    spec fn inv(self) -> bool {
        self.text@.len() <= PEER_ID_MAX_LEN
    }

    /// Whether `text` is acceptable as a peer id.
    pub open spec fn accepts(text: Seq<char>) -> bool {
        text.len() <= PEER_ID_MAX_LEN
    }

    /// Validates `text` as a peer id: any text of at most twenty characters.
    pub fn parse(text: &str) -> (r: Result<PeerId, PeerIdDecodeError>)
        ensures
            PeerId::accepts(text@) ==> (r matches Ok(id) && id@ == text@),
            !PeerId::accepts(text@) ==> r is Err,
    {
        if text.unicode_len() <= PEER_ID_MAX_LEN {
            Ok(PeerId { text: text.to_owned() })
        } else {
            Err(PeerIdDecodeError)
        }
    }
}

impl core::str::FromStr for PeerId {
    type Err = PeerIdDecodeError;

    fn from_str(text: &str) -> (r: Result<PeerId, PeerIdDecodeError>)
        ensures
            PeerId::accepts(text@) ==> (r matches Ok(id) && id@ == text@),
            !PeerId::accepts(text@) ==> r is Err,
    {
        PeerId::parse(text)
    }
}

impl core::str::FromStr for InfoHash {
    type Err = InfoHashDecodeError;

    fn from_str(text: &str) -> (r: Result<InfoHash, InfoHashDecodeError>)
        ensures
            InfoHash::accepts(text@) ==> (r matches Ok(hash) && hash@ == ascii_lowercase(text@)),
            !InfoHash::accepts(text@) ==> r is Err,
    {
        InfoHash::parse(text)
    }
}

impl AsRef<str> for PeerId {
    fn as_ref(&self) -> (text: &str)
        ensures
            text@ == self@,
    {
        self.as_str()
    }
}

impl AsRef<str> for InfoHash {
    fn as_ref(&self) -> (text: &str)
        ensures
            text@ == self@,
    {
        self.as_str()
    }
}

impl From<PeerId> for String {
    fn from(id: PeerId) -> (text: String)
        ensures
            text@ == id@,
    {
        id.text
    }
}

impl From<InfoHash> for String {
    fn from(hash: InfoHash) -> (text: String)
        ensures
            text@ == hash@,
    {
        hash.text
    }
}

impl vstd::std_specs::convert::FromSpecImpl<InfoHash> for String {
    open spec fn obeys_from_spec() -> bool {
        true
    }

    closed spec fn from_spec(hash: InfoHash) -> String {
        hash.text
    }
}

impl vstd::std_specs::convert::FromSpecImpl<PeerId> for String {
    open spec fn obeys_from_spec() -> bool {
        true
    }

    closed spec fn from_spec(id: PeerId) -> String {
        id.text
    }
}

/// Mathematical model of a peer.
pub struct PeerModel {
    pub peer_id: Seq<char>,
    pub ip: IpAddress,
    pub port: usize,
}

/// A torrent peer.
#[derive(Debug)]
pub struct Peer {
    /// The random string used to identify the peer.
    pub peer_id: PeerId,
    /// The peer's ip address.
    pub ip: IpAddress,
    /// The peer's port.
    pub port: usize,
}

impl PartialEq for Peer {
    fn eq(&self, other: &Peer) -> (same: bool) {
        self.peer_id == other.peer_id && self.ip == other.ip && self.port == other.port
    }
}

impl Eq for Peer {

}

impl vstd::std_specs::cmp::PartialEqSpecImpl for Peer {
    open spec fn obeys_eq_spec() -> bool {
        true
    }

    open spec fn eq_spec(&self, other: &Peer) -> bool {
        self@ == other@
    }
}

impl View for Peer {
    type V = PeerModel;

    open spec fn view(&self) -> PeerModel {
        PeerModel { peer_id: self.peer_id@, ip: self.ip, port: self.port }
    }
}

} // verus!
