//! Announce requests as peers send them to the tracker.

use vstd::prelude::*;
use crate::ip::IpAddress;
use crate::text::text_eq;
use crate::{InfoHash, PeerId};

verus! {

/// Value of the `event` field of an announce.
#[derive(Debug, Clone, Copy, PartialEq, Eq, Structural)]
pub enum Event {
    /// The peer has started to download data.
    Started,
    /// The peer has already completed the download.
    Downloaded,
}

impl Event {
    /// The wire token that names this event.
    pub open spec fn token_of(self) -> Seq<char> {
        match self {
            Event::Started => "started"@,
            Event::Downloaded => "downloaded"@,
        }
    }

    /// The event that a wire token names, if any. Tokens are matched exactly,
    /// letter case included.
    pub open spec fn of_token(token: Seq<char>) -> Option<Event> {
        if token == "started"@ {
            Some(Event::Started)
        } else if token == "downloaded"@ {
            Some(Event::Downloaded)
        } else {
            None
        }
    }

    /// The wire token of this event.
    pub fn token(&self) -> (token: &'static str)
        ensures
            token@ == self.token_of(),
    {
        match self {
            Event::Started => "started",
            Event::Downloaded => "downloaded",
        }
    }

    /// Reads an event off its wire token.
    pub fn from_token(token: &str) -> (event: Option<Event>)
        ensures
            event == Event::of_token(token@),
    {
        if text_eq(token, "started") {
            Some(Event::Started)
        } else if text_eq(token, "downloaded") {
            Some(Event::Downloaded)
        } else {
            None
        }
    }

    /// Every event is read back off its own token.
    pub proof fn lemma_token_round_trip(self)
        ensures
            Event::of_token(self.token_of()) == Some(self),
    {
        reveal_strlit("started");
        reveal_strlit("downloaded");
        if self == Event::Downloaded {
            assert("downloaded"@.len() != "started"@.len());
        }
    }
}

/// Mathematical model of an announce.
pub struct AnnounceModel {
    pub info_hash: Seq<char>,
    pub peer_id: Seq<char>,
    pub ip: IpAddress,
    pub port: usize,
    pub uploaded: u64,
    pub downloaded: u64,
    pub left: u64,
    pub compact: bool,
    pub event: Option<Event>,
}

/// A bittorrent announce.
#[derive(Debug)]
pub struct Announce {
    /// The torrent's information hash
    pub info_hash: InfoHash,
    /// A random identifier supplied by the peer
    pub peer_id: PeerId,
    /// The IP address of the peer
    pub ip: IpAddress,
    /// The port used by the peer
    pub port: usize,
    /// The volume of data uploaded by the peer, in bytes
    pub uploaded: u64,
    /// The volume of data downloaded by the peer, in bytes
    pub downloaded: u64,
    /// The volume of data not yet downloaded by the peer, in bytes
    pub left: u64,
    /// Whether the compact format should be used for the answer
    pub compact: bool,
    /// An optional event
    pub event: Option<Event>,
}

impl PartialEq for Announce {
    fn eq(&self, other: &Announce) -> (same: bool) {
        self.info_hash == other.info_hash && self.peer_id == other.peer_id && self.ip == other.ip
            && self.port == other.port && self.uploaded == other.uploaded && self.downloaded
            == other.downloaded && self.left == other.left && self.compact == other.compact
            && self.event == other.event
    }
}

impl Eq for Announce {

}

impl vstd::std_specs::cmp::PartialEqSpecImpl for Announce {
    open spec fn obeys_eq_spec() -> bool {
        true
    }

    open spec fn eq_spec(&self, other: &Announce) -> bool {
        self@ == other@
    }
}

impl View for Announce {
    type V = AnnounceModel;

    open spec fn view(&self) -> AnnounceModel {
        AnnounceModel {
            info_hash: self.info_hash@,
            peer_id: self.peer_id@,
            ip: self.ip,
            port: self.port,
            uploaded: self.uploaded,
            downloaded: self.downloaded,
            left: self.left,
            compact: self.compact,
            event: self.event,
        }
    }
}

} // verus!
