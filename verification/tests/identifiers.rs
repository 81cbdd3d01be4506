use std::str::FromStr;

use bt_tracker::{InfoHash, InfoHashDecodeError, PeerId, PeerIdDecodeError};

#[test]
fn parse_peer_id() {
    assert_eq!(
        PeerId::from_str("-TR292Z-VxeLvpTD5X90").map(|p| p.into()),
        Ok("-TR292Z-VxeLvpTD5X90".to_string())
    );
    assert_eq!(PeerId::from_str("-TR292Z-VxeLvpTD5X90x"), Err(PeerIdDecodeError));
}

#[test]
fn parse_info_hash() {
    assert_eq!(
        InfoHash::from_str("a94A8fe5CCb19ba61c4c0873d391E987982fbbd3").map(|p| p.into()),
        Ok("a94a8fe5ccb19ba61c4c0873d391e987982fbbd3".to_string())
    );
    assert_eq!(
        InfoHash::from_str("a94a8fe5ccb19ba61c4c0873d391e987982fbbd3lol"),
        Err(InfoHashDecodeError)
    );
}

#[test]
fn peer_id_keeps_any_short_text() {
    for text in ["", "a", "-TR292Z-VxeLvpTD5X90", "with space and \u{e9}", "01234567890123456789"] {
        let id = PeerId::parse(text).unwrap();
        assert_eq!(id.as_str(), text);
        assert_eq!(id.as_ref() as &str, text);
        assert_eq!(id.into_string(), text.to_string());
    }
}

#[test]
fn peer_id_rejects_long_text() {
    assert_eq!(PeerId::parse("012345678901234567890"), Err(PeerIdDecodeError));
    assert_eq!(
        PeerId::parse("a text that runs on for far more than twenty characters"),
        Err(PeerIdDecodeError)
    );
}

#[test]
fn peer_id_counts_characters() {
    let twenty = "\u{e9}".repeat(20);
    assert_eq!(PeerId::parse(&twenty).unwrap().as_str(), twenty);
    let twenty_one = "\u{e9}".repeat(21);
    assert_eq!(PeerId::parse(&twenty_one), Err(PeerIdDecodeError));
}

#[test]
fn peer_id_parses_through_from_str() {
    let id: PeerId = "-TR292Z-xa8w76ay04uq".parse().unwrap();
    assert_eq!(id, PeerId::parse("-TR292Z-xa8w76ay04uq").unwrap());
    assert_ne!(id, PeerId::parse("-TR292Z-xa8w76ay04uQ").unwrap());
}

#[test]
fn info_hash_is_put_in_lower_case() {
    let hash = InfoHash::parse("A415AB5CC17C8C093C015CCDB7E552AEE7911AA4").unwrap();
    assert_eq!(hash.as_str(), "a415ab5cc17c8c093c015ccdb7e552aee7911aa4");
    assert_eq!(hash.as_ref() as &str, "a415ab5cc17c8c093c015ccdb7e552aee7911aa4");
    assert_eq!(hash.into_string(), "a415ab5cc17c8c093c015ccdb7e552aee7911aa4".to_string());
}

#[test]
fn info_hash_of_thirty_nine_characters_is_rejected() {
    assert_eq!(
        InfoHash::parse("A415AB5CC17C8C093C015CCDB7E552AEE7911AA"),
        Err(InfoHashDecodeError)
    );
}

#[test]
fn info_hash_rejects_other_lengths() {
    assert_eq!(InfoHash::parse(""), Err(InfoHashDecodeError));
    assert_eq!(
        InfoHash::parse("a94a8fe5ccb19ba61c4c0873d391e987982fbbd"),
        Err(InfoHashDecodeError)
    );
    assert_eq!(
        InfoHash::parse("a94a8fe5ccb19ba61c4c0873d391e987982fbbd3abc"),
        Err(InfoHashDecodeError)
    );
}

#[test]
fn info_hash_equality_ignores_letter_case() {
    let lower = InfoHash::parse("a94a8fe5ccb19ba61c4c0873d391e987982fbbd3").unwrap();
    let upper = InfoHash::parse("A94A8FE5CCB19BA61C4C0873D391E987982FBBD3").unwrap();
    let mixed: InfoHash = "a94A8fe5CCb19ba61c4c0873d391E987982fbbd3".parse().unwrap();
    assert_eq!(lower, upper);
    assert_eq!(lower, mixed);
    let other = InfoHash::parse("b94a8fe5ccb19ba61c4c0873d391e987982fbbd3").unwrap();
    assert_ne!(lower, other);
}

#[test]
fn info_hash_lower_cases_ascii_letters_only() {
    let text = "\u{c9}Z".to_string() + &"0".repeat(38);
    let hash = InfoHash::parse(&text).unwrap();
    assert_eq!(hash.as_str(), "\u{c9}z".to_string() + &"0".repeat(38));
}

#[test]
fn info_hash_hashes_by_its_normal_form() {
    let mut seen = std::collections::HashSet::new();
    assert!(seen.insert(InfoHash::parse("a94a8fe5ccb19ba61c4c0873d391e987982fbbd3").unwrap()));
    assert!(!seen.insert(InfoHash::parse("A94A8FE5CCB19BA61C4C0873D391E987982FBBD3").unwrap()));
    assert!(seen.insert(InfoHash::parse("b94a8fe5ccb19ba61c4c0873d391e987982fbbd3").unwrap()));
    assert_eq!(seen.len(), 2);
}
