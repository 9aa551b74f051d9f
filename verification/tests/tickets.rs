use poof::ticket::{Ticket, ResponseCode};

fn digest() -> String {
    "abc123def456ghi789jkl012mno345pqr678stu901vwx234yz".to_string()
}

#[test]
fn ticket_query_is_digest_prefix() {
    let t = Ticket::new(digest());
    assert_eq!(t.query, "abc123");
    assert_eq!(t.hash, digest());
    assert!(t.filename.is_none());
}

#[test]
fn generate_query_takes_six_chars() {
    assert_eq!(Ticket::generate_query("abcdefgh"), "abcdef");
}

#[test]
fn with_filename_replaces_only_filename() {
    let t = Ticket::new(digest()).with_filename(Some("notes.txt".to_string()));
    assert_eq!(t.filename.as_deref(), Some("notes.txt"));
    assert_eq!(t.query, "abc123");
}

#[test]
fn ticket_round_trip_with_filename() {
    let t = Ticket::new(digest()).with_filename(Some("notes.txt".to_string()));
    let bytes = t.encode();
    let back = Ticket::decode(&bytes).expect("decodes");
    assert_eq!(back.hash, t.hash);
    assert_eq!(back.query, t.query);
    assert_eq!(back.filename, t.filename);
}

#[test]
fn ticket_round_trip_without_filename() {
    let t = Ticket::new(digest());
    let bytes = t.encode();
    let back = Ticket::decode(&bytes).expect("decodes");
    assert_eq!(back.hash, t.hash);
    assert_eq!(back.query, t.query);
    assert_eq!(back.filename, None);
}

#[test]
fn ticket_decode_rejects_garbage() {
    let garbage = vec![120u8, 121, 122];
    assert!(Ticket::decode(&garbage).is_none());
}

#[test]
fn ticket_decode_rejects_trailing_bytes() {
    let mut bytes = Ticket::new(digest()).encode();
    bytes.push(0);
    assert!(Ticket::decode(&bytes).is_none());
}

#[test]
fn response_code_wire_round_trip() {
    for code in [ResponseCode::Okay, ResponseCode::NotFound, ResponseCode::Error] {
        assert_eq!(ResponseCode::from_u8(code.to_u8()), Some(code));
    }
    assert_eq!(ResponseCode::Okay.to_u8(), 0);
    assert_eq!(ResponseCode::NotFound.to_u8(), 1);
    assert_eq!(ResponseCode::Error.to_u8(), 2);
}

#[test]
fn response_code_unknown_bytes_decode_to_none() {
    assert_eq!(ResponseCode::from_u8(3), None);
    assert_eq!(ResponseCode::from_u8(255), None);
}
