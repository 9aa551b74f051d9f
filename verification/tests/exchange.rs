use poof::error::PoofError;
use poof::protocol::{
    server_response, client_evaluate, encode_request, encode_response, connect_failure_decision,
    CatchOutcome, ConnectDecision, CONNECT_RETRIES, CONNECT_RETRY_DELAY_MS,
};
use poof::registry::TicketRegistry;
use poof::ticket::ResponseCode;

fn digest() -> String {
    "abc123def456ghi789jkl012mno345pqr678stu901vwx234yz".to_string()
}

fn serving_registry() -> TicketRegistry {
    let mut reg = TicketRegistry::new();
    reg.register_drop(digest(), Some("notes.txt".to_string()));
    reg
}

#[test]
fn server_serves_a_held_ticket_and_client_decodes_it() {
    let reg = serving_registry();
    let query = b"abc123".to_vec();
    let (code, body) = server_response(&reg, 6, query).expect("no protocol error");
    assert_eq!(code.to_u8(), ResponseCode::Okay.to_u8());
    match client_evaluate(code.to_u8(), &body) {
        CatchOutcome::Download(t) => {
            assert_eq!(t.hash, digest());
            assert_eq!(t.query, "abc123");
            assert_eq!(t.filename.as_deref(), Some("notes.txt"));
        },
        other => panic!("expected a download, got {:?}", other),
    }
}

#[test]
fn absent_query_gets_not_found_with_empty_body() {
    let reg = serving_registry();
    let (code, body) = server_response(&reg, 6, b"zzzzzz".to_vec()).expect("no protocol error");
    assert_eq!(code.to_u8(), ResponseCode::NotFound.to_u8());
    assert!(body.is_empty());
    assert!(matches!(client_evaluate(code.to_u8(), &body), CatchOutcome::NotFound));
}

#[test]
fn zero_length_query_short_circuits_to_error() {
    let reg = serving_registry();
    let (code, body) = server_response(&reg, 0, Vec::new()).expect("no protocol error");
    assert_eq!(code.to_u8(), ResponseCode::Error.to_u8());
    assert!(body.is_empty());
    assert!(matches!(client_evaluate(code.to_u8(), &body), CatchOutcome::ServerError));
}

#[test]
fn invalid_utf8_query_is_a_protocol_error() {
    let reg = serving_registry();
    let err = server_response(&reg, 2, vec![0xff, 0xfe]).expect_err("bad bytes");
    assert!(matches!(err, PoofError::Protocol { .. }));
    assert_eq!(err.category(), "protocol");
}

#[test]
fn unrecognized_code_or_garbled_body_is_a_violation() {
    assert!(matches!(client_evaluate(7, &Vec::new()), CatchOutcome::ProtocolViolation));
    assert!(matches!(client_evaluate(255, &Vec::new()), CatchOutcome::ProtocolViolation));
    let garbage = vec![1u8, 2, 3];
    assert!(matches!(client_evaluate(0, &garbage), CatchOutcome::ProtocolViolation));
}

#[test]
fn request_frame_is_length_prefixed() {
    let frame = encode_request(&"abc123".to_string());
    assert_eq!(frame, vec![0, 0, 0, 6, 97, 98, 99, 49, 50, 51]);
}

#[test]
fn response_frame_is_code_then_length_then_body() {
    let body = vec![9u8, 8, 7];
    let frame = encode_response(ResponseCode::Okay, &body);
    assert_eq!(frame, vec![0, 0, 0, 0, 3, 9, 8, 7]);
    let empty = encode_response(ResponseCode::NotFound, &Vec::new());
    assert_eq!(empty, vec![1, 0, 0, 0, 0]);
}

#[test]
fn two_failures_then_success_wait_about_four_seconds() {
    let mut attempts: usize = 0;
    let mut waited: u64 = 0;
    for _ in 0..2 {
        match connect_failure_decision(attempts, CONNECT_RETRIES) {
            ConnectDecision::Retry { next_attempts, delay_ms } => {
                attempts = next_attempts;
                waited += delay_ms;
            },
            ConnectDecision::GiveUp => panic!("retries not exhausted"),
        }
    }
    assert_eq!(attempts, 2);
    assert_eq!(waited, 2 * CONNECT_RETRY_DELAY_MS);
    assert_eq!(waited, 4000);
}

#[test]
fn exhausted_retries_give_up() {
    assert_eq!(connect_failure_decision(3, CONNECT_RETRIES), ConnectDecision::GiveUp);
    assert_eq!(connect_failure_decision(7, CONNECT_RETRIES), ConnectDecision::GiveUp);
    assert!(matches!(
        connect_failure_decision(2, CONNECT_RETRIES),
        ConnectDecision::Retry { next_attempts: 3, delay_ms: 2000 }
    ));
}
