use asm_front::util::error_log::{Msg, MsgLog, MsgType};

#[test]
fn new_log_is_empty() {
    let log = MsgLog::new(b"dat w 1 2");
    assert!(log.is_empty());
    assert!(log.messages().is_empty());
}

#[test]
fn messages_stay_in_the_order_they_were_added() {
    let mut log = MsgLog::new(b"");
    let first = Msg::new(MsgType::LexNoTokenFound, 3, 1, 2);
    let second = Msg::new(MsgType::ParseDatStatementMissingNum { missing_count: 2 }, 9, 4, 0);
    let third = Msg::new(MsgType::LexNoTokenFound, 3, 1, 2);
    log.add_msg(first);
    assert!(!log.is_empty());
    assert_eq!(log.messages(), &[first]);
    log.add_msg(second);
    log.add_msg(third);
    assert_eq!(log.messages(), &[first, second, third]);
}

#[test]
fn message_keeps_what_it_was_made_with() {
    let msg = Msg::new(MsgType::ParseDatStatementMissingNum { missing_count: 1 }, 17, 2, 5);
    assert_eq!(msg.typ, MsgType::ParseDatStatementMissingNum { missing_count: 1 });
    assert_eq!(msg.offset, 17);
    assert_eq!(msg.row, 2);
    assert_eq!(msg.col, 5);
    assert_ne!(msg.typ, MsgType::ParseDatStatementMissingNum { missing_count: 2 });
}

#[test]
fn internal_kinds_are_told_apart() {
    assert!(MsgType::MsgLogAttemptToRenderParseErrorWithNoTokenInput.is_internal());
    assert!(MsgType::LexAttemptedToRunOffEndOfInput.is_internal());
    assert!(MsgType::ParseConsumedTokenWithoutLookingFirst.is_internal());
    assert!(!MsgType::LexNoTokenFound.is_internal());
    assert!(!MsgType::ParseWrongTokenInRootParse.is_internal());
    assert!(!MsgType::ParseDatStatementMissingWKeyword.is_internal());
    assert!(!MsgType::ParseDatStatementMissingNum { missing_count: 1 }.is_internal());
    assert!(!MsgType::ParseNumHasInvalidLexeme.is_internal());
}
