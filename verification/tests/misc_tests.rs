use kook::heartbeat::{heartbeat_signal, HeartbeatSignal};
use kook::objects::{bool_from_u8, bool_to_u8, ChannelType, NotifyType, UserStatus};
use kook::request::MessageCreate;
use kook::response::{api_outcome, compress_flag, page_done, PageMeta};
use kook::{KookError, Token};

#[test]
fn auth_header_for_each_token() {
    assert_eq!(Token::Bot("t0k".to_string()).auth_header(), "Bot t0k");
    assert_eq!(Token::Oauth2("t0k".to_string()).auth_header(), "Bearer t0k");
}

#[test]
fn heartbeat_signal_table() {
    for c in 0..=3u64 {
        assert_eq!(heartbeat_signal(c), HeartbeatSignal::Wait);
    }
    assert_eq!(heartbeat_signal(4), HeartbeatSignal::SendPing);
    assert_eq!(heartbeat_signal(5), HeartbeatSignal::Timeout);
    assert_eq!(heartbeat_signal(100), HeartbeatSignal::Timeout);
}

#[test]
fn api_outcome_rule() {
    assert_eq!(api_outcome(0, "ok".to_string()), Ok(()));
    assert_eq!(
        api_outcome(40100, "invalid token".to_string()),
        Err(KookError::Api {
            code: 40100,
            message: "invalid token".to_string()
        })
    );
}

#[test]
fn pagination_stops_on_last_page() {
    let done = PageMeta {
        page: 3,
        page_total: 3,
        page_size: 50,
        total: 120,
    };
    let more = PageMeta {
        page: 2,
        page_total: 3,
        page_size: 50,
        total: 120,
    };
    assert!(page_done(&done));
    assert!(!page_done(&more));
}

#[test]
fn message_create_is_text_typed() {
    let req = MessageCreate::text_message("chan-1".to_string(), "hello".to_string());
    assert_eq!(req.message_create_type, 1);
    assert_eq!(req.target_id, "chan-1");
    assert_eq!(req.content, "hello");
}

#[test]
fn compress_flag_values() {
    assert_eq!(compress_flag(false), 0);
    assert_eq!(compress_flag(true), 1);
}

#[test]
fn wire_booleans() {
    assert_eq!(bool_to_u8(false), 0);
    assert_eq!(bool_to_u8(true), 1);
    assert_eq!(bool_from_u8(0), Some(false));
    assert_eq!(bool_from_u8(1), Some(true));
    assert_eq!(bool_from_u8(2), None);
}

#[test]
fn enum_wire_codes() {
    assert_eq!(UserStatus::from_code(10), Some(UserStatus::Ban));
    assert_eq!(UserStatus::Ban.code(), 10);
    assert_eq!(UserStatus::from_code(5), None);
    assert_eq!(NotifyType::from_code(2), Some(NotifyType::AtOnly));
    assert_eq!(NotifyType::AtOnly.code(), 2);
    assert_eq!(ChannelType::from_code(1), Some(ChannelType::Text));
    assert_eq!(ChannelType::Text.code(), 1);
    assert_eq!(ChannelType::from_code(9), None);
}
