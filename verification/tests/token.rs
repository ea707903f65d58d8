use mc_http::token::{rearm_accept_after, Token, OPERATION_ACCEPT};

#[test]
fn token_fields() {
    let t = Token::Accept { socket_id: 42 };
    assert_eq!(t.id(), (1u64 << 48) | 42);
    assert_eq!(t.id() & 0x0000_FFFF_FFFF_FFFF, 42);
    assert_eq!(t.id() >> 48, t.operation());
    assert_eq!(t.operation(), OPERATION_ACCEPT);
}

#[test]
fn user_data_layout() {
    let t = Token::Accept { socket_id: 5 };
    assert_eq!(t.user_data(), (1u64 << 48) | 5);
    let t = Token::Accept { socket_id: u32::MAX };
    assert_eq!(t.user_data(), 0x0001_0000_FFFF_FFFF);
}

#[test]
fn into_u64_is_user_data() {
    let t = Token::Accept { socket_id: 77 };
    let x: u64 = t.into();
    assert_eq!(x, t.user_data());
    assert_eq!(x, t.id());
}

#[test]
fn tokens_hash() {
    let mut set = std::collections::HashSet::new();
    set.insert(Token::Accept { socket_id: 1 });
    set.insert(Token::Accept { socket_id: 1 });
    set.insert(Token::Accept { socket_id: 2 });
    assert_eq!(set.len(), 2);
}

#[test]
fn user_data_round_trip() {
    for id in [0u32, 1, 0x1234, u32::MAX] {
        let t = Token::Accept { socket_id: id };
        assert_eq!(Token::from_user_data(t.user_data()), t);
        assert_eq!(Token::try_from_user_data(t.user_data()), Some(t));
    }
}

#[test]
fn from_user_data_truncates_id_to_32_bits() {
    let x = (1u64 << 48) | 0x1_0000_0005;
    assert_eq!(Token::from_user_data(x), Token::Accept { socket_id: 5 });
}

#[test]
fn unknown_operation_is_refused() {
    assert_eq!(Token::try_from_user_data((2u64 << 48) | 3), None);
    assert_eq!(Token::try_from_user_data(3), None);
}

#[test]
fn accept_completion_calls_for_rearm() {
    let t = Token::Accept { socket_id: 0 };
    assert!(rearm_accept_after(false, &t));
    assert!(rearm_accept_after(true, &t));
}
