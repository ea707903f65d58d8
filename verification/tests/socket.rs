use mc_http::socket::{accept_connection, check_accept_result, AcceptError, AcceptedSocket, SocketState};

#[test]
fn failed_accept_reports_os_code() {
    assert_eq!(check_accept_result(-11, 16, 16), Err(AcceptError::OperationFailed { code: 11 }));
}

#[test]
fn wrong_address_size_is_refused() {
    assert_eq!(
        check_accept_result(5, 28, 16),
        Err(AcceptError::UnexpectedAddressSize { written: 28, expected: 16 })
    );
}

#[test]
fn good_accept_gives_descriptor() {
    assert_eq!(check_accept_result(5, 16, 16), Ok(5));
    assert_eq!(check_accept_result(0, 16, 16), Ok(0));
}

#[test]
fn ipv4_connection_starts_reading_header() {
    assert_eq!(
        accept_connection(9, 2, 2, [127, 0, 0, 1], [0x63, 0xdd]),
        Ok(AcceptedSocket { fd: 9, ip: 0x7f00_0001, port: 25565, state: SocketState::ReadingHeader })
    );
}

#[test]
fn other_family_is_refused() {
    assert_eq!(
        accept_connection(9, 10, 2, [0, 0, 0, 0], [0, 0]),
        Err(AcceptError::UnsupportedAddressFamily { family: 10, af_inet: 2 })
    );
}

#[test]
fn address_and_port_are_read_in_network_order() {
    let a = accept_connection(3, 2, 2, [192, 168, 1, 20], [0x1f, 0x90]).unwrap();
    assert_eq!(a.ip, 0xc0a8_0114);
    assert_eq!(a.port, 8080);
}
