use vstd::prelude::*;

verus! {

/// The state of a connected socket.
#[derive(Debug, Clone, Copy, PartialEq, Eq, Structural)]
pub enum SocketState {
    ReadingHeader,
    ConnectingToOrigin,
    Forwarding,
}

/// Why a completed accept operation did not yield a connection.
#[derive(Debug, Clone, Copy, PartialEq, Eq, Structural)]
pub enum AcceptError {
    /// The accept operation failed with this OS error code.
    OperationFailed { code: i32 },
    /// The kernel wrote an address of another size than a `sockaddr_in`.
    UnexpectedAddressSize { written: u32, expected: usize },
    /// The peer's address family is not IPv4.
    UnsupportedAddressFamily { family: u16, af_inet: i32 },
}

/// A newly accepted IPv4 connection.
#[derive(Debug, Clone, Copy, PartialEq, Eq, Structural)]
pub struct AcceptedSocket {
    /// The connection's file descriptor.
    pub fd: i32,
    /// The peer's IPv4 address, in host byte order.
    pub ip: u32,
    /// The peer's port, in host byte order.
    pub port: u16,
    /// What the connection does first.
    pub state: SocketState,
}

/// Checks the result of a completed accept operation and the size of the address the kernel
/// wrote for it.
///
/// Errors in io_uring are indicated by negative result codes; otherwise the result is the new
/// connection's file descriptor, which comes back once the address is the size of a
/// `sockaddr_in` (`expected_address_len`).
pub fn check_accept_result(result: i32, written_address_len: u32, expected_address_len: usize) -> (r:
    Result<i32, AcceptError>)
    requires
        result > i32::MIN,
    ensures
        result < 0 ==> r == Err::<i32, AcceptError>(AcceptError::OperationFailed { code: (-result) as i32 }),
        result >= 0 && written_address_len != expected_address_len ==> r == Err::<i32, AcceptError>(
            AcceptError::UnexpectedAddressSize {
                written: written_address_len,
                expected: expected_address_len,
            },
        ),
        result >= 0 && written_address_len == expected_address_len ==> r == Ok::<i32, AcceptError>(
            result,
        ),
{
    if result < 0 {
        let code = -result;
        return Err(AcceptError::OperationFailed { code });
    }
    if written_address_len as usize != expected_address_len {
        return Err(AcceptError::UnexpectedAddressSize {
            written: written_address_len,
            expected: expected_address_len,
        });
    }
    Ok(result)
}

/// A 16-bit number from its bytes in network (big-endian) order.
pub open spec fn network_u16(bytes: Seq<u8>) -> u16 {
    (bytes[0] * 0x100 + bytes[1]) as u16
}

/// A 32-bit number from its bytes in network (big-endian) order.
pub open spec fn network_u32(bytes: Seq<u8>) -> u32 {
    (bytes[0] * 0x100_0000 + bytes[1] * 0x1_0000 + bytes[2] * 0x100 + bytes[3]) as u32
}

/// Sets up the connection for an accepted descriptor once the peer's address is known: it must
/// be an IPv4 address (`family` equal to `af_inet`), and the connection starts by reading the
/// handshake header. The address and port come as the kernel stores them, in network byte
/// order, and the connection holds them in host order.
pub fn accept_connection(
    fd: i32,
    family: u16,
    af_inet: i32,
    address_bytes: [u8; 4],
    port_bytes: [u8; 2],
) -> (r: Result<AcceptedSocket, AcceptError>)
    ensures
        family != af_inet ==> r == Err::<AcceptedSocket, AcceptError>(
            AcceptError::UnsupportedAddressFamily { family, af_inet },
        ),
        family == af_inet ==> (r matches Ok(a) && a.ip >> 24u32 == address_bytes@[0] as u32 && (a.ip
            >> 16u32) & 0xff == address_bytes@[1] as u32 && (a.ip >> 8u32) & 0xff == address_bytes@[2]
            as u32 && a.ip & 0xff == address_bytes@[3] as u32 && a.port >> 8u16 == port_bytes@[0] as u16
            && a.port & 0xff == port_bytes@[1] as u16),
        family == af_inet ==> r == Ok::<AcceptedSocket, AcceptError>(
            AcceptedSocket {
                fd,
                ip: network_u32(address_bytes@),
                port: network_u16(port_bytes@),
                state: SocketState::ReadingHeader,
            },
        ),
{
    if family as i32 != af_inet {
        return Err(AcceptError::UnsupportedAddressFamily { family, af_inet });
    }
    let ip = (address_bytes[0] as u32) * 0x100_0000 + (address_bytes[1] as u32) * 0x1_0000
        + (address_bytes[2] as u32) * 0x100 + address_bytes[3] as u32;
    let port = (port_bytes[0] as u16) * 0x100 + port_bytes[1] as u16;
    proof {
        lemma_network_order_bytes(address_bytes@, port_bytes@);
    }
    Ok(AcceptedSocket { fd, ip, port, state: SocketState::ReadingHeader })
}

/// The host-order numbers are the bytes read in big-endian order: the address's most significant
/// byte is the first one and its least significant the last, and the same for the port.
pub proof fn lemma_network_order_bytes(address: Seq<u8>, port: Seq<u8>)
    requires
        address.len() == 4,
        port.len() == 2,
    ensures
        network_u32(address) >> 24u32 == address[0] as u32,
        (network_u32(address) >> 16u32) & 0xff == address[1] as u32,
        (network_u32(address) >> 8u32) & 0xff == address[2] as u32,
        network_u32(address) & 0xff == address[3] as u32,
        network_u16(port) >> 8u16 == port[0] as u16,
        network_u16(port) & 0xff == port[1] as u16,
{
    let (a0, a1, a2, a3) = (address[0], address[1], address[2], address[3]);
    let (p0, p1) = (port[0], port[1]);
    let ip = network_u32(address);
    let pt = network_u16(port);
    assert(ip == (a0 as u32) * 0x100_0000 + (a1 as u32) * 0x1_0000 + (a2 as u32) * 0x100 + (a3 as u32));
    assert(pt == (p0 as u16) * 0x100 + (p1 as u16));
    assert(ip >> 24u32 == a0 as u32 && (ip >> 16u32) & 0xff == a1 as u32 && (ip >> 8u32) & 0xff
        == a2 as u32 && ip & 0xff == a3 as u32) by (bit_vector)
        requires
            ip == (a0 as u32) * 0x100_0000 + (a1 as u32) * 0x1_0000 + (a2 as u32) * 0x100 + (a3 as u32),
    ;
    assert(pt >> 8u16 == p0 as u16 && pt & 0xff == p1 as u16) by (bit_vector)
        requires
            pt == (p0 as u16) * 0x100 + (p1 as u16),
    ;
}

} // verus!
