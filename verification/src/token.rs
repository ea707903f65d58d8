use vstd::prelude::*;

verus! {

/// The operation type of an accept.
pub const OPERATION_ACCEPT: u64 = 1;

/// The bits of user data that hold the token ID.
pub const ID_MASK: u64 = 0x0000_FFFF_FFFF_FFFF;

/// A token representing a specific io_uring operation.
///
/// To get a `u64` user data value for io_uring operations, use `token.id()`. The user data value is
/// laid out as such:
/// - Bits 0-47: Token ID
/// - Bits 48-63: Operation Type
#[derive(Debug, Clone, Copy, PartialEq, Eq, Hash, Structural)]
pub enum Token {
    Accept { socket_id: u32 },
}

/// The token ID field of `user_data`.
pub open spec fn user_data_id(user_data: u64) -> u64 {
    user_data & ID_MASK
}

/// The operation type field of `user_data`.
pub open spec fn user_data_operation(user_data: u64) -> u64 {
    (user_data >> 48u64) & 0xFFFF
}

impl Token {
    /// The token ID field: the socket id.
    pub open spec fn spec_socket_id(&self) -> u64 {
        match self {
            Token::Accept { socket_id } => *socket_id as u64,
        }
    }

    /// The operation type.
    pub open spec fn spec_operation(&self) -> u64 {
        match self {
            Token::Accept { .. } => OPERATION_ACCEPT,
        }
    }

    /// The user data value: the ID in bits 0-47 and the operation type from bit 48 up.
    pub open spec fn spec_user_data(&self) -> u64 {
        (self.spec_socket_id() & ID_MASK) | (self.spec_operation() << 48u64)
    }

    /// The `u64` user data value for io_uring operations: the token ID in bits 0-47 and the
    /// operation type in bits 48-63.
    pub fn id(&self) -> (r: u64)
        ensures
            r == self.spec_user_data(),
            user_data_id(r) == self.spec_socket_id(),
            user_data_operation(r) == self.spec_operation(),
    {
        let socket = match self {
            Token::Accept { socket_id: socket } => *socket as u64,
        };
        let operation = self.operation();
        proof {
            lemma_user_data_fields(socket, operation);
        }
        (socket & ID_MASK) | (operation << 48)
    }

    /// The operation type.
    pub fn operation(&self) -> (r: u64)
        ensures
            r == self.spec_operation(),
    {
        match self {
            Token::Accept { .. } => OPERATION_ACCEPT,
        }
    }

    /// Converts the token into a `u64` suitable for use as io_uring user data.
    pub fn user_data(&self) -> (r: u64)
        ensures
            r == self.spec_user_data(),
            user_data_id(r) == self.spec_socket_id(),
            user_data_operation(r) == self.spec_operation(),
    {
        let id = self.id();
        let operation = self.operation();
        proof {
            let socket = self.spec_socket_id();
            assert(socket < 0x1_0000_0000 ==> socket & 0x0000_FFFF_FFFF_FFFF == socket)
                by (bit_vector);
        }
        (id & ID_MASK) | (operation << 48)
    }

    /// The token that `user_data` stands for, given that its operation type is an accept.
    pub open spec fn spec_from_user_data(user_data: u64) -> Token {
        Token::Accept { socket_id: user_data_id(user_data) as u32 }
    }

    /// Reads a token back from io_uring user data. The operation type must be a known one;
    /// the ID is truncated to the 32 bits of a socket id.
    pub fn from_user_data(user_data: u64) -> (r: Token)
        requires
            user_data_operation(user_data) == OPERATION_ACCEPT,
        ensures
            r == Token::spec_from_user_data(user_data),
    {
        let id = user_data & ID_MASK;
        let operation = (user_data >> 48) & 0x0000_0000_0000_FFFF;
        assert(operation == OPERATION_ACCEPT);
        Token::Accept { socket_id: #[verifier::truncate] (id as u32) }
    }

    /// Reads a token back from io_uring user data, or `None` where the operation type is not a
    /// known one.
    pub fn try_from_user_data(user_data: u64) -> (r: Option<Token>)
        ensures
            user_data_operation(user_data) == OPERATION_ACCEPT ==> r == Some(
                Token::spec_from_user_data(user_data),
            ),
            user_data_operation(user_data) != OPERATION_ACCEPT ==> r is None,
    {
        let operation = (user_data >> 48) & 0x0000_0000_0000_FFFF;
        if operation == OPERATION_ACCEPT {
            Some(Token::from_user_data(user_data))
        } else {
            None
        }
    }
}

/// Whether the event loop has to re-add the accept operation once the current batch of
/// completions is handled, given whether it had to before (`rearm`) and the token that just
/// completed: it has to once any accept operation has completed.
pub fn rearm_accept_after(rearm: bool, token: &Token) -> (r: bool)
    ensures
        r == (rearm || *token is Accept),
{
    match token {
        Token::Accept { .. } => true,
    }
}

/// The fields of a user data value built from an ID below 2^48 and an operation type below
/// 2^16 read back as that ID and that operation type.
proof fn lemma_user_data_fields(id: u64, operation: u64)
    requires
        id < 0x1_0000_0000,
        operation < 0x1_0000,
    ensures
        user_data_id((id & ID_MASK) | (operation << 48u64)) == id,
        user_data_operation((id & ID_MASK) | (operation << 48u64)) == operation,
{
    assert(id < 0x1_0000_0000 && operation < 0x1_0000 ==> ((id & 0x0000_FFFF_FFFF_FFFF) | (operation
        << 48u64)) & 0x0000_FFFF_FFFF_FFFF == id) by (bit_vector);
    assert(id < 0x1_0000_0000 && operation < 0x1_0000 ==> (((id & 0x0000_FFFF_FFFF_FFFF) | (
    operation << 48u64)) >> 48u64) & 0xFFFF == operation) by (bit_vector);
}

/// Converting a token to user data and back gives the same token.
pub proof fn lemma_user_data_round_trip(token: Token)
    ensures
        user_data_operation(token.spec_user_data()) == OPERATION_ACCEPT,
        Token::spec_from_user_data(token.spec_user_data()) == token,
{
    lemma_user_data_fields(token.spec_socket_id(), token.spec_operation());
}

/// User data of the accept operation whose ID fits in 32 bits reads as a token that converts
/// back to the same user data.
pub proof fn lemma_from_user_data_round_trip(user_data: u64)
    requires
        user_data_operation(user_data) == OPERATION_ACCEPT,
        user_data_id(user_data) < 0x1_0000_0000,
    ensures
        Token::spec_from_user_data(user_data).spec_user_data() == user_data,
{
    let token = Token::spec_from_user_data(user_data);
    assert(token.spec_socket_id() == user_data_id(user_data));
    assert(((user_data >> 48u64) & 0xFFFF) == 1 && user_data & 0x0000_FFFF_FFFF_FFFF < 0x1_0000_0000
        ==> ((user_data & 0x0000_FFFF_FFFF_FFFF) & 0x0000_FFFF_FFFF_FFFF) | (1u64 << 48u64)
        == user_data) by (bit_vector);
}

/// The user data of a token, as io_uring takes it.
impl From<Token> for u64 {
    fn from(token: Token) -> (r: u64) {
        token.user_data()
    }
}

impl vstd::std_specs::convert::FromSpecImpl<Token> for u64 {
    open spec fn obeys_from_spec() -> bool {
        true
    }

    open spec fn from_spec(token: Token) -> u64 {
        token.spec_user_data()
    }
}

} // verus!
