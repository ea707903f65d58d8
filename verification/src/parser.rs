use vstd::prelude::*;
use vstd::slice::slice_subrange;
use vstd::slice::slice_to_vec;
use vstd::utf8::decode_utf8;
use vstd::utf8::encode_utf8;
use vstd::utf8::is_scalar;
use vstd::utf8::valid_utf8;

verus! {

/// Why a handshake could not be read.
#[derive(Debug, PartialEq, Eq)]
pub enum ParseError {
    /// Fewer bytes were left than a read asked for.
    EndOfBufferWhileAdvancing,
    /// Fewer bytes were left than a look-ahead asked for.
    EndOfBufferWhilePeeking,
    /// A VarInt ran on past five bytes.
    VarIntTooBig,
    /// A string's code units are not valid UTF-16.
    InvalidUtf16,
    /// A string's bytes are not valid UTF-8.
    InvalidUtf8,
    /// A pre-1.7 handshake did not start with the `MC|PingHost` message; it carries the message.
    UnexpectedLegacyMessage(String),
}

/// The mathematical counterpart of [`ParseError`], with the message as a sequence of characters.
pub enum ParseFailure {
    EndOfBufferWhileAdvancing,
    EndOfBufferWhilePeeking,
    VarIntTooBig,
    InvalidUtf16,
    InvalidUtf8,
    UnexpectedLegacyMessage(Seq<char>),
}

impl View for ParseError {
    type V = ParseFailure;

    open spec fn view(&self) -> ParseFailure {
        match self {
            ParseError::EndOfBufferWhileAdvancing => ParseFailure::EndOfBufferWhileAdvancing,
            ParseError::EndOfBufferWhilePeeking => ParseFailure::EndOfBufferWhilePeeking,
            ParseError::VarIntTooBig => ParseFailure::VarIntTooBig,
            ParseError::InvalidUtf16 => ParseFailure::InvalidUtf16,
            ParseError::InvalidUtf8 => ParseFailure::InvalidUtf8,
            ParseError::UnexpectedLegacyMessage(m) => ParseFailure::UnexpectedLegacyMessage(m@),
        }
    }
}

/// A result whose error is seen through its view.
pub open spec fn result_view<T>(r: Result<T, ParseError>) -> Result<T, ParseFailure> {
    match r {
        Ok(t) => Ok(t),
        Err(e) => Err(e@),
    }
}

/// A string result seen through the views of the string and of the error.
pub open spec fn string_result_view(r: Result<String, ParseError>) -> Result<Seq<char>, ParseFailure> {
    match r {
        Ok(s) => Ok(s@),
        Err(e) => Err(e@),
    }
}

/// The characters that `String::from_utf8` decodes from `bytes`: their UTF-8 decoding where they
/// are valid UTF-8, and `None` where they are not.
pub open spec fn utf8_decoded(bytes: Seq<u8>) -> Option<Seq<char>> {
    if valid_utf8(bytes) {
        Some(decode_utf8(bytes))
    } else {
        None
    }
}

/// Whether `unit` is a leading (high) surrogate.
pub open spec fn is_high_surrogate(unit: u16) -> bool {
    0xd800 <= unit <= 0xdbff
}

/// Whether `unit` is a trailing (low) surrogate.
pub open spec fn is_low_surrogate(unit: u16) -> bool {
    0xdc00 <= unit <= 0xdfff
}

/// The characters that `String::from_utf16` decodes from `units`: a unit outside the surrogate
/// range stands for itself, a high surrogate followed by a low one stands for the supplementary
/// character they encode, and any other surrogate makes the units invalid (`None`).
pub open spec fn utf16_decoded(units: Seq<u16>) -> Option<Seq<char>>
    decreases units.len(),
{
    if units.len() == 0 {
        Some(Seq::<char>::empty())
    } else if is_high_surrogate(units[0]) {
        if units.len() >= 2 && is_low_surrogate(units[1]) {
            let c = (0x10000 + (units[0] - 0xd800) * 0x400 + (units[1] - 0xdc00)) as u32 as char;
            match utf16_decoded(units.skip(2)) {
                Some(rest) => Some(seq![c] + rest),
                None => None,
            }
        } else {
            None
        }
    } else if is_low_surrogate(units[0]) {
        None
    } else {
        match utf16_decoded(units.skip(1)) {
            Some(rest) => Some(seq![units[0] as u32 as char] + rest),
            None => None,
        }
    }
}

/// The UTF-16 encoding of `chars`: a character below 0x10000 as one unit, any other as a high
/// surrogate followed by a low one.
pub open spec fn utf16_encode(chars: Seq<char>) -> Seq<u16>
    decreases chars.len(),
{
    if chars.len() == 0 {
        Seq::<u16>::empty()
    } else {
        let c = chars[0] as u32;
        let head = if c < 0x10000 {
            seq![c as u16]
        } else {
            seq![(0xd800 + (c - 0x10000) / 0x400) as u16, (0xdc00 + (c - 0x10000) % 0x400) as u16]
        };
        head + utf16_encode(chars.drop_first())
    }
}

/// A string's own UTF-16 encoding decodes back to it, and has at most two units per character.
pub proof fn lemma_utf16_encode_decode(chars: Seq<char>)
    ensures
        utf16_decoded(utf16_encode(chars)) == Some(chars),
        utf16_encode(chars).len() <= 2 * chars.len(),
    decreases chars.len(),
{
    if chars.len() > 0 {
        let c = chars[0];
        let u = c as u32;
        let units = utf16_encode(chars);
        let rest = chars.drop_first();
        lemma_utf16_encode_decode(rest);
        vstd::utf8::char_is_scalar(c);
        vstd::utf8::char_u32_cast(c, u);
        assert(is_scalar(u));
        assert((u as char) == c);
        if u < 0x10000 {
            assert(units.skip(1) =~= utf16_encode(rest));
            assert(((u as u16) as u32) == u);
        } else {
            let hi = (0xd800 + (u - 0x10000) / 0x400) as u16;
            let lo = (0xdc00 + (u - 0x10000) % 0x400) as u16;
            assert(units.skip(2) =~= utf16_encode(rest));
            assert(units[0] == hi && units[1] == lo);
            assert((0x10000 + (hi - 0xd800) * 0x400 + (lo - 0xdc00)) == u);
            assert(((0x10000 + (hi - 0xd800) * 0x400 + (lo - 0xdc00)) as u32) == u);
        }
        assert(seq![c] + rest =~= chars);
    }
}

/// Calls `String::from_utf8`. Claimed: it returns a string exactly when `bytes` are valid UTF-8,
/// and then the string's characters are their UTF-8 decoding (`utf8_decoded`).
#[verifier::external_body]
fn string_from_utf8(bytes: Vec<u8>) -> (r: Option<String>)
    ensures
        utf8_decoded(bytes@) == (match r {
            Some(s) => Some(s@),
            None => None,
        }),
{
    String::from_utf8(bytes).ok()
}

/// Calls `String::from_utf16`. Claimed: it returns a string exactly when `units` are valid UTF-16
/// (no unpaired surrogate), and then the string's characters are their decoding
/// (`utf16_decoded`).
#[verifier::external_body]
fn string_from_utf16(units: &[u16]) -> (r: Option<String>)
    ensures
        utf16_decoded(units@) == (match r {
            Some(s) => Some(s@),
            None => None,
        }),
{
    String::from_utf16(units).ok()
}

/// A big-endian `u16` from its two bytes.
pub open spec fn be_u16(hi: u8, lo: u8) -> u16 {
    (hi * 256 + lo) as u16
}

/// Bytes read pairwise as big-endian UTF-16 code units (a trailing odd byte is ignored).
pub open spec fn be_units(bytes: Seq<u8>) -> Seq<u16> {
    Seq::new(bytes.len() / 2, |i: int| be_u16(bytes[2 * i], bytes[2 * i + 1]))
}

/// Reading a VarInt from `s` whose first `k` bytes were read already, with `acc` holding their
/// bits: what comes out, and how many bytes of `s` are consumed in all.
///
/// Each byte gives its low seven bits, least significant group first; a clear high bit ends the
/// number. A sixth byte is refused.
pub open spec fn varint_from(s: Seq<u8>, k: nat, acc: u32) -> (Result<u32, ParseFailure>, nat)
    decreases 5 - k,
{
    if k >= 5 {
        if s.len() <= 5 {
            (Err(ParseFailure::EndOfBufferWhileAdvancing), s.len())
        } else {
            (Err(ParseFailure::VarIntTooBig), 6)
        }
    } else if k >= s.len() {
        (Err(ParseFailure::EndOfBufferWhileAdvancing), s.len())
    } else {
        let b = s[k as int];
        let acc2 = acc | (((b & 0x7f) as u32) << ((7 * k) as u32));
        if b & 0x80 == 0 {
            (Ok(acc2), k + 1)
        } else {
            varint_from(s, k + 1, acc2)
        }
    }
}

/// A VarInt read from the front of `s`, and what is left of `s` afterwards.
pub open spec fn spec_varint(s: Seq<u8>) -> (Result<i32, ParseFailure>, Seq<u8>) {
    let (r, n) = varint_from(s, 0, 0);
    (
        match r {
            Ok(v) => Ok(v as i32),
            Err(e) => Err(e),
        },
        s.skip(n as int),
    )
}

/// A UTF-8 string prefixed by its VarInt byte length, read from the front of `s`, and what is
/// left of `s` afterwards.
pub open spec fn spec_string_utf8(s: Seq<u8>) -> (Result<Seq<char>, ParseFailure>, Seq<u8>) {
    let (r, rest) = spec_varint(s);
    match r {
        Err(e) => (Err(e), rest),
        Ok(len) => if len < 0 || rest.len() < len {
            (Err(ParseFailure::EndOfBufferWhileAdvancing), rest)
        } else {
            let after = rest.skip(len as int);
            match utf8_decoded(rest.take(len as int)) {
                Some(cs) => (Ok(cs), after),
                None => (Err(ParseFailure::InvalidUtf8), after),
            }
        },
    }
}

/// A UTF-16 string prefixed by its big-endian `u16` length in code units, read from the front of
/// `s`, and what is left of `s` afterwards.
pub open spec fn spec_string_utf16(s: Seq<u8>) -> (Result<Seq<char>, ParseFailure>, Seq<u8>) {
    if s.len() < 2 {
        (Err(ParseFailure::EndOfBufferWhileAdvancing), s)
    } else {
        let n = be_u16(s[0], s[1]) * 2;
        let rest = s.skip(2);
        if rest.len() < n {
            (Err(ParseFailure::EndOfBufferWhileAdvancing), rest)
        } else {
            let after = rest.skip(n);
            match utf16_decoded(be_units(rest.take(n))) {
                Some(cs) => (Ok(cs), after),
                None => (Err(ParseFailure::InvalidUtf16), after),
            }
        }
    }
}

/// A simple buffer wrapper to help with parsing.
pub struct Buffer<'a> {
    current: &'a [u8],
}

impl<'a> View for Buffer<'a> {
    type V = Seq<u8>;

    /// The bytes not read yet.
    closed spec fn view(&self) -> Seq<u8> {
        self.current@
    }
}

impl<'a> Buffer<'a> {
    /// A buffer over all of `data`.
    pub fn new(data: &'a [u8]) -> (r: Self)
        ensures
            r@ == data@,
    {
        Self { current: data }
    }

    /// Advances the buffer by `n` bytes, returning a slice of the advanced bytes.
    pub fn advance(&mut self, n: usize) -> (r: Result<&'a [u8], ParseError>)
        ensures
            old(self)@.len() < n ==> (r matches Err(ParseError::EndOfBufferWhileAdvancing))
                && final(self)@ == old(self)@,
            old(self)@.len() >= n ==> (r matches Ok(bytes) && bytes@ == old(self)@.take(n as int)),
            old(self)@.len() >= n ==> final(self)@ == old(self)@.skip(n as int),
    {
        if self.current.len() < n {
            return Err(ParseError::EndOfBufferWhileAdvancing);
        }
        let result = slice_subrange(self.current, 0, n);
        self.current = slice_subrange(self.current, n, self.current.len());
        Ok(result)
    }

    /// Peeks at the next `n` bytes without advancing the buffer.
    pub fn peek(&self, n: usize) -> (r: Result<&'a [u8], ParseError>)
        ensures
            self@.len() < n ==> (r matches Err(ParseError::EndOfBufferWhilePeeking)),
            self@.len() >= n ==> (r matches Ok(bytes) && bytes@ == self@.take(n as int)),
    {
        if self.current.len() < n {
            return Err(ParseError::EndOfBufferWhilePeeking);
        }
        Ok(slice_subrange(self.current, 0, n))
    }

    /// Advances the buffer and reads the next byte.
    pub fn next_byte(&mut self) -> (r: Result<u8, ParseError>)
        ensures
            old(self)@.len() == 0 ==> (r matches Err(ParseError::EndOfBufferWhileAdvancing))
                && final(self)@ == old(self)@,
            old(self)@.len() > 0 ==> r == Ok::<u8, ParseError>(old(self)@[0]) && final(self)@ == old(self)@.skip(1),
    {
        let bytes = self.advance(1)?;
        Ok(bytes[0])
    }

    /// Advances the buffer and reads the next N bytes as an array.
    pub fn next_n<const N: usize>(&mut self) -> (r: Result<[u8; N], ParseError>)
        ensures
            old(self)@.len() < N ==> (r matches Err(ParseError::EndOfBufferWhileAdvancing))
                && final(self)@ == old(self)@,
            old(self)@.len() >= N ==> (r matches Ok(array) && array@ == old(self)@.take(N as int)),
            old(self)@.len() >= N ==> final(self)@ == old(self)@.skip(N as int),
    {
        let bytes = self.advance(N)?;
        let mut array: [u8; N] = vstd::array::array_fill_for_copy_types(0u8);
        let mut i: usize = 0;
        while i < N
            invariant
                i <= N,
                bytes@.len() == N,
                array@.len() == N,
                forall|j: int| 0 <= j < i ==> array@[j] == bytes@[j],
            decreases N - i,
        {
            array[i] = bytes[i];
            i = i + 1;
        }
        assert(array@ =~= bytes@);
        Ok(array)
    }

    /// Returns the number of bytes left in the buffer.
    pub fn left(&self) -> (r: usize)
        ensures
            r == self@.len(),
    {
        self.current.len()
    }

    /// Reads a VarInt from the beginning of the buffer, advancing the buffer.
    pub fn next_varint(&mut self) -> (r: Result<i32, ParseError>)
        ensures
            result_view(r) == spec_varint(old(self)@).0,
            final(self)@ == spec_varint(old(self)@).1,
    {
        let ghost s = self@;
        let mut num_read: u32 = 0;
        let mut result: u32 = 0;
        loop
            invariant_except_break
                s == old(self)@,
                num_read <= 5,
                num_read <= s.len(),
                self@ == s.skip(num_read as int),
                varint_from(s, 0, 0) == varint_from(s, num_read as nat, result),
            ensures
                s == old(self)@,
                varint_from(s, 0, 0) == (Ok::<u32, ParseFailure>(result), num_read as nat),
                self@ == s.skip(num_read as int),
            decreases 6 - num_read,
        {
            let ghost before = self@;
            let byte = match self.next_byte() {
                Ok(b) => b,
                Err(e) => {
                    assert(num_read == s.len());
                    assert(varint_from(s, num_read as nat, result) == (
                    Err::<u32, ParseFailure>(ParseFailure::EndOfBufferWhileAdvancing), s.len()));
                    assert(self@ =~= s.skip(s.len() as int));
                    return Err(e);
                },
            };
            assert(byte == s[num_read as int]);
            if num_read >= 5 {
                assert(varint_from(s, num_read as nat, result) == (
                Err::<u32, ParseFailure>(ParseFailure::VarIntTooBig), 6nat));
                return Err(ParseError::VarIntTooBig);
            }
            // only the lower 7 bits are part of the value
            let value = (byte & 0b0111_1111) as u32;
            result = result | (value << (7 * num_read));
            num_read = num_read + 1;
            assert(self@ =~= s.skip(num_read as int));
            // most significant bit indicates if there are more bytes to read
            if (byte & 0b1000_0000) == 0 {
                break ;
            }
        }
        Ok(#[verifier::truncate] (result as i32))
    }

    /// Reads a UTF-16 string from the buffer, advancing the buffer.
    pub fn next_string_utf16(&mut self) -> (r: Result<String, ParseError>)
        ensures
            string_result_view(r) == spec_string_utf16(old(self)@).0,
            final(self)@ == spec_string_utf16(old(self)@).1,
    {
        let ghost s = self@;
        // string length is encoded as utf-16 code units
        let len_bytes: [u8; 2] = self.next_n()?;
        let str_len = ((len_bytes[0] as u16) * 256 + len_bytes[1] as u16) as usize * 2;
        assert(str_len == be_u16(s[0], s[1]) * 2);
        let string_bytes = self.advance(str_len)?;
        let mut units: Vec<u16> = Vec::new();
        let mut i: usize = 0;
        while i < str_len / 2
            invariant
                i <= str_len / 2,
                string_bytes@.len() == str_len,
                units@ == be_units(string_bytes@).take(i as int),
            decreases str_len / 2 - i,
        {
            let hi = string_bytes[2 * i];
            let lo = string_bytes[2 * i + 1];
            units.push((hi as u16) * 256 + lo as u16);
            i = i + 1;
            assert(units@ =~= be_units(string_bytes@).take(i as int));
        }
        assert(units@ =~= be_units(string_bytes@));
        match string_from_utf16(units.as_slice()) {
            Some(string) => Ok(string),
            None => Err(ParseError::InvalidUtf16),
        }
    }

    /// Read a UTF-8 string from the buffer, advancing the buffer.
    pub fn next_string_utf8(&mut self) -> (r: Result<String, ParseError>)
        ensures
            string_result_view(r) == spec_string_utf8(old(self)@).0,
            final(self)@ == spec_string_utf8(old(self)@).1,
    {
        let str_len = self.next_varint()?;
        if str_len < 0 {
            // a negative length is larger than any buffer once read as a byte count
            return Err(ParseError::EndOfBufferWhileAdvancing);
        }
        let string_bytes = self.advance(str_len as usize)?;
        match string_from_utf8(slice_to_vec(string_bytes)) {
            Some(string) => Ok(string),
            None => Err(ParseError::InvalidUtf8),
        }
    }
}

/// The message a pre-1.7 handshake opens with.
pub open spec fn ping_host_message() -> Seq<char> {
    "MC|PingHost"@
}

/// Whether `message` is the message a pre-1.7 handshake opens with.
pub fn is_ping_host_message(message: &String) -> (r: bool)
    ensures
        r == (message@ == ping_host_message()),
{
    *message == "MC|PingHost".to_owned()
}

/// Whether `s` opens with the three bytes that mark a pre-1.7 handshake.
pub open spec fn has_legacy_magic(s: Seq<u8>) -> bool {
    s.len() >= 3 && s[0] == 0xfe && s[1] == 0x01 && s[2] == 0xfa
}

/// A pre-1.7 handshake after its magic bytes: the `MC|PingHost` message, a 2-byte payload
/// length, a 1-byte protocol version, the hostname and a 4-byte port, with nothing after.
pub open spec fn spec_legacy_handshake(s: Seq<u8>) -> Result<Option<Seq<char>>, ParseFailure> {
    let (message, r1) = spec_string_utf16(s);
    match message {
        Err(e) => Err(e),
        Ok(m) => if m != ping_host_message() {
            Err(ParseFailure::UnexpectedLegacyMessage(m))
        } else if r1.len() < 3 {
            Err(ParseFailure::EndOfBufferWhileAdvancing)
        } else {
            let (hostname, r2) = spec_string_utf16(r1.skip(3));
            match hostname {
                Err(e) => Err(e),
                Ok(h) => if r2.len() < 4 {
                    Err(ParseFailure::EndOfBufferWhileAdvancing)
                } else if r2.len() > 4 {
                    Ok(None)
                } else {
                    Ok(Some(h))
                },
            }
        },
    }
}

/// A modern handshake: VarInt packet length, packet id and protocol version, the hostname as a
/// UTF-8 string, a 2-byte port and a VarInt next state, with nothing after.
pub open spec fn spec_modern_handshake(s: Seq<u8>) -> Result<Option<Seq<char>>, ParseFailure> {
    let (packet_length, r1) = spec_varint(s);
    let (packet_id, r2) = spec_varint(r1);
    let (protocol_version, r3) = spec_varint(r2);
    let (hostname, r4) = spec_string_utf8(r3);
    let (next_state, r5) = spec_varint(r4.skip(2));
    if packet_length is Err {
        Err(packet_length->Err_0)
    } else if packet_id is Err {
        Err(packet_id->Err_0)
    } else if protocol_version is Err {
        Err(protocol_version->Err_0)
    } else if hostname is Err {
        Err(hostname->Err_0)
    } else if r4.len() < 2 {
        Err(ParseFailure::EndOfBufferWhileAdvancing)
    } else if next_state is Err {
        Err(next_state->Err_0)
    } else if r5.len() != 0 {
        Ok(None)
    } else {
        Ok(Some(hostname->Ok_0))
    }
}

/// Reading a handshake in either format: `Ok(Some(hostname))` for a well-formed one, `Ok(None)`
/// where bytes are left over after it, and the error that stopped the reading otherwise.
pub open spec fn spec_handshake(s: Seq<u8>) -> Result<Option<Seq<char>>, ParseFailure> {
    if s.len() < 3 {
        Err(ParseFailure::EndOfBufferWhilePeeking)
    } else if has_legacy_magic(s) {
        spec_legacy_handshake(s.skip(3))
    } else {
        spec_modern_handshake(s)
    }
}

/// The handshake fields the proxy routes by.
#[derive(Debug)]
pub struct UnifiedHandshakeFormat {
    pub hostname: String,
}

/// A parse outcome seen through the views of the hostname and of the error.
pub open spec fn handshake_view(r: Result<Option<UnifiedHandshakeFormat>, ParseError>) -> Result<
    Option<Seq<char>>,
    ParseFailure,
> {
    match r {
        Ok(Some(h)) => Ok(Some(h.hostname@)),
        Ok(None) => Ok(None),
        Err(e) => Err(e@),
    }
}

/// The hostname of the handshake that `s` holds, or `None` where `s` is not a valid handshake:
/// where reading it fails, or where bytes are left over after it.
pub open spec fn spec_handshake_hostname(s: Seq<u8>) -> Option<Seq<char>> {
    match spec_handshake(s) {
        Ok(h) => h,
        Err(_) => None,
    }
}

impl UnifiedHandshakeFormat {
    /// Tries to parse a Unified Handshake Format from the given bytes.
    ///
    /// If the bytes do not represent a valid handshake, Ok(None) is returned.
    pub fn from_bytes(bytes: &[u8]) -> (r: Result<Option<Self>, ParseError>)
        ensures
            handshake_view(r) == Ok::<Option<Seq<char>>, ParseFailure>(
                spec_handshake_hostname(bytes@),
            ),
    {
        match Self::read_handshake(bytes) {
            Ok(h) => Ok(h),
            Err(_) => Ok(None),
        }
    }

    /// Reads a handshake in either format, stopping at the first read that fails.
    fn read_handshake(bytes: &[u8]) -> (r: Result<Option<Self>, ParseError>)
        ensures
            handshake_view(r) == spec_handshake(bytes@),
    {
        let mut buf = Buffer::new(bytes);
        let peek = buf.peek(3)?;
        if peek[0] == 0xfe && peek[1] == 0x01 && peek[2] == 0xfa {
            let _magic = buf.advance(3)?;
            let message = buf.next_string_utf16()?;
            if !is_ping_host_message(&message) {
                return Err(ParseError::UnexpectedLegacyMessage(message));
            }
            let ghost r1 = buf@;
            // next 2 bytes are the length of the rest of the payload
            let _payload_length = buf.advance(2)?;
            // 1 byte protocol version
            let _protocol_version = buf.advance(1)?;
            assert(buf@ =~= r1.skip(3));
            let hostname = buf.next_string_utf16()?;
            // last 4 bytes are the port
            let _port = buf.next_n::<4>()?;
            // if there are any bytes left, the handshake is probably not a handshake
            if buf.left() != 0 {
                return Ok(None);
            }
            return Ok(Some(UnifiedHandshakeFormat { hostname }));
        }
        // Assume modern handshake format
        let _packet_length = buf.next_varint()?;
        let _packet_id = buf.next_varint()?;
        let _protocol_version = buf.next_varint()?;
        let hostname = buf.next_string_utf8()?;
        let _port = buf.next_n::<2>()?;
        let _next_state = buf.next_varint()?;
        // if there are any bytes left, the handshake is probably not a handshake
        if buf.left() != 0 {
            return Ok(None);
        }
        Ok(Some(UnifiedHandshakeFormat { hostname }))
    }
}

/// A VarInt read that succeeds on `s` reads the same from `s` followed by anything.
proof fn lemma_varint_from_prefix(s: Seq<u8>, t: Seq<u8>, k: nat, acc: u32)
    requires
        k <= s.len(),
        varint_from(s, k, acc).0 is Ok,
    ensures
        varint_from(s + t, k, acc) == varint_from(s, k, acc),
        varint_from(s, k, acc).1 <= s.len(),
    decreases 5 - k,
{
    if k < 5 && k < s.len() {
        assert((s + t)[k as int] == s[k as int]);
        let b = s[k as int];
        if b & 0x80 != 0 {
            lemma_varint_from_prefix(s, t, k + 1, acc | (((b & 0x7f) as u32) << ((7 * k) as u32)));
        }
    }
}

/// A VarInt read that succeeds on `s` reads the same from `s + t`, leaving `t` behind the rest.
proof fn lemma_varint_prefix(s: Seq<u8>, t: Seq<u8>)
    requires
        spec_varint(s).0 is Ok,
    ensures
        spec_varint(s + t).0 == spec_varint(s).0,
        spec_varint(s + t).1 == spec_varint(s).1 + t,
{
    lemma_varint_from_prefix(s, t, 0, 0);
    let n = varint_from(s, 0, 0).1;
    assert((s + t).skip(n as int) =~= s.skip(n as int) + t);
}

/// A UTF-8 string read that succeeds on `s` reads the same from `s + t`.
proof fn lemma_string_utf8_prefix(s: Seq<u8>, t: Seq<u8>)
    requires
        spec_string_utf8(s).0 is Ok,
    ensures
        spec_string_utf8(s + t).0 == spec_string_utf8(s).0,
        spec_string_utf8(s + t).1 == spec_string_utf8(s).1 + t,
{
    lemma_varint_prefix(s, t);
    let rest = spec_varint(s).1;
    let len = spec_varint(s).0->Ok_0;
    assert((rest + t).take(len as int) =~= rest.take(len as int));
    assert((rest + t).skip(len as int) =~= rest.skip(len as int) + t);
}

/// A UTF-16 string read that succeeds on `s` reads the same from `s + t`.
proof fn lemma_string_utf16_prefix(s: Seq<u8>, t: Seq<u8>)
    requires
        spec_string_utf16(s).0 is Ok,
    ensures
        spec_string_utf16(s + t).0 == spec_string_utf16(s).0,
        spec_string_utf16(s + t).1 == spec_string_utf16(s).1 + t,
{
    assert((s + t)[0] == s[0] && (s + t)[1] == s[1]);
    let n = be_u16(s[0], s[1]) * 2;
    let rest = s.skip(2);
    assert((s + t).skip(2) =~= rest + t);
    assert((rest + t).take(n) =~= rest.take(n));
    assert((rest + t).skip(n) =~= rest.skip(n) + t);
}

/// A handshake that parses, followed by more bytes, is reported as not a handshake: whatever
/// follows a complete handshake turns the outcome into `Ok(None)`.
pub proof fn lemma_trailing_bytes_not_a_handshake(s: Seq<u8>, t: Seq<u8>)
    requires
        spec_handshake(s) is Ok,
        t.len() > 0,
    ensures
        spec_handshake(s + t) == Ok::<Option<Seq<char>>, ParseFailure>(None),
{
    let st = s + t;
    assert(st[0] == s[0] && st[1] == s[1] && st[2] == s[2]);
    if has_legacy_magic(s) {
        let l = s.skip(3);
        assert(st.skip(3) =~= l + t);
        lemma_string_utf16_prefix(l, t);
        let r1 = spec_string_utf16(l).1;
        assert((r1 + t).skip(3) =~= r1.skip(3) + t);
        lemma_string_utf16_prefix(r1.skip(3), t);
    } else {
        lemma_varint_prefix(s, t);
        let r1 = spec_varint(s).1;
        lemma_varint_prefix(r1, t);
        let r2 = spec_varint(r1).1;
        lemma_varint_prefix(r2, t);
        let r3 = spec_varint(r2).1;
        lemma_string_utf8_prefix(r3, t);
        let r4 = spec_string_utf8(r3).1;
        assert((r4 + t).skip(2) =~= r4.skip(2) + t);
        lemma_varint_prefix(r4.skip(2), t);
    }
}

/// The VarInt encoding of `v` from its `k`-th group of seven bits on: each group in a byte,
/// least significant first, with the high bit set on every byte but the last, and no byte after
/// the last group that holds a set bit (at most five bytes).
pub open spec fn varint_bytes_from(v: u32, k: nat) -> Seq<u8>
    decreases 4 - k,
{
    let group = ((v >> ((7 * k) as u32)) & 0x7f) as u8;
    if k >= 4 || (v >> ((7 * (k + 1)) as u32)) == 0 {
        seq![group]
    } else {
        seq![group | 0x80] + varint_bytes_from(v, k + 1)
    }
}

/// The VarInt encoding of `x`, taken as its 32 bits.
pub open spec fn varint_encode(x: i32) -> Seq<u8> {
    varint_bytes_from(x as u32, 0)
}

/// The low `7 * k` bits of `v`.
pub open spec fn varint_low_bits(v: u32, k: nat) -> u32 {
    if k == 0 {
        0
    } else if k == 1 {
        v & 0x7f
    } else if k == 2 {
        v & 0x3fff
    } else if k == 3 {
        v & 0x1f_ffff
    } else if k == 4 {
        v & 0xfff_ffff
    } else {
        v
    }
}

/// The bit facts behind one byte of a VarInt: the byte gives back its group and its
/// continuation bit, the group extends the bits read so far, and the last group completes them.
proof fn lemma_varint_group(v: u32, k: nat)
    requires
        k <= 4,
    ensures
        ({
            let g = ((v >> ((7 * k) as u32)) & 0x7f) as u8;
            &&& g & 0x7f == g
            &&& g & 0x80 == 0
            &&& (g | 0x80) & 0x7f == g
            &&& (g | 0x80) & 0x80 != 0
            &&& varint_low_bits(v, k) | ((g as u32) << ((7 * k) as u32)) == varint_low_bits(v, k + 1)
            &&& (k >= 4 || (v >> ((7 * (k + 1)) as u32)) == 0) ==> varint_low_bits(v, k + 1) == v
        }),
{
    let shift = (7 * k) as u32;
    let g = ((v >> shift) & 0x7f) as u8;
    assert(((v >> shift) & 0x7f) as u8 <= 0x7f) by (bit_vector);
    assert(g & 0x7f == g && g & 0x80 == 0 && (g | 0x80) & 0x7f == g && (g | 0x80) & 0x80 != 0)
        by (bit_vector)
        requires
            g <= 0x7f,
    ;
    if k == 0 {
        assert(0u32 | ((((v >> 0u32) & 0x7f) as u8 as u32) << 0u32) == v & 0x7f) by (bit_vector);
        assert((v >> 7u32) == 0 ==> v & 0x7f == v) by (bit_vector);
    } else if k == 1 {
        assert((v & 0x7f) | ((((v >> 7u32) & 0x7f) as u8 as u32) << 7u32) == v & 0x3fff) by (bit_vector);
        assert((v >> 14u32) == 0 ==> v & 0x3fff == v) by (bit_vector);
    } else if k == 2 {
        assert((v & 0x3fff) | ((((v >> 14u32) & 0x7f) as u8 as u32) << 14u32) == v & 0x1f_ffff)
            by (bit_vector);
        assert((v >> 21u32) == 0 ==> v & 0x1f_ffff == v) by (bit_vector);
    } else if k == 3 {
        assert((v & 0x1f_ffff) | ((((v >> 21u32) & 0x7f) as u8 as u32) << 21u32) == v & 0xfff_ffff)
            by (bit_vector);
        assert((v >> 28u32) == 0 ==> v & 0xfff_ffff == v) by (bit_vector);
    } else {
        assert((v & 0xfff_ffff) | ((((v >> 28u32) & 0x7f) as u8 as u32) << 28u32) == v)
            by (bit_vector);
    }
}

/// Reading the encoding of `v` from its `k`-th group on, with the groups before read already,
/// gives `v` and consumes exactly the encoding.
proof fn lemma_varint_from_encoding(v: u32, k: nat, s: Seq<u8>)
    requires
        k <= 4,
        k + varint_bytes_from(v, k).len() <= s.len(),
        s.subrange(k as int, (k + varint_bytes_from(v, k).len()) as int) == varint_bytes_from(v, k),
    ensures
        varint_from(s, k, varint_low_bits(v, k)) == (
        Ok::<u32, ParseFailure>(v), k + varint_bytes_from(v, k).len()),
    decreases 4 - k,
{
    let e = varint_bytes_from(v, k);
    lemma_varint_group(v, k);
    assert(s[k as int] == e[0]);
    if !(k >= 4 || (v >> ((7 * (k + 1)) as u32)) == 0) {
        let e2 = varint_bytes_from(v, k + 1);
        assert(s.subrange((k + 1) as int, (k + 1 + e2.len()) as int) =~= e.subrange(1, e.len() as int));
        assert(e.subrange(1, e.len() as int) =~= e2);
        lemma_varint_from_encoding(v, k + 1, s);
    }
}

/// A VarInt written in the protocol's encoding reads back: the value comes out and the bytes
/// after the encoding are left.
pub proof fn lemma_varint_round_trip(x: i32, rest: Seq<u8>)
    ensures
        spec_varint(varint_encode(x) + rest) == (Ok::<i32, ParseFailure>(x), rest),
        1 <= varint_encode(x).len() <= 5,
{
    let v = x as u32;
    let e = varint_encode(x);
    let s = e + rest;
    lemma_varint_encoding_length(v, 0);
    assert(s.subrange(0, e.len() as int) =~= e);
    lemma_varint_from_encoding(v, 0, s);
    assert(s.skip(e.len() as int) =~= rest);
    assert((x as u32) as i32 == x) by (bit_vector);
}

/// The encoding from the `k`-th group on has between one and `5 - k` bytes.
proof fn lemma_varint_encoding_length(v: u32, k: nat)
    requires
        k <= 4,
    ensures
        1 <= varint_bytes_from(v, k).len() <= 5 - k,
    decreases 4 - k,
{
    if !(k >= 4 || (v >> ((7 * (k + 1)) as u32)) == 0) {
        lemma_varint_encoding_length(v, k + 1);
    }
}

/// The bytes of a modern handshake: VarInt packet length, packet id and protocol version, the
/// hostname's bytes prefixed by their VarInt length, the two port bytes and the VarInt next
/// state.
pub open spec fn modern_handshake_bytes(
    packet_length: i32,
    packet_id: i32,
    protocol_version: i32,
    hostname: Seq<u8>,
    port: Seq<u8>,
    next_state: i32,
) -> Seq<u8> {
    varint_encode(packet_length) + varint_encode(packet_id) + varint_encode(protocol_version)
        + varint_encode(hostname.len() as i32) + hostname + port + varint_encode(next_state)
}

/// A modern handshake reads back its hostname, given that the hostname's bytes decode as UTF-8 to
/// `hostname_chars` (and that the first byte is not the one that marks a pre-1.7 handshake).
proof fn lemma_modern_handshake_given_decoding(
    packet_length: i32,
    packet_id: i32,
    protocol_version: i32,
    hostname: Seq<u8>,
    port: Seq<u8>,
    next_state: i32,
    hostname_chars: Seq<char>,
)
    requires
        hostname.len() <= i32::MAX,
        port.len() == 2,
        utf8_decoded(hostname) == Some(hostname_chars),
        ({
            let b = modern_handshake_bytes(
                packet_length,
                packet_id,
                protocol_version,
                hostname,
                port,
                next_state,
            );
            !(b[0] == 0xfe && b[1] == 0x01 && b[2] == 0xfa)
        }),
    ensures
        spec_handshake(
            modern_handshake_bytes(packet_length, packet_id, protocol_version, hostname, port, next_state),
        ) == Ok::<Option<Seq<char>>, ParseFailure>(Some(hostname_chars)),
        spec_handshake_hostname(
            modern_handshake_bytes(packet_length, packet_id, protocol_version, hostname, port, next_state),
        ) == Some(hostname_chars),
{
    let b = modern_handshake_bytes(packet_length, packet_id, protocol_version, hostname, port, next_state);
    let e1 = varint_encode(packet_length);
    let e2 = varint_encode(packet_id);
    let e3 = varint_encode(protocol_version);
    let e4 = varint_encode(hostname.len() as i32);
    let e5 = varint_encode(next_state);
    let r4 = port + e5;
    let r3 = e4 + (hostname + r4);
    let r2 = e3 + r3;
    let r1 = e2 + r2;
    assert(b =~= e1 + r1);
    lemma_varint_round_trip(packet_length, r1);
    lemma_varint_round_trip(packet_id, r2);
    lemma_varint_round_trip(protocol_version, r3);
    lemma_varint_round_trip(hostname.len() as i32, hostname + r4);
    lemma_varint_round_trip(next_state, Seq::<u8>::empty());
    assert((hostname + r4).take(hostname.len() as int) =~= hostname);
    assert((hostname + r4).skip(hostname.len() as int) =~= r4);
    assert(r4.skip(2) =~= e5 + Seq::<u8>::empty());
    assert(b.len() >= 3);
    assert(!has_legacy_magic(b));
    assert(spec_string_utf8(r3) == (Ok::<Seq<char>, ParseFailure>(hostname_chars), r4));
}

/// UTF-16 code units as big-endian byte pairs.
pub open spec fn units_be_bytes(units: Seq<u16>) -> Seq<u8> {
    Seq::new(
        2 * units.len(),
        |i: int|
            if i % 2 == 0 {
                (units[i / 2] / 256) as u8
            } else {
                (units[i / 2] % 256) as u8
            },
    )
}

/// A UTF-16 string field: the number of code units as a big-endian `u16`, then the units.
pub open spec fn utf16_field(units: Seq<u16>) -> Seq<u8> {
    seq![(units.len() / 256) as u8, (units.len() % 256) as u8] + units_be_bytes(units)
}

/// A UTF-16 string field reads back its code units, decoded, and leaves what follows it.
proof fn lemma_utf16_field_round_trip(units: Seq<u16>, rest: Seq<u8>)
    requires
        units.len() < 0x1_0000,
    ensures
        spec_string_utf16(utf16_field(units) + rest) == (
            match utf16_decoded(units) {
                Some(cs) => Ok::<Seq<char>, ParseFailure>(cs),
                None => Err(ParseFailure::InvalidUtf16),
            },
            rest,
        ),
{
    let s = utf16_field(units) + rest;
    let body = units_be_bytes(units);
    let n = units.len();
    assert(s[0] == (n / 256) as u8 && s[1] == (n % 256) as u8);
    assert(be_u16(s[0], s[1]) == n);
    assert(s.skip(2) =~= body + rest);
    assert((body + rest).take((2 * n) as int) =~= body);
    assert((body + rest).skip((2 * n) as int) =~= rest);
    assert forall|i: int| 0 <= i < n implies #[trigger] be_units(body)[i] == units[i] by {
        assert(body[2 * i] == (units[i] / 256) as u8);
        assert(body[2 * i + 1] == (units[i] % 256) as u8);
    }
    assert(be_units(body) =~= units);
}

/// The bytes of a pre-1.7 handshake: the magic bytes, the message as a UTF-16 field, a 2-byte
/// payload length, a 1-byte protocol version, the hostname as a UTF-16 field and a 4-byte port.
pub open spec fn legacy_handshake_bytes(
    message: Seq<u16>,
    payload_length: Seq<u8>,
    protocol_version: u8,
    hostname: Seq<u16>,
    port: Seq<u8>,
) -> Seq<u8> {
    seq![0xfeu8, 0x01u8, 0xfau8] + utf16_field(message) + payload_length + seq![protocol_version]
        + utf16_field(hostname) + port
}

/// A pre-1.7 handshake reads back its hostname, given that the message's code units decode as
/// UTF-16 to `MC|PingHost` and the hostname's to `hostname_chars`.
proof fn lemma_legacy_handshake_given_decoding(
    message: Seq<u16>,
    payload_length: Seq<u8>,
    protocol_version: u8,
    hostname: Seq<u16>,
    port: Seq<u8>,
    hostname_chars: Seq<char>,
)
    requires
        message.len() < 0x1_0000,
        hostname.len() < 0x1_0000,
        payload_length.len() == 2,
        port.len() == 4,
        utf16_decoded(message) == Some(ping_host_message()),
        utf16_decoded(hostname) == Some(hostname_chars),
    ensures
        spec_handshake(legacy_handshake_bytes(message, payload_length, protocol_version, hostname, port))
            == Ok::<Option<Seq<char>>, ParseFailure>(Some(hostname_chars)),
        spec_handshake_hostname(
            legacy_handshake_bytes(message, payload_length, protocol_version, hostname, port),
        ) == Some(hostname_chars),
{
    let b = legacy_handshake_bytes(message, payload_length, protocol_version, hostname, port);
    let r2 = utf16_field(hostname) + port;
    let r1 = (payload_length + seq![protocol_version]) + r2;
    assert(b.skip(3) =~= utf16_field(message) + r1);
    assert(b[0] == 0xfe && b[1] == 0x01 && b[2] == 0xfa);
    lemma_utf16_field_round_trip(message, r1);
    assert(r1.skip(3) =~= r2);
    lemma_utf16_field_round_trip(hostname, port);
}

/// A modern handshake written in the protocol's encoding, with any hostname, reads back that
/// hostname: VarInt fields, the hostname's UTF-8 bytes prefixed by their VarInt length, two port
/// bytes and a VarInt next state. Only the full three-byte pre-1.7 magic `fe 01 fa` sends bytes
/// down the pre-1.7 path, so every such handshake that does not open with it reads back, whatever
/// its first byte.
pub proof fn lemma_modern_handshake_round_trip(
    packet_length: i32,
    packet_id: i32,
    protocol_version: i32,
    hostname: Seq<char>,
    port: Seq<u8>,
    next_state: i32,
)
    requires
        encode_utf8(hostname).len() <= i32::MAX,
        port.len() == 2,
        ({
            let b = modern_handshake_bytes(
                packet_length,
                packet_id,
                protocol_version,
                encode_utf8(hostname),
                port,
                next_state,
            );
            !(b[0] == 0xfe && b[1] == 0x01 && b[2] == 0xfa)
        }),
    ensures
        spec_handshake_hostname(
            modern_handshake_bytes(
                packet_length,
                packet_id,
                protocol_version,
                encode_utf8(hostname),
                port,
                next_state,
            ),
        ) == Some(hostname),
{
    vstd::utf8::encode_utf8_valid_utf8(hostname);
    vstd::utf8::encode_utf8_decode_utf8(hostname);
    lemma_modern_handshake_given_decoding(
        packet_length,
        packet_id,
        protocol_version,
        encode_utf8(hostname),
        port,
        next_state,
        hostname,
    );
}

/// A pre-1.7 handshake written in the protocol's encoding, with any hostname, reads back that
/// hostname: the magic bytes, `MC|PingHost` as a UTF-16 field, any 2-byte payload length and
/// protocol version byte, the hostname as a UTF-16 field and any 4-byte port.
pub proof fn lemma_legacy_handshake_round_trip(
    payload_length: Seq<u8>,
    protocol_version: u8,
    hostname: Seq<char>,
    port: Seq<u8>,
)
    requires
        utf16_encode(hostname).len() < 0x1_0000,
        payload_length.len() == 2,
        port.len() == 4,
    ensures
        spec_handshake_hostname(
            legacy_handshake_bytes(
                utf16_encode(ping_host_message()),
                payload_length,
                protocol_version,
                utf16_encode(hostname),
                port,
            ),
        ) == Some(hostname),
{
    reveal_strlit("MC|PingHost");
    lemma_utf16_encode_decode(ping_host_message());
    lemma_utf16_encode_decode(hostname);
    lemma_legacy_handshake_given_decoding(
        utf16_encode(ping_host_message()),
        payload_length,
        protocol_version,
        utf16_encode(hostname),
        port,
        hostname,
    );
}

/// A UTF-8 string field reads back: for any body and anything after it, reading the body's VarInt
/// length followed by the body gives the body's UTF-8 decoding where it is valid UTF-8 (and
/// `InvalidUtf8` where it is not), and leaves exactly what came after, empty or not.
pub proof fn lemma_string_utf8_round_trip(body: Seq<u8>, rest: Seq<u8>)
    requires
        body.len() <= i32::MAX,
    ensures
        valid_utf8(body) ==> spec_string_utf8(varint_encode(body.len() as i32) + body + rest) == (
            Ok::<Seq<char>, ParseFailure>(decode_utf8(body)),
            rest,
        ),
        !valid_utf8(body) ==> spec_string_utf8(varint_encode(body.len() as i32) + body + rest) == (
            Err::<Seq<char>, ParseFailure>(ParseFailure::InvalidUtf8),
            rest,
        ),
{
    let e = varint_encode(body.len() as i32);
    assert(e + body + rest =~= e + (body + rest));
    lemma_varint_round_trip(body.len() as i32, body + rest);
    assert((body + rest).take(body.len() as int) =~= body);
    assert((body + rest).skip(body.len() as int) =~= rest);
}

/// A UTF-16 string field reads back: for any characters whose UTF-16 encoding fits the `u16`
/// length, reading the unit count followed by the units as big-endian pairs gives the characters
/// and leaves exactly what came after, empty or not.
pub proof fn lemma_string_utf16_round_trip(chars: Seq<char>, rest: Seq<u8>)
    requires
        utf16_encode(chars).len() < 0x1_0000,
    ensures
        spec_string_utf16(utf16_field(utf16_encode(chars)) + rest) == (
            Ok::<Seq<char>, ParseFailure>(chars),
            rest,
        ),
{
    lemma_utf16_encode_decode(chars);
    lemma_utf16_field_round_trip(utf16_encode(chars), rest);
}

/// The count of bytes that the first `k` of successive reads consumed.
pub open spec fn total_consumed(counts: Seq<nat>, k: nat) -> nat
    decreases k,
{
    if k == 0 {
        0
    } else {
        total_consumed(counts, (k - 1) as nat) + counts[k - 1]
    }
}

/// Over successive reads of a buffer, each consuming some bytes from the front, what is left after
/// the first `k` reads is the original bytes without the total they consumed, and `left()` (the
/// length of what is left) has dropped by that total.
pub proof fn lemma_buffer_consumption(views: Seq<Seq<u8>>, counts: Seq<nat>, k: nat)
    requires
        views.len() == counts.len() + 1,
        forall|t: int|
            0 <= t < counts.len() ==> #[trigger] counts[t] <= views[t].len() && views[t + 1]
                == views[t].skip(counts[t] as int),
        k <= counts.len(),
    ensures
        total_consumed(counts, k) <= views[0].len(),
        views[k as int] == views[0].skip(total_consumed(counts, k) as int),
        views[k as int].len() == views[0].len() - total_consumed(counts, k),
    decreases k,
{
    if k == 0 {
        assert(views[0].skip(0) =~= views[0]);
    } else {
        let prev = k - 1;
        lemma_buffer_consumption(views, counts, prev as nat);
        assert(views[prev + 1] == views[prev].skip(counts[prev] as int));
        assert(views[k as int] =~= views[0].skip(total_consumed(counts, k) as int));
    }
}

} // verus!
