use vstd::prelude::*;

use crate::common::{
    le_bytes, push_u16, push_u32, push_units, push_zeros, units_bytes, utf16_of, utf16_units,
    zero_bytes, LuStr33, LuWStr33,
};

verus! {

/// The answer of the authentication service to a login request.
#[derive(Debug)]
pub enum LoginResponse {
    /// The login succeeded: the session key, and the address and port of
    /// the world server to go to.
    Success { session_key: LuWStr33, redirect_address: (LuStr33, u16) },
    /// The login failed with a message for the player.
    CustomMessage(String),
    /// The user name or the password is wrong.
    InvalidUsernamePassword,
}

/// Messages of the authentication service to a client.
#[derive(Debug)]
pub enum ClientMessage {
    LoginResponse(LoginResponse),
}

/// The bytes of a login response: its one-byte code, then its fixed layout,
/// integers least significant byte first.
pub open spec fn login_response_bytes(r: LoginResponse) -> Seq<u8> {
    match r {
        LoginResponse::Success { session_key, redirect_address } => seq![1u8] + zero_bytes(264)
            + le_bytes(1, 2) + le_bytes(10, 2) + le_bytes(64, 2) + units_bytes(session_key@)
            + redirect_address.0@ + zero_bytes(33) + le_bytes(redirect_address.1 as nat, 2)
            + zero_bytes(91) + le_bytes(4, 4),
        LoginResponse::CustomMessage(msg) => seq![5u8] + zero_bytes(493)
            + le_bytes((utf16_of(msg@).len() as u16) as nat, 2) + units_bytes(utf16_of(msg@))
            + le_bytes(4, 4),
        LoginResponse::InvalidUsernamePassword => seq![6u8] + zero_bytes(495) + le_bytes(4, 4),
    }
}

/// The bytes of a client message: the message's 32-bit id, a zero byte, then
/// the message itself.
pub open spec fn client_message_bytes(m: ClientMessage) -> Seq<u8> {
    match m {
        ClientMessage::LoginResponse(r) => le_bytes(0, 4) + seq![0u8] + login_response_bytes(r),
    }
}

impl LoginResponse {
    /// Appends the response's bytes to `out`.
    pub fn serialize(&self, out: &mut Vec<u8>)
        ensures
            final(out)@ == old(out)@ + login_response_bytes(*self),
    {
        match self {
            LoginResponse::Success { session_key, redirect_address } => {
                out.push(1u8);
                push_zeros(out, 264);
                push_u16(out, 1);
                push_u16(out, 10);
                push_u16(out, 64);
                session_key.write(out);
                redirect_address.0.write(out);
                push_zeros(out, 33);
                push_u16(out, redirect_address.1);
                push_zeros(out, 91);
                push_u32(out, 4);
            },
            LoginResponse::CustomMessage(msg) => {
                out.push(5u8);
                push_zeros(out, 493);
                let units = utf16_units(msg.as_str());
                push_u16(out, units.len() as u16);
                push_units(out, &units);
                push_u32(out, 4);
            },
            LoginResponse::InvalidUsernamePassword => {
                out.push(6u8);
                push_zeros(out, 495);
                push_u32(out, 4);
            },
        }
        assert(final(out)@ =~= old(out)@ + login_response_bytes(*self));
    }

    pub fn to_bytes(&self) -> (r: Vec<u8>)
        ensures
            r@ == login_response_bytes(*self),
    {
        let mut out: Vec<u8> = Vec::new();
        self.serialize(&mut out);
        assert(out@ =~= login_response_bytes(*self));
        out
    }
}

impl ClientMessage {
    /// Appends the message's bytes to `out`.
    pub fn serialize(&self, out: &mut Vec<u8>)
        ensures
            final(out)@ == old(out)@ + client_message_bytes(*self),
    {
        match self {
            ClientMessage::LoginResponse(r) => {
                push_u32(out, 0);
                out.push(0u8);
                r.serialize(out);
            },
        }
        assert(final(out)@ =~= old(out)@ + client_message_bytes(*self));
    }

    pub fn to_bytes(&self) -> (r: Vec<u8>)
        ensures
            r@ == client_message_bytes(*self),
    {
        let mut out: Vec<u8> = Vec::new();
        self.serialize(&mut out);
        assert(out@ =~= client_message_bytes(*self));
        out
    }
}

impl From<LoginResponse> for ClientMessage {
    fn from(r: LoginResponse) -> (m: ClientMessage) {
        ClientMessage::LoginResponse(r)
    }
}

impl vstd::std_specs::convert::FromSpecImpl<LoginResponse> for ClientMessage {
    open spec fn obeys_from_spec() -> bool {
        true
    }

    open spec fn from_spec(r: LoginResponse) -> ClientMessage {
        ClientMessage::LoginResponse(r)
    }
}

} // verus!
