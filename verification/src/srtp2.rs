//! The status codes of libsrtp 2.
use vstd::prelude::*;

verus! {

/// A wrapper around the Srtp2 error codes
#[derive(Debug, Copy, Clone, PartialOrd, PartialEq, Eq, Structural)]
pub enum Srtp2ErrorCode {
    Success,
    Fail,
    BadParam,
    AllocFail,
    DeallocFail,
    InitFail,
    Terminus,
    AuthFail,
    CipherFail,
    ReplayFail,
    ReplayOld,
    AlgoFail,
    NoSuchOp,
    NoCtx,
    CantCheck,
    KeyExpired,
    SocketErr,
    SignalErr,
    NonceBad,
    ReadFail,
    WriteFail,
    ParseErr,
    EncodeErr,
    SemaphoreErr,
    PfKeyErr,
    BadMki,
    PktIdxOld,
    PktIdxAdv,
}

/// The code for a libsrtp `srtp_err_status_t` value, numbered as libsrtp 2
/// numbers them from `srtp_err_status_ok = 0` to
/// `srtp_err_status_pkt_idx_adv = 27`; any other value is a failure.
pub open spec fn error_code_from(code: u32) -> Srtp2ErrorCode {
    if code == 0 { Srtp2ErrorCode::Success }
    else if code == 1 { Srtp2ErrorCode::Fail }
    else if code == 2 { Srtp2ErrorCode::BadParam }
    else if code == 3 { Srtp2ErrorCode::AllocFail }
    else if code == 4 { Srtp2ErrorCode::DeallocFail }
    else if code == 5 { Srtp2ErrorCode::InitFail }
    else if code == 6 { Srtp2ErrorCode::Terminus }
    else if code == 7 { Srtp2ErrorCode::AuthFail }
    else if code == 8 { Srtp2ErrorCode::CipherFail }
    else if code == 9 { Srtp2ErrorCode::ReplayFail }
    else if code == 10 { Srtp2ErrorCode::ReplayOld }
    else if code == 11 { Srtp2ErrorCode::AlgoFail }
    else if code == 12 { Srtp2ErrorCode::NoSuchOp }
    else if code == 13 { Srtp2ErrorCode::NoCtx }
    else if code == 14 { Srtp2ErrorCode::CantCheck }
    else if code == 15 { Srtp2ErrorCode::KeyExpired }
    else if code == 16 { Srtp2ErrorCode::SocketErr }
    else if code == 17 { Srtp2ErrorCode::SignalErr }
    else if code == 18 { Srtp2ErrorCode::NonceBad }
    else if code == 19 { Srtp2ErrorCode::ReadFail }
    else if code == 20 { Srtp2ErrorCode::WriteFail }
    else if code == 21 { Srtp2ErrorCode::ParseErr }
    else if code == 22 { Srtp2ErrorCode::EncodeErr }
    else if code == 23 { Srtp2ErrorCode::SemaphoreErr }
    else if code == 24 { Srtp2ErrorCode::PfKeyErr }
    else if code == 25 { Srtp2ErrorCode::BadMki }
    else if code == 26 { Srtp2ErrorCode::PktIdxOld }
    else if code == 27 { Srtp2ErrorCode::PktIdxAdv }
    else { Srtp2ErrorCode::Fail }
}

impl Srtp2ErrorCode {
    pub fn from(code: u32) -> (r: Srtp2ErrorCode)
        ensures
            r == error_code_from(code),
    {
        match code {
            0 => Srtp2ErrorCode::Success,
            1 => Srtp2ErrorCode::Fail,
            2 => Srtp2ErrorCode::BadParam,
            3 => Srtp2ErrorCode::AllocFail,
            4 => Srtp2ErrorCode::DeallocFail,
            5 => Srtp2ErrorCode::InitFail,
            6 => Srtp2ErrorCode::Terminus,
            7 => Srtp2ErrorCode::AuthFail,
            8 => Srtp2ErrorCode::CipherFail,
            9 => Srtp2ErrorCode::ReplayFail,
            10 => Srtp2ErrorCode::ReplayOld,
            11 => Srtp2ErrorCode::AlgoFail,
            12 => Srtp2ErrorCode::NoSuchOp,
            13 => Srtp2ErrorCode::NoCtx,
            14 => Srtp2ErrorCode::CantCheck,
            15 => Srtp2ErrorCode::KeyExpired,
            16 => Srtp2ErrorCode::SocketErr,
            17 => Srtp2ErrorCode::SignalErr,
            18 => Srtp2ErrorCode::NonceBad,
            19 => Srtp2ErrorCode::ReadFail,
            20 => Srtp2ErrorCode::WriteFail,
            21 => Srtp2ErrorCode::ParseErr,
            22 => Srtp2ErrorCode::EncodeErr,
            23 => Srtp2ErrorCode::SemaphoreErr,
            24 => Srtp2ErrorCode::PfKeyErr,
            25 => Srtp2ErrorCode::BadMki,
            26 => Srtp2ErrorCode::PktIdxOld,
            27 => Srtp2ErrorCode::PktIdxAdv,
            _ => Srtp2ErrorCode::Fail,
        }
    }

    /// `Ok(())` when the code is `Srtp2ErrorCode::Success`, else the code as an
    /// error.
    pub fn success(&self) -> (r: Result<(), Self>)
        ensures
            r == if *self == Srtp2ErrorCode::Success { Ok::<(), Self>(()) } else { Err::<(), Self>(*self) },
    {
        if *self == Srtp2ErrorCode::Success {
            Ok(())
        } else {
            Err(*self)
        }
    }
}


pub const SRTP_MASTER_KEY_LENGTH: usize = 16;
pub const SRTP_MASTER_SALT_LENGTH: usize = 14;

/// The SRTP protection profile a DTLS handshake selected (RFC 5764).
#[derive(Debug, Copy, Clone, PartialEq, Eq, Structural)]
pub enum SrtpProfile {
    Aes128CmSha1_80,
    Aes128CmSha1_32,
    /// A profile of another kind, by its id.
    Other(u64),
}

/// The lengths of the master key and the master salt of a profile that
/// is supported: both AES counter mode profiles use a 16 byte key and a
/// 14 byte salt.
pub fn master_key_lengths(profile: SrtpProfile) -> (r: Option<(usize, usize)>)
    ensures
        r == match profile {
            SrtpProfile::Other(_) => None,
            _ => Some((16usize, 14usize)),
        },
{
    match profile {
        SrtpProfile::Aes128CmSha1_80 | SrtpProfile::Aes128CmSha1_32 => Some((SRTP_MASTER_KEY_LENGTH, SRTP_MASTER_SALT_LENGTH)),
        SrtpProfile::Other(_) => None,
    }
}

/// Why the SRTP keys of a DTLS connection cannot be set up from the
/// profile its handshake selected.
#[derive(Debug, Copy, Clone, PartialEq, Eq, Structural)]
pub enum SrtpProfileError {
    /// The handshake selected no SRTP profile.
    MissingSrtpProfile,
    /// The handshake selected a profile that is not supported.
    SrtpProfileNotSupported,
}

/// The lengths of the master key and the master salt for the profile a
/// DTLS handshake selected, or why there are none.
pub fn selected_profile_key_lengths(profile: Option<SrtpProfile>) -> (r: Result<(usize, usize), SrtpProfileError>)
    ensures
        r == match profile {
            None => Err::<(usize, usize), SrtpProfileError>(SrtpProfileError::MissingSrtpProfile),
            Some(SrtpProfile::Other(_)) => Err::<(usize, usize), SrtpProfileError>(SrtpProfileError::SrtpProfileNotSupported),
            Some(_) => Ok::<(usize, usize), SrtpProfileError>((16usize, 14usize)),
        },
{
    match profile {
        None => Err(SrtpProfileError::MissingSrtpProfile),
        Some(p) => match master_key_lengths(p) {
            Some(lengths) => Ok(lengths),
            None => Err(SrtpProfileError::SrtpProfileNotSupported),
        },
    }
}

/// The master key and salt of the DTLS client in keying material exported
/// for DTLS-SRTP (RFC 5764 section 4.2): the material holds the client's
/// key, the server's key, the client's salt and the server's salt, in
/// that order.
pub open spec fn client_key_salt(material: Seq<u8>, key_length: int, salt_length: int) -> Seq<u8> {
    material.subrange(0, key_length) + material.subrange(2 * key_length, 2 * key_length + salt_length)
}

/// The master key and salt of the DTLS server in the same material.
pub open spec fn server_key_salt(material: Seq<u8>, key_length: int, salt_length: int) -> Seq<u8> {
    material.subrange(key_length, 2 * key_length) + material.subrange(
        2 * key_length + salt_length,
        2 * key_length + 2 * salt_length,
    )
}

fn append_range(out: &mut Vec<u8>, data: &[u8], start: usize, end: usize)
    requires
        start <= end <= data@.len(),
    ensures
        final(out)@ == old(out)@ + data@.subrange(start as int, end as int),
{
    let mut i = start;
    while i < end
        invariant
            start <= i <= end,
            end <= data@.len(),
            out@ == old(out)@ + data@.subrange(start as int, i as int),
        decreases end - i,
    {
        out.push(data[i]);
        proof { assert(data@.subrange(start as int, i + 1) =~= data@.subrange(start as int, i as int).push(data@[i as int])); }
        i = i + 1;
    }
}

/// Splits exported keying material into the master key and salt of the
/// remote side and of this side, in that order: a DTLS server receives
/// what the client protects with the client's key.
pub fn split_keying_material(material: &[u8], key_length: usize, salt_length: usize, is_server: bool) -> (r: (Vec<u8>, Vec<u8>))
    requires
        2 * key_length + 2 * salt_length <= material@.len(),
    ensures
        r.0@ == (if is_server {
            client_key_salt(material@, key_length as int, salt_length as int)
        } else {
            server_key_salt(material@, key_length as int, salt_length as int)
        }),
        r.1@ == (if is_server {
            server_key_salt(material@, key_length as int, salt_length as int)
        } else {
            client_key_salt(material@, key_length as int, salt_length as int)
        }),
{
    let n = material.len();
    assert(2 * key_length + 2 * salt_length <= n);
    let mut client: Vec<u8> = Vec::new();
    let mut server: Vec<u8> = Vec::new();
    append_range(&mut client, material, 0, key_length);
    append_range(&mut server, material, key_length, 2 * key_length);
    append_range(&mut client, material, 2 * key_length, 2 * key_length + salt_length);
    append_range(&mut server, material, 2 * key_length + salt_length, 2 * key_length + 2 * salt_length);
    proof {
        assert(client@ =~= client_key_salt(material@, key_length as int, salt_length as int));
        assert(server@ =~= server_key_salt(material@, key_length as int, salt_length as int));
    }
    if is_server {
        (client, server)
    } else {
        (server, client)
    }
}

} // verus!
