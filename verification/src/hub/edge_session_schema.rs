//! Session authentication of edge traffic: the byte strings that are
//! signed, the HMAC-SHA256 tags (truncated to 16 bytes) over them, and the
//! checks of the tags that come in.
use vstd::prelude::*;
use crate::hub::edge_schema::EdgeRequest;
use crate::hub::protocol::extend_bytes;
use crate::wire::{le_bytes, push_le};

verus! {

/// The authentication fields of an `AuthHello`.
#[derive(Debug, Clone, PartialEq)]
pub struct SessionMeta {
    pub device_id: u64,
    pub timestamp_ms: u64,
    pub nonce: u64,
    pub mac: [u8; 16],
}

/// The authentication fields of a session request.
#[derive(Debug, Clone, PartialEq)]
pub struct SessionRequestMeta {
    pub session_id: u64,
    pub timestamp_ms: u64,
    pub nonce: u64,
    pub mac: [u8; 16],
}

/// The hub's answer to an accepted `AuthHello`.
#[derive(Debug, Clone, PartialEq)]
pub struct AuthAck {
    pub session_id: u64,
    pub session_key: Vec<u8>,
    pub ttl_ms: u64,
}

/// A response signed with the session key.
#[derive(Debug, Clone, PartialEq)]
pub struct SignedResponse {
    pub session_id: u64,
    pub timestamp_ms: u64,
    pub nonce: u64,
    pub payload: Vec<u8>,
    pub mac: [u8; 16],
}

/// The length of the frame header part that a signed response covers.
pub const HEADER_PREFIX_LEN: usize = 14;

/// Why a signed message was refused.
#[derive(Debug, Clone, Copy, PartialEq, Eq, Structural)]
pub enum SessionSchemaError {
    InvalidHmacKey,
    MissingMac,
    MissingPayload,
    MissingSessionKey,
    UnknownDevice,
    UnknownSession,
    HeaderPrefixLength,
    AuthHelloSignatureMismatch,
    SessionSignatureMismatch,
    SignedResponseSignatureMismatch,
    NotAuthHello,
}

/// The text of each refusal.
pub open spec fn session_error_text(e: SessionSchemaError) -> Seq<char> {
    match e {
        SessionSchemaError::InvalidHmacKey => "Invalid HMAC key"@,
        SessionSchemaError::MissingMac => "Missing mac"@,
        SessionSchemaError::MissingPayload => "Missing payload"@,
        SessionSchemaError::MissingSessionKey => "Missing session_key"@,
        SessionSchemaError::UnknownDevice => "Unknown device"@,
        SessionSchemaError::UnknownSession => "Unknown session"@,
        SessionSchemaError::HeaderPrefixLength => "header_prefix must be 14 bytes"@,
        SessionSchemaError::AuthHelloSignatureMismatch => "AuthHello signature mismatch"@,
        SessionSchemaError::SessionSignatureMismatch => "Session signature mismatch"@,
        SessionSchemaError::SignedResponseSignatureMismatch => "SignedResponse signature mismatch"@,
        SessionSchemaError::NotAuthHello => "encode_auth_hello expects EdgeRequest::AuthHello"@,
    }
}

impl SessionSchemaError {
    /// The refusal's message.
    pub fn to_text(&self) -> (r: &'static str)
        ensures
            r@ == session_error_text(*self),
    {
        match self {
            SessionSchemaError::InvalidHmacKey => "Invalid HMAC key",
            SessionSchemaError::MissingMac => "Missing mac",
            SessionSchemaError::MissingPayload => "Missing payload",
            SessionSchemaError::MissingSessionKey => "Missing session_key",
            SessionSchemaError::UnknownDevice => "Unknown device",
            SessionSchemaError::UnknownSession => "Unknown session",
            SessionSchemaError::HeaderPrefixLength => "header_prefix must be 14 bytes",
            SessionSchemaError::AuthHelloSignatureMismatch => "AuthHello signature mismatch",
            SessionSchemaError::SessionSignatureMismatch => "Session signature mismatch",
            SessionSchemaError::SignedResponseSignatureMismatch => "SignedResponse signature mismatch",
            SessionSchemaError::NotAuthHello => "encode_auth_hello expects EdgeRequest::AuthHello",
        }
    }
}

/// The HMAC-SHA256 tag of `data` under `key`.
pub uninterp spec fn hmac_sha256(key: Seq<u8>, data: Seq<u8>) -> Seq<u8>;

/// The HMAC-SHA256 tag of `data` under `secret`.
///
/// Calls `hmac::Mac::new_from_slice` for `hmac::Hmac<sha2::Sha256>`, then
/// `update` and `finalize`, and copies the tag out. The contract claims that
/// the key is accepted (the crate's source returns `Ok` for keys of any
/// length), that the tag is the one `hmac_sha256` names for these arguments,
/// and that it has the 32 bytes of a SHA-256 output.
#[verifier::external_body]
fn hmac_sha256_tag(secret: &[u8], data: &[u8]) -> (r: Option<Vec<u8>>)
    ensures
        r is Some,
        r matches Some(t) ==> t@ == hmac_sha256(secret@, data@) && t@.len() == 32,
{
    let mut mac = match <hmac::Hmac<sha2::Sha256> as hmac::Mac>::new_from_slice(secret) {
        Ok(m) => m,
        Err(_) => return None,
    };
    hmac::Mac::update(&mut mac, data);
    Some(hmac::Mac::finalize(mac).into_bytes().to_vec())
}

/// The first 16 bytes of the HMAC-SHA256 tag of `data` under `secret`.
fn hmac_truncate_16(secret: &[u8], data: &[u8]) -> (r: Option<[u8; 16]>)
    ensures
        r is Some,
        r matches Some(m) ==> m@ == hmac_sha256(secret@, data@).subrange(0, 16),
{
    let t = match hmac_sha256_tag(secret, data) {
        Some(t) => t,
        None => {
            return None;
        },
    };
    let out: [u8; 16] = [t[0], t[1], t[2], t[3], t[4], t[5], t[6], t[7], t[8], t[9], t[10], t[11], t[12], t[13], t[14], t[15]];
    assert(out@ =~= t@.subrange(0, 16));
    Some(out)
}

/// The tag, or `InvalidHmacKey` where the key is refused.
fn tag_of(secret: &[u8], data: &[u8]) -> (r: Result<[u8; 16], SessionSchemaError>)
    ensures
        r matches Ok(m) && m@ == hmac_sha256(secret@, data@).subrange(0, 16),
{
    match hmac_truncate_16(secret, data) {
        Some(m) => Ok(m),
        None => Err(SessionSchemaError::InvalidHmacKey),
    }
}

fn push_u64_le(buf: &mut Vec<u8>, value: u64)
    ensures
        final(buf)@ == old(buf)@ + le_bytes(value as nat, 8),
{
    push_le(buf, value, 8);
}

/// What an `AuthHello` signs: device id, timestamp and nonce, little-endian.
pub open spec fn spec_auth_hello_input(device_id: u64, timestamp_ms: u64, nonce: u64) -> Seq<u8> {
    le_bytes(device_id as nat, 8) + le_bytes(timestamp_ms as nat, 8) + le_bytes(nonce as nat, 8)
}

/// What a session request signs: the same three fields, then the payload.
pub open spec fn spec_session_input(
    session_id: u64,
    timestamp_ms: u64,
    nonce: u64,
    payload: Seq<u8>,
) -> Seq<u8> {
    spec_auth_hello_input(session_id, timestamp_ms, nonce) + payload
}

/// What a signed response signs: the header prefix, then as a session request.
pub open spec fn spec_signed_response_input(
    header_prefix: Seq<u8>,
    session_id: u64,
    timestamp_ms: u64,
    nonce: u64,
    payload: Seq<u8>,
) -> Seq<u8> {
    header_prefix + spec_session_input(session_id, timestamp_ms, nonce, payload)
}

fn auth_hello_signing_input(device_id: u64, timestamp_ms: u64, nonce: u64) -> (r: Vec<u8>)
    ensures
        r@ == spec_auth_hello_input(device_id, timestamp_ms, nonce),
{
    let mut buf: Vec<u8> = Vec::new();
    push_u64_le(&mut buf, device_id);
    push_u64_le(&mut buf, timestamp_ms);
    push_u64_le(&mut buf, nonce);
    assert(buf@ =~= spec_auth_hello_input(device_id, timestamp_ms, nonce));
    buf
}

fn session_signing_input(session_id: u64, timestamp_ms: u64, nonce: u64, payload: &[u8]) -> (r:
    Vec<u8>)
    ensures
        r@ == spec_session_input(session_id, timestamp_ms, nonce, payload@),
{
    let mut buf = auth_hello_signing_input(session_id, timestamp_ms, nonce);
    extend_bytes(&mut buf, payload);
    buf
}

fn signed_response_signing_input(
    header_prefix: &[u8],
    session_id: u64,
    timestamp_ms: u64,
    nonce: u64,
    payload: &[u8],
) -> (r: Result<Vec<u8>, SessionSchemaError>)
    ensures
        header_prefix@.len() != HEADER_PREFIX_LEN ==> r == Err::<Vec<u8>, SessionSchemaError>(
            SessionSchemaError::HeaderPrefixLength,
        ),
        header_prefix@.len() == HEADER_PREFIX_LEN ==> (r matches Ok(v) && v@
            == spec_signed_response_input(header_prefix@, session_id, timestamp_ms, nonce, payload@)),
{
    if header_prefix.len() != HEADER_PREFIX_LEN {
        return Err(SessionSchemaError::HeaderPrefixLength);
    }
    let mut buf: Vec<u8> = Vec::new();
    extend_bytes(&mut buf, header_prefix);
    let tail = session_signing_input(session_id, timestamp_ms, nonce, payload);
    extend_bytes(&mut buf, tail.as_slice());
    assert(buf@ =~= spec_signed_response_input(header_prefix@, session_id, timestamp_ms, nonce, payload@));
    Ok(buf)
}

/// The 16-byte tag of `data` under `key`.
pub open spec fn tag16(key: Seq<u8>, data: Seq<u8>) -> Seq<u8> {
    hmac_sha256(key, data).subrange(0, 16)
}

fn bytes_eq(a: &[u8], b: &[u8]) -> (r: bool)
    ensures
        r == (a@ == b@),
{
    if a.len() != b.len() {
        return false;
    }
    let mut i: usize = 0;
    while i < a.len()
        invariant
            a@.len() == b@.len(),
            i <= a@.len(),
            forall|j: int| 0 <= j < i ==> a@[j] == b@[j],
        decreases a.len() - i,
    {
        if a[i] != b[i] {
            return false;
        }
        i = i + 1;
    }
    assert(a@ =~= b@);
    true
}

/// The tag an `AuthHello` of `req` carries under `secret`, with the fields it signs.
pub fn sign_auth_hello(secret: &[u8], req: &EdgeRequest) -> (r: Result<(u64, u64, u64, [u8; 16]),
    SessionSchemaError>)
    ensures
        match req {
            EdgeRequest::AuthHello { device_id, timestamp, nonce } => r matches Ok(
                (d, t, n, m),
            ) && d == device_id && t == timestamp && n == nonce && m@ == tag16(
                secret@,
                spec_auth_hello_input(*device_id, *timestamp, *nonce),
            ),
            _ => r == Err::<(u64, u64, u64, [u8; 16]), SessionSchemaError>(
                SessionSchemaError::NotAuthHello,
            ),
        },
{
    let (device_id, timestamp_ms, nonce) = match req {
        EdgeRequest::AuthHello { device_id, timestamp, nonce } => (*device_id, *timestamp, *nonce),
        _ => {
            return Err(SessionSchemaError::NotAuthHello);
        },
    };
    let signing = auth_hello_signing_input(device_id, timestamp_ms, nonce);
    let mac = tag_of(secret, signing.as_slice())?;
    Ok((device_id, timestamp_ms, nonce, mac))
}

/// The tag a session request carries under the session key.
pub fn sign_session_request(
    session_key: &[u8],
    session_id: u64,
    timestamp_ms: u64,
    nonce: u64,
    payload: &[u8],
) -> (r: Result<[u8; 16], SessionSchemaError>)
    ensures
        r matches Ok(m) && m@ == tag16(
            session_key@,
            spec_session_input(session_id, timestamp_ms, nonce, payload@),
        ),
        r matches Ok(m) && m@ == hmac_sha256(
            session_key@,
            le_bytes(session_id as nat, 8) + le_bytes(timestamp_ms as nat, 8) + le_bytes(nonce as nat, 8)
                + payload@,
        ).subrange(0, 16),
{
    let signing = session_signing_input(session_id, timestamp_ms, nonce, payload);
    tag_of(session_key, signing.as_slice())
}

/// The tag a response carries under the session key.
pub fn sign_response(
    session_key: &[u8],
    header_prefix: &[u8],
    session_id: u64,
    timestamp_ms: u64,
    nonce: u64,
    payload: &[u8],
) -> (r: Result<[u8; 16], SessionSchemaError>)
    ensures
        header_prefix@.len() != HEADER_PREFIX_LEN ==> r == Err::<[u8; 16], SessionSchemaError>(
            SessionSchemaError::HeaderPrefixLength,
        ),
        header_prefix@.len() == HEADER_PREFIX_LEN ==> (r matches Ok(m) && m@ == tag16(
            session_key@,
            spec_signed_response_input(header_prefix@, session_id, timestamp_ms, nonce, payload@),
        )),
        header_prefix@.len() == HEADER_PREFIX_LEN ==> (r matches Ok(m) && m@ == hmac_sha256(
            session_key@,
            header_prefix@ + le_bytes(session_id as nat, 8) + le_bytes(timestamp_ms as nat, 8) + le_bytes(
                nonce as nat,
                8,
            ) + payload@,
        ).subrange(0, 16)),
{
    let signing = signed_response_signing_input(
        header_prefix,
        session_id,
        timestamp_ms,
        nonce,
        payload,
    )?;
    assert(signing@ =~= header_prefix@ + le_bytes(session_id as nat, 8) + le_bytes(timestamp_ms as nat, 8)
        + le_bytes(nonce as nat, 8) + payload@);
    tag_of(session_key, signing.as_slice())
}

/// The fields of an `AuthHello` table.
pub struct AuthHelloFields {
    pub device_id: u64,
    pub timestamp: u64,
    pub nonce: u64,
    pub mac: Option<Vec<u8>>,
}

/// What checking an `AuthHello` gives: its fields when the tag matches.
pub open spec fn spec_check_auth_hello(
    device_id: u64,
    timestamp: u64,
    nonce: u64,
    mac: Option<Seq<u8>>,
    secret: Option<Seq<u8>>,
) -> Result<(), SessionSchemaError> {
    match mac {
        None => Err(SessionSchemaError::MissingMac),
        Some(m) => match secret {
            None => Err(SessionSchemaError::UnknownDevice),
            Some(k) => if m != tag16(k, spec_auth_hello_input(device_id, timestamp, nonce)) {
                Err(SessionSchemaError::AuthHelloSignatureMismatch)
            } else {
                Ok(())
            },
        },
    }
}

pub open spec fn opt_bytes(o: Option<Vec<u8>>) -> Option<Seq<u8>> {
    match o {
        Some(v) => Some(v@),
        None => None,
    }
}

pub open spec fn opt_slice(o: Option<&[u8]>) -> Option<Seq<u8>> {
    match o {
        Some(v) => Some(v@),
        None => None,
    }
}

/// Checks an `AuthHello` against the secret of its device (`None` when the
/// device is unknown), and returns its fields and the request it stands for.
pub fn check_auth_hello(fields: &AuthHelloFields, secret: Option<&[u8]>) -> (r: Result<
    (SessionMeta, EdgeRequest),
    SessionSchemaError,
>)
    ensures
        match spec_check_auth_hello(
            fields.device_id,
            fields.timestamp,
            fields.nonce,
            opt_bytes(fields.mac),
            opt_slice(secret),
        ) {
            Err(e) => r == Err::<(SessionMeta, EdgeRequest), SessionSchemaError>(e),
            Ok(()) => r matches Ok((meta, req)) && meta.device_id == fields.device_id
                && meta.timestamp_ms == fields.timestamp && meta.nonce == fields.nonce && Some(
                meta.mac@,
            ) == opt_bytes(fields.mac) && req == (EdgeRequest::AuthHello {
                device_id: fields.device_id,
                timestamp: fields.timestamp,
                nonce: fields.nonce,
            }),
        },
{
    let mac_bytes = match &fields.mac {
        Some(m) => m,
        None => {
            return Err(SessionSchemaError::MissingMac);
        },
    };
    let secret = match secret {
        Some(s) => s,
        None => {
            return Err(SessionSchemaError::UnknownDevice);
        },
    };
    let signing = auth_hello_signing_input(fields.device_id, fields.timestamp, fields.nonce);
    let expected = tag_of(secret, signing.as_slice())?;
    if !bytes_eq(mac_bytes.as_slice(), &expected) {
        return Err(SessionSchemaError::AuthHelloSignatureMismatch);
    }
    let meta = SessionMeta {
        device_id: fields.device_id,
        timestamp_ms: fields.timestamp,
        nonce: fields.nonce,
        mac: expected,
    };
    let req = EdgeRequest::AuthHello {
        device_id: fields.device_id,
        timestamp: fields.timestamp,
        nonce: fields.nonce,
    };
    Ok((meta, req))
}

/// The fields of an `AuthAck` table.
pub struct AuthAckFields {
    pub session_id: u64,
    pub session_key: Option<Vec<u8>>,
    pub ttl_ms: u64,
}

/// The acknowledgement an `AuthAck` table stands for; the key must be there.
pub fn auth_ack_from_fields(fields: &AuthAckFields) -> (r: Result<AuthAck, SessionSchemaError>)
    ensures
        match fields.session_key {
            None => r == Err::<AuthAck, SessionSchemaError>(SessionSchemaError::MissingSessionKey),
            Some(k) => r matches Ok(a) && a.session_id == fields.session_id && a.session_key@
                == k@ && a.ttl_ms == fields.ttl_ms,
        },
{
    match &fields.session_key {
        None => Err(SessionSchemaError::MissingSessionKey),
        Some(k) => Ok(
            AuthAck { session_id: fields.session_id, session_key: k.clone(), ttl_ms: fields.ttl_ms },
        ),
    }
}

/// The fields of a signed table: a session request or a signed response.
pub struct SignedFields {
    pub session_id: u64,
    pub timestamp_ms: u64,
    pub nonce: u64,
    pub mac: Option<Vec<u8>>,
    pub payload: Option<Vec<u8>>,
}

/// What checking a session request gives.
pub open spec fn spec_check_session_request(
    session_id: u64,
    timestamp_ms: u64,
    nonce: u64,
    mac: Option<Seq<u8>>,
    payload: Option<Seq<u8>>,
    secret: Option<Seq<u8>>,
) -> Result<(), SessionSchemaError> {
    match mac {
        None => Err(SessionSchemaError::MissingMac),
        Some(m) => match payload {
            None => Err(SessionSchemaError::MissingPayload),
            Some(p) => match secret {
                None => Err(SessionSchemaError::UnknownSession),
                Some(k) => if m != tag16(k, spec_session_input(session_id, timestamp_ms, nonce, p)) {
                    Err(SessionSchemaError::SessionSignatureMismatch)
                } else {
                    Ok(())
                },
            },
        },
    }
}

/// Checks a session request against its session key (`None` when the
/// session is unknown); on success returns its fields and the payload, which
/// holds the request.
pub fn check_session_request(fields: &SignedFields, secret: Option<&[u8]>) -> (r: Result<
    (SessionRequestMeta, Vec<u8>),
    SessionSchemaError,
>)
    ensures
        match spec_check_session_request(
            fields.session_id,
            fields.timestamp_ms,
            fields.nonce,
            opt_bytes(fields.mac),
            opt_bytes(fields.payload),
            opt_slice(secret),
        ) {
            Err(e) => r == Err::<(SessionRequestMeta, Vec<u8>), SessionSchemaError>(e),
            Ok(()) => r matches Ok((meta, p)) && meta.session_id == fields.session_id
                && meta.timestamp_ms == fields.timestamp_ms && meta.nonce == fields.nonce && Some(
                meta.mac@,
            ) == opt_bytes(fields.mac) && Some(p@) == opt_bytes(fields.payload),
        },
{
    let mac_bytes = match &fields.mac {
        Some(m) => m,
        None => {
            return Err(SessionSchemaError::MissingMac);
        },
    };
    let payload = match &fields.payload {
        Some(p) => p,
        None => {
            return Err(SessionSchemaError::MissingPayload);
        },
    };
    let secret = match secret {
        Some(s) => s,
        None => {
            return Err(SessionSchemaError::UnknownSession);
        },
    };
    let signing = session_signing_input(
        fields.session_id,
        fields.timestamp_ms,
        fields.nonce,
        payload.as_slice(),
    );
    let expected = tag_of(secret, signing.as_slice())?;
    if !bytes_eq(mac_bytes.as_slice(), &expected) {
        return Err(SessionSchemaError::SessionSignatureMismatch);
    }
    let meta = SessionRequestMeta {
        session_id: fields.session_id,
        timestamp_ms: fields.timestamp_ms,
        nonce: fields.nonce,
        mac: expected,
    };
    Ok((meta, payload.clone()))
}

/// What checking a signed response gives.
pub open spec fn spec_check_signed_response(
    header_prefix: Seq<u8>,
    session_id: u64,
    timestamp_ms: u64,
    nonce: u64,
    mac: Option<Seq<u8>>,
    payload: Option<Seq<u8>>,
    secret: Option<Seq<u8>>,
) -> Result<(), SessionSchemaError> {
    match mac {
        None => Err(SessionSchemaError::MissingMac),
        Some(m) => match payload {
            None => Err(SessionSchemaError::MissingPayload),
            Some(p) => match secret {
                None => Err(SessionSchemaError::UnknownSession),
                Some(k) => if header_prefix.len() != HEADER_PREFIX_LEN {
                    Err(SessionSchemaError::HeaderPrefixLength)
                } else if m != tag16(
                    k,
                    spec_signed_response_input(header_prefix, session_id, timestamp_ms, nonce, p),
                ) {
                    Err(SessionSchemaError::SignedResponseSignatureMismatch)
                } else {
                    Ok(())
                },
            },
        },
    }
}

/// Checks a signed response against its session key and the header prefix
/// of the frame it came in.
pub fn check_signed_response(
    fields: &SignedFields,
    header_prefix: &[u8],
    secret: Option<&[u8]>,
) -> (r: Result<SignedResponse, SessionSchemaError>)
    ensures
        match spec_check_signed_response(
            header_prefix@,
            fields.session_id,
            fields.timestamp_ms,
            fields.nonce,
            opt_bytes(fields.mac),
            opt_bytes(fields.payload),
            opt_slice(secret),
        ) {
            Err(e) => r == Err::<SignedResponse, SessionSchemaError>(e),
            Ok(()) => r matches Ok(s) && s.session_id == fields.session_id && s.timestamp_ms
                == fields.timestamp_ms && s.nonce == fields.nonce && Some(s.mac@) == opt_bytes(
                fields.mac,
            ) && Some(s.payload@) == opt_bytes(fields.payload),
        },
{
    let mac_bytes = match &fields.mac {
        Some(m) => m,
        None => {
            return Err(SessionSchemaError::MissingMac);
        },
    };
    let payload = match &fields.payload {
        Some(p) => p,
        None => {
            return Err(SessionSchemaError::MissingPayload);
        },
    };
    let secret = match secret {
        Some(s) => s,
        None => {
            return Err(SessionSchemaError::UnknownSession);
        },
    };
    let signing = signed_response_signing_input(
        header_prefix,
        fields.session_id,
        fields.timestamp_ms,
        fields.nonce,
        payload.as_slice(),
    )?;
    let expected = tag_of(secret, signing.as_slice())?;
    if !bytes_eq(mac_bytes.as_slice(), &expected) {
        return Err(SessionSchemaError::SignedResponseSignatureMismatch);
    }
    Ok(
        SignedResponse {
            session_id: fields.session_id,
            timestamp_ms: fields.timestamp_ms,
            nonce: fields.nonce,
            payload: payload.clone(),
            mac: expected,
        },
    )
}

/// A hello signed with the device's secret passes the check with that secret.
pub proof fn lemma_signed_auth_hello_accepted(
    secret: Seq<u8>,
    device_id: u64,
    timestamp: u64,
    nonce: u64,
)
    ensures
        spec_check_auth_hello(
            device_id,
            timestamp,
            nonce,
            Some(tag16(secret, spec_auth_hello_input(device_id, timestamp, nonce))),
            Some(secret),
        ) == Ok::<(), SessionSchemaError>(()),
{
}

/// A session request signed with the session key passes the check with that key.
pub proof fn lemma_signed_session_request_accepted(
    key: Seq<u8>,
    session_id: u64,
    timestamp_ms: u64,
    nonce: u64,
    payload: Seq<u8>,
)
    ensures
        spec_check_session_request(
            session_id,
            timestamp_ms,
            nonce,
            Some(tag16(key, spec_session_input(session_id, timestamp_ms, nonce, payload))),
            Some(payload),
            Some(key),
        ) == Ok::<(), SessionSchemaError>(()),
{
}

/// A response signed with the session key over a header prefix of the right
/// length passes the check with that key and prefix.
pub proof fn lemma_signed_response_accepted(
    key: Seq<u8>,
    header_prefix: Seq<u8>,
    session_id: u64,
    timestamp_ms: u64,
    nonce: u64,
    payload: Seq<u8>,
)
    requires
        header_prefix.len() == HEADER_PREFIX_LEN,
    ensures
        spec_check_signed_response(
            header_prefix,
            session_id,
            timestamp_ms,
            nonce,
            Some(
                tag16(
                    key,
                    spec_signed_response_input(header_prefix, session_id, timestamp_ms, nonce, payload),
                ),
            ),
            Some(payload),
            Some(key),
        ) == Ok::<(), SessionSchemaError>(()),
{
}

/// The bytes a session request signs: its session id, timestamp and nonce,
/// each as eight little-endian bytes, then its payload. A session request
/// passes the check with key `key` exactly when its tag is the first 16
/// bytes of HMAC-SHA256 under `key` of those bytes.
pub proof fn lemma_session_request_tag_bytes(
    key: Seq<u8>,
    session_id: u64,
    timestamp_ms: u64,
    nonce: u64,
    mac: Seq<u8>,
    payload: Seq<u8>,
)
    ensures
        spec_check_session_request(session_id, timestamp_ms, nonce, Some(mac), Some(payload), Some(key)) is Ok
            <==> mac == hmac_sha256(
            key,
            le_bytes(session_id as nat, 8) + le_bytes(timestamp_ms as nat, 8) + le_bytes(nonce as nat, 8)
                + payload,
        ).subrange(0, 16),
        spec_check_session_request(session_id, timestamp_ms, nonce, Some(mac), Some(payload), Some(key)) is Err
            ==> spec_check_session_request(session_id, timestamp_ms, nonce, Some(mac), Some(payload), Some(key))
            == Err::<(), SessionSchemaError>(SessionSchemaError::SessionSignatureMismatch),
{
}

/// The bytes a signed response signs: the header prefix of its frame, then
/// its session id, timestamp and nonce, each as eight little-endian bytes,
/// then its payload. A response with a header prefix of the right length
/// passes the check with key `key` exactly when its tag is the first 16
/// bytes of HMAC-SHA256 under `key` of those bytes.
pub proof fn lemma_signed_response_tag_bytes(
    key: Seq<u8>,
    header_prefix: Seq<u8>,
    session_id: u64,
    timestamp_ms: u64,
    nonce: u64,
    mac: Seq<u8>,
    payload: Seq<u8>,
)
    requires
        header_prefix.len() == HEADER_PREFIX_LEN,
    ensures
        spec_check_signed_response(header_prefix, session_id, timestamp_ms, nonce, Some(mac), Some(payload), Some(key))
            is Ok <==> mac == hmac_sha256(
            key,
            header_prefix + le_bytes(session_id as nat, 8) + le_bytes(timestamp_ms as nat, 8) + le_bytes(
                nonce as nat,
                8,
            ) + payload,
        ).subrange(0, 16),
{
    assert(header_prefix + (le_bytes(session_id as nat, 8) + le_bytes(timestamp_ms as nat, 8) + le_bytes(
        nonce as nat,
        8,
    ) + payload) =~= header_prefix + le_bytes(session_id as nat, 8) + le_bytes(timestamp_ms as nat, 8)
        + le_bytes(nonce as nat, 8) + payload);
}

/// The bytes an `AuthHello` signs: its device id, timestamp and nonce, each
/// as eight little-endian bytes. A hello passes the check with the device's
/// secret exactly when its tag is the first 16 bytes of HMAC-SHA256 under
/// that secret of those bytes.
pub proof fn lemma_auth_hello_tag_bytes(secret: Seq<u8>, device_id: u64, timestamp: u64, nonce: u64, mac: Seq<u8>)
    ensures
        spec_check_auth_hello(device_id, timestamp, nonce, Some(mac), Some(secret)) is Ok <==> mac
            == hmac_sha256(
            secret,
            le_bytes(device_id as nat, 8) + le_bytes(timestamp as nat, 8) + le_bytes(nonce as nat, 8),
        ).subrange(0, 16),
{
}

} // verus!
