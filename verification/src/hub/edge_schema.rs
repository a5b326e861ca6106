//! The requests an edge device sends inside a session, and the rules that
//! turn the fields read from a request buffer into a request.
use vstd::prelude::*;
use crate::text::{decimal, push_decimal};

verus! {

/// The most records one upload may carry.
pub const MAX_UPLOAD_RECORDS: usize = 10000;

/// One key/value sample uploaded by a device.
#[derive(Debug, PartialEq, Clone)]
pub struct DataRecord {
    pub key: String,
    pub value: Vec<u8>,
    pub timestamp: u64,
}

/// A request of an edge device.
#[derive(Debug, PartialEq, Clone)]
pub enum EdgeRequest {
    Heartbeat { node_id: u64, timestamp: u64 },
    UploadData { records: Vec<DataRecord> },
    AuthHello { device_id: u64, timestamp: u64, nonce: u64 },
}

/// The model of a record: key, value bytes and timestamp.
pub type RecordModel = (Seq<char>, Seq<u8>, u64);

/// The model of a request.
pub enum RequestModel {
    Heartbeat { node_id: u64, timestamp: u64 },
    UploadData { records: Seq<RecordModel> },
    AuthHello { device_id: u64, timestamp: u64, nonce: u64 },
}

pub open spec fn record_model(r: DataRecord) -> RecordModel {
    (r.key@, r.value@, r.timestamp)
}

impl EdgeRequest {
    pub open spec fn view(&self) -> RequestModel {
        match self {
            EdgeRequest::Heartbeat { node_id, timestamp } => RequestModel::Heartbeat {
                node_id: *node_id,
                timestamp: *timestamp,
            },
            EdgeRequest::UploadData { records } => RequestModel::UploadData {
                records: Seq::new(records@.len(), |i: int| record_model(records@[i])),
            },
            EdgeRequest::AuthHello { device_id, timestamp, nonce } => RequestModel::AuthHello {
                device_id: *device_id,
                timestamp: *timestamp,
                nonce: *nonce,
            },
        }
    }
}

/// A record as read from the buffer: key and value may be absent.
pub struct RawRecord {
    pub key: Option<String>,
    pub value: Option<Vec<u8>>,
    pub timestamp: u64,
}

/// The table of the union member, as read for the union type.
pub enum RawPayload {
    Heartbeat { node_id: u64, timestamp: u64 },
    UploadData { records: Option<Vec<RawRecord>> },
    AuthHello { device_id: u64, timestamp: u64, nonce: u64 },
}

/// The root of a request buffer: the union type and, if present, its table.
pub struct RawEdgeRequest {
    pub req_type: u8,
    pub payload: Option<RawPayload>,
}

/// The union type codes of the request schema.
pub const REQ_TYPE_NONE: u8 = 0;
pub const REQ_TYPE_HEARTBEAT: u8 = 1;
pub const REQ_TYPE_UPLOAD_DATA: u8 = 2;
pub const REQ_TYPE_AUTH_HELLO: u8 = 3;

/// Why the fields of a request buffer do not make a request.
#[derive(Debug, Clone, Copy, PartialEq, Eq, Structural)]
pub enum EdgeSchemaError {
    MissingHeartbeat,
    MissingUploadData,
    MissingRecords,
    TooManyRecords(u64),
    MissingAuthHello,
    UnknownRequestType(u8),
}

/// The model of a record read from the buffer.
pub open spec fn raw_record_model(r: RawRecord) -> (Option<Seq<char>>, Option<Seq<u8>>, u64) {
    (
        match r.key {
            Some(k) => Some(k@),
            None => None,
        },
        match r.value {
            Some(v) => Some(v@),
            None => None,
        },
        r.timestamp,
    )
}

/// A record read from the buffer, with an absent key or value empty.
pub open spec fn record_from_raw(r: (Option<Seq<char>>, Option<Seq<u8>>, u64)) -> RecordModel {
    (
        match r.0 {
            Some(k) => k,
            None => Seq::<char>::empty(),
        },
        match r.1 {
            Some(v) => v,
            None => Seq::<u8>::empty(),
        },
        r.2,
    )
}

/// What `decode_request` makes of the fields read from a request buffer.
pub open spec fn spec_decode_request(raw: RawEdgeRequest) -> Result<RequestModel, EdgeSchemaError> {
    if raw.req_type == REQ_TYPE_HEARTBEAT {
        match raw.payload {
            Some(RawPayload::Heartbeat { node_id, timestamp }) => Ok(
                RequestModel::Heartbeat { node_id, timestamp },
            ),
            _ => Err(EdgeSchemaError::MissingHeartbeat),
        }
    } else if raw.req_type == REQ_TYPE_UPLOAD_DATA {
        match raw.payload {
            Some(RawPayload::UploadData { records }) => match records {
                None => Err(EdgeSchemaError::MissingRecords),
                Some(rs) => if rs@.len() > MAX_UPLOAD_RECORDS {
                    Err(EdgeSchemaError::TooManyRecords(rs@.len() as u64))
                } else {
                    Ok(
                        RequestModel::UploadData {
                            records: Seq::new(
                                rs@.len(),
                                |i: int| record_from_raw(raw_record_model(rs@[i])),
                            ),
                        },
                    )
                },
            },
            _ => Err(EdgeSchemaError::MissingUploadData),
        }
    } else if raw.req_type == REQ_TYPE_AUTH_HELLO {
        match raw.payload {
            Some(RawPayload::AuthHello { device_id, timestamp, nonce }) => Ok(
                RequestModel::AuthHello { device_id, timestamp, nonce },
            ),
            _ => Err(EdgeSchemaError::MissingAuthHello),
        }
    } else {
        Err(EdgeSchemaError::UnknownRequestType(raw.req_type))
    }
}

fn record_from(r: &RawRecord) -> (out: DataRecord)
    ensures
        record_model(out) == record_from_raw(raw_record_model(*r)),
{
    let key = match &r.key {
        Some(k) => k.clone(),
        None => String::new(),
    };
    let value = match &r.value {
        Some(v) => v.clone(),
        None => Vec::new(),
    };
    let out = DataRecord { key, value, timestamp: r.timestamp };
    assert(out.value@ =~= record_from_raw(raw_record_model(*r)).1);
    out
}

/// Turns the fields read from a request buffer into a request: the union
/// type must name one of the three requests and its table must be there;
/// an upload must carry its record list, of at most `MAX_UPLOAD_RECORDS`.
pub fn decode_request(raw: &RawEdgeRequest) -> (r: Result<EdgeRequest, EdgeSchemaError>)
    ensures
        match r {
            Ok(q) => spec_decode_request(*raw) == Ok::<RequestModel, EdgeSchemaError>(q@),
            Err(e) => spec_decode_request(*raw) == Err::<RequestModel, EdgeSchemaError>(e),
        },
{
    if raw.req_type == REQ_TYPE_HEARTBEAT {
        match &raw.payload {
            Some(RawPayload::Heartbeat { node_id, timestamp }) => Ok(
                EdgeRequest::Heartbeat { node_id: *node_id, timestamp: *timestamp },
            ),
            _ => Err(EdgeSchemaError::MissingHeartbeat),
        }
    } else if raw.req_type == REQ_TYPE_UPLOAD_DATA {
        match &raw.payload {
            Some(RawPayload::UploadData { records }) => match records {
                None => Err(EdgeSchemaError::MissingRecords),
                Some(rs) => {
                    if rs.len() > MAX_UPLOAD_RECORDS {
                        return Err(EdgeSchemaError::TooManyRecords(rs.len() as u64));
                    }
                    let mut out: Vec<DataRecord> = Vec::new();
                    let mut i: usize = 0;
                    while i < rs.len()
                        invariant
                            i <= rs@.len(),
                            out@.len() == i,
                            forall|j: int|
                                0 <= j < i ==> record_model(#[trigger] out@[j])
                                    == record_from_raw(raw_record_model(rs@[j])),
                        decreases rs.len() - i,
                    {
                        out.push(record_from(&rs[i]));
                        i = i + 1;
                    }
                    assert(Seq::new(out@.len(), |i: int| record_model(out@[i])) =~= Seq::new(
                        rs@.len(),
                        |i: int| record_from_raw(raw_record_model(rs@[i])),
                    ));
                    Ok(EdgeRequest::UploadData { records: out })
                },
            },
            _ => Err(EdgeSchemaError::MissingUploadData),
        }
    } else if raw.req_type == REQ_TYPE_AUTH_HELLO {
        match &raw.payload {
            Some(RawPayload::AuthHello { device_id, timestamp, nonce }) => Ok(
                EdgeRequest::AuthHello { device_id: *device_id, timestamp: *timestamp, nonce: *nonce },
            ),
            _ => Err(EdgeSchemaError::MissingAuthHello),
        }
    } else {
        Err(EdgeSchemaError::UnknownRequestType(raw.req_type))
    }
}

/// How the schema's union type prints: its member name, `NONE` for zero.
pub open spec fn req_type_name(t: u8) -> Seq<char> {
    if t == REQ_TYPE_NONE {
        "NONE"@
    } else if t == REQ_TYPE_HEARTBEAT {
        "Heartbeat"@
    } else if t == REQ_TYPE_UPLOAD_DATA {
        "UploadData"@
    } else if t == REQ_TYPE_AUTH_HELLO {
        "AuthHello"@
    } else {
        "<UNKNOWN "@ + decimal(t as nat) + ">"@
    }
}

/// The text of each error.
pub open spec fn schema_error_text(e: EdgeSchemaError) -> Seq<char> {
    match e {
        EdgeSchemaError::MissingHeartbeat => "Missing heartbeat"@,
        EdgeSchemaError::MissingUploadData => "Missing upload data"@,
        EdgeSchemaError::MissingRecords => "Missing records"@,
        EdgeSchemaError::TooManyRecords(n) => "Too many records: "@ + decimal(n as nat),
        EdgeSchemaError::MissingAuthHello => "Missing auth hello"@,
        EdgeSchemaError::UnknownRequestType(t) => "Unknown request type: "@ + req_type_name(t),
    }
}

impl EdgeSchemaError {
    /// The error's message.
    pub fn to_text(&self) -> (r: String)
        ensures
            r@ == schema_error_text(*self),
    {
        match self {
            EdgeSchemaError::MissingHeartbeat => String::from_str("Missing heartbeat"),
            EdgeSchemaError::MissingUploadData => String::from_str("Missing upload data"),
            EdgeSchemaError::MissingRecords => String::from_str("Missing records"),
            EdgeSchemaError::TooManyRecords(n) => {
                let mut s = String::from_str("Too many records: ");
                push_decimal(&mut s, *n);
                s
            },
            EdgeSchemaError::MissingAuthHello => String::from_str("Missing auth hello"),
            EdgeSchemaError::UnknownRequestType(t) => {
                let mut s = String::from_str("Unknown request type: ");
                if *t == REQ_TYPE_NONE {
                    s.append("NONE");
                } else if *t == REQ_TYPE_HEARTBEAT {
                    s.append("Heartbeat");
                } else if *t == REQ_TYPE_UPLOAD_DATA {
                    s.append("UploadData");
                } else if *t == REQ_TYPE_AUTH_HELLO {
                    s.append("AuthHello");
                } else {
                    s.append("<UNKNOWN ");
                    push_decimal(&mut s, *t as u64);
                    s.append(">");
                }
                s
            },
        }
    }
}

} // verus!
