//! The rules of adding a hub node: compatibility with the cluster baseline,
//! refusal codes, endpoint normalisation and the known gRPC endpoints.
use vstd::prelude::*;
use std::collections::HashMap;
use crate::pb::{AddHubRequest, AddHubResponse, NodeCompatibility};
use crate::server::spec_normalize_http_addr;
use crate::text::{decimal, push_decimal, str_starts_with};

verus! {

/// The versions every node of the cluster must run.
#[derive(Clone, Debug)]
pub struct ClusterBaseline {
    pub app_semver: String,
    pub sqlite_schema_version: u32,
    pub sled_format_version: u32,
    pub log_codec_version: u32,
}

/// Why an add-hub request was refused.
#[derive(Clone, Copy, Debug, PartialEq, Eq, Structural)]
pub enum AddHubErrorKind {
    InvalidArgument,
    AlreadyExists,
    IncompatibleAppVersion,
    IncompatibleSqliteSchema,
    IncompatibleSledFormat,
    IncompatibleLogCodec,
}

/// A refused add-hub request: its kind, a message and what to do about it.
#[derive(Debug)]
pub struct AddHubError {
    pub kind: AddHubErrorKind,
    pub message: String,
    pub suggested_action: String,
}

/// The refusal code reported for each kind.
pub open spec fn spec_reason_code(k: AddHubErrorKind) -> Seq<char> {
    match k {
        AddHubErrorKind::InvalidArgument => "INVALID_ARGUMENT"@,
        AddHubErrorKind::AlreadyExists => "NODE_ID_ALREADY_EXISTS"@,
        AddHubErrorKind::IncompatibleAppVersion => "INCOMPATIBLE_APP_VERSION"@,
        AddHubErrorKind::IncompatibleSqliteSchema => "INCOMPATIBLE_SQLITE_SCHEMA"@,
        AddHubErrorKind::IncompatibleSledFormat => "INCOMPATIBLE_SLED_FORMAT"@,
        AddHubErrorKind::IncompatibleLogCodec => "INCOMPATIBLE_LOG_CODEC"@,
    }
}

impl AddHubError {
    pub fn invalid_argument(message: &str, suggested_action: &str) -> (r: Self)
        ensures
            r.kind == AddHubErrorKind::InvalidArgument,
            r.message@ == message@,
            r.suggested_action@ == suggested_action@,
    {
        AddHubError {
            kind: AddHubErrorKind::InvalidArgument,
            message: String::from_str(message),
            suggested_action: String::from_str(suggested_action),
        }
    }

    pub fn already_exists(message: &str, suggested_action: &str) -> (r: Self)
        ensures
            r.kind == AddHubErrorKind::AlreadyExists,
            r.message@ == message@,
            r.suggested_action@ == suggested_action@,
    {
        AddHubError {
            kind: AddHubErrorKind::AlreadyExists,
            message: String::from_str(message),
            suggested_action: String::from_str(suggested_action),
        }
    }

    pub fn incompatible(kind: AddHubErrorKind, message: &str, suggested_action: &str) -> (r: Self)
        ensures
            r.kind == kind,
            r.message@ == message@,
            r.suggested_action@ == suggested_action@,
    {
        AddHubError {
            kind,
            message: String::from_str(message),
            suggested_action: String::from_str(suggested_action),
        }
    }

    pub fn reason_code(&self) -> (r: &'static str)
        ensures
            r@ == spec_reason_code(self.kind),
    {
        match self.kind {
            AddHubErrorKind::InvalidArgument => "INVALID_ARGUMENT",
            AddHubErrorKind::AlreadyExists => "NODE_ID_ALREADY_EXISTS",
            AddHubErrorKind::IncompatibleAppVersion => "INCOMPATIBLE_APP_VERSION",
            AddHubErrorKind::IncompatibleSqliteSchema => "INCOMPATIBLE_SQLITE_SCHEMA",
            AddHubErrorKind::IncompatibleSledFormat => "INCOMPATIBLE_SLED_FORMAT",
            AddHubErrorKind::IncompatibleLogCodec => "INCOMPATIBLE_LOG_CODEC",
        }
    }

    /// The error's message, as its `Display` shows it.
    pub fn to_text(&self) -> (r: String)
        ensures
            r@ == self.message@,
    {
        self.message.clone()
    }
}

/// Decides whether a node may join.
pub trait CompatibilityChecker {
    fn check(&self, req: &AddHubRequest) -> Result<(), AddHubError>;
}

/// Where the gRPC endpoint of each node is recorded.
pub trait TopologyService {
    fn upsert_grpc_addr(&mut self, node_id: u64, grpc_addr: String);

    fn get_grpc_addr(&self, node_id: u64) -> Option<String>;
}

/// Known gRPC endpoints kept in memory.
pub struct MemoryTopologyService {
    grpc_addrs: HashMap<u64, String>,
}

impl MemoryTopologyService {
    /// The known endpoints by node id.
    pub closed spec fn view(&self) -> Map<u64, Seq<char>> {
        Map::new(
            |k: u64| self.grpc_addrs@.contains_key(k),
            |k: u64| self.grpc_addrs@[k]@,
        )
    }
}

impl Default for MemoryTopologyService {
    fn default() -> (r: Self)
        ensures
            r@ == Map::<u64, Seq<char>>::empty(),
    {
        let r = MemoryTopologyService { grpc_addrs: HashMap::new() };
        assert(r@ =~= Map::<u64, Seq<char>>::empty());
        r
    }
}

impl TopologyService for MemoryTopologyService {
    fn upsert_grpc_addr(&mut self, node_id: u64, grpc_addr: String)
        ensures
            final(self)@ == old(self)@.insert(node_id, spec_normalize_http_addr(grpc_addr@)),
    {
        broadcast use vstd::std_specs::hash::group_hash_axioms;
        let addr = normalize_grpc_addr(grpc_addr);
        let ghost n = addr@;
        self.grpc_addrs.insert(node_id, addr);
        assert(self@ =~= old(self)@.insert(node_id, n));
    }

    fn get_grpc_addr(&self, node_id: u64) -> (r: Option<String>)
        ensures
            match r {
                Some(a) => self@.contains_key(node_id) && a@ == self@[node_id],
                None => !self@.contains_key(node_id),
            },
    {
        broadcast use vstd::std_specs::hash::group_hash_axioms;
        match self.grpc_addrs.get(&node_id) {
            Some(a) => Some(a.clone()),
            None => None,
        }
    }
}

/// The registry file of endpoints shared between the processes of one host.
/// Reading and writing the file happens outside the library; what an update
/// does to the registry is `upsert_registry`.
pub struct SharedFileTopologyService {
    pub registry_file: String,
}

impl SharedFileTopologyService {
    pub fn new(registry_file: String) -> (r: Self)
        ensures
            r.registry_file@ == registry_file@,
    {
        SharedFileTopologyService { registry_file }
    }
}

/// Records the normalised endpoint of `node_id` in a registry read from the
/// shared file, before it is written back.
pub fn upsert_registry(registry: &mut HashMap<u64, String>, node_id: u64, grpc_addr: String)
    ensures
        final(registry)@ == old(registry)@.insert(
            node_id,
            final(registry)@[node_id],
        ),
        final(registry)@[node_id]@ == spec_normalize_http_addr(grpc_addr@),
{
    broadcast use vstd::std_specs::hash::group_hash_axioms;
    let addr = normalize_grpc_addr(grpc_addr);
    registry.insert(node_id, addr);
}

/// Checks a request against a fixed baseline, field by field.
pub struct StrictCompatibilityChecker {
    pub baseline: ClusterBaseline,
}

impl StrictCompatibilityChecker {
    pub fn new(baseline: ClusterBaseline) -> (r: Self)
        ensures
            r.baseline == baseline,
    {
        StrictCompatibilityChecker { baseline }
    }
}

/// `"<field> mismatch: got <got>, expected <expected>"`.
pub open spec fn mismatch_text(field: Seq<char>, got: Seq<char>, expected: Seq<char>) -> Seq<
    char,
> {
    field + " mismatch: got "@ + got + ", expected "@ + expected
}

/// The refusal of `check`, if any: kind, message and suggested action.
pub open spec fn spec_check(b: ClusterBaseline, c: Option<NodeCompatibility>) -> Option<
    (AddHubErrorKind, Seq<char>, Seq<char>),
> {
    match c {
        None => Some(
            (
                AddHubErrorKind::InvalidArgument,
                "compatibility is required"@,
                "include NodeCompatibility in AddHubRequest"@,
            ),
        ),
        Some(c) => if c.app_semver@ != b.app_semver@ {
            Some(
                (
                    AddHubErrorKind::IncompatibleAppVersion,
                    mismatch_text("app_semver"@, c.app_semver@, b.app_semver@),
                    "upgrade or downgrade node app version to "@ + b.app_semver@,
                ),
            )
        } else if c.sqlite_schema_version != b.sqlite_schema_version {
            Some(
                (
                    AddHubErrorKind::IncompatibleSqliteSchema,
                    mismatch_text(
                        "sqlite_schema_version"@,
                        decimal(c.sqlite_schema_version as nat),
                        decimal(b.sqlite_schema_version as nat),
                    ),
                    "migrate sqlite schema to version "@ + decimal(b.sqlite_schema_version as nat),
                ),
            )
        } else if c.sled_format_version != b.sled_format_version {
            Some(
                (
                    AddHubErrorKind::IncompatibleSledFormat,
                    mismatch_text(
                        "sled_format_version"@,
                        decimal(c.sled_format_version as nat),
                        decimal(b.sled_format_version as nat),
                    ),
                    "migrate sled format to version "@ + decimal(b.sled_format_version as nat),
                ),
            )
        } else if c.log_codec_version != b.log_codec_version {
            Some(
                (
                    AddHubErrorKind::IncompatibleLogCodec,
                    mismatch_text(
                        "log_codec_version"@,
                        decimal(c.log_codec_version as nat),
                        decimal(b.log_codec_version as nat),
                    ),
                    "switch log codec to version "@ + decimal(b.log_codec_version as nat),
                ),
            )
        } else {
            None
        },
    }
}

fn mismatch_message(field: &str, got: &str, expected: &str) -> (r: String)
    ensures
        r@ == mismatch_text(field@, got@, expected@),
{
    let mut s = String::from_str(field);
    s.append(" mismatch: got ");
    s.append(got);
    s.append(", expected ");
    s.append(expected);
    s
}

fn mismatch_message_num(field: &str, got: u32, expected: u32) -> (r: String)
    ensures
        r@ == mismatch_text(field@, decimal(got as nat), decimal(expected as nat)),
{
    let mut s = String::from_str(field);
    s.append(" mismatch: got ");
    push_decimal(&mut s, got as u64);
    s.append(", expected ");
    push_decimal(&mut s, expected as u64);
    s
}

fn text_then_number(text: &str, n: u32) -> (r: String)
    ensures
        r@ == text@ + decimal(n as nat),
{
    let mut s = String::from_str(text);
    push_decimal(&mut s, n as u64);
    s
}

impl CompatibilityChecker for StrictCompatibilityChecker {
    fn check(&self, req: &AddHubRequest) -> (r: Result<(), AddHubError>)
        ensures
            match spec_check(self.baseline, req.compatibility) {
                None => r is Ok,
                Some((k, m, a)) => r matches Err(e) && e.kind == k && e.message@ == m
                    && e.suggested_action@ == a,
            },
    {
        let c = match &req.compatibility {
            Some(c) => c,
            None => {
                return Err(
                    AddHubError::invalid_argument(
                        "compatibility is required",
                        "include NodeCompatibility in AddHubRequest",
                    ),
                );
            },
        };
        let b = &self.baseline;
        if !crate::text::str_eq(c.app_semver.as_str(), b.app_semver.as_str()) {
            let mut action = String::from_str("upgrade or downgrade node app version to ");
            action.append(b.app_semver.as_str());
            return Err(
                AddHubError {
                    kind: AddHubErrorKind::IncompatibleAppVersion,
                    message: mismatch_message(
                        "app_semver",
                        c.app_semver.as_str(),
                        b.app_semver.as_str(),
                    ),
                    suggested_action: action,
                },
            );
        }
        if c.sqlite_schema_version != b.sqlite_schema_version {
            return Err(
                AddHubError {
                    kind: AddHubErrorKind::IncompatibleSqliteSchema,
                    message: mismatch_message_num(
                        "sqlite_schema_version",
                        c.sqlite_schema_version,
                        b.sqlite_schema_version,
                    ),
                    suggested_action: text_then_number(
                        "migrate sqlite schema to version ",
                        b.sqlite_schema_version,
                    ),
                },
            );
        }
        if c.sled_format_version != b.sled_format_version {
            return Err(
                AddHubError {
                    kind: AddHubErrorKind::IncompatibleSledFormat,
                    message: mismatch_message_num(
                        "sled_format_version",
                        c.sled_format_version,
                        b.sled_format_version,
                    ),
                    suggested_action: text_then_number(
                        "migrate sled format to version ",
                        b.sled_format_version,
                    ),
                },
            );
        }
        if c.log_codec_version != b.log_codec_version {
            return Err(
                AddHubError {
                    kind: AddHubErrorKind::IncompatibleLogCodec,
                    message: mismatch_message_num(
                        "log_codec_version",
                        c.log_codec_version,
                        b.log_codec_version,
                    ),
                    suggested_action: text_then_number(
                        "switch log codec to version ",
                        b.log_codec_version,
                    ),
                },
            );
        }
        Ok(())
    }
}

/// The versions a node of this build reports, for a given application version.
pub fn default_compatibility(app_semver: String) -> (r: NodeCompatibility)
    ensures
        r.app_semver@ == app_semver@,
        r.sqlite_schema_version == 1,
        r.sled_format_version == 1,
        r.log_codec_version == 1,
{
    NodeCompatibility {
        app_semver,
        sqlite_schema_version: 1,
        sled_format_version: 1,
        log_codec_version: 1,
    }
}

/// A gRPC endpoint with an `http://` scheme unless it already has one.
pub fn normalize_grpc_addr(addr: String) -> (r: String)
    ensures
        r@ == spec_normalize_http_addr(addr@),
{
    if str_starts_with(addr.as_str(), "http://") || str_starts_with(addr.as_str(), "https://") {
        addr
    } else {
        let mut out = String::from_str("http://");
        out.append(addr.as_str());
        out
    }
}

/// The answer that reports a refusal.
pub fn add_hub_error_response(err: AddHubError) -> (r: AddHubResponse)
    ensures
        r.membership_version == 0,
        r.leader_hint@ == Seq::<char>::empty(),
        r.reason_code@ == spec_reason_code(err.kind),
        r.suggested_action@ == err.suggested_action@,
{
    let code = err.reason_code();
    AddHubResponse {
        membership_version: 0,
        leader_hint: String::new(),
        reason_code: String::from_str(code),
        suggested_action: err.suggested_action,
    }
}

/// The answer that sends the caller to the leader.
pub fn not_leader_response(leader_hint: String) -> (r: AddHubResponse)
    ensures
        r.membership_version == 0,
        r.leader_hint@ == leader_hint@,
        r.reason_code@ == "NOT_LEADER"@,
        r.suggested_action@ == "retry request to leader_hint endpoint"@,
{
    AddHubResponse {
        membership_version: 0,
        leader_hint,
        reason_code: String::from_str("NOT_LEADER"),
        suggested_action: String::from_str("retry request to leader_hint endpoint"),
    }
}

} // verus!
