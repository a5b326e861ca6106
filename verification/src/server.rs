//! The command-line side of cluster administration: endpoint normalisation,
//! node ids, leader redirection and the reading of refusal codes.
use vstd::prelude::*;
use crate::pb::{
    AddEdgeRequest, AddEdgeResponse, AddHubRequest, AddHubResponse, NodeCompatibility,
    RemoveHubRequest, RemoveHubResponse,
};
use crate::text::{
    decimal, push_decimal,
    chars_of, push_all, skip_prefix_all, starts_with, str_eq, str_starts_with, string_of,
    strip_prefix_all, trim, trim_bounds,
};

verus! {

pub open spec fn http_prefix() -> Seq<char> {
    "http://"@
}

pub open spec fn https_prefix() -> Seq<char> {
    "https://"@
}

/// An endpoint with an `http://` scheme unless it already has one.
pub open spec fn spec_normalize_http_addr(addr: Seq<char>) -> Seq<char> {
    if starts_with(addr, http_prefix()) || starts_with(addr, https_prefix()) {
        addr
    } else {
        http_prefix() + addr
    }
}

pub fn normalize_http_addr(addr: &str) -> (r: String)
    ensures
        r@ == spec_normalize_http_addr(addr@),
{
    if str_starts_with(addr, "http://") || str_starts_with(addr, "https://") {
        String::from_str(addr)
    } else {
        let mut out = String::from_str("http://");
        out.append(addr);
        out
    }
}

/// The address without its leading `http://` and then `https://` prefixes.
pub open spec fn spec_strip_http_prefix(addr: Seq<char>) -> Seq<char> {
    strip_prefix_all(strip_prefix_all(addr, http_prefix()), https_prefix())
}

pub fn strip_http_prefix(addr: &str) -> (r: String)
    ensures
        r@ == spec_strip_http_prefix(addr@),
{
    let v = chars_of(addr);
    let h = chars_of("http://");
    let hs = chars_of("https://");
    assert(v@.subrange(0, v@.len() as int) =~= addr@);
    let a = skip_prefix_all(&v, 0, &h);
    let b = skip_prefix_all(&v, a, &hs);
    string_of(&v, b, v.len())
}

/// The hash that a fresh `DefaultHasher` gives a string. `DefaultHasher::new`
/// is not seeded: every instance it creates hashes alike, so within one
/// build the value depends on the string alone (the algorithm itself is left
/// unspecified by the standard library and may change between releases).
pub uninterp spec fn default_str_hash(s: Seq<char>) -> u64;

/// The standard library's default hash of an address string: it calls
/// `std::hash::Hash::hash` for `str` on a fresh
/// `std::collections::hash_map::DefaultHasher` and returns `finish()`. The
/// contract names the result and says no more of it.
#[verifier::external_body]
fn default_hash_of(addr: &str) -> (r: u64)
    ensures
        r == default_str_hash(addr@),
{
    let mut hasher = std::collections::hash_map::DefaultHasher::new();
    std::hash::Hash::hash(addr, &mut hasher);
    std::hash::Hasher::finish(&hasher)
}

/// A node id from an address hash: the hash itself, or 1 when it is zero.
pub open spec fn spec_node_id_from_hash(h: u64) -> u64 {
    if h == 0 {
        1
    } else {
        h
    }
}

pub fn node_id_from_hash(h: u64) -> (r: u64)
    ensures
        r == spec_node_id_from_hash(h),
{
    if h == 0 {
        1
    } else {
        h
    }
}

/// A node id derived from an address: its default hash, never zero.
pub fn derive_node_id(addr: &str) -> (r: u64)
    ensures
        r == spec_node_id_from_hash(default_str_hash(addr@)),
        r != 0,
{
    node_id_from_hash(default_hash_of(addr))
}

pub open spec fn retry_prefix() -> Seq<char> {
    "retry request to "@
}

/// The leader endpoint named by a `retry request to <endpoint>` action.
pub open spec fn spec_leader_hint(action: Seq<char>) -> Option<Seq<char>> {
    if starts_with(action, retry_prefix()) {
        Some(trim(action.subrange(retry_prefix().len() as int, action.len() as int)))
    } else {
        None
    }
}

pub fn extract_leader_hint_from_action(suggested_action: &str) -> (r: Option<String>)
    ensures
        match r {
            Some(s) => spec_leader_hint(suggested_action@) == Some(s@),
            None => spec_leader_hint(suggested_action@) is None,
        },
{
    if !str_starts_with(suggested_action, "retry request to ") {
        return None;
    }
    let v = chars_of(suggested_action);
    let p = chars_of("retry request to ");
    let (a, b) = trim_bounds(&v, p.len(), v.len());
    Some(string_of(&v, a, b))
}

/// The category of an add-hub refusal code.
pub open spec fn spec_classify_addhub(code: Seq<char>) -> Seq<char> {
    if code == "NOT_LEADER"@ {
        "LEADER_REDIRECT"@
    } else if code == "INVALID_ARGUMENT"@ {
        "REQUEST_INVALID"@
    } else if code == "NODE_ID_ALREADY_EXISTS"@ {
        "NODE_CONFLICT"@
    } else if code == "INCOMPATIBLE_APP_VERSION"@ || code == "INCOMPATIBLE_SQLITE_SCHEMA"@ || code
        == "INCOMPATIBLE_SLED_FORMAT"@ || code == "INCOMPATIBLE_LOG_CODEC"@ {
        "VERSION_INCOMPATIBLE"@
    } else {
        "UNKNOWN"@
    }
}

pub fn classify_addhub_reason_code(reason_code: &str) -> (r: &'static str)
    ensures
        r@ == spec_classify_addhub(reason_code@),
{
    if str_eq(reason_code, "NOT_LEADER") {
        "LEADER_REDIRECT"
    } else if str_eq(reason_code, "INVALID_ARGUMENT") {
        "REQUEST_INVALID"
    } else if str_eq(reason_code, "NODE_ID_ALREADY_EXISTS") {
        "NODE_CONFLICT"
    } else if str_eq(reason_code, "INCOMPATIBLE_APP_VERSION") || str_eq(
        reason_code,
        "INCOMPATIBLE_SQLITE_SCHEMA",
    ) || str_eq(reason_code, "INCOMPATIBLE_SLED_FORMAT") || str_eq(
        reason_code,
        "INCOMPATIBLE_LOG_CODEC",
    ) {
        "VERSION_INCOMPATIBLE"
    } else {
        "UNKNOWN"
    }
}

/// The category of an add-edge refusal code.
pub open spec fn spec_classify_addedge(code: Seq<char>) -> Seq<char> {
    if code == "NOT_LEADER"@ {
        "LEADER_REDIRECT"@
    } else if code == "TARGET_METADATA_MISSING"@ {
        "TARGET_METADATA_MISSING"@
    } else if code == "TARGET_NOT_FOUND"@ {
        "TARGET_NOT_FOUND"@
    } else if code == "INVALID_ARGUMENT"@ {
        "REQUEST_INVALID"@
    } else {
        "UNKNOWN"@
    }
}

pub fn classify_addedge_reason_code(reason_code: &str) -> (r: &'static str)
    ensures
        r@ == spec_classify_addedge(reason_code@),
{
    if str_eq(reason_code, "NOT_LEADER") {
        "LEADER_REDIRECT"
    } else if str_eq(reason_code, "TARGET_METADATA_MISSING") {
        "TARGET_METADATA_MISSING"
    } else if str_eq(reason_code, "TARGET_NOT_FOUND") {
        "TARGET_NOT_FOUND"
    } else if str_eq(reason_code, "INVALID_ARGUMENT") {
        "REQUEST_INVALID"
    } else {
        "UNKNOWN"
    }
}

/// The category of a remove-hub refusal code.
pub open spec fn spec_classify_removehub(code: Seq<char>) -> Seq<char> {
    if code == "NOT_LEADER"@ {
        "LEADER_REDIRECT"@
    } else if code == "INVALID_ARGUMENT"@ || code == "INVALID_PHASE"@ || code
        == "BOOTSTRAP_FAILED"@ {
        "REQUEST_INVALID"@
    } else if code == "NODE_NOT_FOUND"@ {
        "NODE_MISSING"@
    } else if code == "NOT_DRAINING"@ {
        "PHASE_VIOLATION"@
    } else if code == "LEADER_TRANSFER_TIMEOUT"@ {
        "LEADER_TRANSFER_TIMEOUT"@
    } else if code == "DRAIN_TIMEOUT"@ {
        "DRAIN_TIMEOUT"@
    } else if code == "LAST_VOTER_FORBIDDEN"@ {
        "MEMBERSHIP_GUARD"@
    } else {
        "UNKNOWN"@
    }
}

pub fn classify_removehub_reason_code(reason_code: &str) -> (r: &'static str)
    ensures
        r@ == spec_classify_removehub(reason_code@),
{
    if str_eq(reason_code, "NOT_LEADER") {
        "LEADER_REDIRECT"
    } else if str_eq(reason_code, "INVALID_ARGUMENT") || str_eq(reason_code, "INVALID_PHASE")
        || str_eq(reason_code, "BOOTSTRAP_FAILED") {
        "REQUEST_INVALID"
    } else if str_eq(reason_code, "NODE_NOT_FOUND") {
        "NODE_MISSING"
    } else if str_eq(reason_code, "NOT_DRAINING") {
        "PHASE_VIOLATION"
    } else if str_eq(reason_code, "LEADER_TRANSFER_TIMEOUT") {
        "LEADER_TRANSFER_TIMEOUT"
    } else if str_eq(reason_code, "DRAIN_TIMEOUT") {
        "DRAIN_TIMEOUT"
    } else if str_eq(reason_code, "LAST_VOTER_FORBIDDEN") {
        "MEMBERSHIP_GUARD"
    } else {
        "UNKNOWN"
    }
}

/// The operator-facing explanation of an add-hub refusal.
pub open spec fn spec_addhub_detail(code: Seq<char>, leader_hint: Seq<char>) -> Seq<char> {
    if code == "INCOMPATIBLE_APP_VERSION"@ {
        "应用版本不一致，需统一 app_semver 后再重试"@
    } else if code == "INCOMPATIBLE_SQLITE_SCHEMA"@ {
        "SQLite schema 版本不一致，需先完成迁移再加点"@
    } else if code == "INCOMPATIBLE_SLED_FORMAT"@ {
        "sled 数据格式不一致，需升级或转换存储格式"@
    } else if code == "INCOMPATIBLE_LOG_CODEC"@ {
        "Raft 日志编码版本不一致，需切换到集群一致编码"@
    } else if code == "NOT_LEADER"@ {
        if leader_hint.len() == 0 {
            "请求命中 follower，且暂未获取 leader 地址"@
        } else {
            "请求命中 follower，需要转发到 leader_hint"@
        }
    } else if code == "NODE_ID_ALREADY_EXISTS"@ {
        "node_id 已存在，请更换 node_id 或复用 request_id"@
    } else if code == "INVALID_ARGUMENT"@ {
        "请求参数非法，请按 suggested_action 修正"@
    } else {
        "未知错误，请结合 reason_code 与 suggested_action 排查"@
    }
}

pub fn format_addhub_failure_detail(response: &AddHubResponse) -> (r: String)
    ensures
        r@ == spec_addhub_detail(response.reason_code@, response.leader_hint@),
{
    let code = response.reason_code.as_str();
    let text = if str_eq(code, "INCOMPATIBLE_APP_VERSION") {
        "应用版本不一致，需统一 app_semver 后再重试"
    } else if str_eq(code, "INCOMPATIBLE_SQLITE_SCHEMA") {
        "SQLite schema 版本不一致，需先完成迁移再加点"
    } else if str_eq(code, "INCOMPATIBLE_SLED_FORMAT") {
        "sled 数据格式不一致，需升级或转换存储格式"
    } else if str_eq(code, "INCOMPATIBLE_LOG_CODEC") {
        "Raft 日志编码版本不一致，需切换到集群一致编码"
    } else if str_eq(code, "NOT_LEADER") {
        if response.leader_hint.as_str().is_empty() {
            "请求命中 follower，且暂未获取 leader 地址"
        } else {
            "请求命中 follower，需要转发到 leader_hint"
        }
    } else if str_eq(code, "NODE_ID_ALREADY_EXISTS") {
        "node_id 已存在，请更换 node_id 或复用 request_id"
    } else if str_eq(code, "INVALID_ARGUMENT") {
        "请求参数非法，请按 suggested_action 修正"
    } else {
        "未知错误，请结合 reason_code 与 suggested_action 排查"
    };
    String::from_str(text)
}

/// The operator-facing explanation of an add-edge refusal.
pub open spec fn spec_addedge_detail(code: Seq<char>) -> Seq<char> {
    if code == "NOT_LEADER"@ {
        "请求命中 follower，请按 suggested_action 转发到 leader"@
    } else if code == "TARGET_METADATA_MISSING"@ {
        "目标分组元数据缺失，请先同步元数据后重试"@
    } else if code == "TARGET_NOT_FOUND"@ {
        "目标分组不存在，请确认 group_id"@
    } else if code == "INVALID_ARGUMENT"@ {
        "请求参数非法，请按 suggested_action 修正"@
    } else {
        "未知错误，请结合 reason_code 与 suggested_action 排查"@
    }
}

pub fn format_addedge_failure_detail(response: &AddEdgeResponse) -> (r: String)
    ensures
        r@ == spec_addedge_detail(response.reason_code@),
{
    let code = response.reason_code.as_str();
    let text = if str_eq(code, "NOT_LEADER") {
        "请求命中 follower，请按 suggested_action 转发到 leader"
    } else if str_eq(code, "TARGET_METADATA_MISSING") {
        "目标分组元数据缺失，请先同步元数据后重试"
    } else if str_eq(code, "TARGET_NOT_FOUND") {
        "目标分组不存在，请确认 group_id"
    } else if str_eq(code, "INVALID_ARGUMENT") {
        "请求参数非法，请按 suggested_action 修正"
    } else {
        "未知错误，请结合 reason_code 与 suggested_action 排查"
    };
    String::from_str(text)
}

/// The operator-facing explanation of a remove-hub refusal.
pub open spec fn spec_removehub_detail(code: Seq<char>, leader_hint: Seq<char>) -> Seq<char> {
    if code == "NOT_LEADER"@ {
        if leader_hint.len() == 0 {
            "请求命中 follower，且暂未获取 leader 地址"@
        } else {
            "请求命中 follower，需要转发到 leader_hint"@
        }
    } else if code == "INVALID_ARGUMENT"@ {
        "请求参数非法，请按 suggested_action 修正"@
    } else if code == "INVALID_PHASE"@ {
        "phase 非法，必须是 MARK_DRAINING 或 COMMIT"@
    } else if code == "NODE_NOT_FOUND"@ {
        "目标节点不存在，请确认 node_id 或地址映射"@
    } else if code == "NOT_DRAINING"@ {
        "节点尚未标记排空，请先执行 MARK_DRAINING"@
    } else if code == "LEADER_TRANSFER_TIMEOUT"@ {
        "主节点转移超时，请稍后重试 COMMIT"@
    } else if code == "DRAIN_TIMEOUT"@ {
        "在途请求未在超时内排空，请稍后重试 COMMIT"@
    } else if code == "LAST_VOTER_FORBIDDEN"@ {
        "禁止移除最后一个 voter，除非 force=true"@
    } else {
        "未知错误，请结合 reason_code 与 suggested_action 排查"@
    }
}

pub fn format_removehub_failure_detail(response: &RemoveHubResponse) -> (r: String)
    ensures
        r@ == spec_removehub_detail(response.reason_code@, response.leader_hint@),
{
    let code = response.reason_code.as_str();
    let text = if str_eq(code, "NOT_LEADER") {
        if response.leader_hint.as_str().is_empty() {
            "请求命中 follower，且暂未获取 leader 地址"
        } else {
            "请求命中 follower，需要转发到 leader_hint"
        }
    } else if str_eq(code, "INVALID_ARGUMENT") {
        "请求参数非法，请按 suggested_action 修正"
    } else if str_eq(code, "INVALID_PHASE") {
        "phase 非法，必须是 MARK_DRAINING 或 COMMIT"
    } else if str_eq(code, "NODE_NOT_FOUND") {
        "目标节点不存在，请确认 node_id 或地址映射"
    } else if str_eq(code, "NOT_DRAINING") {
        "节点尚未标记排空，请先执行 MARK_DRAINING"
    } else if str_eq(code, "LEADER_TRANSFER_TIMEOUT") {
        "主节点转移超时，请稍后重试 COMMIT"
    } else if str_eq(code, "DRAIN_TIMEOUT") {
        "在途请求未在超时内排空，请稍后重试 COMMIT"
    } else if str_eq(code, "LAST_VOTER_FORBIDDEN") {
        "禁止移除最后一个 voter，除非 force=true"
    } else {
        "未知错误，请结合 reason_code 与 suggested_action 排查"
    };
    String::from_str(text)
}

/// An add-hub or remove-hub reply from a follower that names an `http`
/// leader endpoint: the request is sent once more to that endpoint.
pub open spec fn spec_redirect_endpoint(code: Seq<char>, leader_hint: Seq<char>) -> Option<
    Seq<char>,
> {
    if code == "NOT_LEADER"@ && starts_with(leader_hint, "http"@) {
        Some(leader_hint)
    } else {
        None
    }
}

pub fn redirect_endpoint(reason_code: &str, leader_hint: &str) -> (r: Option<String>)
    ensures
        match r {
            Some(s) => spec_redirect_endpoint(reason_code@, leader_hint@) == Some(s@),
            None => spec_redirect_endpoint(reason_code@, leader_hint@) is None,
        },
{
    if str_eq(reason_code, "NOT_LEADER") && str_starts_with(leader_hint, "http") {
        Some(String::from_str(leader_hint))
    } else {
        None
    }
}

/// The draining mark of a remove-hub is accepted when the reply has no
/// refusal code or reports the node as marked.
pub open spec fn spec_mark_accepted(code: Seq<char>) -> bool {
    code.len() == 0 || code == "DRAINING_MARKED"@
}

pub fn remove_mark_accepted(reason_code: &str) -> (r: bool)
    ensures
        r == spec_mark_accepted(reason_code@),
{
    reason_code.is_empty() || str_eq(reason_code, "DRAINING_MARKED")
}

/// An add-edge succeeded when the edge is ready and nothing was refused.
pub open spec fn spec_addedge_ok(ready: bool, code: Seq<char>) -> bool {
    ready && code.len() == 0
}

pub fn addedge_succeeded(response: &AddEdgeResponse) -> (r: bool)
    ensures
        r == spec_addedge_ok(response.ready, response.reason_code@),
{
    response.ready && response.reason_code.as_str().is_empty()
}

/// `<prefix><id>-<timestamp>`: the idempotency key of a command-line request.
pub open spec fn request_id_text(prefix: Seq<char>, id: u64, timestamp_ms: u64) -> Seq<char> {
    prefix + decimal(id as nat) + "-"@ + decimal(timestamp_ms as nat)
}

fn request_id(prefix: &str, id: u64, timestamp_ms: u64) -> (r: String)
    ensures
        r@ == request_id_text(prefix@, id, timestamp_ms),
{
    let mut s = String::from_str(prefix);
    push_decimal(&mut s, id);
    s.append("-");
    push_decimal(&mut s, timestamp_ms);
    s
}

/// The add-hub request of the command line: the node runs this build's
/// versions and its request id names the node and the time.
pub fn addhub_request(
    node_id: u64,
    raft_addr: String,
    grpc_addr: String,
    auto_promote: bool,
    timestamp_ms: u64,
    app_semver: String,
) -> (r: AddHubRequest)
    ensures
        r.node_id == node_id,
        r.raft_addr@ == raft_addr@,
        r.grpc_addr@ == grpc_addr@,
        r.auto_promote == auto_promote,
        r.request_id@ == request_id_text("cli-addhub-"@, node_id, timestamp_ms),
        r.compatibility matches Some(c) && c.app_semver@ == app_semver@ && c.sqlite_schema_version
            == 1 && c.sled_format_version == 1 && c.log_codec_version == 1,
{
    AddHubRequest {
        node_id,
        raft_addr,
        grpc_addr,
        auto_promote,
        request_id: request_id("cli-addhub-", node_id, timestamp_ms),
        compatibility: Some(
            NodeCompatibility {
                app_semver,
                sqlite_schema_version: 1,
                sled_format_version: 1,
                log_codec_version: 1,
            },
        ),
    }
}

/// The add-edge request of the command line; the request id names the
/// edge by the node id derived from its address.
pub fn addedge_request(edge_id: String, group_id: Option<String>, edge_node_id: u64, timestamp_ms: u64) -> (r: AddEdgeRequest)
    ensures
        r.edge_id@ == edge_id@,
        r.group_id@ == match group_id {
            Some(g) => g@,
            None => Seq::<char>::empty(),
        },
        r.request_id@ == request_id_text("cli-addedge-"@, edge_node_id, timestamp_ms),
{
    AddEdgeRequest {
        edge_id,
        group_id: match group_id {
            Some(g) => g,
            None => String::new(),
        },
        request_id: request_id("cli-addedge-", edge_node_id, timestamp_ms),
    }
}

/// The two phases of removing a hub.
#[derive(Debug, Clone, Copy, PartialEq, Eq, Structural)]
pub enum RemovePhase {
    MarkDraining,
    Commit,
}

/// A phase of the remove-hub command: not forced, with ten seconds to drain.
pub fn remove_request(node_id: u64, phase: RemovePhase, timestamp_ms: u64) -> (r: RemoveHubRequest)
    ensures
        r.node_id == node_id,
        r.force == false,
        r.drain_timeout_ms == 10000,
        r.phase@ == match phase {
            RemovePhase::MarkDraining => "MARK_DRAINING"@,
            RemovePhase::Commit => "COMMIT"@,
        },
        r.request_id@ == match phase {
            RemovePhase::MarkDraining => request_id_text("cli-removehub-mark-"@, node_id, timestamp_ms),
            RemovePhase::Commit => request_id_text("cli-removehub-commit-"@, node_id, timestamp_ms),
        },
{
    match phase {
        RemovePhase::MarkDraining => RemoveHubRequest {
            node_id,
            request_id: request_id("cli-removehub-mark-", node_id, timestamp_ms),
            phase: String::from_str("MARK_DRAINING"),
            force: false,
            drain_timeout_ms: 10000,
        },
        RemovePhase::Commit => RemoveHubRequest {
            node_id,
            request_id: request_id("cli-removehub-commit-", node_id, timestamp_ms),
            phase: String::from_str("COMMIT"),
            force: false,
            drain_timeout_ms: 10000,
        },
    }
}

} // verus!
