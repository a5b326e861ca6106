//! Cluster and edge-gateway configuration with their defaults and the
//! repair of unusable values.
use vstd::prelude::*;

verus! {

/// How many nodes of a distributed write must succeed.
#[derive(Debug, Clone, Copy, PartialEq, Eq, Structural)]
pub enum ConsistencyMode {
    /// Every node must succeed.
    Strong,
    /// A majority (`n / 2 + 1`) must succeed.
    Quorum,
}

#[derive(Debug, Clone, Copy, PartialEq, Eq, Structural)]
pub enum NodeRole {
    Master,
    Slave,
}

#[derive(Debug, Clone)]
pub struct ClusterConfig {
    pub master_addr: String,
    pub slave_addrs: Vec<String>,
    pub mode: ConsistencyMode,
    pub committed_history_limit: usize,
}

/// Views of a list of string slices.
pub open spec fn str_views(v: Seq<&str>) -> Seq<Seq<char>> {
    Seq::new(v.len(), |i: int| v[i]@)
}

/// Views of a list of strings.
pub open spec fn string_list_view(v: Seq<String>) -> Seq<Seq<char>> {
    Seq::new(v.len(), |i: int| v[i]@)
}

impl ClusterConfig {
    /// A cluster of one master and the given slaves; 32 committed
    /// transactions are kept for replay.
    pub fn new(master_addr: &str, slave_addrs: Vec<&str>, mode: ConsistencyMode) -> (r: Self)
        ensures
            r.master_addr@ == master_addr@,
            string_list_view(r.slave_addrs@) == str_views(slave_addrs@),
            r.mode == mode,
            r.committed_history_limit == 32,
    {
        let mut slaves: Vec<String> = Vec::new();
        let mut i: usize = 0;
        while i < slave_addrs.len()
            invariant
                i <= slave_addrs@.len(),
                string_list_view(slaves@) =~= str_views(slave_addrs@).subrange(0, i as int),
            decreases slave_addrs.len() - i,
        {
            let ghost before = slaves@;
            slaves.push(String::from_str(slave_addrs[i]));
            assert(string_list_view(slaves@) =~= string_list_view(before).push(
                slave_addrs@[i as int]@,
            ));
            i = i + 1;
        }
        ClusterConfig {
            master_addr: String::from_str(master_addr),
            slave_addrs: slaves,
            mode,
            committed_history_limit: 32,
        }
    }
}

/// Settings of the edge gateway.
#[derive(Debug, Clone)]
pub struct EdgeGatewayConfig {
    pub session_ttl_ms: u64,
    pub nonce_cache_limit: usize,
    pub nonce_persist_enabled: bool,
    pub nonce_persist_path: String,
    pub secret_key: String,
    pub max_connections: usize,
    pub batch_max_size: usize,
    pub batch_max_delay_ms: u64,
    pub batch_max_queue_size: usize,
    pub batch_wait_timeout_ms: u64,
    pub ordering_stage_parallelism: usize,
    pub ordering_queue_limit: usize,
    pub batch_shards: usize,
    pub pre_agg_enabled: bool,
    pub pre_agg_queue_size: usize,
    pub edge_client_retry_delay_ms: u64,
    pub edge_client_retry_max_attempts: u32,
    pub edge_client_retry_exponential_backoff: bool,
}

pub fn default_secret_key() -> (r: String)
    ensures
        r@ == "device_secret"@,
{
    String::from_str("device_secret")
}

pub fn default_max_connections() -> (r: usize)
    ensures
        r == 1000,
{
    1000
}

pub fn default_edge_batch_shards() -> (r: usize)
    ensures
        r == 4,
{
    4
}

pub fn default_edge_pre_agg_enabled() -> (r: bool)
    ensures
        r == false,
{
    false
}

pub fn default_edge_pre_agg_queue_size() -> (r: usize)
    ensures
        r == 50_000,
{
    50_000
}

pub fn default_edge_client_retry_delay_ms() -> (r: u64)
    ensures
        r == 100,
{
    100
}

pub fn default_edge_client_retry_max_attempts() -> (r: u32)
    ensures
        r == 3,
{
    3
}

pub fn default_edge_client_retry_exponential_backoff() -> (r: bool)
    ensures
        r == true,
{
    true
}

pub fn default_edge_batch_max_size() -> (r: usize)
    ensures
        r == 256,
{
    256
}

pub fn default_edge_batch_max_delay_ms() -> (r: u64)
    ensures
        r == 10,
{
    10
}

pub fn default_edge_batch_max_queue_size() -> (r: usize)
    ensures
        r == 50_000,
{
    50_000
}

pub fn default_edge_batch_wait_timeout_ms() -> (r: u64)
    ensures
        r == 200,
{
    200
}

pub fn default_edge_ordering_stage_parallelism() -> (r: usize)
    ensures
        r == 4,
{
    4
}

pub fn default_edge_ordering_queue_limit() -> (r: usize)
    ensures
        r == 50_000,
{
    50_000
}

/// The configuration used when none is given.
pub open spec fn is_default_gateway_config(c: EdgeGatewayConfig) -> bool {
    &&& c.session_ttl_ms == 60_000
    &&& c.nonce_cache_limit == 1000
    &&& c.nonce_persist_enabled == false
    &&& c.nonce_persist_path@ == "edge_nonce_cache"@
    &&& c.secret_key@ == "device_secret"@
    &&& c.max_connections == 1000
    &&& c.batch_max_size == 256
    &&& c.batch_max_delay_ms == 10
    &&& c.batch_max_queue_size == 50_000
    &&& c.batch_wait_timeout_ms == 200
    &&& c.ordering_stage_parallelism == 4
    &&& c.ordering_queue_limit == 50_000
    &&& c.batch_shards == 4
    &&& c.pre_agg_enabled == false
    &&& c.pre_agg_queue_size == 50_000
    &&& c.edge_client_retry_delay_ms == 100
    &&& c.edge_client_retry_max_attempts == 3
    &&& c.edge_client_retry_exponential_backoff == true
}

impl Default for EdgeGatewayConfig {
    fn default() -> (r: Self)
        ensures
            is_default_gateway_config(r),
    {
        EdgeGatewayConfig {
            session_ttl_ms: 60_000,
            nonce_cache_limit: 1000,
            nonce_persist_enabled: false,
            nonce_persist_path: String::from_str("edge_nonce_cache"),
            secret_key: default_secret_key(),
            max_connections: default_max_connections(),
            batch_max_size: default_edge_batch_max_size(),
            batch_max_delay_ms: default_edge_batch_max_delay_ms(),
            batch_max_queue_size: default_edge_batch_max_queue_size(),
            batch_wait_timeout_ms: default_edge_batch_wait_timeout_ms(),
            ordering_stage_parallelism: default_edge_ordering_stage_parallelism(),
            ordering_queue_limit: default_edge_ordering_queue_limit(),
            batch_shards: default_edge_batch_shards(),
            pre_agg_enabled: default_edge_pre_agg_enabled(),
            pre_agg_queue_size: default_edge_pre_agg_queue_size(),
            edge_client_retry_delay_ms: default_edge_client_retry_delay_ms(),
            edge_client_retry_max_attempts: default_edge_client_retry_max_attempts(),
            edge_client_retry_exponential_backoff: default_edge_client_retry_exponential_backoff(),
        }
    }
}

/// `v` unless it is zero, then `d`.
pub open spec fn or_default(v: int, d: int) -> int {
    if v == 0 {
        d
    } else {
        v
    }
}

/// `s` unless it is empty, then `d`.
pub open spec fn or_default_text(s: Seq<char>, d: Seq<char>) -> Seq<char> {
    if s.len() == 0 {
        d
    } else {
        s
    }
}

/// `r` is `c` with every zero count and empty text replaced by its default;
/// the flags, the batch delay, the batch wait timeout and the retry delay
/// are kept as they are.
pub open spec fn is_sanitized(c: EdgeGatewayConfig, r: EdgeGatewayConfig) -> bool {
    &&& r.session_ttl_ms == or_default(c.session_ttl_ms as int, 60_000)
    &&& r.nonce_cache_limit == or_default(c.nonce_cache_limit as int, 1000)
    &&& r.nonce_persist_enabled == c.nonce_persist_enabled
    &&& r.nonce_persist_path@ == or_default_text(c.nonce_persist_path@, "edge_nonce_cache"@)
    &&& r.secret_key@ == or_default_text(c.secret_key@, "device_secret"@)
    &&& r.max_connections == or_default(c.max_connections as int, 1000)
    &&& r.batch_max_size == or_default(c.batch_max_size as int, 256)
    &&& r.batch_max_delay_ms == c.batch_max_delay_ms
    &&& r.batch_max_queue_size == or_default(c.batch_max_queue_size as int, 50_000)
    &&& r.batch_wait_timeout_ms == c.batch_wait_timeout_ms
    &&& r.ordering_stage_parallelism == or_default(c.ordering_stage_parallelism as int, 4)
    &&& r.ordering_queue_limit == or_default(c.ordering_queue_limit as int, 50_000)
    &&& r.batch_shards == or_default(c.batch_shards as int, 4)
    &&& r.pre_agg_enabled == c.pre_agg_enabled
    &&& r.pre_agg_queue_size == or_default(c.pre_agg_queue_size as int, 50_000)
    &&& r.edge_client_retry_delay_ms == c.edge_client_retry_delay_ms
    &&& r.edge_client_retry_max_attempts == or_default(c.edge_client_retry_max_attempts as int, 3)
    &&& r.edge_client_retry_exponential_backoff == c.edge_client_retry_exponential_backoff
}

impl EdgeGatewayConfig {
    /// Replaces every value that would make the gateway unusable (a zero
    /// count, an empty path or key) by its default.
    pub fn sanitize(self) -> (r: Self)
        ensures
            is_sanitized(self, r),
    {
        let default = Self::default();
        EdgeGatewayConfig {
            session_ttl_ms: if self.session_ttl_ms == 0 {
                default.session_ttl_ms
            } else {
                self.session_ttl_ms
            },
            nonce_cache_limit: if self.nonce_cache_limit == 0 {
                default.nonce_cache_limit
            } else {
                self.nonce_cache_limit
            },
            nonce_persist_enabled: self.nonce_persist_enabled,
            nonce_persist_path: if self.nonce_persist_path.as_str().is_empty() {
                default.nonce_persist_path
            } else {
                self.nonce_persist_path
            },
            secret_key: if self.secret_key.as_str().is_empty() {
                default.secret_key
            } else {
                self.secret_key
            },
            max_connections: if self.max_connections == 0 {
                default.max_connections
            } else {
                self.max_connections
            },
            batch_max_size: if self.batch_max_size == 0 {
                default.batch_max_size
            } else {
                self.batch_max_size
            },
            batch_max_delay_ms: self.batch_max_delay_ms,
            batch_max_queue_size: if self.batch_max_queue_size == 0 {
                default.batch_max_queue_size
            } else {
                self.batch_max_queue_size
            },
            batch_wait_timeout_ms: self.batch_wait_timeout_ms,
            ordering_stage_parallelism: if self.ordering_stage_parallelism == 0 {
                default.ordering_stage_parallelism
            } else {
                self.ordering_stage_parallelism
            },
            ordering_queue_limit: if self.ordering_queue_limit == 0 {
                default.ordering_queue_limit
            } else {
                self.ordering_queue_limit
            },
            batch_shards: if self.batch_shards == 0 {
                default.batch_shards
            } else {
                self.batch_shards
            },
            pre_agg_enabled: self.pre_agg_enabled,
            pre_agg_queue_size: if self.pre_agg_queue_size == 0 {
                default.pre_agg_queue_size
            } else {
                self.pre_agg_queue_size
            },
            edge_client_retry_delay_ms: self.edge_client_retry_delay_ms,
            edge_client_retry_max_attempts: if self.edge_client_retry_max_attempts == 0 {
                default.edge_client_retry_max_attempts
            } else {
                self.edge_client_retry_max_attempts
            },
            edge_client_retry_exponential_backoff: self.edge_client_retry_exponential_backoff,
        }
    }
}

/// A sanitized configuration has no zero count and no empty text left.
pub open spec fn is_usable(c: EdgeGatewayConfig) -> bool {
    &&& c.session_ttl_ms != 0
    &&& c.nonce_cache_limit != 0
    &&& c.nonce_persist_path@.len() != 0
    &&& c.secret_key@.len() != 0
    &&& c.max_connections != 0
    &&& c.batch_max_size != 0
    &&& c.batch_max_queue_size != 0
    &&& c.ordering_stage_parallelism != 0
    &&& c.ordering_queue_limit != 0
    &&& c.batch_shards != 0
    &&& c.pre_agg_queue_size != 0
    &&& c.edge_client_retry_max_attempts != 0
}

/// Sanitizing leaves a usable configuration, and sanitizing again changes
/// nothing.
pub proof fn lemma_sanitize_usable_and_idempotent(
    c: EdgeGatewayConfig,
    r: EdgeGatewayConfig,
    r2: EdgeGatewayConfig,
)
    requires
        is_sanitized(c, r),
        is_sanitized(r, r2),
    ensures
        is_usable(r),
        r2.session_ttl_ms == r.session_ttl_ms,
        r2.nonce_cache_limit == r.nonce_cache_limit,
        r2.nonce_persist_enabled == r.nonce_persist_enabled,
        r2.nonce_persist_path@ == r.nonce_persist_path@,
        r2.secret_key@ == r.secret_key@,
        r2.max_connections == r.max_connections,
        r2.batch_max_size == r.batch_max_size,
        r2.batch_max_delay_ms == r.batch_max_delay_ms,
        r2.batch_max_queue_size == r.batch_max_queue_size,
        r2.batch_wait_timeout_ms == r.batch_wait_timeout_ms,
        r2.ordering_stage_parallelism == r.ordering_stage_parallelism,
        r2.ordering_queue_limit == r.ordering_queue_limit,
        r2.batch_shards == r.batch_shards,
        r2.pre_agg_enabled == r.pre_agg_enabled,
        r2.pre_agg_queue_size == r.pre_agg_queue_size,
        r2.edge_client_retry_delay_ms == r.edge_client_retry_delay_ms,
        r2.edge_client_retry_max_attempts == r.edge_client_retry_max_attempts,
        r2.edge_client_retry_exponential_backoff == r.edge_client_retry_exponential_backoff,
{
    reveal_strlit("edge_nonce_cache");
    reveal_strlit("device_secret");
}

} // verus!
