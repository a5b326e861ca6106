//! The write batcher of the leader: queue size, when a batch is complete,
//! which requests it still carries, and what each request is answered;
//! and the settings of writes forwarded to the leader.
use vstd::prelude::*;

verus! {

/// Settings of the write batcher.
#[derive(Debug, Clone, Copy)]
pub struct BatchConfig {
    pub max_batch_size: usize,
    pub max_delay_ms: u64,
    pub max_queue_size: usize,
    pub max_wait_ms: u64,
}

/// The capacity of the batcher's queue: at least one.
pub fn batch_queue_size(config: &BatchConfig) -> (r: usize)
    ensures
        r == if config.max_queue_size > 1 {
            config.max_queue_size
        } else {
            1
        },
{
    if config.max_queue_size > 1 {
        config.max_queue_size
    } else {
        1
    }
}

/// Whether a batch stops collecting: it has reached its size.
pub fn batch_is_full(len: usize, max_batch_size: usize) -> (r: bool)
    ensures
        r == (len >= max_batch_size),
{
    len >= max_batch_size
}

/// The positions of the requests still waiting (not cancelled), in order.
pub fn active_requests(cancelled: &[bool]) -> (r: Vec<usize>)
    ensures
        forall|k: int| 0 <= k < r@.len() ==> (#[trigger] r@[k] as int) < cancelled@.len() && !cancelled@[r@[k] as int],
        forall|a: int, b: int| 0 <= a < b < r@.len() ==> #[trigger] r@[a] < #[trigger] r@[b],
        forall|i: int| 0 <= i < cancelled@.len() && !cancelled@[i] ==> r@.contains(i as usize),
{
    let n = cancelled.len();
    let mut out: Vec<usize> = Vec::new();
    let mut i: usize = 0;
    while i < n
        invariant
            n == cancelled@.len(),
            i <= n,
            forall|k: int| 0 <= k < out@.len() ==> (#[trigger] out@[k] as int) < i && !cancelled@[out@[k] as int],
            forall|a: int, b: int| 0 <= a < b < out@.len() ==> #[trigger] out@[a] < #[trigger] out@[b],
            forall|x: int| 0 <= x < i && !cancelled@[x] ==> out@.contains(x as usize),
        decreases n - i,
    {
        if !cancelled[i] {
            let ghost before = out@;
            out.push(i);
            assert forall|x: int| 0 <= x < i + 1 && !cancelled@[x] implies out@.contains(x as usize) by {
                if x < i {
                    let k = choose|k: int| 0 <= k < before.len() && before[k] == x as usize;
                    assert(out@[k] == x as usize);
                } else {
                    assert(out@[out@.len() - 1] == x as usize);
                }
            }
        }
        i = i + 1;
    }
    out
}

/// The answers of a submitted batch: one row each when the batch was
/// applied, else the batch's error for each request.
pub fn batch_replies(count: usize, outcome: Result<(), String>) -> (r: Vec<Result<usize, String>>)
    ensures
        r@.len() == count,
        forall|k: int| 0 <= k < count ==> match outcome {
            Ok(()) => #[trigger] r@[k] == Ok::<usize, String>(1),
            Err(e) => (#[trigger] r@[k]) matches Err(m) && m@ == e@,
        },
{
    let mut out: Vec<Result<usize, String>> = Vec::new();
    let mut i: usize = 0;
    while i < count
        invariant
            i <= count,
            out@.len() == i,
            forall|k: int| 0 <= k < i ==> match outcome {
                Ok(()) => #[trigger] out@[k] == Ok::<usize, String>(1),
                Err(e) => (#[trigger] out@[k]) matches Err(m) && m@ == e@,
            },
        decreases count - i,
    {
        match &outcome {
            Ok(()) => out.push(Ok(1)),
            Err(e) => out.push(Err(e.clone())),
        }
        i = i + 1;
    }
    out
}

/// How long a write forwarded to the leader may take: the setting, else 2 s.
pub fn forward_timeout_ms(setting: Option<u64>) -> (r: u64)
    ensures
        r == match setting {
            Some(t) => t,
            None => 2000,
        },
{
    match setting {
        Some(t) => t,
        None => 2000,
    }
}

/// The query for the highest version of a table.
pub fn version_query_sql(table: &str) -> (r: String)
    ensures
        r@ == "SELECT MAX(version) FROM "@ + table@,
{
    let mut s = String::from_str("SELECT MAX(version) FROM ");
    s.append(table);
    s
}

} // verus!
