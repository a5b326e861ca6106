//! SQL write routing: the `FOR HUB` / `FOR EDGE(key=value)` suffix, the
//! key-column consistency rules, and the route-target existence check.
use vstd::prelude::*;
use crate::text::{
    chars_of, contains, contains_exec, ends_with, first_word, first_word_bounds, starts_with,
    starts_with_exec, ends_with_exec, eq_ignore_case, eq_ignore_case_exec,
    find_char, find_char_exec, find_char_from, occurs_at, push_char, rfind, rfind_below,
    rfind_exec, skip_ws_backward, string_of, trim, trim_bounds, trim_end, trim_end_char,
    upper_chars, upper_seq, escape_quotes, push_escaped, lower_seq, lower_chars, push_all,
};

verus! {

/// Why a write was refused by the router.
#[derive(Debug, Clone, Copy, PartialEq, Eq, Structural)]
pub enum RouteFault {
    EmptySql,
    InvalidHubClause,
    MissingBodyBeforeHub,
    MissingEdgeParams,
    MissingBodyBeforeEdge,
    EdgeParamNotKeyValue,
    EdgeKeyUnsupported,
    DeviceIdEmpty,
    GroupIdEmpty,
    CreateTableMissingOpen,
    CreateTableMissingClose,
    CreateTableColumnsInvalid,
    KeyColumnEventual,
    SysKeyColumnEventual,
    DeviceNotFound,
    DeviceMetadataMissing,
    GroupNotFound,
    GroupMetadataMissing,
}

/// The standard error code families of the router.
#[derive(Debug, Clone, Copy, PartialEq, Eq, Structural)]
pub enum RouteCode {
    RouteInvalid,
    ColumnConsistencyInvalid,
    TargetNotFound,
    TargetMetadataMissing,
}

pub open spec fn fault_code(f: RouteFault) -> RouteCode {
    match f {
        RouteFault::KeyColumnEventual | RouteFault::SysKeyColumnEventual =>
            RouteCode::ColumnConsistencyInvalid,
        RouteFault::DeviceNotFound | RouteFault::GroupNotFound => RouteCode::TargetNotFound,
        RouteFault::DeviceMetadataMissing | RouteFault::GroupMetadataMissing =>
            RouteCode::TargetMetadataMissing,
        _ => RouteCode::RouteInvalid,
    }
}

/// The reason each fault gives after its code.
pub open spec fn fault_message(f: RouteFault) -> Seq<char> {
    match f {
        RouteFault::EmptySql => "SQL is empty"@,
        RouteFault::InvalidHubClause => "invalid FOR HUB clause"@,
        RouteFault::MissingBodyBeforeHub => "missing SQL body before FOR HUB"@,
        RouteFault::MissingEdgeParams => "missing EDGE route parameters"@,
        RouteFault::MissingBodyBeforeEdge => "missing SQL body before FOR EDGE"@,
        RouteFault::EdgeParamNotKeyValue => "EDGE route parameter must be key=value"@,
        RouteFault::EdgeKeyUnsupported => "EDGE route only supports device_id/group_id"@,
        RouteFault::DeviceIdEmpty => "device_id cannot be empty"@,
        RouteFault::GroupIdEmpty => "group_id cannot be empty"@,
        RouteFault::CreateTableMissingOpen => "CREATE TABLE missing '('"@,
        RouteFault::CreateTableMissingClose => "CREATE TABLE missing ')'"@,
        RouteFault::CreateTableColumnsInvalid => "CREATE TABLE column list is invalid"@,
        RouteFault::KeyColumnEventual => "key column cannot declare eventual consistency"@,
        RouteFault::SysKeyColumnEventual => "sys_column_consistency key column must stay strong"@,
        RouteFault::DeviceNotFound => "edge target device_id not found in sys_edge_device"@,
        RouteFault::DeviceMetadataMissing => "sys_edge_device metadata table is missing"@,
        RouteFault::GroupNotFound => "edge target group_id not found in sys_edge_group"@,
        RouteFault::GroupMetadataMissing => "sys_edge_group metadata table is missing"@,
    }
}

/// The text of each code.
pub open spec fn code_text(c: RouteCode) -> Seq<char> {
    match c {
        RouteCode::RouteInvalid => "ROUTE_INVALID"@,
        RouteCode::ColumnConsistencyInvalid => "COLUMN_CONSISTENCY_INVALID"@,
        RouteCode::TargetNotFound => "TARGET_NOT_FOUND"@,
        RouteCode::TargetMetadataMissing => "TARGET_METADATA_MISSING"@,
    }
}

impl RouteFault {
    pub fn code(&self) -> (r: RouteCode)
        ensures
            r == fault_code(*self),
    {
        match self {
            RouteFault::KeyColumnEventual | RouteFault::SysKeyColumnEventual =>
                RouteCode::ColumnConsistencyInvalid,
            RouteFault::DeviceNotFound | RouteFault::GroupNotFound => RouteCode::TargetNotFound,
            RouteFault::DeviceMetadataMissing | RouteFault::GroupMetadataMissing =>
                RouteCode::TargetMetadataMissing,
            _ => RouteCode::RouteInvalid,
        }
    }

    /// The human-readable reason that follows the code.
    pub fn message(&self) -> (r: &'static str)
        ensures
            r@ == fault_message(*self),
    {
        match self {
            RouteFault::EmptySql => "SQL is empty",
            RouteFault::InvalidHubClause => "invalid FOR HUB clause",
            RouteFault::MissingBodyBeforeHub => "missing SQL body before FOR HUB",
            RouteFault::MissingEdgeParams => "missing EDGE route parameters",
            RouteFault::MissingBodyBeforeEdge => "missing SQL body before FOR EDGE",
            RouteFault::EdgeParamNotKeyValue => "EDGE route parameter must be key=value",
            RouteFault::EdgeKeyUnsupported => "EDGE route only supports device_id/group_id",
            RouteFault::DeviceIdEmpty => "device_id cannot be empty",
            RouteFault::GroupIdEmpty => "group_id cannot be empty",
            RouteFault::CreateTableMissingOpen => "CREATE TABLE missing '('",
            RouteFault::CreateTableMissingClose => "CREATE TABLE missing ')'",
            RouteFault::CreateTableColumnsInvalid => "CREATE TABLE column list is invalid",
            RouteFault::KeyColumnEventual => "key column cannot declare eventual consistency",
            RouteFault::SysKeyColumnEventual => "sys_column_consistency key column must stay strong",
            RouteFault::DeviceNotFound => "edge target device_id not found in sys_edge_device",
            RouteFault::DeviceMetadataMissing => "sys_edge_device metadata table is missing",
            RouteFault::GroupNotFound => "edge target group_id not found in sys_edge_group",
            RouteFault::GroupMetadataMissing => "sys_edge_group metadata table is missing",
        }
    }

    /// The full error text, `"<CODE>: <message>"`.
    pub fn to_text(&self) -> (r: String)
        ensures
            r@ == code_text(fault_code(*self)) + seq![':', ' '] + fault_message(*self),
    {
        let code = match self.code() {
            RouteCode::RouteInvalid => "ROUTE_INVALID",
            RouteCode::ColumnConsistencyInvalid => "COLUMN_CONSISTENCY_INVALID",
            RouteCode::TargetNotFound => "TARGET_NOT_FOUND",
            RouteCode::TargetMetadataMissing => "TARGET_METADATA_MISSING",
        };
        code_error(code, self.message())
    }
}

/// `"<code>: <message>"`.
pub fn code_error(code: &str, message: &str) -> (r: String)
    ensures
        r@ == code@ + seq![':', ' '] + message@,
{
    let mut out = String::from_str(code);
    push_char(&mut out, ':');
    push_char(&mut out, ' ');
    out.append(message);
    out
}

/// Where a write is sent.
#[derive(Debug, Clone, PartialEq, Eq)]
pub enum RouteTarget {
    Hub,
    EdgeDevice(String),
    EdgeGroup(String),
    EdgeAll,
}

/// The model of a route target.
pub enum SpecTarget {
    Hub,
    EdgeDevice(Seq<char>),
    EdgeGroup(Seq<char>),
    EdgeAll,
}

impl RouteTarget {
    pub open spec fn view(&self) -> SpecTarget {
        match self {
            RouteTarget::Hub => SpecTarget::Hub,
            RouteTarget::EdgeDevice(d) => SpecTarget::EdgeDevice(d@),
            RouteTarget::EdgeGroup(g) => SpecTarget::EdgeGroup(g@),
            RouteTarget::EdgeAll => SpecTarget::EdgeAll,
        }
    }
}

/// A write split into its SQL body and its route target.
#[derive(Debug, Clone)]
pub struct ParsedRouteSql {
    pub body_sql: String,
    pub target: RouteTarget,
}

pub open spec fn for_hub() -> Seq<char> {
    seq!['F', 'O', 'R', ' ', 'H', 'U', 'B']
}

pub open spec fn for_edge() -> Seq<char> {
    seq!['F', 'O', 'R', ' ', 'E', 'D', 'G', 'E', '(']
}

pub open spec fn word_device_id() -> Seq<char> {
    seq!['d', 'e', 'v', 'i', 'c', 'e', '_', 'i', 'd']
}

pub open spec fn word_group_id() -> Seq<char> {
    seq!['g', 'r', 'o', 'u', 'p', '_', 'i', 'd']
}

pub open spec fn word_all() -> Seq<char> {
    seq!['a', 'l', 'l']
}

/// `p.splitn(2, '=')`: the text before the first `=` and the text after it
/// (empty when there is no `=`).
pub open spec fn split_key_value(p: Seq<char>) -> (Seq<char>, Seq<char>) {
    match find_char(p, '=') {
        Some(k) => (p.subrange(0, k), p.subrange(k + 1, p.len() as int)),
        None => (p, Seq::<char>::empty()),
    }
}

/// The target named by the text inside `FOR EDGE(...)`.
pub open spec fn spec_edge_target(params: Seq<char>) -> Result<SpecTarget, RouteFault> {
    let key = trim(split_key_value(params).0);
    let value = trim(split_key_value(params).1);
    if key.len() == 0 || value.len() == 0 {
        Err(RouteFault::EdgeParamNotKeyValue)
    } else if eq_ignore_case(key, word_device_id()) {
        if eq_ignore_case(value, word_all()) {
            Ok(SpecTarget::EdgeAll)
        } else {
            Ok(SpecTarget::EdgeDevice(value))
        }
    } else if eq_ignore_case(key, word_group_id()) {
        Ok(SpecTarget::EdgeGroup(value))
    } else {
        Err(RouteFault::EdgeKeyUnsupported)
    }
}

/// The statement with surrounding whitespace and trailing `;` removed.
pub open spec fn statement_core(raw: Seq<char>) -> Seq<char> {
    trim_end(trim_end_char(trim(raw), ';'))
}

/// What `parse_route_sql` gives for a statement.
pub open spec fn spec_parse_route(raw: Seq<char>) -> Result<(Seq<char>, SpecTarget), RouteFault> {
    let w = statement_core(raw);
    let u = upper_seq(w);
    if trim(raw).len() == 0 {
        Err(RouteFault::EmptySql)
    } else if ends_with(u, for_hub()) {
        match rfind(u, for_hub()) {
            Some(p) => {
                let body = trim_end(w.subrange(0, p));
                if body.len() == 0 {
                    Err(RouteFault::MissingBodyBeforeHub)
                } else {
                    Ok((body, SpecTarget::Hub))
                }
            },
            None => Err(RouteFault::InvalidHubClause),
        }
    } else if ends_with(u, seq![')']) && rfind(u, for_edge()) is Some {
        let p = rfind(u, for_edge())->0;
        let start = p + for_edge().len();
        if start >= w.len() {
            Err(RouteFault::MissingEdgeParams)
        } else if trim_end(w.subrange(0, p)).len() == 0 {
            Err(RouteFault::MissingBodyBeforeEdge)
        } else {
            match spec_edge_target(w.subrange(start, w.len() - 1)) {
                Ok(t) => Ok((trim_end(w.subrange(0, p)), t)),
                Err(f) => Err(f),
            }
        }
    } else {
        Ok((w, SpecTarget::Hub))
    }
}

fn lit_for_hub() -> (v: Vec<char>)
    ensures
        v@ == for_hub(),
{
    let v = vec!['F', 'O', 'R', ' ', 'H', 'U', 'B'];
    assert(v@ =~= for_hub());
    v
}

fn lit_for_edge() -> (v: Vec<char>)
    ensures
        v@ == for_edge(),
{
    let v = vec!['F', 'O', 'R', ' ', 'E', 'D', 'G', 'E', '('];
    assert(v@ =~= for_edge());
    v
}

/// A copy of `v[from..to]`.
pub fn copy_range(v: &[char], from: usize, to: usize) -> (out: Vec<char>)
    requires
        from <= to <= v@.len(),
    ensures
        out@ == v@.subrange(from as int, to as int),
{
    let mut out: Vec<char> = Vec::new();
    let mut i = from;
    while i < to
        invariant
            from <= i <= to <= v@.len(),
            out@ =~= v@.subrange(from as int, i as int),
        decreases to - i,
    {
        out.push(v[i]);
        i = i + 1;
    }
    out
}

/// Bounds of `trim_end_char(v[from..to], c)`.
fn strip_trailing_char(v: &[char], from: usize, to: usize, c: char) -> (r: usize)
    requires
        from <= to <= v@.len(),
    ensures
        from <= r <= to,
        trim_end_char(v@.subrange(from as int, to as int), c) == v@.subrange(from as int, r as int),
{
    let mut j = to;
    while j > from && v[j - 1] == c
        invariant
            from <= j <= to <= v@.len(),
            trim_end_char(v@.subrange(from as int, to as int), c) == trim_end_char(
                v@.subrange(from as int, j as int),
                c,
            ),
        decreases j,
    {
        assert(v@.subrange(from as int, j as int).drop_last() =~= v@.subrange(from as int, j - 1));
        j = j - 1;
    }
    proof {
        if j > from {
            assert(v@.subrange(from as int, j as int).last() == v@[j - 1]);
        }
    }
    j
}

/// The characters of `statement_core(raw)`.
fn core_chars(raw: &str) -> (w: Vec<char>)
    ensures
        w@ == statement_core(raw@),
        (w@.len() == 0) <== (trim(raw@).len() == 0),
{
    let v = chars_of(raw);
    let (a, b) = trim_bounds(&v, 0, v.len());
    assert(v@.subrange(0, v@.len() as int) =~= raw@);
    let j = strip_trailing_char(&v, a, b, ';');
    let c = skip_ws_backward(&v, a, j);
    proof {
        if a == b {
            assert(v@.subrange(a as int, b as int).len() == 0);
        }
    }
    copy_range(&v, a, c)
}

/// The route target named by `params` (the text inside `FOR EDGE(...)`).
fn edge_target(params: &[char]) -> (r: Result<RouteTarget, RouteFault>)
    ensures
        match r {
            Ok(t) => spec_edge_target(params@) == Ok::<SpecTarget, RouteFault>(t.view()),
            Err(f) => spec_edge_target(params@) == Err::<SpecTarget, RouteFault>(f),
        },
{
    let plen = params.len();
    let (key_end, value_start) = match find_char_exec(params, '=') {
        Some(k) => {
            assert(k < plen);
            (k, k + 1)
        },
        None => (params.len(), params.len()),
    };
    let (ka, kb) = trim_bounds(params, 0, key_end);
    let (va, vb) = trim_bounds(params, value_start, params.len());
    let ghost kv = split_key_value(params@);
    proof {
        match find_char(params@, '=') {
            Some(k) => {
                lemma_find_char_bound(params@, '=', 0);
            },
            None => {
                assert(params@.subrange(0, params@.len() as int) =~= params@);
                assert(params@.subrange(value_start as int, params@.len() as int) =~= Seq::<
                    char,
                >::empty());
            },
        }
    }
    assert(trim(kv.0) == params@.subrange(ka as int, kb as int));
    assert(trim(kv.1) == params@.subrange(va as int, vb as int));
    if ka == kb || va == vb {
        return Err(RouteFault::EdgeParamNotKeyValue);
    }
    let key = copy_range(params, ka, kb);
    let value = copy_range(params, va, vb);
    let device_word = vec!['d', 'e', 'v', 'i', 'c', 'e', '_', 'i', 'd'];
    let group_word = vec!['g', 'r', 'o', 'u', 'p', '_', 'i', 'd'];
    let all_word = vec!['a', 'l', 'l'];
    assert(device_word@ =~= word_device_id());
    assert(group_word@ =~= word_group_id());
    assert(all_word@ =~= word_all());
    assert(value@.subrange(0, value@.len() as int) =~= value@);
    if eq_ignore_case_exec(&key, &device_word) {
        if eq_ignore_case_exec(&value, &all_word) {
            Ok(RouteTarget::EdgeAll)
        } else {
            Ok(RouteTarget::EdgeDevice(string_of(&value, 0, value.len())))
        }
    } else if eq_ignore_case_exec(&key, &group_word) {
        Ok(RouteTarget::EdgeGroup(string_of(&value, 0, value.len())))
    } else {
        Err(RouteFault::EdgeKeyUnsupported)
    }
}

proof fn lemma_find_char_bound(s: Seq<char>, c: char, i: int)
    ensures
        find_char_from(s, c, i) matches Some(k) ==> i <= k < s.len() && s[k] == c,
    decreases s.len() - i,
{
    if 0 <= i < s.len() && s[i] != c {
        lemma_find_char_bound(s, c, i + 1);
    }
}

proof fn lemma_rfind_below_bound(s: Seq<char>, pat: Seq<char>, n: int)
    ensures
        rfind_below(s, pat, n) matches Some(k) ==> k < n && occurs_at(s, pat, k),
    decreases n,
{
    if n > 0 && !occurs_at(s, pat, n - 1) {
        lemma_rfind_below_bound(s, pat, n - 1);
    }
}

/// Splits a write into its SQL body and its route target.
pub fn parse_route_sql(raw_sql: &str) -> (r: Result<ParsedRouteSql, RouteFault>)
    ensures
        match r {
            Ok(p) => spec_parse_route(raw_sql@) == Ok::<(Seq<char>, SpecTarget), RouteFault>(
                (p.body_sql@, p.target.view()),
            ),
            Err(f) => spec_parse_route(raw_sql@) == Err::<(Seq<char>, SpecTarget), RouteFault>(f),
        },
{
    let v = chars_of(raw_sql);
    let (a, b) = trim_bounds(&v, 0, v.len());
    assert(v@.subrange(0, v@.len() as int) =~= raw_sql@);
    if a == b {
        return Err(RouteFault::EmptySql);
    }
    assert(trim(raw_sql@).len() > 0);
    let w = core_chars(raw_sql);
    let u = upper_chars(&w);
    let hub = lit_for_hub();
    if ends_with_exec(&u, &hub) {
        match rfind_exec(&u, &hub) {
            Some(p) => {
                proof {
                    lemma_rfind_below_bound(u@, for_hub(), u@.len() - for_hub().len() + 1);
                }
                let end = skip_ws_backward(&w, 0, p);
                if end == 0 {
                    return Err(RouteFault::MissingBodyBeforeHub);
                }
                return Ok(
                    ParsedRouteSql { body_sql: string_of(&w, 0, end), target: RouteTarget::Hub },
                );
            },
            None => {
                return Err(RouteFault::InvalidHubClause);
            },
        }
    }
    let close = vec![')'];
    assert(close@ =~= seq![')']);
    let edge = lit_for_edge();
    if ends_with_exec(&u, &close) {
        if let Some(p) = rfind_exec(&u, &edge) {
            proof {
                lemma_rfind_below_bound(u@, for_edge(), u@.len() - for_edge().len() + 1);
            }
            let ulen = u.len();
            assert(for_edge().len() == 9);
            assert(p + 9 <= ulen);
            let start = p + 9;
            if start >= w.len() {
                return Err(RouteFault::MissingEdgeParams);
            }
            let end = skip_ws_backward(&w, 0, p);
            if end == 0 {
                return Err(RouteFault::MissingBodyBeforeEdge);
            }
            let params = copy_range(&w, start, w.len() - 1);
            let target = edge_target(&params)?;
            return Ok(ParsedRouteSql { body_sql: string_of(&w, 0, end), target });
        }
    }
    assert(w@.subrange(0, w@.len() as int) =~= w@);
    Ok(ParsedRouteSql { body_sql: string_of(&w, 0, w.len()), target: RouteTarget::Hub })
}


/// Whether two character sequences are equal.
pub fn chars_eq(a: &[char], b: &[char]) -> (r: bool)
    ensures
        r == (a@ == b@),
{
    if a.len() != b.len() {
        return false;
    }
    let mut i: usize = 0;
    while i < a.len()
        invariant
            a@.len() == b@.len(),
            i <= a@.len(),
            forall|j: int| 0 <= j < i ==> a@[j] == b@[j],
        decreases a.len() - i,
    {
        if a[i] != b[i] {
            return false;
        }
        i = i + 1;
    }
    assert(a@ =~= b@);
    true
}

/// The upper-cased first word of a statement.
pub open spec fn spec_first_keyword(sql: Seq<char>) -> Seq<char> {
    upper_seq(first_word(sql))
}

/// The statement's first whitespace-separated word, ASCII upper-cased
/// (empty when the statement is blank).
pub fn first_keyword(sql: &str) -> (r: String)
    ensures
        r@ == spec_first_keyword(sql@),
{
    let v = chars_of(sql);
    let (a, b) = first_word_bounds(&v);
    let word = copy_range(&v, a, b);
    let up = upper_chars(&word);
    assert(up@.subrange(0, up@.len() as int) =~= up@);
    string_of(&up, 0, up.len())
}

/// A statement is DDL when its first keyword is `CREATE`, `ALTER` or `DROP`.
pub open spec fn spec_is_ddl(sql: Seq<char>) -> bool {
    let k = spec_first_keyword(sql);
    k == "CREATE"@ || k == "ALTER"@ || k == "DROP"@
}

pub fn is_ddl(sql: &str) -> (r: bool)
    ensures
        r == spec_is_ddl(sql@),
{
    let k = first_keyword(sql);
    let kc = chars_of(k.as_str());
    let create = chars_of("CREATE");
    let alter = chars_of("ALTER");
    let drop = chars_of("DROP");
    chars_eq(&kc, &create) || chars_eq(&kc, &alter) || chars_eq(&kc, &drop)
}

/// One step of the top-level comma scan: the pieces closed so far, the
/// parenthesis depth, and where the open piece starts.
pub open spec fn split_scan(s: Seq<char>, n: int) -> (Seq<Seq<char>>, int, int)
    decreases n,
{
    if n <= 0 {
        (Seq::<Seq<char>>::empty(), 0, 0)
    } else {
        let prev = split_scan(s, n - 1);
        let c = s[n - 1];
        if c == '(' {
            (prev.0, prev.1 + 1, prev.2)
        } else if c == ')' {
            (prev.0, if prev.1 - 1 > 0 { prev.1 - 1 } else { 0 }, prev.2)
        } else if c == ',' && prev.1 == 0 {
            (prev.0.push(trim(s.subrange(prev.2, n - 1))), prev.1, n)
        } else {
            prev
        }
    }
}

/// The trimmed pieces of `s` between commas that are outside parentheses.
pub open spec fn split_top(s: Seq<char>) -> Seq<Seq<char>> {
    let st = split_scan(s, s.len() as int);
    st.0.push(trim(s.subrange(st.2, s.len() as int)))
}

proof fn lemma_split_scan_bounds(s: Seq<char>, n: int)
    requires
        0 <= n <= s.len(),
    ensures
        0 <= split_scan(s, n).2 <= n,
        0 <= split_scan(s, n).1 <= n,
    decreases n,
{
    if n > 0 {
        lemma_split_scan_bounds(s, n - 1);
    }
}

/// Views of a list of character vectors.
pub open spec fn views_of(v: Seq<Vec<char>>) -> Seq<Seq<char>> {
    Seq::new(v.len(), |i: int| v[i]@)
}

fn split_top_chars(s: &[char]) -> (out: Vec<Vec<char>>)
    ensures
        views_of(out@) == split_top(s@),
{
    let slen = s.len();
    let mut out: Vec<Vec<char>> = Vec::new();
    let mut depth: usize = 0;
    let mut start: usize = 0;
    let mut i: usize = 0;
    while i < s.len()
        invariant
            slen == s@.len(),
            i <= s@.len(),
            split_scan(s@, i as int) == (views_of(out@), depth as int, start as int),
            start <= i,
            depth <= i,
        decreases s.len() - i,
    {
        let c = s[i];
        if c == '(' {
            depth = depth + 1;
        } else if c == ')' {
            if depth > 0 {
                depth = depth - 1;
            }
        } else if c == ',' && depth == 0 {
            let (a, b) = trim_bounds(s, start, i);
            let piece = copy_range(s, a, b);
            let ghost old_out = out@;
            out.push(piece);
            assert(views_of(out@) =~= views_of(old_out).push(piece@));
            start = i + 1;
        }
        i = i + 1;
    }
    let (a, b) = trim_bounds(s, start, s.len());
    let piece = copy_range(s, a, b);
    let ghost old_out = out@;
    out.push(piece);
    assert(views_of(out@) =~= views_of(old_out).push(piece@));
    out
}

/// Views of a list of strings.
pub open spec fn string_views(v: Seq<String>) -> Seq<Seq<char>> {
    Seq::new(v.len(), |i: int| v[i]@)
}

/// Splits a column list on the commas that are not inside parentheses;
/// every piece is trimmed.
pub fn split_top_level_by_comma(input: &str) -> (out: Vec<String>)
    ensures
        string_views(out@) == split_top(input@),
{
    let v = chars_of(input);
    let pieces = split_top_chars(&v);
    let mut out: Vec<String> = Vec::new();
    let mut i: usize = 0;
    while i < pieces.len()
        invariant
            i <= pieces@.len(),
            string_views(out@) =~= views_of(pieces@).subrange(0, i as int),
        decreases pieces.len() - i,
    {
        let p = &pieces[i];
        assert(p@.subrange(0, p@.len() as int) =~= p@);
        let ghost old_out = out@;
        out.push(string_of(p, 0, p.len()));
        assert(string_views(out@) =~= string_views(old_out).push(pieces@[i as int]@));
        assert(views_of(pieces@).subrange(0, i + 1) =~= views_of(pieces@).subrange(0, i as int).push(
            pieces@[i as int]@,
        ));
        i = i + 1;
    }
    out
}

/// A column definition that is a key column declared eventual.
pub open spec fn key_column_eventual(def: Seq<char>) -> bool {
    let u = upper_seq(def);
    contains(u, "CONSISTENCY:EVENTUAL"@) && (contains(u, "PRIMARY KEY"@) || contains(
        u,
        "UNIQUE"@,
    ))
}

/// What `validate_create_table_key_consistency` decides.
pub open spec fn spec_create_table_check(sql: Seq<char>) -> Result<(), RouteFault> {
    let u = upper_seq(sql);
    if !starts_with(u, "CREATE TABLE"@) || !contains(u, "CONSISTENCY:EVENTUAL"@) {
        Ok(())
    } else {
        match find_char(sql, '(') {
            None => Err(RouteFault::CreateTableMissingOpen),
            Some(st) => match rfind(sql, seq![')']) {
                None => Err(RouteFault::CreateTableMissingClose),
                Some(en) => if en <= st {
                    Err(RouteFault::CreateTableColumnsInvalid)
                } else if exists|i: int|
                    0 <= i < split_top(sql.subrange(st + 1, en)).len() && key_column_eventual(
                        #[trigger] split_top(sql.subrange(st + 1, en))[i],
                    ) {
                    Err(RouteFault::KeyColumnEventual)
                } else {
                    Ok(())
                },
            },
        }
    }
}

fn key_column_eventual_exec(def: &[char]) -> (r: bool)
    ensures
        r == key_column_eventual(def@),
{
    let u = upper_chars(def);
    let ev = chars_of("CONSISTENCY:EVENTUAL");
    let pk = chars_of("PRIMARY KEY");
    let uq = chars_of("UNIQUE");
    contains_exec(&u, &ev) && (contains_exec(&u, &pk) || contains_exec(&u, &uq))
}

/// Rejects a `CREATE TABLE` whose key column declares eventual consistency.
pub fn validate_create_table_key_consistency(sql: &str) -> (r: Result<(), RouteFault>)
    ensures
        r == spec_create_table_check(sql@),
{
    let v = chars_of(sql);
    let u = upper_chars(&v);
    let ct = chars_of("CREATE TABLE");
    let ev = chars_of("CONSISTENCY:EVENTUAL");
    if !starts_with_exec(&u, &ct) || !contains_exec(&u, &ev) {
        return Ok(());
    }
    let start = match find_char_exec(&v, '(') {
        Some(k) => k,
        None => {
            return Err(RouteFault::CreateTableMissingOpen);
        },
    };
    let close = vec![')'];
    assert(close@ =~= seq![')']);
    let end = match rfind_exec(&v, &close) {
        Some(k) => k,
        None => {
            return Err(RouteFault::CreateTableMissingClose);
        },
    };
    if end <= start {
        return Err(RouteFault::CreateTableColumnsInvalid);
    }
    proof {
        lemma_rfind_below_bound(v@, seq![')'], v@.len() - 1 + 1);
    }
    let columns = copy_range(&v, start + 1, end);
    let defs = split_top_chars(&columns);
    assert(views_of(defs@) == split_top(v@.subrange(start + 1, end as int)));
    let ghost sp = split_top(sql@.subrange(start + 1, end as int));
    let mut i: usize = 0;
    while i < defs.len()
        invariant
            i <= defs@.len(),
            views_of(defs@) == split_top(v@.subrange(start + 1, end as int)),
            v@ == sql@,
            find_char(sql@, '(') == Some(start as int),
            rfind(sql@, seq![')']) == Some(end as int),
            starts_with(upper_seq(sql@), "CREATE TABLE"@),
            contains(upper_seq(sql@), "CONSISTENCY:EVENTUAL"@),
            start < end,
            sp == split_top(sql@.subrange(start + 1, end as int)),
            forall|j: int| 0 <= j < i ==> !key_column_eventual(#[trigger] views_of(defs@)[j]),
        decreases defs.len() - i,
    {
        if key_column_eventual_exec(&defs[i]) {
            assert(key_column_eventual(views_of(defs@)[i as int]));
            assert(key_column_eventual(sp[i as int]));
            assert(find_char(sql@, '(') == Some(start as int));
            assert(rfind(sql@, seq![')']) == Some(end as int));
            assert(starts_with(upper_seq(sql@), "CREATE TABLE"@));
            assert(contains(upper_seq(sql@), "CONSISTENCY:EVENTUAL"@));
            return Err(RouteFault::KeyColumnEventual);
        }
        i = i + 1;
    }
    assert forall|j: int| 0 <= j < sp.len() implies !key_column_eventual(#[trigger] sp[j]) by {
        assert(sp[j] == views_of(defs@)[j]);
    }
    Ok(())
}

/// What `validate_alter_add_column_key_consistency` decides.
pub open spec fn spec_alter_check(sql: Seq<char>) -> Result<(), RouteFault> {
    let u = upper_seq(sql);
    if starts_with(u, "ALTER TABLE"@) && contains(u, "ADD COLUMN"@) && key_column_eventual(sql) {
        Err(RouteFault::KeyColumnEventual)
    } else {
        Ok(())
    }
}

/// Rejects `ALTER TABLE .. ADD COLUMN` of a key column declared eventual.
pub fn validate_alter_add_column_key_consistency(sql: &str) -> (r: Result<(), RouteFault>)
    ensures
        r == spec_alter_check(sql@),
{
    let v = chars_of(sql);
    let u = upper_chars(&v);
    let at = chars_of("ALTER TABLE");
    let ac = chars_of("ADD COLUMN");
    if !starts_with_exec(&u, &at) || !contains_exec(&u, &ac) {
        return Ok(());
    }
    if key_column_eventual_exec(&v) {
        return Err(RouteFault::KeyColumnEventual);
    }
    Ok(())
}

/// A character that continues a word or a number.
pub open spec fn word_char(c: char) -> bool {
    ('0' <= c && c <= '9') || ('A' <= c && c <= 'Z') || ('a' <= c && c <= 'z') || c == '_' || c == '.'
}

/// The number of single quotes among the first `i` characters of `s`.
pub open spec fn quotes_before(s: Seq<char>, i: int) -> nat
    decreases i,
{
    if i <= 0 || i > s.len() {
        0
    } else {
        quotes_before(s, i - 1) + if s[i - 1] == '\'' {
            1nat
        } else {
            0nat
        }
    }
}

/// Position `i` of `s` holds the number literal `1` on its own, outside any
/// quoted text.
pub open spec fn bare_one_at(s: Seq<char>, i: int) -> bool {
    &&& 0 <= i < s.len()
    &&& s[i] == '1'
    &&& quotes_before(s, i) % 2 == 0
    &&& (i == 0 || !word_char(s[i - 1]))
    &&& (i + 1 == s.len() || !word_char(s[i + 1]))
}

/// What `validate_sys_column_consistency_dml` decides: a write to the
/// consistency metadata that names EVENTUAL and the key-column flag is
/// refused when it writes the value 1, the only number such a row holds
/// (the flag), as a literal of its own outside quoted text.
pub open spec fn spec_sys_check(sql: Seq<char>) -> Result<(), RouteFault> {
    let u = upper_seq(sql);
    if contains(u, "SYS_COLUMN_CONSISTENCY"@) && contains(u, "EVENTUAL"@) && contains(
        u,
        "IS_KEY_COLUMN"@,
    ) && exists|i: int| bare_one_at(u, i) {
        Err(RouteFault::SysKeyColumnEventual)
    } else {
        Ok(())
    }
}

fn word_char_exec(c: char) -> (r: bool)
    ensures
        r == word_char(c),
{
    ('0' <= c && c <= '9') || ('A' <= c && c <= 'Z') || ('a' <= c && c <= 'z') || c == '_' || c == '.'
}

/// Whether `s` holds a bare literal `1` outside quoted text.
fn has_bare_one(s: &[char]) -> (r: bool)
    ensures
        r == exists|i: int| bare_one_at(s@, i),
{
    let n = s.len();
    let mut odd = false;
    let mut i: usize = 0;
    while i < n
        invariant
            n == s@.len(),
            i <= n,
            odd == (quotes_before(s@, i as int) % 2 == 1),
            forall|j: int| 0 <= j < i ==> !bare_one_at(s@, j),
        decreases n - i,
    {
        if s[i] == '1' && !odd && (i == 0 || !word_char_exec(s[i - 1])) && (i + 1 == n || !word_char_exec(s[i + 1])) {
            assert(bare_one_at(s@, i as int));
            return true;
        }
        assert(quotes_before(s@, i + 1) == quotes_before(s@, i as int) + if s@[i as int] == '\'' { 1nat } else { 0nat });
        if s[i] == '\'' {
            odd = !odd;
        }
        i = i + 1;
    }
    false
}

/// Rejects writes to `sys_column_consistency` that would mark a key column
/// (`is_key_column = 1`) eventual.
pub fn validate_sys_column_consistency_dml(sql: &str) -> (r: Result<(), RouteFault>)
    ensures
        r == spec_sys_check(sql@),
{
    let v = chars_of(sql);
    let u = upper_chars(&v);
    let t = chars_of("SYS_COLUMN_CONSISTENCY");
    let e = chars_of("EVENTUAL");
    let k = chars_of("IS_KEY_COLUMN");
    if contains_exec(&u, &t) && contains_exec(&u, &e) && contains_exec(&u, &k) && has_bare_one(&u) {
        Err(RouteFault::SysKeyColumnEventual)
    } else {
        Ok(())
    }
}

/// What `normalize_sql_for_write` gives: the routed body, once every rule
/// has accepted it.
pub open spec fn spec_normalize(raw: Seq<char>) -> Result<Seq<char>, RouteFault> {
    match spec_parse_route(raw) {
        Err(f) => Err(f),
        Ok((body, target)) => {
            if target matches SpecTarget::EdgeDevice(d) && d.len() == 0 {
                Err(RouteFault::DeviceIdEmpty)
            } else if target matches SpecTarget::EdgeGroup(g) && g.len() == 0 {
                Err(RouteFault::GroupIdEmpty)
            } else if spec_is_ddl(body) && spec_create_table_check(body) is Err {
                Err(spec_create_table_check(body)->Err_0)
            } else if spec_is_ddl(body) && spec_alter_check(body) is Err {
                Err(spec_alter_check(body)->Err_0)
            } else if spec_sys_check(body) is Err {
                Err(spec_sys_check(body)->Err_0)
            } else {
                Ok(body)
            }
        },
    }
}

/// The SQL body that is executed for a write, once its route suffix has
/// been removed and the consistency rules accept it.
pub fn normalize_sql_for_write(raw_sql: &str) -> (r: Result<String, RouteFault>)
    ensures
        match r {
            Ok(s) => spec_normalize(raw_sql@) == Ok::<Seq<char>, RouteFault>(s@),
            Err(f) => spec_normalize(raw_sql@) == Err::<Seq<char>, RouteFault>(f),
        },
{
    let parsed = parse_route_sql(raw_sql)?;
    match &parsed.target {
        RouteTarget::EdgeDevice(d) => {
            if d.as_str().is_empty() {
                return Err(RouteFault::DeviceIdEmpty);
            }
        },
        RouteTarget::EdgeGroup(g) => {
            if g.as_str().is_empty() {
                return Err(RouteFault::GroupIdEmpty);
            }
        },
        _ => {},
    }
    let body = parsed.body_sql.as_str();
    if is_ddl(body) {
        validate_create_table_key_consistency(body)?;
        validate_alter_add_column_key_consistency(body)?;
    }
    validate_sys_column_consistency_dml(body)?;
    Ok(parsed.body_sql)
}

/// `raw.replace('\'', "''")`, for embedding text in a SQL literal.
pub fn escape_sql_literal(raw: &str) -> (r: String)
    ensures
        r@ == escape_quotes(raw@),
{
    let v = chars_of(raw);
    let mut out = String::new();
    push_escaped(&mut out, &v);
    out
}

/// The existence query for a route target; none is needed for the hub or
/// for all edges.
pub open spec fn spec_target_exists_sql(t: SpecTarget) -> Option<Seq<char>> {
    match t {
        SpecTarget::EdgeDevice(d) => Some(
            "SELECT EXISTS(SELECT 1 FROM sys_edge_device WHERE device_id='"@ + escape_quotes(d)
                + "')"@,
        ),
        SpecTarget::EdgeGroup(g) => Some(
            "SELECT EXISTS(SELECT 1 FROM sys_edge_group WHERE group_id='"@ + escape_quotes(g)
                + "')"@,
        ),
        _ => None,
    }
}

pub fn route_target_exists_sql(target: &RouteTarget) -> (r: Option<String>)
    ensures
        match r {
            Some(s) => spec_target_exists_sql(target.view()) == Some(s@),
            None => spec_target_exists_sql(target.view()) is None,
        },
{
    let (prefix, id) = match target {
        RouteTarget::EdgeDevice(d) => (
            "SELECT EXISTS(SELECT 1 FROM sys_edge_device WHERE device_id='",
            d.as_str(),
        ),
        RouteTarget::EdgeGroup(g) => (
            "SELECT EXISTS(SELECT 1 FROM sys_edge_group WHERE group_id='",
            g.as_str(),
        ),
        _ => {
            return None;
        },
    };
    let mut out = String::from_str(prefix);
    let idc = chars_of(id);
    push_escaped(&mut out, &idc);
    out.append("')");
    Some(out)
}

/// What the existence query told about a route target.
#[derive(Debug, Clone, Copy, PartialEq, Eq, Structural)]
pub enum RouteTargetLookup {
    Exists,
    NotFound,
    MetadataMissing,
}

/// How the reply to an existence query is read: the scalar `1` (after
/// trimming) means the target exists, any other scalar that it does not;
/// a failure that mentions a missing table means the metadata table is
/// absent, any other failure is passed on.
pub open spec fn spec_classify_lookup(reply: Result<Seq<char>, Seq<char>>) -> Result<
    RouteTargetLookup,
    Seq<char>,
> {
    match reply {
        Ok(v) => if trim(v) == "1"@ {
            Ok(RouteTargetLookup::Exists)
        } else {
            Ok(RouteTargetLookup::NotFound)
        },
        Err(m) => if contains(lower_seq(m), "no such table"@) {
            Ok(RouteTargetLookup::MetadataMissing)
        } else {
            Err(m)
        },
    }
}

pub fn classify_target_lookup(reply: Result<String, String>) -> (r: Result<
    RouteTargetLookup,
    String,
>)
    ensures
        match (reply, r) {
            (Ok(v), Ok(l)) => spec_classify_lookup(Ok(v@)) == Ok::<RouteTargetLookup, Seq<char>>(
                l,
            ),
            (Err(m), Ok(l)) => spec_classify_lookup(Err(m@)) == Ok::<RouteTargetLookup, Seq<char>>(
                l,
            ),
            (Err(m), Err(e)) => spec_classify_lookup(Err(m@)) == Err::<
                RouteTargetLookup,
                Seq<char>,
            >(e@),
            (Ok(_), Err(_)) => false,
        },
{
    match reply {
        Ok(v) => {
            let vc = chars_of(v.as_str());
            let (a, b) = trim_bounds(&vc, 0, vc.len());
            assert(vc@.subrange(0, vc@.len() as int) =~= vc@);
            let t = copy_range(&vc, a, b);
            let one = chars_of("1");
            if chars_eq(&t, &one) {
                Ok(RouteTargetLookup::Exists)
            } else {
                Ok(RouteTargetLookup::NotFound)
            }
        },
        Err(m) => {
            let mc = chars_of(m.as_str());
            let lc = lower_chars(&mc);
            let pat = chars_of("no such table");
            if contains_exec(&lc, &pat) {
                Ok(RouteTargetLookup::MetadataMissing)
            } else {
                Err(m)
            }
        },
    }
}

/// The verdict on a route target once its existence is known.
pub open spec fn spec_check_route_target(t: SpecTarget, l: RouteTargetLookup) -> Result<
    (),
    RouteFault,
> {
    match (t, l) {
        (SpecTarget::EdgeDevice(_), RouteTargetLookup::NotFound) => Err(RouteFault::DeviceNotFound),
        (SpecTarget::EdgeDevice(_), RouteTargetLookup::MetadataMissing) => Err(
            RouteFault::DeviceMetadataMissing,
        ),
        (SpecTarget::EdgeGroup(_), RouteTargetLookup::NotFound) => Err(RouteFault::GroupNotFound),
        (SpecTarget::EdgeGroup(_), RouteTargetLookup::MetadataMissing) => Err(
            RouteFault::GroupMetadataMissing,
        ),
        _ => Ok(()),
    }
}

pub fn check_route_target(target: &RouteTarget, lookup: RouteTargetLookup) -> (r: Result<
    (),
    RouteFault,
>)
    ensures
        r == spec_check_route_target(target.view(), lookup),
{
    match (target, lookup) {
        (RouteTarget::EdgeDevice(_), RouteTargetLookup::NotFound) => Err(RouteFault::DeviceNotFound),
        (RouteTarget::EdgeDevice(_), RouteTargetLookup::MetadataMissing) => Err(
            RouteFault::DeviceMetadataMissing,
        ),
        (RouteTarget::EdgeGroup(_), RouteTargetLookup::NotFound) => Err(RouteFault::GroupNotFound),
        (RouteTarget::EdgeGroup(_), RouteTargetLookup::MetadataMissing) => Err(
            RouteFault::GroupMetadataMissing,
        ),
        _ => Ok(()),
    }
}

/// The first `c` of `k + [c] + v` is the one after `k` when `k` holds none.
proof fn lemma_find_char_after(k: Seq<char>, v: Seq<char>, c: char, i: int)
    requires
        0 <= i <= k.len(),
        !k.contains(c),
    ensures
        find_char_from(k + seq![c] + v, c, i) == Some(k.len() as int),
    decreases k.len() - i,
{
    let s = k + seq![c] + v;
    if i < k.len() {
        assert(s[i] == k[i]);
        lemma_find_char_after(k, v, c, i + 1);
    } else {
        assert(s[i] == c);
    }
}

/// `key=value` inside `FOR EDGE(...)`, with a key free of `=`, is read as
/// that key and that value.
proof fn lemma_edge_params_split(k: Seq<char>, v: Seq<char>)
    requires
        !k.contains('='),
    ensures
        split_key_value(k + seq!['='] + v) == (k, v),
{
    let s = k + seq!['='] + v;
    lemma_find_char_after(k, v, '=', 0);
    assert(s.subrange(0, k.len() as int) =~= k);
    assert(s.subrange(k.len() + 1int, s.len() as int) =~= v);
}

/// Routing to all edges: `FOR EDGE(device_id=all)`, with the key and the
/// value compared without regard to ASCII case and surrounding whitespace,
/// names every edge, not a device called `all`; any other non-empty value
/// of `device_id` names that device, and `group_id` names a group.
pub proof fn lemma_edge_target_by_key(k: Seq<char>, v: Seq<char>)
    requires
        !k.contains('='),
        trim(v).len() > 0,
    ensures
        eq_ignore_case(trim(k), seq!['d', 'e', 'v', 'i', 'c', 'e', '_', 'i', 'd'])
            && eq_ignore_case(trim(v), seq!['a', 'l', 'l'])
            ==> spec_edge_target(k + seq!['='] + v) == Ok::<SpecTarget, RouteFault>(SpecTarget::EdgeAll),
        eq_ignore_case(trim(k), seq!['d', 'e', 'v', 'i', 'c', 'e', '_', 'i', 'd'])
            && !eq_ignore_case(trim(v), seq!['a', 'l', 'l'])
            ==> spec_edge_target(k + seq!['='] + v) == Ok::<SpecTarget, RouteFault>(SpecTarget::EdgeDevice(trim(v))),
        eq_ignore_case(trim(k), seq!['g', 'r', 'o', 'u', 'p', '_', 'i', 'd'])
            ==> spec_edge_target(k + seq!['='] + v) == Ok::<SpecTarget, RouteFault>(SpecTarget::EdgeGroup(trim(v))),
{
    lemma_edge_params_split(k, v);
}

/// A write that ends in `FOR EDGE(device_id=all)` (the last `FOR EDGE(` of
/// the statement, any ASCII case, with whitespace around the key and the
/// value allowed) goes to every edge, with the text before the clause as
/// its body: here `p` is where that clause starts in the statement without
/// its surrounding whitespace and trailing `;`.
pub proof fn lemma_parse_edge_all(raw: Seq<char>, p: int, k: Seq<char>, v: Seq<char>)
    requires
        trim(raw).len() > 0,
        !ends_with(upper_seq(statement_core(raw)), for_hub()),
        ends_with(upper_seq(statement_core(raw)), seq![')']),
        rfind(upper_seq(statement_core(raw)), for_edge()) == Some(p),
        p + 9 < statement_core(raw).len(),
        trim_end(statement_core(raw).subrange(0, p)).len() > 0,
        statement_core(raw).subrange(p + 9, statement_core(raw).len() - 1) == k + seq!['='] + v,
        !k.contains('='),
        eq_ignore_case(trim(k), seq!['d', 'e', 'v', 'i', 'c', 'e', '_', 'i', 'd']),
        eq_ignore_case(trim(v), seq!['a', 'l', 'l']),
    ensures
        spec_parse_route(raw) == Ok::<(Seq<char>, SpecTarget), RouteFault>(
            (trim_end(statement_core(raw).subrange(0, p)), SpecTarget::EdgeAll),
        ),
{
    lemma_edge_params_split(k, v);
}

/// A write is never routed to a device whose name is `all` in any ASCII
/// case: that name stands for every edge.
pub proof fn lemma_no_device_named_all(raw: Seq<char>)
    ensures
        spec_parse_route(raw) matches Ok((_, SpecTarget::EdgeDevice(d))) ==> !eq_ignore_case(
            d,
            seq!['a', 'l', 'l'],
        ),
        spec_normalize(raw) is Ok ==> (spec_parse_route(raw) matches Ok((_, SpecTarget::EdgeDevice(d))) ==> d.len()
            > 0),
{
}

/// A `CREATE TABLE` with a column that is a key (it says `PRIMARY KEY` or
/// `UNIQUE`, in any ASCII case) and declares `CONSISTENCY:EVENTUAL` is
/// refused with `KeyColumnEventual`: here `st` is the first `(` and `en`
/// the last `)` of the statement, and `i` the position of that column among
/// the top-level comma-separated definitions between them.
pub proof fn lemma_eventual_key_column_refused(sql: Seq<char>, st: int, en: int, i: int)
    requires
        starts_with(upper_seq(sql), "CREATE TABLE"@),
        contains(upper_seq(sql), "CONSISTENCY:EVENTUAL"@),
        find_char(sql, '(') == Some(st),
        rfind(sql, seq![')']) == Some(en),
        st < en,
        0 <= i < split_top(sql.subrange(st + 1, en)).len(),
        contains(upper_seq(split_top(sql.subrange(st + 1, en))[i]), "CONSISTENCY:EVENTUAL"@),
        contains(upper_seq(split_top(sql.subrange(st + 1, en))[i]), "UNIQUE"@) || contains(
            upper_seq(split_top(sql.subrange(st + 1, en))[i]),
            "PRIMARY KEY"@,
        ),
    ensures
        spec_create_table_check(sql) == Err::<(), RouteFault>(RouteFault::KeyColumnEventual),
{
    assert(key_column_eventual(split_top(sql.subrange(st + 1, en))[i]));
}

/// An `ALTER TABLE .. ADD COLUMN` of a key column (`PRIMARY KEY` or
/// `UNIQUE`, in any ASCII case) that declares `CONSISTENCY:EVENTUAL` is
/// refused with `KeyColumnEventual`.
pub proof fn lemma_eventual_key_column_added_refused(sql: Seq<char>)
    requires
        starts_with(upper_seq(sql), "ALTER TABLE"@),
        contains(upper_seq(sql), "ADD COLUMN"@),
        contains(upper_seq(sql), "CONSISTENCY:EVENTUAL"@),
        contains(upper_seq(sql), "UNIQUE"@) || contains(upper_seq(sql), "PRIMARY KEY"@),
    ensures
        spec_alter_check(sql) == Err::<(), RouteFault>(RouteFault::KeyColumnEventual),
{
}

} // verus!
