//! The query of the backup table for a filter.

use crate::model::types::SnapshotId;
use crate::text::append_str;
use vstd::prelude::*;

verus! {

broadcast use vstd::string::group_string_axioms;

/// Which backups a query asks for: each condition that is set must hold.
#[derive(Debug)]
pub struct BackupFilter {
    /// Backups of this snapshot.
    pub source_snapshot: Option<SnapshotId>,
    /// Backups taken within these times (inclusive).
    pub time_range: Option<(i64, i64)>,
    /// Backups with this label.
    pub label: Option<String>,
    /// Backups made for this agent.
    pub agent_id: Option<String>,
    /// Backups of snapshots from this kind of source.
    pub source_type: Option<String>,
    /// Backups whose metadata has this key (checked after the query).
    pub metadata_key: Option<String>,
    /// With `metadata_key`: backups whose metadata maps that key to this value.
    pub metadata_value: Option<String>,
}

impl BackupFilter {
    /// The filter that asks for every backup.
    pub fn new() -> (r: BackupFilter)
        ensures
            r.source_snapshot is None,
            r.time_range is None,
            r.label is None,
            r.agent_id is None,
            r.source_type is None,
            r.metadata_key is None,
            r.metadata_value is None,
    {
        BackupFilter {
            source_snapshot: None,
            time_range: None,
            label: None,
            agent_id: None,
            source_type: None,
            metadata_key: None,
            metadata_value: None,
        }
    }

    /// The filter with its label condition set.
    pub fn with_label(self, label: &str) -> (r: BackupFilter)
        ensures
            r.label matches Some(l) && l@ == label@,
            r.source_snapshot == self.source_snapshot,
            r.time_range == self.time_range,
            r.agent_id == self.agent_id,
            r.source_type == self.source_type,
            r.metadata_key == self.metadata_key,
            r.metadata_value == self.metadata_value,
    {
        BackupFilter { label: Some(label.to_string()), ..self }
    }
}

/// Metadata given as key–value pairs, as plain values.
pub open spec fn pairs_view(m: Seq<(String, String)>) -> Seq<(Seq<char>, Seq<char>)> {
    Seq::new(m.len(), |i: int| (m[i].0@, m[i].1@))
}

/// The value that metadata holds under `key` (from its first pair with that
/// key), if any.
pub open spec fn meta_lookup(m: Seq<(Seq<char>, Seq<char>)>, key: Seq<char>) -> Option<Seq<char>>
    decreases m.len(),
{
    if m.len() == 0 {
        None
    } else if m[0].0 == key {
        Some(m[0].1)
    } else {
        meta_lookup(m.drop_first(), key)
    }
}

/// Whether metadata passes a filter's metadata condition: when a key is set,
/// the metadata has it, mapped to the given value when one is set too.
pub open spec fn metadata_condition(f: BackupFilter, m: Seq<(Seq<char>, Seq<char>)>) -> bool {
    match f.metadata_key {
        None => true,
        Some(k) => match f.metadata_value {
            Some(v) => meta_lookup(m, k@) == Some(v@),
            None => meta_lookup(m, k@) is Some,
        },
    }
}

/// The position of the first pair of `metadata` with key `key`.
fn meta_position(metadata: &[(String, String)], key: &String) -> (r: Option<usize>)
    ensures
        match meta_lookup(pairs_view(metadata@), key@) {
            None => r is None,
            Some(v) => r matches Some(i) && i < metadata@.len() && metadata@[i as int].1@ == v,
        },
{
    let ghost m = pairs_view(metadata@);
    let mut i: usize = 0;
    proof {
        assert(m.subrange(0, m.len() as int) =~= m);
    }
    while i < metadata.len()
        invariant
            i <= metadata@.len(),
            m == pairs_view(metadata@),
            meta_lookup(m, key@) == meta_lookup(m.subrange(i as int, m.len() as int), key@),
        decreases metadata@.len() - i,
    {
        let ghost rest = m.subrange(i as int, m.len() as int);
        proof {
            assert(rest[0] == m[i as int]);
            assert(rest.drop_first() =~= m.subrange(i + 1, m.len() as int));
        }
        if metadata[i].0 == *key {
            return Some(i);
        }
        i += 1;
    }
    proof {
        assert(m.subrange(i as int, m.len() as int).len() == 0);
    }
    None
}

/// Whether a backup with this metadata passes the filter's metadata condition
/// (see `metadata_condition`).
pub fn metadata_passes(filter: &BackupFilter, metadata: &[(String, String)]) -> (r: bool)
    ensures
        r == metadata_condition(*filter, pairs_view(metadata@)),
{
    match &filter.metadata_key {
        None => true,
        Some(k) => match meta_position(metadata, k) {
            None => false,
            Some(i) => match &filter.metadata_value {
                None => true,
                Some(v) => metadata[i].1 == *v,
            },
        },
    }
}

/// The positions, in order, of the backups (given by their metadata) that
/// pass the filter's metadata condition: what remains of a query's result
/// after the metadata check.
pub fn metadata_kept(filter: &BackupFilter, metadatas: &[Vec<(String, String)>]) -> (r: Vec<usize>)
    ensures
        forall|a: int, b: int| 0 <= a < b < r@.len() ==> r@[a] < r@[b],
        forall|a: int| 0 <= a < r@.len() ==> (#[trigger] r@[a]) < metadatas@.len(),
        forall|j: int| 0 <= j < metadatas@.len() ==> (r@.contains(j as usize) <==> metadata_condition(
            *filter,
            pairs_view((#[trigger] metadatas@[j])@),
        )),
{
    let mut r: Vec<usize> = Vec::new();
    let mut j: usize = 0;
    while j < metadatas.len()
        invariant
            j <= metadatas@.len(),
            forall|a: int, b: int| 0 <= a < b < r@.len() ==> r@[a] < r@[b],
            forall|a: int| 0 <= a < r@.len() ==> (#[trigger] r@[a]) < j,
            forall|x: int| 0 <= x < j ==> (r@.contains(x as usize) <==> metadata_condition(*filter, pairs_view((#[trigger] metadatas@[x])@))),
        decreases metadatas@.len() - j,
    {
        let keep = metadata_passes(filter, metadatas[j].as_slice());
        let ghost before = r@;
        if keep {
            r.push(j);
            proof {
                assert forall|x: int| 0 <= x < j implies (r@.contains(x as usize) <==> metadata_condition(
                    *filter,
                    pairs_view((#[trigger] metadatas@[x])@),
                )) by {
                    assert(before.contains(x as usize) <==> metadata_condition(*filter, pairs_view(metadatas@[x]@)));
                    if r@.contains(x as usize) {
                        let a = choose|a: int| 0 <= a < r@.len() && r@[a] == x as usize;
                        if a < before.len() {
                            assert(before[a] == x as usize);
                        }
                    }
                    if before.contains(x as usize) {
                        let a = choose|a: int| 0 <= a < before.len() && before[a] == x as usize;
                        assert(r@[a] == x as usize);
                    }
                }
                assert(r@[r@.len() - 1] == j);
            }
        } else {
            proof {
                assert(!r@.contains(j)) by {
                    if r@.contains(j) {
                        let a = choose|a: int| 0 <= a < r@.len() && r@[a] == j;
                        assert(r@[a] < j);
                    }
                }
            }
        }
        j += 1;
    }
    r
}

/// A parameter of a query, in the place of one `?` of the statement.
#[derive(Debug)]
pub enum QueryParam {
    Bytes(Vec<u8>),
    Int(i64),
    Text(String),
}

/// The view of a query parameter.
pub enum QueryParamV {
    Bytes(Seq<u8>),
    Int(i64),
    Text(Seq<char>),
}

impl View for QueryParam {
    type V = QueryParamV;

    open spec fn view(&self) -> QueryParamV {
        match self {
            QueryParam::Bytes(b) => QueryParamV::Bytes(b@),
            QueryParam::Int(i) => QueryParamV::Int(*i),
            QueryParam::Text(t) => QueryParamV::Text(t@),
        }
    }
}

/// The views of some query parameters.
pub open spec fn params_view(ps: Seq<QueryParam>) -> Seq<QueryParamV> {
    Seq::new(ps.len(), |i: int| ps[i]@)
}

/// The start of every backup query: all columns, no condition yet.
pub open spec fn select_all() -> Seq<char> {
    "SELECT id, source_snapshot, file_path, file_hash, deltas, label, backed_at, metadata, agent_id, source_type
             FROM backup_snapshots WHERE 1=1"@
}

/// The statement of the query for a filter: a condition for each part of the
/// filter that is set, in the order source snapshot, time range, label,
/// agent, source type; newest backups first.
pub open spec fn spec_backup_sql(f: BackupFilter) -> Seq<char> {
    select_all()
        + (if f.source_snapshot is Some { " AND source_snapshot = ?"@ } else { seq![] })
        + (if f.time_range is Some { " AND backed_at >= ? AND backed_at <= ?"@ } else { seq![] })
        + (if f.label is Some { " AND label = ?"@ } else { seq![] })
        + (if f.agent_id is Some { " AND agent_id = ?"@ } else { seq![] })
        + (if f.source_type is Some { " AND source_type = ?"@ } else { seq![] })
        + " ORDER BY backed_at DESC"@
}

/// The text parameter of a condition that is set, none for one that is not.
pub open spec fn text_param(o: Option<String>) -> Seq<QueryParamV> {
    match o {
        Some(t) => seq![QueryParamV::Text(t@)],
        None => seq![],
    }
}

/// The parameter of the snapshot condition, when it is set.
pub open spec fn snapshot_param(o: Option<SnapshotId>) -> Seq<QueryParamV> {
    match o {
        Some(id) => seq![QueryParamV::Bytes(id.0@)],
        None => seq![],
    }
}

/// The two parameters of the time condition, when it is set.
pub open spec fn time_params(o: Option<(i64, i64)>) -> Seq<QueryParamV> {
    match o {
        Some((start, end)) => seq![QueryParamV::Int(start), QueryParamV::Int(end)],
        None => seq![],
    }
}

/// The parameters of the query for a filter, one for each `?` of its
/// statement, in order: the snapshot identifier's bytes, the two ends of the
/// time range, the label, the agent, the source type.
pub open spec fn spec_backup_params(f: BackupFilter) -> Seq<QueryParamV> {
    snapshot_param(f.source_snapshot) + time_params(f.time_range) + text_param(f.label) + text_param(f.agent_id)
        + text_param(f.source_type)
}

/// The bytes of a snapshot identifier.
fn id_bytes(id: &SnapshotId) -> (r: Vec<u8>)
    ensures
        r@ == id.0@,
{
    let mut r: Vec<u8> = Vec::new();
    let mut i: usize = 0;
    while i < 32
        invariant
            i <= 32,
            id.0@.len() == 32,
            r@ =~= id.0@.take(i as int),
        decreases 32 - i,
    {
        r.push(id.0[i]);
        i += 1;
    }
    r
}

/// The query of the backup table for a filter: the statement and its
/// parameters (see `spec_backup_sql` and `spec_backup_params`).
#[verifier::spinoff_prover]
pub fn backup_query(filter: &BackupFilter) -> (r: (String, Vec<QueryParam>))
    ensures
        r.0@ == spec_backup_sql(*filter),
        params_view(r.1@) == spec_backup_params(*filter),
        placeholders(r.0@) == r.1@.len(),
        filter.source_snapshot matches Some(id) ==> condition_bound(r.0@, params_view(r.1@), " AND source_snapshot = ?"@, seq![QueryParamV::Bytes(id.0@)]),
        filter.time_range matches Some((start, end)) ==> condition_bound(
            r.0@,
            params_view(r.1@),
            " AND backed_at >= ? AND backed_at <= ?"@,
            seq![QueryParamV::Int(start), QueryParamV::Int(end)],
        ),
        filter.label matches Some(l) ==> condition_bound(r.0@, params_view(r.1@), " AND label = ?"@, seq![QueryParamV::Text(l@)]),
        filter.agent_id matches Some(a) ==> condition_bound(r.0@, params_view(r.1@), " AND agent_id = ?"@, seq![QueryParamV::Text(a@)]),
        filter.source_type matches Some(t) ==> condition_bound(r.0@, params_view(r.1@), " AND source_type = ?"@, seq![QueryParamV::Text(t@)]),
{
    let mut sql = "SELECT id, source_snapshot, file_path, file_hash, deltas, label, backed_at, metadata, agent_id, source_type
             FROM backup_snapshots WHERE 1=1".to_string();
    let mut params: Vec<QueryParam> = Vec::new();
    let ghost s0 = sql@;
    let ghost s1 = s0 + (if filter.source_snapshot is Some { " AND source_snapshot = ?"@ } else { seq![] });
    let ghost p1 = snapshot_param(filter.source_snapshot);
    if let Some(src_id) = &filter.source_snapshot {
        append_str(&mut sql, " AND source_snapshot = ?");
        params.push(QueryParam::Bytes(id_bytes(src_id)));
    }
    proof {
        assert(sql@ =~= s1);
        assert(params_view(params@) =~= p1);
    }
    let ghost s2 = s1 + (if filter.time_range is Some { " AND backed_at >= ? AND backed_at <= ?"@ } else { seq![] });
    let ghost p2 = p1 + time_params(filter.time_range);
    if let Some((start, end)) = &filter.time_range {
        append_str(&mut sql, " AND backed_at >= ? AND backed_at <= ?");
        params.push(QueryParam::Int(*start));
        params.push(QueryParam::Int(*end));
    }
    proof {
        assert(sql@ =~= s2);
        assert(params_view(params@) =~= p2);
    }
    let ghost s3 = s2 + (if filter.label is Some { " AND label = ?"@ } else { seq![] });
    let ghost p3 = p2 + text_param(filter.label);
    if let Some(label) = &filter.label {
        append_str(&mut sql, " AND label = ?");
        params.push(QueryParam::Text(label.clone()));
    }
    proof {
        assert(sql@ =~= s3);
        assert(params_view(params@) =~= p3);
    }
    let ghost s4 = s3 + (if filter.agent_id is Some { " AND agent_id = ?"@ } else { seq![] });
    let ghost p4 = p3 + text_param(filter.agent_id);
    if let Some(agent_id) = &filter.agent_id {
        append_str(&mut sql, " AND agent_id = ?");
        params.push(QueryParam::Text(agent_id.clone()));
    }
    proof {
        assert(sql@ =~= s4);
        assert(params_view(params@) =~= p4);
    }
    let ghost s5 = s4 + (if filter.source_type is Some { " AND source_type = ?"@ } else { seq![] });
    let ghost p5 = p4 + text_param(filter.source_type);
    if let Some(source_type) = &filter.source_type {
        append_str(&mut sql, " AND source_type = ?");
        params.push(QueryParam::Text(source_type.clone()));
    }
    proof {
        assert(sql@ =~= s5);
        assert(params_view(params@) =~= p5);
    }
    append_str(&mut sql, " ORDER BY backed_at DESC");
    proof {
        assert(sql@ =~= spec_backup_sql(*filter));
        assert(p5 =~= spec_backup_params(*filter));
    }
    proof {
        lemma_backup_query_binds(*filter);
        assert(params_view(params@).len() == params@.len());
    }
    (sql, params)
}


/// The number of placeholders (`?`) in a statement.
pub open spec fn placeholders(s: Seq<char>) -> nat
    decreases s.len(),
{
    if s.len() == 0 {
        0
    } else {
        placeholders(s.drop_last()) + if s.last() == '?' { 1nat } else { 0nat }
    }
}

proof fn lemma_placeholders_none(s: Seq<char>)
    requires
        forall|k: int| 0 <= k < s.len() ==> s[k] != '?',
    ensures
        placeholders(s) == 0,
    decreases s.len(),
{
    if s.len() > 0 {
        lemma_placeholders_none(s.drop_last());
    }
}


proof fn lemma_placeholders_concat(a: Seq<char>, b: Seq<char>)
    ensures
        placeholders(a + b) == placeholders(a) + placeholders(b),
    decreases b.len(),
{
    if b.len() == 0 {
        assert(a + b =~= a);
    } else {
        assert((a + b).drop_last() =~= a + b.drop_last());
        assert((a + b).last() == b.last());
        lemma_placeholders_concat(a, b.drop_last());
    }
}

/// Whether the statement holds `cond` from character `i` on.
pub open spec fn cond_at(sql: Seq<char>, cond: Seq<char>, i: int) -> bool {
    0 <= i && i + cond.len() <= sql.len() && sql.subrange(i, i + cond.len()) == cond
}

/// Whether the statement holds the condition `cond` somewhere, and the
/// parameters that fill its placeholders (counting the placeholders before
/// it) are `vals`.
pub open spec fn condition_bound(sql: Seq<char>, params: Seq<QueryParamV>, cond: Seq<char>, vals: Seq<QueryParamV>) -> bool {
    exists|i: int|
        #[trigger] cond_at(sql, cond, i) && placeholders(sql.take(i)) + vals.len() <= params.len() && params.subrange(
            placeholders(sql.take(i)) as int,
            (placeholders(sql.take(i)) + vals.len()) as int,
        ) == vals
}

proof fn lemma_bound_at(
    sql: Seq<char>,
    ps: Seq<QueryParamV>,
    pre: Seq<char>,
    cond: Seq<char>,
    post: Seq<char>,
    pp: Seq<QueryParamV>,
    vals: Seq<QueryParamV>,
    pq: Seq<QueryParamV>,
)
    requires
        placeholders(pre) == pp.len(),
        sql == pre + cond + post,
        ps == pp + vals + pq,
    ensures
        condition_bound(sql, ps, cond, vals),
{
    let i = pre.len() as int;
    assert(sql.take(i) =~= pre);
    assert(sql.subrange(i, i + cond.len()) =~= cond);
    assert(ps.subrange(pp.len() as int, (pp.len() + vals.len()) as int) =~= vals);
    assert(cond_at(sql, cond, i));
}

proof fn lemma_one_placeholder(s: Seq<char>)
    requires
        s.len() > 0,
        s.last() == '?',
        forall|k: int| 0 <= k < s.len() - 1 ==> s[k] != '?',
    ensures
        placeholders(s) == 1,
{
    lemma_placeholders_none(s.drop_last());
}

proof fn lemma_select_placeholders()
    ensures
        placeholders(select_all()) == 0,
{
    reveal_strlit("SELECT id, source_snapshot, file_path, file_hash, deltas, label, backed_at, metadata, agent_id, source_type
             FROM backup_snapshots WHERE 1=1");
    let a = select_all();
    assert forall|k: int| 0 <= k < a.len() implies a[k] != '?' by {}
    lemma_placeholders_none(a);
}

proof fn lemma_order_placeholders()
    ensures
        placeholders(" ORDER BY backed_at DESC"@) == 0,
{
    reveal_strlit(" ORDER BY backed_at DESC");
    let o = " ORDER BY backed_at DESC"@;
    assert forall|k: int| 0 <= k < o.len() implies o[k] != '?' by {}
    lemma_placeholders_none(o);
}

proof fn lemma_time_placeholders()
    ensures
        placeholders(" AND backed_at >= ? AND backed_at <= ?"@) == 2,
{
    reveal_strlit(" AND backed_at >= ? AND backed_at <= ?");
    let c2 = " AND backed_at >= ? AND backed_at <= ?"@;
    let h = c2.subrange(0, 19);
    let t = c2.subrange(19, c2.len() as int);
    assert(h.last() == '?');
    lemma_one_placeholder(h);
    lemma_one_placeholder(t);
    lemma_placeholders_concat(h, t);
    assert(h + t =~= c2);
}

proof fn lemma_query_literals()
    ensures
        placeholders(select_all()) == 0,
        placeholders(" AND source_snapshot = ?"@) == 1,
        placeholders(" AND backed_at >= ? AND backed_at <= ?"@) == 2,
        placeholders(" AND label = ?"@) == 1,
        placeholders(" AND agent_id = ?"@) == 1,
        placeholders(" AND source_type = ?"@) == 1,
        placeholders(" ORDER BY backed_at DESC"@) == 0,
{
    lemma_select_placeholders();
    lemma_order_placeholders();
    lemma_time_placeholders();
    reveal_strlit(" AND source_snapshot = ?");
    reveal_strlit(" AND label = ?");
    reveal_strlit(" AND agent_id = ?");
    reveal_strlit(" AND source_type = ?");
    lemma_one_placeholder(" AND source_snapshot = ?"@);
    lemma_one_placeholder(" AND label = ?"@);
    lemma_one_placeholder(" AND agent_id = ?"@);
    lemma_one_placeholder(" AND source_type = ?"@);
}

proof fn lemma_pieces_count(
    a: Seq<char>, s1: Seq<char>, s2: Seq<char>, s3: Seq<char>, s4: Seq<char>, s5: Seq<char>, o: Seq<char>,
    p1: Seq<QueryParamV>, p2: Seq<QueryParamV>, p3: Seq<QueryParamV>, p4: Seq<QueryParamV>, p5: Seq<QueryParamV>,
)
    requires
        placeholders(a) == 0,
        placeholders(o) == 0,
        placeholders(s1) == p1.len(),
        placeholders(s2) == p2.len(),
        placeholders(s3) == p3.len(),
        placeholders(s4) == p4.len(),
        placeholders(s5) == p5.len(),
    ensures
        placeholders(a + s1 + s2 + s3 + s4 + s5 + o) == (p1 + p2 + p3 + p4 + p5).len(),
        placeholders(a) == 0,
        placeholders(a + s1) == p1.len(),
        placeholders(a + s1 + s2) == (p1 + p2).len(),
        placeholders(a + s1 + s2 + s3) == (p1 + p2 + p3).len(),
        placeholders(a + s1 + s2 + s3 + s4) == (p1 + p2 + p3 + p4).len(),
{
    lemma_placeholders_concat(a, s1);
    lemma_placeholders_concat(a + s1, s2);
    lemma_placeholders_concat(a + s1 + s2, s3);
    lemma_placeholders_concat(a + s1 + s2 + s3, s4);
    lemma_placeholders_concat(a + s1 + s2 + s3 + s4, s5);
    lemma_placeholders_concat(a + s1 + s2 + s3 + s4 + s5, o);
}

#[verifier::spinoff_prover]
proof fn lemma_pieces_bind(
    a: Seq<char>, s1: Seq<char>, s2: Seq<char>, s3: Seq<char>, s4: Seq<char>, s5: Seq<char>, o: Seq<char>,
    p1: Seq<QueryParamV>, p2: Seq<QueryParamV>, p3: Seq<QueryParamV>, p4: Seq<QueryParamV>, p5: Seq<QueryParamV>,
)
    requires
        placeholders(a) == 0,
        placeholders(o) == 0,
        placeholders(s1) == p1.len(),
        placeholders(s2) == p2.len(),
        placeholders(s3) == p3.len(),
        placeholders(s4) == p4.len(),
        placeholders(s5) == p5.len(),
    ensures
        ({
            let sql = a + s1 + s2 + s3 + s4 + s5 + o;
            let ps = p1 + p2 + p3 + p4 + p5;
            &&& placeholders(sql) == ps.len()
            &&& condition_bound(sql, ps, s1, p1)
            &&& condition_bound(sql, ps, s2, p2)
            &&& condition_bound(sql, ps, s3, p3)
            &&& condition_bound(sql, ps, s4, p4)
            &&& condition_bound(sql, ps, s5, p5)
        }),
{
    lemma_pieces_count(a, s1, s2, s3, s4, s5, o, p1, p2, p3, p4, p5);
    let sql = a + s1 + s2 + s3 + s4 + s5 + o;
    let ps = p1 + p2 + p3 + p4 + p5;
    let e: Seq<QueryParamV> = seq![];
    assert(sql =~= a + s1 + (s2 + s3 + s4 + s5 + o));
    assert(ps =~= e + p1 + (p2 + p3 + p4 + p5));
    lemma_bound_at(sql, ps, a, s1, s2 + s3 + s4 + s5 + o, e, p1, p2 + p3 + p4 + p5);
    assert(sql =~= (a + s1) + s2 + (s3 + s4 + s5 + o));
    assert(ps =~= p1 + p2 + (p3 + p4 + p5));
    lemma_bound_at(sql, ps, a + s1, s2, s3 + s4 + s5 + o, p1, p2, p3 + p4 + p5);
    assert(sql =~= (a + s1 + s2) + s3 + (s4 + s5 + o));
    assert(ps =~= (p1 + p2) + p3 + (p4 + p5));
    lemma_bound_at(sql, ps, a + s1 + s2, s3, s4 + s5 + o, p1 + p2, p3, p4 + p5);
    assert(sql =~= (a + s1 + s2 + s3) + s4 + (s5 + o));
    lemma_bound_at(sql, ps, a + s1 + s2 + s3, s4, s5 + o, p1 + p2 + p3, p4, p5);
    assert(ps =~= (p1 + p2 + p3 + p4) + p5 + e);
    lemma_bound_at(sql, ps, a + s1 + s2 + s3 + s4, s5, o, p1 + p2 + p3 + p4, p5, e);
}

/// The backup query binds each condition it states: its statement has one
/// placeholder per parameter, and each part of the filter that is set puts
/// its condition into the statement with its values as the parameters of
/// that condition's placeholders.
pub proof fn lemma_backup_query_binds(f: BackupFilter)
    ensures
        placeholders(spec_backup_sql(f)) == spec_backup_params(f).len(),
        f.source_snapshot matches Some(id) ==> condition_bound(
            spec_backup_sql(f),
            spec_backup_params(f),
            " AND source_snapshot = ?"@,
            seq![QueryParamV::Bytes(id.0@)],
        ),
        f.time_range matches Some((start, end)) ==> condition_bound(
            spec_backup_sql(f),
            spec_backup_params(f),
            " AND backed_at >= ? AND backed_at <= ?"@,
            seq![QueryParamV::Int(start), QueryParamV::Int(end)],
        ),
        f.label matches Some(l) ==> condition_bound(spec_backup_sql(f), spec_backup_params(f), " AND label = ?"@, seq![QueryParamV::Text(l@)]),
        f.agent_id matches Some(a) ==> condition_bound(
            spec_backup_sql(f),
            spec_backup_params(f),
            " AND agent_id = ?"@,
            seq![QueryParamV::Text(a@)],
        ),
        f.source_type matches Some(t) ==> condition_bound(
            spec_backup_sql(f),
            spec_backup_params(f),
            " AND source_type = ?"@,
            seq![QueryParamV::Text(t@)],
        ),
{
    lemma_query_literals();
    let p1 = snapshot_param(f.source_snapshot);
    let p2 = time_params(f.time_range);
    let p3 = text_param(f.label);
    let p4 = text_param(f.agent_id);
    let p5 = text_param(f.source_type);
    let s1: Seq<char> = if f.source_snapshot is Some { " AND source_snapshot = ?"@ } else { seq![] };
    let s2: Seq<char> = if f.time_range is Some { " AND backed_at >= ? AND backed_at <= ?"@ } else { seq![] };
    let s3: Seq<char> = if f.label is Some { " AND label = ?"@ } else { seq![] };
    let s4: Seq<char> = if f.agent_id is Some { " AND agent_id = ?"@ } else { seq![] };
    let s5: Seq<char> = if f.source_type is Some { " AND source_type = ?"@ } else { seq![] };
    lemma_placeholders_none(Seq::<char>::empty());
    lemma_pieces_bind(select_all(), s1, s2, s3, s4, s5, " ORDER BY backed_at DESC"@, p1, p2, p3, p4, p5);
}

} // verus!
