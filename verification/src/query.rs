//! The query registry.
//!
//! The registry owns every known query and table stub, keyed by name.
//! Raw queries are handed to the query-language front end; an entry that
//! fails to parse is dropped from its batch, a successful one is stored
//! under its name with a hash-derived identity and its resolved table
//! dependencies.  After each batch, every referenced name that is not yet
//! a key receives a synthesized table-stub entry, so the registry is
//! always closed under dependencies.

use vstd::prelude::*;

use crate::assoc::{assoc_map, distinct_keys, lemma_assoc_contains, lemma_assoc_get,
    lemma_assoc_len, lemma_assoc_update};
use crate::frontend::{front_end_accepts, front_end_tables, parse_and_resolve};
use crate::ident::{hash_name, id_of_name, ResourceIdMap};
use prql_compiler::ast::rq::Query as RqQuery;

verus! {

/// A pre-existing source table referenced by queries but not itself
/// defined as a query.
#[derive(Debug)]
pub struct TableQuery {
    pub id: u64,
    pub name: String,
}

/// A named transformation: its hash-derived identity, the resolved form
/// the front end produced (opaque to this core), and the names of the
/// tables and queries it reads from.
#[derive(Debug)]
pub struct Query {
    pub id: u64,
    pub name: String,
    pub resolved_query: RqQuery,
    pub dependencies: Vec<String>,
}

/// Either a real query or a synthesized table stub.
#[derive(Debug)]
pub enum QueryKind {
    Query(Query),
    TableQuery(TableQuery),
}

/// What the registry records about an entry: its identity, and for a
/// real query the names it depends on.
pub enum EntryModel {
    Query { id: u64, deps: Seq<Seq<char>> },
    Table { id: u64 },
}

impl EntryModel {
    /// The entry's identity.
    pub open spec fn id(self) -> u64 {
        match self {
            EntryModel::Query { id, .. } => id,
            EntryModel::Table { id } => id,
        }
    }

    /// Whether the entry is a real query.
    pub open spec fn is_query(self) -> bool {
        self is Query
    }

    /// The dependency names; a table stub has none.
    pub open spec fn deps(self) -> Seq<Seq<char>> {
        match self {
            EntryModel::Query { deps, .. } => deps,
            EntryModel::Table { .. } => Seq::empty(),
        }
    }
}

/// The model of a stored entry.
pub open spec fn kind_model(k: QueryKind) -> EntryModel {
    match k {
        QueryKind::Query(q) => EntryModel::Query { id: q.id, deps: q.dependencies.deep_view() },
        QueryKind::TableQuery(t) => EntryModel::Table { id: t.id },
    }
}

/// The name a stored entry carries.
pub open spec fn kind_name(k: QueryKind) -> Seq<char> {
    match k {
        QueryKind::Query(q) => q.name@,
        QueryKind::TableQuery(t) => t.name@,
    }
}

impl QueryKind {
    /// The entry's identity.
    pub fn id(&self) -> (r: u64)
        ensures
            r == kind_model(*self).id(),
    {
        match self {
            QueryKind::Query(q) => q.id,
            QueryKind::TableQuery(t) => t.id,
        }
    }

    /// The entry's name.
    pub fn name(&self) -> (r: &String)
        ensures
            r@ == kind_name(*self),
    {
        match self {
            QueryKind::Query(q) => &q.name,
            QueryKind::TableQuery(t) => &t.name,
        }
    }
}

/// The named table references of a resolved table list: the unnamed
/// entries dropped, the order kept.
pub open spec fn dep_names(tables: Seq<Option<Seq<char>>>) -> Seq<Seq<char>>
    decreases tables.len(),
{
    if tables.len() == 0 {
        Seq::empty()
    } else {
        let rest = dep_names(tables.drop_last());
        match tables.last() {
            Some(n) => rest.push(n),
            None => rest,
        }
    }
}

/// The dependency names a query text resolves to.
pub open spec fn query_deps(text: Seq<char>) -> Seq<Seq<char>> {
    dep_names(front_end_tables(text))
}

/// Keeps the named table references of a resolved table list, in order.
pub fn extract_dependent_tables(table_names: &Vec<Option<String>>) -> (r: Vec<String>)
    ensures
        r.deep_view() == dep_names(table_names.deep_view()),
{
    let n = table_names.len();
    let mut out: Vec<String> = Vec::new();
    let mut i: usize = 0;
    while i < n
        invariant
            i <= n,
            n == table_names@.len(),
            out.deep_view() == dep_names(table_names.deep_view().subrange(0, i as int)),
        decreases n - i,
    {
        let ghost pre = out.deep_view();
        match &table_names[i] {
            Some(nm) => {
                out.push(nm.clone());
                proof {
                    assert(out.deep_view() =~= pre.push(nm@));
                }
            },
            None => {},
        }
        proof {
            let tv = table_names.deep_view();
            assert(tv.subrange(0, i + 1).drop_last() =~= tv.subrange(0, i as int));
            assert(tv.subrange(0, i + 1).last() == tv[i as int]);
            assert(tv[i as int] == table_names@[i as int].deep_view());
        }
        i += 1;
    }
    proof {
        assert(table_names.deep_view().subrange(0, n as int) =~= table_names.deep_view());
    }
    out
}

/// The error handed back when the front end rejects a query text.
#[derive(Debug)]
pub struct QueryError {
    message: String,
}

impl QueryError {
    /// The front end's composed error text.
    pub closed spec fn spec_message(self) -> Seq<char> {
        self.message@
    }

    /// The error text.
    pub fn message(&self) -> (r: &String)
        ensures
            r@ == self.spec_message(),
    {
        &self.message
    }
}

/// A query as handed to the registry: a name and the raw query text.
#[derive(Debug)]
pub struct RawQuery {
    pub name: String,
    pub query_string: String,
}

impl RawQuery {
    pub fn new(name: &str, query_string: &str) -> (r: RawQuery)
        ensures
            r.name@ == name@,
            r.query_string@ == query_string@,
    {
        RawQuery { name: name.to_owned(), query_string: query_string.to_owned() }
    }
}

/// A batch at the spec level: (name, text) pairs.
pub open spec fn batch_view(qs: Seq<RawQuery>) -> Seq<(Seq<char>, Seq<char>)> {
    qs.map_values(|q: RawQuery| (q.name@, q.query_string@))
}

/// The entry a successfully prepared query is stored as.
pub open spec fn query_entry(name: Seq<char>, text: Seq<char>) -> EntryModel {
    EntryModel::Query { id: id_of_name(name), deps: query_deps(text) }
}

/// The registry contents seen at the spec level.
pub open spec fn entry_pairs(s: Seq<(String, QueryKind)>) -> Seq<(Seq<char>, EntryModel)> {
    s.map_values(|p: (String, QueryKind)| (p.0@, kind_model(p.1)))
}

/// The name-to-id projection of a registry map.
pub open spec fn id_projection(m: Map<Seq<char>, EntryModel>) -> Map<Seq<char>, u64> {
    Map::new(|n: Seq<char>| m.dom().contains(n), |n: Seq<char>| m[n].id())
}

/// Every dependency of every stored query has an entry of its own.
pub open spec fn dep_closed(m: Map<Seq<char>, EntryModel>) -> bool {
    forall|n: Seq<char>, d: Seq<char>|
        m.dom().contains(n) && #[trigger] m[n].deps().contains(d) ==> m.dom().contains(d)
}

/// The registry: every known query and table stub keyed by name, plus
/// the name/id registry kept in sync with it.
#[derive(Debug)]
pub struct QueryCollection {
    query_map: Vec<(String, QueryKind)>,
    query_id_map: ResourceIdMap,
}

impl QueryCollection {
    /// The stored entries, in insertion order.
    pub closed spec fn entries(self) -> Seq<(String, QueryKind)> {
        self.query_map@
    }

    /// The registry as a finite map from name to entry model.
    pub open spec fn map_view(self) -> Map<Seq<char>, EntryModel> {
        assoc_map(entry_pairs(self.entries()))
    }

    /// The name/id registry.
    pub closed spec fn id_registry(self) -> ResourceIdMap {
        self.query_id_map
    }

    /// Structural invariant kept at every step: unique names, each entry
    /// stored under the name it carries, and the name/id registry's
    /// forward table mirroring the entries.
    pub open spec fn base_inv(self) -> bool {
        &&& distinct_keys(entry_pairs(self.entries()))
        &&& (forall|i: int| 0 <= i < self.entries().len() ==> kind_name(
            (#[trigger] self.entries()[i]).1,
        ) == self.entries()[i].0@)
        &&& self.id_registry().wf()
        &&& self.id_registry().forward_map() == id_projection(self.map_view())
    }

    /// What holds between calls: the structure above, and closure under
    /// dependencies.
    pub open spec fn wf(self) -> bool {
        self.base_inv() && dep_closed(self.map_view())
    }

    /// An empty registry.
    pub fn new() -> (r: QueryCollection)
        ensures
            r.wf(),
            r.map_view() == Map::<Seq<char>, EntryModel>::empty(),
    {
        let r = QueryCollection { query_map: Vec::new(), query_id_map: ResourceIdMap::new() };
        proof {
            assert(r.map_view() =~= Map::<Seq<char>, EntryModel>::empty());
            assert(r.id_registry().forward_map() =~= id_projection(r.map_view()));
        }
        r
    }

    /// The number of stored entries.
    pub fn len(&self) -> (r: usize)
        requires
            self.wf(),
        ensures
            r == self.map_view().dom().len(),
    {
        proof {
            lemma_assoc_len(entry_pairs(self.entries()));
        }
        self.query_map.len()
    }

    /// The entry stored under a name, if any.
    pub fn get(&self, name: &str) -> (r: Option<&QueryKind>)
        requires
            self.wf(),
        ensures
            match r {
                Some(k) => self.map_view().dom().contains(name@) && kind_model(*k)
                    == self.map_view()[name@],
                None => !self.map_view().dom().contains(name@),
            },
    {
        match find_entry(&self.query_map, name) {
            Some(i) => {
                proof {
                    lemma_assoc_get(entry_pairs(self.entries()), i as int);
                    lemma_assoc_contains(entry_pairs(self.entries()), name@);
                }
                Some(&self.query_map[i].1)
            },
            None => {
                proof {
                    lemma_assoc_contains(entry_pairs(self.entries()), name@);
                }
                None
            },
        }
    }

    /// The name/id registry.
    pub fn query_id_map(&self) -> (r: &ResourceIdMap)
        ensures
            *r == self.id_registry(),
    {
        &self.query_id_map
    }

    /// Parses and resolves one raw query: succeeds exactly when the
    /// front end accepts the text, and then carries the hash-derived
    /// identity of the name and the resolved dependency names.
    pub fn prepare_query(&self, raw_query: &str, query_name: &str) -> (r: Result<
        Query,
        QueryError,
    >)
        ensures
            r is Ok <==> front_end_accepts(raw_query@),
            r matches Ok(q) ==> q.id == id_of_name(query_name@) && q.name@ == query_name@
                && q.dependencies.deep_view() == query_deps(raw_query@),
    {
        match parse_and_resolve(raw_query) {
            Ok(parts) => {
                let (resolved, table_names) = parts;
                let dependencies = extract_dependent_tables(&table_names);
                let id = hash_name(query_name);
                Ok(
                    Query {
                        id,
                        name: query_name.to_owned(),
                        resolved_query: resolved,
                        dependencies,
                    },
                )
            },
            Err(message) => Err(QueryError { message }),
        }
    }
}

/// The registry after one batch has been parsed and stored, before stub
/// synthesis: the first `k` batch entries folded in order, each accepted
/// one inserted under its name (a later entry overwrites an earlier one),
/// each rejected one dropped.
pub open spec fn register_batch(
    m: Map<Seq<char>, EntryModel>,
    batch: Seq<(Seq<char>, Seq<char>)>,
    k: int,
) -> Map<Seq<char>, EntryModel>
    decreases k,
{
    if k <= 0 {
        m
    } else {
        let prev = register_batch(m, batch, k - 1);
        if front_end_accepts(batch[k - 1].1) {
            prev.insert(batch[k - 1].0, query_entry(batch[k - 1].0, batch[k - 1].1))
        } else {
            prev
        }
    }
}

/// A name some stored query depends on that has no entry of its own yet.
pub open spec fn missing_dep(m: Map<Seq<char>, EntryModel>, d: Seq<char>) -> bool {
    !m.dom().contains(d) && exists|n: Seq<char>|
        m.dom().contains(n) && #[trigger] m[n].deps().contains(d)
}

/// The registry with a table stub synthesized for every missing
/// dependency name; existing entries are untouched.
pub open spec fn with_stubs(m: Map<Seq<char>, EntryModel>) -> Map<Seq<char>, EntryModel> {
    Map::new(
        |n: Seq<char>| m.dom().contains(n) || missing_dep(m, n),
        |n: Seq<char>|
            if m.dom().contains(n) {
                m[n]
            } else {
                (EntryModel::Table { id: id_of_name(n) })
            },
    )
}

/// The registry after a whole batch: the entries folded in, then a stub
/// for every dependency name that still has no entry.
pub open spec fn registry_after(
    m: Map<Seq<char>, EntryModel>,
    batch: Seq<(Seq<char>, Seq<char>)>,
) -> Map<Seq<char>, EntryModel> {
    with_stubs(register_batch(m, batch, batch.len() as int))
}

/// The registry with stubs for the first `t` collected names.
pub open spec fn add_stubs(
    m: Map<Seq<char>, EntryModel>,
    names: Seq<Seq<char>>,
    t: int,
) -> Map<Seq<char>, EntryModel>
    decreases t,
{
    if t <= 0 {
        m
    } else {
        add_stubs(m, names, t - 1).insert(
            names[t - 1],
            EntryModel::Table { id: id_of_name(names[t - 1]) },
        )
    }
}

/// Stub insertion only adds table entries at names the registry lacked.
proof fn lemma_add_stubs_facts(m: Map<Seq<char>, EntryModel>, names: Seq<Seq<char>>, t: int)
    requires
        0 <= t <= names.len(),
        forall|tt: int| 0 <= tt < names.len() ==> !m.dom().contains(#[trigger] names[tt]),
    ensures
        forall|n: Seq<char>| #[trigger] add_stubs(m, names, t).dom().contains(n)
            <==> m.dom().contains(n) || (exists|tt: int| 0 <= tt < t && #[trigger] names[tt] == n),
        forall|n: Seq<char>| m.dom().contains(n) ==> #[trigger] add_stubs(m, names, t)[n] == m[n],
        forall|n: Seq<char>| !m.dom().contains(n) && #[trigger] add_stubs(m, names, t).dom()
            .contains(n) ==> add_stubs(m, names, t)[n] == (EntryModel::Table {
            id: id_of_name(n),
        }),
    decreases t,
{
    if t > 0 {
        lemma_add_stubs_facts(m, names, t - 1);
        assert forall|n: Seq<char>| #[trigger] add_stubs(m, names, t).dom().contains(n) implies
            m.dom().contains(n) || (exists|tt: int| 0 <= tt < t && #[trigger] names[tt] == n) by {
            if n != names[t - 1] {
                assert(add_stubs(m, names, t - 1).dom().contains(n));
            }
        }
    }
}

/// Once the collected names are exactly the missing dependencies, stub
/// insertion lands on the synthesized registry.
proof fn lemma_add_stubs_is_with_stubs(m: Map<Seq<char>, EntryModel>, names: Seq<Seq<char>>)
    requires
        forall|t: int| 0 <= t < names.len() ==> missing_dep(m, #[trigger] names[t]),
        forall|d: Seq<char>| missing_dep(m, d) ==> names.contains(d),
    ensures
        add_stubs(m, names, names.len() as int) == with_stubs(m),
{
    let f = add_stubs(m, names, names.len() as int);
    lemma_add_stubs_facts(m, names, names.len() as int);
    assert forall|n: Seq<char>| f.dom().contains(n) implies with_stubs(m).dom().contains(n) by {
        if !m.dom().contains(n) {
            let tt = choose|tt: int| 0 <= tt < names.len() && #[trigger] names[tt] == n;
            assert(missing_dep(m, n));
        }
    }
    assert forall|n: Seq<char>| with_stubs(m).dom().contains(n) implies f.dom().contains(n) by {
        if !m.dom().contains(n) {
            assert(missing_dep(m, n));
            assert(names.contains(n));
            let tt = choose|tt: int| 0 <= tt < names.len() && names[tt] == n;
            assert(0 <= tt < names.len() && #[trigger] names[tt] == n);
        }
    }
    assert forall|n: Seq<char>| f.dom().contains(n) implies f[n] == with_stubs(m)[n] by {}
    assert(f =~= with_stubs(m));
}

impl QueryCollection {
    /// Ingests a batch of raw queries.
    ///
    /// Each entry the front end accepts is stored under its name — with
    /// the identity derived by hashing the name and the resolved
    /// dependency names — overwriting any previous entry of that name;
    /// each rejected entry is dropped from the batch.  Afterwards a
    /// table stub is synthesized for every referenced name that still
    /// has no entry, so the registry is again closed under dependencies.
    pub fn add_queries(&mut self, queries: Vec<RawQuery>)
        requires
            old(self).wf(),
        ensures
            final(self).wf(),
            final(self).map_view() == registry_after(old(self).map_view(), batch_view(queries@)),
    {
        let ghost m0 = self.map_view();
        let ghost bv = batch_view(queries@);
        let query_count = queries.len();
        let mut qi: usize = 0;
        while qi < query_count
            invariant
                qi <= query_count,
                query_count == queries@.len(),
                bv == batch_view(queries@),
                self.base_inv(),
                self.map_view() == register_batch(m0, bv, qi as int),
            decreases query_count - qi,
        {
            let raw = &queries[qi];
            match self.prepare_query(raw.query_string.as_str(), raw.name.as_str()) {
                Ok(q) => {
                    let ghost pre_map = self.map_view();
                    let name = q.name.clone();
                    let id = q.id;
                    self.query_id_map.insert_resource(name.clone(), id);
                    upsert_entry(&mut self.query_map, name, QueryKind::Query(q));
                    proof {
                        assert(kind_model(QueryKind::Query(q)) == query_entry(
                            bv[qi as int].0,
                            bv[qi as int].1,
                        ));
                        assert(id_projection(self.map_view()) =~= id_projection(
                            pre_map,
                        ).insert(bv[qi as int].0, id));
                    }
                },
                Err(_) => {},
            }
            qi += 1;
        }
        let ghost m1 = self.map_view();
        let ghost s = self.entries();
        let entry_count = self.query_map.len();
        let mut missing: Vec<String> = Vec::new();
        let mut i: usize = 0;
        while i < entry_count
            invariant
                i <= entry_count,
                entry_count == s.len(),
                self.base_inv(),
                s == self.entries(),
                m1 == self.map_view(),
                forall|t: int| 0 <= t < missing.deep_view().len() ==> missing_dep(
                    m1,
                    #[trigger] missing.deep_view()[t],
                ),
                forall|i2: int, d: Seq<char>|
                    0 <= i2 < i && #[trigger] kind_model(s[i2].1).deps().contains(d)
                        && !m1.dom().contains(d) ==> missing.deep_view().contains(d),
            decreases entry_count - i,
        {
            let pair = &self.query_map[i];
            match &pair.1 {
                QueryKind::Query(q) => {
                    let dep_count = q.dependencies.len();
                    let mut dj: usize = 0;
                    while dj < dep_count
                        invariant
                            dj <= dep_count,
                            0 <= i < s.len(),
                            dep_count == kind_model(s[i as int].1).deps().len(),
                            q.dependencies.deep_view() == kind_model(s[i as int].1).deps(),
                            self.base_inv(),
                            s == self.entries(),
                            m1 == self.map_view(),
                            forall|t: int| 0 <= t < missing.deep_view().len() ==> missing_dep(
                                m1,
                                #[trigger] missing.deep_view()[t],
                            ),
                            forall|i2: int, d: Seq<char>|
                                0 <= i2 < i && #[trigger] kind_model(s[i2].1).deps().contains(d)
                                    && !m1.dom().contains(d) ==> missing.deep_view().contains(d),
                            forall|d2: int| 0 <= d2 < dj && !m1.dom().contains(
                                #[trigger] kind_model(s[i as int].1).deps()[d2],
                            ) ==> missing.deep_view().contains(
                                kind_model(s[i as int].1).deps()[d2],
                            ),
                        decreases dep_count - dj,
                    {
                        let d = &q.dependencies[dj];
                        let found = find_entry(&self.query_map, d.as_str());
                        let absent = found.is_none();
                        let already = contains_name(&missing, d.as_str());
                        proof {
                            lemma_assoc_contains(entry_pairs(s), d@);
                            match found {
                                Some(ii) => {
                                    assert(entry_pairs(s)[ii as int].0 == d@);
                                    assert(m1.dom().contains(d@));
                                },
                                None => {
                                    if m1.dom().contains(d@) {
                                        let k2 = choose|k2: int|
                                            0 <= k2 < entry_pairs(s).len() && (#[trigger]
                                            entry_pairs(s)[k2]).0 == d@;
                                        assert(s[k2].0@ == d@);
                                        assert(false);
                                    }
                                },
                            }
                            assert(absent == !m1.dom().contains(d@));
                            assert(kind_model(s[i as int].1).deps()[dj as int] == d@);
                        }
                        if absent && !already {
                            proof {
                                assert(missing_dep(m1, d@)) by {
                                    lemma_assoc_get(entry_pairs(s), i as int);
                                    assert(m1[s[i as int].0@].deps().contains(d@));
                                }
                            }
                            let ghost pre_missing = missing.deep_view();
                            missing.push(d.clone());
                            proof {
                                assert(missing.deep_view() =~= pre_missing.push(d@));
                                assert forall|x: Seq<char>| pre_missing.contains(x) implies
                                    missing.deep_view().contains(x) by {
                                    let ix = choose|ix: int|
                                        0 <= ix < pre_missing.len() && pre_missing[ix] == x;
                                    assert(missing.deep_view()[ix] == x);
                                }
                                assert(missing.deep_view()[pre_missing.len() as int] == d@);
                                assert(missing.deep_view().contains(d@));
                            }
                        }
                        dj += 1;
                    }
                },
                QueryKind::TableQuery(_) => {},
            }
            proof {
                assert forall|i2: int, d: Seq<char>|
                    0 <= i2 < i + 1 && #[trigger] kind_model(s[i2].1).deps().contains(d)
                        && !m1.dom().contains(d) implies missing.deep_view().contains(d) by {
                    if i2 == i {
                        let d2 = choose|d2: int|
                            0 <= d2 < kind_model(s[i2].1).deps().len() && kind_model(
                                s[i2].1,
                            ).deps()[d2] == d;
                        assert(missing.deep_view().contains(d));
                    }
                }
            }
            i += 1;
        }
        proof {
            assert forall|d: Seq<char>| missing_dep(m1, d) implies missing.deep_view().contains(
                d,
            ) by {
                let n = choose|n: Seq<char>|
                    m1.dom().contains(n) && #[trigger] m1[n].deps().contains(d);
                lemma_assoc_contains(entry_pairs(s), n);
                let i2 = choose|i2: int|
                    0 <= i2 < entry_pairs(s).len() && (#[trigger] entry_pairs(s)[i2]).0 == n;
                lemma_assoc_get(entry_pairs(s), i2);
                assert(kind_model(s[i2].1) == m1[n]);
                assert(kind_model(s[i2].1).deps().contains(d));
            }
        }
        let ghost mv = missing.deep_view();
        let stub_count = missing.len();
        let mut t: usize = 0;
        while t < stub_count
            invariant
                t <= stub_count,
                stub_count == mv.len(),
                mv == missing.deep_view(),
                self.base_inv(),
                forall|t2: int| 0 <= t2 < mv.len() ==> missing_dep(m1, #[trigger] mv[t2]),
                forall|d: Seq<char>| missing_dep(m1, d) ==> mv.contains(d),
                self.map_view() == add_stubs(m1, mv, t as int),
            decreases stub_count - t,
        {
            let nm = missing[t].clone();
            let id = hash_name(nm.as_str());
            let ghost pre_map = self.map_view();
            self.query_id_map.insert_resource(nm.clone(), id);
            let stub_name = nm.clone();
            upsert_entry(
                &mut self.query_map,
                nm,
                QueryKind::TableQuery(TableQuery { id, name: stub_name }),
            );
            proof {
                assert(id_projection(self.map_view()) =~= id_projection(pre_map).insert(
                    mv[t as int],
                    id,
                ));
            }
            t += 1;
        }
        proof {
            lemma_add_stubs_is_with_stubs(m1, mv);
            let fm = self.map_view();
            assert forall|n: Seq<char>, d: Seq<char>|
                fm.dom().contains(n) && #[trigger] fm[n].deps().contains(d) implies fm.dom()
                .contains(d) by {
                if m1.dom().contains(n) {
                    assert(fm[n] == m1[n]);
                    if !m1.dom().contains(d) {
                        assert(missing_dep(m1, d));
                    }
                } else {
                    assert(fm[n] == (EntryModel::Table { id: id_of_name(n) }));
                }
            }
        }
    }
}

/// The identities the dependency names resolve to, in order.
pub open spec fn dep_ids(m: Map<Seq<char>, EntryModel>, deps: Seq<Seq<char>>) -> Seq<u64>
    decreases deps.len(),
{
    if deps.len() == 0 {
        Seq::empty()
    } else {
        dep_ids(m, deps.drop_last()).push(m[deps.last()].id())
    }
}

/// The dependency edges one entry contributes: its dependencies as edge
/// sources, the entry itself as the destination.
pub open spec fn edge_pairs_of(m: Map<Seq<char>, EntryModel>, e: EntryModel) -> Seq<(u64, u64)> {
    dep_ids(m, e.deps()).map_values(|d: u64| (d, e.id()))
}

/// The dependency edges of the first `k` stored entries, in order.
pub open spec fn collection_edge_seq(
    m: Map<Seq<char>, EntryModel>,
    s: Seq<(String, QueryKind)>,
    k: int,
) -> Seq<(u64, u64)>
    decreases k,
{
    if k <= 0 {
        Seq::empty()
    } else {
        collection_edge_seq(m, s, k - 1) + edge_pairs_of(m, kind_model(s[k - 1].1))
    }
}

impl QueryCollection {
    /// Every dependency edge the registry induces, in entry order.
    pub open spec fn edge_list(self) -> Seq<(u64, u64)> {
        collection_edge_seq(self.map_view(), self.entries(), self.entries().len() as int)
    }

    /// The number of stored entries.
    pub fn entry_count(&self) -> (r: usize)
        ensures
            r == self.entries().len(),
    {
        self.query_map.len()
    }

    /// The entry at a position, in insertion order.
    pub fn entry_at(&self, i: usize) -> (r: &QueryKind)
        requires
            i < self.entries().len(),
        ensures
            *r == self.entries()[i as int].1,
    {
        &self.query_map[i].1
    }

    /// The identities of the named entry's dependencies, in dependency
    /// order; a name without an entry, or a table stub, yields none.
    pub fn get_query_dependencies(&self, name: &str) -> (r: Vec<u64>)
        requires
            self.wf(),
        ensures
            self.map_view().dom().contains(name@) ==> r@ == dep_ids(
                self.map_view(),
                self.map_view()[name@].deps(),
            ),
            !self.map_view().dom().contains(name@) ==> r@ == Seq::<u64>::empty(),
    {
        let ghost m = self.map_view();
        let mut out: Vec<u64> = Vec::new();
        match find_entry(&self.query_map, name) {
            Some(i) => {
                proof {
                    lemma_assoc_get(entry_pairs(self.entries()), i as int);
                    lemma_assoc_contains(entry_pairs(self.entries()), name@);
                }
                match &self.query_map[i].1 {
                    QueryKind::Query(q) => {
                        let ghost deps = m[name@].deps();
                        let dep_count = q.dependencies.len();
                        let mut dj: usize = 0;
                        while dj < dep_count
                            invariant
                                dj <= dep_count,
                                self.wf(),
                                m == self.map_view(),
                                deps == q.dependencies.deep_view(),
                                dep_count == deps.len(),
                                m.dom().contains(name@),
                                m[name@].deps() == deps,
                                out@ == dep_ids(m, deps.subrange(0, dj as int)),
                            decreases dep_count - dj,
                        {
                            let d = &q.dependencies[dj];
                            proof {
                                assert(deps[dj as int] == d@);
                                assert(m[name@].deps().contains(d@));
                                assert(m.dom().contains(d@));
                                lemma_assoc_contains(entry_pairs(self.entries()), d@);
                            }
                            let dep_id = match find_entry(&self.query_map, d.as_str()) {
                                Some(k) => {
                                    proof {
                                        lemma_assoc_get(entry_pairs(self.entries()), k as int);
                                    }
                                    self.query_map[k].1.id()
                                },
                                None => {
                                    proof {
                                        let k2 = choose|k2: int|
                                            0 <= k2 < entry_pairs(self.entries()).len() && (
                                            #[trigger] entry_pairs(self.entries())[k2]).0 == d@;
                                        assert(self.entries()[k2].0@ == d@);
                                        assert(false);
                                    }
                                    0
                                },
                            };
                            out.push(dep_id);
                            proof {
                                assert(deps.subrange(0, dj + 1).drop_last() =~= deps.subrange(
                                    0,
                                    dj as int,
                                ));
                                assert(deps.subrange(0, dj + 1).last() == d@);
                            }
                            dj += 1;
                        }
                        proof {
                            assert(deps.subrange(0, dep_count as int) =~= deps);
                        }
                    },
                    QueryKind::TableQuery(_) => {
                        proof {
                            assert(m[name@].deps() =~= Seq::<Seq<char>>::empty());
                        }
                    },
                }
            },
            None => {
                proof {
                    lemma_assoc_contains(entry_pairs(self.entries()), name@);
                }
            },
        }
        out
    }
}

/// Incremental registry accumulation.
///
/// Registering a batch with one dependency-free query, and later a batch
/// with two more queries — one depending on the first query and on a
/// fresh table name, the other on a second fresh table name — leaves a
/// registry with exactly one entry per explicit query plus one per newly
/// discovered table, five in all, and the entry registered first is
/// still present and unchanged.
pub proof fn lemma_incremental_registration(
    n1: Seq<char>,
    x1: Seq<char>,
    n2: Seq<char>,
    x2: Seq<char>,
    n3: Seq<char>,
    x3: Seq<char>,
    d1: Seq<char>,
    d2: Seq<char>,
)
    requires
        front_end_accepts(x1),
        front_end_accepts(x2),
        front_end_accepts(x3),
        query_deps(x1) == Seq::<Seq<char>>::empty(),
        query_deps(x2) == seq![n1, d1],
        query_deps(x3) == seq![d2],
        n1 != n2,
        n1 != n3,
        n2 != n3,
        d1 != n1,
        d1 != n2,
        d1 != n3,
        d2 != n1,
        d2 != n2,
        d2 != n3,
        d1 != d2,
    ensures
        ({
            let m1 = registry_after(Map::empty(), seq![(n1, x1)]);
            let m2 = registry_after(m1, seq![(n2, x2), (n3, x3)]);
            &&& m1.dom().len() == 1
            &&& m2.dom().len() == 5
            &&& m2.dom().contains(n1)
            &&& m2.dom().contains(n2)
            &&& m2.dom().contains(n3)
            &&& m2.dom().contains(d1)
            &&& m2.dom().contains(d2)
            &&& m2[n1] == m1[n1]
            &&& m1[n1] == query_entry(n1, x1)
            &&& m2[n2] == query_entry(n2, x2)
            &&& m2[n3] == query_entry(n3, x3)
            &&& m2[d1] == (EntryModel::Table { id: id_of_name(d1) })
            &&& m2[d2] == (EntryModel::Table { id: id_of_name(d2) })
        }),
{
    let b1 = seq![(n1, x1)];
    let b2 = seq![(n2, x2), (n3, x3)];
    let e0 = Map::<Seq<char>, EntryModel>::empty();
    let r1 = register_batch(e0, b1, 1);
    assert(b1[0] == (n1, x1));
    assert(register_batch(e0, b1, 0) == e0);
    assert(r1 == e0.insert(n1, query_entry(n1, x1)));
    assert forall|dd: Seq<char>| !missing_dep(r1, dd) by {
        if missing_dep(r1, dd) {
            let nn = choose|nn: Seq<char>|
                r1.dom().contains(nn) && #[trigger] r1[nn].deps().contains(dd);
            assert(nn == n1);
            assert(r1[n1].deps() == query_deps(x1));
        }
    }
    let m1 = registry_after(e0, b1);
    assert(m1 =~= r1);
    assert(m1.dom() =~= Set::<Seq<char>>::empty().insert(n1));
    let r2a = register_batch(m1, b2, 1);
    assert(register_batch(m1, b2, 0) == m1);
    assert(b2[0] == (n2, x2));
    assert(b2[1] == (n3, x3));
    assert(r2a == m1.insert(n2, query_entry(n2, x2)));
    let r2 = register_batch(m1, b2, 2);
    assert(r2 == r2a.insert(n3, query_entry(n3, x3)));
    assert(r2.dom() =~= Set::<Seq<char>>::empty().insert(n1).insert(n2).insert(n3));
    assert(r2[n1] == query_entry(n1, x1));
    assert(r2[n2] == query_entry(n2, x2));
    assert(r2[n3] == query_entry(n3, x3));
    assert(missing_dep(r2, d1)) by {
        assert(r2[n2].deps() == seq![n1, d1]);
        assert(r2[n2].deps()[1] == d1);
        assert(r2[n2].deps().contains(d1));
    }
    assert(missing_dep(r2, d2)) by {
        assert(r2[n3].deps() == seq![d2]);
        assert(r2[n3].deps()[0] == d2);
        assert(r2[n3].deps().contains(d2));
    }
    assert forall|dd: Seq<char>| missing_dep(r2, dd) implies dd == d1 || dd == d2 by {
        let nn = choose|nn: Seq<char>|
            r2.dom().contains(nn) && #[trigger] r2[nn].deps().contains(dd);
        if nn == n1 {
            assert(r2[n1].deps() == query_deps(x1));
        } else if nn == n2 {
            let k = choose|k: int| 0 <= k < r2[n2].deps().len() && r2[n2].deps()[k] == dd;
            assert(k == 0 || k == 1);
        } else {
            let k = choose|k: int| 0 <= k < r2[n3].deps().len() && r2[n3].deps()[k] == dd;
            assert(k == 0);
        }
    }
    let m2 = registry_after(m1, b2);
    assert(m2.dom() =~= Set::<Seq<char>>::empty().insert(n1).insert(n2).insert(n3).insert(
        d1,
    ).insert(d2));
    assert(m2.dom().len() == 5);
    assert(m2[n1] == r2[n1]);
    assert(m1[n1] == query_entry(n1, x1));
}

/// Inserts or replaces the entry stored under `name`.
fn upsert_entry(v: &mut Vec<(String, QueryKind)>, name: String, kind: QueryKind)
    requires
        distinct_keys(entry_pairs(old(v)@)),
        forall|i: int| 0 <= i < old(v)@.len() ==> kind_name((#[trigger] old(v)@[i]).1)
            == old(v)@[i].0@,
        kind_name(kind) == name@,
    ensures
        distinct_keys(entry_pairs(final(v)@)),
        forall|i: int| 0 <= i < final(v)@.len() ==> kind_name((#[trigger] final(v)@[i]).1)
            == final(v)@[i].0@,
        assoc_map(entry_pairs(final(v)@)) == assoc_map(entry_pairs(old(v)@)).insert(
            name@,
            kind_model(kind),
        ),
{
    let n = v.len();
    let mut i: usize = 0;
    while i < n
        invariant
            i <= n,
            n == v@.len(),
            v@ == old(v)@,
            distinct_keys(entry_pairs(v@)),
            kind_name(kind) == name@,
            forall|k: int| 0 <= k < v@.len() ==> kind_name((#[trigger] v@[k]).1) == v@[k].0@,
            forall|k: int| 0 <= k < i ==> (#[trigger] v@[k]).0@ != name@,
        decreases n - i,
    {
        if str_eq(v[i].0.as_str(), name.as_str()) {
            let ghost pre = v@;
            v.set(i, (name, kind));
            proof {
                assert(entry_pairs(v@) =~= entry_pairs(pre).update(
                    i as int,
                    (v@[i as int].0@, kind_model(v@[i as int].1)),
                ));
                lemma_assoc_update(
                    entry_pairs(pre),
                    i as int,
                    (v@[i as int].0@, kind_model(v@[i as int].1)),
                );
            }
            return;
        }
        i += 1;
    }
    let ghost pre = v@;
    v.push((name, kind));
    proof {
        assert(entry_pairs(v@).drop_last() =~= entry_pairs(pre));
        assert forall|a: int, b: int| 0 <= a < b < entry_pairs(v@).len() implies (
            #[trigger] entry_pairs(v@)[a]).0 != (#[trigger] entry_pairs(v@)[b]).0 by {
            if b < pre.len() {
                assert(entry_pairs(pre)[a].0 != entry_pairs(pre)[b].0);
            } else {
                assert(v@[a].0@ != v@[b].0@);
            }
        }
    }
}

/// Whether the collected list already holds the name.
fn contains_name(v: &Vec<String>, name: &str) -> (r: bool)
    ensures
        r == v.deep_view().contains(name@),
{
    let n = v.len();
    let mut i: usize = 0;
    while i < n
        invariant
            i <= n,
            n == v@.len(),
            forall|k: int| 0 <= k < i ==> (#[trigger] v.deep_view()[k]) != name@,
        decreases n - i,
    {
        if str_eq(v[i].as_str(), name) {
            proof {
                assert(v.deep_view()[i as int] == name@);
            }
            return true;
        }
        i += 1;
    }
    false
}

/// Relies on `str`'s `PartialEq`: two string slices are equal exactly
/// when their character sequences are.
#[verifier::external_body]
fn str_eq(a: &str, b: &str) -> (r: bool)
    ensures
        r == (a@ == b@),
{
    a == b
}

/// Position of the entry stored under `name`, if any.
fn find_entry(v: &Vec<(String, QueryKind)>, name: &str) -> (r: Option<usize>)
    ensures
        match r {
            Some(i) => i < v@.len() && v@[i as int].0@ == name@,
            None => forall|k: int| 0 <= k < v@.len() ==> (#[trigger] v@[k]).0@ != name@,
        },
{
    let n = v.len();
    let mut i: usize = 0;
    while i < n
        invariant
            i <= n,
            n == v@.len(),
            forall|k: int| 0 <= k < i ==> (#[trigger] v@[k]).0@ != name@,
        decreases n - i,
    {
        if str_eq(v[i].0.as_str(), name) {
            return Some(i);
        }
        i += 1;
    }
    None
}

} // verus!
