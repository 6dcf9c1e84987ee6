//! Configuration-facing value types.
//!
//! The build tool's configuration layer deals in named resources and
//! fully-qualified references to tables and columns.  The graph core does
//! not interpret these; it only guarantees their structural invariant:
//! a resource name is never empty.

use vstd::prelude::*;

verus! {

/// A non-empty resource name: the externally visible handle for a query,
/// table, database or schema.
pub struct ResourceName {
    inner: String,
}

impl View for ResourceName {
    type V = Seq<char>;

    closed spec fn view(&self) -> Seq<char> {
        self.inner@
    }
}

impl ResourceName {
    #[verifier::type_invariant]
    spec fn non_empty(self) -> bool {
        self.inner@.len() > 0
    }

    /// Accepts exactly the non-empty strings.
    pub fn new(name: String) -> (r: Option<ResourceName>)
        ensures
            r is Some <==> name@.len() > 0,
            r matches Some(rn) ==> rn@ == name@,
    {
        if name.as_str().is_empty() {
            None
        } else {
            Some(ResourceName { inner: name })
        }
    }

    /// The underlying string; never empty.
    pub fn get(&self) -> (r: &String)
        ensures
            r@ == self@,
            r@.len() > 0,
    {
        proof {
            use_type_invariant(self);
        }
        &self.inner
    }
}

/// A table pinned down by database, schema and table name.
pub struct FullyQualifiedTable {
    database: ResourceName,
    schema: ResourceName,
    table: ResourceName,
}

impl FullyQualifiedTable {
    pub closed spec fn spec_database(self) -> Seq<char> {
        self.database@
    }

    pub closed spec fn spec_schema(self) -> Seq<char> {
        self.schema@
    }

    pub closed spec fn spec_table(self) -> Seq<char> {
        self.table@
    }

    pub fn new(database: ResourceName, schema: ResourceName, table: ResourceName) -> (r:
        FullyQualifiedTable)
        ensures
            r.spec_database() == database@,
            r.spec_schema() == schema@,
            r.spec_table() == table@,
    {
        FullyQualifiedTable { database, schema, table }
    }

    pub fn database(&self) -> (r: &ResourceName)
        ensures
            r@ == self.spec_database(),
    {
        &self.database
    }

    pub fn schema(&self) -> (r: &ResourceName)
        ensures
            r@ == self.spec_schema(),
    {
        &self.schema
    }

    pub fn table(&self) -> (r: &ResourceName)
        ensures
            r@ == self.spec_table(),
    {
        &self.table
    }
}

/// A column within a fully-qualified table.
pub struct FullyQualifiedColumn {
    table: FullyQualifiedTable,
    column: ResourceName,
}

impl FullyQualifiedColumn {
    pub closed spec fn spec_table(self) -> FullyQualifiedTable {
        self.table
    }

    pub closed spec fn spec_column(self) -> Seq<char> {
        self.column@
    }

    pub fn new(table: FullyQualifiedTable, column: ResourceName) -> (r: FullyQualifiedColumn)
        ensures
            r.spec_table() == table,
            r.spec_column() == column@,
    {
        FullyQualifiedColumn { table, column }
    }

    pub fn table(&self) -> (r: &FullyQualifiedTable)
        ensures
            *r == self.spec_table(),
    {
        &self.table
    }

    pub fn column(&self) -> (r: &ResourceName)
        ensures
            r@ == self.spec_column(),
    {
        &self.column
    }
}

} // verus!
