//! Boundary with the query-language front end.
//!
//! The front end turns raw query text into a resolved relational form and
//! enumerates the tables the query reads from.  Both outcomes are pure
//! functions of the text, so they are named here — whether the text is
//! accepted at all, and the list of optional table names it resolves to —
//! and the single wrapper below ties the real calls to those names.

use prql_compiler::ast::rq::Query as RqQuery;
use vstd::prelude::*;

verus! {

#[verifier::external_type_specification]
#[verifier::external_body]
pub struct ExRqQuery(RqQuery);

/// Whether the front end parses and resolves the text without error.
pub uninterp spec fn front_end_accepts(text: Seq<char>) -> bool;

/// The table list of the resolved query: one entry per table declaration,
/// holding its name where it has one.
pub uninterp spec fn front_end_tables(text: Seq<char>) -> Seq<Option<Seq<char>>>;

/// Relies on `prql_compiler::prql_to_pl` and `prql_compiler::pl_to_rq`:
/// parsing and semantic resolution are deterministic in the query text,
/// and the resolved query's `tables` field lists the table declarations,
/// each with an optional name.  On failure the composed error message is
/// returned as plain text.
#[verifier::external_body]
pub fn parse_and_resolve(text: &str) -> (r: Result<
    (RqQuery, Vec<Option<String>>),
    String,
>)
    ensures
        r is Ok <==> front_end_accepts(text@),
        r matches Ok(p) ==> p.1.deep_view() == front_end_tables(text@),
{
    match prql_compiler::prql_to_pl(text).and_then(prql_compiler::pl_to_rq) {
        Ok(q) => {
            let names = q.tables.iter().map(|t| t.name.clone()).collect();
            Ok((q, names))
        },
        Err(e) => Err(e.to_string()),
    }
}

} // verus!
