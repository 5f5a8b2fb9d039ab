//! The statement rewriter: what becomes of a utility statement issued by a
//! masked role.
use vstd::prelude::*;
use crate::error::MaskError;
use crate::masking::{Column, spec_stmt_for_table, stmt_for_table};
use crate::policy::{RoleLabel, get_masking_policy, spec_masking_policy, strings_view};

verus! {

/// A row export (`COPY ... TO`) or row import (`COPY ... FROM`).
pub struct CopyStmt {
    pub is_from: bool,
    /// The table read or written, if the statement names one.
    pub relation: Option<String>,
    /// The explicit column list.
    pub attlist: Vec<String>,
    /// The query exported instead of a table.
    pub query: Option<String>,
}

/// The utility statements that masking tells apart.
pub enum UtilityStmt {
    Explain,
    Truncate,
    Copy(CopyStmt),
    Other,
}

/// `r` is what becomes of `stmt` for a role masked by `policy`, where `cols`
/// are the columns of the table that a row export names.
pub open spec fn rewritten(
    stmt: UtilityStmt,
    cols: Seq<Column>,
    policy: Seq<char>,
    r: Result<UtilityStmt, MaskError>,
) -> bool {
    match stmt {
        UtilityStmt::Explain => r == Err::<UtilityStmt, MaskError>(MaskError::InsufficientPrivilege),
        UtilityStmt::Truncate => r == Err::<UtilityStmt, MaskError>(
            MaskError::InsufficientPrivilege,
        ),
        UtilityStmt::Copy(c) => if c.is_from {
            r == Ok::<UtilityStmt, MaskError>(stmt)
        } else {
            match c.relation {
                None => r == Err::<UtilityStmt, MaskError>(MaskError::NotImplemented),
                Some(rel) => r matches Ok(UtilityStmt::Copy(n)) && (!n.is_from && n.relation is None
                    && n.attlist@.len() == 0 && (n.query matches Some(q) && q@ == spec_stmt_for_table(
                    rel@,
                    cols,
                    policy,
                ))),
            }
        },
        UtilityStmt::Other => r == Ok::<UtilityStmt, MaskError>(stmt),
    }
}

/// What the hook does with `stmt`, issued by `uid`: it rewrites it when a
/// transaction is open and some policy masks the role; else it leaves it as
/// it is.
pub open spec fn hooked(
    in_transaction: bool,
    policies: Seq<Seq<char>>,
    labels: Seq<RoleLabel>,
    uid: u32,
    stmt: UtilityStmt,
    cols: Seq<Column>,
    r: Result<UtilityStmt, MaskError>,
) -> bool {
    if in_transaction {
        match spec_masking_policy(policies, labels, uid) {
            Some(p) => rewritten(stmt, cols, p, r),
            None => r == Ok::<UtilityStmt, MaskError>(stmt),
        }
    } else {
        r == Ok::<UtilityStmt, MaskError>(stmt)
    }
}

/// Rewrites a utility statement of a role masked by `policy`. EXPLAIN and
/// TRUNCATE are refused. A row export of a table reads instead the masked
/// projection of the table, `table` being its columns, and loses its column
/// list; a row export of a query is refused as not implemented. Row imports
/// and other statements pass unchanged.
pub fn pa_rewrite_utility(stmt: UtilityStmt, table: &Vec<Column>, policy: &str) -> (r: Result<
    UtilityStmt,
    MaskError,
>)
    ensures
        rewritten(stmt, table@, policy@, r),
{
    match stmt {
        UtilityStmt::Explain => Err(MaskError::InsufficientPrivilege),
        UtilityStmt::Truncate => Err(MaskError::InsufficientPrivilege),
        UtilityStmt::Copy(c) => {
            if c.is_from {
                return Ok(UtilityStmt::Copy(c));
            }
            match c.relation {
                None => Err(MaskError::NotImplemented),
                Some(rel) => {
                    let q = stmt_for_table(rel.as_str(), table, policy);
                    Ok(
                        UtilityStmt::Copy(
                            CopyStmt {
                                is_from: false,
                                relation: None,
                                attlist: Vec::new(),
                                query: Some(q),
                            },
                        ),
                    )
                },
            }
        },
        UtilityStmt::Other => Ok(UtilityStmt::Other),
    }
}

/// The decision of the utility hook for a statement issued by `uid`.
pub fn process_utility_hook(
    in_transaction: bool,
    policies: &Vec<String>,
    labels: &Vec<RoleLabel>,
    uid: u32,
    stmt: UtilityStmt,
    table: &Vec<Column>,
) -> (r: Result<UtilityStmt, MaskError>)
    ensures
        hooked(in_transaction, strings_view(policies@), labels@, uid, stmt, table@, r),
{
    if in_transaction {
        match get_masking_policy(policies, labels, uid) {
            Some(p) => pa_rewrite_utility(stmt, table, p.as_str()),
            None => Ok(stmt),
        }
    } else {
        Ok(stmt)
    }
}

/// A role that some policy masks can neither EXPLAIN nor TRUNCATE inside a
/// transaction: the statement is refused, never rewritten. A role that no policy masks is never refused.
pub proof fn lemma_masked_role_cannot_explain_or_truncate(
    policies: Seq<Seq<char>>,
    labels: Seq<RoleLabel>,
    uid: u32,
    stmt: UtilityStmt,
    cols: Seq<Column>,
    r: Result<UtilityStmt, MaskError>,
)
    requires
        hooked(true, policies, labels, uid, stmt, cols, r),
    ensures
        spec_masking_policy(policies, labels, uid) is Some && (stmt is Explain || stmt is Truncate)
            ==> r == Err::<UtilityStmt, MaskError>(MaskError::InsufficientPrivilege),
        spec_masking_policy(policies, labels, uid) is None ==> r == Ok::<UtilityStmt, MaskError>(
            stmt,
        ),
{
}

} // verus!
