//! The column rule compiler: the expression that replaces each column of a
//! table for a masking policy.
use vstd::prelude::*;
use crate::error::MaskError;
use crate::labels::{
    capture_function, capture_value, is_match_not_masked, lemma_directives_exclusive, spec_function,
    spec_is_not_masked,
    spec_value,
};

verus! {

/// A security label on a column, under one policy.
pub struct ColumnLabel {
    pub policy: String,
    pub label: String,
}

/// A column of a table, as the catalog describes it.
pub struct Column {
    /// The column's name, quoted by the host's identifier rules.
    pub ident: String,
    /// The column's declared type, as the host writes it.
    pub col_type: String,
    pub is_dropped: bool,
    pub labels: Vec<ColumnLabel>,
}

/// The label of the first entry for `policy`.
pub open spec fn column_label(labels: Seq<ColumnLabel>, policy: Seq<char>) -> Option<Seq<char>>
    decreases labels.len(),
{
    if labels.len() == 0 {
        None
    } else if labels[0].policy@ == policy {
        Some(labels[0].label@)
    } else {
        column_label(labels.drop_first(), policy)
    }
}

/// `CAST(value AS col_type)`
pub open spec fn cast_text(value: Seq<char>, col_type: Seq<char>) -> Seq<char> {
    seq!['C', 'A', 'S', 'T', '('] + value + seq![' ', 'A', 'S', ' '] + col_type + seq![')']
}

/// The expression that stands for `col` under `policy`: a masking function
/// as written, else a masking value cast to the column's type, else the
/// column itself.
pub open spec fn spec_value_for_column(col: Column, policy: Seq<char>) -> Seq<char> {
    match column_label(col.labels@, policy) {
        Some(l) => if spec_function(l) is Some {
            spec_function(l)->0
        } else if spec_value(l) is Some {
            cast_text(spec_value(l)->0, col.col_type@)
        } else {
            col.ident@
        },
        None => col.ident@,
    }
}

/// `expr AS alias`
pub open spec fn aliased(expr: Seq<char>, alias: Seq<char>) -> Seq<char> {
    expr + seq![' ', 'A', 'S', ' '] + alias
}

/// The masked projection of each column that is not dropped, in order.
pub open spec fn column_entries(cols: Seq<Column>, policy: Seq<char>) -> Seq<Seq<char>>
    decreases cols.len(),
{
    if cols.len() == 0 {
        Seq::empty()
    } else {
        let prev = column_entries(cols.drop_last(), policy);
        if cols.last().is_dropped {
            prev
        } else {
            prev.push(aliased(spec_value_for_column(cols.last(), policy), cols.last().ident@))
        }
    }
}

/// The pieces of `ss`, separated by a comma and a blank.
pub open spec fn join_commas(ss: Seq<Seq<char>>) -> Seq<char>
    decreases ss.len(),
{
    if ss.len() == 0 {
        Seq::empty()
    } else if ss.len() == 1 {
        ss[0]
    } else {
        join_commas(ss.drop_last()) + seq![',', ' '] + ss.last()
    }
}

pub open spec fn spec_expressions_for_table(cols: Seq<Column>, policy: Seq<char>) -> Seq<char> {
    join_commas(column_entries(cols, policy))
}

fn find_column_label(labels: &Vec<ColumnLabel>, policy: &String) -> (r: Option<usize>)
    ensures
        match r {
            Some(i) => i < labels.len() && column_label(labels@, policy@) == Some(
                labels@[i as int].label@,
            ),
            None => column_label(labels@, policy@) is None,
        },
{
    let mut i: usize = 0;
    assert(labels@.skip(0) =~= labels@);
    while i < labels.len()
        invariant
            i <= labels.len(),
            column_label(labels@, policy@) == column_label(labels@.skip(i as int), policy@),
        decreases labels.len() - i,
    {
        assert(labels@.skip(i as int).drop_first() =~= labels@.skip(i + 1));
        assert(labels@.skip(i as int)[0] == labels@[i as int]);
        if labels[i].policy == *policy {
            return Some(i);
        }
        i += 1;
    }
    None
}

/// Wraps `value` in a cast to the type named `col_type`.
pub fn cast_as_regtype(value: &str, col_type: &str) -> (r: String)
    ensures
        r@ == cast_text(value@, col_type@),
{
    let mut r = String::from_str("CAST(");
    r.append(value);
    r.append(" AS ");
    r.append(col_type);
    r.append(")");
    proof {
        reveal_strlit("CAST(");
        reveal_strlit(" AS ");
        reveal_strlit(")");
    }
    assert(r@ =~= cast_text(value@, col_type@));
    r
}

/// The parsed form of a column's label.
pub enum MaskingRule {
    /// The label is no masking directive.
    NoRule,
    /// `MASKED WITH VALUE <expr>`
    MaskedWithValue(String),
    /// `MASKED WITH FUNCTION <expr>`
    MaskedWithFunction(String),
    /// `NOT MASKED`
    NotMasked,
}

/// Reads a column label as a masking rule. A label is never more than one
/// of the directives.
pub fn parse_masking_rule(label: &str) -> (r: MaskingRule)
    ensures
        spec_function(label@) is Some ==> (r matches MaskingRule::MaskedWithFunction(e) && e@
            == spec_function(label@)->0),
        spec_value(label@) is Some ==> (r matches MaskingRule::MaskedWithValue(e) && e@ == spec_value(
            label@,
        )->0),
        spec_is_not_masked(label@) ==> r is NotMasked,
        spec_function(label@) is None && spec_value(label@) is None && !spec_is_not_masked(label@)
            ==> r is NoRule,
{
    match capture_function(label) {
        Some(f) => {
            proof {
                lemma_directives_exclusive(label@);
            }
            MaskingRule::MaskedWithFunction(f)
        },
        None => match capture_value(label) {
            Some(v) => {
                proof {
                    lemma_directives_exclusive(label@);
                }
                MaskingRule::MaskedWithValue(v)
            },
            None => if is_match_not_masked(label) {
                MaskingRule::NotMasked
            } else {
                MaskingRule::NoRule
            },
        },
    }
}

fn value_for_column(col: &Column, policy: &String) -> (r: String)
    ensures
        r@ == spec_value_for_column(*col, policy@),
{
    match find_column_label(&col.labels, policy) {
        Some(i) => match parse_masking_rule(col.labels[i].label.as_str()) {
            MaskingRule::MaskedWithFunction(f) => f,
            MaskingRule::MaskedWithValue(v) => cast_as_regtype(v.as_str(), col.col_type.as_str()),
            _ => col.ident.clone(),
        },
        None => col.ident.clone(),
    }
}

/// The masking expression of column `colnum` (counted from 1), or `None`
/// for a dropped column. A position outside the table is refused.
pub fn masking_value_for_column(table: &Vec<Column>, colnum: i32, policy: &str) -> (r: Result<
    Option<String>,
    MaskError,
>)
    ensures
        (colnum < 1 || colnum > table.len()) ==> r == Err::<Option<String>, MaskError>(
            MaskError::InvalidColumn,
        ),
        1 <= colnum <= table.len() ==> (r matches Ok(o) && (table@[colnum - 1].is_dropped ==> o
            is None) && (!table@[colnum - 1].is_dropped ==> (o matches Some(e) && e@
            == spec_value_for_column(table@[colnum - 1], policy@)))),
{
    if colnum < 1 || colnum as usize > table.len() {
        return Err(MaskError::InvalidColumn);
    }
    let col = &table[colnum as usize - 1];
    if col.is_dropped {
        return Ok(None);
    }
    let p = String::from_str(policy);
    Ok(Some(value_for_column(col, &p)))
}

/// The masked projection of a table: `expr AS name` for each column that is
/// not dropped, in order, separated by commas.
pub fn masking_expressions_for_table(table: &Vec<Column>, policy: &str) -> (r: String)
    ensures
        r@ == spec_expressions_for_table(table@, policy@),
{
    let p = String::from_str(policy);
    let mut out = String::new();
    let mut count: usize = 0;
    let mut i: usize = 0;
    assert(table@.take(0) =~= Seq::<Column>::empty());
    while i < table.len()
        invariant
            i <= table.len(),
            p@ == policy@,
            count == column_entries(table@.take(i as int), policy@).len(),
            count <= i,
            out@ == join_commas(column_entries(table@.take(i as int), policy@)),
        decreases table.len() - i,
    {
        let ghost prev = column_entries(table@.take(i as int), policy@);
        assert(table@.take(i + 1).drop_last() =~= table@.take(i as int));
        assert(table@.take(i + 1).last() == table@[i as int]);
        let col = &table[i];
        if !col.is_dropped {
            let e = value_for_column(col, &p);
            let ghost entry = aliased(e@, col.ident@);
            if count > 0 {
                out.append(", ");
                proof {
                    reveal_strlit(", ");
                }
            }
            out.append(e.as_str());
            out.append(" AS ");
            out.append(col.ident.as_str());
            proof {
                reveal_strlit(" AS ");
                let next = prev.push(entry);
                assert(next.drop_last() =~= prev);
                if count > 0 {
                    assert(out@ =~= join_commas(prev) + seq![',', ' '] + entry);
                } else {
                    assert(out@ =~= entry);
                }
            }
            count += 1;
        }
        i += 1;
    }
    assert(table@.take(i as int) =~= table@);
    out
}

/// The query that stands for `relation` in a rewritten statement:
/// `SELECT <masked projection> FROM relation`.
pub fn stmt_for_table(relation: &str, table: &Vec<Column>, policy: &str) -> (r: String)
    ensures
        r@ == spec_stmt_for_table(relation@, table@, policy@),
{
    let exprs = masking_expressions_for_table(table, policy);
    let mut r = String::from_str("SELECT ");
    r.append(exprs.as_str());
    r.append(" FROM ");
    r.append(relation);
    proof {
        reveal_strlit("SELECT ");
        reveal_strlit(" FROM ");
    }
    assert(r@ =~= spec_stmt_for_table(relation@, table@, policy@));
    r
}

/// `SELECT <masked projection> FROM relation`
pub open spec fn spec_stmt_for_table(relation: Seq<char>, cols: Seq<Column>, policy: Seq<char>) -> Seq<
    char,
> {
    seq!['S', 'E', 'L', 'E', 'C', 'T', ' '] + spec_expressions_for_table(cols, policy) + seq![
        ' ',
        'F',
        'R',
        'O',
        'M',
        ' ',
    ] + relation
}

/// What the host's parser made of the first target of `SELECT <call>`.
pub enum ParsedTarget {
    /// A function call, with the parts of its qualified name.
    FuncCall(Vec<String>),
    /// Anything else.
    Other,
}

/// The statement handed to the host's parser to read `function_call`:
/// `SELECT function_call`.
pub fn function_probe_query(function_call: &str) -> (r: String)
    ensures
        r@ == seq!['S', 'E', 'L', 'E', 'C', 'T', ' '] + function_call@,
{
    let mut r = String::from_str("SELECT ");
    r.append(function_call);
    proof {
        reveal_strlit("SELECT ");
    }
    r
}

/// The schema that qualifies a function call, or an empty string when the
/// name is not qualified. `target` is what the host's parser made of
/// [`function_probe_query`]. An empty call, or one that does not parse as a
/// function call, is refused.
pub fn get_function_schema(function_call: &str, target: &ParsedTarget) -> (r: Result<
    String,
    MaskError,
>)
    ensures
        function_call@.len() == 0 ==> r == Err::<String, MaskError>(MaskError::EmptyFunctionCall),
        function_call@.len() > 0 ==> match target {
            ParsedTarget::Other => r matches Err(MaskError::InvalidFunctionCall(t)) && t@
                == function_call@,
            ParsedTarget::FuncCall(parts) => r matches Ok(schema) && (parts.len() == 2 ==> schema@
                == parts@[0]@) && (parts.len() != 2 ==> schema@.len() == 0),
        },
{
    if function_call.unicode_len() == 0 {
        return Err(MaskError::EmptyFunctionCall);
    }
    match target {
        ParsedTarget::Other => Err(MaskError::InvalidFunctionCall(String::from_str(function_call))),
        ParsedTarget::FuncCall(parts) => {
            if parts.len() == 2 {
                Ok(parts[0].clone())
            } else {
                Ok(String::new())
            }
        },
    }
}

} // verus!
