use anon::error::MaskError;
use anon::masking::{
    cast_as_regtype, function_probe_query, get_function_schema, masking_expressions_for_table,
    masking_value_for_column, parse_masking_rule, stmt_for_table, Column, ColumnLabel, MaskingRule,
    ParsedTarget,
};

fn column(ident: &str, col_type: &str, labels: &[(&str, &str)]) -> Column {
    Column {
        ident: ident.to_string(),
        col_type: col_type.to_string(),
        is_dropped: false,
        labels: labels
            .iter()
            .map(|(p, l)| ColumnLabel { policy: p.to_string(), label: l.to_string() })
            .collect(),
    }
}

fn person() -> Vec<Column> {
    vec![
        column("firstname", "character varying(30)", &[]),
        column("lastname", "text", &[("anon", "MASKED WITH VALUE NULL")]),
    ]
}

#[test]
fn test_anon_cast_as_regtype() {
    assert_eq!("CAST(0 AS smallint)", cast_as_regtype(&'0'.to_string(), "smallint"));
}

#[test]
fn test_anon_get_function_schema() {
    assert_eq!(function_probe_query("a.b()"), "SELECT a.b()");
    let qualified = ParsedTarget::FuncCall(vec!["a".to_string(), "b".to_string()]);
    assert_eq!(Ok("a".to_string()), get_function_schema("a.b()", &qualified));
    let bare = ParsedTarget::FuncCall(vec!["publicfoo".to_string()]);
    assert_eq!(Ok("".to_string()), get_function_schema("publicfoo()", &bare));
}

#[test]
fn test_anon_get_function_schema_error_empty() {
    assert_eq!(
        get_function_schema("", &ParsedTarget::Other),
        Err(MaskError::EmptyFunctionCall)
    );
}

#[test]
fn test_anon_get_function_schema_error_invalid() {
    assert_eq!(
        get_function_schema("foo", &ParsedTarget::Other),
        Err(MaskError::InvalidFunctionCall("foo".to_string()))
    );
}

#[test]
fn test_anon_masking_expressions_for_table() {
    let result = masking_expressions_for_table(&person(), "anon");
    let expected = "firstname AS firstname, CAST(NULL AS text) AS lastname".to_string();
    assert_eq!(expected, result);
}

#[test]
fn test_anon_masking_value_for_column() {
    let table = person();
    let mut result = masking_value_for_column(&table, 1, "anon");
    let mut expected = "firstname".to_string();
    assert_eq!(Ok(Some(expected)), result);
    result = masking_value_for_column(&table, 2, "anon");
    expected = "CAST(NULL AS text)".to_string();
    assert_eq!(Ok(Some(expected)), result);
}

#[test]
fn dropped_column_has_no_expression() {
    let mut table = person();
    table.insert(1, Column { is_dropped: true, ..column("gone", "integer", &[]) });
    assert_eq!(masking_value_for_column(&table, 2, "anon"), Ok(None));
    assert_eq!(
        masking_expressions_for_table(&table, "anon"),
        "firstname AS firstname, CAST(NULL AS text) AS lastname"
    );
}

#[test]
fn column_position_outside_table_is_refused() {
    let table = person();
    assert_eq!(masking_value_for_column(&table, 0, "anon"), Err(MaskError::InvalidColumn));
    assert_eq!(masking_value_for_column(&table, 3, "anon"), Err(MaskError::InvalidColumn));
    assert_eq!(masking_value_for_column(&table, -1, "anon"), Err(MaskError::InvalidColumn));
}

#[test]
fn function_rule_is_emitted_as_written() {
    let table = vec![
        column("\"Email\"", "text", &[("anon", "MASKED WITH FUNCTION anon.fake_email()")]),
        column("zip", "integer", &[("other", "MASKED WITH VALUE 0"), ("anon", "NOT MASKED")]),
        column("age", "integer", &[("anon", "MASKED WITH VALUE 0")]),
    ];
    assert_eq!(
        masking_expressions_for_table(&table, "anon"),
        "anon.fake_email() AS \"Email\", zip AS zip, CAST(0 AS integer) AS age"
    );
    assert_eq!(
        masking_expressions_for_table(&table, "other"),
        "\"Email\" AS \"Email\", CAST(0 AS integer) AS zip, age AS age"
    );
    assert_eq!(masking_expressions_for_table(&Vec::new(), "anon"), "");
}

#[test]
fn masked_projection_query() {
    assert_eq!(
        stmt_for_table("public.person", &person(), "anon"),
        "SELECT firstname AS firstname, CAST(NULL AS text) AS lastname FROM public.person"
    );
}

#[test]
fn labels_parse_to_rules() {
    assert!(matches!(
        parse_masking_rule("MASKED WITH FUNCTION anon.fake_city()"),
        MaskingRule::MaskedWithFunction(f) if f == "anon.fake_city()"
    ));
    assert!(matches!(
        parse_masking_rule(" masked with value 'x' "),
        MaskingRule::MaskedWithValue(v) if v == "'x'"
    ));
    assert!(matches!(parse_masking_rule("not   masked"), MaskingRule::NotMasked));
    assert!(matches!(parse_masking_rule("MASKED"), MaskingRule::NoRule));
    assert!(matches!(parse_masking_rule("QUASI IDENTIFIER"), MaskingRule::NoRule));
    assert!(matches!(parse_masking_rule(""), MaskingRule::NoRule));
}
