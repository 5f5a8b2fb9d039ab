use anon::error::MaskError;
use anon::masking::{Column, ColumnLabel};
use anon::policy::RoleLabel;
use anon::rewrite::{pa_rewrite_utility, process_utility_hook, CopyStmt, UtilityStmt};

fn person() -> Vec<Column> {
    vec![
        Column {
            ident: "firstname".to_string(),
            col_type: "character varying(30)".to_string(),
            is_dropped: false,
            labels: vec![],
        },
        Column {
            ident: "lastname".to_string(),
            col_type: "text".to_string(),
            is_dropped: false,
            labels: vec![ColumnLabel {
                policy: "anon".to_string(),
                label: "MASKED WITH VALUE NULL".to_string(),
            }],
        },
    ]
}

fn copy(is_from: bool, relation: Option<&str>) -> UtilityStmt {
    UtilityStmt::Copy(CopyStmt {
        is_from,
        relation: relation.map(|r| r.to_string()),
        attlist: vec!["lastname".to_string()],
        query: None,
    })
}

#[test]
fn copy_to_reads_masked_projection() {
    match pa_rewrite_utility(copy(false, Some("person")), &person(), "anon") {
        Ok(UtilityStmt::Copy(c)) => {
            assert!(!c.is_from);
            assert!(c.relation.is_none());
            assert!(c.attlist.is_empty());
            assert_eq!(
                c.query,
                Some(
                    "SELECT firstname AS firstname, CAST(NULL AS text) AS lastname FROM person"
                        .to_string()
                )
            );
        }
        _ => panic!("COPY TO was not rewritten"),
    }
}

#[test]
fn copy_from_is_unchanged() {
    match pa_rewrite_utility(copy(true, Some("person")), &person(), "anon") {
        Ok(UtilityStmt::Copy(c)) => {
            assert!(c.is_from);
            assert_eq!(c.relation, Some("person".to_string()));
            assert_eq!(c.attlist, vec!["lastname".to_string()]);
            assert_eq!(c.query, None);
        }
        _ => panic!("COPY FROM was changed"),
    }
}

#[test]
fn copy_of_query_is_not_implemented() {
    assert!(matches!(
        pa_rewrite_utility(copy(false, None), &person(), "anon"),
        Err(MaskError::NotImplemented)
    ));
}

#[test]
fn explain_and_truncate_are_refused() {
    assert!(matches!(
        pa_rewrite_utility(UtilityStmt::Explain, &Vec::new(), "anon"),
        Err(MaskError::InsufficientPrivilege)
    ));
    assert!(matches!(
        pa_rewrite_utility(UtilityStmt::Truncate, &Vec::new(), "anon"),
        Err(MaskError::InsufficientPrivilege)
    ));
    assert!(matches!(
        pa_rewrite_utility(UtilityStmt::Other, &Vec::new(), "anon"),
        Ok(UtilityStmt::Other)
    ));
}

#[test]
fn hook_refuses_explain_of_masked_role_only() {
    let policies = vec!["anon".to_string()];
    let labels = vec![RoleLabel { role: 10, policy: "anon".to_string(), label: "MASKED".to_string() }];
    let table = Vec::new();
    assert!(matches!(
        process_utility_hook(true, &policies, &labels, 10, UtilityStmt::Explain, &table),
        Err(MaskError::InsufficientPrivilege)
    ));
    assert!(matches!(
        process_utility_hook(true, &policies, &labels, 10, UtilityStmt::Truncate, &table),
        Err(MaskError::InsufficientPrivilege)
    ));
    assert!(matches!(
        process_utility_hook(true, &policies, &labels, 11, UtilityStmt::Explain, &table),
        Ok(UtilityStmt::Explain)
    ));
    assert!(matches!(
        process_utility_hook(false, &policies, &labels, 10, UtilityStmt::Explain, &table),
        Ok(UtilityStmt::Explain)
    ));
}

#[test]
fn hook_rewrites_copy_of_masked_role() {
    let policies = vec!["anon".to_string()];
    let labels = vec![RoleLabel { role: 10, policy: "anon".to_string(), label: "MASKED".to_string() }];
    match process_utility_hook(true, &policies, &labels, 10, copy(false, Some("person")), &person()) {
        Ok(UtilityStmt::Copy(c)) => assert!(c.query.unwrap().starts_with("SELECT firstname AS firstname")),
        _ => panic!("COPY TO was not rewritten"),
    }
}
