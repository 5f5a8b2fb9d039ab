use anon::error::MaskError;
use anon::policy::{get_masking_policy, has_mask_in_policy, list_masking_policies, RoleLabel};

const BATMAN: u32 = 16385;
const BRUCE: u32 = 16386;

fn label(role: u32, policy: &str, text: &str) -> RoleLabel {
    RoleLabel { role, policy: policy.to_string(), label: text.to_string() }
}

fn catalog() -> Vec<RoleLabel> {
    vec![label(BATMAN, "anon", "MASKED")]
}

#[test]
fn test_anon_has_mask_in_policy() {
    let labels = catalog();
    assert!(has_mask_in_policy(&labels, BATMAN, "anon"));
    assert!(!has_mask_in_policy(&labels, BRUCE, "anon"));
    assert!(!has_mask_in_policy(&labels, BATMAN, "does_not_exist"));
    let not_a_real_roleid = 99999999;
    assert!(!has_mask_in_policy(&labels, not_a_real_roleid, "anon"));
}

#[test]
fn unparseable_role_label_is_unmasked() {
    let labels = vec![label(BRUCE, "anon", "MASKED WITH VALUE 0"), label(BATMAN, "anon", "  masked ")];
    assert!(!has_mask_in_policy(&labels, BRUCE, "anon"));
    assert!(has_mask_in_policy(&labels, BATMAN, "anon"));
}

#[test]
fn test_anon_get_masking_policy() {
    let labels = catalog();
    let policies = vec!["anon".to_string()];
    assert_eq!(get_masking_policy(&policies, &labels, BATMAN), Some("anon".to_string()));
    assert!(get_masking_policy(&policies, &labels, BRUCE).is_none());
}

#[test]
fn first_masking_policy_wins() {
    let labels = vec![
        label(BATMAN, "devtests", "MASKED"),
        label(BATMAN, "analytics", "MASKED"),
        label(BATMAN, "anon", "NOT MASKED"),
    ];
    let policies = vec!["anon".to_string(), "analytics".to_string(), "devtests".to_string()];
    assert_eq!(get_masking_policy(&policies, &labels, BATMAN), Some("analytics".to_string()));
    assert_eq!(get_masking_policy(&policies, &labels, BRUCE), None);
    assert_eq!(get_masking_policy(&Vec::new(), &labels, BATMAN), None);
}

#[test]
fn test_anon_list_masking_policies() {
    assert_eq!(list_masking_policies("anon"), Ok(vec!["anon".to_string()]));
    assert_eq!(
        list_masking_policies("anon,devtests"),
        Ok(vec!["anon".to_string(), "devtests".to_string()])
    );
    assert_eq!(
        list_masking_policies("a,,b,"),
        Ok(vec!["a".to_string(), "".to_string(), "b".to_string(), "".to_string()])
    );
}

#[test]
fn empty_policy_setting_is_refused() {
    assert_eq!(list_masking_policies(""), Err(MaskError::NoPolicy));
}
