//! The policy resolver: which policy, if any, masks a role.
use vstd::prelude::*;
use crate::error::MaskError;
use crate::labels::{is_match_masked, spec_is_masked};

verus! {

/// A security label on a role, under one policy.
pub struct RoleLabel {
    pub role: u32,
    pub policy: String,
    pub label: String,
}

pub open spec fn strings_view(v: Seq<String>) -> Seq<Seq<char>> {
    v.map_values(|s: String| s@)
}

/// The label that `role` carries under `policy`: that of the first entry for
/// the pair.
pub open spec fn role_label(labels: Seq<RoleLabel>, role: u32, policy: Seq<char>) -> Option<
    Seq<char>,
>
    decreases labels.len(),
{
    if labels.len() == 0 {
        None
    } else if labels[0].role == role && labels[0].policy@ == policy {
        Some(labels[0].label@)
    } else {
        role_label(labels.drop_first(), role, policy)
    }
}

/// `role` is masked under `policy`: its label there reads `MASKED`. No
/// label, or any other label, leaves it unmasked.
pub open spec fn spec_has_mask(labels: Seq<RoleLabel>, role: u32, policy: Seq<char>) -> bool {
    match role_label(labels, role, policy) {
        Some(l) => spec_is_masked(l),
        None => false,
    }
}

/// The first of `policies` under which `role` is masked.
pub open spec fn spec_masking_policy(
    policies: Seq<Seq<char>>,
    labels: Seq<RoleLabel>,
    role: u32,
) -> Option<Seq<char>>
    decreases policies.len(),
{
    if policies.len() == 0 {
        None
    } else if spec_has_mask(labels, role, policies[0]) {
        Some(policies[0])
    } else {
        spec_masking_policy(policies.drop_first(), labels, role)
    }
}

/// The pieces of `s` between commas.
pub open spec fn split_commas(s: Seq<char>) -> Seq<Seq<char>>
    decreases s.len(),
{
    if s.len() == 0 {
        seq![Seq::<char>::empty()]
    } else {
        let prev = split_commas(s.drop_last());
        if s.last() == ',' {
            prev.push(Seq::<char>::empty())
        } else {
            prev.update(prev.len() - 1, prev.last().push(s.last()))
        }
    }
}

fn str_eq(a: &String, b: &String) -> (r: bool)
    ensures
        r == (a@ == b@),
{
    *a == *b
}

/// The configured masking policies, in order: the setting split on commas.
/// An empty setting is refused.
pub fn list_masking_policies(setting: &str) -> (r: Result<Vec<String>, MaskError>)
    ensures
        setting@.len() == 0 ==> r == Err::<Vec<String>, MaskError>(MaskError::NoPolicy),
        setting@.len() > 0 ==> (r matches Ok(v) && strings_view(v@) == split_commas(setting@)),
{
    let n = setting.unicode_len();
    if n == 0 {
        return Err(MaskError::NoPolicy);
    }
    let mut out: Vec<String> = Vec::new();
    let mut start: usize = 0;
    let mut i: usize = 0;
    assert(setting@.take(0) =~= Seq::<char>::empty());
    assert(strings_view(out@).push(setting@.subrange(0, 0)) =~= split_commas(setting@.take(0)));
    while i < n
        invariant
            n == setting@.len(),
            start <= i <= n,
            strings_view(out@).push(setting@.subrange(start as int, i as int)) == split_commas(
                setting@.take(i as int),
            ),
        decreases n - i,
    {
        let c = setting.get_char(i);
        let ghost prev = split_commas(setting@.take(i as int));
        assert(setting@.take(i + 1).drop_last() =~= setting@.take(i as int));
        assert(setting@.take(i + 1).last() == c);
        if c == ',' {
            let ghost before = out@;
            let piece = String::from_str(setting.substring_char(start, i));
            out.push(piece);
            assert(strings_view(out@) =~= strings_view(before).push(
                setting@.subrange(start as int, i as int),
            ));
            start = i + 1;
            assert(setting@.subrange(start as int, i + 1) =~= Seq::<char>::empty());
            assert(strings_view(out@).push(setting@.subrange(start as int, i + 1)) =~= prev.push(
                Seq::<char>::empty(),
            ));
        } else {
            assert(setting@.subrange(start as int, i + 1) =~= setting@.subrange(
                start as int,
                i as int,
            ).push(c));
            assert(strings_view(out@).push(setting@.subrange(start as int, i + 1)) =~= prev.update(
                prev.len() - 1,
                prev.last().push(c),
            ));
        }
        i += 1;
    }
    let ghost before = out@;
    let piece = String::from_str(setting.substring_char(start, n));
    out.push(piece);
    assert(strings_view(out@) =~= strings_view(before).push(
        setting@.subrange(start as int, n as int),
    ));
    assert(setting@.take(n as int) =~= setting@);
    assert(strings_view(out@) =~= split_commas(setting@));
    Ok(out)
}

fn find_role_label(labels: &Vec<RoleLabel>, roleid: u32, policy: &String) -> (r: Option<usize>)
    ensures
        match r {
            Some(i) => i < labels.len() && role_label(labels@, roleid, policy@) == Some(
                labels@[i as int].label@,
            ),
            None => role_label(labels@, roleid, policy@) is None,
        },
{
    let mut i: usize = 0;
    assert(labels@.skip(0) =~= labels@);
    while i < labels.len()
        invariant
            i <= labels.len(),
            role_label(labels@, roleid, policy@) == role_label(
                labels@.skip(i as int),
                roleid,
                policy@,
            ),
        decreases labels.len() - i,
    {
        assert(labels@.skip(i as int).drop_first() =~= labels@.skip(i + 1));
        assert(labels@.skip(i as int)[0] == labels@[i as int]);
        if labels[i].role == roleid && str_eq(&labels[i].policy, policy) {
            return Some(i);
        }
        i += 1;
    }
    None
}

/// Whether `roleid` is masked under `policy`. A role with no label there,
/// or one that does not exist, is not masked.
pub fn has_mask_in_policy(labels: &Vec<RoleLabel>, roleid: u32, policy: &str) -> (r: bool)
    ensures
        r == spec_has_mask(labels@, roleid, policy@),
{
    let p = String::from_str(policy);
    match find_role_label(labels, roleid, &p) {
        Some(i) => is_match_masked(labels[i].label.as_str()),
        None => false,
    }
}

/// The first configured policy under which `roleid` is masked, if any.
pub fn get_masking_policy(policies: &Vec<String>, labels: &Vec<RoleLabel>, roleid: u32) -> (r:
    Option<String>)
    ensures
        match r {
            Some(p) => spec_masking_policy(strings_view(policies@), labels@, roleid) == Some(p@),
            None => spec_masking_policy(strings_view(policies@), labels@, roleid) is None,
        },
{
    let ghost all = strings_view(policies@);
    let mut i: usize = 0;
    assert(all.skip(0) =~= all);
    while i < policies.len()
        invariant
            i <= policies.len(),
            all == strings_view(policies@),
            spec_masking_policy(all, labels@, roleid) == spec_masking_policy(
                all.skip(i as int),
                labels@,
                roleid,
            ),
        decreases policies.len() - i,
    {
        assert(all.skip(i as int).drop_first() =~= all.skip(i + 1));
        assert(all.skip(i as int)[0] == policies@[i as int]@);
        if has_mask_in_policy(labels, roleid, policies[i].as_str()) {
            return Some(policies[i].clone());
        }
        i += 1;
    }
    None
}

/// A role that carries no label under a policy, as a role that does not
/// exist carries none, is not masked under it.
pub proof fn lemma_unlabelled_role_is_unmasked(labels: Seq<RoleLabel>, role: u32, policy: Seq<char>)
    requires
        forall|i: int|
            0 <= i < labels.len() ==> !(#[trigger] labels[i].role == role && labels[i].policy@
                == policy),
    ensures
        role_label(labels, role, policy) is None,
        !spec_has_mask(labels, role, policy),
    decreases labels.len(),
{
    if labels.len() > 0 {
        let rest = labels.drop_first();
        assert forall|i: int| 0 <= i < rest.len() implies !(#[trigger] rest[i].role == role
            && rest[i].policy@ == policy) by {
            assert(rest[i] == labels[i + 1]);
        }
        assert(!(labels[0].role == role && labels[0].policy@ == policy));
        lemma_unlabelled_role_is_unmasked(rest, role, policy);
    }
}

/// The resolved policy is the first configured one under which the role is
/// masked; there is none exactly when no configured policy masks the role.
pub proof fn lemma_masking_policy_is_first_match(
    policies: Seq<Seq<char>>,
    labels: Seq<RoleLabel>,
    role: u32,
)
    ensures
        spec_masking_policy(policies, labels, role) is None <==> (forall|i: int|
            0 <= i < policies.len() ==> !spec_has_mask(labels, role, #[trigger] policies[i])),
        spec_masking_policy(policies, labels, role) is Some ==> exists|i: int|
            0 <= i < policies.len() && policies[i] == spec_masking_policy(policies, labels, role)->0
                && spec_has_mask(labels, role, #[trigger] policies[i]) && (forall|j: int|
                0 <= j < i ==> !spec_has_mask(labels, role, #[trigger] policies[j])),
    decreases policies.len(),
{
    if policies.len() > 0 {
        let rest = policies.drop_first();
        lemma_masking_policy_is_first_match(rest, labels, role);
        if spec_has_mask(labels, role, policies[0]) {
            assert(forall|j: int| 0 <= j < 0 ==> !spec_has_mask(labels, role, #[trigger] policies[j]));
        } else {
            if spec_masking_policy(rest, labels, role) is None {
                assert forall|i: int| 0 <= i < policies.len() implies !spec_has_mask(
                    labels,
                    role,
                    #[trigger] policies[i],
                ) by {
                    if i > 0 {
                        assert(policies[i] == rest[i - 1]);
                    }
                }
            } else {
                let i = choose|i: int|
                    0 <= i < rest.len() && rest[i] == spec_masking_policy(rest, labels, role)->0
                        && spec_has_mask(labels, role, #[trigger] rest[i]) && (forall|j: int|
                        0 <= j < i ==> !spec_has_mask(labels, role, #[trigger] rest[j]));
                assert(policies[i + 1] == rest[i]);
                assert forall|j: int| 0 <= j < i + 1 implies !spec_has_mask(
                    labels,
                    role,
                    #[trigger] policies[j],
                ) by {
                    if j > 0 {
                        assert(policies[j] == rest[j - 1]);
                    }
                }
            }
        }
    }
}

} // verus!
