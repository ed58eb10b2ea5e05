use routing_codec::policies::{ResourcePolicyRow, SplitPolicies};
use routing_codec::trust::{
    CredentialScope, NodeManagerCredentialRetrieverOptions, NodeManagerTrustOptions,
};
use routing_codec::tui::{
    delete_after_confirm, delete_after_confirm_all, delete_after_selection, delete_plan,
    show_after_selection, show_plan, DeleteStep, ShowStep,
};

#[test]
fn credential_scope_strings() {
    let member = CredentialScope::ProjectMember { project_id: "p1".to_string() };
    assert_eq!(member.scope_string(), "project-member-p1".to_string());
    let admin = CredentialScope::ProjectAdmin { project_id: "p2".to_string() };
    assert_eq!(admin.scope_string(), "project-admin-p2".to_string());
    let account = CredentialScope::AccountAdmin { account_id: "a3".to_string() };
    assert_eq!(account.scope_string(), "account-admin-a3".to_string());
}

#[test]
fn trust_options_keep_their_choices() {
    let options = NodeManagerTrustOptions::new(
        NodeManagerCredentialRetrieverOptions::CacheOnly {
            issuer: "issuer".to_string(),
            project_id: "p1".to_string(),
        },
        NodeManagerCredentialRetrieverOptions::NoneConfigured,
        Some("authority".to_string()),
        NodeManagerCredentialRetrieverOptions::InMemory(vec![1, 2, 3]),
    );
    assert!(matches!(
        options.project_member_credential_retriever_options,
        NodeManagerCredentialRetrieverOptions::CacheOnly { .. }
    ));
    assert!(matches!(
        options.project_admin_credential_retriever_options,
        NodeManagerCredentialRetrieverOptions::NoneConfigured
    ));
    assert_eq!(options.project_authority, Some("authority".to_string()));
    assert!(matches!(
        options.account_admin_credential_retriever_options,
        NodeManagerCredentialRetrieverOptions::InMemory(_)
    ));
}

#[test]
fn show_flow_decisions() {
    assert_eq!(show_plan(0, false, true), ShowStep::InformEmpty);
    assert_eq!(show_plan(3, true, true), ShowStep::ShowSingle);
    assert_eq!(show_plan(3, false, false), ShowStep::ShowSingle);
    assert_eq!(show_plan(1, false, true), ShowStep::ShowSingle);
    assert_eq!(show_plan(3, false, true), ShowStep::AskSelection);
    assert_eq!(show_after_selection(0), ShowStep::InformNoneSelected);
    assert_eq!(show_after_selection(1), ShowStep::ShowSingle);
    assert_eq!(show_after_selection(4), ShowStep::ShowMultiple);
}

#[test]
fn delete_flow_decisions() {
    assert_eq!(delete_plan(0, true, false, true), DeleteStep::InformEmpty);
    assert_eq!(delete_plan(2, true, false, true), DeleteStep::ConfirmAll);
    assert_eq!(delete_plan(2, false, true, true), DeleteStep::DeleteSingle);
    assert_eq!(delete_plan(2, false, false, false), DeleteStep::DeleteSingle);
    assert_eq!(delete_plan(1, false, false, true), DeleteStep::ConfirmSingle);
    assert_eq!(delete_plan(2, false, false, true), DeleteStep::AskSelection);
    assert_eq!(delete_after_confirm_all(true, 2, false, true), DeleteStep::DeleteAll);
    // Declining "delete everything" falls back to the ordinary flow.
    assert_eq!(delete_after_confirm_all(false, 2, false, true), DeleteStep::AskSelection);
    assert_eq!(delete_after_selection(0), DeleteStep::InformNoneSelected);
    assert_eq!(delete_after_selection(1), DeleteStep::ConfirmSingle);
    assert_eq!(delete_after_selection(3), DeleteStep::ConfirmMultiple);
    assert_eq!(delete_after_confirm(true, true), DeleteStep::DeleteSingle);
    assert_eq!(delete_after_confirm(true, false), DeleteStep::DeleteMultiple);
    assert_eq!(delete_after_confirm(false, true), DeleteStep::Done);
}

fn row(resource: &str, n: usize) -> ResourcePolicyRow {
    ResourcePolicyRow {
        resource_name: resource.to_string(),
        action: "handle_message".to_string(),
        expression: format!("expression_{}", n),
        node_name: format!("node_{}", n),
    }
}

#[test]
fn split_moves_resource_type_policies() {
    let rows = vec![
        row("tcp-outlet", 1),
        row("tcp-inlet", 2),
        row("my_outlet_1", 3),
        row("my_outlet_2", 4),
        row("my_inlet_1", 5),
    ];
    let (moved, kept) = SplitPolicies::split_rows(rows);
    assert_eq!(moved.len(), 2);
    assert_eq!(moved[0].resource_name, "tcp-outlet");
    assert_eq!(moved[1].resource_name, "tcp-inlet");
    assert_eq!(kept.len(), 3);
    assert_eq!(kept[0].resource_name, "my_outlet_1");
    assert_eq!(kept[1].resource_name, "my_outlet_2");
    assert_eq!(kept[2].resource_name, "my_inlet_1");
    // The rows themselves travel intact.
    assert_eq!(moved[0].action, "handle_message");
    assert_eq!(moved[1].expression, "expression_2");
    assert_eq!(kept[0].node_name, "node_3");
}

#[test]
fn split_of_nothing_moves_nothing() {
    let (moved, kept) = SplitPolicies::split_rows(vec![]);
    assert!(moved.is_empty());
    assert!(kept.is_empty());
}
