//! Plain-value models of the trust-layer interface: the scopes
//! credentials are retrieved under, and the retriever strategy chosen
//! for each scope when a node starts.
//!
//! The retrieval itself — caches, remote authorities, in-memory
//! credentials — is an external collaborator; this module only carries
//! the choices, keyed by scope strings of the form
//! `project-member-<id>`, `project-admin-<id>`, `account-admin-<id>`.

use crate::route::Route;
use vstd::prelude::*;
use vstd::string::StringExecFns;

verus! {

/// The scope a credential is retrieved under.
pub enum CredentialScope {
    /// Membership of a project.
    ProjectMember { project_id: String },
    /// Administration of a project.
    ProjectAdmin { project_id: String },
    /// Administration of an account.
    AccountAdmin { account_id: String },
}

impl CredentialScope {
    /// The scope string this scope is keyed by.
    pub fn scope_string(&self) -> (r: String)
        ensures
            self matches CredentialScope::ProjectMember { project_id } ==> r@
                == "project-member-"@ + project_id@,
            self matches CredentialScope::ProjectAdmin { project_id } ==> r@
                == "project-admin-"@ + project_id@,
            self matches CredentialScope::AccountAdmin { account_id } ==> r@
                == "account-admin-"@ + account_id@,
    {
        match self {
            CredentialScope::ProjectMember { project_id } => String::from_str(
                "project-member-",
            ).concat(project_id.as_str()),
            CredentialScope::ProjectAdmin { project_id } => String::from_str(
                "project-admin-",
            ).concat(project_id.as_str()),
            CredentialScope::AccountAdmin { account_id } => String::from_str(
                "account-admin-",
            ).concat(account_id.as_str()),
        }
    }
}

/// Where a remote credential retriever is reached: the issuing
/// authority's identifier and the route to it.
pub struct RemoteRetrieverInfo {
    /// The identifier of the issuing authority.
    pub issuer: String,
    /// The route to the retriever's service.
    pub route: Route,
}

/// The retriever strategy configured for one scope.
pub enum NodeManagerCredentialRetrieverOptions {
    /// No retriever configured for this scope.
    NoneConfigured,
    /// Only the local cache is consulted.
    CacheOnly { issuer: String, project_id: String },
    /// A remote authority is asked.
    Remote { info: RemoteRetrieverInfo, project_id: String },
    /// A credential held in memory, as its encoded bytes.
    InMemory(Vec<u8>),
}

/// The trust options a node manager starts with: one retriever choice
/// per scope, plus the authority that vouches for the project.
pub struct NodeManagerTrustOptions {
    pub project_member_credential_retriever_options: NodeManagerCredentialRetrieverOptions,
    pub project_authority: Option<String>,
    pub project_admin_credential_retriever_options: NodeManagerCredentialRetrieverOptions,
    pub account_admin_credential_retriever_options: NodeManagerCredentialRetrieverOptions,
}

impl NodeManagerTrustOptions {
    /// Bundles the retriever choices and the project authority,
    /// exactly as given.
    pub fn new(
        project_member_credential_retriever_options: NodeManagerCredentialRetrieverOptions,
        project_admin_credential_retriever_options: NodeManagerCredentialRetrieverOptions,
        project_authority: Option<String>,
        account_admin_credential_retriever_options: NodeManagerCredentialRetrieverOptions,
    ) -> (r: NodeManagerTrustOptions)
        ensures
            r.project_member_credential_retriever_options
                == project_member_credential_retriever_options,
            r.project_admin_credential_retriever_options
                == project_admin_credential_retriever_options,
            r.project_authority == project_authority,
            r.account_admin_credential_retriever_options
                == account_admin_credential_retriever_options,
    {
        NodeManagerTrustOptions {
            project_member_credential_retriever_options,
            project_authority,
            project_admin_credential_retriever_options,
            account_admin_credential_retriever_options,
        }
    }
}

} // verus!
