//! The request and notification documents the relay works with.
use vstd::prelude::*;

pub mod discord;
pub mod gitlab;

use crate::store::{HookConfig, HookId};

verus! {

/// The body of a management "register" call: everything of a
/// configuration except what the registry supplies itself (the
/// identifier and the creation time).
#[derive(Debug, Clone)]
pub struct CreateHookConfig {
    pub description: String,
    pub gitlab_token: String,
    pub discord_url: String,
}

impl CreateHookConfig {
    /// Completes the request into a full configuration with a freshly
    /// generated identifier and the current time.
    pub fn into_config(self) -> (r: HookConfig)
        ensures
            r.description@ == self.description@,
            r.gitlab_token@ == self.gitlab_token@,
            r.discord_url@ == self.discord_url@,
            r.id.wf(),
            r.id@.len() == 36,
    {
        HookConfig {
            id: HookId::new(),
            description: self.description,
            gitlab_token: self.gitlab_token,
            discord_url: self.discord_url,
            created_at: crate::store::now_timestamp(),
        }
    }
}

} // verus!
