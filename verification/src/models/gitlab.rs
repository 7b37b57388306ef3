//! The source provider's event payloads, as the transformer consumes
//! them: plain records of the fields the notification builder reads.
use vstd::prelude::*;

verus! {

/// The state a pipeline run reported, and where it ran.
#[derive(Debug, Clone)]
pub struct PipelineAttributes {
    pub id: u64,
    pub action: String,
    pub status: String,
    pub detailed_status: String,
    pub created_at: String,
    pub git_ref: String,
}

/// An issue's (or merge request's) state and identity.
#[derive(Debug, Clone)]
pub struct IssueAttributes {
    pub issue_id: u64,
    pub action: String,
    pub state: String,
    pub title: String,
    pub url: String,
    pub created_at: String,
}

/// The acting user, for the notification's author line.
#[derive(Debug, Clone)]
pub struct User {
    pub username: String,
    pub avatar_url: String,
}

/// One commit of a push event.
#[derive(Debug, Clone)]
pub struct Commit {
    pub id: String,
    pub url: String,
    pub message: String,
    pub author: CommitAuthor,
}

#[derive(Debug, Clone)]
pub struct CommitAuthor {
    pub name: String,
}

/// The project an event belongs to.
#[derive(Debug, Clone)]
pub struct Project {
    pub name: String,
    pub web_url: String,
    pub path_with_namespace: String,
    pub avatar_url: String,
}

/// A push to a ref, with the commits it carried.
#[derive(Debug, Clone)]
pub struct PushEvent {
    pub git_ref: String,
    pub username: String,
    pub user_avatar: String,
    pub project: Project,
    pub commits: Vec<Commit>,
    pub total_commits_count: u64,
}

/// An issue being opened, closed or otherwise acted on.
#[derive(Debug, Clone)]
pub struct IssueEvent {
    pub user: User,
    pub project: Project,
    pub attributes: IssueAttributes,
}

/// A merge request being opened, closed or merged.
#[derive(Debug, Clone)]
pub struct MergeRequestEvent {
    pub user: User,
    pub project: Project,
    pub attributes: IssueAttributes,
}

/// A pipeline reaching a status.
#[derive(Debug, Clone)]
pub struct PipelineEvent {
    pub user: User,
    pub project: Project,
    pub commit: Commit,
    pub attributes: PipelineAttributes,
}

} // verus!
