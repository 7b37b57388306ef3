use hookrelay::models::discord::{commit_line, join_commit_lines, Author, Color, Embed, Footer,
    Title};
use hookrelay::models::gitlab::{Commit, CommitAuthor, IssueAttributes, IssueEvent,
    MergeRequestEvent, PipelineAttributes, PipelineEvent, Project, PushEvent, User};
use hookrelay::routes::hooks::{classify_event, handle_event, handle_issue_hook,
    handle_merge_request_hook, handle_pipeline_hook, handle_push_hook, EventKind, GitlabEvent};
use hookrelay::text::u64_to_string;
use hookrelay::parse_user;

fn project() -> Project {
    Project {
        name: "proj".to_string(),
        web_url: "https://example.invalid/proj".to_string(),
        path_with_namespace: "group/proj".to_string(),
        avatar_url: "https://example.invalid/avatar.png".to_string(),
    }
}

fn user() -> User {
    User {
        username: "alice".to_string(),
        avatar_url: "https://example.invalid/alice.png".to_string(),
    }
}

fn commit(id: &str, message: &str) -> Commit {
    Commit {
        id: id.to_string(),
        url: "https://example.invalid/c".to_string(),
        message: message.to_string(),
        author: CommitAuthor { name: "Alice".to_string() },
    }
}

fn push_event(count: u64, commits: Vec<Commit>) -> PushEvent {
    PushEvent {
        git_ref: "refs/heads/main".to_string(),
        username: "alice".to_string(),
        user_avatar: "https://example.invalid/alice.png".to_string(),
        project: project(),
        commits,
        total_commits_count: count,
    }
}

#[test]
fn title_longer_than_bound_is_cut_to_exactly_the_bound() {
    let long: String = "x".repeat(300);
    let t = Title::new(long);
    assert_eq!(t.0.chars().count(), 256);
}

#[test]
fn short_title_is_kept_whole() {
    let t = Title::new("hello".to_string());
    assert_eq!(t.0, "hello");
}

#[test]
fn author_and_footer_are_cut_to_their_bounds() {
    let a = Author::new("y".repeat(300), "i".to_string());
    assert_eq!(a.name.chars().count(), 256);
    assert_eq!(a.icon_url, "i");
    let f = Footer::new("z".repeat(3000), "i".to_string());
    assert_eq!(f.text.chars().count(), 2048);
}

#[test]
fn push_with_zero_commits_is_suppressed() {
    let ev = push_event(0, vec![]);
    assert!(handle_push_hook(ev).is_none());
}

#[test]
fn push_with_one_commit_titles_the_count() {
    let ev = push_event(1, vec![commit("0123456789abcdef", "fix: thing")]);
    let embed = handle_push_hook(ev).unwrap();
    assert_eq!(embed.title.0, "proj - 1 new commits in main");
    assert!(embed.title.0.contains('1'));
    assert_eq!(embed.color, Color(0x1F, 0x78, 0xD1));
    assert_eq!(
        embed.description.unwrap(),
        "[`01234567`](https://example.invalid/c) fix: thing - **Alice**"
    );
}

#[test]
fn commit_line_has_the_exact_shape() {
    let c = commit("0123456789abcdef", "first line\nsecond line");
    assert_eq!(
        commit_line(&c),
        "[`01234567`](https://example.invalid/c) first line - **Alice**"
    );
}

#[test]
fn description_drops_lines_past_the_bound() {
    let a = commit("aaaaaaaaaaaa", &"m".repeat(1500));
    let b = commit("bbbbbbbbbbbb", &"n".repeat(1500));
    let commits = vec![a.clone(), b];
    let joined = join_commit_lines(&commits);
    assert_eq!(joined, commit_line(&a));
    assert!(joined.chars().count() < 2048);
}

#[test]
fn description_joins_fitting_lines_with_newlines() {
    let a = commit("aaaaaaaaaaaa", "one");
    let b = commit("bbbbbbbbbbbb", "two");
    let joined = join_commit_lines(&vec![a.clone(), b.clone()]);
    assert_eq!(joined, format!("{}\n{}", commit_line(&a), commit_line(&b)));
}

#[test]
fn description_of_no_commits_is_empty() {
    assert_eq!(join_commit_lines(&vec![]), "");
}

#[test]
fn title_at_exactly_the_bound_is_kept_whole() {
    let exact: String = "x".repeat(256);
    let t = Title::new(exact.clone());
    assert_eq!(t.0, exact);
    let over = Title::new("x".repeat(257));
    assert_eq!(over.0, exact);
}

#[test]
fn commit_with_empty_message_still_formats() {
    let c = commit("0123456789abcdef", "");
    assert_eq!(
        commit_line(&c),
        "[`01234567`](https://example.invalid/c)  - **Alice**"
    );
}

#[test]
fn issue_actions_filter_and_color() {
    let mk = |action: &str, state: &str| IssueEvent {
        user: user(),
        project: project(),
        attributes: IssueAttributes {
            issue_id: 7,
            action: action.to_string(),
            state: state.to_string(),
            title: "Bug".to_string(),
            url: "https://example.invalid/i/7".to_string(),
            created_at: "2021-01-01T00:00:00Z".to_string(),
        },
    };
    assert!(handle_issue_hook(mk("update", "opened")).is_none());
    let open = handle_issue_hook(mk("open", "opened")).unwrap();
    assert_eq!(open.color, Color(0x1F, 0x78, 0xD1));
    assert_eq!(open.title.0, "proj - Issue opened: #7 Bug");
    let closed = handle_issue_hook(mk("close", "closed")).unwrap();
    assert_eq!(closed.color, Color(0x1A, 0xAA, 0x55));
    assert_eq!(closed.timestamp.unwrap(), "2021-01-01T00:00:00Z");
}

#[test]
fn merge_request_actions_filter_and_color() {
    let mk = |action: &str, state: &str| MergeRequestEvent {
        user: user(),
        project: project(),
        attributes: IssueAttributes {
            issue_id: 3,
            action: action.to_string(),
            state: state.to_string(),
            title: "Feature".to_string(),
            url: "https://example.invalid/mr/3".to_string(),
            created_at: "2021-01-01T00:00:00Z".to_string(),
        },
    };
    assert!(handle_merge_request_hook(mk("approve", "opened")).is_none());
    let merged = handle_merge_request_hook(mk("merge", "merged")).unwrap();
    assert_eq!(merged.color, Color(0x1A, 0xAA, 0x55));
    assert_eq!(merged.title.0, "proj - Merge request merged: !3 Feature");
    let closed = handle_merge_request_hook(mk("close", "closed")).unwrap();
    assert_eq!(closed.color, Color(0xFC, 0x94, 0x03));
    let opened = handle_merge_request_hook(mk("open", "opened")).unwrap();
    assert_eq!(opened.color, Color(0x1F, 0x78, 0xD1));
}

#[test]
fn pipeline_statuses_filter_and_color() {
    let mk = |status: &str| PipelineEvent {
        user: user(),
        project: project(),
        commit: commit("cccccccccccc", "msg"),
        attributes: PipelineAttributes {
            id: 42,
            action: "".to_string(),
            status: status.to_string(),
            detailed_status: status.to_string(),
            created_at: "2021-01-01T00:00:00Z".to_string(),
            git_ref: "main".to_string(),
        },
    };
    assert!(handle_pipeline_hook(mk("running")).is_none());
    let good = handle_pipeline_hook(mk("success")).unwrap();
    assert_eq!(good.color, Color(0x1A, 0xAA, 0x55));
    assert_eq!(good.title.0, "proj - Pipeline for main success (42)");
    let bad = handle_pipeline_hook(mk("failed")).unwrap();
    assert_eq!(bad.color, Color(0xDB, 0x3B, 0x21));
}

#[test]
fn handle_event_dispatches_by_category() {
    let ev = GitlabEvent::Push(push_event(2, vec![commit("dddddddddddd", "a")]));
    let embed = handle_event(ev).unwrap();
    assert_eq!(embed.title.0, "proj - 2 new commits in main");
    assert!(handle_event(GitlabEvent::Push(push_event(0, vec![]))).is_none());
}

#[test]
fn event_names_classify() {
    assert_eq!(classify_event("Push Hook"), Some(EventKind::Push));
    assert_eq!(classify_event("Issue Hook"), Some(EventKind::Issue));
    assert_eq!(classify_event("Merge Request Hook"), Some(EventKind::MergeRequest));
    assert_eq!(classify_event("Pipeline Hook"), Some(EventKind::Pipeline));
    assert_eq!(classify_event("Deployment Hook"), None);
    assert_eq!(classify_event(""), None);
}

#[test]
fn color_packs_to_one_integer() {
    assert_eq!(Color::info().to_u32(), 0x1F78D1);
    assert_eq!(Color::alert().to_u32(), 0xFC9403);
    assert_eq!(Color::good().to_u32(), 0x1AAA55);
    assert_eq!(Color::bad().to_u32(), 0xDB3B21);
    assert_eq!(Color(0, 0, 0).to_u32(), 0);
    assert_eq!(Color(255, 255, 255).to_u32(), 0xFFFFFF);
}

#[test]
fn decimal_rendering_is_exact() {
    assert_eq!(u64_to_string(0), "0");
    assert_eq!(u64_to_string(7), "7");
    assert_eq!(u64_to_string(1234567890123), "1234567890123");
    assert_eq!(u64_to_string(u64::MAX), "18446744073709551615");
}

#[test]
fn user_pairs_parse() {
    let hash = "a".repeat(64);
    let (u, p) = parse_user(&format!("bob:{}", hash)).unwrap();
    assert_eq!(u, "bob");
    assert_eq!(p, hash);
    assert!(parse_user("bob:short").is_err());
    assert!(parse_user("nocolon").is_err());
    // more than one colon is not a user:pass pair, whatever the lengths
    assert!(parse_user(&format!("bob:extra:{}", "a".repeat(64))).is_err());
}

#[test]
fn embed_from_push_keeps_every_field() {
    let ev = push_event(1, vec![commit("0123456789abcdef", "msg")]);
    let e = Embed::from_push(ev);
    assert_eq!(e.author.name, "alice");
    assert_eq!(e.author.icon_url, "https://example.invalid/alice.png");
    assert_eq!(e.url, "https://example.invalid/proj");
    assert_eq!(e.footer.text, "group/proj");
    assert_eq!(e.footer.icon_url, "https://example.invalid/avatar.png");
    assert!(e.timestamp.is_none());
}
