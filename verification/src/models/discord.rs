//! The notification document sent to the sink, and the pure transforms
//! that build one from each source event. Every bounded field is
//! truncated at construction, never rejected; the description is a
//! greedy fill of whole commit lines that stops before the bound.
use vstd::prelude::*;

use crate::models::gitlab::{Commit, IssueEvent, MergeRequestEvent, PipelineEvent, PushEvent};
use crate::text::{
    first_line, last_segment, spec_decimal, spec_first_line, spec_last_segment, spec_truncated,
    str_eq, truncate_chars, u64_to_string,
};

verus! {

pub const AUTHOR_MAX_LENGTH: usize = 256;

pub const TITLE_MAX_LENGTH: usize = 256;

pub const FOOTER_MAX_LENGTH: usize = 2048;

pub const DESCRIPTION_MAX_LENGTH: usize = 2048;

/// An RGB triple, packed into one integer on the wire.
#[derive(Debug, Clone, Copy, PartialEq, Eq, Structural)]
pub struct Color(pub u8, pub u8, pub u8);

impl Color {
    /// The informational blue.
    pub fn info() -> (c: Color)
        ensures
            c == (Color(0x1F, 0x78, 0xD1)),
    {
        Color(0x1F, 0x78, 0xD1)
    }

    /// The warning orange.
    pub fn alert() -> (c: Color)
        ensures
            c == (Color(0xFC, 0x94, 0x03)),
    {
        Color(0xFC, 0x94, 0x03)
    }

    /// The success green.
    pub fn good() -> (c: Color)
        ensures
            c == (Color(0x1A, 0xAA, 0x55)),
    {
        Color(0x1A, 0xAA, 0x55)
    }

    /// The failure red.
    pub fn bad() -> (c: Color)
        ensures
            c == (Color(0xDB, 0x3B, 0x21)),
    {
        Color(0xDB, 0x3B, 0x21)
    }

    /// The wire form: `0xRRGGBB`.
    pub fn to_u32(&self) -> (r: u32)
        ensures
            r == (self.0 as u32) * 0x10000 + (self.1 as u32) * 0x100 + (self.2 as u32),
    {
        (self.0 as u32) * 0x10000 + (self.1 as u32) * 0x100 + (self.2 as u32)
    }
}

/// Who acted, shown at the top of the notification.
#[derive(Debug, Clone)]
pub struct Author {
    pub name: String,
    pub icon_url: String,
}

impl Author {
    /// Builds an author line; the name is truncated to its bound.
    pub fn new(name: String, icon_url: String) -> (r: Self)
        ensures
            r.name@ == spec_truncated(name@, AUTHOR_MAX_LENGTH as int),
            r.icon_url@ == icon_url@,
    {
        Author { name: truncate_chars(name, AUTHOR_MAX_LENGTH), icon_url }
    }
}

/// The footer line, naming the project the event came from.
#[derive(Debug, Clone)]
pub struct Footer {
    pub text: String,
    pub icon_url: String,
}

impl Footer {
    /// Builds a footer; the text is truncated to its bound.
    pub fn new(text: String, icon_url: String) -> (r: Self)
        ensures
            r.text@ == spec_truncated(text@, FOOTER_MAX_LENGTH as int),
            r.icon_url@ == icon_url@,
    {
        Footer { text: truncate_chars(text, FOOTER_MAX_LENGTH), icon_url }
    }
}

/// The headline, truncated to its bound.
#[derive(Debug, Clone)]
pub struct Title(pub String);

impl Title {
    /// Builds a title; the text is truncated to its bound.
    pub fn new(text: String) -> (r: Self)
        ensures
            r.0@ == spec_truncated(text@, TITLE_MAX_LENGTH as int),
    {
        Title(truncate_chars(text, TITLE_MAX_LENGTH))
    }
}

/// The notification document delivered to the sink.
#[derive(Debug, Clone)]
pub struct Embed {
    pub author: Author,
    pub title: Title,
    pub url: String,
    pub color: Color,
    pub footer: Footer,
    pub timestamp: Option<String>,
    pub description: Option<String>,
}

/// The headline of a push notification, before truncation.
pub open spec fn spec_push_title(ev: PushEvent) -> Seq<char> {
    ev.project.name@ + " - "@ + spec_decimal(ev.total_commits_count as nat)
        + " new commits in "@ + spec_last_segment(ev.git_ref@)
}

/// The headline of an issue notification, before truncation.
pub open spec fn spec_issue_title(ev: IssueEvent) -> Seq<char> {
    ev.project.name@ + " - Issue "@ + ev.attributes.state@ + ": #"@ + spec_decimal(
        ev.attributes.issue_id as nat,
    ) + " "@ + ev.attributes.title@
}

/// The headline of a merge-request notification, before truncation.
pub open spec fn spec_merge_request_title(ev: MergeRequestEvent) -> Seq<char> {
    ev.project.name@ + " - Merge request "@ + ev.attributes.state@ + ": !"@ + spec_decimal(
        ev.attributes.issue_id as nat,
    ) + " "@ + ev.attributes.title@
}

/// The headline of a pipeline notification, before truncation.
pub open spec fn spec_pipeline_title(ev: PipelineEvent) -> Seq<char> {
    ev.project.name@ + " - Pipeline for "@ + ev.attributes.git_ref@ + " "@
        + ev.attributes.detailed_status@ + " ("@ + spec_decimal(ev.attributes.id as nat) + ")"@
}

/// One line of the description: abbreviated hash, link, first message
/// line, author.
pub open spec fn spec_commit_line(c: Commit) -> Seq<char> {
    "[`"@ + spec_truncated(c.id@, 8) + "`]("@ + c.url@ + ") "@ + spec_first_line(c.message@)
        + " - **"@ + c.author.name@ + "**"@
}

pub open spec fn spec_commit_lines(commits: Seq<Commit>) -> Seq<Seq<char>> {
    commits.map_values(|c: Commit| spec_commit_line(c))
}

/// How many leading lines fit: each line costs its length plus one
/// (its separator), and the fill stops at the first line that would
/// push the total over the budget.
pub open spec fn spec_greedy_count(lines: Seq<Seq<char>>, budget: int) -> int
    decreases lines.len(),
{
    if lines.len() == 0 {
        0
    } else if lines[0].len() + 1 > budget {
        0
    } else {
        1 + spec_greedy_count(lines.drop_first(), budget - lines[0].len() - 1)
    }
}

/// The lines joined with a newline between each pair.
pub open spec fn spec_join_nl(lines: Seq<Seq<char>>) -> Seq<char>
    decreases lines.len(),
{
    if lines.len() == 0 {
        Seq::empty()
    } else if lines.len() == 1 {
        lines[0]
    } else {
        lines[0] + seq!['\n'] + spec_join_nl(lines.drop_first())
    }
}

/// A push notification's description: the greedy prefix of its commit
/// lines, joined by newlines.
pub open spec fn spec_description(commits: Seq<Commit>) -> Seq<char> {
    let lines = spec_commit_lines(commits);
    spec_join_nl(lines.take(spec_greedy_count(lines, DESCRIPTION_MAX_LENGTH as int)))
}

proof fn lemma_join_snoc(s: Seq<Seq<char>>, x: Seq<char>)
    ensures
        spec_join_nl(s.push(x)) == if s.len() == 0 {
            x
        } else {
            spec_join_nl(s) + seq!['\n'] + x
        },
    decreases s.len(),
{
    if s.len() == 0 {
        assert(s.push(x)[0] == x);
    } else {
        assert(s.push(x).drop_first() =~= s.drop_first().push(x));
        lemma_join_snoc(s.drop_first(), x);
        if s.len() == 1 {
            assert(s.push(x)[0] == s[0]);
            assert(spec_join_nl(s.push(x)) == s[0] + seq!['\n'] + spec_join_nl(
                s.drop_first().push(x),
            ));
            assert(spec_join_nl(s.drop_first().push(x)) == x);
        } else {
            assert(spec_join_nl(s.push(x)) == s[0] + seq!['\n'] + spec_join_nl(
                s.drop_first().push(x),
            ));
            assert(spec_join_nl(s.drop_first().push(x)) == spec_join_nl(s.drop_first())
                + seq!['\n'] + x);
            assert(s[0] + seq!['\n'] + (spec_join_nl(s.drop_first()) + seq!['\n'] + x) =~= (s[0]
                + seq!['\n'] + spec_join_nl(s.drop_first())) + seq!['\n'] + x);
        }
    }
}

/// The greedy fill never exceeds its budget: what it keeps joins to
/// strictly less than the budget when anything is kept at all.
proof fn lemma_greedy_len(lines: Seq<Seq<char>>, budget: int)
    requires
        budget >= 0,
    ensures
        0 <= spec_greedy_count(lines, budget) <= lines.len(),
        spec_join_nl(lines.take(spec_greedy_count(lines, budget))).len() <= if budget > 0 {
            budget - 1
        } else {
            0
        },
    decreases lines.len(),
{
    let count = spec_greedy_count(lines, budget);
    if lines.len() == 0 || lines[0].len() + 1 > budget {
        assert(lines.take(0) =~= Seq::<Seq<char>>::empty());
    } else {
        let budget2 = budget - lines[0].len() - 1;
        lemma_greedy_len(lines.drop_first(), budget2);
        let count2 = spec_greedy_count(lines.drop_first(), budget2);
        assert(count == 1 + count2);
        assert(lines.take(count)[0] == lines[0]);
        if count == 1 {
            assert(lines.take(1) =~= seq![lines[0]]);
            assert(spec_join_nl(lines.take(1)) == lines[0]);
        } else {
            assert(lines.take(count).drop_first() =~= lines.drop_first().take(count2));
            assert(spec_join_nl(lines.take(count)) == lines[0] + seq!['\n'] + spec_join_nl(
                lines.drop_first().take(count2),
            ));
        }
    }
}

/// How many commit lines the description keeps.
fn greedy_prefix_len(commits: &Vec<Commit>) -> (k: usize)
    ensures
        k <= commits@.len(),
        k as int == spec_greedy_count(
            spec_commit_lines(commits@),
            DESCRIPTION_MAX_LENGTH as int,
        ),
{
    let ghost lines = spec_commit_lines(commits@);
    let mut k: usize = 0;
    let mut budget: usize = DESCRIPTION_MAX_LENGTH;
    proof {
        assert(lines.skip(0) =~= lines);
    }
    while k < commits.len()
        invariant
            lines == spec_commit_lines(commits@),
            k <= commits@.len(),
            budget <= DESCRIPTION_MAX_LENGTH,
            spec_greedy_count(lines, DESCRIPTION_MAX_LENGTH as int) == k + spec_greedy_count(
                lines.skip(k as int),
                budget as int,
            ),
        decreases commits@.len() - k,
    {
        let line = commit_line(&commits[k]);
        let l: usize = line.as_str().unicode_len();
        proof {
            assert(lines[k as int] == spec_commit_line(commits@[k as int]));
            assert(lines.skip(k as int)[0] == lines[k as int]);
            assert(lines.skip(k as int).drop_first() =~= lines.skip(k + 1));
        }
        if l >= budget {
            proof {
                assert(spec_greedy_count(lines.skip(k as int), budget as int) == 0);
            }
            return k;
        }
        budget = budget - (l + 1);
        k += 1;
    }
    proof {
        assert(lines.skip(k as int) =~= Seq::<Seq<char>>::empty());
    }
    k
}

/// Formats one commit for the description.
pub fn commit_line(c: &Commit) -> (r: String)
    ensures
        r@ == spec_commit_line(*c),
{
    let short = truncate_chars(c.id.clone(), 8);
    let msg = first_line(c.message.as_str());
    let r = String::from_str("[`").concat(short.as_str()).concat("`](").concat(
        c.url.as_str(),
    ).concat(") ").concat(msg.as_str()).concat(" - **").concat(c.author.name.as_str()).concat(
        "**",
    );
    proof {
        assert(r@ =~= spec_commit_line(*c));
    }
    r
}

/// Joins as many leading commit lines as fit the description bound.
pub fn join_commit_lines(commits: &Vec<Commit>) -> (r: String)
    ensures
        r@ == spec_description(commits@),
        r@.len() < DESCRIPTION_MAX_LENGTH,
{
    let k = greedy_prefix_len(commits);
    let ghost lines = spec_commit_lines(commits@);
    let mut out = String::new();
    let mut i: usize = 0;
    proof {
        assert(lines.take(0) =~= Seq::<Seq<char>>::empty());
    }
    while i < k
        invariant
            k <= commits@.len(),
            lines == spec_commit_lines(commits@),
            i <= k,
            out@ == spec_join_nl(lines.take(i as int)),
        decreases k - i,
    {
        let line = commit_line(&commits[i]);
        proof {
            assert(lines[i as int] == spec_commit_line(commits@[i as int]));
            lemma_join_snoc(lines.take(i as int), lines[i as int]);
            assert(lines.take(i as int).push(lines[i as int]) =~= lines.take(i + 1));
            reveal_strlit("\n");
        }
        if i > 0 {
            out.append("\n");
            out.append(line.as_str());
            proof {
                assert("\n"@ =~= seq!['\n']);
                assert(out@ =~= spec_join_nl(lines.take(i + 1)));
            }
        } else {
            out.append(line.as_str());
            proof {
                assert(out@ =~= spec_join_nl(lines.take(i + 1)));
            }
        }
        i += 1;
    }
    proof {
        lemma_greedy_len(lines, DESCRIPTION_MAX_LENGTH as int);
    }
    out
}

/// Exactly the notification that a push event produces.
pub open spec fn is_push_embed(r: Embed, ev: PushEvent) -> bool {
    &&& r.author.name@ == spec_truncated(ev.username@, AUTHOR_MAX_LENGTH as int)
    &&& r.author.icon_url@ == ev.user_avatar@
    &&& r.title.0@ == spec_truncated(spec_push_title(ev), TITLE_MAX_LENGTH as int)
    &&& r.url@ == ev.project.web_url@
    &&& r.color == (Color(0x1F, 0x78, 0xD1))
    &&& r.footer.text@ == spec_truncated(ev.project.path_with_namespace@, FOOTER_MAX_LENGTH as int)
    &&& r.footer.icon_url@ == ev.project.avatar_url@
    &&& r.timestamp is None
    &&& r.description matches Some(d) && d@ == spec_description(ev.commits@)
}

/// Exactly the notification that an issue event produces.
pub open spec fn is_issue_embed(r: Embed, ev: IssueEvent) -> bool {
    &&& r.author.name@ == spec_truncated(ev.user.username@, AUTHOR_MAX_LENGTH as int)
    &&& r.author.icon_url@ == ev.user.avatar_url@
    &&& r.title.0@ == spec_truncated(spec_issue_title(ev), TITLE_MAX_LENGTH as int)
    &&& r.url@ == ev.attributes.url@
    &&& r.color == (if ev.attributes.state@ == "closed"@ {
        Color(0x1A, 0xAA, 0x55)
    } else {
        Color(0x1F, 0x78, 0xD1)
    })
    &&& r.footer.text@ == spec_truncated(ev.project.path_with_namespace@, FOOTER_MAX_LENGTH as int)
    &&& r.footer.icon_url@ == ev.project.avatar_url@
    &&& r.timestamp matches Some(t) && t@ == ev.attributes.created_at@
    &&& r.description is None
}

/// Exactly the notification that a merge-request event produces.
pub open spec fn is_merge_request_embed(r: Embed, ev: MergeRequestEvent) -> bool {
    &&& r.author.name@ == spec_truncated(ev.user.username@, AUTHOR_MAX_LENGTH as int)
    &&& r.author.icon_url@ == ev.user.avatar_url@
    &&& r.title.0@ == spec_truncated(spec_merge_request_title(ev), TITLE_MAX_LENGTH as int)
    &&& r.url@ == ev.attributes.url@
    &&& r.color == (if ev.attributes.state@ == "closed"@ {
        Color(0xFC, 0x94, 0x03)
    } else if ev.attributes.state@ == "merged"@ {
        Color(0x1A, 0xAA, 0x55)
    } else {
        Color(0x1F, 0x78, 0xD1)
    })
    &&& r.footer.text@ == spec_truncated(ev.project.path_with_namespace@, FOOTER_MAX_LENGTH as int)
    &&& r.footer.icon_url@ == ev.project.avatar_url@
    &&& r.timestamp matches Some(t) && t@ == ev.attributes.created_at@
    &&& r.description is None
}

/// Exactly the notification that a pipeline event produces.
pub open spec fn is_pipeline_embed(r: Embed, ev: PipelineEvent) -> bool {
    &&& r.author.name@ == spec_truncated(ev.user.username@, AUTHOR_MAX_LENGTH as int)
    &&& r.author.icon_url@ == ev.user.avatar_url@
    &&& r.title.0@ == spec_truncated(spec_pipeline_title(ev), TITLE_MAX_LENGTH as int)
    &&& r.url@ == ev.commit.url@
    &&& r.color == (if ev.attributes.status@ == "success"@ {
        Color(0x1A, 0xAA, 0x55)
    } else if ev.attributes.status@ == "failed"@ {
        Color(0xDB, 0x3B, 0x21)
    } else {
        Color(0x1F, 0x78, 0xD1)
    })
    &&& r.footer.text@ == spec_truncated(ev.project.path_with_namespace@, FOOTER_MAX_LENGTH as int)
    &&& r.footer.icon_url@ == ev.project.avatar_url@
    &&& r.timestamp matches Some(t) && t@ == ev.attributes.created_at@
    &&& r.description is None
}

/// The push title carries the commit count: whenever the project name
/// and the count's digits fit the title bound together, the digits of
/// the count stand in the truncated title right after the name and its
/// separator.
pub proof fn lemma_push_title_contains_count(ev: PushEvent)
    requires
        ev.project.name@.len() + 3 + spec_decimal(ev.total_commits_count as nat).len()
            <= TITLE_MAX_LENGTH,
    ensures
        ({
            let t = spec_truncated(spec_push_title(ev), TITLE_MAX_LENGTH as int);
            let d = spec_decimal(ev.total_commits_count as nat);
            let off = ev.project.name@.len() as int + 3;
            t.subrange(off, off + d.len()) == d
        }),
{
    reveal_strlit(" - ");
    let full = spec_push_title(ev);
    let d = spec_decimal(ev.total_commits_count as nat);
    let off = ev.project.name@.len() as int + 3;
    assert(" - "@.len() == 3);
    assert(full.subrange(off, off + d.len()) =~= d);
    let t = spec_truncated(full, TITLE_MAX_LENGTH as int);
    if full.len() > TITLE_MAX_LENGTH {
        assert(t =~= full.take(TITLE_MAX_LENGTH as int));
        assert(t.subrange(off, off + d.len()) =~= full.subrange(off, off + d.len()));
    }
    assert(t.subrange(off, off + d.len()) =~= d);
}

impl Embed {
    /// The notification for a push: commit count and branch in the
    /// title, the kept commit lines as description.
    pub fn from_push(ev: PushEvent) -> (r: Embed)
        ensures
            is_push_embed(r, ev),
    {
        let description = join_commit_lines(&ev.commits);
        let branch = last_segment(ev.git_ref.as_str());
        let count = u64_to_string(ev.total_commits_count);
        let title_text = ev.project.name.clone().concat(" - ").concat(count.as_str()).concat(
            " new commits in ",
        ).concat(branch.as_str());
        proof {
            assert(title_text@ =~= spec_push_title(ev));
        }
        Embed {
            author: Author::new(ev.username, ev.user_avatar),
            title: Title::new(title_text),
            url: ev.project.web_url,
            color: Color::info(),
            footer: Footer::new(ev.project.path_with_namespace, ev.project.avatar_url),
            timestamp: None,
            description: Some(description),
        }
    }

    /// The notification for an issue event; closed issues are colored
    /// as resolved.
    pub fn from_issue(ev: IssueEvent) -> (r: Embed)
        ensures
            is_issue_embed(r, ev),
    {
        let n = u64_to_string(ev.attributes.issue_id);
        let title_text = ev.project.name.clone().concat(" - Issue ").concat(
            ev.attributes.state.as_str(),
        ).concat(": #").concat(n.as_str()).concat(" ").concat(ev.attributes.title.as_str());
        proof {
            assert(title_text@ =~= spec_issue_title(ev));
        }
        let color = if str_eq(ev.attributes.state.as_str(), "closed") {
            Color::good()
        } else {
            Color::info()
        };
        Embed {
            author: Author::new(ev.user.username, ev.user.avatar_url),
            title: Title::new(title_text),
            url: ev.attributes.url,
            color,
            footer: Footer::new(ev.project.path_with_namespace, ev.project.avatar_url),
            timestamp: Some(ev.attributes.created_at),
            description: None,
        }
    }

    /// The notification for a merge-request event; closed and merged
    /// requests are colored apart.
    pub fn from_merge_request(ev: MergeRequestEvent) -> (r: Embed)
        ensures
            is_merge_request_embed(r, ev),
    {
        let n = u64_to_string(ev.attributes.issue_id);
        let title_text = ev.project.name.clone().concat(" - Merge request ").concat(
            ev.attributes.state.as_str(),
        ).concat(": !").concat(n.as_str()).concat(" ").concat(ev.attributes.title.as_str());
        proof {
            assert(title_text@ =~= spec_merge_request_title(ev));
        }
        let color = if str_eq(ev.attributes.state.as_str(), "closed") {
            Color::alert()
        } else if str_eq(ev.attributes.state.as_str(), "merged") {
            Color::good()
        } else {
            Color::info()
        };
        Embed {
            author: Author::new(ev.user.username, ev.user.avatar_url),
            title: Title::new(title_text),
            url: ev.attributes.url,
            color,
            footer: Footer::new(ev.project.path_with_namespace, ev.project.avatar_url),
            timestamp: Some(ev.attributes.created_at),
            description: None,
        }
    }

    /// The notification for a pipeline event; success and failure are
    /// colored apart.
    pub fn from_pipeline(ev: PipelineEvent) -> (r: Embed)
        ensures
            is_pipeline_embed(r, ev),
    {
        let n = u64_to_string(ev.attributes.id);
        let title_text = ev.project.name.clone().concat(" - Pipeline for ").concat(
            ev.attributes.git_ref.as_str(),
        ).concat(" ").concat(ev.attributes.detailed_status.as_str()).concat(" (").concat(
            n.as_str(),
        ).concat(")");
        proof {
            assert(title_text@ =~= spec_pipeline_title(ev));
        }
        let color = if str_eq(ev.attributes.status.as_str(), "success") {
            Color::good()
        } else if str_eq(ev.attributes.status.as_str(), "failed") {
            Color::bad()
        } else {
            Color::info()
        };
        Embed {
            author: Author::new(ev.user.username, ev.user.avatar_url),
            title: Title::new(title_text),
            url: ev.commit.url,
            color,
            footer: Footer::new(ev.project.path_with_namespace, ev.project.avatar_url),
            timestamp: Some(ev.attributes.created_at),
            description: None,
        }
    }
}

} // verus!
