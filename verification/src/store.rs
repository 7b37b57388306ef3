//! The hook registry: the authoritative, in-memory collection of relay
//! configurations, keyed by an opaque identifier that the registry
//! itself generates. Persistence is a mirror kept by the caller around
//! these operations; the registry is the single source of truth.
use vstd::prelude::*;

use crate::text::str_eq;

verus! {

/// The canonical rendering that the identifier parser gives to a piece
/// of text: `None` when the text is not an identifier, else the
/// hyphenated lowercase form.
pub uninterp spec fn uuid_canon_of(s: Seq<char>) -> Option<Seq<char>>;

/// Relies on `uuid::Uuid::new_v4` and the hyphenated `Display` of
/// `uuid::Uuid`: a freshly generated identifier, rendered as 36
/// hyphenated lowercase characters, parses back to itself.
#[verifier::external_body]
fn uuid_generate() -> (r: String)
    ensures
        r@.len() == 36,
        uuid_canon_of(r@) == Some(r@),
{
    uuid::Uuid::new_v4().to_string()
}

/// Relies on `uuid::Uuid::parse_str`: it accepts exactly the textual
/// forms of an identifier, and the parsed value displays as the
/// canonical hyphenated lowercase form, which parses back to itself.
#[verifier::external_body]
fn uuid_parse(s: &str) -> (r: Option<String>)
    ensures
        match r {
            Some(c) => uuid_canon_of(s@) == Some(c@) && uuid_canon_of(c@) == Some(c@) && c@.len()
                == 36,
            None => uuid_canon_of(s@) is None,
        },
{
    match uuid::Uuid::parse_str(s) {
        Ok(u) => Some(u.to_string()),
        Err(_) => None,
    }
}

/// Relies on `chrono::Utc::now` and `to_rfc3339`: the current wall
/// clock, rendered as text. Nothing is assumed of the value.
#[verifier::external_body]
pub(crate) fn now_timestamp() -> String {
    chrono::Utc::now().to_rfc3339()
}

/// An opaque hook identifier: canonical text of a generated uuid.
#[derive(Debug, Clone, PartialEq, Eq)]
pub struct HookId {
    id: String,
}

impl View for HookId {
    type V = Seq<char>;

    closed spec fn view(&self) -> Seq<char> {
        self.id@
    }
}

impl HookId {
    /// A well-formed identifier is in canonical form: parsing it gives
    /// it back unchanged.
    pub open spec fn wf(&self) -> bool {
        uuid_canon_of(self@) == Some(self@)
    }

    /// Generates a fresh identifier.
    pub fn new() -> (r: Self)
        ensures
            r.wf(),
            r@.len() == 36,
    {
        HookId { id: uuid_generate() }
    }

    /// Parses caller-supplied text into an identifier; malformed text
    /// is rejected.
    pub fn try_from(s: &str) -> (r: Result<Self, StoreError>)
        ensures
            match r {
                Ok(h) => uuid_canon_of(s@) == Some(h@) && h.wf(),
                Err(e) => e == StoreError::InvalidId && uuid_canon_of(s@) is None,
            },
    {
        match uuid_parse(s) {
            Some(c) => Ok(HookId { id: c }),
            None => Err(StoreError::InvalidId),
        }
    }

    /// The identifier's text.
    pub fn as_str(&self) -> (r: &str)
        ensures
            r@ == self@,
    {
        self.id.as_str()
    }
}

/// Why a registry operation failed: a malformed identifier is its own
/// error, distinct from an identifier that is well-formed but unknown.
#[derive(Debug, Clone, Copy, PartialEq, Eq, Structural)]
pub enum StoreError {
    InvalidId,
    NotFound,
}

/// One relay configuration: the secret the source must present, and
/// the sink URL notifications are delivered to.
#[derive(Debug, Clone, PartialEq, Eq)]
pub struct HookConfig {
    pub id: HookId,
    pub description: String,
    pub gitlab_token: String,
    pub discord_url: String,
    pub created_at: String,
}

impl HookConfig {
    /// An equal copy of the configuration.
    pub fn duplicate(&self) -> (r: Self)
        ensures
            r == *self,
    {
        clone_config(self)
    }
}

/// The mathematical content of a configuration.
pub struct HookData {
    pub id: Seq<char>,
    pub description: Seq<char>,
    pub gitlab_token: Seq<char>,
    pub discord_url: Seq<char>,
    pub created_at: Seq<char>,
}

impl View for HookConfig {
    type V = HookData;

    open spec fn view(&self) -> HookData {
        HookData {
            id: self.id@,
            description: self.description@,
            gitlab_token: self.gitlab_token@,
            discord_url: self.discord_url@,
            created_at: self.created_at@,
        }
    }
}

pub open spec fn has_id(s: Seq<HookData>, k: Seq<char>) -> bool {
    exists|i: int| 0 <= i < s.len() && s[i].id == k
}

pub open spec fn index_of_id(s: Seq<HookData>, k: Seq<char>) -> int {
    choose|i: int| 0 <= i < s.len() && s[i].id == k
}

/// The configurations of `s` as a map from identifier to entry.
pub open spec fn entries_map(s: Seq<HookData>) -> Map<Seq<char>, HookData> {
    Map::new(|k: Seq<char>| has_id(s, k), |k: Seq<char>| s[index_of_id(s, k)])
}

fn clone_config(c: &HookConfig) -> (r: HookConfig)
    ensures
        r == *c,
{
    HookConfig {
        id: HookId { id: c.id.id.clone() },
        description: c.description.clone(),
        gitlab_token: c.gitlab_token.clone(),
        discord_url: c.discord_url.clone(),
        created_at: c.created_at.clone(),
    }
}

/// The set of registered hooks.
pub struct HookRegistry {
    inner: Vec<HookConfig>,
}

impl HookRegistry {
    /// The registered entries, in insertion order.
    pub closed spec fn entries(&self) -> Seq<HookData> {
        self.inner@.map_values(|c: HookConfig| c@)
    }

    /// The registry as a map from identifier to configuration.
    pub open spec fn contents(&self) -> Map<Seq<char>, HookData> {
        entries_map(self.entries())
    }

    /// No identifier occurs twice.
    pub open spec fn wf(&self) -> bool {
        forall|i: int, j: int|
            0 <= i < j < self.entries().len() ==> self.entries()[i].id != self.entries()[j].id
    }

    /// An empty registry.
    pub fn new() -> (r: Self)
        ensures
            r.wf(),
            r.entries() == Seq::<HookData>::empty(),
    {
        let r = HookRegistry { inner: Vec::new() };
        proof {
            assert(r.entries() =~= Seq::<HookData>::empty());
        }
        r
    }

    /// Rebuilds the registry from the entries of the persistence
    /// mirror; a later entry with an already-seen identifier overwrites
    /// the earlier one.
    pub fn load(configs: Vec<HookConfig>) -> (r: Self)
        ensures
            r.wf(),
            r.contents() == configs_map(configs@.map_values(|c: HookConfig| c@)),
    {
        let ghost all = configs@.map_values(|c: HookConfig| c@);
        let mut r = HookRegistry::new();
        let mut i: usize = 0;
        proof {
            assert(all.take(0) =~= Seq::<HookData>::empty());
            assert(r.contents() =~= configs_map(all.take(0)));
        }
        while i < configs.len()
            invariant
                all == configs@.map_values(|c: HookConfig| c@),
                i <= configs.len(),
                r.wf(),
                r.contents() == configs_map(all.take(i as int)),
            decreases configs.len() - i,
        {
            let c = clone_config(&configs[i]);
            r.insert(c);
            proof {
                assert(all.take(i + 1).drop_last() =~= all.take(i as int));
                assert(all.take(i + 1).last() == all[i as int]);
            }
            i += 1;
        }
        proof {
            assert(all.take(configs@.len() as int) =~= all);
        }
        r
    }

    /// A snapshot of every configuration.
    pub fn all(&self) -> (r: Vec<HookConfig>)
        ensures
            r@.map_values(|c: HookConfig| c@) == self.entries(),
    {
        let mut out: Vec<HookConfig> = Vec::new();
        let mut i: usize = 0;
        while i < self.inner.len()
            invariant
                i <= self.inner@.len(),
                out@.len() == i,
                forall|j: int| 0 <= j < i ==> out@[j]@ == self.entries()[j],
            decreases self.inner@.len() - i,
        {
            out.push(clone_config(&self.inner[i]));
            i += 1;
        }
        proof {
            assert(out@.map_values(|c: HookConfig| c@) =~= self.entries());
        }
        out
    }

    /// Looks an identifier up. A malformed identifier is `InvalidId`;
    /// a well-formed identifier with no entry is `NotFound`; otherwise
    /// the entry is returned.
    pub fn get(&self, id: &str) -> (r: Result<HookConfig, StoreError>)
        requires
            self.wf(),
        ensures
            match uuid_canon_of(id@) {
                Some(c) => {
                    if entries_map(self.entries()).contains_key(c) {
                        r is Ok && r->Ok_0@ == entries_map(self.entries())[c]
                    } else {
                        r == Result::<HookConfig, StoreError>::Err(StoreError::NotFound)
                    }
                },
                None => r == Result::<HookConfig, StoreError>::Err(StoreError::InvalidId),
            },
    {
        let canon = match uuid_parse(id) {
            Some(c) => c,
            None => {
                return Err(StoreError::InvalidId);
            },
        };
        match self.find_index(canon.as_str()) {
            Some(i) => {
                proof {
                    self.lemma_found_is_map_entry(canon@, i as int);
                }
                Ok(clone_config(&self.inner[i]))
            },
            None => Err(StoreError::NotFound),
        }
    }

    /// Registers or overwrites a configuration, keyed by its
    /// identifier: an upsert, idempotent in the size of the registry.
    pub fn insert(&mut self, config: HookConfig)
        requires
            old(self).wf(),
        ensures
            final(self).wf(),
            final(self).contents() == old(self).contents().insert(config@.id, config@),
            final(self).entries().len() == if has_id(old(self).entries(), config@.id) {
                old(self).entries().len()
            } else {
                old(self).entries().len() + 1
            },
    {
        let ghost pre = self.entries();
        match self.find_index(config.id.as_str()) {
            Some(i) => {
                self.inner[i] = config;
                proof {
                    assert(self.entries() =~= pre.update(i as int, config@));
                    self.lemma_update_is_map_insert(pre, i as int, config@);
                }
            },
            None => {
                self.inner.push(config);
                proof {
                    assert(self.entries() =~= pre.push(config@));
                    self.lemma_push_is_map_insert(pre, config@);
                }
            },
        }
    }

    /// Unregisters an identifier. Errors exactly as `get` does.
    pub fn delete(&mut self, id: &str) -> (r: Result<(), StoreError>)
        requires
            old(self).wf(),
        ensures
            final(self).wf(),
            match uuid_canon_of(id@) {
                Some(c) => {
                    if entries_map(old(self).entries()).contains_key(c) {
                        r is Ok && final(self).contents() == old(self).contents().remove(c)
                            && final(self).entries().len() == old(self).entries().len() - 1
                    } else {
                        r == Result::<(), StoreError>::Err(StoreError::NotFound) && *final(self)
                            == *old(self)
                    }
                },
                None => r == Result::<(), StoreError>::Err(StoreError::InvalidId) && *final(self)
                    == *old(self),
            },
    {
        let canon = match uuid_parse(id) {
            Some(c) => c,
            None => {
                return Err(StoreError::InvalidId);
            },
        };
        let ghost pre = self.entries();
        match self.find_index(canon.as_str()) {
            Some(i) => {
                self.inner.remove(i);
                proof {
                    assert(self.entries() =~= pre.remove(i as int));
                    self.lemma_remove_is_map_remove(pre, i as int);
                }
                Ok(())
            },
            None => Err(StoreError::NotFound),
        }
    }

    /// Index of the entry whose identifier is `k`, if any.
    fn find_index(&self, k: &str) -> (r: Option<usize>)
        ensures
            match r {
                Some(i) => i < self.entries().len() && self.entries()[i as int].id == k@
                    && forall|j: int| 0 <= j < i ==> self.entries()[j].id != k@,
                None => !has_id(self.entries(), k@),
            },
    {
        let mut i: usize = 0;
        while i < self.inner.len()
            invariant
                i <= self.entries().len(),
                forall|j: int| 0 <= j < i ==> self.entries()[j].id != k@,
            decreases self.inner@.len() - i,
        {
            if str_eq(self.inner[i].id.as_str(), k) {
                return Some(i);
            }
            i += 1;
        }
        None
    }

    proof fn lemma_found_is_map_entry(&self, c: Seq<char>, i: int)
        requires
            self.wf(),
            0 <= i < self.entries().len(),
            self.entries()[i].id == c,
        ensures
            entries_map(self.entries()).contains_key(c),
            entries_map(self.entries())[c] == self.entries()[i],
    {
        let s = self.entries();
        assert(has_id(s, c));
        let j = index_of_id(s, c);
        assert(0 <= j < s.len() && s[j].id == c);
        if i != j {
            assert(s[i].id != s[j].id);
        }
    }

    proof fn lemma_update_is_map_insert(&self, pre: Seq<HookData>, i: int, d: HookData)
        requires
            0 <= i < pre.len(),
            pre[i].id == d.id,
            forall|p: int, q: int| 0 <= p < q < pre.len() ==> pre[p].id != pre[q].id,
            self.entries() == pre.update(i, d),
        ensures
            self.wf(),
            self.contents() == entries_map(pre).insert(d.id, d),
    {
        let post = self.entries();
        assert forall|p: int, q: int|
            0 <= p < q < post.len() implies post[p].id != post[q].id by {
            assert(pre[p].id != pre[q].id);
        }
        assert forall|k: Seq<char>| has_id(post, k) <==> has_id(pre, k) || k == d.id by {
            if has_id(post, k) {
                let a = choose|a: int| 0 <= a < post.len() && post[a].id == k;
                if a == i {
                    assert(k == d.id);
                } else {
                    assert(pre[a].id == k);
                    assert(has_id(pre, k));
                }
            }
            if has_id(pre, k) {
                let a = choose|a: int| 0 <= a < pre.len() && pre[a].id == k;
                if a == i {
                    assert(pre[i].id == d.id);
                    assert(post[i].id == k);
                } else {
                    assert(post[a].id == k);
                }
                assert(has_id(post, k));
            }
            if k == d.id {
                assert(post[i].id == k);
                assert(has_id(post, k));
            }
        }
        assert forall|k: Seq<char>| #[trigger]
            entries_map(post).contains_key(k) implies entries_map(post)[k] == entries_map(
            pre,
        ).insert(d.id, d)[k] by {
            let a = index_of_id(post, k);
            assert(0 <= a < post.len() && post[a].id == k);
            if k == d.id {
                if a != i {
                    assert(post[a].id == pre[a].id);
                    assert(pre[a].id != pre[i].id);
                }
                assert(entries_map(post)[k] == d);
            } else {
                assert(a != i);
                assert(pre[a].id == k);
                let b = index_of_id(pre, k);
                assert(0 <= b < pre.len() && pre[b].id == k);
                if a != b {
                    assert(pre[a].id != pre[b].id);
                }
                assert(entries_map(post)[k] == pre[b]);
            }
        }
        assert(self.contents() =~= entries_map(pre).insert(d.id, d));
    }

    proof fn lemma_push_is_map_insert(&self, pre: Seq<HookData>, d: HookData)
        requires
            !has_id(pre, d.id),
            forall|p: int, q: int| 0 <= p < q < pre.len() ==> pre[p].id != pre[q].id,
            self.entries() == pre.push(d),
        ensures
            self.wf(),
            self.contents() == entries_map(pre).insert(d.id, d),
    {
        let post = self.entries();
        let n = pre.len() as int;
        assert forall|p: int, q: int|
            0 <= p < q < post.len() implies post[p].id != post[q].id by {
            if q < n {
                assert(pre[p].id != pre[q].id);
            } else {
                assert(post[q] == d);
                assert(post[p] == pre[p]);
                if post[p].id == d.id {
                    assert(has_id(pre, d.id));
                }
            }
        }
        assert forall|k: Seq<char>| has_id(post, k) <==> has_id(pre, k) || k == d.id by {
            if has_id(post, k) {
                let a = choose|a: int| 0 <= a < post.len() && post[a].id == k;
                if a == n {
                    assert(k == d.id);
                } else {
                    assert(pre[a].id == k);
                    assert(has_id(pre, k));
                }
            }
            if has_id(pre, k) {
                let a = choose|a: int| 0 <= a < pre.len() && pre[a].id == k;
                assert(post[a].id == k);
                assert(has_id(post, k));
            }
            if k == d.id {
                assert(post[n].id == k);
                assert(has_id(post, k));
            }
        }
        assert forall|k: Seq<char>| #[trigger]
            entries_map(post).contains_key(k) implies entries_map(post)[k] == entries_map(
            pre,
        ).insert(d.id, d)[k] by {
            let a = index_of_id(post, k);
            assert(0 <= a < post.len() && post[a].id == k);
            if k == d.id {
                if a != n {
                    assert(pre[a].id == k);
                    assert(has_id(pre, d.id));
                }
                assert(entries_map(post)[k] == d);
            } else {
                assert(a != n);
                assert(pre[a].id == k);
                let b = index_of_id(pre, k);
                assert(0 <= b < pre.len() && pre[b].id == k);
                if a != b {
                    assert(pre[a].id != pre[b].id);
                }
                assert(entries_map(post)[k] == pre[b]);
            }
        }
        assert(self.contents() =~= entries_map(pre).insert(d.id, d));
    }

    proof fn lemma_remove_is_map_remove(&self, pre: Seq<HookData>, i: int)
        requires
            0 <= i < pre.len(),
            forall|p: int, q: int| 0 <= p < q < pre.len() ==> pre[p].id != pre[q].id,
            self.entries() == pre.remove(i),
        ensures
            self.wf(),
            self.contents() == entries_map(pre).remove(pre[i].id),
    {
        let post = self.entries();
        let c = pre[i].id;
        assert forall|p: int, q: int|
            0 <= p < q < post.len() implies post[p].id != post[q].id by {
            let p0 = if p < i {
                p
            } else {
                p + 1
            };
            let q0 = if q < i {
                q
            } else {
                q + 1
            };
            assert(post[p] == pre[p0]);
            assert(post[q] == pre[q0]);
            assert(pre[p0].id != pre[q0].id);
        }
        assert forall|k: Seq<char>| has_id(post, k) <==> (has_id(pre, k) && k != c) by {
            if has_id(post, k) {
                let a = choose|a: int| 0 <= a < post.len() && post[a].id == k;
                let a0 = if a < i {
                    a
                } else {
                    a + 1
                };
                assert(pre[a0].id == k);
                assert(has_id(pre, k));
                if k == c {
                    assert(pre[a0].id == pre[i].id);
                    assert(a0 != i);
                }
            }
            if has_id(pre, k) && k != c {
                let a = choose|a: int| 0 <= a < pre.len() && pre[a].id == k;
                assert(a != i);
                let a1 = if a < i {
                    a
                } else {
                    a - 1
                };
                assert(post[a1].id == k);
                assert(has_id(post, k));
            }
        }
        assert forall|k: Seq<char>| #[trigger]
            entries_map(post).contains_key(k) implies entries_map(post)[k] == entries_map(
            pre,
        ).remove(c)[k] by {
            let a = index_of_id(post, k);
            assert(0 <= a < post.len() && post[a].id == k);
            let a0 = if a < i {
                a
            } else {
                a + 1
            };
            assert(pre[a0].id == k);
            let b = index_of_id(pre, k);
            assert(0 <= b < pre.len() && pre[b].id == k);
            if a0 != b {
                assert(pre[a0].id != pre[b].id);
            }
            assert(entries_map(post)[k] == pre[b]);
        }
        assert(self.contents() =~= entries_map(pre).remove(c));
    }
}

impl Default for HookRegistry {
    /// An empty registry.
    fn default() -> (r: Self)
        ensures
            r.wf(),
            r.entries() == Seq::<HookData>::empty(),
    {
        HookRegistry::new()
    }
}

/// The map that a sequence of loaded entries denotes: each entry
/// upserted in order, so the last occurrence of an identifier wins.
pub open spec fn configs_map(s: Seq<HookData>) -> Map<Seq<char>, HookData>
    decreases s.len(),
{
    if s.len() == 0 {
        Map::empty()
    } else {
        configs_map(s.drop_last()).insert(s.last().id, s.last())
    }
}

/// Round trip: after an upsert of `c`, its identifier maps to exactly
/// `c`; after a removal of that identifier, it maps to nothing.
pub proof fn lemma_insert_get_delete_round_trip(m: Map<Seq<char>, HookData>, c: HookData)
    ensures
        m.insert(c.id, c).contains_key(c.id),
        m.insert(c.id, c)[c.id] == c,
        !m.insert(c.id, c).remove(c.id).contains_key(c.id),
{
}

/// Idempotence: upserting the same identifier twice leaves the same
/// registry as upserting it once, so the second upsert neither
/// duplicates nor grows the contents.
pub proof fn lemma_insert_idempotent(m: Map<Seq<char>, HookData>, c1: HookData, c2: HookData)
    requires
        c1.id == c2.id,
    ensures
        m.insert(c1.id, c1).insert(c2.id, c2) == m.insert(c2.id, c2),
        m.insert(c1.id, c1).insert(c2.id, c2).dom() == m.insert(c1.id, c1).dom(),
{
    assert(m.insert(c1.id, c1).insert(c2.id, c2) =~= m.insert(c2.id, c2));
    assert(m.insert(c1.id, c1).insert(c2.id, c2).dom() =~= m.insert(c1.id, c1).dom());
}

} // verus!
