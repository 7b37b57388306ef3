//! A method+path router. Patterns are slash-separated segment lists;
//! a segment beginning with `:` names a parameter that matches any one
//! path segment. Registration happens at startup and rejects a second
//! pattern of the same shape for a method; dispatch is read-only and
//! prefers static segments over parameters, so a registered pattern's
//! own text always reaches its handler.
use vstd::prelude::*;

use crate::text::{first_index_of, str_eq};

verus! {

/// The request methods the router distinguishes. A method+path with no
/// handler for that method is a miss; there is no method fallback.
#[derive(Debug, Clone, Copy, PartialEq, Eq, Hash, Structural)]
pub enum HttpMethod {
    Get,
    Post,
    Put,
    Delete,
}

/// The slash-separated segments of `s`; splitting keeps empty
/// segments, so `/a` is the two segments `` and `a`.
pub open spec fn spec_segments(s: Seq<char>) -> Seq<Seq<char>>
    decreases s.len(),
{
    if s.len() == 0 {
        seq![Seq::<char>::empty()]
    } else if s[0] == '/' {
        seq![Seq::<char>::empty()] + spec_segments(s.drop_first())
    } else {
        let rest = spec_segments(s.drop_first());
        seq![seq![s[0]] + rest[0]] + rest.drop_first()
    }
}

pub proof fn lemma_segments_nonempty(s: Seq<char>)
    ensures
        spec_segments(s).len() >= 1,
    decreases s.len(),
{
    if s.len() > 0 {
        lemma_segments_nonempty(s.drop_first());
    }
}

/// Appending one character extends the last segment, or `/` starts a
/// fresh empty one.
proof fn lemma_segments_snoc(s: Seq<char>, c: char)
    ensures
        c == '/' ==> spec_segments(s.push(c)) == spec_segments(s).push(Seq::<char>::empty()),
        c != '/' ==> spec_segments(s.push(c)) == spec_segments(s).update(
            spec_segments(s).len() - 1,
            spec_segments(s).last().push(c),
        ),
    decreases s.len(),
{
    lemma_segments_nonempty(s);
    if s.len() == 0 {
        if c == '/' {
            assert(s.push(c).drop_first() =~= s);
            assert(spec_segments(s.push(c)) =~= spec_segments(s).push(Seq::<char>::empty()));
        } else {
            assert(s.push(c).drop_first() =~= s);
            assert(seq![s.push(c)[0]] + spec_segments(s)[0] =~= spec_segments(s).last().push(c));
            assert(spec_segments(s.push(c)) =~= spec_segments(s).update(
                0,
                spec_segments(s).last().push(c),
            ));
        }
    } else {
        lemma_segments_snoc(s.drop_first(), c);
        lemma_segments_nonempty(s.drop_first());
        assert(s.push(c).drop_first() =~= s.drop_first().push(c));
        if s[0] == '/' {
            if c == '/' {
                assert(spec_segments(s.push(c)) =~= spec_segments(s).push(Seq::<char>::empty()));
            } else {
                assert(spec_segments(s.push(c)) =~= spec_segments(s).update(
                    spec_segments(s).len() - 1,
                    spec_segments(s).last().push(c),
                ));
            }
        } else {
            let rest = spec_segments(s.drop_first());
            let rest2 = spec_segments(s.drop_first().push(c));
            if c == '/' {
                assert(rest2 == rest.push(Seq::<char>::empty()));
                assert(rest2[0] == rest[0]);
                assert(spec_segments(s.push(c)) =~= spec_segments(s).push(Seq::<char>::empty()));
            } else {
                assert(rest2 == rest.update(rest.len() - 1, rest.last().push(c)));
                if rest.len() == 1 {
                    assert(spec_segments(s.push(c)) =~= spec_segments(s).update(
                        spec_segments(s).len() - 1,
                        spec_segments(s).last().push(c),
                    ));
                } else {
                    assert(rest2[0] == rest[0]);
                    assert(rest2.drop_first() =~= rest.drop_first().update(
                        rest.drop_first().len() - 1,
                        rest.drop_first().last().push(c),
                    ));
                    assert(spec_segments(s.push(c)) =~= spec_segments(s).update(
                        spec_segments(s).len() - 1,
                        spec_segments(s).last().push(c),
                    ));
                }
            }
        }
    }
}

/// The views of a vector of segment strings.
pub open spec fn seg_views(v: Seq<String>) -> Seq<Seq<char>> {
    v.map_values(|t: String| t@)
}

/// Splits a path into its slash-separated segments.
pub fn split_path(s: &str) -> (r: Vec<String>)
    ensures
        seg_views(r@) == spec_segments(s@),
{
    let n: usize = s.unicode_len();
    let mut out: Vec<String> = Vec::new();
    let mut start: usize = 0;
    let mut i: usize = 0;
    proof {
        assert(s@.take(0) =~= Seq::<char>::empty());
        assert(seg_views(out@).push(s@.subrange(0, 0)) =~= spec_segments(s@.take(0)));
    }
    while i < n
        invariant
            n == s@.len(),
            start <= i <= n,
            seg_views(out@).push(s@.subrange(start as int, i as int)) == spec_segments(
                s@.take(i as int),
            ),
        decreases n - i,
    {
        let c = s.get_char(i);
        proof {
            lemma_segments_snoc(s@.take(i as int), c);
            assert(s@.take(i as int).push(c) =~= s@.take(i + 1));
            lemma_segments_nonempty(s@.take(i as int));
        }
        if c == '/' {
            let seg = s.substring_char(start, i).to_owned();
            let ghost old_start = start as int;
            out.push(seg);
            start = i + 1;
            proof {
                assert(seg_views(out@) =~= seg_views(out@.drop_last()).push(
                    s@.subrange(old_start, i as int),
                ));
                assert(s@.subrange(start as int, i + 1) =~= Seq::<char>::empty());
                assert(seg_views(out@).push(s@.subrange(start as int, i + 1)) =~= spec_segments(
                    s@.take(i + 1),
                ));
            }
        } else {
            proof {
                assert(s@.subrange(start as int, i as int).push(c) =~= s@.subrange(
                    start as int,
                    i + 1,
                ));
                assert(seg_views(out@).push(s@.subrange(start as int, i + 1)) =~= spec_segments(
                    s@.take(i + 1),
                ));
            }
        }
        i += 1;
    }
    let last = s.substring_char(start, n).to_owned();
    out.push(last);
    proof {
        assert(s@.take(n as int) =~= s@);
        assert(seg_views(out@) =~= seg_views(out@.drop_last()).push(
            s@.subrange(start as int, n as int),
        ));
    }
    out
}

/// A pattern segment that names a parameter.
pub open spec fn is_param(seg: Seq<char>) -> bool {
    seg.len() > 0 && seg[0] == ':'
}

fn is_param_exec(seg: &String) -> (r: bool)
    ensures
        r == is_param(seg@),
{
    let n: usize = seg.as_str().unicode_len();
    n > 0 && seg.as_str().get_char(0) == ':'
}

/// One pattern segment against one path segment: a parameter matches
/// anything, a static segment only its own text.
pub open spec fn seg_matches(p: Seq<char>, s: Seq<char>) -> bool {
    if is_param(p) {
        true
    } else {
        p == s
    }
}

/// A whole pattern against a whole path, segment by segment.
pub open spec fn pat_matches(pat: Seq<Seq<char>>, path: Seq<Seq<char>>) -> bool {
    &&& pat.len() == path.len()
    &&& forall|i: int| 0 <= i < pat.len() ==> seg_matches(pat[i], path[i])
}

/// Two patterns of the same shape match exactly the same paths: equal
/// lengths, parameters in the same places, equal static segments.
pub open spec fn same_shape(a: Seq<Seq<char>>, b: Seq<Seq<char>>) -> bool {
    &&& a.len() == b.len()
    &&& forall|i: int|
        0 <= i < a.len() ==> (is_param(a[i]) == is_param(b[i]) && (!is_param(a[i]) ==> a[i]
            == b[i]))
}

/// Priority among patterns: at the first position where one is static
/// and the other a parameter, the static one wins.
pub open spec fn beats(a: Seq<Seq<char>>, b: Seq<Seq<char>>) -> bool
    decreases a.len(),
{
    if a.len() == 0 || b.len() == 0 {
        false
    } else if is_param(a[0]) == is_param(b[0]) {
        beats(a.drop_first(), b.drop_first())
    } else {
        !is_param(a[0])
    }
}

proof fn lemma_beats_asym(a: Seq<Seq<char>>, b: Seq<Seq<char>>)
    requires
        beats(a, b),
    ensures
        !beats(b, a),
    decreases a.len(),
{
    if a.len() > 0 && b.len() > 0 && is_param(a[0]) == is_param(b[0]) {
        lemma_beats_asym(a.drop_first(), b.drop_first());
    }
}

proof fn lemma_beats_trans(a: Seq<Seq<char>>, b: Seq<Seq<char>>, c: Seq<Seq<char>>)
    requires
        a.len() == b.len(),
        b.len() == c.len(),
        beats(a, b),
        beats(b, c),
    ensures
        beats(a, c),
    decreases a.len(),
{
    if a.len() > 0 {
        if is_param(a[0]) == is_param(b[0]) {
            if is_param(b[0]) == is_param(c[0]) {
                lemma_beats_trans(a.drop_first(), b.drop_first(), c.drop_first());
            }
        } else {
            assert(!is_param(a[0]));
        }
    }
}

/// Two distinct-shape patterns that match one path are ordered by
/// priority, one way or the other.
proof fn lemma_matches_totally_ordered(a: Seq<Seq<char>>, b: Seq<Seq<char>>, path: Seq<Seq<char>>)
    requires
        pat_matches(a, path),
        pat_matches(b, path),
        !same_shape(a, b),
    ensures
        beats(a, b) || beats(b, a),
    decreases a.len(),
{
    if a.len() == 0 {
        assert(same_shape(a, b));
    } else {
        if is_param(a[0]) == is_param(b[0]) {
            assert(!is_param(a[0]) ==> a[0] == path[0] && b[0] == path[0]);
            assert(!same_shape(a.drop_first(), b.drop_first())) by {
                assert forall|i: int|
                    0 <= i < a.drop_first().len() && is_param(a.drop_first()[i]) == is_param(
                        b.drop_first()[i],
                    ) && (!is_param(a.drop_first()[i]) ==> a.drop_first()[i] == b.drop_first()[i])
                        implies is_param(a[i + 1]) == is_param(b[i + 1]) && (!is_param(a[i + 1])
                        ==> a[i + 1] == b[i + 1]) by {}
                if same_shape(a.drop_first(), b.drop_first()) {
                    assert forall|i: int|
                        0 <= i < a.len() implies is_param(a[i]) == is_param(b[i]) && (!is_param(
                        a[i],
                    ) ==> a[i] == b[i]) by {
                        if i > 0 {
                            assert(a[i] == a.drop_first()[i - 1]);
                            assert(b[i] == b.drop_first()[i - 1]);
                        }
                    }
                    assert(same_shape(a, b));
                }
            }
            assert(pat_matches(a.drop_first(), path.drop_first())) by {
                assert forall|i: int| 0 <= i < a.drop_first().len() implies seg_matches(
                    a.drop_first()[i],
                    path.drop_first()[i],
                ) by {
                    assert(a.drop_first()[i] == a[i + 1]);
                    assert(path.drop_first()[i] == path[i + 1]);
                    assert(seg_matches(a[i + 1], path[i + 1]));
                }
            }
            assert(pat_matches(b.drop_first(), path.drop_first())) by {
                assert forall|i: int| 0 <= i < b.drop_first().len() implies seg_matches(
                    b.drop_first()[i],
                    path.drop_first()[i],
                ) by {
                    assert(seg_matches(b[i + 1], path[i + 1]));
                }
            }
            lemma_matches_totally_ordered(a.drop_first(), b.drop_first(), path.drop_first());
        }
    }
}

/// A pattern's own text, read as a path, is matched by the pattern and
/// out-prioritizes every other pattern that matches it.
proof fn lemma_pattern_self_priority(p: Seq<Seq<char>>, q: Seq<Seq<char>>)
    requires
        pat_matches(q, p),
        !same_shape(q, p),
    ensures
        beats(p, q),
    decreases p.len(),
{
    if p.len() == 0 {
        assert(same_shape(q, p));
    } else {
        assert(seg_matches(q[0], p[0]));
        if is_param(p[0]) && !is_param(q[0]) {
            assert(q[0] == p[0]);
            assert(is_param(q[0]));
        }
        if is_param(q[0]) == is_param(p[0]) {
            assert(!same_shape(q.drop_first(), p.drop_first())) by {
                if same_shape(q.drop_first(), p.drop_first()) {
                    assert forall|i: int|
                        0 <= i < q.len() implies is_param(q[i]) == is_param(p[i]) && (!is_param(
                        q[i],
                    ) ==> q[i] == p[i]) by {
                        if i > 0 {
                            assert(q[i] == q.drop_first()[i - 1]);
                            assert(p[i] == p.drop_first()[i - 1]);
                        } else {
                            assert(!is_param(q[0]) ==> q[0] == p[0]);
                        }
                    }
                    assert(same_shape(q, p));
                }
            }
            assert(pat_matches(q.drop_first(), p.drop_first())) by {
                assert forall|i: int| 0 <= i < q.drop_first().len() implies seg_matches(
                    q.drop_first()[i],
                    p.drop_first()[i],
                ) by {
                    assert(seg_matches(q[i + 1], p[i + 1]));
                }
            }
            lemma_pattern_self_priority(p.drop_first(), q.drop_first());
        } else {
            assert(!is_param(p[0]));
        }
    }
}

/// A pattern matches its own text read as a path.
proof fn lemma_pattern_matches_self(p: Seq<Seq<char>>)
    ensures
        pat_matches(p, p),
{
}

/// The parameters a matching pattern extracts from a path: for each
/// parameter segment, its name (without the `:`) paired with the path
/// segment it matched, in order.
pub open spec fn spec_params(pat: Seq<Seq<char>>, path: Seq<Seq<char>>) -> Seq<
    (Seq<char>, Seq<char>),
>
    decreases pat.len(),
{
    if pat.len() == 0 {
        Seq::empty()
    } else {
        let rest = spec_params(pat.drop_first(), path.drop_first());
        if is_param(pat[0]) {
            seq![(pat[0].drop_first(), path[0])] + rest
        } else {
            rest
        }
    }
}

proof fn lemma_params_snoc(pat: Seq<Seq<char>>, path: Seq<Seq<char>>, p: Seq<char>, s: Seq<char>)
    requires
        pat.len() == path.len(),
    ensures
        spec_params(pat.push(p), path.push(s)) == if is_param(p) {
            spec_params(pat, path).push((p.drop_first(), s))
        } else {
            spec_params(pat, path)
        },
    decreases pat.len(),
{
    if pat.len() == 0 {
        assert(pat.push(p).drop_first() =~= pat);
        assert(path.push(s).drop_first() =~= path);
        if is_param(p) {
            assert(spec_params(pat.push(p), path.push(s)) =~= spec_params(pat, path).push(
                (p.drop_first(), s),
            ));
        }
    } else {
        assert(pat.push(p).drop_first() =~= pat.drop_first().push(p));
        assert(path.push(s).drop_first() =~= path.drop_first().push(s));
        lemma_params_snoc(pat.drop_first(), path.drop_first(), p, s);
        if is_param(p) {
            assert(spec_params(pat.push(p), path.push(s)) =~= spec_params(pat, path).push(
                (p.drop_first(), s),
            ));
        } else {
            assert(spec_params(pat.push(p), path.push(s)) =~= spec_params(pat, path));
        }
    }
}

/// The first value bound to `name`, if any.
pub open spec fn spec_param_lookup(s: Seq<(Seq<char>, Seq<char>)>, name: Seq<char>) -> Option<
    Seq<char>,
>
    decreases s.len(),
{
    if s.len() == 0 {
        None
    } else if s[0].0 == name {
        Some(s[0].1)
    } else {
        spec_param_lookup(s.drop_first(), name)
    }
}

proof fn lemma_param_lookup_skip(s: Seq<(Seq<char>, Seq<char>)>, name: Seq<char>, i: int)
    requires
        0 <= i <= s.len(),
        forall|j: int| 0 <= j < i ==> s[j].0 != name,
    ensures
        spec_param_lookup(s, name) == spec_param_lookup(s.skip(i), name),
    decreases i,
{
    if i > 0 {
        lemma_param_lookup_skip(s, name, i - 1);
        assert(s.skip(i - 1).len() == s.len() - i + 1);
        assert(s.skip(i - 1)[0] == s[i - 1]);
        assert(s[i - 1].0 != name);
        assert(s.skip(i - 1).drop_first() =~= s.skip(i));
        assert(spec_param_lookup(s.skip(i - 1), name) == spec_param_lookup(
            s.skip(i - 1).drop_first(),
            name,
        ));
    } else {
        assert(s.skip(0) =~= s);
    }
}

/// The parameters one dispatch extracted, owned by that request.
pub struct Params {
    inner: Vec<(String, String)>,
}

impl View for Params {
    type V = Seq<(Seq<char>, Seq<char>)>;

    closed spec fn view(&self) -> Seq<(Seq<char>, Seq<char>)> {
        self.inner@.map_values(|p: (String, String)| (p.0@, p.1@))
    }
}

impl Params {
    /// The value matched for the parameter `name`, if the pattern
    /// bound one.
    pub fn param(&self, name: &str) -> (r: Option<&String>)
        ensures
            match r {
                Some(v) => spec_param_lookup(self@, name@) == Some(v@),
                None => spec_param_lookup(self@, name@) is None,
            },
    {
        let mut i: usize = 0;
        while i < self.inner.len()
            invariant
                i <= self.inner@.len(),
                forall|j: int| 0 <= j < i ==> self@[j].0 != name@,
            decreases self.inner@.len() - i,
        {
            if str_eq(self.inner[i].0.as_str(), name) {
                proof {
                    lemma_param_lookup_skip(self@, name@, i as int);
                    assert(self@.skip(i as int)[0] == self@[i as int]);
                }
                return Some(&self.inner[i].1);
            }
            i += 1;
        }
        proof {
            lemma_param_lookup_skip(self@, name@, self@.len() as int);
            assert(self@.skip(self@.len() as int) =~= Seq::<(Seq<char>, Seq<char>)>::empty());
        }
        None
    }
}

/// Builds the parameter list of a matching pattern.
fn build_params(pat: &Vec<String>, path: &Vec<String>) -> (r: Params)
    requires
        pat@.len() == path@.len(),
    ensures
        r@ == spec_params(seg_views(pat@), seg_views(path@)),
{
    let mut inner: Vec<(String, String)> = Vec::new();
    let mut i: usize = 0;
    proof {
        assert(seg_views(pat@).take(0) =~= Seq::<Seq<char>>::empty());
        assert(seg_views(path@).take(0) =~= Seq::<Seq<char>>::empty());
        assert(inner@.map_values(|p: (String, String)| (p.0@, p.1@)) =~= spec_params(
            seg_views(pat@).take(0),
            seg_views(path@).take(0),
        ));
    }
    while i < pat.len()
        invariant
            pat@.len() == path@.len(),
            i <= pat@.len(),
            inner@.map_values(|p: (String, String)| (p.0@, p.1@)) == spec_params(
                seg_views(pat@).take(i as int),
                seg_views(path@).take(i as int),
            ),
        decreases pat@.len() - i,
    {
        proof {
            lemma_params_snoc(
                seg_views(pat@).take(i as int),
                seg_views(path@).take(i as int),
                seg_views(pat@)[i as int],
                seg_views(path@)[i as int],
            );
            assert(seg_views(pat@).take(i as int).push(seg_views(pat@)[i as int]) =~= seg_views(
                pat@,
            ).take(i + 1));
            assert(seg_views(path@).take(i as int).push(seg_views(path@)[i as int]) =~= seg_views(
                path@,
            ).take(i + 1));
        }
        if is_param_exec(&pat[i]) {
            let n: usize = pat[i].as_str().unicode_len();
            let name = pat[i].as_str().substring_char(1, n).to_owned();
            let value = path[i].clone();
            inner.push((name, value));
            proof {
                assert(name@ =~= seg_views(pat@)[i as int].drop_first());
                assert(inner@.map_values(|p: (String, String)| (p.0@, p.1@)) =~= spec_params(
                    seg_views(pat@).take(i + 1),
                    seg_views(path@).take(i + 1),
                ));
            }
        }
        i += 1;
    }
    proof {
        assert(seg_views(pat@).take(pat@.len() as int) =~= seg_views(pat@));
        assert(seg_views(path@).take(path@.len() as int) =~= seg_views(path@));
    }
    Params { inner }
}

/// Checks a pattern against a path, segment by segment.
fn segs_match(pat: &Vec<String>, path: &Vec<String>) -> (r: bool)
    ensures
        r == pat_matches(seg_views(pat@), seg_views(path@)),
{
    if pat.len() != path.len() {
        proof {
            assert(seg_views(pat@).len() != seg_views(path@).len());
        }
        return false;
    }
    let mut i: usize = 0;
    while i < pat.len()
        invariant
            pat@.len() == path@.len(),
            i <= pat@.len(),
            forall|j: int| 0 <= j < i ==> seg_matches(seg_views(pat@)[j], seg_views(path@)[j]),
        decreases pat@.len() - i,
    {
        if !is_param_exec(&pat[i]) && !str_eq(pat[i].as_str(), path[i].as_str()) {
            proof {
                assert(seg_views(pat@)[i as int] == pat@[i as int]@);
                assert(seg_views(path@)[i as int] == path@[i as int]@);
                assert(!seg_matches(seg_views(pat@)[i as int], seg_views(path@)[i as int]));
            }
            return false;
        }
        proof {
            assert(seg_views(pat@)[i as int] == pat@[i as int]@);
            assert(seg_views(path@)[i as int] == path@[i as int]@);
        }
        i += 1;
    }
    true
}

/// Checks whether two patterns have the same shape.
fn shapes_equal(a: &Vec<String>, b: &Vec<String>) -> (r: bool)
    ensures
        r == same_shape(seg_views(a@), seg_views(b@)),
{
    if a.len() != b.len() {
        proof {
            assert(seg_views(a@).len() != seg_views(b@).len());
        }
        return false;
    }
    let mut i: usize = 0;
    while i < a.len()
        invariant
            a@.len() == b@.len(),
            i <= a@.len(),
            forall|j: int|
                0 <= j < i ==> (is_param(seg_views(a@)[j]) == is_param(seg_views(b@)[j]) && (
                !is_param(seg_views(a@)[j]) ==> seg_views(a@)[j] == seg_views(b@)[j])),
        decreases a@.len() - i,
    {
        let pa = is_param_exec(&a[i]);
        let pb = is_param_exec(&b[i]);
        proof {
            assert(seg_views(a@)[i as int] == a@[i as int]@);
            assert(seg_views(b@)[i as int] == b@[i as int]@);
        }
        if pa != pb {
            return false;
        }
        if !pa && !str_eq(a[i].as_str(), b[i].as_str()) {
            return false;
        }
        i += 1;
    }
    true
}

/// Compares two patterns' priority.
fn beats_exec(a: &Vec<String>, b: &Vec<String>) -> (r: bool)
    ensures
        r == beats(seg_views(a@), seg_views(b@)),
{
    let n: usize = if a.len() < b.len() {
        a.len()
    } else {
        b.len()
    };
    let mut i: usize = 0;
    proof {
        assert(seg_views(a@).skip(0) =~= seg_views(a@));
        assert(seg_views(b@).skip(0) =~= seg_views(b@));
    }
    while i < n
        invariant
            n == if a@.len() < b@.len() {
                a@.len()
            } else {
                b@.len()
            },
            i <= n,
            beats(seg_views(a@), seg_views(b@)) == beats(
                seg_views(a@).skip(i as int),
                seg_views(b@).skip(i as int),
            ),
        decreases n - i,
    {
        let pa = is_param_exec(&a[i]);
        let pb = is_param_exec(&b[i]);
        proof {
            let sa = seg_views(a@).skip(i as int);
            let sb = seg_views(b@).skip(i as int);
            assert(sa[0] == seg_views(a@)[i as int]);
            assert(sb[0] == seg_views(b@)[i as int]);
            assert(seg_views(a@)[i as int] == a@[i as int]@);
            assert(seg_views(b@)[i as int] == b@[i as int]@);
            assert(sa.drop_first() =~= seg_views(a@).skip(i + 1));
            assert(sb.drop_first() =~= seg_views(b@).skip(i + 1));
        }
        if pa != pb {
            return !pa;
        }
        i += 1;
    }
    proof {
        let sa = seg_views(a@).skip(i as int);
        let sb = seg_views(b@).skip(i as int);
        assert(sa.len() == 0 || sb.len() == 0);
    }
    false
}

/// Registration failures, reported when the routing table is built.
#[derive(Debug, Clone, Copy, PartialEq, Eq, Structural)]
pub enum RouteError {
    Duplicate,
}

/// One registered route.
pub struct RouteEntry<H> {
    pub method: HttpMethod,
    pub pattern: String,
    pub handler: H,
}

/// The routing table: immutable after startup registration, read-only
/// at request time.
pub struct Router<H> {
    routes: Vec<RouteEntry<H>>,
}

impl<H> Router<H> {
    /// The registered routes, in registration order.
    pub closed spec fn spec_routes(&self) -> Seq<RouteEntry<H>> {
        self.routes@
    }

    /// The segment list of route `i`'s pattern.
    pub open spec fn route_segs(&self, i: int) -> Seq<Seq<char>> {
        spec_segments(self.spec_routes()[i].pattern@)
    }

    /// Route `i` serves `method` and its pattern matches `path`.
    pub open spec fn route_matches(&self, i: int, method: HttpMethod, path: Seq<Seq<char>>) -> bool {
        &&& 0 <= i < self.spec_routes().len()
        &&& self.spec_routes()[i].method == method
        &&& pat_matches(self.route_segs(i), path)
    }

    /// No two routes of one method share a pattern shape, so no path
    /// has two matching routes of equal priority.
    pub open spec fn wf(&self) -> bool {
        forall|i: int, j: int|
            0 <= i < j < self.spec_routes().len() && self.spec_routes()[i].method
                == self.spec_routes()[j].method ==> !same_shape(
                self.route_segs(i),
                self.route_segs(j),
            )
    }

    /// A route of `method` whose pattern has the same shape as `path`
    /// is already registered.
    pub open spec fn has_shape(&self, method: HttpMethod, pattern: Seq<char>) -> bool {
        exists|j: int|
            0 <= j < self.spec_routes().len() && self.spec_routes()[j].method == method
                && same_shape(#[trigger] self.route_segs(j), spec_segments(pattern))
    }

    /// What a registration call did: a duplicate shape is rejected and
    /// the table is unchanged, otherwise the route is appended.
    pub open spec fn registered(
        pre: Self,
        post: Self,
        method: HttpMethod,
        pattern: Seq<char>,
        handler: H,
        r: Result<(), RouteError>,
    ) -> bool {
        let n = pre.spec_routes().len();
        if pre.has_shape(method, pattern) {
            &&& r == Result::<(), RouteError>::Err(RouteError::Duplicate)
            &&& post.spec_routes() == pre.spec_routes()
        } else {
            &&& r is Ok
            &&& post.spec_routes().len() == n + 1
            &&& forall|j: int| 0 <= j < n ==> post.spec_routes()[j] == pre.spec_routes()[j]
            &&& post.spec_routes()[n as int].method == method
            &&& post.spec_routes()[n as int].pattern@ == pattern
            &&& post.spec_routes()[n as int].handler == handler
        }
    }

    /// An empty routing table.
    pub fn new() -> (r: Self)
        ensures
            r.wf(),
            r.spec_routes().len() == 0,
    {
        Router { routes: Vec::new() }
    }

    /// Registers a handler for GET requests on `pattern`.
    pub fn get(&mut self, pattern: &str, handler: H) -> (r: Result<(), RouteError>)
        requires
            old(self).wf(),
        ensures
            final(self).wf(),
            Self::registered(*old(self), *final(self), HttpMethod::Get, pattern@, handler, r),
    {
        self.add_handler(HttpMethod::Get, pattern, handler)
    }

    /// Registers a handler for POST requests on `pattern`.
    pub fn post(&mut self, pattern: &str, handler: H) -> (r: Result<(), RouteError>)
        requires
            old(self).wf(),
        ensures
            final(self).wf(),
            Self::registered(*old(self), *final(self), HttpMethod::Post, pattern@, handler, r),
    {
        self.add_handler(HttpMethod::Post, pattern, handler)
    }

    /// Registers a handler for PUT requests on `pattern`.
    pub fn put(&mut self, pattern: &str, handler: H) -> (r: Result<(), RouteError>)
        requires
            old(self).wf(),
        ensures
            final(self).wf(),
            Self::registered(*old(self), *final(self), HttpMethod::Put, pattern@, handler, r),
    {
        self.add_handler(HttpMethod::Put, pattern, handler)
    }

    /// Registers a handler for DELETE requests on `pattern`.
    pub fn delete(&mut self, pattern: &str, handler: H) -> (r: Result<(), RouteError>)
        requires
            old(self).wf(),
        ensures
            final(self).wf(),
            Self::registered(*old(self), *final(self), HttpMethod::Delete, pattern@, handler, r),
    {
        self.add_handler(HttpMethod::Delete, pattern, handler)
    }

    fn add_handler(&mut self, method: HttpMethod, pattern: &str, handler: H) -> (r: Result<
        (),
        RouteError,
    >)
        requires
            old(self).wf(),
        ensures
            final(self).wf(),
            Self::registered(*old(self), *final(self), method, pattern@, handler, r),
    {
        let ghost pre = self.spec_routes();
        let psegs = split_path(pattern);
        let mut j: usize = 0;
        while j < self.routes.len()
            invariant
                old(self).wf(),
                old(self).spec_routes() == pre,
                self.spec_routes() == pre,
                seg_views(psegs@) == spec_segments(pattern@),
                j <= pre.len(),
                forall|k: int|
                    0 <= k < j ==> !(pre[k].method == method && same_shape(
                        #[trigger] spec_segments(pre[k].pattern@),
                        spec_segments(pattern@),
                    )),
            decreases pre.len() - j,
        {
            if self.routes[j].method == method {
                let qsegs = split_path(self.routes[j].pattern.as_str());
                if shapes_equal(&qsegs, &psegs) {
                    proof {
                        assert(self.route_segs(j as int) == spec_segments(pre[j as int].pattern@));
                        assert(self.spec_routes()[j as int].method == method && same_shape(
                            self.route_segs(j as int),
                            spec_segments(pattern@),
                        ));
                        assert(self.has_shape(method, pattern@));
                        assert forall|p: int, q: int|
                            0 <= p < q < self.spec_routes().len() && self.spec_routes()[p].method
                                == self.spec_routes()[q].method implies !same_shape(
                            self.route_segs(p),
                            self.route_segs(q),
                        ) by {
                            assert(old(self).wf());
                            assert(old(self).spec_routes() == pre);
                            assert(!same_shape(old(self).route_segs(p), old(self).route_segs(q)));
                            assert(old(self).route_segs(p) == self.route_segs(p));
                            assert(old(self).route_segs(q) == self.route_segs(q));
                        }
                    }
                    return Err(RouteError::Duplicate);
                }
            }
            j += 1;
        }
        proof {
            assert(!old(self).has_shape(method, pattern@)) by {
                if old(self).has_shape(method, pattern@) {
                    let k = choose|k: int|
                        0 <= k < pre.len() && pre[k].method == method && same_shape(
                            #[trigger] old(self).route_segs(k),
                            spec_segments(pattern@),
                        );
                    assert(old(self).route_segs(k) == spec_segments(pre[k].pattern@));
                }
            }
        }
        self.routes.push(RouteEntry { method, pattern: pattern.to_owned(), handler });
        proof {
            let n = pre.len() as int;
            let post = self.spec_routes();
            assert(post[n].pattern@ == pattern@);
            assert forall|i: int, j2: int|
                0 <= i < j2 < post.len() && post[i].method == post[j2].method implies !same_shape(
                self.route_segs(i),
                self.route_segs(j2),
            ) by {
                assert(post[i] == pre[i]);
                assert(self.route_segs(i) == spec_segments(pre[i].pattern@));
                if j2 < n {
                    assert(post[j2] == pre[j2]);
                    assert(old(self).wf());
                    assert(old(self).route_segs(i) == spec_segments(pre[i].pattern@));
                    assert(old(self).route_segs(j2) == spec_segments(pre[j2].pattern@));
                    assert(!same_shape(old(self).route_segs(i), old(self).route_segs(j2)));
                } else {
                    assert(self.route_segs(j2) == spec_segments(pattern@));
                    assert(!(pre[i].method == method && same_shape(
                        spec_segments(pre[i].pattern@),
                        spec_segments(pattern@),
                    )));
                }
            }
        }
        Ok(())
    }

    /// Selects the handler for `method` and `path`: among the routes
    /// of the method whose patterns match the path, the one of highest
    /// priority, with the parameters its pattern bound. `None` when no
    /// route of the method matches, whatever other methods would do.
    pub fn dispatch(&self, method: HttpMethod, path: &str) -> (r: Option<(&H, Params)>)
        requires
            self.wf(),
        ensures
            match r {
                Some((h, params)) => exists|i: int|
                    {
                        &&& #[trigger] self.route_matches(i, method, spec_segments(path@))
                        &&& forall|j: int|
                            self.route_matches(j, method, spec_segments(path@)) && j != i
                                ==> beats(self.route_segs(i), self.route_segs(j))
                        &&& *h == self.spec_routes()[i].handler
                        &&& params@ == spec_params(self.route_segs(i), spec_segments(path@))
                    },
                None => forall|i: int| !self.route_matches(i, method, spec_segments(path@)),
            },
    {
        let pathsegs = split_path(path);
        let mut best_idx: Option<usize> = None;
        let mut best_segs: Vec<String> = Vec::new();
        let mut idx: usize = 0;
        while idx < self.routes.len()
            invariant
                self.wf(),
                seg_views(pathsegs@) == spec_segments(path@),
                idx <= self.spec_routes().len(),
                match best_idx {
                    Some(b) => {
                        &&& (b as int) < idx
                        &&& self.route_matches(b as int, method, spec_segments(path@))
                        &&& seg_views(best_segs@) == self.route_segs(b as int)
                        &&& forall|j: int|
                            self.route_matches(j, method, spec_segments(path@)) && j < idx && j != b
                                ==> beats(self.route_segs(b as int), self.route_segs(j))
                    },
                    None => forall|j: int|
                        j < idx ==> !self.route_matches(j, method, spec_segments(path@)),
                },
            decreases self.spec_routes().len() - idx,
        {
            if self.routes[idx].method == method {
                let psegs = split_path(self.routes[idx].pattern.as_str());
                if segs_match(&psegs, &pathsegs) {
                    proof {
                        assert(self.route_segs(idx as int) == seg_views(psegs@));
                        assert(self.route_matches(idx as int, method, spec_segments(path@)));
                    }
                    let take = match best_idx {
                        None => true,
                        Some(_) => beats_exec(&psegs, &best_segs),
                    };
                    if take {
                        proof {
                            let path_s = spec_segments(path@);
                            if let Some(bi) = best_idx {
                                assert forall|j: int|
                                    self.route_matches(j, method, path_s) && j < idx + 1 && j != idx
                                        implies beats(
                                    self.route_segs(idx as int),
                                    self.route_segs(j),
                                ) by {
                                    if j != bi as int {
                                        assert(beats(
                                            self.route_segs(bi as int),
                                            self.route_segs(j),
                                        ));
                                        lemma_segments_same_len(
                                            self.route_segs(idx as int),
                                            self.route_segs(bi as int),
                                            self.route_segs(j),
                                            path_s,
                                        );
                                        lemma_beats_trans(
                                            self.route_segs(idx as int),
                                            self.route_segs(bi as int),
                                            self.route_segs(j),
                                        );
                                    }
                                }
                            }
                        }
                        best_idx = Some(idx);
                        best_segs = psegs;
                    } else {
                        proof {
                            let path_s = spec_segments(path@);
                            let bi = best_idx->Some_0;
                            let a = self.route_segs(bi as int);
                            let c = self.route_segs(idx as int);
                            assert(bi as int != idx as int);
                            assert(!same_shape(a, c)) by {
                                assert(self.spec_routes()[bi as int].method == method);
                                assert(self.spec_routes()[idx as int].method == method);
                                if same_shape(a, c) {
                                    lemma_same_shape_sym(a, c);
                                }
                            }
                            lemma_matches_totally_ordered(c, a, path_s);
                        }
                    }
                }
            }
            idx += 1;
        }
        match best_idx {
            Some(b) => {
                proof {
                    lemma_segments_same_len(
                        self.route_segs(b as int),
                        self.route_segs(b as int),
                        self.route_segs(b as int),
                        spec_segments(path@),
                    );
                }
                let params = build_params(&best_segs, &pathsegs);
                Some((&self.routes[b].handler, params))
            },
            None => None,
        }
    }
}

/// Patterns matching one path all have the path's length.
proof fn lemma_segments_same_len(
    a: Seq<Seq<char>>,
    b: Seq<Seq<char>>,
    c: Seq<Seq<char>>,
    path: Seq<Seq<char>>,
)
    requires
        pat_matches(a, path),
        pat_matches(b, path),
        pat_matches(c, path),
    ensures
        a.len() == b.len(),
        b.len() == c.len(),
{
}

proof fn lemma_same_shape_sym(a: Seq<Seq<char>>, b: Seq<Seq<char>>)
    requires
        same_shape(a, b),
    ensures
        same_shape(b, a),
{
}

/// Dispatching a registered pattern's own text with its method always
/// selects that route: the pattern matches itself and has priority
/// over every other route that matches it.
pub proof fn lemma_dispatch_exact<H>(r: &Router<H>, method: HttpMethod, i: int)
    requires
        r.wf(),
        0 <= i < r.spec_routes().len(),
        r.spec_routes()[i].method == method,
    ensures
        r.route_matches(i, method, spec_segments(r.spec_routes()[i].pattern@)),
        forall|j: int|
            r.route_matches(j, method, spec_segments(r.spec_routes()[i].pattern@)) && j != i
                ==> beats(r.route_segs(i), r.route_segs(j)),
{
    let p = r.route_segs(i);
    lemma_pattern_matches_self(p);
    assert forall|j: int|
        r.route_matches(j, method, spec_segments(r.spec_routes()[i].pattern@)) && j != i
            implies beats(r.route_segs(i), r.route_segs(j)) by {
        let q = r.route_segs(j);
        assert(!same_shape(q, p)) by {
            if same_shape(q, p) {
                if i < j {
                    lemma_same_shape_sym(q, p);
                } else {
                }
            }
        }
        lemma_pattern_self_priority(p, q);
    }
}

/// The selected route is unique: two routes that each have priority
/// over every other match are the same route.
pub proof fn lemma_best_match_unique<H>(
    r: &Router<H>,
    method: HttpMethod,
    path: Seq<Seq<char>>,
    i: int,
    j: int,
)
    requires
        r.route_matches(i, method, path),
        r.route_matches(j, method, path),
        forall|k: int| r.route_matches(k, method, path) && k != i ==> beats(r.route_segs(i), r.route_segs(k)),
        forall|k: int| r.route_matches(k, method, path) && k != j ==> beats(r.route_segs(j), r.route_segs(k)),
    ensures
        i == j,
{
    if i != j {
        assert(beats(r.route_segs(i), r.route_segs(j)));
        assert(beats(r.route_segs(j), r.route_segs(i)));
        lemma_beats_asym(r.route_segs(i), r.route_segs(j));
    }
}

} // verus!
