//! Small verified string utilities shared by the router, the registry
//! and the transformer: character-level equality, truncation, decimal
//! rendering, line and segment extraction.
use vstd::prelude::*;

verus! {

/// Index of the first occurrence of `x` in `s`, or `s.len()` if absent.
pub open spec fn first_index_of<T>(s: Seq<T>, x: T) -> int
    decreases s.len(),
{
    if s.len() == 0 {
        0
    } else if s[0] == x {
        0
    } else {
        1 + first_index_of(s.drop_first(), x)
    }
}

/// Number of occurrences of `x` in `s`.
pub open spec fn count_of<T>(s: Seq<T>, x: T) -> nat
    decreases s.len(),
{
    if s.len() == 0 {
        0
    } else {
        (if s[0] == x {
            1nat
        } else {
            0nat
        }) + count_of(s.drop_first(), x)
    }
}

/// The characterization is exact: a position below which `x` does not
/// occur, and which holds `x` or is the end, is the first index.
pub proof fn lemma_first_index_of_is<T>(s: Seq<T>, x: T, i: int)
    requires
        0 <= i <= s.len(),
        forall|j: int| 0 <= j < i ==> s[j] != x,
        i < s.len() ==> s[i] == x,
    ensures
        first_index_of(s, x) == i,
    decreases s.len(),
{
    if s.len() > 0 && s[0] != x {
        lemma_first_index_of_is(s.drop_first(), x, i - 1);
    }
}

/// `s` unchanged if it has at most `n` characters, else its first `n`.
pub open spec fn spec_truncated(s: Seq<char>, n: int) -> Seq<char> {
    if s.len() <= n {
        s
    } else {
        s.take(n)
    }
}

/// Truncates a string to at most `n` characters (never mid-character:
/// the count is in characters, not bytes).
pub fn truncate_chars(s: String, n: usize) -> (r: String)
    ensures
        r@ == spec_truncated(s@, n as int),
{
    let len: usize = s.as_str().unicode_len();
    if len <= n {
        s
    } else {
        s.as_str().substring_char(0, n).to_owned()
    }
}


/// Truncation never lengthens: the result has the input's length when
/// that is within the bound, and exactly the bound otherwise.
pub proof fn lemma_truncated_len(s: Seq<char>, n: int)
    requires
        n >= 0,
    ensures
        spec_truncated(s, n).len() == if s.len() <= n {
            s.len() as int
        } else {
            n
        },
{
}

/// Character-wise string equality.
pub fn str_eq(a: &str, b: &str) -> (r: bool)
    ensures
        r == (a@ == b@),
{
    let la: usize = a.unicode_len();
    let lb: usize = b.unicode_len();
    if la != lb {
        assert(a@ != b@) by {
            assert(a@.len() != b@.len());
        }
        return false;
    }
    let mut i: usize = 0;
    while i < la
        invariant
            la == a@.len(),
            la == b@.len(),
            i <= la,
            forall|j: int| 0 <= j < i ==> a@[j] == b@[j],
        decreases la - i,
    {
        if a.get_char(i) != b.get_char(i) {
            return false;
        }
        i += 1;
    }
    proof {
        assert(a@ =~= b@);
    }
    true
}

pub proof fn lemma_count_snoc<T>(s: Seq<T>, x: T, c: T)
    ensures
        count_of(s.push(x), c) == count_of(s, c) + if x == c {
            1int
        } else {
            0int
        },
    decreases s.len(),
{
    if s.len() == 0 {
        assert(s.push(x).drop_first() =~= s);
    } else {
        assert(s.push(x).drop_first() =~= s.drop_first().push(x));
        lemma_count_snoc(s.drop_first(), x, c);
    }
}

/// Counts `c` in the characters of `s` and finds its first position
/// (the length if it does not occur).
pub(crate) fn char_count_first(s: &str, c: char) -> (r: (usize, usize))
    ensures
        r.0 == count_of(s@, c),
        r.1 as int == first_index_of(s@, c),
        r.1 <= s@.len(),
        r.0 > 0 ==> r.1 < s@.len(),
{
    let n: usize = s.unicode_len();
    let mut count: usize = 0;
    let mut first: usize = n;
    let mut found = false;
    let mut i: usize = 0;
    proof {
        assert(s@.take(0) =~= Seq::<char>::empty());
    }
    while i < n
        invariant
            n == s@.len(),
            i <= n,
            count == count_of(s@.take(i as int), c),
            count <= i,
            found == (count > 0),
            found ==> first < i && s@[first as int] == c && forall|j: int|
                0 <= j < first ==> s@[j] != c,
            !found ==> first == n && forall|j: int| 0 <= j < i ==> s@[j] != c,
        decreases n - i,
    {
        let ch = s.get_char(i);
        proof {
            lemma_count_snoc(s@.take(i as int), s@[i as int], c);
            assert(s@.take(i as int).push(s@[i as int]) =~= s@.take(i + 1));
        }
        if ch == c {
            count += 1;
            if !found {
                first = i;
                found = true;
            }
        }
        i += 1;
    }
    proof {
        assert(s@.take(n as int) =~= s@);
        lemma_first_index_of_is(
            s@,
            c,
            if found {
                first as int
            } else {
                n as int
            },
        );
    }
    (count, first)
}

pub open spec fn spec_digit(d: int) -> char {
    if d == 0 {
        '0'
    } else if d == 1 {
        '1'
    } else if d == 2 {
        '2'
    } else if d == 3 {
        '3'
    } else if d == 4 {
        '4'
    } else if d == 5 {
        '5'
    } else if d == 6 {
        '6'
    } else if d == 7 {
        '7'
    } else if d == 8 {
        '8'
    } else {
        '9'
    }
}

/// Decimal digits of `n`, most significant first.
pub open spec fn spec_decimal(n: nat) -> Seq<char>
    decreases n,
{
    if n < 10 {
        seq![spec_digit(n as int)]
    } else {
        spec_decimal(n / 10) + seq![spec_digit((n % 10) as int)]
    }
}

fn digit_str(d: u64) -> (r: &'static str)
    requires
        d < 10,
    ensures
        r@ == seq![spec_digit(d as int)],
{
    let r: &'static str = match d {
        0 => "0",
        1 => "1",
        2 => "2",
        3 => "3",
        4 => "4",
        5 => "5",
        6 => "6",
        7 => "7",
        8 => "8",
        _ => "9",
    };
    proof {
        reveal_strlit("0");
        reveal_strlit("1");
        reveal_strlit("2");
        reveal_strlit("3");
        reveal_strlit("4");
        reveal_strlit("5");
        reveal_strlit("6");
        reveal_strlit("7");
        reveal_strlit("8");
        reveal_strlit("9");
        assert(r@ =~= seq![spec_digit(d as int)]);
    }
    r
}

/// Renders `n` in decimal.
pub fn u64_to_string(n: u64) -> (r: String)
    ensures
        r@ == spec_decimal(n as nat),
    decreases n,
{
    if n < 10 {
        digit_str(n).to_owned()
    } else {
        proof {
            assert(n / 10 < n) by (nonlinear_arith)
                requires
                    n >= 10,
            ;
        }
        let head = u64_to_string(n / 10);
        head.concat(digit_str(n % 10))
    }
}

/// Everything before the first newline, with a trailing carriage
/// return removed: the first line of a message.
pub open spec fn spec_first_line(s: Seq<char>) -> Seq<char> {
    let p = s.take(first_index_of(s, '\n'));
    if p.len() > 0 && p.last() == '\r' {
        p.drop_last()
    } else {
        p
    }
}

pub fn first_line(s: &str) -> (r: String)
    ensures
        r@ == spec_first_line(s@),
{
    let len: usize = s.unicode_len();
    let mut i: usize = 0;
    while i < len && s.get_char(i) != '\n'
        invariant
            len == s@.len(),
            i <= len,
            forall|j: int| 0 <= j < i ==> s@[j] != '\n',
        decreases len - i,
    {
        i += 1;
    }
    proof {
        lemma_first_index_of_is(s@, '\n', i as int);
    }
    let end: usize = if i > 0 && s.get_char(i - 1) == '\r' {
        i - 1
    } else {
        i
    };
    s.substring_char(0, end).to_owned()
}

/// The suffix after the last `/`, or all of `s` if it has none: the
/// final segment of a slash-separated name.
pub open spec fn spec_last_segment(s: Seq<char>) -> Seq<char>
    decreases s.len(),
{
    if s.len() == 0 {
        s
    } else if s.last() == '/' {
        Seq::empty()
    } else {
        spec_last_segment(s.drop_last()) + seq![s.last()]
    }
}

proof fn lemma_last_segment_is(s: Seq<char>, k: int)
    requires
        0 <= k <= s.len(),
        forall|j: int| k <= j < s.len() ==> s[j] != '/',
        k > 0 ==> s[k - 1] == '/',
    ensures
        spec_last_segment(s) == s.subrange(k, s.len() as int),
    decreases s.len(),
{
    if s.len() == 0 {
        assert(spec_last_segment(s) =~= s.subrange(k, s.len() as int));
    } else if s.last() == '/' {
        assert(k == s.len());
        assert(spec_last_segment(s) =~= s.subrange(k, s.len() as int));
    } else {
        lemma_last_segment_is(s.drop_last(), k);
        assert(s.drop_last().subrange(k, s.drop_last().len() as int) + seq![s.last()] =~= s.subrange(
            k,
            s.len() as int,
        ));
    }
}

pub fn last_segment(s: &str) -> (r: String)
    ensures
        r@ == spec_last_segment(s@),
{
    let len: usize = s.unicode_len();
    let mut k: usize = len;
    while k > 0 && s.get_char(k - 1) != '/'
        invariant
            len == s@.len(),
            k <= len,
            forall|j: int| k <= j < len ==> s@[j] != '/',
        decreases k,
    {
        k -= 1;
    }
    proof {
        lemma_last_segment_is(s@, k as int);
    }
    s.substring_char(k, len).to_owned()
}

} // verus!
