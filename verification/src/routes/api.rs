//! The management endpoints: basic-credential authentication, then
//! reads and writes of the hook registry. One reusable guard decides
//! authorization; every management handler consults it first.
use vstd::prelude::*;

use base64::Engine;
use sha2::Digest;

use crate::models::CreateHookConfig;
use crate::store::{entries_map, uuid_canon_of, HookConfig, HookRegistry, StoreError};
use crate::text::{char_count_first, count_of, first_index_of, lemma_count_snoc,
    lemma_first_index_of_is, str_eq};

verus! {

/// What the decoder of the credential part of an authorization header
/// yields: `None` when the text is not valid standard base64, else the
/// decoded bytes.
pub uninterp spec fn b64_decode_of(s: Seq<char>) -> Option<Seq<u8>>;

/// Relies on base64's standard-alphabet, padded decode (the
/// `STANDARD` engine): decoding is a function of the text alone.
#[verifier::external_body]
fn base64_decode(s: &str) -> (r: Option<Vec<u8>>)
    ensures
        match r {
            Some(v) => b64_decode_of(s@) == Some(v@),
            None => b64_decode_of(s@) is None,
        },
{
    base64::engine::general_purpose::STANDARD.decode(s).ok()
}

/// What the one-way digest of a byte string is.
pub uninterp spec fn sha256_of(data: Seq<u8>) -> Seq<u8>;

/// Relies on sha2::Sha256: the digest is a function of the input
/// alone, 32 bytes long.
#[verifier::external_body]
fn sha256(data: &[u8]) -> (r: Vec<u8>)
    ensures
        r@ == sha256_of(data@),
        r@.len() == 32,
{
    sha2::Sha256::digest(data).to_vec()
}

pub open spec fn spec_hex_digit(d: int) -> char {
    if d == 0 {
        '0'
    } else if d == 1 {
        '1'
    } else if d == 2 {
        '2'
    } else if d == 3 {
        '3'
    } else if d == 4 {
        '4'
    } else if d == 5 {
        '5'
    } else if d == 6 {
        '6'
    } else if d == 7 {
        '7'
    } else if d == 8 {
        '8'
    } else if d == 9 {
        '9'
    } else if d == 10 {
        'a'
    } else if d == 11 {
        'b'
    } else if d == 12 {
        'c'
    } else if d == 13 {
        'd'
    } else if d == 14 {
        'e'
    } else {
        'f'
    }
}

/// Lowercase hexadecimal: two digits per byte, high nibble first.
pub open spec fn hex_of(b: Seq<u8>) -> Seq<char>
    decreases b.len(),
{
    if b.len() == 0 {
        Seq::empty()
    } else {
        hex_of(b.drop_last()) + seq![
            spec_hex_digit(b.last() as int / 16),
            spec_hex_digit(b.last() as int % 16),
        ]
    }
}

/// Relies on hex::encode: two lowercase hexadecimal digits per byte,
/// high nibble first.
#[verifier::external_body]
fn hex_encode(data: &[u8]) -> (r: String)
    ensures
        r@ == hex_of(data@),
{
    hex::encode(data)
}

/// The stored digest of the first user whose name's UTF-8 bytes are
/// `name_bytes`, if any.
pub open spec fn spec_lookup_user(users: Seq<(String, String)>, name_bytes: Seq<u8>) -> Option<
    Seq<char>,
>
    decreases users.len(),
{
    if users.len() == 0 {
        None
    } else if vstd::utf8::encode_utf8(users[0].0@) == name_bytes {
        Some(users[0].1@)
    } else {
        spec_lookup_user(users.drop_first(), name_bytes)
    }
}

/// A credential header authorizes exactly when it reads
/// `Basic <base64 of user:password>`, the user is known, and the
/// stored digest equals the hex digest of the password bytes.
pub open spec fn spec_authorized(header: Option<Seq<char>>, users: Seq<(String, String)>) -> bool {
    match header {
        None => false,
        Some(h) => {
            let sp = first_index_of(h, ' ');
            &&& count_of(h, ' ') == 1
            &&& h.take(sp) == "Basic"@
            &&& match b64_decode_of(h.skip(sp + 1)) {
                Some(bytes) => {
                    let cp = first_index_of(bytes, 58u8);
                    &&& count_of(bytes, 58u8) == 1
                    &&& match spec_lookup_user(users, bytes.take(cp)) {
                        Some(stored) => stored == hex_of(sha256_of(bytes.skip(cp + 1))),
                        None => false,
                    }
                },
                None => false,
            }
        },
    }
}

/// Counts `b` in `v` and finds its first position (the length if it
/// does not occur).
fn byte_count_first(v: &Vec<u8>, b: u8) -> (r: (usize, usize))
    ensures
        r.0 == count_of(v@, b),
        r.1 as int == first_index_of(v@, b),
        r.1 <= v@.len(),
        r.0 > 0 ==> r.1 < v@.len(),
{
    let n: usize = v.len();
    let mut count: usize = 0;
    let mut first: usize = n;
    let mut found = false;
    let mut i: usize = 0;
    proof {
        assert(v@.take(0) =~= Seq::<u8>::empty());
    }
    while i < n
        invariant
            n == v@.len(),
            i <= n,
            count == count_of(v@.take(i as int), b),
            count <= i,
            found == (count > 0),
            found ==> first < i && v@[first as int] == b && forall|j: int|
                0 <= j < first ==> v@[j] != b,
            !found ==> first == n && forall|j: int| 0 <= j < i ==> v@[j] != b,
        decreases n - i,
    {
        proof {
            lemma_count_snoc(v@.take(i as int), v@[i as int], b);
            assert(v@.take(i as int).push(v@[i as int]) =~= v@.take(i + 1));
        }
        if v[i] == b {
            count += 1;
            if !found {
                first = i;
                found = true;
            }
        }
        i += 1;
    }
    proof {
        assert(v@.take(n as int) =~= v@);
        lemma_first_index_of_is(
            v@,
            b,
            if found {
                first as int
            } else {
                n as int
            },
        );
    }
    (count, first)
}

/// Copies `v[from..to]`.
fn subvec(v: &Vec<u8>, from: usize, to: usize) -> (r: Vec<u8>)
    requires
        from <= to <= v@.len(),
    ensures
        r@ == v@.subrange(from as int, to as int),
{
    let mut out: Vec<u8> = Vec::new();
    let mut i: usize = from;
    while i < to
        invariant
            from <= i <= to <= v@.len(),
            out@ == v@.subrange(from as int, i as int),
        decreases to - i,
    {
        out.push(v[i]);
        proof {
            assert(out@ =~= v@.subrange(from as int, i + 1));
        }
        i += 1;
    }
    out
}

fn bytes_eq(a: &[u8], b: &[u8]) -> (r: bool)
    ensures
        r == (a@ == b@),
{
    if a.len() != b.len() {
        return false;
    }
    let mut i: usize = 0;
    while i < a.len()
        invariant
            a@.len() == b@.len(),
            i <= a@.len(),
            forall|j: int| 0 <= j < i ==> a@[j] == b@[j],
        decreases a@.len() - i,
    {
        if a[i] != b[i] {
            return false;
        }
        i += 1;
    }
    proof {
        assert(a@ =~= b@);
    }
    true
}

proof fn lemma_lookup_user_skip(users: Seq<(String, String)>, name_bytes: Seq<u8>, i: int)
    requires
        0 <= i <= users.len(),
        forall|j: int| 0 <= j < i ==> vstd::utf8::encode_utf8(users[j].0@) != name_bytes,
    ensures
        spec_lookup_user(users, name_bytes) == spec_lookup_user(users.skip(i), name_bytes),
    decreases i,
{
    if i > 0 {
        lemma_lookup_user_skip(users, name_bytes, i - 1);
        assert(users.skip(i - 1)[0] == users[i - 1]);
        assert(users.skip(i - 1).drop_first() =~= users.skip(i));
        assert(spec_lookup_user(users.skip(i - 1), name_bytes) == spec_lookup_user(
            users.skip(i),
            name_bytes,
        ));
    } else {
        assert(users.skip(0) =~= users);
    }
}

/// The stored digest for the user named by `name_bytes`, if any.
fn lookup_user<'a>(users: &'a Vec<(String, String)>, name_bytes: &Vec<u8>) -> (r: Option<
    &'a String,
>)
    ensures
        match r {
            Some(stored) => spec_lookup_user(users@, name_bytes@) == Some(stored@),
            None => spec_lookup_user(users@, name_bytes@) is None,
        },
{
    let mut i: usize = 0;
    while i < users.len()
        invariant
            i <= users@.len(),
            forall|j: int|
                0 <= j < i ==> vstd::utf8::encode_utf8(users@[j].0@) != name_bytes@,
        decreases users@.len() - i,
    {
        if bytes_eq(users[i].0.as_str().as_bytes(), name_bytes.as_slice()) {
            proof {
                lemma_lookup_user_skip(users@, name_bytes@, i as int);
                assert(users@.skip(i as int)[0] == users@[i as int]);
            }
            return Some(&users[i].1);
        }
        i += 1;
    }
    proof {
        lemma_lookup_user_skip(users@, name_bytes@, users@.len() as int);
        assert(users@.skip(users@.len() as int) =~= Seq::<(String, String)>::empty());
    }
    None
}

/// The hex digest of a byte string: the guard's one-way function.
fn hexdigest(data: &[u8]) -> (r: String)
    ensures
        r@ == hex_of(sha256_of(data@)),
{
    let digest = sha256(data);
    hex_encode(digest.as_slice())
}

/// The reusable management guard: decodes a basic credential header
/// and checks the named user's password digest.
pub fn is_authorized(auth_header: Option<&String>, users: &Vec<(String, String)>) -> (r: bool)
    ensures
        r == spec_authorized(
            match auth_header {
                Some(h) => Some(h@),
                None => None,
            },
            users@,
        ),
{
    let h = match auth_header {
        Some(h) => h,
        None => {
            return false;
        },
    };
    let (spaces, sp) = char_count_first(h.as_str(), ' ');
    if spaces != 1 {
        return false;
    }
    let n: usize = h.as_str().unicode_len();
    let scheme = h.as_str().substring_char(0, sp);
    if !str_eq(scheme, "Basic") {
        proof {
            assert(h@.take(first_index_of(h@, ' ')) != "Basic"@);
        }
        return false;
    }
    let cred = h.as_str().substring_char(sp + 1, n);
    proof {
        assert(cred@ =~= h@.skip(sp + 1));
    }
    let bytes = match base64_decode(cred) {
        Some(b) => b,
        None => {
            return false;
        },
    };
    let (colons, cp) = byte_count_first(&bytes, 58u8);
    if colons != 1 {
        return false;
    }
    let name_bytes = subvec(&bytes, 0, cp);
    let pass_bytes = subvec(&bytes, cp + 1, bytes.len());
    proof {
        assert(name_bytes@ =~= bytes@.take(cp as int));
        assert(pass_bytes@ =~= bytes@.skip(cp + 1));
    }
    let stored = match lookup_user(users, &name_bytes) {
        Some(s) => s,
        None => {
            return false;
        },
    };
    let digest = hexdigest(pass_bytes.as_slice());
    str_eq(stored.as_str(), digest.as_str())
}

/// Why a management call failed; each maps to one response status.
#[derive(Debug, Clone, Copy, PartialEq, Eq, Structural)]
pub enum ApiError {
    Unauthorized,
    InvalidId,
    NotFound,
}

/// The response status of a failed management call: missing or bad
/// credentials challenge the caller, a malformed identifier is the
/// caller's mistake, an unknown identifier is absence.
pub fn http_status(e: &ApiError) -> (r: u16)
    ensures
        r == (match e {
            ApiError::Unauthorized => 401u16,
            ApiError::InvalidId => 400u16,
            ApiError::NotFound => 404u16,
        }),
{
    match e {
        ApiError::Unauthorized => 401,
        ApiError::InvalidId => 400,
        ApiError::NotFound => 404,
    }
}

/// Lists every hook, after the guard passes.
pub fn get_hooks(
    auth_header: Option<&String>,
    users: &Vec<(String, String)>,
    hooks: &HookRegistry,
) -> (r: Result<Vec<HookConfig>, ApiError>)
    requires
        hooks.wf(),
    ensures
        match r {
            Ok(list) => spec_authorized(
                match auth_header {
                    Some(h) => Some(h@),
                    None => None,
                },
                users@,
            ) && list@.map_values(|c: HookConfig| c@) == hooks.entries(),
            Err(e) => e == ApiError::Unauthorized && !spec_authorized(
                match auth_header {
                    Some(h) => Some(h@),
                    None => None,
                },
                users@,
            ),
        },
{
    if !is_authorized(auth_header, users) {
        return Err(ApiError::Unauthorized);
    }
    Ok(hooks.all())
}

/// Registers (or overwrites) a hook from a creation request, after the
/// guard passes: the registry supplies the identifier, and the stored
/// configuration is returned.
pub fn post_hook(
    auth_header: Option<&String>,
    users: &Vec<(String, String)>,
    hooks: &mut HookRegistry,
    config: CreateHookConfig,
) -> (r: Result<HookConfig, ApiError>)
    requires
        old(hooks).wf(),
    ensures
        final(hooks).wf(),
        match r {
            Ok(c) => {
                &&& spec_authorized(
                    match auth_header {
                        Some(h) => Some(h@),
                        None => None,
                    },
                    users@,
                )
                &&& c.description@ == config.description@
                &&& c.gitlab_token@ == config.gitlab_token@
                &&& c.discord_url@ == config.discord_url@
                &&& c.id.wf()
                &&& final(hooks).contents() == old(hooks).contents().insert(c@.id, c@)
            },
            Err(e) => {
                &&& e == ApiError::Unauthorized
                &&& !spec_authorized(
                    match auth_header {
                        Some(h) => Some(h@),
                        None => None,
                    },
                    users@,
                )
                &&& final(hooks).contents() == old(hooks).contents()
            },
        },
{
    if !is_authorized(auth_header, users) {
        return Err(ApiError::Unauthorized);
    }
    let stored = config.into_config();
    let returned = stored.duplicate();
    hooks.insert(stored);
    Ok(returned)
}

/// Unregisters a hook by identifier, after the guard passes.
pub fn delete_hook(
    auth_header: Option<&String>,
    users: &Vec<(String, String)>,
    hooks: &mut HookRegistry,
    id: &str,
) -> (r: Result<(), ApiError>)
    requires
        old(hooks).wf(),
    ensures
        final(hooks).wf(),
        !spec_authorized(
            match auth_header {
                Some(h) => Some(h@),
                None => None,
            },
            users@,
        ) ==> r == Result::<(), ApiError>::Err(ApiError::Unauthorized) && final(hooks).contents()
            == old(hooks).contents(),
        spec_authorized(
            match auth_header {
                Some(h) => Some(h@),
                None => None,
            },
            users@,
        ) ==> match uuid_canon_of(id@) {
            Some(c) => {
                if entries_map(old(hooks).entries()).contains_key(c) {
                    r is Ok && final(hooks).contents() == old(hooks).contents().remove(c)
                } else {
                    r == Result::<(), ApiError>::Err(ApiError::NotFound) && final(hooks).contents()
                        == old(hooks).contents()
                }
            },
            None => r == Result::<(), ApiError>::Err(ApiError::InvalidId) && final(hooks).contents()
                == old(hooks).contents(),
        },
{
    if !is_authorized(auth_header, users) {
        return Err(ApiError::Unauthorized);
    }
    match hooks.delete(id) {
        Ok(()) => Ok(()),
        Err(StoreError::InvalidId) => Err(ApiError::InvalidId),
        Err(StoreError::NotFound) => Err(ApiError::NotFound),
    }
}

} // verus!
