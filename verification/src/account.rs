//! Hashes of passwords: the boundary to the `argon2` crate.
use argon2::password_hash::rand_core::OsRng;
use argon2::password_hash::{PasswordHasher, SaltString};
use crate::text;
use crate::text::{chars_of, string_of};
use argon2::Argon2;
use vstd::prelude::*;
use vstd::utf8::*;

verus! {

/// The most bytes of a password that are hashed.
pub const MAX_PASSWORD: usize = 0xffff_ffff;

/// Whether `c` is a digit of the unpadded Base64 that salts are written in.
pub open spec fn is_b64(c: char) -> bool {
    'A' <= c <= 'Z' || 'a' <= c <= 'z' || '0' <= c <= '9' || c == '+' || c == '/'
}

/// Whether `s` is a salt of sixteen bytes in unpadded Base64: twenty-two
/// digits, of which the last has only two bits to carry.
pub open spec fn is_salt(s: Seq<char>) -> bool {
    &&& s.len() == 22
    &&& forall|i: int| 0 <= i < s.len() ==> is_b64(#[trigger] s[i])
    &&& s[21] == 'A' || s[21] == 'Q' || s[21] == 'g' || s[21] == 'w'
}

/// The Argon2id digest of a password under a salt, in unpadded Base64.
pub uninterp spec fn argon2_digest(password: Seq<u8>, salt: Seq<char>) -> Seq<char>;

/// A hash as one text: algorithm, version and parameters, then the salt, then
/// the digest.
pub open spec fn phc_text(salt: Seq<char>, digest: Seq<char>) -> Seq<char> {
    "$argon2id$v=19$m=19456,t=2,p=1$"@ + salt + "$"@ + digest
}

/// Calls `SaltString::generate` with `OsRng`. The salt is random; every one is
/// sixteen bytes in unpadded Base64. There is none, and the call panics, where
/// the system has no randomness to give.
#[verifier::external_body]
fn random_salt() -> (s: String)
    ensures
        is_salt(s@),
{
    SaltString::generate(&mut OsRng).as_str().to_string()
}

/// Calls `Argon2::hash_password` with the default parameters. A password within
/// the limit has a hash: the PHC text of algorithm, version, parameters, salt
/// and digest. A longer one is refused as an invalid password.
#[verifier::external_body]
fn argon2_hash(password: &[u8], salt: &str) -> (r: Result<String, String>)
    requires
        is_salt(salt@),
    ensures
        r is Ok <==> password@.len() <= MAX_PASSWORD,
        r matches Ok(s) ==> s@ == phc_text(salt@, argon2_digest(password@, salt@)),
        r matches Err(e) ==> e@ == "invalid password"@,
{
    let salt = SaltString::from_b64(salt).map_err(|e| e.to_string())?;
    let hash = Argon2::default().hash_password(password, &salt);
    hash.map(|h| h.to_string()).map_err(|e| e.to_string())
}

/// Why there is no hash.
#[derive(Debug)]
pub enum HashError {
    /// No password could be read.
    Unread,
    /// The password is empty.
    Empty,
    /// Hashing failed, for this reason.
    Failed(String),
}

impl HashError {
    /// What the user is told.
    pub open spec fn message_of(self) -> Seq<char> {
        match self {
            HashError::Unread => "failed to read password"@,
            HashError::Empty => "empty password; aborting"@,
            HashError::Failed(e) => "hash error: "@ + e@,
        }
    }

    /// What the user is told.
    pub fn message(&self) -> (s: String)
        ensures
            s@ == self.message_of(),
    {
        match self {
            HashError::Unread => "failed to read password".to_owned(),
            HashError::Empty => "empty password; aborting".to_owned(),
            HashError::Failed(e) => "hash error: ".to_owned().concat(e.as_str()),
        }
    }
}

/// A typed line without the line end.
pub open spec fn without_line_end(line: Seq<char>) -> Seq<char> {
    text::drop_back(line, |c: char| c == '\r' || c == '\n')
}

/// A typed line without the line end.
pub fn typed_password(line: &str) -> (s: String)
    ensures
        s@ == without_line_end(line@),
{
    let v = chars_of(line);
    let mut i: usize = v.len();
    let ghost ends = |c: char| c == '\r' || c == '\n';
    proof {
        assert(v@.take(i as int) == line@);
    }
    while i > 0 && (v[i - 1] == '\r' || v[i - 1] == '\n')
        invariant
            v@ == line@,
            i <= v@.len(),
            ends == |c: char| c == '\r' || c == '\n',
            text::drop_back(v@.take(i as int), ends) == text::drop_back(line@, ends),
        decreases i,
    {
        proof {
            assert(v@.take(i as int).drop_last() == v@.take(i - 1));
        }
        i = i - 1;
    }
    proof {
        assert(v@.take(i as int) == v@.subrange(0, i as int));
    }
    string_of(&v, 0, i)
}

/// The password to hash: the one given with the command, else the one typed.
pub open spec fn password_of(arg: Option<Seq<char>>, typed: Option<Seq<char>>) -> Option<
    Seq<char>,
> {
    match arg {
        Some(p) => Some(p),
        None => match typed {
            Some(line) => Some(without_line_end(line)),
            None => None,
        },
    }
}

/// The characters of a text that may be missing.
pub open spec fn opt_text(s: Option<String>) -> Option<Seq<char>> {
    match s {
        Some(t) => Some(t@),
        None => None,
    }
}

/// The password to hash. `arg` is the one given with the command; `typed` is
/// the line typed in its place, or `None` where none could be read.
pub fn pick_password(arg: Option<String>, typed: Option<String>) -> (r: Result<String, HashError>)
    ensures
        match password_of(opt_text(arg), opt_text(typed)) {
            None => r == Err::<String, HashError>(HashError::Unread),
            Some(p) => if p.len() == 0 {
                r == Err::<String, HashError>(HashError::Empty)
            } else {
                r matches Ok(s) && s@ == p
            },
        },
{
    let password = match arg {
        Some(p) => p,
        None => match typed {
            Some(line) => typed_password(line.as_str()),
            None => {
                return Err(HashError::Unread);
            },
        },
    };
    if password.as_str().is_empty() {
        return Err(HashError::Empty);
    }
    Ok(password)
}

/// Whether `r` is what hashing `password` under `salt` yields.
pub open spec fn is_hash_of(
    r: Result<String, HashError>,
    password: Seq<char>,
    salt: Seq<char>,
) -> bool {
    if encode_utf8(password).len() <= MAX_PASSWORD {
        r matches Ok(h) && h@ == phc_text(salt, argon2_digest(encode_utf8(password), salt))
    } else {
        r matches Err(HashError::Failed(e)) && e@ == "invalid password"@
    }
}

/// Hashes a password under a given salt.
pub fn hash_under(password: &str, salt: &str) -> (r: Result<String, HashError>)
    requires
        is_salt(salt@),
    ensures
        is_hash_of(r, password@, salt@),
{
    match argon2_hash(password.as_bytes(), salt) {
        Ok(h) => Ok(h),
        Err(e) => Err(HashError::Failed(e)),
    }
}

/// Whether `s` is a salt that `SaltString::generate` returned.
pub closed spec fn is_drawn_salt(s: Seq<char>) -> bool {
    exists|t: String| #[trigger] call_ensures(random_salt, (), t) && t@ == s
}

/// Hashes a password under a random salt. `arg` is the password given with the
/// command; `typed` is the line typed in its place, or `None` where none could
/// be read. An empty password is never hashed.
pub fn gen_hash(arg: Option<String>, typed: Option<String>) -> (r: Result<String, HashError>)
    ensures
        match password_of(opt_text(arg), opt_text(typed)) {
            None => r == Err::<String, HashError>(HashError::Unread),
            Some(p) => if p.len() == 0 {
                r == Err::<String, HashError>(HashError::Empty)
            } else {
                exists|salt: Seq<char>|
                    is_drawn_salt(salt) && is_salt(salt) && #[trigger] is_hash_of(r, p, salt)
            },
        },
{
    match pick_password(arg, typed) {
        Ok(password) => {
            let draw_salt = random_salt;
            let salt = draw_salt();
            proof {
                assert(is_drawn_salt(salt@));
            }
            hash_under(password.as_str(), salt.as_str())
        },
        Err(e) => Err(e),
    }
}

// ---------------------------------------------------------------------------
// Laws
// ---------------------------------------------------------------------------

/// Every carriage return and line feed at the end of a typed line is cut off,
/// and nothing else.
pub proof fn law_line_end_is_cut(password: Seq<char>, end: Seq<char>)
    requires
        forall|i: int| 0 <= i < end.len() ==> #[trigger] end[i] == '\r' || end[i] == '\n',
        password.len() > 0 ==> password.last() != '\r' && password.last() != '\n',
    ensures
        without_line_end(password + end) == password,
        password_of(None, Some(password + end)) == Some(password),
{
    text::law_back_is_dropped(password, end, |c: char| c == '\r' || c == '\n');
}

/// A password given with the command is hashed as it is, and nothing typed
/// counts then. Without either there is none.
pub proof fn law_given_password_comes_first(
    password: Seq<char>,
    typed: Option<Seq<char>>,
    s: String,
)
    ensures
        password_of(Some(password), typed) == Some(password),
        password_of(None, None) == None::<Seq<char>>,
        opt_text(Some(s)) == Some(s@),
        opt_text(None) == None::<Seq<char>>,
{
}

/// What the user is told.
pub proof fn law_messages(e: String)
    ensures
        HashError::Unread.message_of() == "failed to read password"@,
        HashError::Empty.message_of() == "empty password; aborting"@,
        HashError::Failed(e).message_of() == "hash error: "@ + e@,
{
}

/// A password whose length in bytes fits 32 bits has a hash: the text that names
/// Argon2id, its version and parameters, then the salt, then the digest of the
/// password's bytes under that salt. A longer one has none.
pub proof fn law_hash(r: Result<String, HashError>, password: Seq<char>, salt: Seq<char>)
    requires
        is_hash_of(r, password, salt),
    ensures
        r is Ok <==> encode_utf8(password).len() < 0x1_0000_0000,
        r matches Ok(h) ==> h@ == "$argon2id$v=19$m=19456,t=2,p=1$"@ + salt + "$"@ + argon2_digest(
            encode_utf8(password),
            salt,
        ),
        r is Err ==> r->Err_0 is Failed && r->Err_0->Failed_0@ == "invalid password"@,
{
}

/// The same password under the same salt has the same hash.
pub proof fn law_hash_is_repeatable(
    a: Result<String, HashError>,
    b: Result<String, HashError>,
    password: Seq<char>,
    salt: Seq<char>,
)
    requires
        is_hash_of(a, password, salt),
        is_hash_of(b, password, salt),
    ensures
        a is Ok <==> b is Ok,
        a is Ok ==> a->Ok_0@ == b->Ok_0@,
{
}

/// A salt has twenty-two characters: letters, digits, `+` and `/`. The last is
/// one of `A`, `Q`, `g` and `w`.
pub proof fn law_salt(s: Seq<char>)
    ensures
        is_salt(s) <==> {
            &&& s.len() == 22
            &&& forall|i: int|
                0 <= i < 22 ==> {
                    ||| 'A' <= #[trigger] s[i] <= 'Z'
                    ||| 'a' <= s[i] <= 'z'
                    ||| '0' <= s[i] <= '9'
                    ||| s[i] == '+'
                    ||| s[i] == '/'
                }
            &&& seq!['A', 'Q', 'g', 'w'].contains(s[21])
        },
{
    let ends = seq!['A', 'Q', 'g', 'w'];
    assert(ends[0] == 'A' && ends[1] == 'Q' && ends[2] == 'g' && ends[3] == 'w');
    if is_salt(s) {
        assert forall|i: int| 0 <= i < 22 implies {
            ||| 'A' <= #[trigger] s[i] <= 'Z'
            ||| 'a' <= s[i] <= 'z'
            ||| '0' <= s[i] <= '9'
            ||| s[i] == '+'
            ||| s[i] == '/'
        } by {
            assert(is_b64(s[i]));
        }
    }
}

/// A salt that was drawn is one that `random_salt` returned.
proof fn law_drawn_salt(s: String)
    requires
        call_ensures(random_salt, (), s),
    ensures
        is_drawn_salt(s@),
        forall|t: Seq<char>| #[trigger]
            is_drawn_salt(t) ==> exists|u: String| call_ensures(random_salt, (), u) && u@ == t,
{
}

} // verus!
