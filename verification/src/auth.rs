//! Accounts: registering, logging in, and what a session is made of.

use crate::clock;
use crate::db;
use crate::id;
use crate::text;
use argon2::password_hash::rand_core::OsRng;
use argon2::password_hash::{PasswordHash, PasswordHasher, PasswordVerifier, SaltString};
use argon2::Argon2;
use vstd::prelude::*;
use vstd::string::StringExecFns;
use vstd::utf8;

verus! {

/// The shortest password, in bytes.
pub const MIN_PASSWORD_LEN: usize = 8;

// ---- Passwords -----------------------------------------------------------------------------

/// Whether a text has the form of a random salt: sixteen bytes in base 64, which come to 22
/// characters, the last of which holds two bits.
pub open spec fn is_salt(s: Seq<char>) -> bool {
    &&& s.len() == 22
    &&& forall|i: int| 0 <= i < 22 ==> in_base64(#[trigger] s[i])
    &&& s[21] == 'A' || s[21] == 'Q' || s[21] == 'g' || s[21] == 'w'
}

/// Trusted: `SaltString::generate` draws sixteen random bytes from the operating system and writes
/// them in base 64 without padding. Which bytes they are, is left open.
#[verifier::external_body]
fn fresh_salt() -> (salt: String)
    ensures
        is_salt(salt@),
{
    SaltString::generate(&mut OsRng).to_string()
}

/// Whether a character occurs in base 64.
pub open spec fn in_base64(c: char) -> bool {
    'a' <= c <= 'z' || 'A' <= c <= 'Z' || '0' <= c <= '9' || c == '/' || c == '+'
}

/// Whether a text is a hash with the default parameters and a given salt: it names the parameters,
/// then holds the salt, then the 32 bytes of the hash itself, both in base 64.
pub open spec fn bears_salt(hash: Seq<char>, salt: Seq<char>) -> bool {
    let head = "$argon2id$v=19$m=19456,t=2,p=1$"@ + salt + "$"@;
    &&& hash.len() == head.len() + 43
    &&& hash.take(head.len() as int) == head
    &&& forall|i: int| 0 <= i < salt.len() ==> in_base64(#[trigger] salt[i])
    &&& forall|i: int| head.len() <= i < hash.len() ==> in_base64(#[trigger] hash[i])
}

/// Whether a hash says at a place how many lanes it asks for.
pub open spec fn lanes_at(hash: Seq<char>, i: int) -> bool {
    0 <= i && i + 2 <= hash.len() && hash[i] == 'p' && hash[i + 1] == '='
}

/// Whether nine digits stand at a place of a text.
pub open spec fn nine_digits_at(s: Seq<char>, i: int) -> bool {
    i + 9 <= s.len() && forall|k: int| i <= k < i + 9 ==> text::is_digit(#[trigger] s[k])
}

/// Whether a hash asks for a hundred million lanes or more; where it says more than once how many,
/// the last time counts. No password goes with such a hash: Argon2 knows no more than 2^24 - 1
/// lanes.
pub open spec fn too_parallel(hash: Seq<char>) -> bool {
    exists|i: int| #[trigger]
        lanes_at(hash, i) && nine_digits_at(hash, i + 2) && forall|j: int|
            i < j ==> !#[trigger] lanes_at(hash, j)
}

/// The Argon2id hash of a password with a salt, or what is wrong with the two.
pub uninterp spec fn argon2_hash(password: Seq<u8>, salt: Seq<char>) -> Result<
    Seq<char>,
    Seq<char>,
>;

/// What keeps a text from being read as a hash, if anything does.
pub uninterp spec fn hash_fault(hash: Seq<char>) -> Option<Seq<char>>;

/// Whether a password goes with a hash.
pub uninterp spec fn argon2_check(password: Seq<u8>, hash: Seq<char>) -> bool;

/// Trusted: `Argon2::hash_password`, with the default parameters, hashes a password with a salt to
/// a text that is a function of the two alone. The text holds the salt, can be read as a hash, and
/// goes with the password. It succeeds with every salt of the form that `SaltString::generate`
/// gives and every password of less than four gibibytes. What the hash itself is, is not stated.
#[verifier::external_body]
fn hash_password(password: &[u8], salt: &str) -> (hash: Result<String, String>)
    ensures
        match hash {
            Ok(h) => {
                &&& argon2_hash(password@, salt@) == Ok::<Seq<char>, Seq<char>>(h@)
                &&& bears_salt(h@, salt@)
                &&& hash_fault(h@) is None
                &&& argon2_check(password@, h@)
            },
            Err(e) => argon2_hash(password@, salt@) == Err::<Seq<char>, Seq<char>>(e@),
        },
        is_salt(salt@) && password@.len() <= u32::MAX ==> hash is Ok,
{
    let salt = SaltString::from_b64(salt).map_err(|e| e.to_string())?;
    let hash = Argon2::default().hash_password(password, &salt).map_err(|e| e.to_string())?;
    Ok(hash.to_string())
}

/// Trusted: `PasswordHash::new` reads a hash, and says what is wrong where it cannot. What it says is
/// a function of the text alone; which texts it can read, is not stated.
#[verifier::external_body]
fn fault_of(hash: &str) -> (fault: Option<String>)
    ensures
        match fault {
            Some(e) => hash_fault(hash@) == Some(e@),
            None => hash_fault(hash@) is None,
        },
{
    PasswordHash::new(hash).err().map(|e| e.to_string())
}

/// Trusted: `Argon2::verify_password` says whether a password goes with a hash, as a function of
/// the two alone; none goes with a text that cannot be read as a hash. Which passwords go with a
/// hash, is not stated. The number of lanes is multiplied before it is held against its limit, so
/// a number of nine digits can overflow and is left out; a hash that asks for more memory than there
/// is is not considered.
#[verifier::external_body]
fn check_password(password: &[u8], hash: &str) -> (fits: bool)
    requires
        !too_parallel(hash@),
    ensures
        fits == argon2_check(password@, hash@),
{
    match PasswordHash::new(hash) {
        Ok(parsed) => Argon2::default().verify_password(password, &parsed).is_ok(),
        Err(_) => false,
    }
}

/// Whether nine digits stand at a place of a text.
fn has_nine_digits(chars: &Vec<char>, at: usize) -> (yes: bool)
    requires
        at <= chars@.len(),
    ensures
        yes == nine_digits_at(chars@, at as int),
{
    if chars.len() - at < 9 {
        return false;
    }
    let end: usize = at + 9;
    let mut k: usize = at;
    while k < end
        invariant
            at <= k <= end == at + 9,
            end <= chars@.len(),
            forall|m: int| at <= m < k ==> text::is_digit(#[trigger] chars@[m]),
        decreases end - k,
    {
        if chars[k] < '0' || chars[k] > '9' {
            assert(!text::is_digit(chars@[k as int]));
            return false;
        }
        k = k + 1;
    }
    true
}

/// Whether a hash asks for a hundred million lanes or more.
fn asks_too_many_lanes(hash: &str) -> (yes: bool)
    ensures
        yes == too_parallel(hash@),
{
    let chars = text::chars_of(hash);
    let n: usize = chars.len();
    let mut i: usize = n;
    while i > 0
        invariant
            chars@ == hash@,
            n == chars@.len(),
            i <= n,
            forall|j: int| i <= j ==> !#[trigger] lanes_at(hash@, j),
        decreases i,
    {
        i = i - 1;
        if n - i >= 2 && chars[i] == 'p' && chars[i + 1] == '=' {
            assert(lanes_at(hash@, i as int));
            return has_nine_digits(&chars, i + 2);
        }
        assert(!lanes_at(hash@, i as int));
    }
    false
}

/// A hash with the default parameters asks for one lane.
proof fn lemma_default_lanes(hash: Seq<char>, salt: Seq<char>)
    requires
        bears_salt(hash, salt),
    ensures
        !too_parallel(hash),
{
    reveal_strlit("$argon2id$v=19$m=19456,t=2,p=1$");
    reveal_strlit("$");
    let params = "$argon2id$v=19$m=19456,t=2,p=1$"@;
    let head = params + salt + "$"@;
    assert forall|i: int| #[trigger] lanes_at(hash, i) implies !nine_digits_at(hash, i + 2) by {
        if i + 1 < params.len() {
            assert(hash[i] == hash.take(head.len() as int)[i]);
            assert(hash[i + 1] == hash.take(head.len() as int)[i + 1]);
            assert(hash[i] == params[i] && hash[i + 1] == params[i + 1]);
            assert(i == 27);
            assert(hash[30] == hash.take(head.len() as int)[30]);
            assert(hash[30] == params[30]);
            assert(!text::is_digit(hash[30]));
        } else if i + 1 < head.len() {
            assert(hash[i + 1] == hash.take(head.len() as int)[i + 1]);
            if i + 1 < params.len() + salt.len() {
                assert(hash[i + 1] == salt[i + 1 - params.len()]);
            } else {
                assert(hash[i + 1] == '$');
            }
        } else {
            assert(in_base64(hash[i + 1]));
        }
    }
}

/// A hash is not the password, unless the password itself begins as such a hash does.
pub proof fn law_hash_is_not_the_password(
    hash: Seq<char>,
    salt: Seq<char>,
    password: Seq<char>,
)
    requires
        bears_salt(hash, salt),
        !text::begins(password, "$argon2id$v=19$m=19456,t=2,p=1$"@),
    ensures
        hash != password,
{
    let params = "$argon2id$v=19$m=19456,t=2,p=1$"@;
    let head = params + salt + "$"@;
    assert(hash.take(head.len() as int).subrange(0, params.len() as int) =~= hash.subrange(
        0,
        params.len() as int,
    ));
    assert(head.subrange(0, params.len() as int) =~= params);
    assert(text::begins(hash, params));
}

/// Hashes with different salts differ, whatever the passwords are.
pub proof fn law_salts_tell_hashes_apart(
    hash: Seq<char>,
    salt: Seq<char>,
    other: Seq<char>,
    other_salt: Seq<char>,
)
    requires
        bears_salt(hash, salt),
        bears_salt(other, other_salt),
        salt != other_salt,
    ensures
        hash != other,
{
    if hash == other {
        reveal_strlit("$argon2id$v=19$m=19456,t=2,p=1$");
        reveal_strlit("$");
        let params = "$argon2id$v=19$m=19456,t=2,p=1$"@;
        let head = params + salt + "$"@;
        let other_head = params + other_salt + "$"@;
        assert(head == other_head);
        assert(salt =~= head.subrange(31, 31 + salt.len() as int));
        assert(other_salt =~= other_head.subrange(31, 31 + other_salt.len() as int));
    }
}

// ---- Sessions ------------------------------------------------------------------------------

/// Who is logged in.
#[derive(Debug, Clone)]
pub struct Session {
    pub email: String,
    pub user_id: String,
    /// The file that holds the chain of the account.
    pub chain_file: String,
}

/// Who is logged in.
#[verifier::ext_equal]
pub struct SessionView {
    pub email: Seq<char>,
    pub user_id: Seq<char>,
    pub chain_file: Seq<char>,
}

impl View for Session {
    type V = SessionView;

    open spec fn view(&self) -> SessionView {
        SessionView {
            email: self.email@,
            user_id: self.user_id@,
            chain_file: self.chain_file@,
        }
    }
}

/// Whether a character of an address is kept out of file names: it parts names, directories or
/// words.
pub open spec fn unsafe_in_name(c: char) -> bool {
    c == '@' || c == '.' || c == '+' || c == ' ' || c == '/' || c == '\\'
}

/// What stands for a character of an address in a file name.
pub open spec fn safe_char(c: char) -> char {
    if unsafe_in_name(c) {
        '_'
    } else {
        c
    }
}

/// An address with an underscore for each character that is kept out of file names.
pub open spec fn safe_name(email: Seq<char>) -> Seq<char> {
    email.map_values(|c: char| safe_char(c))
}

/// The file that an address names. Several addresses may name the same one; [`account_file`] is
/// what tells accounts apart.
pub open spec fn chain_file(email: Seq<char>) -> Seq<char> {
    "cryptocraft_chain_"@ + safe_name(email) + ".json"@
}

/// A letter for a character that an underscore stands for.
pub open spec fn mark(c: char) -> char {
    if c == '@' {
        'a'
    } else if c == '.' {
        'd'
    } else if c == '+' {
        'p'
    } else if c == ' ' {
        's'
    } else if c == '/' {
        'f'
    } else if c == '\\' {
        'b'
    } else {
        'u'
    }
}

/// What the underscores in the safe name of an address stand for, a letter for each.
pub open spec fn marks(email: Seq<char>) -> Seq<char>
    decreases email.len(),
{
    if email.len() == 0 {
        seq![]
    } else if safe_char(email.last()) == '_' {
        marks(email.drop_last()).push(mark(email.last()))
    } else {
        marks(email.drop_last())
    }
}

/// The file that holds the chain of an account: its address with what the underscores stand for, so
/// that no two accounts share a file.
pub open spec fn account_file(email: Seq<char>) -> Seq<char> {
    "cryptocraft_chain_"@ + safe_name(email) + "-"@ + marks(email) + ".json"@
}

/// The safe name of an address and what its underscores stand for.
fn name_parts(email: &str) -> (parts: (String, String))
    ensures
        parts.0@ == safe_name(email@),
        parts.1@ == marks(email@),
{
    let chars = text::chars_of(email);
    let mut safe = String::new();
    let mut letters = String::new();
    let mut i: usize = 0;
    assert(safe@ =~= safe_name(email@).take(0));
    assert(email@.take(0) =~= seq![]);
    assert(letters@ =~= marks(email@.take(0)));
    while i < chars.len()
        invariant
            chars@ == email@,
            i <= chars@.len(),
            safe@ == safe_name(email@).take(i as int),
            letters@ == marks(email@.take(i as int)),
        decreases chars@.len() - i,
    {
        let c: char = chars[i];
        assert(email@.take(i + 1).drop_last() =~= email@.take(i as int));
        assert(safe_name(email@).take(i + 1) =~= safe_name(email@).take(i as int).push(
            safe_char(c),
        ));
        if c == '@' || c == '.' || c == '+' || c == ' ' || c == '/' || c == '\\' || c == '_' {
            safe.push('_');
            letters.push(
                match c {
                    '@' => 'a',
                    '.' => 'd',
                    '+' => 'p',
                    ' ' => 's',
                    '/' => 'f',
                    '\\' => 'b',
                    _ => 'u',
                },
            );
        } else {
            safe.push(c);
        }
        i = i + 1;
    }
    assert(safe@ =~= safe_name(email@));
    assert(email@.take(i as int) =~= email@);
    (safe, letters)
}

/// The file that holds the chain of an account.
fn account_file_for(email: &str) -> (file: String)
    ensures
        file@ == account_file(email@),
{
    let (safe, letters) = name_parts(email);
    let mut file = "cryptocraft_chain_".to_owned();
    file.append(safe.as_str());
    file.append("-");
    file.append(letters.as_str());
    file.append(".json");
    file
}

/// Whether a file name begins and ends as that of a chain, and in between holds no character that
/// is kept out of file names.
pub open spec fn plain_file(file: Seq<char>) -> bool {
    let (head, tail) = ("cryptocraft_chain_"@, ".json"@);
    &&& head.len() + tail.len() <= file.len()
    &&& file.take(head.len() as int) == head
    &&& file.skip(file.len() - tail.len()) == tail
    &&& forall|i: int|
        0 <= i < file.len() - tail.len() ==> !unsafe_in_name(#[trigger] file[i])
}

proof fn lemma_marks(email: Seq<char>)
    ensures
        forall|i: int| 0 <= i < marks(email).len() ==> 'a' <= #[trigger] marks(email)[i] <= 'z',
    decreases email.len(),
{
    if email.len() > 0 {
        let front = marks(email.drop_last());
        lemma_marks(email.drop_last());
        assert forall|i: int| 0 <= i < marks(email).len() implies 'a' <= #[trigger] marks(email)[i]
            <= 'z' by {
            if i < front.len() {
                assert(marks(email)[i] == front[i]);
            }
        }
    }
}

proof fn lemma_marks_tell_apart(a: Seq<char>, b: Seq<char>)
    requires
        safe_name(a) == safe_name(b),
        marks(a) == marks(b),
    ensures
        a == b,
    decreases a.len(),
{
    assert(safe_name(a).len() == a.len() && safe_name(b).len() == b.len());
    if a.len() == 0 {
        assert(a =~= b);
    } else {
        let (front_a, front_b) = (a.drop_last(), b.drop_last());
        assert(safe_name(front_a) =~= safe_name(a).drop_last());
        assert(safe_name(front_b) =~= safe_name(b).drop_last());
        assert(safe_name(a).last() == safe_char(a.last()));
        assert(safe_name(b).last() == safe_char(b.last()));
        if safe_char(a.last()) == '_' {
            assert(marks(a).drop_last() =~= marks(front_a));
            assert(marks(b).drop_last() =~= marks(front_b));
            assert(marks(a).last() == mark(a.last()));
            assert(marks(b).last() == mark(b.last()));
        }
        lemma_marks_tell_apart(front_a, front_b);
        assert(a =~= front_a.push(a.last()));
        assert(b =~= front_b.push(b.last()));
    }
}

/// The file that an address names, and the file of an account, are plain names: they lie in no other
/// directory and have one ending.
pub proof fn law_files_are_plain(email: Seq<char>)
    ensures
        plain_file(chain_file(email)),
        plain_file(account_file(email)),
{
    reveal_strlit("cryptocraft_chain_");
    reveal_strlit(".json");
    reveal_strlit("-");
    lemma_marks(email);
    let (head, tail) = ("cryptocraft_chain_"@, ".json"@);
    let file = chain_file(email);
    assert(file.take(head.len() as int) =~= head);
    assert(file.skip(file.len() - tail.len()) =~= tail);
    assert forall|i: int| 0 <= i < file.len() - tail.len() implies !unsafe_in_name(
        #[trigger] file[i],
    ) by {
        if i >= head.len() {
            assert(file[i] == safe_char(email[i - head.len()]));
        }
    }
    let kept = account_file(email);
    let n = head.len() + email.len();
    assert(kept.take(head.len() as int) =~= head);
    assert(kept.skip(kept.len() - tail.len()) =~= tail);
    assert forall|i: int| 0 <= i < kept.len() - tail.len() implies !unsafe_in_name(
        #[trigger] kept[i],
    ) by {
        if head.len() <= i < n {
            assert(kept[i] == safe_char(email[i - head.len()]));
        } else if i > n {
            assert(kept[i] == marks(email)[i - n - 1]);
        }
    }
}

/// Accounts with different addresses have their chains in different files, and each session is that
/// of its own account.
pub proof fn law_accounts_have_their_own_files(
    email: Seq<char>,
    user_id: Seq<char>,
    other: Seq<char>,
    other_id: Seq<char>,
)
    requires
        email != other,
    ensures
        session_of(email, user_id).chain_file != session_of(other, other_id).chain_file,
        session_of(email, user_id).email == email,
        session_of(email, user_id).user_id == user_id,
{
    reveal_strlit("cryptocraft_chain_");
    reveal_strlit(".json");
    reveal_strlit("-");
    let head = "cryptocraft_chain_"@;
    let (f, g) = (account_file(email), account_file(other));
    let (m, n) = (marks(email), marks(other));
    let (a, b) = (head.len() + email.len(), head.len() + other.len());
    if f == g {
        lemma_marks(email);
        lemma_marks(other);
        assert(f.len() == a + 1 + m.len() + 5);
        assert(g.len() == b + 1 + n.len() + 5);
        assert(f[a as int] == '-');
        assert(g[b as int] == '-');
        if a < b {
            assert(f[b as int] == m[b - a - 1]);
        } else if b < a {
            assert(g[a as int] == n[a - b - 1]);
        } else {
            assert(safe_name(email) =~= f.subrange(head.len() as int, a as int));
            assert(safe_name(other) =~= g.subrange(head.len() as int, b as int));
            assert(m =~= f.subrange(a + 1int, f.len() - 5));
            assert(n =~= g.subrange(b + 1int, g.len() - 5));
            lemma_marks_tell_apart(email, other);
        }
    }
}

/// The session of an account.
pub open spec fn session_of(email: Seq<char>, user_id: Seq<char>) -> SessionView {
    SessionView { email, user_id, chain_file: account_file(email) }
}

// ---- Accounts ------------------------------------------------------------------------------

/// An account. Of the password only the hash is kept.
#[derive(Debug, Clone)]
pub struct UserRecord {
    pub user_id: String,
    pub email: String,
    pub password_hash: String,
    pub created_at: i64,
}

/// An account.
#[verifier::ext_equal]
pub struct UserView {
    pub user_id: Seq<char>,
    pub email: Seq<char>,
    pub password_hash: Seq<char>,
    pub created_at: i64,
}

impl View for UserRecord {
    type V = UserView;

    open spec fn view(&self) -> UserView {
        UserView {
            user_id: self.user_id@,
            email: self.email@,
            password_hash: self.password_hash@,
            created_at: self.created_at,
        }
    }
}

/// Where the account with an address stands: the last place that has it.
pub open spec fn place(users: Seq<UserView>, email: Seq<char>) -> Option<int>
    decreases users.len(),
{
    if users.len() == 0 {
        None
    } else if users.last().email == email {
        Some(users.len() - 1)
    } else {
        place(users.drop_last(), email)
    }
}

/// The account with an address.
pub open spec fn account(users: Seq<UserView>, email: Seq<char>) -> Option<UserView> {
    match place(users, email) {
        Some(i) => Some(users[i]),
        None => None,
    }
}

/// Where an account stands, it has the address; where none stands, no account has it.
proof fn lemma_place(users: Seq<UserView>, email: Seq<char>)
    ensures
        match place(users, email) {
            Some(i) => 0 <= i < users.len() && users[i].email == email,
            None => forall|i: int| 0 <= i < users.len() ==> (#[trigger] users[i]).email != email,
        },
    decreases users.len(),
{
    if users.len() > 0 {
        let front = users.drop_last();
        lemma_place(front, email);
        if users.last().email != email && place(front, email) is None {
            assert forall|i: int| 0 <= i < users.len() implies (#[trigger] users[i]).email
                != email by {
                if i < front.len() {
                    assert(front[i].email != email);
                }
            }
        }
    }
}

/// Whether no two accounts have the same address.
pub open spec fn distinct(users: Seq<UserView>) -> bool {
    forall|i: int, j: int|
        0 <= i < j < users.len() ==> (#[trigger] users[i]).email != (#[trigger] users[j]).email
}

/// The accounts after one more is entered: it takes the place of one with the same address.
pub open spec fn entered(users: Seq<UserView>, user: UserView) -> Seq<UserView> {
    match place(users, user.email) {
        Some(i) => users.update(i, user),
        None => users.push(user),
    }
}

/// The accounts after a list of them is entered.
pub open spec fn all_entered(records: Seq<UserView>) -> Seq<UserView>
    decreases records.len(),
{
    if records.len() == 0 {
        seq![]
    } else {
        entered(all_entered(records.drop_last()), records.last())
    }
}

// ---- What is refused -----------------------------------------------------------------------

/// Why an account cannot be registered, if it cannot.
pub open spec fn refusal(users: Seq<UserView>, email: Seq<char>, password: Seq<char>) -> Option<
    Seq<char>,
> {
    let address = text::normalized(email);
    if address.len() == 0 || !text::occurs(address, "@"@) {
        Some("Please enter a valid email address."@)
    } else if utf8::encode_utf8(password).len() < MIN_PASSWORD_LEN {
        Some("Password must be at least 8 characters."@)
    } else if place(users, address) is Some {
        Some("An account with that email already exists."@)
    } else {
        None
    }
}

/// What registering an account comes to, with a given salt, identifier and time: the accounts
/// afterwards and the session, or why not.
pub open spec fn registration(
    users: Seq<UserView>,
    email: Seq<char>,
    password: Seq<char>,
    salt: Seq<char>,
    user_id: Seq<char>,
    created_at: i64,
) -> Result<(Seq<UserView>, SessionView), Seq<char>> {
    let address = text::normalized(email);
    match refusal(users, email, password) {
        Some(why) => Err(why),
        None => match argon2_hash(utf8::encode_utf8(password), salt) {
            Ok(password_hash) => Ok(
                (
                    users.push(UserView { user_id, email: address, password_hash, created_at }),
                    session_of(address, user_id),
                ),
            ),
            Err(why) => Err(why),
        },
    }
}

/// What logging in comes to: the session, or why not.
pub open spec fn admission(users: Seq<UserView>, email: Seq<char>, password: Seq<char>) -> Result<
    SessionView,
    Seq<char>,
> {
    let address = text::normalized(email);
    match account(users, address) {
        Some(user) => match hash_fault(user.password_hash) {
            Some(why) => Err(why),
            None => if !too_parallel(user.password_hash) && argon2_check(
                utf8::encode_utf8(password),
                user.password_hash,
            ) {
                Ok(session_of(address, user.user_id))
            } else {
                Err("Incorrect password."@)
            },
        },
        None => Err("No account found with that email."@),
    }
}

// ---- Providers -----------------------------------------------------------------------------

/// What keeps accounts. A session belongs to the address that was given, trimmed and in lower case.
pub trait AuthProvider {
    /// Registers a new account. It is refused where the address is taken.
    fn register(&mut self, email: &str, password: &str) -> (session: Result<Session, String>)
        ensures
            session matches Ok(s) ==> s.email@ == text::normalized(email@),
    ;

    /// Logs in to an account. It is refused where the address or the password is wrong.
    fn login(&mut self, email: &str, password: &str) -> (session: Result<Session, String>)
        ensures
            session matches Ok(s) ==> s.email@ == text::normalized(email@),
    ;
}

/// The accounts of this machine.
pub struct LocalAuthProvider {
    pub users: Vec<UserRecord>,
}

impl View for LocalAuthProvider {
    type V = Seq<UserView>;

    open spec fn view(&self) -> Seq<UserView> {
        self.users@.map_values(|u: UserRecord| u@)
    }
}

impl LocalAuthProvider {
    /// The file that an address names. No session uses it: a session has the file of its account,
    /// which no other account shares.
    pub fn chain_file_for(email: &str) -> (file: String)
        ensures
            file@ == chain_file(email@),
    {
        let (safe, _letters) = name_parts(email);
        let mut file = "cryptocraft_chain_".to_owned();
        file.append(safe.as_str());
        file.append(".json");
        file
    }

    /// The session of an account.
    pub fn make_session(record: &UserRecord) -> (session: Session)
        ensures
            session@ == session_of(record@.email, record@.user_id),
    {
        Session {
            chain_file: account_file_for(record.email.as_str()),
            email: record.email.as_str().to_owned(),
            user_id: record.user_id.as_str().to_owned(),
        }
    }

    fn find(&self, email: &str) -> (at: Option<usize>)
        ensures
            match at {
                Some(i) => place(self@, email@) == Some(i as int),
                None => place(self@, email@) is None,
            },
    {
        let ghost all = self@;
        let mut at: Option<usize> = None;
        let mut i: usize = 0;
        assert(all.take(0) =~= seq![]);
        while i < self.users.len()
            invariant
                i <= self.users@.len(),
                all == self@,
                match at {
                    Some(k) => place(all.take(i as int), email@) == Some(k as int),
                    None => place(all.take(i as int), email@) is None,
                },
            decreases self.users@.len() - i,
        {
            assert(all.take(i + 1).drop_last() =~= all.take(i as int));
            assert(all.take(i + 1).last() == self.users@[i as int]@);
            if text::same_text(self.users[i].email.as_str(), email) {
                at = Some(i);
            }
            i = i + 1;
        }
        assert(all.take(i as int) =~= all);
        at
    }

    /// The accounts that a list of records holds; of several with the same address the last one
    /// counts.
    pub fn load(records: Vec<UserRecord>) -> (provider: LocalAuthProvider)
        ensures
            provider@ == all_entered(records@.map_values(|u: UserRecord| u@)),
            distinct(provider@),
    {
        let ghost all = records@.map_values(|u: UserRecord| u@);
        let mut provider = LocalAuthProvider { users: Vec::new() };
        assert(all.take(0) =~= seq![]);
        assert(provider@ =~= seq![]);
        for record in it: records
            invariant
                all == it.seq().map_values(|u: UserRecord| u@),
                provider@ == all_entered(all.take(it.index() as int)),
                distinct(provider@),
        {
            let ghost before = provider@;
            let ghost user = record@;
            assert(all.take(it.index() + 1).drop_last() =~= all.take(it.index() as int));
            assert(all.take(it.index() + 1).last() == user);
            proof {
                law_entering_keeps_addresses_distinct(before, user);
                lemma_place(before, user.email);
            }
            match provider.find(record.email.as_str()) {
                Some(i) => {
                    provider.users.set(i, record);
                    assert(provider@ =~= before.update(i as int, user));
                },
                None => {
                    provider.users.push(record);
                    assert(provider@ =~= before.push(user));
                },
            }
        }
        assert(all.take(all.len() as int) =~= all);
        provider
    }

    /// Whether there is any account.
    pub fn has_users(&self) -> (yes: bool)
        ensures
            yes == (self@.len() > 0),
    {
        self.users.len() > 0
    }

    /// Registers a new account with a given salt, identifier and time. Whoever has registered can
    /// log in with the same password.
    pub fn register_with(
        &mut self,
        email: &str,
        password: &str,
        salt: &str,
        user_id: String,
        created_at: i64,
    ) -> (session: Result<Session, String>)
        ensures
            match session {
                Ok(s) => registration(
                    old(self)@,
                    email@,
                    password@,
                    salt@,
                    user_id@,
                    created_at,
                ) == Ok::<(Seq<UserView>, SessionView), Seq<char>>((final(self)@, s@)),
                Err(why) => registration(
                    old(self)@,
                    email@,
                    password@,
                    salt@,
                    user_id@,
                    created_at,
                ) == Err::<(Seq<UserView>, SessionView), Seq<char>>(why@) && *final(self) == *old(self),
            },
            session matches Ok(s) ==> admission(final(self)@, email@, password@) == Ok::<
                SessionView,
                Seq<char>,
            >(s@),
            session is Ok ==> bears_salt(final(self)@.last().password_hash, salt@),
            refusal(old(self)@, email@, password@) is None && is_salt(salt@) && utf8::encode_utf8(
                password@,
            ).len() <= u32::MAX ==> session is Ok,
    {
        let address = text::normalize(email);
        if address.as_str().is_empty() || !text::contains_text(address.as_str(), "@") {
            return Err("Please enter a valid email address.".to_owned());
        }
        if password.as_bytes().len() < MIN_PASSWORD_LEN {
            return Err("Password must be at least 8 characters.".to_owned());
        }
        if self.find(address.as_str()).is_some() {
            return Err("An account with that email already exists.".to_owned());
        }
        let password_hash = match hash_password(password.as_bytes(), salt) {
            Ok(hash) => hash,
            Err(why) => {
                return Err(why);
            },
        };
        proof {
            lemma_default_lanes(password_hash@, salt@);
        }
        let user = UserRecord { user_id, email: address, password_hash, created_at };
        let session = Self::make_session(&user);
        let ghost view = user@;
        self.users.push(user);
        assert(self@ =~= old(self)@.push(view));
        assert(self@.drop_last() =~= old(self)@);
        Ok(session)
    }
}

impl AuthProvider for LocalAuthProvider {
    /// Registers a new account now, with a salt and an identifier that are left open. The hash that
    /// is kept bears the salt.
    fn register(&mut self, email: &str, password: &str) -> (session: Result<Session, String>)
        ensures
            exists|salt: Seq<char>, user_id: Seq<char>, created_at: i64|
                is_salt(salt) && id::identifies(user_id) && match session {
                    Ok(s) => #[trigger] registration(
                        old(self)@,
                        email@,
                        password@,
                        salt,
                        user_id,
                        created_at,
                    ) == Ok::<(Seq<UserView>, SessionView), Seq<char>>((final(self)@, s@))
                        && bears_salt(final(self)@.last().password_hash, salt),
                    Err(why) => registration(
                        old(self)@,
                        email@,
                        password@,
                        salt,
                        user_id,
                        created_at,
                    ) == Err::<(Seq<UserView>, SessionView), Seq<char>>(why@) && *final(self)
                        == *old(self),
                },
            session matches Ok(s) ==> admission(final(self)@, email@, password@) == Ok::<
                SessionView,
                Seq<char>,
            >(s@),
            refusal(old(self)@, email@, password@) is None && utf8::encode_utf8(password@).len()
                <= u32::MAX ==> session is Ok,
    {
        let salt = fresh_salt();
        let user_id = id::fresh_id();
        let created_at: i64 = db::timestamp_of(clock::seconds_since_epoch());
        let ghost name = user_id@;
        let session = self.register_with(email, password, salt.as_str(), user_id, created_at);
        assert(is_salt(salt@) && id::identifies(name));
        session
    }

    /// Logs in to an account. Nothing is changed.
    fn login(&mut self, email: &str, password: &str) -> (session: Result<Session, String>)
        ensures
            *final(self) == *old(self),
            match session {
                Ok(s) => admission(old(self)@, email@, password@) == Ok::<SessionView, Seq<char>>(
                    s@,
                ),
                Err(why) => admission(old(self)@, email@, password@) == Err::<
                    SessionView,
                    Seq<char>,
                >(why@),
            },
    {
        let address = text::normalize(email);
        proof {
            lemma_place(self@, address@);
        }
        match self.find(address.as_str()) {
            None => Err("No account found with that email.".to_owned()),
            Some(i) => {
                let hash = self.users[i].password_hash.as_str();
                match fault_of(hash) {
                    Some(why) => Err(why),
                    None => if !asks_too_many_lanes(hash) && check_password(
                        password.as_bytes(),
                        hash,
                    ) {
                        Ok(Self::make_session(&self.users[i]))
                    } else {
                        Err("Incorrect password.".to_owned())
                    },
                }
            },
        }
    }
}

/// Whoever has registered has an account.
proof fn lemma_registered_has_account(
    users: Seq<UserView>,
    email: Seq<char>,
    password: Seq<char>,
    salt: Seq<char>,
    user_id: Seq<char>,
    created_at: i64,
)
    ensures
        registration(users, email, password, salt, user_id, created_at) matches Ok((now, _)) ==> {
            &&& place(now, text::normalized(email)) == Some(users.len() as int)
            &&& now.drop_last() == users
        },
        place(users, text::normalized(email)) is Some ==> registration(
            users,
            email,
            password,
            salt,
            user_id,
            created_at,
        ) is Err,
{
    match registration(users, email, password, salt, user_id, created_at) {
        Ok((now, _)) => {
            assert(now.drop_last() =~= users);
        },
        Err(_) => {},
    }
}

// ---- What accounts promise -----------------------------------------------------------------

/// Whoever has an account cannot register its address, and whoever has none cannot log in.
pub proof fn law_accounts_decide(
    users: Seq<UserView>,
    email: Seq<char>,
    password: Seq<char>,
    salt: Seq<char>,
    user_id: Seq<char>,
    created_at: i64,
)
    ensures
        account(users, text::normalized(email)) is Some ==> registration(
            users,
            email,
            password,
            salt,
            user_id,
            created_at,
        ) is Err,
        account(users, text::normalized(email)) is None ==> admission(users, email, password)
            == Err::<SessionView, Seq<char>>("No account found with that email."@),
{
}

/// Entering an account leaves no two accounts with the same address.
pub proof fn law_entering_keeps_addresses_distinct(users: Seq<UserView>, user: UserView)
    requires
        distinct(users),
    ensures
        distinct(entered(users, user)),
{
    lemma_place(users, user.email);
    let now = entered(users, user);
    assert forall|i: int, j: int| 0 <= i < j < now.len() implies (#[trigger] now[i]).email != (
    #[trigger] now[j]).email by {
        match place(users, user.email) {
            Some(k) => {
                assert(users[i].email != users[j].email);
                assert(users[k].email == user.email);
            },
            None => {
                if j < users.len() {
                    assert(users[i].email != users[j].email);
                } else {
                    assert(users[i].email != user.email);
                }
            },
        }
    }
}

/// Registering leaves no two accounts with the same address.
pub proof fn law_registering_keeps_addresses_distinct(
    users: Seq<UserView>,
    email: Seq<char>,
    password: Seq<char>,
    salt: Seq<char>,
    user_id: Seq<char>,
    created_at: i64,
)
    requires
        distinct(users),
        registration(users, email, password, salt, user_id, created_at) is Ok,
    ensures
        distinct(registration(users, email, password, salt, user_id, created_at)->Ok_0.0),
{
    let now = registration(users, email, password, salt, user_id, created_at)->Ok_0.0;
    assert(now == entered(users, now.last()));
    law_entering_keeps_addresses_distinct(users, now.last());
}

/// An address is registered once: whoever registers it again is refused and has no effect,
/// whatever the password, also where the address is written in another way that comes to the same.
pub proof fn law_address_is_registered_once(
    users: Seq<UserView>,
    email: Seq<char>,
    password: Seq<char>,
    salt: Seq<char>,
    user_id: Seq<char>,
    created_at: i64,
    again: Seq<char>,
    password_again: Seq<char>,
    salt_again: Seq<char>,
    user_id_again: Seq<char>,
    created_again: i64,
)
    requires
        registration(users, email, password, salt, user_id, created_at) is Ok,
        text::normalized(again) == text::normalized(email),
    ensures
        registration(
            registration(users, email, password, salt, user_id, created_at)->Ok_0.0,
            again,
            password_again,
            salt_again,
            user_id_again,
            created_again,
        ) is Err,
{
    lemma_registered_has_account(users, email, password, salt, user_id, created_at);
}

/// Registering an account changes nothing for any other: whoever could log in still can, and
/// whoever could not still cannot.
pub proof fn law_registering_leaves_others_alone(
    users: Seq<UserView>,
    email: Seq<char>,
    password: Seq<char>,
    salt: Seq<char>,
    user_id: Seq<char>,
    created_at: i64,
    other: Seq<char>,
    other_password: Seq<char>,
)
    requires
        registration(users, email, password, salt, user_id, created_at) is Ok,
        text::normalized(other) != text::normalized(email),
    ensures
        admission(
            registration(users, email, password, salt, user_id, created_at)->Ok_0.0,
            other,
            other_password,
        ) == admission(users, other, other_password),
{
    lemma_registered_has_account(users, email, password, salt, user_id, created_at);
    lemma_place(users, text::normalized(other));
}

// ---- The way in ----------------------------------------------------------------------------

/// What a visitor wants.
#[derive(Clone, Copy, Debug, PartialEq, Eq, Structural)]
pub enum Wish {
    Login,
    Register,
}

/// What a visitor wants, given whether there are accounts to log in to and the answer to the menu,
/// which is only asked for where there are.
pub open spec fn wish_of(has_users: bool, answer: Seq<char>) -> Wish {
    if has_users && text::trimmed(answer) == "1"@ {
        Wish::Login
    } else {
        Wish::Register
    }
}

/// What a visitor wants.
pub fn read_wish(has_users: bool, answer: &str) -> (wish: Wish)
    ensures
        wish == wish_of(has_users, answer@),
{
    if has_users && text::same_text(text::trim(answer), "1") {
        Wish::Login
    } else {
        Wish::Register
    }
}

/// Whether a password that was typed twice was typed the same; else what the visitor is told.
pub fn confirm_password(password: &str, confirm: &str) -> (same: Result<(), String>)
    ensures
        match same {
            Ok(_) => password@ == confirm@,
            Err(why) => password@ != confirm@ && why@ == "Passwords do not match."@,
        },
{
    if text::same_text(password, confirm) {
        Ok(())
    } else {
        Err("Passwords do not match.".to_owned())
    }
}

/// How a visitor who got in is greeted.
pub open spec fn greeting_text(wish: Wish, email: Seq<char>) -> Seq<char> {
    match wish {
        Wish::Login => "Logged in as "@ + email + ". Welcome back!"@,
        Wish::Register => "Account created! Welcome, "@ + email + "!"@,
    }
}

/// How a visitor who got in is greeted.
pub fn greeting(wish: Wish, session: &Session) -> (s: String)
    ensures
        s@ == greeting_text(wish, session@.email),
{
    match wish {
        Wish::Login => {
            let mut s = "Logged in as ".to_owned();
            s.append(session.email.as_str());
            s.append(". Welcome back!");
            s
        },
        Wish::Register => {
            let mut s = "Account created! Welcome, ".to_owned();
            s.append(session.email.as_str());
            s.append("!");
            s
        },
    }
}

/// What is to be done next until a visitor is in.
#[derive(Debug)]
pub enum LoginStep {
    /// Ask what the visitor wants, where there are accounts to log in to.
    AskWish,
    /// Ask for the address.
    AskEmail(Wish),
    /// Ask for the password.
    AskPassword { wish: Wish, email: String },
    /// Ask for the password once more.
    AskConfirm { email: String, password: String },
    /// Try to log in.
    TryLogin { email: String, password: String },
    /// Try to register.
    TryRegister { email: String, password: String },
    /// The visitor is in.
    Done(Session),
}

/// What is to be done next until a visitor is in.
#[verifier::ext_equal]
pub enum LoginStepView {
    AskWish,
    AskEmail(Wish),
    AskPassword { wish: Wish, email: Seq<char> },
    AskConfirm { email: Seq<char>, password: Seq<char> },
    TryLogin { email: Seq<char>, password: Seq<char> },
    TryRegister { email: Seq<char>, password: Seq<char> },
    Done(SessionView),
}

impl View for LoginStep {
    type V = LoginStepView;

    open spec fn view(&self) -> LoginStepView {
        match *self {
            LoginStep::AskWish => LoginStepView::AskWish,
            LoginStep::AskEmail(wish) => LoginStepView::AskEmail(wish),
            LoginStep::AskPassword { wish, email } => LoginStepView::AskPassword {
                wish,
                email: email@,
            },
            LoginStep::AskConfirm { email, password } => LoginStepView::AskConfirm {
                email: email@,
                password: password@,
            },
            LoginStep::TryLogin { email, password } => LoginStepView::TryLogin {
                email: email@,
                password: password@,
            },
            LoginStep::TryRegister { email, password } => LoginStepView::TryRegister {
                email: email@,
                password: password@,
            },
            LoginStep::Done(session) => LoginStepView::Done(session@),
        }
    }
}

/// What happened at a step: a line was typed, or an attempt had an outcome.
#[derive(Debug)]
pub enum LoginEvent {
    Typed(String),
    Outcome(Result<Session, String>),
}

/// What happened at a step.
#[verifier::ext_equal]
pub enum LoginEventView {
    Typed(Seq<char>),
    Outcome(Result<SessionView, Seq<char>>),
}

impl View for LoginEvent {
    type V = LoginEventView;

    open spec fn view(&self) -> LoginEventView {
        match *self {
            LoginEvent::Typed(line) => LoginEventView::Typed(line@),
            LoginEvent::Outcome(Ok(session)) => LoginEventView::Outcome(Ok(session@)),
            LoginEvent::Outcome(Err(why)) => LoginEventView::Outcome(Err(why@)),
        }
    }
}

/// The step after an event. What a step does not wait for changes nothing.
pub open spec fn login_next(
    step: LoginStepView,
    has_users: bool,
    event: LoginEventView,
) -> LoginStepView {
    match event {
        LoginEventView::Typed(line) => match step {
            LoginStepView::AskWish => LoginStepView::AskEmail(wish_of(has_users, line)),
            LoginStepView::AskEmail(wish) => LoginStepView::AskPassword {
                wish,
                email: text::trimmed(line),
            },
            LoginStepView::AskPassword { wish: Wish::Login, email } => LoginStepView::TryLogin {
                email,
                password: line,
            },
            LoginStepView::AskPassword { wish: Wish::Register, email } => {
                LoginStepView::AskConfirm { email, password: line }
            },
            LoginStepView::AskConfirm { email, password } => if password == line {
                LoginStepView::TryRegister { email, password }
            } else {
                LoginStepView::AskWish
            },
            _ => step,
        },
        LoginEventView::Outcome(outcome) => match step {
            LoginStepView::TryLogin { .. } | LoginStepView::TryRegister { .. } => match outcome {
                Ok(session) => LoginStepView::Done(session),
                Err(_) => LoginStepView::AskWish,
            },
            _ => step,
        },
    }
}

/// What the visitor is told at an event, if anything.
pub open spec fn login_told(step: LoginStepView, event: LoginEventView) -> Option<Seq<char>> {
    match (step, event) {
        (LoginStepView::AskConfirm { email: _, password }, LoginEventView::Typed(line)) => {
            if password == line {
                None
            } else {
                Some("Passwords do not match."@)
            }
        },
        (LoginStepView::TryLogin { .. }, LoginEventView::Outcome(Ok(session))) => Some(
            greeting_text(Wish::Login, session.email),
        ),
        (LoginStepView::TryRegister { .. }, LoginEventView::Outcome(Ok(session))) => Some(
            greeting_text(Wish::Register, session.email),
        ),
        (LoginStepView::TryLogin { .. }, LoginEventView::Outcome(Err(why)))
        | (LoginStepView::TryRegister { .. }, LoginEventView::Outcome(Err(why))) => Some(
            "Error: "@ + why,
        ),
        _ => None,
    }
}

/// The step and what the visitor is told after an attempt to get in.
fn concluded(wish: Wish, outcome: Result<Session, String>) -> (next: (LoginStep, Option<String>))
    ensures
        match outcome {
            Ok(session) => next.0@ == LoginStepView::Done(session@) && (next.1 matches Some(told)
                && told@ == greeting_text(wish, session@.email)),
            Err(why) => next.0@ == LoginStepView::AskWish && (next.1 matches Some(told) && told@
                == "Error: "@ + why@),
        },
{
    match outcome {
        Ok(session) => {
            let told = greeting(wish, &session);
            (LoginStep::Done(session), Some(told))
        },
        Err(why) => {
            let mut told = "Error: ".to_owned();
            told.append(why.as_str());
            (LoginStep::AskWish, Some(told))
        },
    }
}

impl LoginStep {
    /// The step after an event, and what the visitor is told.
    pub fn advance(self, has_users: bool, event: LoginEvent) -> (next: (LoginStep, Option<String>))
        ensures
            next.0@ == login_next(self@, has_users, event@),
            match next.1 {
                Some(told) => login_told(self@, event@) == Some(told@),
                None => login_told(self@, event@) is None,
            },
    {
        match event {
            LoginEvent::Typed(line) => match self {
                LoginStep::AskWish => (
                    LoginStep::AskEmail(read_wish(has_users, line.as_str())),
                    None,
                ),
                LoginStep::AskEmail(wish) => (
                    LoginStep::AskPassword { wish, email: text::trim(line.as_str()).to_owned() },
                    None,
                ),
                LoginStep::AskPassword { wish, email } => match wish {
                    Wish::Login => (LoginStep::TryLogin { email, password: line }, None),
                    Wish::Register => (LoginStep::AskConfirm { email, password: line }, None),
                },
                LoginStep::AskConfirm { email, password } => match confirm_password(
                    password.as_str(),
                    line.as_str(),
                ) {
                    Ok(_) => (LoginStep::TryRegister { email, password }, None),
                    Err(why) => (LoginStep::AskWish, Some(why)),
                },
                step => (step, None),
            },
            LoginEvent::Outcome(outcome) => match self {
                LoginStep::TryLogin { .. } => concluded(Wish::Login, outcome),
                LoginStep::TryRegister { .. } => concluded(Wish::Register, outcome),
                step => (step, None),
            },
        }
    }
}

// ---- What the way in promises --------------------------------------------------------------

/// The step after a run of events.
pub open spec fn login_after(has_users: bool, events: Seq<LoginEventView>) -> LoginStepView
    decreases events.len(),
{
    if events.len() == 0 {
        LoginStepView::AskWish
    } else {
        login_next(login_after(has_users, events.drop_last()), has_users, events.last())
    }
}

/// What a visitor wants at a step, as far as it is known.
pub open spec fn wish_at(step: LoginStepView) -> Option<Wish> {
    match step {
        LoginStepView::AskWish | LoginStepView::Done(_) => None,
        LoginStepView::AskEmail(wish) => Some(wish),
        LoginStepView::AskPassword { wish, email: _ } => Some(wish),
        LoginStepView::AskConfirm { .. } | LoginStepView::TryRegister { .. } => Some(
            Wish::Register,
        ),
        LoginStepView::TryLogin { .. } => Some(Wish::Login),
    }
}

/// The address at a step, as far as it is known.
pub open spec fn address_at(step: LoginStepView) -> Option<Seq<char>> {
    match step {
        LoginStepView::AskPassword { wish: _, email } => Some(email),
        LoginStepView::AskConfirm { email, password: _ } => Some(email),
        LoginStepView::TryLogin { email, password: _ } => Some(email),
        LoginStepView::TryRegister { email, password: _ } => Some(email),
        _ => None,
    }
}

/// Nobody registers without having typed the same password twice.
pub proof fn law_registering_needs_the_password_twice(
    step: LoginStepView,
    has_users: bool,
    event: LoginEventView,
    email: Seq<char>,
    password: Seq<char>,
)
    requires
        !(step is TryRegister),
        login_next(step, has_users, event) == (LoginStepView::TryRegister { email, password }),
    ensures
        step == (LoginStepView::AskConfirm { email, password }),
        event == LoginEventView::Typed(password),
{
}

/// Where there are no accounts, nobody gets to log in, whatever is typed.
pub proof fn law_nobody_logs_in_without_accounts(events: Seq<LoginEventView>)
    ensures
        wish_at(login_after(false, events)) != Some(Wish::Login),
        !(login_after(false, events) is TryLogin),
    decreases events.len(),
{
    if events.len() > 0 {
        law_nobody_logs_in_without_accounts(events.drop_last());
    }
}

/// Whoever is in got there by an attempt that succeeded, with the session that it gave.
pub proof fn law_only_success_lets_in(
    has_users: bool,
    events: Seq<LoginEventView>,
    session: SessionView,
)
    requires
        login_after(has_users, events) == LoginStepView::Done(session),
    ensures
        events.contains(LoginEventView::Outcome(Ok(session))),
    decreases events.len(),
{
    let front = events.drop_last();
    let step = login_after(has_users, front);
    let success = LoginEventView::Outcome(Ok(session));
    if step is Done {
        law_only_success_lets_in(has_users, front, session);
        let i = choose|i: int| 0 <= i < front.len() && front[i] == success;
        assert(events[i] == success);
    } else {
        assert(events.last() == success);
        assert(events[events.len() - 1] == success);
    }
}

/// A step that lets a visitor in is an attempt, and it lets in with the session of its outcome.
pub proof fn law_attempts_let_in(
    step: LoginStepView,
    has_users: bool,
    event: LoginEventView,
    session: SessionView,
)
    requires
        !(step is Done),
        login_next(step, has_users, event) == LoginStepView::Done(session),
    ensures
        step is TryLogin || step is TryRegister,
        event == LoginEventView::Outcome(Ok(session)),
{
}

/// The address that is handed on is the one that was typed, without the white space around it.
pub proof fn law_address_is_handed_on_trimmed(
    step: LoginStepView,
    has_users: bool,
    event: LoginEventView,
)
    ensures
        address_at(login_next(step, has_users, event)) matches Some(email) ==> {
            ||| address_at(step) == Some(email)
            ||| step is AskEmail && (event matches LoginEventView::Typed(line) && email
                == text::trimmed(line))
        },
{
}

// ---- What addresses and accounts come to ---------------------------------------------------

/// The file that an address names holds the address, character by character, between a fixed
/// beginning and a fixed ending; the at sign, the dot, the plus sign, the space and both slashes are
/// underscores there. The file of an account begins in the same way.
pub proof fn law_files_hold_the_address(email: Seq<char>, i: int)
    requires
        0 <= i < email.len(),
    ensures
        ({
            let c = email[i];
            let kept = if c == '@' || c == '.' || c == '+' || c == ' ' || c == '/' || c == '\\' {
                '_'
            } else {
                c
            };
            &&& chain_file(email).len() == 18 + email.len() + 5
            &&& chain_file(email).take(18) == "cryptocraft_chain_"@
            &&& chain_file(email)[18 + i] == kept
            &&& chain_file(email).skip(18 + email.len() as int) == ".json"@
            &&& account_file(email).take(18) == "cryptocraft_chain_"@
            &&& account_file(email)[18 + i] == kept
            &&& account_file(email)[18 + email.len() as int] == '-'
            &&& account_file(email).skip(account_file(email).len() - 5) == ".json"@
        }),
{
    reveal_strlit("cryptocraft_chain_");
    reveal_strlit(".json");
    reveal_strlit("-");
    let (f, g) = (chain_file(email), account_file(email));
    assert(f.take(18) =~= "cryptocraft_chain_"@);
    assert(f.skip(18 + email.len() as int) =~= ".json"@);
    assert(g.take(18) =~= "cryptocraft_chain_"@);
    assert(g.skip(g.len() - 5) =~= ".json"@);
    assert(f[18 + i] == safe_char(email[i]));
    assert(g[18 + i] == safe_char(email[i]));
}

/// The session of an account is that of its address and its identifier, as they are.
pub proof fn law_session_is_of_the_account(email: Seq<char>, user_id: Seq<char>)
    ensures
        session_of(email, user_id).email == email,
        session_of(email, user_id).user_id == user_id,
        session_of(email, user_id).chain_file == account_file(email),
{
}

/// A registration is refused for a reason that holds, and for the first that does: the address,
/// trimmed and in lower case, is empty or has no at sign; the password has fewer than eight bytes;
/// an account has the address. Where none holds it is not refused.
pub proof fn law_registrations_are_refused_for_a_reason(
    users: Seq<UserView>,
    email: Seq<char>,
    password: Seq<char>,
)
    ensures
        ({
            let a = text::lowercase(text::trimmed(email));
            let bad = a.len() == 0 || !(exists|i: int|
                0 <= i < a.len() && (#[trigger] a[i]) == '@');
            let short = utf8::encode_utf8(password).len() < 8;
            let taken = exists|k: int| 0 <= k < users.len() && (#[trigger] users[k]).email == a;
            let why = refusal(users, email, password);
            &&& bad ==> why == Some("Please enter a valid email address."@)
            &&& !bad && short ==> why == Some("Password must be at least 8 characters."@)
            &&& !bad && !short && taken ==> why == Some(
                "An account with that email already exists."@,
            )
            &&& !bad && !short && !taken ==> why is None
        }),
{
    reveal_strlit("@");
    let a = text::lowercase(text::trimmed(email));
    lemma_place(users, a);
    if exists|i: int| 0 <= i < a.len() && (#[trigger] a[i]) == '@' {
        let i = choose|i: int| 0 <= i < a.len() && (#[trigger] a[i]) == '@';
        assert(a.subrange(i, i + 1) =~= "@"@);
        assert(text::occurs_at(a, "@"@, i));
    }
    if text::occurs(a, "@"@) {
        let i = choose|i: int| text::occurs_at(a, "@"@, i);
        assert(a.subrange(i, i + 1)[0] == "@"@[0]);
        assert(a[i] == '@');
    }
    match place(users, a) {
        Some(k) => {
            assert(users[k].email == a);
        },
        None => {},
    }
}

/// An account that is registered comes last, under the address that was given, trimmed and in lower
/// case, with the identifier and the time, and with the hash of the password that was given with the
/// salt; the others stay as they were, and the session is that of the new account. What is refused
/// registers nobody.
pub proof fn law_registering_adds_the_account(
    users: Seq<UserView>,
    email: Seq<char>,
    password: Seq<char>,
    salt: Seq<char>,
    user_id: Seq<char>,
    created_at: i64,
)
    ensures
        ({
            let made = registration(users, email, password, salt, user_id, created_at);
            let hash = argon2_hash(utf8::encode_utf8(password), salt);
            &&& refusal(users, email, password) matches Some(why) ==> made == Err::<
                (Seq<UserView>, SessionView),
                Seq<char>,
            >(why)
            &&& refusal(users, email, password) is None && hash is Err ==> made == Err::<
                (Seq<UserView>, SessionView),
                Seq<char>,
            >(hash->Err_0)
            &&& refusal(users, email, password) is None && hash is Ok ==> made is Ok
            &&& made matches Ok((now, session)) ==> {
                let a = text::lowercase(text::trimmed(email));
                let n = users.len() as int;
                &&& now.len() == n + 1
                &&& forall|k: int| 0 <= k < n ==> (#[trigger] now[k]) == users[k]
                &&& now[n].email == a
                &&& now[n].user_id == user_id
                &&& now[n].created_at == created_at
                &&& hash == Ok::<Seq<char>, Seq<char>>(now[n].password_hash)
                &&& session.email == a
                &&& session.user_id == user_id
                &&& session.chain_file == account_file(a)
            }
        }),
{
}

/// Whoever has an account logs in exactly with a password that goes with its hash, and gets the
/// session of that account; a hash that cannot be read is reported, and any other password is
/// incorrect. Where no account has the address, there is none to log in to.
pub proof fn law_logging_in_needs_the_password(
    users: Seq<UserView>,
    email: Seq<char>,
    password: Seq<char>,
    k: int,
)
    requires
        distinct(users),
    ensures
        ({
            let a = text::lowercase(text::trimmed(email));
            let got = admission(users, email, password);
            &&& 0 <= k < users.len() && users[k].email == a ==> {
                let hash = users[k].password_hash;
                match hash_fault(hash) {
                    Some(why) => got == Err::<SessionView, Seq<char>>(why),
                    None => if argon2_check(utf8::encode_utf8(password), hash) && !too_parallel(
                        hash,
                    ) {
                        got matches Ok(s) && s.email == a && s.user_id == users[k].user_id
                            && s.chain_file == account_file(a)
                    } else {
                        got == Err::<SessionView, Seq<char>>("Incorrect password."@)
                    },
                }
            }
            &&& (forall|j: int| 0 <= j < users.len() ==> (#[trigger] users[j]).email != a)
                ==> got == Err::<SessionView, Seq<char>>("No account found with that email."@)
        }),
{
    let a = text::lowercase(text::trimmed(email));
    lemma_place(users, a);
    match place(users, a) {
        Some(i) => {
            if 0 <= k < users.len() && users[k].email == a {
                if k < i {
                    assert(users[k].email != users[i].email);
                } else if i < k {
                    assert(users[i].email != users[k].email);
                }
            }
        },
        None => {},
    }
}

/// A hash asks for too many lanes only where nine digits follow a `p=`; and it does where they
/// follow the last one.
pub proof fn law_few_lanes_are_fine(hash: Seq<char>, i: int)
    ensures
        (forall|j: int|
            0 <= j && j + 11 <= hash.len() && (#[trigger] hash[j]) == 'p' && hash[j + 1] == '='
                ==> exists|k: int|
                j + 2 <= k < j + 11 && !('0' <= (#[trigger] hash[k]) <= '9')) ==> !too_parallel(hash),
        0 <= i && i + 11 <= hash.len() && hash[i] == 'p' && hash[i + 1] == '=' && (forall|k: int|
            i + 2 <= k < i + 11 ==> '0' <= (#[trigger] hash[k]) <= '9') && (forall|j: int|
            i + 1 < j < hash.len() ==> (#[trigger] hash[j]) != '=') ==> too_parallel(hash),
{
    if too_parallel(hash) {
        let j = choose|j: int| #[trigger]
            lanes_at(hash, j) && nine_digits_at(hash, j + 2) && forall|m: int|
                j < m ==> !#[trigger] lanes_at(hash, m);
        assert(hash[j] == 'p' && hash[j + 1] == '=' && j + 11 <= hash.len());
        assert forall|k: int| j + 2 <= k < j + 11 implies '0' <= (#[trigger] hash[k]) <= '9' by {
            assert(text::is_digit(hash[k]));
        }
    }
    if 0 <= i && i + 11 <= hash.len() && hash[i] == 'p' && hash[i + 1] == '=' && (forall|k: int|
        i + 2 <= k < i + 11 ==> '0' <= (#[trigger] hash[k]) <= '9') && (forall|j: int|
        i + 1 < j < hash.len() ==> (#[trigger] hash[j]) != '=') {
        assert(lanes_at(hash, i));
        assert forall|k: int| i + 2 <= k < i + 11 implies text::is_digit(#[trigger] hash[k]) by {}
        assert(nine_digits_at(hash, i + 2));
        assert forall|j: int| i < j implies !#[trigger] lanes_at(hash, j) by {
            if j + 1 < hash.len() {
                assert(hash[j + 1] != '=');
            }
        }
    }
}

/// Entering an account puts it in the list, in the place of one with its address or else at the end;
/// the others stay as they were.
pub proof fn law_entering_adds_or_replaces(users: Seq<UserView>, user: UserView, i: int)
    requires
        distinct(users),
    ensures
        ({
            let now = entered(users, user);
            let known = exists|k: int|
                0 <= k < users.len() && (#[trigger] users[k]).email == user.email;
            &&& now.contains(user)
            &&& now.len() == (if known {
                users.len()
            } else {
                users.len() + 1
            })
            &&& 0 <= i < users.len() ==> now[i] == (if users[i].email == user.email {
                user
            } else {
                users[i]
            })
        }),
{
    let now = entered(users, user);
    lemma_place(users, user.email);
    match place(users, user.email) {
        Some(k) => {
            assert(now[k] == user);
            assert(users[k].email == user.email);
            if 0 <= i < users.len() && i != k {
                if i < k {
                    assert(users[i].email != users[k].email);
                } else {
                    assert(users[k].email != users[i].email);
                }
            }
        },
        None => {
            assert(now[users.len() as int] == user);
        },
    }
}

/// The accounts that a list of records holds are entered one by one, beginning with none.
pub proof fn law_records_are_entered_in_turn(records: Seq<UserView>, user: UserView)
    ensures
        all_entered(seq![]) == Seq::<UserView>::empty(),
        all_entered(records.push(user)) == entered(all_entered(records), user),
{
    assert(records.push(user).drop_last() =~= records);
}

/// The way in, step by step: where there are accounts, a one leads to logging in and anything else
/// to registering; where there are none, everything leads to registering. The address is taken
/// without the white space around it and the password as it was typed; who registers types it again.
pub proof fn law_way_in_takes_its_steps(
    has_users: bool,
    line: Seq<char>,
    wish: Wish,
    email: Seq<char>,
    password: Seq<char>,
    session: SessionView,
    why: Seq<char>,
)
    ensures
        ({
            let typed = LoginEventView::Typed(line);
            let logs_in = has_users && text::trimmed(line) == "1"@;
            &&& login_next(LoginStepView::AskWish, has_users, typed) == LoginStepView::AskEmail(
                if logs_in {
                    Wish::Login
                } else {
                    Wish::Register
                },
            )
            &&& login_next(LoginStepView::AskEmail(wish), has_users, typed) == (
            LoginStepView::AskPassword { wish, email: text::trimmed(line) })
            &&& login_next(
                LoginStepView::AskPassword { wish: Wish::Login, email },
                has_users,
                typed,
            ) == (LoginStepView::TryLogin { email, password: line })
            &&& login_next(
                LoginStepView::AskPassword { wish: Wish::Register, email },
                has_users,
                typed,
            ) == (LoginStepView::AskConfirm { email, password: line })
            &&& login_next(LoginStepView::AskConfirm { email, password }, has_users, typed) == (
            if line == password {
                LoginStepView::TryRegister { email, password }
            } else {
                LoginStepView::AskWish
            })
        }),
        ({
            let ok = LoginEventView::Outcome(Ok(session));
            let no = LoginEventView::Outcome(Err(why));
            let login = LoginStepView::TryLogin { email, password };
            let register = LoginStepView::TryRegister { email, password };
            &&& login_next(login, has_users, ok) == LoginStepView::Done(session)
            &&& login_next(register, has_users, ok) == LoginStepView::Done(session)
            &&& login_next(login, has_users, no) == LoginStepView::AskWish
            &&& login_next(register, has_users, no) == LoginStepView::AskWish
            &&& login_told(login, ok) == Some(
                "Logged in as "@ + session.email + ". Welcome back!"@,
            )
            &&& login_told(register, ok) == Some(
                "Account created! Welcome, "@ + session.email + "!"@,
            )
            &&& login_told(login, no) == Some("Error: "@ + why)
            &&& login_told(register, no) == Some("Error: "@ + why)
            &&& login_told(
                LoginStepView::AskConfirm { email, password },
                LoginEventView::Typed(line),
            ) == (if line == password {
                None
            } else {
                Some("Passwords do not match."@)
            })
        }),
{
}

/// What a step does not wait for changes nothing, and nothing is told of it: a line while an attempt is
/// made, an outcome while something is asked, and anything once the visitor is in.
pub proof fn law_steps_wait(
    step: LoginStepView,
    has_users: bool,
    line: Seq<char>,
    outcome: Result<SessionView, Seq<char>>,
)
    ensures
        step is TryLogin || step is TryRegister || step is Done ==> login_next(
            step,
            has_users,
            LoginEventView::Typed(line),
        ) == step && login_told(step, LoginEventView::Typed(line)) is None,
        !(step is TryLogin) && !(step is TryRegister) ==> login_next(
            step,
            has_users,
            LoginEventView::Outcome(outcome),
        ) == step && login_told(step, LoginEventView::Outcome(outcome)) is None,
        step is AskWish || step is AskEmail || step is AskPassword ==> login_told(
            step,
            LoginEventView::Typed(line),
        ) is None,
{
}

} // verus!
