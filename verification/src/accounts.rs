//! The accounts file: one `name=hash` line per user. Reading and writing it,
//! registering a user, and answering a login.

use vstd::prelude::*;
use crate::passwords::{bcrypt_verify_outcome, check_password, hash_password, is_hash_of};
use crate::text::{join_with, joined, lemma_texts_push, texts};

verus! {

/// The index of the first `c` in `s`, or -1 where `s` holds none.
pub open spec fn index_of(s: Seq<char>, c: char) -> int
    decreases s.len(),
{
    if s.len() == 0 {
        -1
    } else if s[0] == c {
        0
    } else {
        let r = index_of(s.drop_first(), c);
        if r == -1 { -1 } else { r + 1 }
    }
}

pub proof fn lemma_index_of(s: Seq<char>, c: char)
    ensures
        -1 <= index_of(s, c) < s.len(),
        index_of(s, c) >= 0 ==> s[index_of(s, c)] == c,
        forall|j: int| 0 <= j < s.len() && (index_of(s, c) == -1 || j < index_of(s, c)) ==> s[j] != c,
    decreases s.len(),
{
    if s.len() > 0 && s[0] != c {
        lemma_index_of(s.drop_first(), c);
        assert forall|j: int| 0 <= j < s.len() && (index_of(s, c) == -1 || j < index_of(s, c)) implies s[j] != c by {
            if j > 0 {
                assert(s.drop_first()[j - 1] == s[j]);
            }
        }
    }
}

proof fn lemma_index_of_is(s: Seq<char>, c: char, k: int)
    requires
        0 <= k < s.len(),
        s[k] == c,
        forall|j: int| 0 <= j < k ==> s[j] != c,
    ensures
        index_of(s, c) == k,
    decreases k,
{
    if k > 0 {
        lemma_index_of_is(s.drop_first(), c, k - 1);
    }
}

proof fn lemma_index_of_none(s: Seq<char>, c: char)
    requires
        forall|j: int| 0 <= j < s.len() ==> s[j] != c,
    ensures
        index_of(s, c) == -1,
    decreases s.len(),
{
    if s.len() > 0 {
        lemma_index_of_none(s.drop_first(), c);
    }
}

/// Finds the first `c` in `s`.
pub fn first_index_of(s: &str, c: char) -> (r: Option<usize>)
    ensures
        match r {
            Some(i) => index_of(s@, c) == i,
            None => index_of(s@, c) == -1,
        },
{
    let n = s.unicode_len();
    let mut i: usize = 0;
    while i < n
        invariant
            n == s@.len(),
            i <= n,
            forall|j: int| 0 <= j < i ==> s@[j] != c,
        decreases n - i,
    {
        if s.get_char(i) == c {
            proof {
                lemma_index_of_is(s@, c, i as int);
            }
            return Some(i);
        }
        i = i + 1;
    }
    proof {
        lemma_index_of_none(s@, c);
    }
    None
}

/// The text of `line` before its first `=`: the user's name, as
/// `split("=")` gives its first piece.
pub open spec fn name_field(line: Seq<char>) -> Seq<char> {
    let i = index_of(line, '=');
    if i == -1 { line } else { line.take(i) }
}

/// Whether `line` holds a `=`, so that `split("=")` gives a second piece.
pub open spec fn has_hash_field(line: Seq<char>) -> bool {
    index_of(line, '=') != -1
}

/// The text of `line` between its first `=` and the next one, or its end:
/// the stored password hash, as `split("=")` gives its second piece.
pub open spec fn hash_field(line: Seq<char>) -> Seq<char> {
    name_field(line.skip(index_of(line, '=') + 1))
}

/// The user's name in an accounts line.
pub fn user_name_field(line: &str) -> (r: String)
    ensures
        r@ == name_field(line@),
{
    proof {
        lemma_index_of(line@, '=');
    }
    match first_index_of(line, '=') {
        Some(i) => line.substring_char(0, i).to_owned(),
        None => line.to_owned(),
    }
}

/// The stored hash in an accounts line that holds a `=`.
pub fn user_hash_field(line: &str) -> (r: String)
    requires
        has_hash_field(line@),
    ensures
        r@ == hash_field(line@),
{
    proof {
        lemma_index_of(line@, '=');
    }
    let n = line.unicode_len();
    let i = match first_index_of(line, '=') {
        Some(i) => i,
        None => 0,
    };
    let rest = line.substring_char(i + 1, n);
    assert(rest@ =~= line@.skip(i + 1));
    user_name_field(rest)
}

/// `t` without one final `\r`.
pub open spec fn strip_cr(t: Seq<char>) -> Seq<char> {
    if t.len() > 0 && t.last() == '\r' { t.drop_last() } else { t }
}

/// The lines of `s` that follow the partial line `cur`.
pub open spec fn lines_from(s: Seq<char>, cur: Seq<char>) -> Seq<Seq<char>>
    decreases s.len(),
{
    if s.len() == 0 {
        if cur.len() == 0 { seq![] } else { seq![cur] }
    } else if s[0] == '\n' {
        seq![strip_cr(cur)] + lines_from(s.drop_first(), seq![])
    } else {
        lines_from(s.drop_first(), cur.push(s[0]))
    }
}

/// The lines of `s` as `BufRead::lines` yields them: split at each `\n`, a
/// `\r` before the `\n` dropped, and no empty last line after a final `\n`.
pub open spec fn lines(s: Seq<char>) -> Seq<Seq<char>> {
    lines_from(s, seq![])
}

/// Reads the lines of the accounts file.
pub fn parse_users_file(s: &str) -> (r: Vec<String>)
    ensures
        texts(r@) == lines(s@),
{
    let n = s.unicode_len();
    let mut out: Vec<String> = Vec::new();
    let mut start: usize = 0;
    let mut i: usize = 0;
    assert(s@.skip(0) =~= s@);
    assert(s@.subrange(0, 0) =~= Seq::<char>::empty());
    while i < n
        invariant
            n == s@.len(),
            start <= i <= n,
            texts(out@) + lines_from(s@.skip(i as int), s@.subrange(start as int, i as int))
                == lines(s@),
        decreases n - i,
    {
        let c = s.get_char(i);
        let ghost cur = s@.subrange(start as int, i as int);
        let ghost rest = s@.skip(i as int);
        assert(rest[0] == c);
        assert(rest.drop_first() =~= s@.skip(i + 1));
        if c == '\n' {
            let end = if i > start && s.get_char(i - 1) == '\r' {
                i - 1
            } else {
                i
            };
            let w = s.substring_char(start, end).to_owned();
            assert(w@ =~= strip_cr(cur));
            proof {
                lemma_texts_push(out@, w);
                assert(texts(out@) + lines_from(rest, cur) =~= texts(out@.push(w)) + lines_from(
                    s@.skip(i + 1),
                    seq![],
                ));
            }
            out.push(w);
            start = i + 1;
            assert(s@.subrange(start as int, start as int) =~= Seq::<char>::empty());
        } else {
            assert(cur.push(c) =~= s@.subrange(start as int, i + 1));
        }
        i = i + 1;
    }
    assert(s@.skip(n as int) =~= Seq::<char>::empty());
    if start < n {
        let w = s.substring_char(start, n).to_owned();
        proof {
            lemma_texts_push(out@, w);
        }
        out.push(w);
        assert(texts(out@) =~= lines(s@));
    }
    out
}

/// Writes the accounts file: its lines joined by `\n`.
pub fn users_file_text(users: &Vec<String>) -> (r: String)
    ensures
        r@ == joined(texts(users@), seq!['\n']),
{
    proof {
        reveal_strlit("\n");
        assert("\n"@ =~= seq!['\n']);
    }
    join_with(users, "\n")
}


/// Where a login stands after the lines read so far.
#[derive(Clone, Copy, Debug, PartialEq, Eq, Structural)]
pub enum LoginOutcome {
    /// No line named the user.
    UnknownUser,
    /// A line named the user, but its hash could not be read.
    Unverified,
    /// The password matched the hash of the last line, of those read, that named the user and whose hash could be read.
    Accepted,
    /// The password did not match that hash.
    Rejected,
}

/// The outcome after a line that names the user, whose hash check gave `verified`.
pub open spec fn after_check(cur: LoginOutcome, verified: Option<bool>) -> LoginOutcome {
    match verified {
        Some(true) => LoginOutcome::Accepted,
        Some(false) => LoginOutcome::Rejected,
        None => if cur == LoginOutcome::UnknownUser {
            LoginOutcome::Unverified
        } else {
            cur
        },
    }
}

/// The outcome after reading `line`.
pub open spec fn login_step(
    cur: LoginOutcome,
    line: Seq<char>,
    user: Seq<char>,
    password: Seq<char>,
) -> LoginOutcome {
    if name_field(line) == user {
        after_check(cur, bcrypt_verify_outcome(password, hash_field(line)))
    } else {
        cur
    }
}

/// The outcome of a login of `user` with `password` against the accounts
/// `users`, read from first to last.
pub open spec fn login_outcome(users: Seq<Seq<char>>, user: Seq<char>, password: Seq<char>) -> LoginOutcome
    decreases users.len(),
{
    if users.len() == 0 {
        LoginOutcome::UnknownUser
    } else {
        login_step(login_outcome(users.drop_last(), user, password), users.last(), user, password)
    }
}

/// The reply that the server sends for a login outcome.
pub open spec fn login_reply_text(o: LoginOutcome) -> Seq<char> {
    match o {
        LoginOutcome::UnknownUser => "Username not found\n"@,
        LoginOutcome::Unverified => "Hello\n"@,
        LoginOutcome::Accepted => "Login Successful\n"@,
        LoginOutcome::Rejected => "Password Incorrect\n"@,
    }
}

/// Whether `user` names some line of `users`.
pub open spec fn name_taken(users: Seq<Seq<char>>, user: Seq<char>) -> bool {
    exists|i: int| 0 <= i < users.len() && name_field(#[trigger] users[i]) == user
}

/// Whether reading the hash of each line that names `user` is possible: a line
/// that names `user` and has no `=` would make the lookup fail.
pub open spec fn lookup_defined(users: Seq<Seq<char>>, user: Seq<char>) -> bool {
    forall|i: int| 0 <= i < users.len() && name_field(#[trigger] users[i]) == user ==> has_hash_field(users[i])
}

/// Whether every line of `users` that names `user` holds a `=`.
pub fn is_lookup_defined(users: &Vec<String>, user: &str) -> (r: bool)
    ensures
        r == lookup_defined(texts(users@), user@),
{
    let mut i: usize = 0;
    while i < users.len()
        invariant
            i <= users.len(),
            forall|k: int| 0 <= k < i && name_field(#[trigger] texts(users@)[k]) == user@ ==> has_hash_field(texts(users@)[k]),
        decreases users.len() - i,
    {
        let line = users[i].as_str();
        assert(texts(users@)[i as int] == line@);
        let name = user_name_field(line);
        if crate::text::same_text(name.as_str(), user) {
            if first_index_of(line, '=').is_none() {
                return false;
            }
        }
        i = i + 1;
    }
    true
}

/// The outcome after a line that names the user, given what the hash check
/// gave: `Some(b)` for a check that ran and answered `b`, `None` for one that
/// could not read the hash.
pub fn outcome_after_check(cur: LoginOutcome, verified: Option<bool>) -> (r: LoginOutcome)
    ensures
        r == after_check(cur, verified),
{
    match verified {
        Some(true) => LoginOutcome::Accepted,
        Some(false) => LoginOutcome::Rejected,
        None => match cur {
            LoginOutcome::UnknownUser => LoginOutcome::Unverified,
            _ => cur,
        },
    }
}

/// The reply text of a login outcome.
pub fn login_reply_for(o: LoginOutcome) -> (r: String)
    ensures
        r@ == login_reply_text(o),
{
    match o {
        LoginOutcome::UnknownUser => "Username not found\n".to_owned(),
        LoginOutcome::Unverified => "Hello\n".to_owned(),
        LoginOutcome::Accepted => "Login Successful\n".to_owned(),
        LoginOutcome::Rejected => "Password Incorrect\n".to_owned(),
    }
}

/// Checks `password` against every line of `users` that names `user`, in
/// order, and gives the outcome.
pub fn check_login(users: &Vec<String>, user: &str, password: &str) -> (r: LoginOutcome)
    requires
        lookup_defined(texts(users@), user@),
    ensures
        r == login_outcome(texts(users@), user@, password@),
{
    let mut cur = LoginOutcome::UnknownUser;
    let mut i: usize = 0;
    assert(texts(users@).take(0) =~= Seq::<Seq<char>>::empty());
    while i < users.len()
        invariant
            i <= users.len(),
            lookup_defined(texts(users@), user@),
            cur == login_outcome(texts(users@).take(i as int), user@, password@),
        decreases users.len() - i,
    {
        let line = users[i].as_str();
        let ghost ls = texts(users@);
        assert(ls[i as int] == line@);
        assert(ls.take(i + 1).drop_last() =~= ls.take(i as int));
        assert(ls.take(i + 1).last() == line@);
        let name = user_name_field(line);
        if crate::text::same_text(name.as_str(), user) {
            assert(has_hash_field(line@));
            let hash = user_hash_field(line);
            let verified = match check_password(password, hash.as_str()) {
                Ok(b) => Some(b),
                Err(_) => None,
            };
            cur = outcome_after_check(cur, verified);
        }
        i = i + 1;
    }
    assert(texts(users@).take(users.len() as int) =~= texts(users@));
    cur
}

/// The server's answer to `login <user> <password>` against the accounts `users`.
pub fn login_reply(users: &Vec<String>, user: &str, password: &str) -> (r: String)
    requires
        lookup_defined(texts(users@), user@),
    ensures
        r@ == login_reply_text(login_outcome(texts(users@), user@, password@)),
{
    let o = check_login(users, user, password);
    login_reply_for(o)
}

/// Why a registration did not go through.
#[derive(Clone, Copy, Debug, PartialEq, Eq, Structural)]
pub enum RegisterError {
    /// Hashing the password failed.
    HashFailed,
    /// A line of the accounts file already names the user.
    UsernameTaken,
}

/// Whether `line` is the accounts line of `user` for `password`: the name, a
/// `=`, then a hash of the password.
pub open spec fn is_record_of(line: Seq<char>, user: Seq<char>, password: Seq<char>) -> bool {
    &&& line.take(user.len() as int) == user
    &&& user.len() < line.len()
    &&& line[user.len() as int] == '='
    &&& is_hash_of(line.skip(user.len() as int + 1), password)
}

/// Whether some line of `users` names `user`.
pub fn is_name_taken(users: &Vec<String>, user: &str) -> (r: bool)
    ensures
        r == name_taken(texts(users@), user@),
{
    let mut i: usize = 0;
    while i < users.len()
        invariant
            i <= users.len(),
            forall|k: int| 0 <= k < i ==> name_field(#[trigger] texts(users@)[k]) != user@,
        decreases users.len() - i,
    {
        let name = user_name_field(users[i].as_str());
        assert(texts(users@)[i as int] == users@[i as int]@);
        if crate::text::same_text(name.as_str(), user) {
            return true;
        }
        i = i + 1;
    }
    false
}

/// Adds the line `user=hash` at the end of the accounts `users`, unless a
/// line already names `user`.
pub fn add_account(users: &Vec<String>, user: &str, hash: &str) -> (r: Result<
    Vec<String>,
    RegisterError,
>)
    ensures
        r matches Ok(new_users) ==> texts(new_users@) == texts(users@).push(user@ + "="@ + hash@),
        r is Err ==> r == Err::<Vec<String>, RegisterError>(RegisterError::UsernameTaken),
        r is Err <==> name_taken(texts(users@), user@),
{
    if is_name_taken(users, user) {
        return Err(RegisterError::UsernameTaken);
    }
    let mut line = user.to_owned();
    line.append("=");
    line.append(hash);
    let mut new_users = users.clone();
    assert(new_users@ =~= users@);
    proof {
        lemma_texts_push(new_users@, line);
    }
    new_users.push(line);
    Ok(new_users)
}

/// Registers `user` once the password's hash has been computed, where
/// `hashed` is that hash or `None` where hashing failed: a failed hash fails
/// the registration; else a name that a line already holds is refused, and a
/// free name gets the accounts with the old lines, in order, followed by the
/// line `user=hash`. An empty accounts list thus never refuses a computed hash.
pub fn register_with_hash(users: &Vec<String>, user: &str, hashed: Option<String>) -> (r: Result<
    Vec<String>,
    RegisterError,
>)
    ensures
        hashed is None ==> r == Err::<Vec<String>, RegisterError>(RegisterError::HashFailed),
        hashed is Some && name_taken(texts(users@), user@) ==> r == Err::<Vec<String>, RegisterError>(
            RegisterError::UsernameTaken,
        ),
        hashed matches Some(h) ==> (!name_taken(texts(users@), user@) ==> (r matches Ok(new_users)
            && texts(new_users@) == texts(users@).push(user@ + "="@ + h@))),
{
    match hashed {
        None => Err(RegisterError::HashFailed),
        Some(h) => add_account(users, user, h.as_str()),
    }
}

/// Registers `user` with `password`: hashes the password, refuses a name that
/// a line already holds, and otherwise gives the accounts with the new line
/// `user=hash` added at the end.
pub fn register_user(users: &Vec<String>, user: &str, password: &str) -> (r: Result<
    Vec<String>,
    RegisterError,
>)
    ensures
        r matches Ok(new_users) ==> {
            &&& !name_taken(texts(users@), user@)
            &&& new_users@.len() == users@.len() + 1
            &&& texts(new_users@).drop_last() == texts(users@)
            &&& is_record_of(texts(new_users@).last(), user@, password@)
        },
        r matches Err(RegisterError::UsernameTaken) ==> name_taken(texts(users@), user@),
        name_taken(texts(users@), user@) ==> r is Err,
{
    let hashed = match hash_password(password) {
        Ok(h) => h,
        Err(_) => {
            return register_with_hash(users, user, None);
        },
    };
    proof {
        reveal_strlit("=");
    }
    let ghost h = hashed@;
    let r = register_with_hash(users, user, Some(hashed));
    if let Ok(new_users) = &r {
        let ghost line = user@ + "="@ + h;
        assert(texts(new_users@).drop_last() =~= texts(users@));
        assert(texts(new_users@).last() == line);
        assert(line.take(user@.len() as int) =~= user@);
        assert(line.skip(user@.len() as int + 1) =~= h);
    }
    r
}

proof fn lemma_name_field_of_record(line: Seq<char>, user: Seq<char>, password: Seq<char>)
    requires
        is_record_of(line, user, password),
        index_of(user, '=') == -1,
    ensures
        name_field(line) == user,
        has_hash_field(line),
        hash_field(line) == line.skip(user.len() as int + 1),
{
    let k = user.len() as int;
    let h = line.skip(k + 1);
    lemma_index_of(user, '=');
    assert forall|j: int| 0 <= j < k implies line[j] != '=' by {
        assert(line.take(k)[j] == user[j]);
    }
    lemma_index_of_is(line, '=', k);
    assert forall|j: int| 0 <= j < h.len() implies h[j] != '=' by {
        assert(crate::passwords::is_hash_char(h[j]));
    }
    lemma_index_of_none(h, '=');
}

/// A user just registered can log in: where `register_user` gave the accounts
/// `new_users` for `user` and `password`, and the name holds no `=`, a login of
/// `user` with `password` against them is accepted, and reading it fails on no line.
pub proof fn registered_user_logs_in(
    users: Seq<Seq<char>>,
    new_users: Seq<Seq<char>>,
    user: Seq<char>,
    password: Seq<char>,
)
    requires
        !name_taken(users, user),
        new_users.len() == users.len() + 1,
        new_users.drop_last() == users,
        is_record_of(new_users.last(), user, password),
        index_of(user, '=') == -1,
    ensures
        lookup_defined(new_users, user),
        login_outcome(new_users, user, password) == LoginOutcome::Accepted,
{
    lemma_name_field_of_record(new_users.last(), user, password);
    assert forall|i: int| 0 <= i < new_users.len() && name_field(#[trigger] new_users[i]) == user implies has_hash_field(new_users[i]) by {
        if i < users.len() {
            assert(new_users[i] == users[i]);
        }
    }
}

/// A login is answered "Username not found" exactly when no line names the user.
pub proof fn unknown_user_iff_no_line(users: Seq<Seq<char>>, user: Seq<char>, password: Seq<char>)
    ensures
        (login_outcome(users, user, password) == LoginOutcome::UnknownUser) <==> !name_taken(users, user),
    decreases users.len(),
{
    if users.len() > 0 {
        unknown_user_iff_no_line(users.drop_last(), user, password);
        if name_taken(users.drop_last(), user) {
            let i = choose|i: int| 0 <= i < users.drop_last().len() && name_field(#[trigger] users.drop_last()[i]) == user;
            assert(users[i] == users.drop_last()[i]);
        }
        if name_taken(users, user) && name_field(users.last()) != user {
            let i = choose|i: int| 0 <= i < users.len() && name_field(#[trigger] users[i]) == user;
            assert(users.drop_last()[i] == users[i]);
        }
    }
}

proof fn lemma_lines_no_newline(a: Seq<char>, rest: Seq<char>, cur: Seq<char>)
    requires
        forall|j: int| 0 <= j < a.len() ==> a[j] != '\n',
    ensures
        lines_from(a + rest, cur) == lines_from(rest, cur + a),
    decreases a.len(),
{
    if a.len() > 0 {
        assert((a + rest).drop_first() =~= a.drop_first() + rest);
        assert(cur.push(a[0]) + a.drop_first() =~= cur + a);
        lemma_lines_no_newline(a.drop_first(), rest, cur.push(a[0]));
    } else {
        assert(a + rest =~= rest);
        assert(cur + a =~= cur);
    }
}

proof fn lemma_joined_front(v: Seq<Seq<char>>, sep: Seq<char>)
    requires
        v.len() >= 2,
    ensures
        joined(v, sep) == v[0] + sep + joined(v.drop_first(), sep),
    decreases v.len(),
{
    if v.len() == 2 {
        assert(v.drop_last() =~= seq![v[0]]);
        assert(v.drop_first() =~= seq![v[1]]);
        assert(joined(v.drop_last(), sep) == v[0]);
        assert(joined(v.drop_first(), sep) == v[1]);
        assert(v.last() == v[1]);
    } else {
        lemma_joined_front(v.drop_last(), sep);
        assert(v.drop_last().drop_first() =~= v.drop_first().drop_last());
        assert(v.drop_first().last() == v.last());
        assert(v.drop_last()[0] == v[0]);
        let a = joined(v.drop_first().drop_last(), sep);
        assert(joined(v.drop_first(), sep) == a + sep + v.last());
        assert(joined(v, sep) == (v[0] + sep + a) + sep + v.last());
        assert((v[0] + sep + a) + sep + v.last() =~= v[0] + sep + (a + sep + v.last()));
    }
}

/// Whether `l` can stand as a line of the accounts file and be read back as
/// it is: it holds no `\n` and does not end with `\r`.
pub open spec fn is_plain_line(l: Seq<char>) -> bool {
    &&& forall|j: int| 0 <= j < l.len() ==> l[j] != '\n'
    &&& !(l.len() > 0 && l.last() == '\r')
}

/// Writing the accounts file and reading it back gives the same lines, where
/// no line holds `\n` or ends with `\r`, and the last line is not empty.
pub proof fn users_file_round_trip(users: Seq<Seq<char>>)
    requires
        forall|i: int| 0 <= i < users.len() ==> is_plain_line(#[trigger] users[i]),
        users.len() > 0 ==> users.last().len() > 0,
    ensures
        lines(joined(users, seq!['\n'])) == users,
    decreases users.len(),
{
    let e = Seq::<char>::empty();
    if users.len() == 0 {
        assert(lines(joined(users, seq!['\n'])) =~= users);
    } else if users.len() == 1 {
        let a = users[0];
        lemma_lines_no_newline(a, e, e);
        assert(a + e =~= a);
        assert(e + a =~= a);
        assert(users =~= seq![a]);
    } else {
        let a = users[0];
        let rest = users.drop_first();
        assert forall|i: int| 0 <= i < rest.len() implies is_plain_line(#[trigger] rest[i]) by {
            assert(rest[i] == users[i + 1]);
        }
        users_file_round_trip(rest);
        lemma_joined_front(users, seq!['\n']);
        let j = joined(rest, seq!['\n']);
        assert(a + seq!['\n'] + j =~= a + (seq!['\n'] + j));
        lemma_lines_no_newline(a, seq!['\n'] + j, e);
        assert(e + a =~= a);
        assert((seq!['\n'] + j).drop_first() =~= j);
        assert(strip_cr(a) == a);
        assert(users =~= seq![a] + rest);
    }
}

/// A user registered through the accounts file can log in: where the file's
/// lines can be read back as written, and `register_user` gave `new_users`
/// for a name without `=` or `\n`, writing `new_users` to the file, reading it
/// back and checking `user` with `password` accepts the login.
pub proof fn registered_user_logs_in_after_reload(
    users: Seq<Seq<char>>,
    new_users: Seq<Seq<char>>,
    user: Seq<char>,
    password: Seq<char>,
)
    requires
        forall|i: int| 0 <= i < users.len() ==> is_plain_line(#[trigger] users[i]),
        !name_taken(users, user),
        new_users.len() == users.len() + 1,
        new_users.drop_last() == users,
        is_record_of(new_users.last(), user, password),
        index_of(user, '=') == -1,
        forall|j: int| 0 <= j < user.len() ==> user[j] != '\n',
    ensures
        lines(joined(new_users, seq!['\n'])) == new_users,
        lookup_defined(lines(joined(new_users, seq!['\n'])), user),
        login_outcome(lines(joined(new_users, seq!['\n'])), user, password)
            == LoginOutcome::Accepted,
{
    let line = new_users.last();
    let k = user.len() as int;
    let h = line.skip(k + 1);
    assert forall|j: int| 0 <= j < line.len() implies line[j] != '\n' by {
        if j < k {
            assert(line.take(k)[j] == user[j]);
        } else if j > k {
            assert(h[j - k - 1] == line[j]);
            assert(crate::passwords::is_hash_char(h[j - k - 1]));
        }
    }
    assert(line.last() == h[h.len() - 1]);
    assert(crate::passwords::is_hash_char(h[h.len() - 1]));
    assert forall|i: int| 0 <= i < new_users.len() implies is_plain_line(#[trigger] new_users[i]) by {
        if i < users.len() {
            assert(new_users[i] == users[i]);
        }
    }
    users_file_round_trip(new_users);
    registered_user_logs_in(users, new_users, user, password);
}

/// Whether no two lines of `users` name the same user.
pub open spec fn distinct_names(users: Seq<Seq<char>>) -> bool {
    forall|i: int, j: int|
        0 <= i < j < users.len() ==> name_field(#[trigger] users[i]) != name_field(#[trigger] users[j])
}

/// A registration keeps the accounts in order and their names distinct:
/// where `register_user` gave `new_users` for a name without `=`, every old
/// line stands where it stood, the new line names the new user, and where no
/// two old lines named the same user, no two lines do now. Where the old lines
/// can be written and read back as they are and the name holds no `\n`, the
/// accounts file written from `new_users` reads back as `new_users`.
pub proof fn registration_keeps_names_distinct(
    users: Seq<Seq<char>>,
    new_users: Seq<Seq<char>>,
    user: Seq<char>,
    password: Seq<char>,
)
    requires
        !name_taken(users, user),
        new_users.len() == users.len() + 1,
        new_users.drop_last() == users,
        is_record_of(new_users.last(), user, password),
        index_of(user, '=') == -1,
    ensures
        new_users.take(users.len() as int) == users,
        name_field(new_users.last()) == user,
        distinct_names(users) ==> distinct_names(new_users),
        (forall|i: int| 0 <= i < users.len() ==> is_plain_line(#[trigger] users[i])) && (forall|
            j: int,
        |
            0 <= j < user.len() ==> user[j] != '\n') ==> lines(joined(new_users, seq!['\n']))
            == new_users,
{
    lemma_name_field_of_record(new_users.last(), user, password);
    assert(new_users.take(users.len() as int) =~= new_users.drop_last());
    if distinct_names(users) {
        assert forall|i: int, j: int|
            0 <= i < j < new_users.len() implies name_field(#[trigger] new_users[i]) != name_field(
            #[trigger] new_users[j],
        ) by {
            assert(new_users[i] == users[i]);
            if j < users.len() {
                assert(new_users[j] == users[j]);
            } else {
                assert(new_users[j] == new_users.last());
                if name_field(users[i]) == user {
                    assert(name_taken(users, user));
                }
            }
        }
    }
    if (forall|i: int| 0 <= i < users.len() ==> is_plain_line(#[trigger] users[i])) && (forall|
        j: int,
    |
        0 <= j < user.len() ==> user[j] != '\n') {
        registered_user_logs_in_after_reload(users, new_users, user, password);
    }
}

/// Where no two accounts lines name the same user, a login is accepted, and
/// answered "Login Successful", exactly when a line names the user and
/// `bcrypt::verify` accepts the password for that line's hash.
pub proof fn login_accepted_iff_line_verifies(
    users: Seq<Seq<char>>,
    user: Seq<char>,
    password: Seq<char>,
)
    requires
        distinct_names(users),
    ensures
        (login_outcome(users, user, password) == LoginOutcome::Accepted) <==> exists|i: int|
            0 <= i < users.len() && name_field(#[trigger] users[i]) == user && bcrypt_verify_outcome(
                password,
                hash_field(users[i]),
            ) == Some(true),
        (login_reply_text(login_outcome(users, user, password)) == "Login Successful\n"@) <==> (
        login_outcome(users, user, password) == LoginOutcome::Accepted),
    decreases users.len(),
{
    reveal_strlit("Login Successful\n");
    reveal_strlit("Username not found\n");
    reveal_strlit("Hello\n");
    reveal_strlit("Password Incorrect\n");
    let o = login_outcome(users, user, password);
    let ok = "Login Successful\n"@;
    match o {
        LoginOutcome::Accepted => {},
        LoginOutcome::UnknownUser => { assert(login_reply_text(o)[0] != ok[0]); },
        LoginOutcome::Unverified => { assert(login_reply_text(o).len() != ok.len()); },
        LoginOutcome::Rejected => { assert(login_reply_text(o)[0] != ok[0]); },
    }
    if users.len() > 0 {
        let prev = users.drop_last();
        let last = users.last();
        let n = users.len() - 1;
        assert forall|i: int, j: int| 0 <= i < j < prev.len() implies name_field(
            #[trigger] prev[i],
        ) != name_field(#[trigger] prev[j]) by {
            assert(prev[i] == users[i]);
            assert(prev[j] == users[j]);
        }
        login_accepted_iff_line_verifies(prev, user, password);
        if name_field(last) == user {
            assert forall|i: int| 0 <= i < prev.len() implies name_field(#[trigger] prev[i]) != user by {
                assert(prev[i] == users[i]);
                assert(users[n] == last);
            }
            unknown_user_iff_no_line(prev, user, password);
            if exists|i: int|
                0 <= i < users.len() && name_field(#[trigger] users[i]) == user
                    && bcrypt_verify_outcome(password, hash_field(users[i])) == Some(true) {
                let i = choose|i: int|
                    0 <= i < users.len() && name_field(#[trigger] users[i]) == user
                        && bcrypt_verify_outcome(password, hash_field(users[i])) == Some(true);
                if i < n {
                    assert(prev[i] == users[i]);
                }
            }
            assert(users[n] == last);
        } else {
            if exists|i: int|
                0 <= i < users.len() && name_field(#[trigger] users[i]) == user
                    && bcrypt_verify_outcome(password, hash_field(users[i])) == Some(true) {
                let i = choose|i: int|
                    0 <= i < users.len() && name_field(#[trigger] users[i]) == user
                        && bcrypt_verify_outcome(password, hash_field(users[i])) == Some(true);
                assert(i != n);
                assert(prev[i] == users[i]);
            }
            if exists|i: int|
                0 <= i < prev.len() && name_field(#[trigger] prev[i]) == user
                    && bcrypt_verify_outcome(password, hash_field(prev[i])) == Some(true) {
                let i = choose|i: int|
                    0 <= i < prev.len() && name_field(#[trigger] prev[i]) == user
                        && bcrypt_verify_outcome(password, hash_field(prev[i])) == Some(true);
                assert(prev[i] == users[i]);
            }
        }
    }
}

} // verus!
