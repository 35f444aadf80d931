//! The server's decisions: what each request asks for, where files go, and
//! which files a search finds.

use vstd::prelude::*;
use vstd::utf8::{decode_utf8, encode_utf8, valid_utf8};
use crate::encoding::{decode_lossy, lossy_text};
use crate::framing::{parse_upload_head, upload_head_of, HeadView};
use crate::paths::{extension, extension_of, push_path, pushed};
use crate::text::{decode_utf8_text, contains_text, contains_word, has_infix, has_text, join_with, joined, split_words, texts, words};

verus! {

/// The directory of public files.
pub open spec fn public_dir() -> Seq<char> {
    "./server_publicFiles/"@
}

/// The private directory of `user`.
pub open spec fn private_dir_text(user: Seq<char>) -> Seq<char> {
    "./server_privateFiles/"@ + user
}

/// The private directory of `user`, which registering the user creates.
pub fn private_dir(user: &str) -> (r: String)
    ensures
        r@ == private_dir_text(user@),
{
    let mut r = "./server_privateFiles/".to_owned();
    r.append(user);
    r
}

/// The path of the public file `name`.
pub fn public_file_path(name: &str) -> (r: String)
    ensures
        r@ == pushed(public_dir(), name@),
{
    push_path("./server_publicFiles/", name)
}

/// An upload whose bytes are still arriving: the file they go to, and how
/// many are still to come.
struct Pending {
    path: String,
    remaining: usize,
}

/// One connection's state: the user that last asked to log in on it, and the
/// upload whose bytes are still arriving, if any.
pub struct Session {
    user: String,
    pending: Option<Pending>,
}

/// What a connection's state is: its user, and the file and count of the
/// bytes still to come of an upload (an empty path and 0 where none are).
pub struct SessionView {
    pub user: Seq<char>,
    pub upload_path: Seq<char>,
    pub remaining: nat,
}

impl View for Session {
    type V = SessionView;

    closed spec fn view(&self) -> SessionView {
        match self.pending {
            Some(p) => SessionView { user: self.user@, upload_path: p.path@, remaining: p.remaining as nat },
            None => SessionView { user: self.user@, upload_path: Seq::empty(), remaining: 0 },
        }
    }
}

/// What the server does for one request.
#[derive(Debug, PartialEq, Eq)]
pub enum ServerAction {
    /// Create the file at `path` and write `contents` to it.
    Upload { path: String, contents: Vec<u8> },
    /// Add `contents` at the end of the file at `path`.
    Append { path: String, contents: Vec<u8> },
    /// Send the file at `path`.
    Download { path: String },
    /// Search the directory `dir` as the words of `command` say.
    Search { dir: String, command: Vec<String> },
    /// Copy the file at `from` to `to`.
    Copy { from: String, to: String },
    /// Check `password` for `user` and send the login reply.
    Login { user: String, password: String },
    /// Register `user` with `password`.
    Create { user: String, password: String },
    /// Nothing: the request is of no kind the server serves, or names no file.
    Ignore,
}

/// Whether the second word of a request is `-p`, which picks the public files.
pub open spec fn is_public(w: Seq<Seq<char>>) -> bool {
    w.len() >= 2 && w[1] == "-p"@
}

/// Whether an upload request names a public file: `-p`, then a size and a
/// name. With fewer words, the third word names a file of the user's own.
pub open spec fn is_public_upload(w: Seq<Seq<char>>) -> bool {
    is_public(w) && w.len() >= 4
}

/// The file that a download request asks for: the third word from the public
/// directory after `-p`, or `-p` itself there where no third word follows;
/// else the second word from the user's own directory.
pub open spec fn download_path(w: Seq<Seq<char>>, own: Seq<char>) -> Seq<char> {
    if is_public(w) {
        pushed(public_dir(), if w.len() >= 3 { w[2] } else { w[1] })
    } else {
        pushed(own, w[1])
    }
}

/// Whether the words of a request can be served without running out of
/// words: an upload gives at least two words after `upload`, a download one
/// after `download`, a login and a create a user and a password.
pub open spec fn request_is_complete(w: Seq<Seq<char>>) -> bool {
    &&& w.len() >= 1
    &&& w[0] == "upload"@ ==> w.len() >= 3
    &&& w[0] == "download"@ ==> w.len() >= 2
    &&& w[0] == "login"@ ==> w.len() >= 3
    &&& w[0] == "create"@ ==> w.len() >= 3
}

/// Whether `w` is one of the request kinds that the server serves.
pub open spec fn is_served(w: Seq<char>) -> bool {
    ||| w == "upload"@
    ||| w == "download"@
    ||| w == "search"@
    ||| w == "makePublic"@
    ||| w == "makePrivate"@
    ||| w == "login"@
    ||| w == "create"@
}

/// The private directory of `user`, ending in `/`, that a search looks in.
pub open spec fn private_search_dir(user: Seq<char>) -> Seq<char> {
    private_dir_text(user) + "/"@
}

/// The directory that a search looks in: the public one for `-p`, else the
/// private directory of `user`.
pub open spec fn search_dir_text(command: Seq<Seq<char>>, user: Seq<char>) -> Seq<char> {
    if has_text(command, "-p"@) {
        public_dir()
    } else {
        private_search_dir(user)
    }
}

/// The directory that a search command of `user` looks in.
pub fn search_dir(command: &Vec<String>, user: &str) -> (r: String)
    ensures
        r@ == search_dir_text(texts(command@), user@),
{
    if contains_word(command, "-p") {
        "./server_publicFiles/".to_owned()
    } else {
        let mut r = private_dir(user);
        r.append("/");
        r
    }
}

/// The words of `w` from the `k`-th on, joined by single spaces.
fn join_words_from(w: &Vec<String>, k: usize) -> (r: String)
    requires
        k <= w.len(),
    ensures
        r@ == joined(texts(w@).skip(k as int), " "@),
{
    let ghost ws = texts(w@);
    let mut rest: Vec<String> = Vec::new();
    let mut i: usize = k;
    assert(ws.subrange(k as int, k as int) =~= texts(rest@));
    while i < w.len()
        invariant
            k <= i <= w.len(),
            ws == texts(w@),
            texts(rest@) == ws.subrange(k as int, i as int),
        decreases w.len() - i,
    {
        let piece = w[i].clone();
        assert(ws[i as int] == piece@);
        proof {
            crate::text::lemma_texts_push(rest@, piece);
        }
        assert(texts(rest@).push(piece@) =~= ws.subrange(k as int, i + 1));
        rest.push(piece);
        i = i + 1;
    }
    assert(ws.subrange(k as int, w.len() as int) =~= ws.skip(k as int));
    join_with(&rest, " ")
}

/// Where an upload described by the head `h` goes, for the connection's user `user`.
pub open spec fn upload_target(h: HeadView, user: Seq<char>) -> Seq<char> {
    if h.public {
        pushed(public_dir(), h.name)
    } else {
        pushed(private_dir_text(user), h.name)
    }
}

/// Whether `r` is what the server does for a request of the words `w`,
/// read as text, and `new_user` the connection's user after it, where `user`
/// was the user before. Files go to and come from the private directory of
/// the user, or the public directory where the second word is `-p`; a search
/// looks in the public directory where any word is `-p`. A login makes its
/// user the connection's user, whatever the password check gives.
pub open spec fn text_outcome(
    w: Seq<Seq<char>>,
    user: Seq<char>,
    r: ServerAction,
    new_user: Seq<char>,
) -> bool {
    let own = private_dir_text(user);
    &&& new_user == (if w[0] == "login"@ { w[1] } else { user })
    &&& match r {
        ServerAction::Upload { path, contents } => {
            &&& w[0] == "upload"@
            &&& if is_public_upload(w) {
                path@ == pushed(public_dir(), w[3]) && contents@ == encode_utf8(joined(w.skip(4), " "@))
            } else {
                path@ == pushed(own, w[2]) && contents@ == encode_utf8(joined(w.skip(3), " "@))
            }
        },
        ServerAction::Append { .. } => false,
        ServerAction::Download { path } => {
            &&& w[0] == "download"@
            &&& path@ == download_path(w, own)
        },
        ServerAction::Search { dir, command } => {
            &&& w[0] == "search"@
            &&& texts(command@) == w
            &&& dir@ == search_dir_text(w, user)
        },
        ServerAction::Copy { from, to } => {
            ||| (w[0] == "makePublic"@ && w.len() >= 2 && from@ == pushed(own, w[1]) && to@ == pushed(
                public_dir(),
                w[1],
            ))
            ||| (w[0] == "makePrivate"@ && w.len() >= 2 && from@ == pushed(public_dir(), w[1]) && to@
                == pushed(own, w[1]))
        },
        ServerAction::Login { user, password } => {
            w[0] == "login"@ && user@ == w[1] && password@ == w[2]
        },
        ServerAction::Create { user, password } => {
            w[0] == "create"@ && user@ == w[1] && password@ == w[2]
        },
        ServerAction::Ignore => !is_served(w[0]) || ((w[0] == "makePublic"@ || w[0] == "makePrivate"@)
            && w.len() < 2),
    }
}

/// The smaller of two counts.
pub open spec fn at_most(a: nat, b: nat) -> nat {
    if a <= b { a } else { b }
}

/// Whether `r` is what the server does for the bytes `chunk` on a connection
/// in the state `s`, and `s2` the state after it. While an upload's bytes are
/// still to come, the chunk's bytes, up to the count still to come, go at the
/// end of its file. Otherwise a chunk that begins with the head of an upload
/// creates its file with all the bytes after the head, and what the size asks
/// beyond them is still to come; any other chunk is read as text.
pub open spec fn chunk_outcome(s: SessionView, chunk: Seq<u8>, r: ServerAction, s2: SessionView) -> bool {
    &&& s2.remaining == 0 ==> s2.upload_path == Seq::<char>::empty()
    &&& if s.remaining > 0 {
        let t = at_most(s.remaining, chunk.len());
        &&& r matches ServerAction::Append { path, contents } && path@ == s.upload_path
            && contents@ == chunk.take(t as int)
        &&& s2.user == s.user
        &&& s2.remaining == s.remaining - t
        &&& s2.remaining > 0 ==> s2.upload_path == s.upload_path
    } else {
        match upload_head_of(chunk) {
            Some(h) => {
                let t = at_most(h.size, (chunk.len() - h.data_start) as nat);
                &&& r matches ServerAction::Upload { path, contents } && path@ == upload_target(h, s.user)
                    && contents@ == chunk.skip(h.data_start as int)
                &&& s2.user == s.user
                &&& s2.remaining == h.size - t
                &&& s2.remaining > 0 ==> s2.upload_path == upload_target(h, s.user)
            },
            None => {
                &&& text_outcome(words(request_text(chunk)), s.user, r, s2.user)
                &&& s2.remaining == 0
            },
        }
    }
}

/// The text of a request's bytes: what they encode where they are valid
/// UTF-8, and else their lossy decoding.
pub open spec fn request_text(chunk: Seq<u8>) -> Seq<char> {
    if valid_utf8(chunk) { decode_utf8(chunk) } else { lossy_text(chunk) }
}

/// Decodes the bytes of a request as text.
pub fn decode_request(chunk: &[u8]) -> (r: String)
    ensures
        r@ == request_text(chunk@),
{
    match decode_utf8_text(chunk) {
        Some(t) => t,
        None => decode_lossy(chunk),
    }
}

/// Whether the server can read `chunk` in the state `s` without running out
/// of words.
pub open spec fn chunk_is_complete(s: SessionView, chunk: Seq<u8>) -> bool {
    s.remaining > 0 || upload_head_of(chunk) is Some || request_is_complete(
        words(request_text(chunk)),
    )
}

/// Whether the words of a request can be served without running out of words.
pub fn is_complete_request(w: &Vec<String>) -> (r: bool)
    ensures
        r == request_is_complete(texts(w@)),
{
    proof {
        reveal_strlit("upload");
        reveal_strlit("download");
        reveal_strlit("login");
        reveal_strlit("create");
    }
    let ghost ws = texts(w@);
    if w.len() == 0 {
        return false;
    }
    assert(ws[0] == w@[0]@);
    let first = w[0].as_str();
    if crate::text::same_text(first, "upload") {
        w.len() >= 3
    } else if crate::text::same_text(first, "download") {
        w.len() >= 2
    } else if crate::text::same_text(first, "login") || crate::text::same_text(first, "create") {
        w.len() >= 3
    } else {
        true
    }
}

impl Session {
    #[verifier::type_invariant]
    spec fn pending_is_live(&self) -> bool {
        self.pending matches Some(p) ==> p.remaining > 0
    }

    /// A new connection, on which nobody has logged in and nothing is arriving.
    pub fn new() -> (r: Session)
        ensures
            r@.user == Seq::<char>::empty(),
            r@.upload_path == Seq::<char>::empty(),
            r@.remaining == 0,
    {
        Session { user: String::new(), pending: None }
    }

    /// The user that last asked to log in on this connection.
    pub fn current_user(&self) -> (r: String)
        ensures
            r@ == self@.user,
    {
        self.user.clone()
    }

    /// How many bytes of an upload are still to come.
    pub fn remaining(&self) -> (r: usize)
        ensures
            r == self@.remaining,
    {
        match &self.pending {
            Some(p) => p.remaining,
            None => 0,
        }
    }

    /// Decides what to do for the request `request`, read as text. The
    /// upload that may be arriving is left as it is.
    pub fn handle_request(&mut self, request: &str) -> (r: ServerAction)
        requires
            request_is_complete(words(request@)),
        ensures
            text_outcome(words(request@), old(self)@.user, r, final(self)@.user),
            final(self)@.remaining == old(self)@.remaining,
            final(self)@.upload_path == old(self)@.upload_path,
    {
        proof {
            use_type_invariant(&*self);
            reveal_strlit("upload");
            reveal_strlit("download");
            reveal_strlit("search");
            reveal_strlit("makePublic");
            reveal_strlit("makePrivate");
            reveal_strlit("login");
            reveal_strlit("create");
        }
        let w = split_words(request);
        let ghost ws = texts(w@);
        assert(ws[0] == w@[0]@);
        let public = w.len() >= 2 && crate::text::same_text(w[1].as_str(), "-p");
        assert(w.len() >= 2 ==> ws[1] == w@[1]@);
        let own = private_dir(self.user.as_str());
        let first = w[0].as_str();
        if crate::text::same_text(first, "upload") {
            if public && w.len() >= 4 {
                assert(ws[3] == w@[3]@);
                let path = public_file_path(w[3].as_str());
                let text = join_words_from(&w, 4);
                ServerAction::Upload { path, contents: text.as_str().as_bytes_vec() }
            } else {
                assert(ws[2] == w@[2]@);
                let path = push_path(own.as_str(), w[2].as_str());
                let text = join_words_from(&w, 3);
                ServerAction::Upload { path, contents: text.as_str().as_bytes_vec() }
            }
        } else if crate::text::same_text(first, "download") {
            if public && w.len() >= 3 {
                assert(ws[2] == w@[2]@);
                ServerAction::Download { path: public_file_path(w[2].as_str()) }
            } else if public {
                ServerAction::Download { path: public_file_path(w[1].as_str()) }
            } else {
                ServerAction::Download { path: push_path(own.as_str(), w[1].as_str()) }
            }
        } else if crate::text::same_text(first, "search") {
            let dir = search_dir(&w, self.user.as_str());
            ServerAction::Search { dir, command: w }
        } else if crate::text::same_text(first, "makePublic") {
            if w.len() < 2 {
                ServerAction::Ignore
            } else {
                let from = push_path(own.as_str(), w[1].as_str());
                let to = public_file_path(w[1].as_str());
                ServerAction::Copy { from, to }
            }
        } else if crate::text::same_text(first, "makePrivate") {
            if w.len() < 2 {
                ServerAction::Ignore
            } else {
                let from = public_file_path(w[1].as_str());
                let to = push_path(own.as_str(), w[1].as_str());
                ServerAction::Copy { from, to }
            }
        } else if crate::text::same_text(first, "login") {
            assert(ws[2] == w@[2]@);
            self.user = w[1].clone();
            ServerAction::Login { user: w[1].clone(), password: w[2].clone() }
        } else if crate::text::same_text(first, "create") {
            assert(ws[2] == w@[2]@);
            ServerAction::Create { user: w[1].clone(), password: w[2].clone() }
        } else {
            ServerAction::Ignore
        }
    }

    /// Decides what to do for the bytes `chunk` that the connection received.
    pub fn handle_chunk(&mut self, chunk: &[u8]) -> (r: ServerAction)
        requires
            chunk_is_complete(old(self)@, chunk@),
        ensures
            chunk_outcome(old(self)@, chunk@, r, final(self)@),
    {
        proof {
            use_type_invariant(&*self);
        }
        let n = chunk.len();
        if let Some(p) = &self.pending {
            let rem = p.remaining;
            let path = p.path.clone();
            let t = if rem <= n {
                rem
            } else {
                n
            };
            let contents = vstd::slice::slice_to_vec(vstd::slice::slice_subrange(chunk, 0, t));
            assert(chunk@.subrange(0, t as int) =~= chunk@.take(t as int));
            if rem - t > 0 {
                self.pending = Some(Pending { path: path.clone(), remaining: rem - t });
            } else {
                self.pending = None;
            }
            return ServerAction::Append { path, contents };
        }
        match parse_upload_head(chunk) {
            Some(h) => {
                let path = if h.public {
                    public_file_path(h.name.as_str())
                } else {
                    let own = private_dir(self.user.as_str());
                    push_path(own.as_str(), h.name.as_str())
                };
                let avail = n - h.data_start;
                let t = if h.size <= avail {
                    h.size
                } else {
                    avail
                };
                let contents = vstd::slice::slice_to_vec(
                    vstd::slice::slice_subrange(chunk, h.data_start, n),
                );
                assert(chunk@.subrange(h.data_start as int, n as int) =~= chunk@.skip(
                    h.data_start as int,
                ));
                if h.size - t > 0 {
                    self.pending = Some(Pending { path: path.clone(), remaining: h.size - t });
                }
                ServerAction::Upload { path, contents }
            },
            None => {
                let text = decode_request(chunk);
                self.handle_request(text.as_str())
            },
        }
    }

    /// Serves the bytes `chunk`, where they can be read without running out
    /// of words; gives `None`, and leaves the connection as it was, where
    /// they cannot.
    pub fn serve(&mut self, chunk: &[u8]) -> (r: Option<ServerAction>)
        ensures
            r is None <==> !chunk_is_complete(old(self)@, chunk@),
            r is None ==> final(self)@ == old(self)@,
            r matches Some(a) ==> chunk_outcome(old(self)@, chunk@, a, final(self)@),
    {
        if self.remaining() == 0 {
            if let None = parse_upload_head(chunk) {
                let text = decode_request(chunk);
                let w = split_words(text.as_str());
                if !is_complete_request(&w) {
                    return None;
                }
            }
        }
        Some(self.handle_chunk(chunk))
    }
}

/// What the server learns of one entry of a directory: its name, where the
/// name is valid Unicode, and whether it is a directory.
pub struct DirEntryInfo {
    pub name: Option<String>,
    pub is_dir: bool,
}

/// Whether the entry `e` matches the search `command`: a file with a readable
/// name that, under `-x`, has the last word of the command as its extension,
/// and else holds it.
pub open spec fn entry_matches(e: DirEntryInfo, command: Seq<Seq<char>>) -> bool {
    &&& !e.is_dir
    &&& e.name is Some
    &&& command.len() > 0
    &&& if has_text(command, "-x"@) {
        extension(e.name->0@) == Some(command.last())
    } else {
        has_infix(e.name->0@, command.last())
    }
}

/// The names of the entries that match `command`, in the order of `entries`.
pub open spec fn matching_names(entries: Seq<DirEntryInfo>, command: Seq<Seq<char>>) -> Seq<Seq<char>>
    decreases entries.len(),
{
    if entries.len() == 0 {
        seq![]
    } else {
        matching_names(entries.drop_last(), command) + (if entry_matches(entries.last(), command) {
            seq![entries.last().name->0@]
        } else {
            Seq::<Seq<char>>::empty()
        })
    }
}

/// Whether one entry matches the search.
fn matches_entry(e: &DirEntryInfo, command: &Vec<String>, by_extension: bool) -> (r: bool)
    requires
        by_extension == has_text(texts(command@), "-x"@),
    ensures
        r == entry_matches(*e, texts(command@)),
{
    if e.is_dir || command.len() == 0 {
        return false;
    }
    let last = command[command.len() - 1].as_str();
    assert(texts(command@).last() == last@);
    match &e.name {
        None => false,
        Some(name) => {
            if by_extension {
                match extension_of(name.as_str()) {
                    Some(ext) => crate::text::same_text(ext.as_str(), last),
                    None => false,
                }
            } else {
                contains_text(name.as_str(), last)
            }
        },
    }
}

/// The names of the files in `entries` that the search `command` finds.
pub fn search_matches(command: &Vec<String>, entries: &Vec<DirEntryInfo>) -> (r: Vec<String>)
    ensures
        texts(r@) == matching_names(entries@, texts(command@)),
{
    let by_extension = contains_word(command, "-x");
    let mut out: Vec<String> = Vec::new();
    let mut i: usize = 0;
    assert(entries@.take(0) =~= Seq::<DirEntryInfo>::empty());
    while i < entries.len()
        invariant
            i <= entries.len(),
            by_extension == has_text(texts(command@), "-x"@),
            texts(out@) == matching_names(entries@.take(i as int), texts(command@)),
        decreases entries.len() - i,
    {
        let e = &entries[i];
        assert(entries@.take(i + 1).drop_last() =~= entries@.take(i as int));
        assert(entries@.take(i + 1).last() == *e);
        if matches_entry(e, command, by_extension) {
            let name = match &e.name {
                Some(n) => n.clone(),
                None => String::new(),
            };
            assert(texts(out@.push(name)) =~= texts(out@).push(name@));
            out.push(name);
            assert(texts(out@) =~= matching_names(entries@.take(i + 1), texts(command@)));
        } else {
            assert(texts(out@) =~= matching_names(entries@.take(i + 1), texts(command@)));
        }
        i = i + 1;
    }
    assert(entries@.take(entries.len() as int) =~= entries@);
    out
}

/// A search finds exactly the files whose name holds the last word of the
/// command, whatever flags stand before it, or, under `-x`, whose extension is
/// that word: a name is listed exactly when some entry of the directory is a
/// file with that readable name that fits so. Directories and unreadable names
/// are never listed, and the names come in the order of the entries.
pub proof fn search_finds_exactly_the_matching_files(
    entries: Seq<DirEntryInfo>,
    command: Seq<Seq<char>>,
)
    requires
        command.len() >= 1,
    ensures
        forall|n: Seq<char>|
            #![trigger matching_names(entries, command).contains(n)]
            matching_names(entries, command).contains(n) <==> exists|i: int|
                0 <= i < entries.len() && !(#[trigger] entries[i]).is_dir && entries[i].name is Some
                    && entries[i].name->0@ == n && (if has_text(command, "-x"@) {
                    extension(n) == Some(command.last())
                } else {
                    has_infix(n, command.last())
                }),
        matching_names(entries, command).len() <= entries.len(),
    decreases entries.len(),
{
    let m = matching_names(entries, command);
    if entries.len() > 0 {
        let prev = entries.drop_last();
        let e = entries.last();
        search_finds_exactly_the_matching_files(prev, command);
        let pm = matching_names(prev, command);
        let extra = if entry_matches(e, command) {
            seq![e.name->0@]
        } else {
            Seq::<Seq<char>>::empty()
        };
        assert(m == pm + extra);
        assert forall|n: Seq<char>|
            #![trigger matching_names(entries, command).contains(n)]
            matching_names(entries, command).contains(n) <==> exists|i: int|
                0 <= i < entries.len() && !(#[trigger] entries[i]).is_dir && entries[i].name is Some
                    && entries[i].name->0@ == n && (if has_text(command, "-x"@) {
                    extension(n) == Some(command.last())
                } else {
                    has_infix(n, command.last())
                }) by {
            let fits = |f: DirEntryInfo|
                !f.is_dir && f.name is Some && f.name->0@ == n && (if has_text(command, "-x"@) {
                    extension(n) == Some(command.last())
                } else {
                    has_infix(n, command.last())
                });
            if m.contains(n) {
                let k = choose|k: int| 0 <= k < m.len() && m[k] == n;
                if k < pm.len() {
                    assert(pm[k] == n);
                    assert(pm.contains(n));
                    let i = choose|i: int| 0 <= i < prev.len() && fits(#[trigger] prev[i]);
                    assert(entries[i] == prev[i]);
                    assert(fits(entries[i]));
                } else {
                    assert(extra[k - pm.len()] == n);
                    assert(entries[entries.len() - 1] == e);
                    assert(fits(entries[entries.len() - 1]));
                }
            }
            if exists|i: int| 0 <= i < entries.len() && fits(#[trigger] entries[i]) {
                let i = choose|i: int| 0 <= i < entries.len() && fits(#[trigger] entries[i]);
                if i < prev.len() {
                    assert(prev[i] == entries[i]);
                    assert(fits(prev[i]));
                    assert(pm.contains(n));
                    let k = choose|k: int| 0 <= k < pm.len() && pm[k] == n;
                    assert(m[k] == n);
                } else {
                    assert(entries[i] == e);
                    assert(entry_matches(e, command));
                    assert(m[pm.len() as int] == n);
                }
            }
        }
    }
}

} // verus!
