//! The client's decisions: what the user's input asks for, and whether the
//! user is logged in.

use vstd::prelude::*;
use crate::text::{contains_word, has_text, same_text, split_words, texts, trim, trimmed, words};

verus! {

/// The choice on the first menu.
#[derive(Clone, Copy, Debug, PartialEq, Eq, Structural)]
pub enum MenuChoice {
    /// `connect`: connect to the server.
    Connect,
    /// `quit`: leave the program.
    Quit,
    /// Anything else.
    Other,
}

/// What the first menu makes of the line `line`.
pub open spec fn menu_choice_of(line: Seq<char>) -> MenuChoice {
    let t = trimmed(line);
    if t == "connect"@ {
        MenuChoice::Connect
    } else if t == "quit"@ {
        MenuChoice::Quit
    } else {
        MenuChoice::Other
    }
}

/// Reads a line of the first menu.
pub fn menu_choice(line: &str) -> (r: MenuChoice)
    ensures
        r == menu_choice_of(line@),
{
    let t = trim(line);
    if same_text(t.as_str(), "connect") {
        MenuChoice::Connect
    } else if same_text(t.as_str(), "quit") {
        MenuChoice::Quit
    } else {
        MenuChoice::Other
    }
}

/// Whether the user is logged in.
#[derive(Clone, Copy, Debug, PartialEq, Eq, Structural)]
pub enum ClientMode {
    /// Not logged in: login, create, help and quit are offered.
    Guest,
    /// Logged in: the file commands are offered.
    Member,
}

/// Which command was given with the wrong number of words.
#[derive(Clone, Copy, Debug, PartialEq, Eq, Structural)]
pub enum Usage {
    Login,
    Create,
    Download,
    Search,
    MakePublic,
    MakePrivate,
}

/// What the client does for one line of input.
#[derive(Debug, PartialEq, Eq)]
pub enum ClientCommand {
    /// Ask for a password and log `user` in.
    Login { user: String },
    /// Ask for a password and create the account `user`.
    Create { user: String },
    /// Close the connection.
    Disconnect,
    /// Upload the local file at `path`, to the public files where `public`.
    Upload { path: String, public: bool },
    /// Download as the words of `command` say.
    Download { command: Vec<String> },
    /// Search as the words of `command` say.
    Search { command: Vec<String> },
    /// Ask to make the file `name` public.
    MakePublic { name: String },
    /// Ask to make the file `name` private.
    MakePrivate { name: String },
    /// Show the commands.
    Help,
    /// Log out.
    Logout,
    /// Show how the command is written.
    ShowUsage(Usage),
    /// Say that the command is not known.
    Unknown,
}

/// Whether the input `w` can be read without running out of words: it has a
/// first word, and an upload of a logged-in user names its file (after `-p`
/// where the command holds `-p`).
pub open spec fn input_is_complete(mode: ClientMode, w: Seq<Seq<char>>) -> bool {
    &&& w.len() >= 1
    &&& (mode == ClientMode::Member && w[0] == "upload"@) ==> (if has_text(w, "-p"@) {
        w.len() >= 3
    } else {
        w.len() >= 2
    })
}

/// Whether the line `input` can be read in `mode` without running out of words.
pub fn is_complete_input(mode: ClientMode, input: &str) -> (r: bool)
    ensures
        r == input_is_complete(mode, words(input@)),
{
    let w = split_words(input);
    let ghost ws = texts(w@);
    if w.len() == 0 {
        return false;
    }
    assert(ws[0] == w@[0]@);
    match mode {
        ClientMode::Guest => true,
        ClientMode::Member => {
            if same_text(w[0].as_str(), "upload") {
                if contains_word(&w, "-p") {
                    w.len() >= 3
                } else {
                    w.len() >= 2
                }
            } else {
                true
            }
        },
    }
}

/// What the words `w` of a guest's input ask for.
pub open spec fn guest_command_matches(w: Seq<Seq<char>>, c: ClientCommand) -> bool {
    if w[0] == "login"@ {
        if w.len() != 2 {
            c == ClientCommand::ShowUsage(Usage::Login)
        } else {
            c matches ClientCommand::Login { user } && user@ == w[1]
        }
    } else if w[0] == "create"@ {
        if w.len() != 2 {
            c == ClientCommand::ShowUsage(Usage::Create)
        } else {
            c matches ClientCommand::Create { user } && user@ == w[1]
        }
    } else if w[0] == "help"@ {
        c is Help
    } else if w[0] == "quit"@ {
        c is Disconnect
    } else {
        c is Unknown
    }
}

/// Whether a search command lacks its name or extension: it needs one word
/// after each of `-p` and `-x` that it holds, and one more.
pub open spec fn search_is_short(w: Seq<Seq<char>>) -> bool {
    let p = has_text(w, "-p"@);
    let x = has_text(w, "-x"@);
    ||| w.len() < 2
    ||| (p && x && w.len() < 4)
    ||| (((p && !x) || (!p && x)) && w.len() < 3)
}

/// What the words `w` of a logged-in user's input ask for.
pub open spec fn member_command_matches(w: Seq<Seq<char>>, c: ClientCommand) -> bool {
    if w[0] == "upload"@ {
        let public = has_text(w, "-p"@);
        c matches ClientCommand::Upload { path, public: p } && p == public && path@ == (if public {
            w[2]
        } else {
            w[1]
        })
    } else if w[0] == "download"@ {
        if w.len() < 2 || (has_text(w, "-p"@) && w.len() < 3) {
            c == ClientCommand::ShowUsage(Usage::Download)
        } else {
            c matches ClientCommand::Download { command } && texts(command@) == w
        }
    } else if w[0] == "search"@ {
        if search_is_short(w) {
            c == ClientCommand::ShowUsage(Usage::Search)
        } else {
            c matches ClientCommand::Search { command } && texts(command@) == w
        }
    } else if w[0] == "makePublic"@ {
        if w.len() < 2 {
            c == ClientCommand::ShowUsage(Usage::MakePublic)
        } else {
            c matches ClientCommand::MakePublic { name } && name@ == w[1]
        }
    } else if w[0] == "makePrivate"@ {
        if w.len() < 2 {
            c == ClientCommand::ShowUsage(Usage::MakePrivate)
        } else {
            c matches ClientCommand::MakePrivate { name } && name@ == w[1]
        }
    } else if w[0] == "help"@ {
        c is Help
    } else if w[0] == "quit"@ {
        c is Logout
    } else {
        c is Unknown
    }
}

/// What a guest's input asks for.
fn guest_command(w: Vec<String>) -> (r: ClientCommand)
    requires
        w.len() >= 1,
    ensures
        guest_command_matches(texts(w@), r),
{
    let ghost ws = texts(w@);
    assert(ws[0] == w@[0]@);
    let first = w[0].as_str();
    if same_text(first, "login") {
        if w.len() != 2 {
            ClientCommand::ShowUsage(Usage::Login)
        } else {
            assert(ws[1] == w@[1]@);
            ClientCommand::Login { user: w[1].clone() }
        }
    } else if same_text(first, "create") {
        if w.len() != 2 {
            ClientCommand::ShowUsage(Usage::Create)
        } else {
            assert(ws[1] == w@[1]@);
            ClientCommand::Create { user: w[1].clone() }
        }
    } else if same_text(first, "help") {
        ClientCommand::Help
    } else if same_text(first, "quit") {
        ClientCommand::Disconnect
    } else {
        ClientCommand::Unknown
    }
}

/// What a logged-in user's input asks for.
fn member_command(w: Vec<String>) -> (r: ClientCommand)
    requires
        input_is_complete(ClientMode::Member, texts(w@)),
    ensures
        member_command_matches(texts(w@), r),
{
    let ghost ws = texts(w@);
    assert(ws[0] == w@[0]@);
    let public = contains_word(&w, "-p");
    let first = w[0].as_str();
    if same_text(first, "upload") {
        let path = if public {
            assert(ws[2] == w@[2]@);
            w[2].clone()
        } else {
            assert(ws[1] == w@[1]@);
            w[1].clone()
        };
        ClientCommand::Upload { path, public }
    } else if same_text(first, "download") {
        if w.len() < 2 || (public && w.len() < 3) {
            ClientCommand::ShowUsage(Usage::Download)
        } else {
            ClientCommand::Download { command: w }
        }
    } else if same_text(first, "search") {
        let by_extension = contains_word(&w, "-x");
        if w.len() < 2 || (public && by_extension && w.len() < 4) || (((public && !by_extension)
            || (!public && by_extension)) && w.len() < 3) {
            ClientCommand::ShowUsage(Usage::Search)
        } else {
            ClientCommand::Search { command: w }
        }
    } else if same_text(first, "makePublic") {
        if w.len() < 2 {
            ClientCommand::ShowUsage(Usage::MakePublic)
        } else {
            assert(ws[1] == w@[1]@);
            ClientCommand::MakePublic { name: w[1].clone() }
        }
    } else if same_text(first, "makePrivate") {
        if w.len() < 2 {
            ClientCommand::ShowUsage(Usage::MakePrivate)
        } else {
            assert(ws[1] == w@[1]@);
            ClientCommand::MakePrivate { name: w[1].clone() }
        }
    } else if same_text(first, "help") {
        ClientCommand::Help
    } else if same_text(first, "quit") {
        ClientCommand::Logout
    } else {
        ClientCommand::Unknown
    }
}

/// Decides what the line `input` asks for, in `mode`.
pub fn next_command(mode: ClientMode, input: &str) -> (r: ClientCommand)
    requires
        input_is_complete(mode, words(input@)),
    ensures
        mode == ClientMode::Guest ==> guest_command_matches(words(input@), r),
        mode == ClientMode::Member ==> member_command_matches(words(input@), r),
{
    let w = split_words(input);
    match mode {
        ClientMode::Guest => guest_command(w),
        ClientMode::Member => member_command(w),
    }
}

/// The mode after `command` in `mode`, where `accepted` tells whether the
/// server accepted a login that the command asked for.
pub open spec fn mode_after(mode: ClientMode, command: ClientCommand, accepted: bool) -> ClientMode {
    match command {
        ClientCommand::Login { .. } => if accepted {
            ClientMode::Member
        } else {
            mode
        },
        ClientCommand::Logout => ClientMode::Guest,
        _ => mode,
    }
}

/// The mode after a command: a login that the server accepts logs the user
/// in, and a logout logs the user out.
pub fn next_mode(mode: ClientMode, command: &ClientCommand, accepted: bool) -> (r: ClientMode)
    ensures
        r == mode_after(mode, *command, accepted),
{
    match command {
        ClientCommand::Login { .. } => if accepted {
            ClientMode::Member
        } else {
            mode
        },
        ClientCommand::Logout => ClientMode::Guest,
        _ => mode,
    }
}


/// Whether `c` works on files: an upload, a download, a search, or a change
/// between public and private.
pub open spec fn is_file_command(c: ClientCommand) -> bool {
    ||| c is Upload
    ||| c is Download
    ||| c is Search
    ||| c is MakePublic
    ||| c is MakePrivate
}

/// The client's mode before its `i`-th command of a connection, which starts
/// logged out: after each command the mode moves as `mode_after` says, where
/// a login counts as accepted when the server's reply read "Login Successful".
pub open spec fn mode_before(cmds: Seq<ClientCommand>, replies: Seq<Seq<char>>, i: nat) -> ClientMode
    decreases i,
{
    if i == 0 {
        ClientMode::Guest
    } else {
        mode_after(
            mode_before(cmds, replies, (i - 1) as nat),
            cmds[i - 1],
            replies[i - 1] == "Login Successful"@,
        )
    }
}

/// Whether the commands `cmds` are what the client made of the input lines
/// `inputs`, each in the mode it was in.
pub open spec fn commands_follow_inputs(
    inputs: Seq<Seq<char>>,
    cmds: Seq<ClientCommand>,
    replies: Seq<Seq<char>>,
) -> bool {
    &&& inputs.len() == cmds.len()
    &&& replies.len() == cmds.len()
    &&& forall|i: int|
        0 <= i < cmds.len() ==> {
            let m = mode_before(cmds, replies, i as nat);
            &&& (m == ClientMode::Guest ==> guest_command_matches(words(inputs[i]), #[trigger] cmds[i]))
            &&& (m == ClientMode::Member ==> member_command_matches(words(inputs[i]), cmds[i]))
        }
}

/// Whether the `j`-th command logged in, the server accepting it, and no
/// command from then up to the `k`-th logged out.
pub open spec fn logged_in_since(cmds: Seq<ClientCommand>, replies: Seq<Seq<char>>, j: int, k: int) -> bool {
    &&& 0 <= j < k
    &&& cmds[j] is Login
    &&& replies[j] == "Login Successful"@
    &&& forall|l: int| j < l < k ==> !(#[trigger] cmds[l] is Logout)
}

proof fn lemma_member_since_login(cmds: Seq<ClientCommand>, replies: Seq<Seq<char>>, i: nat)
    requires
        i <= cmds.len(),
        replies.len() == cmds.len(),
        mode_before(cmds, replies, i) == ClientMode::Member,
    ensures
        exists|j: int| #[trigger] logged_in_since(cmds, replies, j, i as int),
    decreases i,
{
    if i > 0 {
        let c = cmds[i - 1];
        let prev = mode_before(cmds, replies, (i - 1) as nat);
        if c is Login && replies[i - 1] == "Login Successful"@ {
            assert(logged_in_since(cmds, replies, i - 1, i as int));
        } else {
            assert(prev == ClientMode::Member);
            assert(!(c is Logout));
            lemma_member_since_login(cmds, replies, (i - 1) as nat);
            let j = choose|j: int| #[trigger] logged_in_since(cmds, replies, j, (i - 1) as int);
            assert(logged_in_since(cmds, replies, j, i as int));
        }
    }
}

/// Whatever the user types on a connection, the client works on files only
/// while logged in: where the `k`-th command is an upload, a download, a
/// search or a change between public and private, an earlier command logged
/// in, the server's reply to it read "Login Successful", and no quit came
/// since.
pub proof fn file_commands_need_login(
    inputs: Seq<Seq<char>>,
    cmds: Seq<ClientCommand>,
    replies: Seq<Seq<char>>,
    k: int,
)
    requires
        commands_follow_inputs(inputs, cmds, replies),
        0 <= k < cmds.len(),
        is_file_command(cmds[k]),
    ensures
        exists|j: int| #[trigger] logged_in_since(cmds, replies, j, k),
{
    let m = mode_before(cmds, replies, k as nat);
    if m == ClientMode::Guest {
        assert(guest_command_matches(words(inputs[k]), cmds[k]));
        assert(false);
    }
    lemma_member_since_login(cmds, replies, k as nat);
}

/// What a logged-in user's command asks of the client, word by word, as the
/// client's menu reads it: a download of a name (after `-p` where `-p` is
/// given) is sent with its words, and its usage is shown only for fewer than
/// two words or for `-p` with fewer than three; a search is sent with its
/// words unless it lacks the word after its flags; `makePublic` and
/// `makePrivate` with a name ask for that change of that file, never the
/// other; an upload takes the path after `-p` where `-p` is given, else the
/// second word; `quit` logs out.
pub proof fn member_commands_follow_their_words(w: Seq<Seq<char>>, c: ClientCommand)
    requires
        w.len() >= 1,
        member_command_matches(w, c),
    ensures
        w[0] == "download"@ ==> ((c == ClientCommand::ShowUsage(Usage::Download)) <==> (w.len() < 2
            || (has_text(w, "-p"@) && w.len() < 3))),
        w[0] == "download"@ && w.len() >= 2 && (w.len() >= 3 || !has_text(w, "-p"@)) ==> (
        c matches ClientCommand::Download { command } && texts(command@) == w),
        w[0] == "search"@ ==> ((c == ClientCommand::ShowUsage(Usage::Search)) <==> (w.len() < 2
            || (has_text(w, "-p"@) && has_text(w, "-x"@) && w.len() < 4) || (has_text(w, "-p"@)
            != has_text(w, "-x"@) && w.len() < 3))),
        w[0] == "search"@ && c != ClientCommand::ShowUsage(Usage::Search) ==> (
        c matches ClientCommand::Search { command } && texts(command@) == w),
        w[0] == "makePublic"@ && w.len() >= 2 ==> (c matches ClientCommand::MakePublic { name }
            && name@ == w[1]),
        w[0] == "makePrivate"@ && w.len() >= 2 ==> (c matches ClientCommand::MakePrivate { name }
            && name@ == w[1]),
        w[0] == "makePublic"@ && w.len() < 2 ==> c == ClientCommand::ShowUsage(Usage::MakePublic),
        w[0] == "makePrivate"@ && w.len() < 2 ==> c == ClientCommand::ShowUsage(Usage::MakePrivate),
        w[0] == "upload"@ ==> (c matches ClientCommand::Upload { path, public } && public
            == has_text(w, "-p"@) && path@ == (if public { w[2] } else { w[1] })),
        w[0] == "quit"@ ==> c == ClientCommand::Logout,
        w[0] == "help"@ ==> c == ClientCommand::Help,
{
    reveal_strlit("upload");
    reveal_strlit("download");
    reveal_strlit("search");
    reveal_strlit("makePublic");
    reveal_strlit("makePrivate");
    reveal_strlit("help");
    reveal_strlit("quit");
    let kinds = seq!["upload"@, "download"@, "search"@, "makePublic"@, "makePrivate"@, "help"@, "quit"@];
    assert forall|a: int, b: int| 0 <= a < b < kinds.len() implies kinds[a] != kinds[b] by {
        if kinds[a].len() == kinds[b].len() {
            assert(kinds[a][0] != kinds[b][0] || kinds[a][4] != kinds[b][4]);
        }
    }
    assert(kinds[0] != kinds[1]);
    assert(kinds[1] != kinds[2]);
}

/// What a guest's command asks of the client: `login` and `create` with one
/// name ask for that user's password, with any other count of words their
/// usage is shown; `quit` closes the connection.
pub proof fn guest_commands_follow_their_words(w: Seq<Seq<char>>, c: ClientCommand)
    requires
        w.len() >= 1,
        guest_command_matches(w, c),
    ensures
        w[0] == "login"@ && w.len() == 2 ==> (c matches ClientCommand::Login { user } && user@ == w[1]),
        w[0] == "login"@ && w.len() != 2 ==> c == ClientCommand::ShowUsage(Usage::Login),
        w[0] == "create"@ && w.len() == 2 ==> (c matches ClientCommand::Create { user } && user@
            == w[1]),
        w[0] == "create"@ && w.len() != 2 ==> c == ClientCommand::ShowUsage(Usage::Create),
        w[0] == "quit"@ ==> c == ClientCommand::Disconnect,
        !is_file_command(c),
{
    reveal_strlit("login");
    reveal_strlit("create");
    reveal_strlit("help");
    reveal_strlit("quit");
    assert("login"@.len() != "create"@.len());
    assert("help"@[0] != "quit"@[0]);
    assert("login"@.len() != "quit"@.len());
    assert("create"@.len() != "quit"@.len());
}

} // verus!
