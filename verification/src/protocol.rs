//! The wire format between client and server: the requests that the client
//! writes, the replies that the server writes, and how each side reads the
//! other's.

use vstd::prelude::*;
use vstd::utf8::{decode_utf8, valid_utf8};
use crate::numbers::{decimal, decimal_text, parse_usize, usize_numeral};
use crate::paths::{push_path, pushed};
use crate::text::{decode_utf8_text, join_with, joined, same_text, spaced, spaced_words, split_words, texts, words};

verus! {

/// `login <user> <password>`.
pub open spec fn login_request_text(user: Seq<char>, password: Seq<char>) -> Seq<char> {
    "login "@ + user + " "@ + password
}

/// The request that logs `user` in with `password`.
pub fn login_request(user: &str, password: &str) -> (r: String)
    ensures
        r@ == login_request_text(user@, password@),
{
    let mut r = "login ".to_owned();
    r.append(user);
    r.append(" ");
    r.append(password);
    r
}

/// `create <user> <password>`.
pub open spec fn create_request_text(user: Seq<char>, password: Seq<char>) -> Seq<char> {
    "create "@ + user + " "@ + password
}

/// The request that creates the account `user` with `password`.
pub fn create_request(user: &str, password: &str) -> (r: String)
    ensures
        r@ == create_request_text(user@, password@),
{
    let mut r = "create ".to_owned();
    r.append(user);
    r.append(" ");
    r.append(password);
    r
}

/// The request that makes the file `name` public.
pub fn make_public_request(name: &str) -> (r: String)
    ensures
        r@ == "makePublic "@ + name@,
{
    let mut r = "makePublic ".to_owned();
    r.append(name);
    r
}

/// The request that makes the file `name` private.
pub fn make_private_request(name: &str) -> (r: String)
    ensures
        r@ == "makePrivate "@ + name@,
{
    let mut r = "makePrivate ".to_owned();
    r.append(name);
    r
}

/// The request for a search: the words of the command, each followed by a space.
pub fn search_request(command: &Vec<String>) -> (r: String)
    ensures
        r@ == spaced(texts(command@)),
{
    spaced_words(command)
}

/// The request for a download: the words of the command, each followed by a space.
pub fn download_request(command: &Vec<String>) -> (r: String)
    ensures
        r@ == spaced(texts(command@)),
{
    spaced_words(command)
}

/// The head of an upload request, which the file's bytes follow:
/// `upload [-p ]<size> <name> `.
pub open spec fn upload_header_text(size: nat, name: Seq<char>, public: bool) -> Seq<char> {
    (if public { "upload -p "@ } else { "upload "@ }) + decimal(size) + " "@ + name + " "@
}

/// The head of the request that uploads a file of `size` bytes named `name`.
pub fn upload_header(size: u64, name: &str, public: bool) -> (r: String)
    ensures
        r@ == upload_header_text(size as nat, name@, public),
{
    let mut r = if public {
        "upload -p ".to_owned()
    } else {
        "upload ".to_owned()
    };
    let size_text = decimal_text(size);
    r.append(size_text.as_str());
    r.append(" ");
    r.append(name);
    r.append(" ");
    r
}

/// The directory that downloads are written to.
pub open spec fn download_dir() -> Seq<char> {
    "../client_dir/"@
}

/// Whether a download command names its file: a second word, and a third one
/// where the second is `-p`.
pub open spec fn names_download(command: Seq<Seq<char>>) -> bool {
    &&& command.len() >= 2
    &&& command[1] == "-p"@ ==> command.len() >= 3
}

/// Where a download command writes the file: the third word where the second
/// is `-p`, else the second, joined onto the download directory.
pub open spec fn download_target_path(command: Seq<Seq<char>>) -> Seq<char> {
    if command[1] == "-p"@ {
        pushed(download_dir(), command[2])
    } else {
        pushed(download_dir(), command[1])
    }
}

/// Whether a download command names its file.
pub fn is_download_named(command: &Vec<String>) -> (r: bool)
    ensures
        r == names_download(texts(command@)),
{
    if command.len() < 2 {
        return false;
    }
    assert(texts(command@)[1] == command@[1]@);
    !same_text(command[1].as_str(), "-p") || command.len() >= 3
}

/// The local path that a download command writes to.
pub fn download_target(command: &Vec<String>) -> (r: String)
    requires
        names_download(texts(command@)),
    ensures
        r@ == download_target_path(texts(command@)),
{
    assert(texts(command@)[1] == command@[1]@);
    if same_text(command[1].as_str(), "-p") {
        assert(texts(command@)[2] == command@[2]@);
        push_path("../client_dir/", command[2].as_str())
    } else {
        push_path("../client_dir/", command[1].as_str())
    }
}

/// The payload of a reply line: the bytes read up to and with the `\n`,
/// without the last byte.
pub open spec fn reply_payload(raw: Seq<u8>) -> Seq<u8> {
    if raw.len() > 0 { raw.drop_last() } else { raw }
}

/// Reads a reply line as text: drops its last byte (the `\n`) and decodes
/// the rest, which gives `None` where it is not valid UTF-8.
pub fn reply_text(raw: &Vec<u8>) -> (r: Option<String>)
    ensures
        r is Some <==> valid_utf8(reply_payload(raw@)),
        r matches Some(t) ==> t@ == decode_utf8(reply_payload(raw@)),
{
    let n = raw.len();
    let end = if n > 0 {
        n - 1
    } else {
        0
    };
    let payload = vstd::slice::slice_subrange(raw.as_slice(), 0, end);
    assert(payload@ =~= reply_payload(raw@));
    decode_utf8_text(payload)
}

/// Whether the login reply accepts the login.
pub fn login_accepted(reply: &str) -> (r: bool)
    ensures
        r == (reply@ == "Login Successful"@),
{
    same_text(reply, "Login Successful")
}

/// What the client prints for a search reply: the names it lists, or that none matched.
pub open spec fn search_report_text(reply: Seq<char>) -> Seq<char> {
    let names = words(reply);
    if names.len() == 0 {
        "No files matching that input were found.\n"@
    } else {
        "Matching files: "@ + joined(names, ", "@) + "\n"@
    }
}

/// Formats a search reply for the user.
pub fn search_report(reply: &str) -> (r: String)
    ensures
        r@ == search_report_text(reply@),
{
    let names = split_words(reply);
    if names.len() == 0 {
        return "No files matching that input were found.\n".to_owned();
    }
    let mut r = "Matching files: ".to_owned();
    let listed = join_with(&names, ", ");
    r.append(listed.as_str());
    r.append("\n");
    r
}

/// How the client reads the size line of a download.
#[derive(Clone, Copy, Debug, PartialEq, Eq)]
pub enum SizeReply {
    /// The line is empty: the server has no such file.
    NoFile,
    /// The line is not a number.
    Invalid,
    /// The file has this many bytes.
    Size(usize),
}

/// What the size line `reply` says.
pub open spec fn size_reply_meaning(reply: Seq<char>) -> SizeReply {
    if reply.len() == 0 {
        SizeReply::NoFile
    } else {
        match usize_numeral(reply) {
            Some(n) => SizeReply::Size(n as usize),
            None => SizeReply::Invalid,
        }
    }
}

/// Reads the size line of a download.
pub fn size_reply(reply: &str) -> (r: SizeReply)
    ensures
        r == size_reply_meaning(reply@),
{
    if reply.unicode_len() == 0 {
        return SizeReply::NoFile;
    }
    match parse_usize(reply) {
        Some(n) => SizeReply::Size(n),
        None => SizeReply::Invalid,
    }
}

/// The size line that the server sends before a file: the size in decimal and `\n`.
pub fn size_line(size: u64) -> (r: String)
    ensures
        r@ == decimal(size as nat) + "\n"@,
{
    let mut r = decimal_text(size);
    r.append("\n");
    r
}

/// The server's search reply: each name followed by a space, then `\n`.
pub fn search_reply(names: &Vec<String>) -> (r: String)
    ensures
        r@ == spaced(texts(names@)) + "\n"@,
{
    let mut r = spaced_words(names);
    r.append("\n");
    r
}

} // verus!
