use file_hosting::client::{
    is_complete_input,
    menu_choice, next_command, next_mode, ClientCommand, ClientMode, MenuChoice, Usage,
};
use file_hosting::framing::{parse_upload_head, upload_request};
use file_hosting::paths::file_name_of;
use file_hosting::protocol::{
    download_request, download_target, login_request, reply_text, search_request, size_line, size_reply,
    upload_header, SizeReply,
};
use file_hosting::server::{
    decode_request, is_complete_request,
    private_dir, public_file_path, search_dir, search_matches, DirEntryInfo, ServerAction, Session,
};
use file_hosting::text::split_words;

fn strings(v: &[&str]) -> Vec<String> {
    v.iter().map(|s| s.to_string()).collect()
}

fn entry(name: &str, is_dir: bool) -> DirEntryInfo {
    DirEntryInfo { name: Some(name.to_string()), is_dir }
}

#[test]
fn server_upload_before_and_after_login() {
    let mut s = Session::new();
    assert_eq!(
        s.handle_request("upload 11 a.txt hello   world\n"),
        ServerAction::Upload {
            path: "./server_privateFiles/a.txt".to_string(),
            contents: b"hello world".to_vec()
        }
    );
    assert_eq!(
        s.handle_request("login bob pw"),
        ServerAction::Login { user: "bob".to_string(), password: "pw".to_string() }
    );
    assert_eq!(s.current_user(), "bob");
    assert_eq!(
        s.handle_request("upload 3 b.txt"),
        ServerAction::Upload { path: "./server_privateFiles/bob/b.txt".to_string(), contents: Vec::new() }
    );
}

#[test]
fn server_public_upload() {
    let mut s = Session::new();
    s.handle_request("login bob pw");
    assert_eq!(
        s.handle_request("upload -p 5 pub.txt some data"),
        ServerAction::Upload {
            path: "./server_publicFiles/pub.txt".to_string(),
            contents: b"some data".to_vec()
        }
    );
}

#[test]
fn server_downloads() {
    let mut s = Session::new();
    s.handle_request("login bob pw");
    assert_eq!(
        s.handle_request("download -p f "),
        ServerAction::Download { path: "./server_publicFiles/f".to_string() }
    );
    assert_eq!(
        s.handle_request("download f "),
        ServerAction::Download { path: "./server_privateFiles/bob/f".to_string() }
    );
}

#[test]
fn server_searches() {
    let mut s = Session::new();
    s.handle_request("login bob pw");
    assert_eq!(
        s.handle_request("search -x txt "),
        ServerAction::Search {
            dir: "./server_privateFiles/bob/".to_string(),
            command: strings(&["search", "-x", "txt"])
        }
    );
    assert_eq!(
        s.handle_request("search -p -x pdf "),
        ServerAction::Search {
            dir: "./server_publicFiles/".to_string(),
            command: strings(&["search", "-p", "-x", "pdf"])
        }
    );
}

#[test]
fn server_copies_between_public_and_private() {
    let mut s = Session::new();
    s.handle_request("login bob pw");
    assert_eq!(
        s.handle_request("makePublic a.txt"),
        ServerAction::Copy {
            from: "./server_privateFiles/bob/a.txt".to_string(),
            to: "./server_publicFiles/a.txt".to_string()
        }
    );
    assert_eq!(
        s.handle_request("makePrivate b.txt"),
        ServerAction::Copy {
            from: "./server_publicFiles/b.txt".to_string(),
            to: "./server_privateFiles/bob/b.txt".to_string()
        }
    );
    assert_eq!(s.handle_request("makePublic"), ServerAction::Ignore);
}

#[test]
fn server_other_requests() {
    let mut s = Session::new();
    assert_eq!(
        s.handle_request("create carol pw"),
        ServerAction::Create { user: "carol".to_string(), password: "pw".to_string() }
    );
    assert_eq!(s.handle_request("hello there"), ServerAction::Ignore);
    assert_eq!(s.current_user(), "");
}

#[test]
fn searching_a_listing() {
    let entries = vec![
        entry("report.txt", false),
        entry("notes.md", false),
        entry("txt", true),
        DirEntryInfo { name: None, is_dir: false },
        entry("old.txt.bak", false),
        entry(".txt", false),
    ];
    assert_eq!(
        search_matches(&strings(&["search", "txt"]), &entries),
        strings(&["report.txt", "old.txt.bak", ".txt"])
    );
    assert_eq!(search_matches(&strings(&["search", "-x", "txt"]), &entries), strings(&["report.txt"]));
    assert_eq!(search_matches(&strings(&["search", "-p", "-x", "md"]), &entries), strings(&["notes.md"]));
    assert_eq!(search_matches(&Vec::new(), &entries), Vec::<String>::new());
}

#[test]
fn menu_choices() {
    assert_eq!(menu_choice("  connect \n"), MenuChoice::Connect);
    assert_eq!(menu_choice("quit\n"), MenuChoice::Quit);
    assert_eq!(menu_choice("con nect"), MenuChoice::Other);
}

#[test]
fn guest_commands() {
    let g = ClientMode::Guest;
    assert_eq!(next_command(g, "login bob\n"), ClientCommand::Login { user: "bob".to_string() });
    assert_eq!(next_command(g, "login"), ClientCommand::ShowUsage(Usage::Login));
    assert_eq!(next_command(g, "create a b"), ClientCommand::ShowUsage(Usage::Create));
    assert_eq!(next_command(g, "create a"), ClientCommand::Create { user: "a".to_string() });
    assert_eq!(next_command(g, "quit"), ClientCommand::Disconnect);
    assert_eq!(next_command(g, "help"), ClientCommand::Help);
    assert_eq!(next_command(g, "upload x"), ClientCommand::Unknown);
}

#[test]
fn member_commands() {
    let m = ClientMode::Member;
    assert_eq!(
        next_command(m, "upload ../client_dir/t.txt"),
        ClientCommand::Upload { path: "../client_dir/t.txt".to_string(), public: false }
    );
    assert_eq!(
        next_command(m, "upload -p x"),
        ClientCommand::Upload { path: "x".to_string(), public: true }
    );
    assert_eq!(next_command(m, "download"), ClientCommand::ShowUsage(Usage::Download));
    assert_eq!(next_command(m, "download -p"), ClientCommand::ShowUsage(Usage::Download));
    assert_eq!(
        next_command(m, "download -p f"),
        ClientCommand::Download { command: strings(&["download", "-p", "f"]) }
    );
    assert_eq!(next_command(m, "search -p -x"), ClientCommand::ShowUsage(Usage::Search));
    assert_eq!(next_command(m, "search -x"), ClientCommand::ShowUsage(Usage::Search));
    assert_eq!(
        next_command(m, "search -x txt"),
        ClientCommand::Search { command: strings(&["search", "-x", "txt"]) }
    );
    assert_eq!(next_command(m, "makePublic"), ClientCommand::ShowUsage(Usage::MakePublic));
    assert_eq!(next_command(m, "makePrivate f"), ClientCommand::MakePrivate { name: "f".to_string() });
    assert_eq!(next_command(m, "help"), ClientCommand::Help);
    assert_eq!(next_command(m, "quit"), ClientCommand::Logout);
    assert_eq!(next_command(m, "login bob"), ClientCommand::Unknown);
}

#[test]
fn mode_changes() {
    let login = ClientCommand::Login { user: "bob".to_string() };
    assert_eq!(next_mode(ClientMode::Guest, &login, true), ClientMode::Member);
    assert_eq!(next_mode(ClientMode::Guest, &login, false), ClientMode::Guest);
    assert_eq!(next_mode(ClientMode::Member, &ClientCommand::Logout, false), ClientMode::Guest);
    assert_eq!(next_mode(ClientMode::Member, &ClientCommand::Help, true), ClientMode::Member);
}

#[test]
fn client_requests_reach_the_server_as_sent() {
    let mut s = Session::new();
    let command = split_words("search -p -x  txt\n");
    let request = search_request(&command);
    assert_eq!(
        s.handle_request(&request),
        ServerAction::Search { dir: "./server_publicFiles/".to_string(), command }
    );
    assert_eq!(
        s.handle_request(&login_request("dave", "hunter2\n")),
        ServerAction::Login { user: "dave".to_string(), password: "hunter2".to_string() }
    );
    let mut upload = upload_header(5, "t.txt", false);
    upload.push_str("hi  there");
    assert_eq!(
        s.handle_request(&upload),
        ServerAction::Upload {
            path: "./server_privateFiles/dave/t.txt".to_string(),
            contents: b"hi there".to_vec()
        }
    );
}

#[test]
fn upload_head_is_found_in_the_bytes() {
    let req = upload_request("t.txt", true, b"a b\n");
    assert_eq!(req, b"upload -p 4 t.txt a b\n".to_vec());
    let h = parse_upload_head(&req).unwrap();
    assert!(h.public);
    assert_eq!(h.size, 4);
    assert_eq!(h.name, "t.txt");
    assert_eq!(h.data_start, 18);
    assert!(parse_upload_head(b"upload x t.txt data").is_none());
    assert!(parse_upload_head(b"upload 3 t.txt").is_none());
    assert!(parse_upload_head(b"upload 3  data").is_none());
    assert!(parse_upload_head(b"download 3 t.txt ").is_none());
    assert!(parse_upload_head(b"upload 99999999999999999999999 t ").is_none());
    let h = parse_upload_head(b"upload 0 empty ").unwrap();
    assert_eq!((h.public, h.size, h.data_start), (false, 0, 15));
}

#[test]
fn chunked_upload_keeps_the_bytes() {
    let data: Vec<u8> = (0..=255u8).cycle().take(10_000).collect();
    let req = upload_request("blob.bin", false, &data);
    let mut s = Session::new();
    s.handle_request("login bob pw");
    let mut written: Vec<u8> = Vec::new();
    let mut chunks = req.chunks(4096);
    match s.serve(chunks.next().unwrap()) {
        Some(ServerAction::Upload { path, contents }) => {
            assert_eq!(path, "./server_privateFiles/bob/blob.bin");
            written.extend(contents);
        }
        other => panic!("unexpected {:?}", other),
    }
    for c in chunks {
        assert!(s.remaining() > 0);
        match s.serve(c) {
            Some(ServerAction::Append { path, contents }) => {
                assert_eq!(path, "./server_privateFiles/bob/blob.bin");
                written.extend(contents);
            }
            other => panic!("unexpected {:?}", other),
        }
    }
    assert_eq!(s.remaining(), 0);
    assert_eq!(written, data);
}

#[test]
fn upload_keeps_whitespace_and_newlines() {
    let data = b"line one\n\n  line   two\r\n".to_vec();
    let req = upload_request("t.txt", true, &data);
    let mut s = Session::new();
    assert_eq!(
        s.handle_chunk(&req),
        ServerAction::Upload { path: "./server_publicFiles/t.txt".to_string(), contents: data }
    );
    assert_eq!(s.remaining(), 0);
}

#[test]
fn serve_refuses_incomplete_requests() {
    let mut s = Session::new();
    assert_eq!(s.serve(b""), None);
    assert_eq!(s.serve(b"login bob"), None);
    assert_eq!(
        s.serve(b"download -p"),
        Some(ServerAction::Download { path: "./server_publicFiles/-p".to_string() })
    );
    assert_eq!(s.serve(b"upload x"), None);
    assert_eq!(s.current_user(), "");
    assert_eq!(s.serve(b"makePrivate"), Some(ServerAction::Ignore));
    assert_eq!(
        s.serve(b"login bob pw"),
        Some(ServerAction::Login { user: "bob".to_string(), password: "pw".to_string() })
    );
}

#[test]
fn text_upload_without_a_head_falls_back_to_words() {
    let mut s = Session::new();
    assert_eq!(
        s.handle_chunk(b"upload size t.txt some   text"),
        ServerAction::Upload {
            path: "./server_privateFiles/t.txt".to_string(),
            contents: b"some text".to_vec()
        }
    );
    assert_eq!(s.remaining(), 0);
}

#[test]
fn server_reads_client_requests_from_bytes() {
    let mut s = Session::new();
    let req = login_request("dave", "hunter2\n");
    assert_eq!(
        s.serve(req.as_bytes()),
        Some(ServerAction::Login { user: "dave".to_string(), password: "hunter2".to_string() })
    );
    assert_eq!(s.current_user(), "dave");
    assert_eq!(
        s.serve(b"login \xff bob pw"),
        Some(ServerAction::Login { user: "\u{fffd}".to_string(), password: "bob".to_string() })
    );
}

#[test]
fn decoding_requests() {
    assert_eq!(decode_request(b"search x"), "search x");
    assert_eq!(decode_request(b"a\xffb"), "a\u{fffd}b");
    assert_eq!(decode_request("caf\u{e9}".as_bytes()), "caf\u{e9}");
}

#[test]
fn completeness_checks() {
    assert!(!is_complete_input(ClientMode::Guest, "  \n"));
    assert!(is_complete_input(ClientMode::Guest, "upload"));
    assert!(!is_complete_input(ClientMode::Member, "upload"));
    assert!(!is_complete_input(ClientMode::Member, "upload -p"));
    assert!(is_complete_input(ClientMode::Member, "upload -p x"));
    assert!(is_complete_input(ClientMode::Member, "upload x"));
    assert!(is_complete_request(&strings(&["download", "-p", "f"])));
    assert!(is_complete_request(&strings(&["download", "-p"])));
    assert!(is_complete_request(&strings(&["upload", "-p", "3", ])));
    assert!(!is_complete_request(&strings(&["upload", "-p"])));
    assert!(is_complete_request(&strings(&["upload", "3", "a"])));
    assert!(!is_complete_request(&strings(&["create", "a"])));
    assert!(is_complete_request(&strings(&["makePublic"])));
    assert!(!is_complete_request(&Vec::new()));
}

#[test]
fn public_upload_then_public_download_round_trip() {
    let data: Vec<u8> = b"first line\n  second   line\r\nlast".to_vec();
    let name = file_name_of("../client_dir/t.txt");
    assert_eq!(name, "t.txt");
    let req = upload_request(&name, true, &data);
    let mut s = Session::new();
    s.handle_request("login bob pw");
    let mut written: Vec<u8> = Vec::new();
    let mut pieces = req.chunks(req.len() - data.len() + 5);
    match s.serve(pieces.next().unwrap()) {
        Some(ServerAction::Upload { path, contents }) => {
            assert_eq!(path, "./server_publicFiles/t.txt");
            written.extend(contents);
        }
        other => panic!("unexpected {:?}", other),
    }
    for c in pieces {
        match s.serve(c) {
            Some(ServerAction::Append { path, contents }) => {
                assert_eq!(path, "./server_publicFiles/t.txt");
                written.extend(contents);
            }
            other => panic!("unexpected {:?}", other),
        }
    }
    assert_eq!(s.remaining(), 0);
    assert_eq!(written, data);
    let command = strings(&["download", "-p", "t.txt"]);
    let request = download_request(&command);
    assert_eq!(
        s.serve(request.as_bytes()),
        Some(ServerAction::Download { path: "./server_publicFiles/t.txt".to_string() })
    );
    let line = size_line(written.len() as u64).into_bytes();
    let reply = reply_text(&line).unwrap();
    assert_eq!(size_reply(&reply), SizeReply::Size(data.len()));
    assert_eq!(download_target(&command), "../client_dir/t.txt");
}

#[test]
fn short_public_requests_read_their_words_as_given() {
    let mut s = Session::new();
    s.handle_request("login bob pw");
    assert_eq!(
        s.serve(b"upload -p x"),
        Some(ServerAction::Upload {
            path: "./server_privateFiles/bob/x".to_string(),
            contents: Vec::new()
        })
    );
    assert_eq!(
        s.handle_request("download -p"),
        ServerAction::Download { path: "./server_publicFiles/-p".to_string() }
    );
    assert!(is_complete_request(&strings(&["upload", "-p", "x"])));
    assert!(is_complete_request(&strings(&["download", "-p"])));
    assert!(!is_complete_request(&strings(&["download"])));
}

#[test]
fn upload_head_chunk_keeps_every_byte_after_the_head() {
    let mut s = Session::new();
    assert_eq!(
        s.handle_chunk(b"upload 3 a.txt hello"),
        ServerAction::Upload { path: "./server_privateFiles/a.txt".to_string(), contents: b"hello".to_vec() }
    );
    assert_eq!(s.remaining(), 0);
    assert_eq!(
        s.handle_chunk(b"upload -p 8 b.txt abc"),
        ServerAction::Upload { path: "./server_publicFiles/b.txt".to_string(), contents: b"abc".to_vec() }
    );
    assert_eq!(s.remaining(), 5);
    assert_eq!(
        s.handle_chunk(b"defghij"),
        ServerAction::Append { path: "./server_publicFiles/b.txt".to_string(), contents: b"defgh".to_vec() }
    );
    assert_eq!(s.remaining(), 0);
}
