use file_hosting::protocol::{
    create_request, download_request, download_target, is_download_named, login_accepted, login_request,
    make_private_request, make_public_request, reply_text, search_report, search_reply,
    search_request, size_line, size_reply, upload_header, SizeReply,
};
use file_hosting::accounts::{login_reply_for, LoginOutcome};
use file_hosting::text::split_words;

fn strings(v: &[&str]) -> Vec<String> {
    v.iter().map(|s| s.to_string()).collect()
}

#[test]
fn request_texts() {
    assert_eq!(login_request("alice", "pw\n"), "login alice pw\n");
    assert_eq!(create_request("bob", "pw"), "create bob pw");
    assert_eq!(make_public_request("a.txt"), "makePublic a.txt");
    assert_eq!(make_private_request("a.txt"), "makePrivate a.txt");
    assert_eq!(search_request(&strings(&["search", "-x", "txt"])), "search -x txt ");
    assert_eq!(download_request(&strings(&["download", "f"])), "download f ");
}

#[test]
fn upload_heads() {
    assert_eq!(upload_header(12, "a.txt", true), "upload -p 12 a.txt ");
    assert_eq!(upload_header(0, "a.txt", false), "upload 0 a.txt ");
}

#[test]
fn download_targets() {
    assert_eq!(download_target(&strings(&["download", "-p", "f.txt"])), "../client_dir/f.txt");
    assert_eq!(download_target(&strings(&["download", "f.txt"])), "../client_dir/f.txt");
    assert_eq!(download_target(&strings(&["download", "/tmp/f"])), "/tmp/f");
}

#[test]
fn reading_reply_lines() {
    assert_eq!(reply_text(&b"Login Successful\n".to_vec()), Some("Login Successful".to_string()));
    assert_eq!(reply_text(&Vec::new()), Some(String::new()));
    assert_eq!(reply_text(&b"ab".to_vec()), Some("a".to_string()));
    assert_eq!(reply_text(&vec![0xff, 0xfe, b'\n']), None);
    assert_eq!(reply_text(&vec![0xc3, 0xa9, b'\n']), Some("\u{e9}".to_string()));
}

#[test]
fn login_acceptance() {
    assert!(login_accepted("Login Successful"));
    assert!(!login_accepted("Login Successful\n"));
    assert!(!login_accepted("Password Incorrect"));
}

#[test]
fn search_reports() {
    assert_eq!(search_report("a.txt b.txt "), "Matching files: a.txt, b.txt\n");
    assert_eq!(search_report("  "), "No files matching that input were found.\n");
    assert_eq!(search_report("only"), "Matching files: only\n");
}

#[test]
fn size_replies() {
    assert_eq!(size_reply(""), SizeReply::NoFile);
    assert_eq!(size_reply("12"), SizeReply::Size(12));
    assert_eq!(size_reply("x"), SizeReply::Invalid);
    assert_eq!(size_line(5), "5\n");
}

#[test]
fn size_round_trip() {
    for n in [0u64, 9, 10, 4096, 1 << 40] {
        let line = size_line(n);
        let text = reply_text(&line.into_bytes()).unwrap();
        assert_eq!(size_reply(&text), SizeReply::Size(n as usize));
    }
}

#[test]
fn search_reply_round_trip() {
    let names = strings(&["a.txt", "b.pdf"]);
    let reply = search_reply(&names);
    assert_eq!(reply, "a.txt b.pdf \n");
    let text = reply_text(&reply.into_bytes()).unwrap();
    assert_eq!(split_words(&text), names);
    assert_eq!(search_report(&text), "Matching files: a.txt, b.pdf\n");
    assert_eq!(search_reply(&Vec::new()), "\n");
}

#[test]
fn login_reply_read_back_by_the_client() {
    for (o, ok) in [
        (LoginOutcome::Accepted, true),
        (LoginOutcome::Rejected, false),
        (LoginOutcome::UnknownUser, false),
        (LoginOutcome::Unverified, false),
    ] {
        let text = reply_text(&login_reply_for(o).into_bytes()).unwrap();
        assert_eq!(login_accepted(&text), ok);
    }
}

#[test]
fn create_request_read_back() {
    assert_eq!(split_words(&create_request("erin", "pass word\n")), strings(&["create", "erin", "pass", "word"]));
    assert_eq!(split_words(&login_request("erin", "pw\n")), strings(&["login", "erin", "pw"]));
}

#[test]
fn split_words_yields_words() {
    for w in split_words(" a\tbc  d\u{2003}e ") {
        assert!(!w.is_empty());
        assert!(!w.chars().any(|c| c.is_whitespace()));
    }
}

#[test]
fn download_commands_name_their_file() {
    assert!(is_download_named(&strings(&["download", "f"])));
    assert!(is_download_named(&strings(&["download", "-p", "f"])));
    assert!(!is_download_named(&strings(&["download", "-p"])));
    assert!(!is_download_named(&strings(&["download"])));
}
