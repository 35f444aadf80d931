use file_hosting::accounts::{login_reply, parse_users_file, register_user, users_file_text};
use file_hosting::client::{next_command, next_mode, ClientCommand, ClientMode};
use file_hosting::framing::upload_request;
use file_hosting::protocol::{
    create_request, login_accepted, login_request, reply_text, search_reply, search_report,
    search_request, size_line, size_reply, SizeReply,
};
use file_hosting::server::{search_matches, DirEntryInfo, ServerAction, Session};
use file_hosting::text::split_words;

#[test]
fn create_log_in_upload_search_download() {
    let mut server = Session::new();
    let mut users_file = String::from("alice=x");

    // create
    let request = create_request("erin", "pa55\n");
    let (user, password) = match server.serve(request.as_bytes()) {
        Some(ServerAction::Create { user, password }) => (user, password),
        other => panic!("unexpected {:?}", other),
    };
    let users = parse_users_file(&users_file);
    let new_users = register_user(&users, &user, &password).unwrap();
    users_file = users_file_text(&new_users);

    // log in
    let mut mode = ClientMode::Guest;
    let command = next_command(mode, "login erin\n");
    assert_eq!(command, ClientCommand::Login { user: "erin".to_string() });
    let request = login_request("erin", "pa55\n");
    let reply = match server.serve(request.as_bytes()) {
        Some(ServerAction::Login { user, password }) => {
            login_reply(&parse_users_file(&users_file), &user, &password)
        }
        other => panic!("unexpected {:?}", other),
    };
    let text = reply_text(&reply.into_bytes()).unwrap();
    let accepted = login_accepted(&text);
    assert!(accepted);
    mode = next_mode(mode, &command, accepted);
    assert_eq!(mode, ClientMode::Member);
    assert_eq!(server.current_user(), "erin");

    // upload
    let data = b"first line\n\tsecond  line\n".to_vec();
    match server.serve(&upload_request("notes.txt", false, &data)) {
        Some(ServerAction::Upload { path, contents }) => {
            assert_eq!(path, "./server_privateFiles/erin/notes.txt");
            assert_eq!(contents, data);
        }
        other => panic!("unexpected {:?}", other),
    }

    // search
    let command = split_words("search -x txt");
    match server.serve(search_request(&command).as_bytes()) {
        Some(ServerAction::Search { dir, command }) => {
            assert_eq!(dir, "./server_privateFiles/erin/");
            let entries = vec![
                DirEntryInfo { name: Some("notes.txt".to_string()), is_dir: false },
                DirEntryInfo { name: Some("pic.png".to_string()), is_dir: false },
            ];
            let reply = search_reply(&search_matches(&command, &entries));
            let text = reply_text(&reply.into_bytes()).unwrap();
            assert_eq!(search_report(&text), "Matching files: notes.txt\n");
        }
        other => panic!("unexpected {:?}", other),
    }

    // download: the size line tells the client how many bytes follow
    match server.serve(b"download notes.txt ") {
        Some(ServerAction::Download { path }) => {
            assert_eq!(path, "./server_privateFiles/erin/notes.txt");
            let line = size_line(data.len() as u64);
            let text = reply_text(&line.into_bytes()).unwrap();
            assert_eq!(size_reply(&text), SizeReply::Size(data.len()));
        }
        other => panic!("unexpected {:?}", other),
    }

    // log out
    let command = next_command(mode, "quit");
    assert_eq!(next_mode(mode, &command, false), ClientMode::Guest);
}
