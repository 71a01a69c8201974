use open_in_browser::client::{
    bad_request, cmd_reply, internal_error_response, not_found_message, unauthorized_response,
    CmdReply, RequestBody, ROOT_TEXT,
};

#[test]
fn root_text() {
    assert_eq!(
        ROOT_TEXT,
        "open-in-browser is running.\n\nUse: POST /cmd with JSON.stringify body:\n[\"cmd1 arg1\",\"cmd2 arg2\"]\nAuth header: x-openinbrowser-auth\n"
    );
}

#[test]
fn not_found() {
    assert_eq!(not_found_message("/nothing"), "404 Not Found: /nothing\n");
}

#[test]
fn error_replies() {
    let r = bad_request("bad".to_string());
    assert_eq!((r.status, r.message.as_str(), r.blocked_command), (400, "bad", None));
    let r = unauthorized_response("no".to_string());
    assert_eq!((r.status, r.message.as_str()), (401, "no"));
    let r = internal_error_response("boom".to_string());
    assert_eq!((r.status, r.message.as_str()), (500, "boom"));
}

#[test]
fn failed_auth_is_401_and_runs_nothing() {
    let body = RequestBody::Array(Ok(vec!["firefox https://x.org".to_string()]));
    match cmd_reply(Err("Missing authentication header 'x-openinbrowser-auth'".to_string()), body) {
        CmdReply::Rejected(e) => {
            assert_eq!(e.status, 401);
            assert_eq!(e.message, "Missing authentication header 'x-openinbrowser-auth'");
        },
        CmdReply::Run(_) => panic!("unauthenticated requests run nothing"),
    }
}

#[test]
fn body_must_be_an_array() {
    match cmd_reply(Ok(()), RequestBody::NotArray) {
        CmdReply::Rejected(e) => {
            assert_eq!(e.status, 400);
            assert_eq!(e.message, "Missing 'cmd' or 'cmds' field");
        },
        CmdReply::Run(_) => panic!("must be refused"),
    }
    match cmd_reply(Ok(()), RequestBody::Array(Err("invalid type: integer `1`, expected a string".to_string()))) {
        CmdReply::Rejected(e) => {
            assert_eq!(e.status, 400);
            assert_eq!(e.message, "Invalid command array: invalid type: integer `1`, expected a string");
        },
        CmdReply::Run(_) => panic!("must be refused"),
    }
}

#[test]
fn accepted_lines_are_run() {
    let body = RequestBody::Array(Ok(vec!["firefox https://x.org".to_string()]));
    match cmd_reply(Ok(()), body) {
        CmdReply::Run(cmds) => assert_eq!(cmds, vec![vec!["firefox".to_string(), "https://x.org".to_string()]]),
        CmdReply::Rejected(_) => panic!("must run"),
    }
}

#[test]
fn blacklisted_line_is_403_with_the_line() {
    let body = RequestBody::Array(Ok(vec!["bash -c 'rm -rf /'".to_string()]));
    match cmd_reply(Ok(()), body) {
        CmdReply::Rejected(e) => {
            assert_eq!(e.status, 403);
            assert_eq!(e.message, "Command blocked: Blocked executable: bash");
            assert_eq!(e.blocked_command, Some("bash -c 'rm -rf /'".to_string()));
        },
        CmdReply::Run(_) => panic!("must be refused"),
    }
}
