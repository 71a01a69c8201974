//! What the HTTP service answers.
//!
//! The service itself (listening, routing, JSON bodies) lives outside this
//! crate; these functions decide the status, the message and the commands
//! to run for each request.

use vstd::prelude::*;
use crate::text::prefixed;
use crate::utils::{
    check_command, checked_commands, command_error_blocked, command_error_message,
    command_error_status, exe_name_outcome, check_result_view, CommandErrorView,
};

verus! {

/// The text served at `/`.
pub const ROOT_TEXT: &'static str = "open-in-browser is running.\n\nUse: POST /cmd with JSON.stringify body:\n[\"cmd1 arg1\",\"cmd2 arg2\"]\nAuth header: x-openinbrowser-auth\n";

/// An error answer: its HTTP status, its message, and for a blacklisted
/// command line that line.
#[derive(Debug)]
pub struct ErrorReply {
    pub status: u16,
    pub message: String,
    pub blocked_command: Option<String>,
}

/// An `ErrorReply` as plain values.
pub struct ErrorReplyView {
    pub status: u16,
    pub message: Seq<char>,
    pub blocked_command: Option<Seq<char>>,
}

impl View for ErrorReply {
    type V = ErrorReplyView;

    open spec fn view(&self) -> ErrorReplyView {
        ErrorReplyView {
            status: self.status,
            message: self.message@,
            blocked_command: self.blocked_command.deep_view(),
        }
    }
}

/// An error answer with the given status and message.
fn error_reply(status: u16, msg: String) -> (r: ErrorReply)
    ensures
        r@ == (ErrorReplyView { status, message: msg@, blocked_command: None }),
{
    ErrorReply { status, message: msg, blocked_command: None }
}

/// A 400 (bad request) answer with message `msg`.
pub fn bad_request(msg: String) -> (r: ErrorReply)
    ensures
        r@ == (ErrorReplyView { status: 400, message: msg@, blocked_command: None }),
{
    error_reply(400, msg)
}

/// A 401 (unauthorized) answer with message `msg`.
pub fn unauthorized_response(msg: String) -> (r: ErrorReply)
    ensures
        r@ == (ErrorReplyView { status: 401, message: msg@, blocked_command: None }),
{
    error_reply(401, msg)
}

/// A 500 (internal server error) answer with message `msg`.
pub fn internal_error_response(msg: String) -> (r: ErrorReply)
    ensures
        r@ == (ErrorReplyView { status: 500, message: msg@, blocked_command: None }),
{
    error_reply(500, msg)
}

/// The message of the 404 answer for `path`.
pub fn not_found_message(path: &str) -> (r: String)
    ensures
        r@ == "404 Not Found: "@ + path@ + "\n"@,
{
    let mut r = String::from_str("404 Not Found: ");
    r.append(path);
    r.append("\n");
    r
}

/// The body of a command request, as far as it matters: not a JSON array,
/// or an array that did (`Ok`) or did not (`Err`, with the decoder's
/// message) decode as a list of strings.
pub enum RequestBody {
    NotArray,
    Array(Result<Vec<String>, String>),
}

/// What a command request leads to: an error answer, or the commands to run.
#[derive(Debug)]
pub enum CmdReply {
    Rejected(ErrorReply),
    Run(Vec<Vec<String>>),
}

/// A `CmdReply` as plain values.
pub enum CmdReplyView {
    Rejected(ErrorReplyView),
    Run(Seq<Seq<Seq<char>>>),
}

impl View for CmdReply {
    type V = CmdReplyView;

    open spec fn view(&self) -> CmdReplyView {
        match self {
            CmdReply::Rejected(e) => CmdReplyView::Rejected(e@),
            CmdReply::Run(cmds) => CmdReplyView::Run(cmds.deep_view()),
        }
    }
}

/// What the verdict on a list of command lines is answered with.
pub open spec fn reply_for_check(res: Result<Seq<Seq<Seq<char>>>, CommandErrorView>) -> CmdReplyView {
    match res {
        Ok(parsed) => CmdReplyView::Run(parsed),
        Err(e) => CmdReplyView::Rejected(
            ErrorReplyView {
                status: command_error_status(e),
                message: command_error_message(e),
                blocked_command: command_error_blocked(e),
            },
        ),
    }
}

/// What a command request leads to, given the outcome `auth` of its
/// authentication and its body: a 401 with the authentication's message; a
/// 400 when the body is not an array of strings; otherwise the verdict of
/// `check_command` on the lines, which is the commands to run or the
/// refusal of the first refused line.
pub fn cmd_reply(auth: Result<(), String>, body: RequestBody) -> (r: CmdReply)
    ensures
        auth is Err ==> r@ == CmdReplyView::Rejected(
            ErrorReplyView { status: 401, message: auth->Err_0@, blocked_command: None },
        ),
        auth is Ok ==> (match body {
                RequestBody::NotArray => r@ == CmdReplyView::Rejected(
                    ErrorReplyView {
                        status: 400,
                        message: "Missing 'cmd' or 'cmds' field"@,
                        blocked_command: None,
                    },
                ),
                RequestBody::Array(Err(e)) => r@ == CmdReplyView::Rejected(
                    ErrorReplyView {
                        status: 400,
                        message: "Invalid command array: "@ + e@,
                        blocked_command: None,
                    },
                ),
                RequestBody::Array(Ok(cmds)) => exists|fnames: Seq<Seq<char>>|
                    #![trigger checked_commands(cmds.deep_view(), fnames)]
                    fnames.len() == cmds.len() && (forall|i: int|
                        0 <= i < cmds.len() ==> exe_name_outcome(cmds@[i]@, #[trigger] fnames[i]))
                        && r@ == reply_for_check(checked_commands(cmds.deep_view(), fnames))
                        // an accepted list is run as parsed, whatever its length;
                        // a refused one runs nothing
                        && (checked_commands(cmds.deep_view(), fnames) matches Ok(p) ==> r@
                        == CmdReplyView::Run(p)) && (checked_commands(cmds.deep_view(), fnames) is Err
                        ==> r is Rejected),
        }),
        // commands are run only for an authenticated array of lines, one
        // entry per line
        r matches CmdReply::Run(p) ==> auth is Ok && (body matches RequestBody::Array(Ok(cmds))
            && p.len() == cmds.len()),
{
    match auth {
        Err(m) => {
            let reply = unauthorized_response(m);
            CmdReply::Rejected(reply)
        },
        Ok(()) => match body {
            RequestBody::NotArray => CmdReply::Rejected(
                bad_request(String::from_str("Missing 'cmd' or 'cmds' field")),
            ),
            RequestBody::Array(Err(e)) => {
                CmdReply::Rejected(bad_request(prefixed("Invalid command array: ", e.as_str())))
            },
            RequestBody::Array(Ok(cmds)) => {
                let lines = cmds.as_slice();
                let checked = check_command(lines);
                assert(lines.deep_view() =~= cmds.deep_view());
                let ghost fnames = choose|fnames: Seq<Seq<char>>|
                    fnames.len() == lines.len() && (forall|i: int|
                        0 <= i < lines.len() ==> exe_name_outcome(lines@[i]@, #[trigger] fnames[i]))
                        && check_result_view(checked) == checked_commands(lines.deep_view(), fnames);
                let r = match checked {
                    Ok(parsed) => CmdReply::Run(parsed),
                    Err(e) => {
                        let reply = ErrorReply {
                            status: e.status_code(),
                            message: e.message(),
                            blocked_command: e.blocked_command(),
                        };
                        CmdReply::Rejected(reply)
                    },
                };
                assert(r@ == reply_for_check(checked_commands(cmds.deep_view(), fnames)));
                proof {
                    law_accepted_list_runs_as_parsed(checked_commands(cmds.deep_view(), fnames));
                    if checked is Ok {
                        assert(cmds.deep_view().len() == cmds.len());
                    }
                }
                r
            },
        },
    }
}

/// Commands are run only for lines that were all accepted, and a refused
/// list is answered with the refusal of its first refused line.
pub proof fn law_only_accepted_lines_run(res: Result<Seq<Seq<Seq<char>>>, CommandErrorView>)
    ensures
        reply_for_check(res) matches CmdReplyView::Run(p) ==> res == Ok::<
            Seq<Seq<Seq<char>>>,
            CommandErrorView,
        >(p),
        res matches Err(e) ==> reply_for_check(res) == CmdReplyView::Rejected(
            ErrorReplyView {
                status: command_error_status(e),
                message: command_error_message(e),
                blocked_command: command_error_blocked(e),
            },
        ),
{
}

/// An accepted list of lines is run exactly as parsed, whatever the number
/// of lines, and a refused list runs nothing.
pub proof fn law_accepted_list_runs_as_parsed(res: Result<Seq<Seq<Seq<char>>>, CommandErrorView>)
    ensures
        res matches Ok(p) ==> reply_for_check(res) == CmdReplyView::Run(p),
        res is Err ==> reply_for_check(res) is Rejected,
{
}

} // verus!
