//! Parsing and checking of the command lines a request asks to run, and the
//! report on the commands that were started.
//!
//! A command line has its backslashes turned into forward slashes, is split
//! into words the way a POSIX shell would (quotes and escapes), and is then
//! checked against a blacklist: the executable's file name may not be a
//! blocked executable, no argument may contain a dangerous pattern, and no
//! argument may be a blocked flag. All comparisons are made on lowercased
//! text.

use vstd::prelude::*;
use crate::text::{
    ascii_upper, contains_seq, contains_str, is_ascii_seq, join_seqs, join_strings,
    lemma_lower_ignores_ascii_case, lower, lowercase_str, occurs_at, prefixed, replace_all,
    replace_str,
};

verus! {

/// Executables that are never started, and arguments (those that begin with `-` or `/`) that are never passed.
pub open spec fn command_blacklist() -> Seq<Seq<char>> {
    seq![
        "cmd.exe"@,
        "cmd"@,
        "powershell.exe"@,
        "powershell"@,
        "pwsh"@,
        "bash.exe"@,
        "bash"@,
        "sh.exe"@,
        "sh"@,
        "zsh"@,
        "command.com"@,
        "wscript.exe"@,
        "wscript"@,
        "cscript.exe"@,
        "cscript"@,
        "mshta.exe"@,
        "mshta"@,
        "certutil.exe"@,
        "certutil"@,
        "reg.exe"@,
        "reg"@,
        "regedit.exe"@,
        "regedit"@,
        "schtasks.exe"@,
        "schtasks"@,
        "net.exe"@,
        "net"@,
        "net1.exe"@,
        "sc.exe"@,
        "sc"@,
        "wmic.exe"@,
        "wmic"@,
        "taskkill.exe"@,
        "taskkill"@,
        "tasklist.exe"@,
        "tasklist"@,
        "shutdown.exe"@,
        "shutdown"@,
        "format.com"@,
        "format"@,
        "diskpart.exe"@,
        "diskpart"@,
        "psexec.exe"@,
        "psexec"@,
        "winrm.exe"@,
        "winrm"@,
        "--exec"@,
        "--execute"@,
        "--eval"@,
        "/c"@,
        "/k"@,
        "/r"@,
        "-Command"@,
        "-EncodedCommand"@,
    ]
}


/// Text that no argument may contain, whatever its case.
pub open spec fn dangerous_arg_patterns() -> Seq<Seq<char>> {
    seq![
        "cmd.exe"@,
        "powershell"@,
        "bash"@,
        "sh.exe"@,
        "wscript"@,
        "cscript"@,
        "mshta"@,
        "regedit"@,
        "schtasks"@,
        "taskkill"@,
        "shutdown"@,
        "format"@,
        "diskpart"@,
    ]
}


/// The entries of `command_blacklist`.
fn command_blacklist_entries() -> (r: Vec<&'static str>)
    ensures
        r.deep_view() == command_blacklist(),
{
    let r = vec![
        "cmd.exe",
        "cmd",
        "powershell.exe",
        "powershell",
        "pwsh",
        "bash.exe",
        "bash",
        "sh.exe",
        "sh",
        "zsh",
        "command.com",
        "wscript.exe",
        "wscript",
        "cscript.exe",
        "cscript",
        "mshta.exe",
        "mshta",
        "certutil.exe",
        "certutil",
        "reg.exe",
        "reg",
        "regedit.exe",
        "regedit",
        "schtasks.exe",
        "schtasks",
        "net.exe",
        "net",
        "net1.exe",
        "sc.exe",
        "sc",
        "wmic.exe",
        "wmic",
        "taskkill.exe",
        "taskkill",
        "tasklist.exe",
        "tasklist",
        "shutdown.exe",
        "shutdown",
        "format.com",
        "format",
        "diskpart.exe",
        "diskpart",
        "psexec.exe",
        "psexec",
        "winrm.exe",
        "winrm",
        "--exec",
        "--execute",
        "--eval",
        "/c",
        "/k",
        "/r",
        "-Command",
        "-EncodedCommand",
    ];
    assert(r.deep_view() =~= command_blacklist());
    r
}


/// The entries of `dangerous_arg_patterns`.
fn dangerous_arg_pattern_entries() -> (r: Vec<&'static str>)
    ensures
        r.deep_view() == dangerous_arg_patterns(),
{
    let r = vec![
        "cmd.exe",
        "powershell",
        "bash",
        "sh.exe",
        "wscript",
        "cscript",
        "mshta",
        "regedit",
        "schtasks",
        "taskkill",
        "shutdown",
        "format",
        "diskpart",
    ];
    assert(r.deep_view() =~= dangerous_arg_patterns());
    r
}


/// A blacklist entry that stands for an argument, not an executable: it
/// begins with `-` or `/`.
pub open spec fn is_flag_entry(entry: Seq<char>) -> bool {
    entry.len() > 0 && (entry[0] == '-' || entry[0] == '/')
}

/// `name` (a lowercased file name) is the lowercase form of a blacklisted
/// executable.
pub open spec fn blocked_executable(name: Seq<char>) -> bool {
    exists|i: int|
        0 <= i < command_blacklist().len() && !is_flag_entry(command_blacklist()[i]) && name
            == lower(#[trigger] command_blacklist()[i])
}

/// The first pattern of `pats` whose lowercase form occurs in `arg_lower`.
pub open spec fn pattern_hit(arg_lower: Seq<char>, pats: Seq<Seq<char>>) -> Option<Seq<char>>
    decreases pats.len(),
{
    if pats.len() == 0 {
        None
    } else if contains_seq(arg_lower, lower(pats[0])) {
        Some(pats[0])
    } else {
        pattern_hit(arg_lower, pats.drop_first())
    }
}

/// The first flag entry of `entries` whose lowercase form is `arg_lower`.
pub open spec fn flag_hit(arg_lower: Seq<char>, entries: Seq<Seq<char>>) -> Option<Seq<char>>
    decreases entries.len(),
{
    if entries.len() == 0 {
        None
    } else if is_flag_entry(entries[0]) && arg_lower == lower(entries[0]) {
        Some(entries[0])
    } else {
        flag_hit(arg_lower, entries.drop_first())
    }
}

/// Why one argument is refused, if it is: a dangerous pattern in it comes
/// before a blocked flag.
pub open spec fn arg_reason(arg: Seq<char>) -> Option<Seq<char>> {
    match pattern_hit(lower(arg), dangerous_arg_patterns()) {
        Some(p) => Some("Blocked dangerous pattern in args: "@ + p),
        None => match flag_hit(lower(arg), command_blacklist()) {
            Some(b) => Some("Blocked dangerous argument: "@ + b),
            None => None,
        },
    }
}

/// Why a list of arguments is refused: the reason of its first refused
/// argument.
pub open spec fn args_reason(args: Seq<Seq<char>>) -> Option<Seq<char>>
    decreases args.len(),
{
    if args.len() == 0 {
        None
    } else {
        match arg_reason(args[0]) {
            Some(m) => Some(m),
            None => args_reason(args.drop_first()),
        }
    }
}

/// Why a split command is refused, given the file name `exe_name` found for
/// its lowercased executable; `None` when it may run.
pub open spec fn blacklist_reason(parts: Seq<Seq<char>>, exe_name: Seq<char>) -> Option<
    Seq<char>,
> {
    if parts.len() == 0 {
        Some("Empty command"@)
    } else if blocked_executable(exe_name) {
        Some("Blocked executable: "@ + parts[0])
    } else {
        args_reason(parts.drop_first())
    }
}

/// The part of `path` after its last `/` (all of it where there is none).
pub open spec fn last_segment(path: Seq<char>) -> Seq<char>
    decreases path.len(),
{
    if path.len() == 0 {
        path
    } else if path.last() == '/' {
        Seq::empty()
    } else {
        last_segment(path.drop_last()).push(path.last())
    }
}

/// The last segment of a path ends it and holds no `/`.
pub proof fn lemma_last_segment_is_suffix(path: Seq<char>)
    ensures
        last_segment(path).len() <= path.len(),
        last_segment(path) == path.subrange(path.len() - last_segment(path).len(), path.len() as int),
        !last_segment(path).contains('/'),
    decreases path.len(),
{
    if path.len() > 0 && path.last() != '/' {
        let prev = path.drop_last();
        lemma_last_segment_is_suffix(prev);
        let seg = last_segment(prev).push(path.last());
        assert(seg =~= path.subrange(path.len() - seg.len(), path.len() as int));
        assert forall|i: int| 0 <= i < seg.len() implies seg[i] != '/' by {
            if i < seg.len() - 1 {
                assert(seg[i] == last_segment(prev)[i]);
            }
        }
    } else if path.len() > 0 {
        assert(path.subrange(path.len() as int, path.len() as int) =~= Seq::<char>::empty());
    }
}

/// `path` without its trailing separators and trailing `/.` components,
/// which `Path` ignores on every platform.
pub open spec fn trim_trailing_separators(path: Seq<char>) -> Seq<char>
    decreases path.len(),
{
    if path.len() > 0 && path.last() == '/' {
        trim_trailing_separators(path.drop_last())
    } else if path.len() >= 2 && path.last() == '.' && path[path.len() - 2] == '/' {
        trim_trailing_separators(path.drop_last())
    } else {
        path
    }
}

/// Trimming keeps a prefix of the path.
pub proof fn lemma_trim_is_prefix(path: Seq<char>)
    ensures
        trim_trailing_separators(path).len() <= path.len(),
        trim_trailing_separators(path) == path.take(trim_trailing_separators(path).len() as int),
    decreases path.len(),
{
    if path.len() > 0 && (path.last() == '/' || (path.len() >= 2 && path.last() == '.'
        && path[path.len() - 2] == '/')) {
        lemma_trim_is_prefix(path.drop_last());
        let t = trim_trailing_separators(path.drop_last());
        assert(path.drop_last().take(t.len() as int) =~= path.take(t.len() as int));
    } else {
        assert(path.take(path.len() as int) =~= path);
    }
}

/// The file name of a path as far as it is the same on every platform: the
/// last `/`-separated segment once trailing separators and `/.` are gone.
pub open spec fn file_name_segment(path: Seq<char>) -> Seq<char> {
    last_segment(trim_trailing_separators(path))
}

/// A file name that `check_blacklist` may take for `path`.
pub open spec fn some_file_name(path: Seq<char>) -> Seq<char> {
    if has_plain_file_name(path) {
        file_name_segment(path)
    } else {
        path
    }
}

/// `some_file_name` is an admissible file name.
pub proof fn lemma_some_file_name_admissible(path: Seq<char>)
    ensures
        file_name_outcome(path, some_file_name(path)),
{
    if is_drive_relative_name(path) {
        lemma_drive_relative_not_plain(path);
    }
    if has_plain_file_name(path) {
        let t = trim_trailing_separators(path);
        let seg = file_name_segment(path);
        lemma_trim_is_prefix(path);
        lemma_last_segment_is_suffix(t);
        assert(path.subrange(t.len() - seg.len(), t.len() - seg.len() + seg.len()) =~= t.subrange(
            t.len() - seg.len(),
            t.len() as int,
        ));
        assert(occurs_at(path, seg, t.len() - seg.len()));
    }
}

/// An ordinary path segment: not empty, no drive marker `:`, and neither `.`
/// nor `..`.
pub open spec fn is_plain_segment(seg: Seq<char>) -> bool {
    &&& seg.len() > 0
    &&& !seg.contains(':')
    &&& seg != seq!['.']
    &&& seg != seq!['.', '.']
}

/// `path` begins with `//`.
pub open spec fn starts_with_double_slash(path: Seq<char>) -> bool {
    path.len() >= 2 && path[0] == '/' && path[1] == '/'
}

/// A path of the form `//a/b/.../name` with at least three segments after
/// the leading `//`, the first of which is not `?`. Whatever prefix Windows
/// reads at its start (a `//server/share` or `//./device` prefix, or none)
/// covers at most the first two segments, and on Unix the leading `//` is
/// the root; either way the file name is the last segment.
pub open spec fn is_share_path(path: Seq<char>) -> bool {
    let rest = trim_trailing_separators(path).skip(2);
    &&& starts_with_double_slash(path)
    &&& !(path.len() >= 3 && path[2] == '?')
    &&& exists|i: int, j: int| 0 <= i < j < rest.len() && rest[i] == '/' && rest[j] == '/'
}

/// A path whose file name is the same on every platform: no backslash,
/// either no leading `//` or a share path (`is_share_path`), and, once
/// trailing separators and `/.` are dropped, a last `/`-separated segment
/// that is an ordinary name. Its file name is that segment.
pub open spec fn has_plain_file_name(path: Seq<char>) -> bool {
    &&& !path.contains('\\')
    &&& !starts_with_double_slash(path) || is_share_path(path)
    &&& is_plain_segment(file_name_segment(path))
}

/// An ASCII letter.
pub open spec fn is_ascii_letter(c: char) -> bool {
    ('a' <= c && c <= 'z') || ('A' <= c && c <= 'Z')
}

/// A drive-relative path `X:name` with no separator: Windows reads the drive
/// `X:` and then the file name `name`; Unix reads one file name, the whole
/// path.
pub open spec fn is_drive_relative_name(path: Seq<char>) -> bool {
    &&& path.len() >= 3
    &&& is_ascii_letter(path[0])
    &&& path[1] == ':'
    &&& !path.contains('/')
    &&& !path.contains('\\')
    &&& is_plain_segment(path.skip(2))
}

/// A path without `/` is its own trimmed form and its own last segment.
pub proof fn lemma_no_slash_path(path: Seq<char>)
    requires
        !path.contains('/'),
    ensures
        trim_trailing_separators(path) == path,
        last_segment(path) == path,
    decreases path.len(),
{
    if path.len() > 0 {
        assert(path[path.len() - 1] == path.last());
        if path.len() >= 2 {
            assert(path[path.len() - 2] != '/');
        }
        let prev = path.drop_last();
        assert forall|k: int| 0 <= k < prev.len() implies prev[k] != '/' by {
            assert(prev[k] == path[k]);
        }
        lemma_no_slash_path(prev);
        assert(prev.push(path.last()) =~= path);
    }
}

/// A drive-relative name has no plain file name: its only segment holds `:`.
pub proof fn lemma_drive_relative_not_plain(path: Seq<char>)
    requires
        is_drive_relative_name(path),
    ensures
        !has_plain_file_name(path),
{
    lemma_no_slash_path(path);
    assert(file_name_segment(path) == path);
    assert(path[1] == ':');
}

/// `name` is a file name that `check_blacklist` may take for the lowercased
/// executable `path`:
/// * for a path with a plain file name, exactly that name
///   (`file_name_segment`);
/// * for a drive-relative `X:name`, the whole path (Unix) or `name`
///   (Windows);
/// * in any case the path itself (when it has no file name), or a non-empty
///   part of the path, which has no `/` when the path has no backslash.
/// Beyond these cases the file name follows the platform's path syntax.
pub open spec fn file_name_outcome(path: Seq<char>, name: Seq<char>) -> bool {
    &&& has_plain_file_name(path) ==> name == file_name_segment(path)
    &&& is_drive_relative_name(path) ==> (name == path || name == path.skip(2))
    &&& name == path || (name.len() > 0 && contains_seq(path, name) && (!path.contains('\\')
        ==> !name.contains('/')))
}

/// Calls `std::path::Path::file_name` on `path` and converts the component
/// to a `String`. What it returns depends on the platform's path syntax
/// (Windows also splits at `\`, and reads drive, share, device and verbatim
/// prefixes), so only this is claimed:
/// * a path with a plain file name (`has_plain_file_name`) has that segment
///   as its file name: `Path` ignores repeated and trailing separators and
///   `/.` on every platform, and no Windows prefix reaches its last segment;
/// * a drive-relative `X:name` has the file name `X:name` (Unix) or `name`
///   (Windows, after the `X:` disk prefix);
/// * any file name is a non-empty part of the path, and without backslashes
///   (so without Windows verbatim prefixes, after which `/` is no separator)
///   it holds no `/`.
/// Left unsaid: the Windows reading of other prefixed paths, whose details
/// std's documentation does not spell out for `/` separators.
#[verifier::external_body]
fn path_file_name(path: &str) -> (r: Option<String>)
    ensures
        has_plain_file_name(path@) ==> r.deep_view() == Some(file_name_segment(path@)),
        is_drive_relative_name(path@) ==> (r.deep_view() == Some(path@) || r.deep_view() == Some(
            path@.skip(2),
        )),
        r is Some ==> r.deep_view()->0.len() > 0 && contains_seq(path@, r.deep_view()->0),
        r is Some && !path@.contains('\\') ==> !r.deep_view()->0.contains('/'),
{
    match std::path::Path::new(path).file_name() {
        Some(name) => Some(name.to_string_lossy().into_owned()),
        None => None,
    }
}

/// Whether `s` begins with `-` or `/`.
fn is_flag(s: &str) -> (b: bool)
    ensures
        b == is_flag_entry(s@),
{
    if s.unicode_len() == 0 {
        return false;
    }
    let c = s.get_char(0);
    c == '-' || c == '/'
}

/// The lowercase forms of `entries`.
fn lowercase_all(entries: &Vec<&'static str>) -> (r: Vec<String>)
    ensures
        r.len() == entries.len(),
        forall|i: int| 0 <= i < r.len() ==> #[trigger] r@[i]@ == lower(entries@[i]@),
{
    let mut r: Vec<String> = Vec::new();
    let n = entries.len();
    let mut i: usize = 0;
    while i < n
        invariant
            n == entries.len(),
            i <= n,
            r.len() == i,
            forall|j: int| 0 <= j < i ==> #[trigger] r@[j]@ == lower(entries@[j]@),
        decreases n - i,
    {
        r.push(lowercase_str(entries[i]));
        i = i + 1;
    }
    r
}

/// Why one argument is refused, given the lowercase forms of the dangerous
/// patterns and of the blacklist entries.
fn argument_reason(
    arg: &str,
    pats: &Vec<&'static str>,
    pats_lower: &Vec<String>,
    entries: &Vec<&'static str>,
    entries_lower: &Vec<String>,
) -> (r: Option<String>)
    requires
        pats.deep_view() == dangerous_arg_patterns(),
        pats_lower.len() == pats.len(),
        forall|i: int| 0 <= i < pats.len() ==> #[trigger] pats_lower@[i]@ == lower(pats@[i]@),
        entries.deep_view() == command_blacklist(),
        entries_lower.len() == entries.len(),
        forall|i: int|
            0 <= i < entries.len() ==> #[trigger] entries_lower@[i]@ == lower(entries@[i]@),
    ensures
        r.deep_view() == arg_reason(arg@),
{
    let arg_lower = lowercase_str(arg);
    let ghost a = arg_lower@;
    let ghost pv = dangerous_arg_patterns();
    let ghost ev = command_blacklist();
    assert(pats.deep_view().len() == pats@.len());
    assert(entries.deep_view().len() == entries@.len());
    assert(pv.skip(0) =~= pv);
    let n = pats.len();
    let mut k: usize = 0;
    while k < n
        invariant
            n == pats.len(),
            pats.deep_view() == pv,
            pv == dangerous_arg_patterns(),
            pv.len() == n,
            pats_lower.len() == n,
            forall|i: int| 0 <= i < n ==> #[trigger] pats_lower@[i]@ == lower(pats@[i]@),
            k <= n,
            a == lower(arg@),
            arg_lower@ == a,
            pattern_hit(a, pv) == pattern_hit(a, pv.skip(k as int)),
        decreases n - k,
    {
        assert(pv[k as int] == pats@[k as int]@);
        assert(pv.skip(k as int)[0] == pv[k as int]);
        assert(pv.skip(k as int).drop_first() =~= pv.skip(k + 1));
        if contains_str(arg_lower.as_str(), pats_lower[k].as_str()) {
            let msg = prefixed("Blocked dangerous pattern in args: ", pats[k]);
            assert(pattern_hit(a, pv) == Some(pv[k as int]));
            assert(msg@ == "Blocked dangerous pattern in args: "@ + pv[k as int]);
            return Some(msg);
        }
        k = k + 1;
    }
    assert(pv.skip(n as int).len() == 0);
    assert(ev.skip(0) =~= ev);
    let m = entries.len();
    let mut k: usize = 0;
    while k < m
        invariant
            m == entries.len(),
            entries.deep_view() == ev,
            ev == command_blacklist(),
            pv == dangerous_arg_patterns(),
            ev.len() == m,
            entries_lower.len() == m,
            forall|i: int| 0 <= i < m ==> #[trigger] entries_lower@[i]@ == lower(entries@[i]@),
            k <= m,
            a == lower(arg@),
            arg_lower@ == a,
            pattern_hit(a, pv) is None,
            flag_hit(a, ev) == flag_hit(a, ev.skip(k as int)),
        decreases m - k,
    {
        assert(ev[k as int] == entries@[k as int]@);
        assert(ev.skip(k as int)[0] == ev[k as int]);
        assert(ev.skip(k as int).drop_first() =~= ev.skip(k + 1));
        if is_flag(entries[k]) {
            if arg_lower == entries_lower[k] {
                let msg = prefixed("Blocked dangerous argument: ", entries[k]);
                assert(flag_hit(a, ev) == Some(ev[k as int]));
                assert(msg@ == "Blocked dangerous argument: "@ + ev[k as int]);
                return Some(msg);
            }
        }
        k = k + 1;
    }
    assert(ev.skip(m as int).len() == 0);
    None
}

/// Why the split command `cmd_parts` is refused, given the file name
/// `exe_filename` found for its lowercased executable: `"Empty command"`
/// for no words, a blocked executable, then the first refused argument;
/// `None` when the command may run.
pub fn blacklist_reason_for(cmd_parts: &[String], exe_filename: &str) -> (r: Option<String>)
    ensures
        r.deep_view() == blacklist_reason(cmd_parts.deep_view(), exe_filename@),
        // every executable entry of the table, at any position, blocks
        cmd_parts.len() > 0 && (exists|i: int|
            0 <= i < command_blacklist().len() && !is_flag_entry(command_blacklist()[i])
                && exe_filename@ == lower(#[trigger] command_blacklist()[i])) ==> r.deep_view()
            == Some("Blocked executable: "@ + cmd_parts@[0]@),
{
    let ghost parts = cmd_parts.deep_view();
    if cmd_parts.len() == 0 {
        return Some(String::from_str("Empty command"));
    }
    let entries = command_blacklist_entries();
    let entries_lower = lowercase_all(&entries);
    let pats = dangerous_arg_pattern_entries();
    let pats_lower = lowercase_all(&pats);
    let ghost ev = command_blacklist();
    let name = String::from_str(exe_filename);
    let m = entries.len();
    assert(entries.deep_view().len() == entries@.len());
    let mut i: usize = 0;
    while i < m
        invariant
            m == entries.len(),
            entries.deep_view() == ev,
            ev == command_blacklist(),
            ev.len() == m,
            entries_lower.len() == m,
            forall|j: int| 0 <= j < m ==> #[trigger] entries_lower@[j]@ == lower(entries@[j]@),
            name@ == exe_filename@,
            cmd_parts.len() > 0,
            parts == cmd_parts.deep_view(),
            i <= m,
            forall|j: int|
                0 <= j < i ==> !(!is_flag_entry(ev[j]) && exe_filename@ == lower(#[trigger] ev[j])),
        decreases m - i,
    {
        assert(ev[i as int] == entries@[i as int]@);
        if !is_flag(entries[i]) {
            if name == entries_lower[i] {
                assert(exe_filename@ == lower(command_blacklist()[i as int]));
                assert(parts[0] == cmd_parts@[0]@);
                return Some(prefixed("Blocked executable: ", cmd_parts[0].as_str()));
            }
        }
        i = i + 1;
    }
    assert(!blocked_executable(exe_filename@));
    let n = cmd_parts.len();
    let ghost args = parts.drop_first();
    assert(args.skip(0) =~= args);
    let mut k: usize = 1;
    while k < n
        invariant
            n == cmd_parts.len(),
            parts == cmd_parts.deep_view(),
            args == parts.drop_first(),
            !blocked_executable(exe_filename@),
            1 <= k <= n,
            pats.deep_view() == dangerous_arg_patterns(),
            pats_lower.len() == pats.len(),
            forall|j: int| 0 <= j < pats.len() ==> #[trigger] pats_lower@[j]@ == lower(pats@[j]@),
            entries.deep_view() == command_blacklist(),
            entries_lower.len() == entries.len(),
            forall|j: int|
                0 <= j < entries.len() ==> #[trigger] entries_lower@[j]@ == lower(entries@[j]@),
            args_reason(args) == args_reason(args.skip(k - 1)),
        decreases n - k,
    {
        assert(args.skip(k - 1)[0] == cmd_parts@[k as int]@);
        assert(args.skip(k - 1).drop_first() =~= args.skip(k as int));
        let reason = argument_reason(
            cmd_parts[k].as_str(),
            &pats,
            &pats_lower,
            &entries,
            &entries_lower,
        );
        if reason.is_some() {
            assert(args_reason(args.skip(k - 1)) == arg_reason(cmd_parts@[k as int]@));
            return reason;
        }
        k = k + 1;
    }
    assert(args.skip(n - 1).len() == 0);
    None
}

/// Why the split command `cmd_parts` may not run, or `None` when it may.
///
/// The executable's name is lowercased and reduced to its file name (the
/// final path component; the whole lowercased name where the path has
/// none), then compared with the blocked executables; each argument after
/// it is lowercased and checked for dangerous patterns and blocked flags.
/// Since the file name depends on the platform's path syntax, the result is
/// stated for some admissible file name.
pub fn check_blacklist(cmd_parts: &[String]) -> (r: Option<String>)
    ensures
        cmd_parts.len() == 0 ==> r.deep_view() == Some("Empty command"@),
        cmd_parts.len() > 0 ==> exists|f: Seq<char>|
            #![trigger file_name_outcome(lower(cmd_parts@[0]@), f)]
            file_name_outcome(lower(cmd_parts@[0]@), f) && r.deep_view() == blacklist_reason(
                cmd_parts.deep_view(),
                f,
            ),
        // an argument with a dangerous pattern or a blocked flag is refused
        (exists|j: int| 1 <= j < cmd_parts.len() && (#[trigger] arg_reason(cmd_parts@[j]@)) is Some)
            ==> r is Some,
        // where the executable's file name is the same on every platform, the
        // verdict is exact
        cmd_parts.len() > 0 && has_plain_file_name(lower(cmd_parts@[0]@)) ==> r.deep_view()
            == blacklist_reason(cmd_parts.deep_view(), file_name_segment(lower(cmd_parts@[0]@))),
        // a drive-relative `X:name` is judged by the whole path (Unix) or by
        // `name` (Windows)
        cmd_parts.len() > 0 && is_drive_relative_name(lower(cmd_parts@[0]@)) ==> (r.deep_view()
            == blacklist_reason(cmd_parts.deep_view(), lower(cmd_parts@[0]@)) || r.deep_view()
            == blacklist_reason(cmd_parts.deep_view(), lower(cmd_parts@[0]@).skip(2))),
        // an executable whose file name is any executable entry of the table is
        // refused, whatever its arguments
        cmd_parts.len() > 0 && has_plain_file_name(lower(cmd_parts@[0]@)) && (exists|i: int|
            0 <= i < command_blacklist().len() && !is_flag_entry(command_blacklist()[i])
                && file_name_segment(lower(cmd_parts@[0]@)) == lower(
                #[trigger] command_blacklist()[i],
            )) ==> r.deep_view() == Some("Blocked executable: "@ + cmd_parts@[0]@),
        // a blacklisted executable is refused, whatever its arguments
        cmd_parts.len() > 0 && has_plain_file_name(lower(cmd_parts@[0]@))
            && blocked_executable(file_name_segment(lower(cmd_parts@[0]@))) ==> r.deep_view()
            == Some("Blocked executable: "@ + cmd_parts@[0]@),
{
    if cmd_parts.len() == 0 {
        return Some(String::from_str("Empty command"));
    }
    let exe_lower = lowercase_str(cmd_parts[0].as_str());
    let exe_filename = match path_file_name(exe_lower.as_str()) {
        Some(n) => n,
        None => exe_lower.clone(),
    };
    assert(file_name_outcome(exe_lower@, exe_filename@));
    let r = blacklist_reason_for(cmd_parts, exe_filename.as_str());
    proof {
        let parts = cmd_parts.deep_view();
        assert(parts[0] == cmd_parts@[0]@);
        if exists|j: int| 1 <= j < cmd_parts.len() && (#[trigger] arg_reason(cmd_parts@[j]@)) is Some {
            let j = choose|j: int| 1 <= j < cmd_parts.len() && (#[trigger] arg_reason(cmd_parts@[j]@)) is Some;
            assert(parts.drop_first()[j - 1] == cmd_parts@[j]@);
            lemma_args_reason_some(parts.drop_first(), j - 1);
        }
    }
    r
}

/// The arguments are refused exactly when one of them is.
pub proof fn lemma_args_reason_some(args: Seq<Seq<char>>, j: int)
    requires
        0 <= j < args.len(),
        arg_reason(args[j]) is Some,
    ensures
        args_reason(args) is Some,
    decreases j,
{
    if j > 0 && arg_reason(args[0]) is None {
        assert(args.drop_first()[j - 1] == args[j]);
        lemma_args_reason_some(args.drop_first(), j - 1);
    }
}

/// The arguments are accepted only when each of them is.
pub proof fn lemma_args_reason_none(args: Seq<Seq<char>>, j: int)
    requires
        0 <= j < args.len(),
        args_reason(args) is None,
    ensures
        arg_reason(args[j]) is None,
{
    if arg_reason(args[j]) is Some {
        lemma_args_reason_some(args, j);
    }
}

/// A split command is let through only when it has words, its executable
/// is not blacklisted, and none of its arguments is refused.
pub proof fn law_accepted_command_is_clean(parts: Seq<Seq<char>>, exe_name: Seq<char>)
    requires
        blacklist_reason(parts, exe_name) is None,
    ensures
        parts.len() > 0,
        !blocked_executable(exe_name),
        forall|j: int| 1 <= j < parts.len() ==> (#[trigger] arg_reason(parts[j])) is None,
{
    assert forall|j: int| 1 <= j < parts.len() implies (#[trigger] arg_reason(parts[j])) is None by {
        assert(parts.drop_first()[j - 1] == parts[j]);
        lemma_args_reason_none(parts.drop_first(), j - 1);
    }
}

/// A refused argument refuses the command, whatever its executable.
pub proof fn law_refused_argument_refuses_command(
    parts: Seq<Seq<char>>,
    exe_name: Seq<char>,
    j: int,
)
    requires
        1 <= j < parts.len(),
        arg_reason(parts[j]) is Some,
    ensures
        blacklist_reason(parts, exe_name) is Some,
{
    assert(parts.drop_first()[j - 1] == parts[j]);
    lemma_args_reason_some(parts.drop_first(), j - 1);
}

/// Every executable entry of the blacklist, at any position, refuses a
/// command whose executable has that entry (lowercased) as its file name,
/// whatever the command's arguments, with the command's own first word in
/// the reason.
pub proof fn law_every_blacklisted_executable_is_refused(
    parts: Seq<Seq<char>>,
    i: int,
)
    requires
        parts.len() > 0,
        0 <= i < command_blacklist().len(),
        !is_flag_entry(command_blacklist()[i]),
    ensures
        blacklist_reason(parts, lower(command_blacklist()[i])) == Some(
            "Blocked executable: "@ + parts[0],
        ),
{
}

/// A refusal among arguments stays the first one when more arguments follow.
pub proof fn lemma_args_reason_prefix(args: Seq<Seq<char>>, extra: Seq<Seq<char>>)
    requires
        args_reason(args) is Some,
    ensures
        args_reason(args + extra) == args_reason(args),
    decreases args.len(),
{
    assert((args + extra)[0] == args[0]);
    if arg_reason(args[0]) is None {
        assert((args + extra).drop_first() =~= args.drop_first() + extra);
        lemma_args_reason_prefix(args.drop_first(), extra);
    }
}

/// Appending arguments to a refused command never lets it through, nor
/// changes the reason of its refusal.
pub proof fn law_appending_arguments_keeps_refusal(
    parts: Seq<Seq<char>>,
    extra: Seq<Seq<char>>,
    exe_name: Seq<char>,
)
    requires
        parts.len() >= 1,
        blacklist_reason(parts, exe_name) is Some,
    ensures
        blacklist_reason(parts + extra, exe_name) == blacklist_reason(parts, exe_name),
{
    assert((parts + extra)[0] == parts[0]);
    if !blocked_executable(exe_name) {
        assert((parts + extra).drop_first() =~= parts.drop_first() + extra);
        lemma_args_reason_prefix(parts.drop_first(), extra);
    }
}

/// The verdict does not depend on the letter case of ASCII text: a command
/// and its uppercased copy have the same lowercased executable (so the same
/// file name) and are refused, or let through, alike.
pub proof fn law_verdict_ignores_ascii_case(parts: Seq<Seq<char>>, exe_name: Seq<char>)
    requires
        forall|i: int| 0 <= i < parts.len() ==> is_ascii_seq(#[trigger] parts[i]),
    ensures
        parts.len() > 0 ==> lower(ascii_upper(parts[0])) == lower(parts[0]),
        (blacklist_reason(parts, exe_name) is Some) == (blacklist_reason(
            parts.map_values(|s: Seq<char>| ascii_upper(s)),
            exe_name,
        ) is Some),
{
    let up = parts.map_values(|s: Seq<char>| ascii_upper(s));
    assert forall|i: int| 0 <= i < parts.len() implies arg_reason(#[trigger] up[i]) == arg_reason(
        parts[i],
    ) by {
        lemma_lower_ignores_ascii_case(parts[i]);
    }
    if parts.len() > 0 {
        lemma_lower_ignores_ascii_case(parts[0]);
        lemma_args_reason_same(parts.drop_first(), up.drop_first());
    }
}

/// Arguments refused alike one by one are refused alike together.
pub proof fn lemma_args_reason_same(a: Seq<Seq<char>>, b: Seq<Seq<char>>)
    requires
        a.len() == b.len(),
        forall|i: int| 0 <= i < a.len() ==> arg_reason(#[trigger] a[i]) == arg_reason(b[i]),
    ensures
        args_reason(a) == args_reason(b),
    decreases a.len(),
{
    if a.len() > 0 {
        assert(arg_reason(a[0]) == arg_reason(b[0]));
        assert forall|i: int| 0 <= i < a.drop_first().len() implies arg_reason(
            #[trigger] a.drop_first()[i],
        ) == arg_reason(b.drop_first()[i]) by {
            assert(a.drop_first()[i] == a[i + 1]);
            assert(arg_reason(a[i + 1]) == arg_reason(b[i + 1]));
        }
        lemma_args_reason_same(a.drop_first(), b.drop_first());
    }
}

// ---------------------------------------------------------------------------
// Splitting command lines
// ---------------------------------------------------------------------------

/// What `shell_words::split` gives for a string: its words after POSIX shell
/// quote removal, or `None` where a quote is left open.
pub uninterp spec fn shell_split_words(s: Seq<char>) -> Option<Seq<Seq<char>>>;

/// A delimiter between shell words.
pub open spec fn is_shell_delimiter(c: char) -> bool {
    c == ' ' || c == '\t' || c == '\n'
}

/// A command line without quotes, backslashes or comment signs, which the
/// shell splits at its delimiters alone.
pub open spec fn is_simple_command_line(s: Seq<char>) -> bool {
    forall|i: int|
        0 <= i < s.len() ==> {
            let c = #[trigger] s[i];
            c != '\'' && c != '"' && c != '\\' && c != '#'
        }
}

/// The maximal runs of non-delimiters of `s`, in order.
pub open spec fn simple_words(s: Seq<char>) -> Seq<Seq<char>>
    decreases s.len(),
{
    if s.len() == 0 {
        Seq::empty()
    } else {
        let prev = simple_words(s.drop_last());
        let c = s.last();
        if is_shell_delimiter(c) {
            prev
        } else if s.len() >= 2 && !is_shell_delimiter(s[s.len() - 2]) {
            prev.update(prev.len() - 1, prev.last().push(c))
        } else {
            prev.push(seq![c])
        }
    }
}

/// Calls `shell_words::split`, with its error turned into its message. The
/// words are named `shell_split_words` of the input; the only error it has
/// is an unmatched quote, reported as "missing closing quote". A line
/// without quotes, backslashes or `#` is split at spaces, tabs and newlines.
#[verifier::external_body]
fn split_shell_words(s: &str) -> (r: Result<Vec<String>, String>)
    ensures
        match r {
            Ok(words) => shell_split_words(s@) == Some(words.deep_view()),
            Err(m) => shell_split_words(s@) is None && m@ == "missing closing quote"@,
        },
        is_simple_command_line(s@) ==> match r {
            Ok(words) => words.deep_view() == simple_words(s@),
            Err(_) => false,
        },
{
    match shell_words::split(s) {
        Ok(words) => Ok(words),
        Err(e) => Err(e.to_string()),
    }
}

/// A command line with its backslashes turned into forward slashes: each
/// doubled backslash becomes one `/`, then each remaining backslash a `/`.
pub open spec fn normalized(cmd: Seq<char>) -> Seq<char> {
    replace_all(replace_all(cmd, seq!['\\', '\\'], seq!['/']), seq!['\\'], seq!['/'])
}

/// `cmd` with its backslashes turned into forward slashes.
pub fn normalize_command(cmd: &str) -> (r: String)
    ensures
        r@ == normalized(cmd@),
        forall|i: int| 0 <= i < r@.len() ==> r@[i] != '\\',
        // only backslashes change: a line without one is kept as it is, and
        // every character other than a slash or backslash is kept, in order
        !cmd@.contains('\\') ==> r@ == cmd@,
        without_slashes(r@) == without_slashes(cmd@),
{
    let two = "\\\\";
    let one = "\\";
    let slash = "/";
    proof {
        reveal_strlit("\\\\");
        reveal_strlit("\\");
        reveal_strlit("/");
    }
    assert(two@ =~= seq!['\\', '\\']);
    assert(one@ =~= seq!['\\']);
    assert(slash@ =~= seq!['/']);
    let a = replace_str(cmd, two, slash);
    let r = replace_str(a.as_str(), one, slash);
    proof {
        lemma_no_backslash_left(a@);
        law_normalize_changes_only_backslashes(cmd@);
    }
    r
}

/// The characters of `s` other than `/` and `\`, in order.
pub open spec fn without_slashes(s: Seq<char>) -> Seq<char>
    decreases s.len(),
{
    if s.len() == 0 {
        s
    } else if s[0] == '/' || s[0] == '\\' {
        without_slashes(s.drop_first())
    } else {
        seq![s[0]] + without_slashes(s.drop_first())
    }
}

/// `without_slashes` of a concatenation is the concatenation of its parts'.
pub proof fn lemma_without_slashes_concat(a: Seq<char>, b: Seq<char>)
    ensures
        without_slashes(a + b) == without_slashes(a) + without_slashes(b),
    decreases a.len(),
{
    if a.len() == 0 {
        assert(a + b =~= b);
        assert(without_slashes(a) + without_slashes(b) =~= without_slashes(b));
    } else {
        assert((a + b)[0] == a[0]);
        assert((a + b).drop_first() =~= a.drop_first() + b);
        lemma_without_slashes_concat(a.drop_first(), b);
        assert(seq![a[0]] + (without_slashes(a.drop_first()) + without_slashes(b)) =~= (seq![a[0]]
            + without_slashes(a.drop_first())) + without_slashes(b));
    }
}

/// A run of backslashes has nothing but slashes and backslashes.
pub proof fn lemma_without_slashes_of_backslashes(s: Seq<char>)
    requires
        forall|k: int| 0 <= k < s.len() ==> s[k] == '\\',
    ensures
        without_slashes(s) == Seq::<char>::empty(),
    decreases s.len(),
{
    if s.len() > 0 {
        assert forall|k: int| 0 <= k < s.drop_first().len() implies s.drop_first()[k] == '\\' by {
            assert(s.drop_first()[k] == s[k + 1]);
        }
        lemma_without_slashes_of_backslashes(s.drop_first());
    }
}

/// Replacing runs of backslashes by a slash keeps every other character.
pub proof fn lemma_replace_backslashes_keeps_others(s: Seq<char>, pat: Seq<char>)
    requires
        pat.len() > 0,
        forall|k: int| 0 <= k < pat.len() ==> pat[k] == '\\',
    ensures
        without_slashes(replace_all(s, pat, seq!['/'])) == without_slashes(s),
    decreases s.len(),
{
    if s.len() > 0 {
        let m = pat.len() as int;
        if occurs_at(s, pat, 0) {
            lemma_replace_backslashes_keeps_others(s.skip(m), pat);
            lemma_without_slashes_concat(seq!['/'], replace_all(s.skip(m), pat, seq!['/']));
            assert(seq!['/'].drop_first() =~= Seq::<char>::empty());
            assert(without_slashes(Seq::<char>::empty()) == Seq::<char>::empty());
            assert(without_slashes(seq!['/']) == Seq::<char>::empty());
            assert(replace_all(s, pat, seq!['/']) == seq!['/'] + replace_all(
                s.skip(m),
                pat,
                seq!['/'],
            ));
            assert(s =~= s.subrange(0, m) + s.skip(m));
            lemma_without_slashes_concat(s.subrange(0, m), s.skip(m));
            assert forall|k: int| 0 <= k < s.subrange(0, m).len() implies s.subrange(0, m)[k]
                == '\\' by {
                assert(s.subrange(0, m)[k] == pat[k]);
            }
            lemma_without_slashes_of_backslashes(s.subrange(0, m));
            assert(Seq::<char>::empty() + without_slashes(s.skip(m)) =~= without_slashes(s.skip(m)));
            assert(Seq::<char>::empty() + without_slashes(replace_all(s.skip(m), pat, seq!['/']))
                =~= without_slashes(replace_all(s.skip(m), pat, seq!['/'])));
        } else {
            lemma_replace_backslashes_keeps_others(s.skip(1), pat);
            assert(replace_all(s, pat, seq!['/']) == seq![s[0]] + replace_all(
                s.skip(1),
                pat,
                seq!['/'],
            ));
            lemma_without_slashes_concat(seq![s[0]], replace_all(s.skip(1), pat, seq!['/']));
            assert(s =~= seq![s[0]] + s.skip(1));
            lemma_without_slashes_concat(seq![s[0]], s.skip(1));
        }
    }
}

/// Replacing a pattern that begins with a backslash leaves a line without
/// backslashes unchanged.
pub proof fn lemma_replace_without_backslash(s: Seq<char>, pat: Seq<char>, to: Seq<char>)
    requires
        pat.len() > 0,
        pat[0] == '\\',
        !s.contains('\\'),
    ensures
        replace_all(s, pat, to) == s,
    decreases s.len(),
{
    if s.len() > 0 {
        assert(s[0] != '\\');
        if s.len() >= pat.len() {
            assert(s.subrange(0, pat.len() as int)[0] == s[0]);
        }
        assert(!occurs_at(s, pat, 0));
        assert forall|k: int| 0 <= k < s.skip(1).len() implies s.skip(1)[k] != '\\' by {
            assert(s.skip(1)[k] == s[k + 1]);
        }
        lemma_replace_without_backslash(s.skip(1), pat, to);
        assert(seq![s[0]] + s.skip(1) =~= s);
    }
}

/// Normalizing a command line changes its backslashes only: a line without
/// backslashes is kept as it is, every character other than a slash or a
/// backslash is kept in order, and no backslash is left.
pub proof fn law_normalize_changes_only_backslashes(cmd: Seq<char>)
    ensures
        !cmd.contains('\\') ==> normalized(cmd) == cmd,
        without_slashes(normalized(cmd)) == without_slashes(cmd),
        !normalized(cmd).contains('\\'),
{
    let two = seq!['\\', '\\'];
    let one = seq!['\\'];
    let a = replace_all(cmd, two, seq!['/']);
    if !cmd.contains('\\') {
        lemma_replace_without_backslash(cmd, two, seq!['/']);
        lemma_replace_without_backslash(cmd, one, seq!['/']);
    }
    lemma_replace_backslashes_keeps_others(cmd, two);
    lemma_replace_backslashes_keeps_others(a, one);
    lemma_no_backslash_left(a);
}

/// Replacing every backslash by a slash leaves no backslash.
pub proof fn lemma_no_backslash_left(s: Seq<char>)
    ensures
        forall|i: int|
            0 <= i < replace_all(s, seq!['\\'], seq!['/']).len() ==> replace_all(
                s,
                seq!['\\'],
                seq!['/'],
            )[i] != '\\',
    decreases s.len(),
{
    if s.len() > 0 {
        let r = replace_all(s, seq!['\\'], seq!['/']);
        let rec = replace_all(s.skip(1), seq!['\\'], seq!['/']);
        lemma_no_backslash_left(s.skip(1));
        if s[0] == '\\' {
            assert(s.subrange(0, 1) =~= seq!['\\']);
            assert(r == seq!['/'] + rec);
        } else {
            assert(s.subrange(0, 1)[0] != seq!['\\'][0]);
            assert(r == seq![s[0]] + rec);
        }
        assert forall|i: int| 0 <= i < r.len() implies r[i] != '\\' by {
            if i > 0 {
                assert(r[i] == rec[i - 1]);
            }
        }
    }
}

/// The words of a command line: split after normalization.
pub open spec fn split_words(cmd: Seq<char>) -> Option<Seq<Seq<char>>> {
    shell_split_words(normalized(cmd))
}

// ---------------------------------------------------------------------------
// Checking command lines
// ---------------------------------------------------------------------------

/// Why a command line is refused.
#[derive(Debug)]
pub enum CommandError {
    /// The line has an unmatched quote; `detail` says so.
    ParseFailed { command: String, detail: String },
    /// The line has no words.
    Empty { command: String },
    /// The line is blacklisted for `reason`.
    Blocked { command: String, reason: String },
}

/// A `CommandError` as plain values.
pub enum CommandErrorView {
    ParseFailed { command: Seq<char>, detail: Seq<char> },
    Empty { command: Seq<char> },
    Blocked { command: Seq<char>, reason: Seq<char> },
}

impl View for CommandError {
    type V = CommandErrorView;

    open spec fn view(&self) -> CommandErrorView {
        match self {
            CommandError::ParseFailed { command, detail } => CommandErrorView::ParseFailed {
                command: command@,
                detail: detail@,
            },
            CommandError::Empty { command } => CommandErrorView::Empty { command: command@ },
            CommandError::Blocked { command, reason } => CommandErrorView::Blocked {
                command: command@,
                reason: reason@,
            },
        }
    }
}

/// The message a refused command line is answered with.
pub open spec fn command_error_message(e: CommandErrorView) -> Seq<char> {
    match e {
        CommandErrorView::ParseFailed { command, detail } => "Failed to parse command '"@
            + command + "': "@ + detail,
        CommandErrorView::Empty { command } => "Empty command: "@ + command,
        CommandErrorView::Blocked { command, reason } => "Command blocked: "@ + reason,
    }
}

/// The HTTP status a refused command line is answered with: 403 for a
/// blacklisted line, 400 otherwise.
pub open spec fn command_error_status(e: CommandErrorView) -> u16 {
    if e is Blocked {
        403
    } else {
        400
    }
}

/// The line reported beside a refusal: only a blacklisted line is.
pub open spec fn command_error_blocked(e: CommandErrorView) -> Option<Seq<char>> {
    match e {
        CommandErrorView::Blocked { command, reason: _ } => Some(command),
        _ => None,
    }
}

impl CommandError {
    /// The message this refusal is answered with.
    pub fn message(&self) -> (r: String)
        ensures
            r@ == command_error_message(self@),
    {
        match self {
            CommandError::ParseFailed { command, detail } => {
                let mut r = String::from_str("Failed to parse command '");
                r.append(command.as_str());
                r.append("': ");
                r.append(detail.as_str());
                r
            },
            CommandError::Empty { command } => prefixed("Empty command: ", command.as_str()),
            CommandError::Blocked { command: _, reason } => prefixed(
                "Command blocked: ",
                reason.as_str(),
            ),
        }
    }

    /// The HTTP status of the answer: 403 for a blacklisted line, 400
    /// otherwise.
    pub fn status_code(&self) -> (r: u16)
        ensures
            r == command_error_status(self@),
    {
        match self {
            CommandError::Blocked { .. } => 403,
            _ => 400,
        }
    }

    /// The refused line, reported beside a blacklist refusal only.
    pub fn blocked_command(&self) -> (r: Option<String>)
        ensures
            r.deep_view() == command_error_blocked(self@),
    {
        match self {
            CommandError::Blocked { command, reason: _ } => Some(command.clone()),
            _ => None,
        }
    }
}

/// `fname` is an admissible file name for the executable of `cmd`.
pub open spec fn exe_name_outcome(cmd: Seq<char>, fname: Seq<char>) -> bool {
    match split_words(cmd) {
        Some(words) => words.len() > 0 ==> file_name_outcome(lower(words[0]), fname),
        None => true,
    }
}

/// The verdict on one command line, given the file name found for its
/// executable: its words, or why it is refused.
pub open spec fn checked_command(cmd: Seq<char>, fname: Seq<char>) -> Result<
    Seq<Seq<char>>,
    CommandErrorView,
> {
    match split_words(cmd) {
        None => Err(CommandErrorView::ParseFailed { command: cmd, detail: "missing closing quote"@ }),
        Some(words) => if words.len() == 0 {
            Err(CommandErrorView::Empty { command: cmd })
        } else {
            match blacklist_reason(words, fname) {
                Some(reason) => Err(CommandErrorView::Blocked { command: cmd, reason }),
                None => Ok(words),
            }
        },
    }
}

/// The verdict on a list of command lines, checked in order: the words of
/// every line, or the refusal of the first refused line.
pub open spec fn checked_commands(cmds: Seq<Seq<char>>, fnames: Seq<Seq<char>>) -> Result<
    Seq<Seq<Seq<char>>>,
    CommandErrorView,
>
    decreases cmds.len(),
{
    if cmds.len() == 0 {
        Ok(Seq::empty())
    } else {
        match checked_commands(cmds.drop_last(), fnames.drop_last()) {
            Err(e) => Err(e),
            Ok(done) => match checked_command(cmds.last(), fnames.last()) {
                Err(e) => Err(e),
                Ok(words) => Ok(done.push(words)),
            },
        }
    }
}

/// The view of `check_command`'s result.
pub open spec fn check_result_view(r: Result<Vec<Vec<String>>, CommandError>) -> Result<
    Seq<Seq<Seq<char>>>,
    CommandErrorView,
> {
    match r {
        Ok(v) => Ok(v.deep_view()),
        Err(e) => Err(e@),
    }
}

/// A refusal among the first `k` lines is the refusal of the whole list.
pub proof fn lemma_checked_prefix_error(
    cmds: Seq<Seq<char>>,
    fnames: Seq<Seq<char>>,
    k: int,
)
    requires
        0 <= k <= cmds.len(),
        cmds.len() == fnames.len(),
        checked_commands(cmds.take(k), fnames.take(k)) is Err,
    ensures
        checked_commands(cmds, fnames) == checked_commands(cmds.take(k), fnames.take(k)),
    decreases cmds.len(),
{
    if k == cmds.len() {
        assert(cmds.take(k) =~= cmds);
        assert(fnames.take(k) =~= fnames);
    } else {
        assert(cmds.drop_last().take(k) =~= cmds.take(k));
        assert(fnames.drop_last().take(k) =~= fnames.take(k));
        lemma_checked_prefix_error(cmds.drop_last(), fnames.drop_last(), k);
    }
}

/// Lines are accepted together only when each is accepted on its own, and
/// then their words come in order, one entry per line.
pub proof fn law_accepted_lines_are_each_accepted(
    cmds: Seq<Seq<char>>,
    fnames: Seq<Seq<char>>,
)
    requires
        cmds.len() == fnames.len(),
        checked_commands(cmds, fnames) is Ok,
    ensures
        checked_commands(cmds, fnames)->Ok_0.len() == cmds.len(),
        forall|i: int|
            0 <= i < cmds.len() ==> checked_command(#[trigger] cmds[i], fnames[i]) == Ok::<
                Seq<Seq<char>>,
                CommandErrorView,
            >(checked_commands(cmds, fnames)->Ok_0[i]),
    decreases cmds.len(),
{
    if cmds.len() > 0 {
        law_accepted_lines_are_each_accepted(cmds.drop_last(), fnames.drop_last());
        let done = checked_commands(cmds.drop_last(), fnames.drop_last())->Ok_0;
        assert forall|i: int| 0 <= i < cmds.len() implies checked_command(
            #[trigger] cmds[i],
            fnames[i],
        ) == Ok::<Seq<Seq<char>>, CommandErrorView>(checked_commands(cmds, fnames)->Ok_0[i]) by {
            if i < cmds.len() - 1 {
                assert(cmds.drop_last()[i] == cmds[i]);
                assert(fnames.drop_last()[i] == fnames[i]);
            }
        }
    }
}

/// A list is refused with the refusal of its first refused line: some line
/// is refused with that error and every line before it is accepted.
pub proof fn law_first_refusal_decides(cmds: Seq<Seq<char>>, fnames: Seq<Seq<char>>)
    requires
        cmds.len() == fnames.len(),
        checked_commands(cmds, fnames) is Err,
    ensures
        exists|i: int|
            0 <= i < cmds.len() && checked_command(cmds[i], fnames[i]) == Err::<
                Seq<Seq<char>>,
                CommandErrorView,
            >(checked_commands(cmds, fnames)->Err_0) && (forall|j: int|
                0 <= j < i ==> (#[trigger] checked_command(cmds[j], fnames[j])) is Ok),
    decreases cmds.len(),
{
    let prev = checked_commands(cmds.drop_last(), fnames.drop_last());
    if prev is Err {
        law_first_refusal_decides(cmds.drop_last(), fnames.drop_last());
        let i = choose|i: int|
            0 <= i < cmds.drop_last().len() && checked_command(
                cmds.drop_last()[i],
                fnames.drop_last()[i],
            ) == Err::<Seq<Seq<char>>, CommandErrorView>(prev->Err_0) && (forall|j: int|
                0 <= j < i ==> (#[trigger] checked_command(
                    cmds.drop_last()[j],
                    fnames.drop_last()[j],
                )) is Ok);
        assert(cmds.drop_last()[i] == cmds[i]);
        assert(fnames.drop_last()[i] == fnames[i]);
        assert forall|j: int| 0 <= j < i implies (#[trigger] checked_command(
            cmds[j],
            fnames[j],
        )) is Ok by {
            assert(cmds.drop_last()[j] == cmds[j]);
            assert(fnames.drop_last()[j] == fnames[j]);
        }
    } else {
        law_accepted_lines_are_each_accepted(cmds.drop_last(), fnames.drop_last());
        let i = cmds.len() - 1;
        assert forall|j: int| 0 <= j < i implies (#[trigger] checked_command(
            cmds[j],
            fnames[j],
        )) is Ok by {
            assert(cmds.drop_last()[j] == cmds[j]);
            assert(fnames.drop_last()[j] == fnames[j]);
        }
    }
}

/// A normalized line without quotes, backslashes or `#` splits at its
/// delimiters.
pub open spec fn split_is_simple_where_simple(cmd: Seq<char>) -> bool {
    is_simple_command_line(normalized(cmd)) ==> split_words(cmd) == Some(
        simple_words(normalized(cmd)),
    )
}

/// The command line a refusal is about.
pub open spec fn command_error_line(e: CommandErrorView) -> Seq<char> {
    match e {
        CommandErrorView::ParseFailed { command, detail: _ } => command,
        CommandErrorView::Empty { command } => command,
        CommandErrorView::Blocked { command, reason: _ } => command,
    }
}

/// A line is accepted only when it passes the whole blacklist, whatever its
/// number of words: it has words, its executable's file name is no
/// executable entry of the table, and none of its arguments is refused.
pub proof fn law_accepted_line_passes_blacklist(cmd: Seq<char>, fname: Seq<char>)
    requires
        checked_command(cmd, fname) is Ok,
    ensures
        split_words(cmd) == Some(checked_command(cmd, fname)->Ok_0),
        checked_command(cmd, fname)->Ok_0.len() > 0,
        blacklist_reason(checked_command(cmd, fname)->Ok_0, fname) is None,
        forall|j: int|
            0 <= j < command_blacklist().len() && !is_flag_entry(command_blacklist()[j]) ==> fname
                != lower(#[trigger] command_blacklist()[j]),
        forall|k: int|
            1 <= k < checked_command(cmd, fname)->Ok_0.len() ==> (#[trigger] arg_reason(
                checked_command(cmd, fname)->Ok_0[k],
            )) is None,
{
    law_accepted_command_is_clean(checked_command(cmd, fname)->Ok_0, fname);
}

/// Splits each command line of `cmd_strings` into words and checks it
/// against the blacklist, in order. Returns the words of every line, or the
/// refusal of the first line that has an unmatched quote, has no words, or
/// is blacklisted.
///
/// The file name of each executable depends on the platform's path syntax,
/// so the result is stated for some admissible file name of each line.
pub fn check_command(cmd_strings: &[String]) -> (r: Result<Vec<Vec<String>>, CommandError>)
    ensures
        exists|fnames: Seq<Seq<char>>|
            #![trigger checked_commands(cmd_strings.deep_view(), fnames)]
            fnames.len() == cmd_strings.len() && (forall|i: int|
                0 <= i < cmd_strings.len() ==> exe_name_outcome(
                    cmd_strings@[i]@,
                    #[trigger] fnames[i],
                )) && check_result_view(r) == checked_commands(cmd_strings.deep_view(), fnames),
        // a line without quotes, backslashes or `#` (once normalized) is split
        // at its delimiters: stated for every line when all are accepted, and
        // for the refused line and those before it otherwise
        r is Ok ==> forall|i: int|
            0 <= i < cmd_strings.len() ==> split_is_simple_where_simple(#[trigger] cmd_strings@[i]@),
        r is Err ==> exists|k: int|
            0 <= k < cmd_strings.len() && command_error_line(r->Err_0@) == cmd_strings@[k]@
                && forall|j: int|
                0 <= j <= k ==> split_is_simple_where_simple(#[trigger] cmd_strings@[j]@),
        // every accepted line has words, and none of its arguments is refused
        r matches Ok(parsed) ==> parsed.len() == cmd_strings.len() && forall|i: int|
            0 <= i < parsed.len() ==> {
                &&& split_words(cmd_strings@[i]@) == Some(#[trigger] parsed@[i].deep_view())
                &&& parsed@[i].len() > 0
                &&& args_reason(parsed@[i].deep_view().drop_first()) is None
            },
        // every accepted line passes the whole blacklist, whatever its number of
        // words: where its executable's file name is platform-independent, it
        // is no executable entry of the table
        r matches Ok(parsed) ==> forall|i: int, j: int|
            0 <= i < parsed.len() && 0 <= j < command_blacklist().len() && has_plain_file_name(
                lower(parsed@[i]@[0]@),
            ) && !is_flag_entry(command_blacklist()[j]) ==> file_name_segment(
                lower(#[trigger] parsed@[i]@[0]@),
            ) != lower(#[trigger] command_blacklist()[j]),
{
    let ghost cv = cmd_strings.deep_view();
    let n = cmd_strings.len();
    let mut parsed: Vec<Vec<String>> = Vec::new();
    let ghost mut fnames: Seq<Seq<char>> = Seq::empty();
    let mut i: usize = 0;
    assert(cv.take(0) =~= Seq::<Seq<char>>::empty());
    assert(parsed.deep_view() =~= Seq::<Seq<Seq<char>>>::empty());
    while i < n
        invariant
            n == cmd_strings.len(),
            cv == cmd_strings.deep_view(),
            cv.len() == n,
            i <= n,
            fnames.len() == i,
            forall|j: int| 0 <= j < i ==> exe_name_outcome(cv[j], #[trigger] fnames[j]),
            forall|j: int| 0 <= j < i ==> split_is_simple_where_simple(#[trigger] cmd_strings@[j]@),
            checked_commands(cv.take(i as int), fnames) == Ok::<
                Seq<Seq<Seq<char>>>,
                CommandErrorView,
            >(parsed.deep_view()),
        decreases n - i,
    {
        let ghost cmd = cv[i as int];
        assert(cmd == cmd_strings@[i as int]@);
        assert(cv.take(i + 1).drop_last() =~= cv.take(i as int));
        assert(cv.take(i + 1).last() == cmd);
        let normal = normalize_command(cmd_strings[i].as_str());
        let split = split_shell_words(normal.as_str());
        assert(split_is_simple_where_simple(cmd));
        assert(forall|j: int|
            0 <= j <= i ==> split_is_simple_where_simple(#[trigger] cmd_strings@[j]@));
        let words = match split {
            Ok(w) => w,
            Err(detail) => {
                let e = CommandError::ParseFailed { command: cmd_strings[i].clone(), detail };
                proof {
                    lemma_refusal_at(cv, fnames, i as int, Seq::empty(), e@);
                    assert(command_error_line(e@) == cmd_strings@[i as int]@);
                }
                return Err(e);
            },
        };
        let ghost wv = words.deep_view();
        if words.len() == 0 {
            let e = CommandError::Empty { command: cmd_strings[i].clone() };
            proof {
                lemma_refusal_at(cv, fnames, i as int, Seq::empty(), e@);
            }
            return Err(e);
        }
        let ws = words.as_slice();
        let verdict = check_blacklist(ws);
        assert(ws.deep_view() =~= wv);
        assert(wv[0] == words@[0]@);
        let ghost f = choose|f: Seq<char>|
            file_name_outcome(lower(words@[0]@), f) && verdict.deep_view() == blacklist_reason(
                wv,
                f,
            );
        match verdict {
            Some(reason) => {
                let e = CommandError::Blocked { command: cmd_strings[i].clone(), reason };
                proof {
                    lemma_refusal_at(cv, fnames, i as int, f, e@);
                    assert(command_error_line(e@) == cmd_strings@[i as int]@);
                }
                return Err(e);
            },
            None => {},
        }
        let ghost before = parsed.deep_view();
        let ghost old_fnames = fnames;
        assert(normal@ == normalized(cmd));
        assert(split_words(cmd) == Some(wv));
        assert(blacklist_reason(wv, f) is None);
        assert(checked_command(cmd, f) == Ok::<Seq<Seq<char>>, CommandErrorView>(wv));
        assert(exe_name_outcome(cmd, f));
        parsed.push(words);
        proof {
            fnames = fnames.push(f);
            assert(fnames.drop_last() =~= old_fnames);
            assert(fnames.last() == f);
            assert(parsed.deep_view() =~= before.push(wv));
        }
        i = i + 1;
    }
    assert(cv.take(n as int) =~= cv);
    proof {
        law_accepted_lines_are_each_accepted(cv, fnames);
        assert forall|j: int| 0 <= j < parsed.len() implies {
            &&& split_words(cmd_strings@[j]@) == Some(#[trigger] parsed@[j].deep_view())
            &&& parsed@[j].len() > 0
            &&& args_reason(parsed@[j].deep_view().drop_first()) is None
        } by {
            assert(cv[j] == cmd_strings@[j]@);
            assert(parsed.deep_view()[j] == parsed@[j].deep_view());
        }
        assert forall|i: int, j: int|
            0 <= i < parsed.len() && 0 <= j < command_blacklist().len() && has_plain_file_name(
                lower(parsed@[i]@[0]@),
            ) && !is_flag_entry(command_blacklist()[j]) implies file_name_segment(
                lower(#[trigger] parsed@[i]@[0]@),
            ) != lower(#[trigger] command_blacklist()[j]) by {
            let words = parsed.deep_view()[i];
            assert(words == parsed@[i].deep_view());
            assert(words[0] == parsed@[i]@[0]@);
            assert(checked_command(cv[i], fnames[i]) == Ok::<Seq<Seq<char>>, CommandErrorView>(
                words,
            ));
            law_accepted_line_passes_blacklist(cv[i], fnames[i]);
            assert(exe_name_outcome(cv[i], fnames[i]));
        }
    }
    Ok(parsed)
}

/// When line `i` is refused with `e` (given file name `f`) after the lines
/// before it were accepted, the whole list is refused with `e`.
proof fn lemma_refusal_at(
    cv: Seq<Seq<char>>,
    fnames: Seq<Seq<char>>,
    i: int,
    f: Seq<char>,
    e: CommandErrorView,
)
    requires
        0 <= i < cv.len(),
        fnames.len() == i,
        forall|j: int| 0 <= j < i ==> exe_name_outcome(cv[j], #[trigger] fnames[j]),
        checked_commands(cv.take(i), fnames) is Ok,
        exe_name_outcome(cv[i], f),
        checked_command(cv[i], f) == Err::<Seq<Seq<char>>, CommandErrorView>(e),
    ensures
        exists|full: Seq<Seq<char>>|
            #![trigger checked_commands(cv, full)]
            full.len() == cv.len() && (forall|j: int|
                0 <= j < cv.len() ==> exe_name_outcome(cv[j], #[trigger] full[j]))
                && checked_commands(cv, full) == Err::<Seq<Seq<Seq<char>>>, CommandErrorView>(e),
{
    let rest = Seq::new(
        (cv.len() - i - 1) as nat,
        |j: int|
            match split_words(cv[i + 1 + j]) {
                Some(words) => if words.len() > 0 {
                    some_file_name(lower(words[0]))
                } else {
                    Seq::empty()
                },
                None => Seq::empty(),
            },
    );
    let full = fnames.push(f) + rest;
    assert(full.take(i + 1) =~= fnames.push(f));
    assert(full.take(i + 1).drop_last() =~= fnames);
    assert(cv.take(i + 1).drop_last() =~= cv.take(i));
    assert(cv.take(i + 1).last() == cv[i]);
    assert(checked_commands(cv.take(i + 1), full.take(i + 1)) is Err);
    lemma_checked_prefix_error(cv, full, i + 1);
    assert forall|j: int| 0 <= j < cv.len() implies exe_name_outcome(cv[j], #[trigger] full[j]) by {
        if j < i {
            assert(full[j] == fnames[j]);
        } else if j == i {
            assert(full[j] == f);
        } else {
            assert(full[j] == rest[j - i - 1]);
            if let Some(words) = split_words(cv[j]) {
                if words.len() > 0 {
                    lemma_some_file_name_admissible(lower(words[0]));
                }
            }
        }
    }
    assert(checked_commands(cv, full) == Err::<Seq<Seq<Seq<char>>>, CommandErrorView>(e));
}

// ---------------------------------------------------------------------------
// Report on started commands
// ---------------------------------------------------------------------------

/// How starting one command went.
#[derive(Debug)]
pub struct CommandOutcome {
    /// The command's words joined with spaces.
    pub command: String,
    /// Whether the process was started.
    pub success: bool,
    /// Why it was not started.
    pub error: Option<String>,
}

/// How starting a list of commands went.
#[derive(Debug)]
pub struct ExecutionReport {
    /// One outcome per command, in order.
    pub results: Vec<CommandOutcome>,
    /// Whether every command was started.
    pub success: bool,
}

impl ExecutionReport {
    /// The HTTP status of the answer: 200 when every command was started,
    /// 206 (partial content) otherwise.
    pub fn status_code(&self) -> (r: u16)
        ensures
            r == (if self.success {
                200u16
            } else {
                206u16
            }),
    {
        if self.success {
            200
        } else {
            206
        }
    }

    /// Whether some command could not be started.
    pub fn is_partial(&self) -> (r: bool)
        ensures
            r == !self.success,
    {
        !self.success
    }
}

/// The report on starting `commands`, where `spawn_errors[i]` is the error
/// that starting `commands[i]` gave, if any: each command is reported with
/// its words joined by spaces, and the whole succeeds exactly when every
/// command was started.
pub fn execution_report(commands: &[Vec<String>], spawn_errors: &[Option<String>]) -> (r:
    ExecutionReport)
    requires
        commands.len() == spawn_errors.len(),
    ensures
        r.results.len() == commands.len(),
        forall|i: int|
            0 <= i < commands.len() ==> {
                let o = #[trigger] r.results@[i];
                &&& o.command@ == join_seqs(commands@[i].deep_view(), " "@)
                &&& o.success == (spawn_errors@[i] is None)
                &&& o.error.deep_view() == spawn_errors@[i].deep_view()
            },
        r.success == (forall|i: int| 0 <= i < commands.len() ==> (#[trigger] spawn_errors@[i]) is None),
{
    let n = commands.len();
    let mut results: Vec<CommandOutcome> = Vec::new();
    let mut success = true;
    let mut i: usize = 0;
    while i < n
        invariant
            n == commands.len(),
            n == spawn_errors.len(),
            i <= n,
            results.len() == i,
            forall|j: int|
                0 <= j < i ==> {
                    let o = #[trigger] results@[j];
                    &&& o.command@ == join_seqs(commands@[j].deep_view(), " "@)
                    &&& o.success == (spawn_errors@[j] is None)
                    &&& o.error.deep_view() == spawn_errors@[j].deep_view()
                },
            success == (forall|j: int| 0 <= j < i ==> (#[trigger] spawn_errors@[j]) is None),
        decreases n - i,
    {
        let parts = commands[i].as_slice();
        let command = join_strings(parts, " ");
        let outcome = match &spawn_errors[i] {
            None => CommandOutcome { command, success: true, error: None },
            Some(e) => {
                success = false;
                CommandOutcome { command, success: false, error: Some(e.clone()) }
            },
        };
        results.push(outcome);
        i = i + 1;
    }
    ExecutionReport { results, success }
}

} // verus!
