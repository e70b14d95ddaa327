//! Focusing a running TUI that shows a session: the Kitty command a TUI
//! runs for it, the private rendezvous each TUI keeps, and the search that
//! asks each TUI in turn.

use crate::agents::model::{is_hyphenated_uuid, new_request_id};
use crate::agents::table::{
    get_slot, keys_view, lemma_slot_has, lemma_slot_pos, slot_get, slot_has, slots_view, Slot,
};
use crate::agents::thread::{parent_id, spec_parent_id, Thread};
use crate::rollout::usage::{all_ascii_digits, bounded_digits, digits_value, parse_uuid, uuid_text};
use crate::text::{
    chars_of, concat2, decimal, decimal_string, sort_string_vec, sort_strings, str_is,
    string_from_chars, strings_view, trim, trim_chars,
};
use vstd::prelude::*;

verus! {

/// `str::parse::<u64>`: an optional `+` and at least one ASCII digit, with a
/// value in range.
pub open spec fn spec_parse_u64(s: Seq<char>) -> Option<u64> {
    let body = if s.len() > 0 && s[0] == '+' {
        s.drop_first()
    } else {
        s
    };
    if all_ascii_digits(body) && digits_value(body) <= u64::MAX {
        Some(digits_value(body) as u64)
    } else {
        None
    }
}

/// Parses a decimal `u64` as `str::parse::<u64>` does: an optional `+`, then
/// ASCII digits only, with a value in range.
fn parse_u64(text: &str) -> (res: Option<u64>)
    ensures
        res == spec_parse_u64(text@),
{
    let cs = chars_of(text);
    let start: usize = if cs.len() > 0 && cs[0] == '+' {
        1
    } else {
        0
    };
    proof {
        if start == 1 {
            assert(cs@.subrange(1, cs@.len() as int) =~= text@.drop_first());
        } else {
            assert(cs@.subrange(0, cs@.len() as int) =~= text@);
        }
    }
    bounded_digits(&cs, start, u64::MAX)
}

/// The command a TUI runs to have Kitty focus its own window.
#[derive(Clone, Debug, PartialEq, Eq)]
pub struct KittyCommand {
    pub program: String,
    pub args: Vec<String>,
}

/// The arguments that focus Kitty window `window_id`, with no password.
pub open spec fn kitty_args(window_id: u64) -> Seq<Seq<char>> {
    seq![
        "@"@,
        "--use-password"@,
        "never"@,
        "focus-window"@,
        "--match"@,
        "id:"@ + decimal(window_id as nat),
    ]
}

/// The Kitty window a TUI can focus, from its environment: none inside tmux
/// or screen, whose inner pane cannot be selected; else the positive window
/// id Kitty gave it.
pub open spec fn spec_kitty_window(in_tmux: bool, in_screen: bool, window_id: Option<Seq<char>>) -> Result<
    u64,
    Seq<char>,
> {
    if in_tmux || in_screen {
        Err(
            "Focusing a TUI inside tmux or screen is unavailable; its inner pane cannot be selected"@,
        )
    } else {
        match window_id {
            None => Err(
                "This TUI has no Kitty window ID; focusing requires a TUI running in Kitty"@,
            ),
            Some(raw) => match spec_parse_u64(raw) {
                Some(id) => if id > 0 {
                    Ok(id)
                } else {
                    Err("This TUI has an invalid KITTY_WINDOW_ID"@)
                },
                None => Err("This TUI has an invalid KITTY_WINDOW_ID"@),
            },
        }
    }
}

/// The `kitten` command that focuses this TUI's Kitty window. `in_tmux` and
/// `in_screen` say whether `TMUX` and `STY` are set; `window_id` is
/// `KITTY_WINDOW_ID` when set and valid text.
pub fn kitty_command(in_tmux: bool, in_screen: bool, window_id: Option<&str>) -> (res: Result<
    KittyCommand,
    String,
>)
    ensures
        match spec_kitty_window(
            in_tmux,
            in_screen,
            match window_id {
                Some(w) => Some(w@),
                None => None,
            },
        ) {
            Ok(id) => res matches Ok(c) && c.program@ == "kitten"@ && keys_view(c.args@)
                == kitty_args(id),
            Err(m) => res matches Err(e) && e@ == m,
        },
{
    if in_tmux || in_screen {
        return Err(
            String::from_str(
                "Focusing a TUI inside tmux or screen is unavailable; its inner pane cannot be selected",
            ),
        );
    }
    let raw = match window_id {
        Some(raw) => raw,
        None => {
            return Err(
                String::from_str(
                    "This TUI has no Kitty window ID; focusing requires a TUI running in Kitty",
                ),
            );
        },
    };
    let id = match parse_u64(raw) {
        Some(id) => id,
        None => {
            return Err(String::from_str("This TUI has an invalid KITTY_WINDOW_ID"));
        },
    };
    if id == 0 {
        return Err(String::from_str("This TUI has an invalid KITTY_WINDOW_ID"));
    }
    let digits = decimal_string(id);
    let target = concat2("id:", digits.as_str());
    let mut args: Vec<String> = Vec::new();
    args.push(String::from_str("@"));
    args.push(String::from_str("--use-password"));
    args.push(String::from_str("never"));
    args.push(String::from_str("focus-window"));
    args.push(String::from_str("--match"));
    args.push(target);
    assert(keys_view(args@) =~= kitty_args(id));
    Ok(KittyCommand { program: String::from_str("kitten"), args })
}

/// An error as the user sees it, and what caused it, if anything.
#[derive(Clone, Debug, PartialEq, Eq)]
pub struct ErrorText {
    pub message: String,
    pub cause: Option<String>,
}

impl ErrorText {
    /// The message followed by its cause, as an error chain is written out.
    pub open spec fn spec_chain(self) -> Seq<char> {
        match self.cause {
            Some(c) => self.message@ + ": "@ + c@,
            None => self.message@,
        }
    }

    pub fn chain(&self) -> (res: String)
        ensures
            res@ == self.spec_chain(),
    {
        match &self.cause {
            Some(c) => {
                let mut s = concat2(self.message.as_str(), ": ");
                s.append(c.as_str());
                s
            },
            None => self.message.clone(),
        }
    }
}

/// How running the focus command went.
#[derive(Clone, Debug, PartialEq, Eq)]
pub enum KittyRun {
    /// It did not answer in time.
    TimedOut { cause: String },
    /// It could not be started.
    NotStarted { cause: String },
    /// It ran to the end, with this exit status and output (as text).
    Exited { success: bool, status: String, stderr: String, stdout: String },
}

/// The outcome of the focus command: it succeeded only if Kitty acknowledged.
pub open spec fn spec_kitty_result(run: KittyRun) -> Result<(), (Seq<char>, Option<Seq<char>>)> {
    match run {
        KittyRun::TimedOut { cause } => Err(
            ("Kitty focus timed out; check that remote control is enabled"@, Some(cause@)),
        ),
        KittyRun::NotStarted { cause } => Err(("Could not run kitten for this TUI"@, Some(cause@))),
        KittyRun::Exited { success, status, stderr, stdout } => if success {
            Ok(())
        } else {
            Err(
                (
                    "Kitty focus failed ("@ + status@ + "): "@ + trim(stderr@) + trim(stdout@),
                    None,
                ),
            )
        },
    }
}

pub fn kitty_result(run: &KittyRun) -> (res: Result<(), ErrorText>)
    ensures
        match spec_kitty_result(*run) {
            Ok(()) => res is Ok,
            Err((m, c)) => res matches Err(e) && e.message@ == m && match e.cause {
                Some(x) => c == Some(x@),
                None => c is None,
            },
        },
{
    match run {
        KittyRun::TimedOut { cause } => Err(
            ErrorText {
                message: String::from_str(
                    "Kitty focus timed out; check that remote control is enabled",
                ),
                cause: Some(cause.clone()),
            },
        ),
        KittyRun::NotStarted { cause } => Err(
            ErrorText {
                message: String::from_str("Could not run kitten for this TUI"),
                cause: Some(cause.clone()),
            },
        ),
        KittyRun::Exited { success, status, stderr, stdout } => {
            if *success {
                return Ok(());
            }
            let err = string_from_chars(trim_chars(&chars_of(stderr.as_str())).as_slice());
            let out = string_from_chars(trim_chars(&chars_of(stdout.as_str())).as_slice());
            let mut message = concat2("Kitty focus failed (", status.as_str());
            message.append("): ");
            message.append(err.as_str());
            message.append(out.as_str());
            Err(ErrorText { message, cause: None })
        },
    }
}

/// What a focus request asks of a TUI.
#[derive(Clone, Copy, Debug, PartialEq, Eq, Structural)]
pub enum Action {
    /// Whether it shows the session.
    Probe,
    /// To focus its window.
    Focus,
}

/// A TUI's answer to a focus request.
#[derive(Clone, Debug, PartialEq, Eq)]
pub enum Reply {
    NoMatch,
    Ready,
    Focused,
    Unavailable(String),
}

/// What a TUI does with a focus request.
#[derive(Clone, Debug, PartialEq, Eq)]
pub enum FocusDecision {
    Answer(Reply),
    /// Run the command, and answer with how it went.
    Run(KittyCommand),
}

/// A TUI not showing the session answers no match; one that cannot focus
/// says why; else a probe is answered ready and a focus runs the command.
pub fn focus_decision(shows_session: bool, command: Result<KittyCommand, String>, action: Action) -> (res:
    FocusDecision)
    ensures
        !shows_session ==> res matches FocusDecision::Answer(Reply::NoMatch),
        shows_session ==> match command {
            Err(e) => res matches FocusDecision::Answer(Reply::Unavailable(m)) && m@ == e@,
            Ok(c) => match action {
                Action::Probe => res matches FocusDecision::Answer(Reply::Ready),
                Action::Focus => res matches FocusDecision::Run(r) && r == c,
            },
        },
{
    if !shows_session {
        return FocusDecision::Answer(Reply::NoMatch);
    }
    match command {
        Err(e) => FocusDecision::Answer(Reply::Unavailable(e)),
        Ok(c) => match action {
            Action::Probe => FocusDecision::Answer(Reply::Ready),
            Action::Focus => FocusDecision::Run(c),
        },
    }
}

/// The answer once the focus command ran: focused, or why not.
pub fn reply_after_focus(result: Result<(), ErrorText>) -> (res: Reply)
    ensures
        match result {
            Ok(()) => res == Reply::Focused,
            Err(e) => res matches Reply::Unavailable(m) && m@ == e.spec_chain(),
        },
{
    match result {
        Ok(()) => Reply::Focused,
        Err(e) => Reply::Unavailable(e.chain()),
    }
}

/// The directory where TUIs of user `euid` meet: short and the same for
/// every launcher and TUI of the user.
pub fn registry_directory(euid: u32) -> (res: String)
    ensures
        res@ == "/tmp/codex-tui-"@ + decimal(euid as nat),
{
    let digits = decimal_string(euid as u64);
    concat2("/tmp/codex-tui-", digits.as_str())
}

/// The rendezvous directory is a directory owned by this user that no one
/// else may use.
pub open spec fn is_private_directory(is_dir: bool, owner: u32, euid: u32, mode: u32) -> bool {
    is_dir && owner == euid && mode & 0o077u32 == 0
}

pub fn check_directory(is_dir: bool, owner: u32, euid: u32, mode: u32, display: &str) -> (res: Result<
    (),
    String,
>)
    ensures
        is_private_directory(is_dir, owner, euid, mode) ==> res is Ok,
        !is_private_directory(is_dir, owner, euid, mode) ==> (res matches Err(e) && e@
            == "TUI focus directory must be a private directory owned by this user: "@ + display@),
{
    if is_dir && owner == euid && mode & 0o077u32 == 0 {
        Ok(())
    } else {
        Err(
            concat2(
                "TUI focus directory must be a private directory owned by this user: ",
                display,
            ),
        )
    }
}

/// `s` padded with leading zeros to `width` characters.
pub open spec fn zero_padded(s: Seq<char>, width: nat) -> Seq<char> {
    if s.len() < width {
        Seq::new((width - s.len()) as nat, |i: int| '0') + s
    } else {
        s
    }
}

/// The socket name of a TUI: its process id padded to ten digits, so that
/// names sort by process, then a UUID, then `.sock`.
pub open spec fn spec_socket_file_name(pid: u32, uuid: Seq<char>) -> Seq<char> {
    zero_padded(decimal(pid as nat), 10) + "-"@ + uuid + ".sock"@
}

pub fn socket_file_name(pid: u32, uuid: &str) -> (res: String)
    ensures
        res@ == spec_socket_file_name(pid, uuid@),
{
    let digits = decimal_string(pid as u64);
    let mut name = String::new();
    let n = digits.as_str().unicode_len();
    let mut k: usize = n;
    assert(name@ =~= Seq::new((k - n) as nat, |i: int| '0'));
    while k < 10
        invariant
            n == digits@.len(),
            n <= k,
            k <= 10 || k == n,
            name@ == Seq::new((k - n) as nat, |i: int| '0'),
        decreases 10 - k,
    {
        let ghost before = name@;
        name.append("0");
        proof {
            reveal_strlit("0");
        }
        assert(name@ =~= Seq::new((k + 1 - n) as nat, |i: int| '0'));
        k += 1;
    }
    name.append(digits.as_str());
    name.append("-");
    name.append(uuid);
    name.append(".sock");
    assert(name@ =~= spec_socket_file_name(pid, uuid@));
    name
}

/// A new socket name for the TUI of process `pid`, with a fresh random UUID.
pub fn new_socket_file_name(pid: u32) -> (res: String)
    ensures
        exists|u: Seq<char>| is_hyphenated_uuid(u) && res@ == spec_socket_file_name(pid, u),
{
    let uuid = new_request_id();
    socket_file_name(pid, uuid.as_str())
}

/// The position of the last `c` in `s`, or -1.
pub open spec fn last_index_of(s: Seq<char>, c: char) -> int
    decreases s.len(),
{
    if s.len() == 0 {
        -1
    } else if s.last() == c {
        s.len() - 1
    } else {
        last_index_of(s.drop_last(), c)
    }
}

/// `Path::extension` of a file name: what follows the last `.`, unless there
/// is none or the only one starts the name.
pub open spec fn file_extension(name: Seq<char>) -> Option<Seq<char>> {
    let p = last_index_of(name, '.');
    if p <= 0 {
        None
    } else {
        Some(name.subrange(p + 1, name.len() as int))
    }
}

proof fn lemma_last_index_of(s: Seq<char>, c: char)
    ensures
        -1 <= last_index_of(s, c) < s.len(),
        last_index_of(s, c) >= 0 ==> s[last_index_of(s, c)] == c,
        forall|j: int| last_index_of(s, c) < j < s.len() ==> s[j] != c,
    decreases s.len(),
{
    if s.len() > 0 && s.last() != c {
        lemma_last_index_of(s.drop_last(), c);
        assert forall|j: int| last_index_of(s, c) < j < s.len() implies s[j] != c by {
            if j < s.len() - 1 {
                assert(s[j] == s.drop_last()[j]);
            }
        }
    }
}

/// Whether a file name has the extension `sock`.
pub fn has_sock_extension(name: &str) -> (res: bool)
    ensures
        res == (file_extension(name@) == Some("sock"@)),
{
    let chars = chars_of(name);
    let n = chars.len();
    let mut i: usize = n;
    assert(name@.take(n as int) =~= name@);
    while i > 0 && chars[i - 1] != '.'
        invariant
            chars@ == name@,
            n == chars@.len(),
            i <= n,
            last_index_of(name@, '.') == last_index_of(name@.take(i as int), '.'),
        decreases i,
    {
        proof {
            assert(name@.take(i as int).drop_last() =~= name@.take(i - 1));
        }
        i -= 1;
    }
    proof {
        reveal_strlit("sock");
        if i > 0 {
            assert(name@.take(i as int).last() == '.');
        } else {
            assert(name@.take(0) =~= Seq::<char>::empty());
        }
    }
    if i <= 1 {
        return false;
    }
    let p = i - 1;
    let ghost ext = name@.subrange(p + 1, n as int);
    if n - p - 1 != 4 {
        assert(ext.len() != 4);
        return false;
    }
    let matched = chars[p + 1] == 's' && chars[p + 2] == 'o' && chars[p + 3] == 'c' && chars[p + 4] == 'k';
    proof {
        let sock = "sock"@;
        assert(sock =~= seq!['s', 'o', 'c', 'k']);
        assert(forall|k: int| 0 <= k < 4 ==> ext[k] == chars@[p + 1 + k]);
        if matched {
            assert(ext =~= sock);
        } else if ext == sock {
            assert(ext[0] == 's' && ext[1] == 'o' && ext[2] == 'c' && ext[3] == 'k');
        }
    }
    matched
}

/// A file in the rendezvous directory.
#[derive(Clone, Debug, PartialEq, Eq)]
pub struct DirectoryEntry {
    pub name: String,
    pub is_socket: bool,
}

/// The names of the sockets among `entries`.
pub open spec fn socket_names(entries: Seq<DirectoryEntry>) -> Seq<Seq<char>>
    decreases entries.len(),
{
    if entries.len() == 0 {
        Seq::empty()
    } else {
        let rest = socket_names(entries.drop_last());
        let e = entries.last();
        if e.is_socket && file_extension(e.name@) == Some("sock"@) {
            rest.push(e.name@)
        } else {
            rest
        }
    }
}

/// The TUI sockets to ask, in name order: the zero-padded process ids give a
/// fixed order among live TUIs.
pub fn focus_sockets(entries: &Vec<DirectoryEntry>) -> (res: Vec<String>)
    ensures
        strings_view(res@) == sort_strings(socket_names(entries@)),
{
    let mut names: Vec<String> = Vec::new();
    let n = entries.len();
    let mut i: usize = 0;
    while i < n
        invariant
            n == entries@.len(),
            i <= n,
            strings_view(names@) == socket_names(entries@.take(i as int)),
        decreases n - i,
    {
        proof {
            assert(entries@.take(i + 1).drop_last() =~= entries@.take(i as int));
        }
        if entries[i].is_socket && has_sock_extension(entries[i].name.as_str()) {
            let ghost before = strings_view(names@);
            names.push(entries[i].name.clone());
            assert(strings_view(names@) =~= before.push(entries@[i as int].name@));
        }
        i += 1;
    }
    assert(entries@.take(n as int) =~= entries@);
    sort_string_vec(names)
}

/// The largest focus message a TUI reads, in bytes.
pub const MAX_MESSAGE_BYTES: u64 = 8192;

/// A focus message read up to its size limit is whole only if it ends in a newline.
pub fn check_message(bytes: &Vec<u8>) -> (res: Result<(), String>)
    ensures
        (bytes@.len() > 0 && bytes@.last() == 10u8) ==> res is Ok,
        !(bytes@.len() > 0 && bytes@.last() == 10u8) ==> (res matches Err(e) && e@
            == "Incomplete or oversized TUI focus message"@),
{
    if bytes.len() > 0 && bytes[bytes.len() - 1] == 10u8 {
        Ok(())
    } else {
        Err(String::from_str("Incomplete or oversized TUI focus message"))
    }
}


/// How a request to one TUI went.
#[derive(Clone, Debug, PartialEq, Eq)]
pub enum RequestOutcome {
    Replied(Reply),
    /// The socket refused the connection or is gone: its TUI has exited.
    Gone,
    /// Any other failure, written out with its causes.
    Failed(String),
}

/// The search over the TUI sockets for one that shows the session.
#[derive(Clone, Debug, PartialEq, Eq)]
pub struct FocusSearch {
    /// What the next request asks.
    pub action: Action,
    /// The first reason given for not being able to help.
    pub unavailable: Option<String>,
}

pub struct FocusSearchV {
    pub action: Action,
    pub unavailable: Option<Seq<char>>,
}

impl View for FocusSearch {
    type V = FocusSearchV;

    open spec fn view(&self) -> FocusSearchV {
        FocusSearchV {
            action: self.action,
            unavailable: match self.unavailable {
                Some(u) => Some(u@),
                None => None,
            },
        }
    }
}

/// What the search does after a reply.
#[derive(Debug, PartialEq, Eq)]
pub enum SearchStep {
    /// Ask the same TUI again, now to focus.
    AskAgain,
    /// Go on with the next socket.
    Next,
    /// Stop with this outcome.
    Done(Result<(), String>),
}

pub enum SearchStepV {
    AskAgain,
    Next,
    Done(Result<(), Seq<char>>),
}

pub open spec fn step_view(s: SearchStep) -> SearchStepV {
    match s {
        SearchStep::AskAgain => SearchStepV::AskAgain,
        SearchStep::Next => SearchStepV::Next,
        SearchStep::Done(Ok(())) => SearchStepV::Done(Ok(())),
        SearchStep::Done(Err(e)) => SearchStepV::Done(Err(e@)),
    }
}

pub open spec fn keep_first(current: Option<Seq<char>>, reason: Seq<char>) -> Option<Seq<char>> {
    match current {
        Some(c) => Some(c),
        None => Some(reason),
    }
}

/// One reply from the TUI at `socket`. A probe that finds the session asks
/// that TUI to focus; a TUI that cannot help is remembered and the search
/// goes on. A focus request ends the search unless the TUI no longer shows
/// the session: an ambiguous failure is never retried.
pub open spec fn spec_search_step(s: FocusSearchV, socket: Seq<char>, outcome: RequestOutcome) -> (
    FocusSearchV,
    SearchStepV,
) {
    match s.action {
        Action::Probe => match outcome {
            RequestOutcome::Replied(Reply::Ready) => (
                FocusSearchV { action: Action::Focus, ..s },
                SearchStepV::AskAgain,
            ),
            RequestOutcome::Replied(Reply::NoMatch) => (s, SearchStepV::Next),
            RequestOutcome::Replied(Reply::Unavailable(m)) => (
                FocusSearchV { unavailable: keep_first(s.unavailable, m@), ..s },
                SearchStepV::Next,
            ),
            RequestOutcome::Replied(Reply::Focused) => (
                s,
                SearchStepV::Done(Err("Unexpected TUI focus response"@)),
            ),
            RequestOutcome::Gone => (s, SearchStepV::Next),
            RequestOutcome::Failed(e) => (
                FocusSearchV {
                    unavailable: keep_first(s.unavailable, "TUI "@ + socket + ": "@ + e@),
                    ..s
                },
                SearchStepV::Next,
            ),
        },
        Action::Focus => match outcome {
            RequestOutcome::Replied(Reply::Focused) => (s, SearchStepV::Done(Ok(()))),
            RequestOutcome::Replied(Reply::NoMatch) => (
                FocusSearchV { action: Action::Probe, ..s },
                SearchStepV::Next,
            ),
            RequestOutcome::Replied(Reply::Unavailable(m)) => (
                s,
                SearchStepV::Done(Err("Could not focus TUI: "@ + m@)),
            ),
            RequestOutcome::Replied(Reply::Ready) => (
                s,
                SearchStepV::Done(Err("TUI did not acknowledge focusing the session"@)),
            ),
            _ => (
                s,
                SearchStepV::Done(Err("TUI became unavailable before focus could be confirmed"@)),
            ),
        },
    }
}

/// A TUI is asked to focus only right after its probe found the session,
/// and never twice in a row: after a focus request the search ends, or, when
/// that TUI no longer shows the session, goes back to probing the next one.
pub proof fn lemma_focus_never_retried(s: FocusSearchV, socket: Seq<char>, outcome: RequestOutcome)
    ensures
        spec_search_step(s, socket, outcome).1 is AskAgain ==> s.action == Action::Probe && outcome
            == RequestOutcome::Replied(Reply::Ready),
        spec_search_step(s, socket, outcome).1 is AskAgain ==> spec_search_step(s, socket, outcome).0.action
            == Action::Focus,
        s.action == Action::Focus ==> !(spec_search_step(s, socket, outcome).1 is AskAgain),
        s.action == Action::Focus && spec_search_step(s, socket, outcome).1 is Next ==> spec_search_step(
            s,
            socket,
            outcome,
        ).0.action == Action::Probe,
{
}

/// What the search says when no TUI shows the session.
pub open spec fn spec_no_match(session_id: Seq<char>) -> Seq<char> {
    "No running local TUI is attached to session "@ + session_id
        + " on the selected server (TUIs must support --focus)"@
}

pub fn no_match_message(session_id: &str) -> (res: String)
    ensures
        res@ == spec_no_match(session_id@),
{
    let mut s = concat2("No running local TUI is attached to session ", session_id);
    s.append(" on the selected server (TUIs must support --focus)");
    s
}

/// The end of the search once every socket was asked.
pub open spec fn spec_search_end(s: FocusSearchV, session_id: Seq<char>) -> Seq<char> {
    match s.unavailable {
        Some(m) => "TUI focus unavailable: "@ + m,
        None => spec_no_match(session_id),
    }
}

impl FocusSearch {
    pub fn new() -> (res: FocusSearch)
        ensures
            res@ == (FocusSearchV { action: Action::Probe, unavailable: None }),
    {
        FocusSearch { action: Action::Probe, unavailable: None }
    }

    /// Takes the outcome of the request just made to the TUI at `socket`.
    pub fn step(&mut self, socket: &str, outcome: RequestOutcome) -> (res: SearchStep)
        ensures
            (final(self)@, step_view(res)) == spec_search_step(old(self)@, socket@, outcome),
    {
        match self.action {
            Action::Probe => match outcome {
                RequestOutcome::Replied(Reply::Ready) => {
                    self.action = Action::Focus;
                    SearchStep::AskAgain
                },
                RequestOutcome::Replied(Reply::NoMatch) => SearchStep::Next,
                RequestOutcome::Replied(Reply::Unavailable(m)) => {
                    if self.unavailable.is_none() {
                        self.unavailable = Some(m);
                    }
                    SearchStep::Next
                },
                RequestOutcome::Replied(Reply::Focused) => SearchStep::Done(
                    Err(String::from_str("Unexpected TUI focus response")),
                ),
                RequestOutcome::Gone => SearchStep::Next,
                RequestOutcome::Failed(e) => {
                    if self.unavailable.is_none() {
                        let mut m = concat2("TUI ", socket);
                        m.append(": ");
                        m.append(e.as_str());
                        self.unavailable = Some(m);
                    }
                    SearchStep::Next
                },
            },
            Action::Focus => match outcome {
                RequestOutcome::Replied(Reply::Focused) => SearchStep::Done(Ok(())),
                RequestOutcome::Replied(Reply::NoMatch) => {
                    self.action = Action::Probe;
                    SearchStep::Next
                },
                RequestOutcome::Replied(Reply::Unavailable(m)) => SearchStep::Done(
                    Err(concat2("Could not focus TUI: ", m.as_str())),
                ),
                RequestOutcome::Replied(Reply::Ready) => SearchStep::Done(
                    Err(String::from_str("TUI did not acknowledge focusing the session")),
                ),
                _ => SearchStep::Done(
                    Err(String::from_str("TUI became unavailable before focus could be confirmed")),
                ),
            },
        }
    }

    /// The error once every socket was asked without success.
    pub fn end(&self, session_id: &str) -> (res: String)
        ensures
            res@ == spec_search_end(self@, session_id@),
    {
        match &self.unavailable {
            Some(m) => concat2("TUI focus unavailable: ", m.as_str()),
            None => no_match_message(session_id),
        }
    }
}

/// The server a TUI or a focus request is attached to.
#[derive(Clone, Debug, PartialEq, Eq)]
pub enum Endpoint {
    Unix(String),
    WebSocket(String),
}

pub open spec fn endpoint_view(e: Endpoint) -> (bool, Seq<char>) {
    match e {
        Endpoint::Unix(p) => (true, p@),
        Endpoint::WebSocket(u) => (false, u@),
    }
}

pub fn same_endpoint(a: &Endpoint, b: &Endpoint) -> (res: bool)
    ensures
        res == (endpoint_view(*a) == endpoint_view(*b)),
{
    match (a, b) {
        (Endpoint::Unix(x), Endpoint::Unix(y)) => str_is(x.as_str(), y.as_str()),
        (Endpoint::WebSocket(x), Endpoint::WebSocket(y)) => str_is(x.as_str(), y.as_str()),
        _ => false,
    }
}

/// The parent of thread `id` in `threads`, when its metadata names one whose
/// id parses.
pub open spec fn parent_in(threads: Seq<(Seq<char>, Option<Thread>)>, id: Seq<char>) -> Option<
    Seq<char>,
> {
    match slot_get(threads, id) {
        Some(Some(t)) => match spec_parent_id(t) {
            Some(p) => uuid_text(p),
            None => None,
        },
        _ => None,
    }
}

/// Whether the ancestry from `cur` reaches `session` before it repeats or
/// ends; `fuel` bounds the steps.
pub open spec fn focus_walk(
    threads: Seq<(Seq<char>, Option<Thread>)>,
    cur: Option<Seq<char>>,
    seen: Seq<Seq<char>>,
    session: Seq<char>,
    fuel: nat,
) -> bool
    decreases fuel,
{
    match cur {
        None => false,
        Some(id) => if seen.contains(id) {
            false
        } else if id == session {
            true
        } else if fuel == 0 {
            false
        } else {
            focus_walk(threads, parent_in(threads, id), seen.push(id), session, (fuel - 1) as nat)
        },
    }
}

/// The walk from `cur` meets an id it would follow further when its fuel is spent.
pub open spec fn focus_walk_exhausts(
    threads: Seq<(Seq<char>, Option<Thread>)>,
    cur: Option<Seq<char>>,
    seen: Seq<Seq<char>>,
    session: Seq<char>,
    fuel: nat,
) -> bool
    decreases fuel,
{
    match cur {
        None => false,
        Some(id) => if seen.contains(id) || id == session {
            false
        } else if fuel == 0 {
            true
        } else {
            focus_walk_exhausts(threads, parent_in(threads, id), seen.push(id), session, (fuel - 1) as nat)
        },
    }
}

/// A walk that follows a parent has only met threads of the table.
proof fn lemma_focus_walk_fuel(
    threads: Seq<(Seq<char>, Option<Thread>)>,
    cur: Option<Seq<char>>,
    seen: Seq<Seq<char>>,
    session: Seq<char>,
    fuel: nat,
)
    requires
        seen.no_duplicates(),
        cur is Some ==> forall|k: int| 0 <= k < seen.len() ==> #[trigger] slot_has(threads, seen[k]),
        seen.len() + fuel == threads.len() + 1,
    ensures
        !focus_walk_exhausts(threads, cur, seen, session, fuel),
    decreases fuel,
{
    if let Some(id) = cur {
        if !seen.contains(id) && id != session {
            let keys = threads.map_values(|e: (Seq<char>, Option<Thread>)| e.0);
            if fuel == 0 {
                seen.unique_seq_to_set();
                keys.lemma_cardinality_of_set();
                vstd::seq_lib::seq_to_set_is_finite(keys);
                assert(seen.to_set().subset_of(keys.to_set())) by {
                    assert forall|x: Seq<char>| seen.to_set().contains(x) implies keys.to_set().contains(x) by {
                        let k = choose|k: int| 0 <= k < seen.len() && seen[k] == x;
                        assert(slot_has(threads, seen[k]));
                        lemma_slot_has(threads, x);
                        let j = choose|j: int| 0 <= j < threads.len() && threads[j].0 == x;
                        assert(keys[j] == x);
                    }
                }
                vstd::set_lib::lemma_len_subset(seen.to_set(), keys.to_set());
                assert(false);
            } else {
                let next = parent_in(threads, id);
                let seen2 = seen.push(id);
                assert(seen2.no_duplicates()) by {
                    assert forall|i: int, j: int|
                        0 <= i < seen2.len() && 0 <= j < seen2.len() && i != j implies seen2[i] != seen2[j] by {
                        if i < seen.len() && j < seen.len() {
                        } else if i < seen.len() {
                            assert(seen.contains(seen[i]));
                        } else {
                            assert(seen.contains(seen[j]));
                        }
                    }
                }
                if next is Some {
                    lemma_slot_has(threads, id);
                    lemma_slot_pos(threads, id, 0);
                    assert forall|k: int| 0 <= k < seen2.len() implies #[trigger] slot_has(threads, seen2[k]) by {
                        if k < seen.len() {
                            assert(slot_has(threads, seen[k]));
                        }
                    }
                }
                lemma_focus_walk_fuel(threads, next, seen2, session, (fuel - 1) as nat);
            }
        }
    }
}

/// More fuel than a walk needs does not change its answer.
proof fn lemma_focus_walk_more_fuel(
    threads: Seq<(Seq<char>, Option<Thread>)>,
    cur: Option<Seq<char>>,
    seen: Seq<Seq<char>>,
    session: Seq<char>,
    fuel: nat,
    extra: nat,
)
    requires
        !focus_walk_exhausts(threads, cur, seen, session, fuel),
    ensures
        focus_walk(threads, cur, seen, session, fuel + extra) == focus_walk(threads, cur, seen, session, fuel),
    decreases fuel,
{
    if let Some(id) = cur {
        if !seen.contains(id) && id != session && fuel > 0 {
            lemma_focus_walk_more_fuel(
                threads,
                parent_in(threads, id),
                seen.push(id),
                session,
                (fuel - 1) as nat,
                extra,
            );
            assert((fuel + extra - 1) as nat == ((fuel - 1) as nat + extra) as nat);
        }
    }
}

/// Looking for a session among a TUI's primary thread and its ancestors
/// never stops for lack of steps: with as many steps as there are known
/// threads, each step meets a known thread not met before, so the answer is
/// the same with any larger bound.
pub proof fn lemma_focus_walk_never_exhausts(
    threads: Seq<(Seq<char>, Option<Thread>)>,
    primary: Seq<char>,
    session: Seq<char>,
    extra: nat,
)
    ensures
        !focus_walk_exhausts(threads, parent_in(threads, primary), seq![primary], session, threads.len() as nat),
        focus_walk(threads, parent_in(threads, primary), seq![primary], session, threads.len() + extra)
            == focus_walk(threads, parent_in(threads, primary), seq![primary], session, threads.len() as nat),
{
    let seen = seq![primary];
    assert(seen.no_duplicates());
    if parent_in(threads, primary) is Some {
        lemma_slot_has(threads, primary);
        lemma_slot_pos(threads, primary, 0);
        assert forall|k: int| 0 <= k < seen.len() implies #[trigger] slot_has(threads, seen[k]) by {
            assert(seen[k] == primary);
        }
    }
    lemma_focus_walk_fuel(threads, parent_in(threads, primary), seen, session, threads.len() as nat);
    lemma_focus_walk_more_fuel(
        threads,
        parent_in(threads, primary),
        seen,
        session,
        threads.len() as nat,
        extra,
    );
}

/// A TUI shows a session when it is attached to the request's server (an
/// embedded server never matches) and the session is its primary thread or
/// an ancestor of it.
pub open spec fn spec_matches_focus_session(
    attached: Option<Endpoint>,
    endpoint: Endpoint,
    primary: Option<Seq<char>>,
    threads: Seq<(Seq<char>, Option<Thread>)>,
    session: Seq<char>,
) -> bool {
    match attached {
        None => false,
        Some(a) => endpoint_view(a) == endpoint_view(endpoint) && match primary {
            None => false,
            Some(p) => p == session || focus_walk(
                threads,
                parent_in(threads, p),
                seq![p],
                session,
                threads.len() as nat,
            ),
        },
    }
}

fn parent_of(threads: &Vec<Slot<Option<Thread>>>, id: &str) -> (res: Option<String>)
    ensures
        match res {
            Some(p) => parent_in(slots_view(threads@), id@) == Some(p@),
            None => parent_in(slots_view(threads@), id@) is None,
        },
{
    match get_slot(threads, id) {
        Some(Some(t)) => match parent_id(t) {
            Some(p) => parse_uuid(p.as_str()),
            None => None,
        },
        _ => None,
    }
}

pub fn matches_focus_session(
    attached: Option<&Endpoint>,
    endpoint: &Endpoint,
    primary: Option<&str>,
    threads: &Vec<Slot<Option<Thread>>>,
    session_id: &str,
) -> (res: bool)
    ensures
        res == spec_matches_focus_session(
            match attached {
                Some(a) => Some(*a),
                None => None,
            },
            *endpoint,
            match primary {
                Some(p) => Some(p@),
                None => None,
            },
            slots_view(threads@),
            session_id@,
        ),
{
    match attached {
        None => return false,
        Some(a) => {
            if !same_endpoint(a, endpoint) {
                return false;
            }
        },
    }
    let p = match primary {
        None => return false,
        Some(p) => p,
    };
    if str_is(p, session_id) {
        return true;
    }
    let ghost tv = slots_view(threads@);
    let mut seen: Vec<String> = Vec::new();
    seen.push(String::from_str(p));
    assert(keys_view(seen@) =~= seq![p@]);
    let mut cur = parent_of(threads, p);
    let mut fuel: usize = threads.len();
    let ghost whole = spec_matches_focus_session(
        match attached {
            Some(a) => Some(*a),
            None => None,
        },
        *endpoint,
        Some(p@),
        tv,
        session_id@,
    );
    assert(whole == focus_walk(tv, parent_in(tv, p@), seq![p@], session_id@, tv.len() as nat));
    loop
        invariant
            tv == slots_view(threads@),
            whole == spec_matches_focus_session(
                match attached {
                    Some(a) => Some(*a),
                    None => None,
                },
                *endpoint,
                match primary {
                    Some(q) => Some(q@),
                    None => None,
                },
                tv,
                session_id@,
            ),
            whole == focus_walk(tv, parent_in(tv, p@), seq![p@], session_id@, tv.len() as nat),
            focus_walk(tv, parent_in(tv, p@), seq![p@], session_id@, tv.len() as nat) == focus_walk(
                tv,
                match cur {
                    Some(c) => Some(c@),
                    None => None,
                },
                keys_view(seen@),
                session_id@,
                fuel as nat,
            ),
        decreases fuel,
    {
        let id = match cur {
            None => return false,
            Some(id) => id,
        };
        proof {
            crate::agents::table::lemma_key_in(keys_view(seen@), id@);
        }
        if crate::agents::table::has_key(&seen, id.as_str()) {
            return false;
        }
        if str_is(id.as_str(), session_id) {
            return true;
        }
        if fuel == 0 {
            return false;
        }
        let next = parent_of(threads, id.as_str());
        let ghost before = keys_view(seen@);
        let ghost idv = id@;
        seen.push(id);
        assert(keys_view(seen@) =~= before.push(idv));
        cur = next;
        fuel -= 1;
    }
}

} // verus!
