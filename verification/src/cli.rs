//! The `cmux` command line: turning the words a user types into the
//! [`Request`] the control socket is sent.

use vstd::prelude::*;
use crate::ids::{PaneId, TabId, WorkspaceId};
use crate::protocol::{Dir, Request, SplitDir, Target};
use crate::text::{parse_unsigned, spec_parse_unsigned, str_chars, string_from_chars, string_push, text_eq};

verus! {

/// A [`Request`] with its texts as character sequences.
pub enum RequestView {
    Ping,
    ListWorkspaces,
    Send { pane: Option<PaneId>, data: Seq<char> },
    SendKey { pane: Option<PaneId>, key: Seq<char> },
    Focus { target: Target },
    FocusDir { dir: Dir },
    NewTab { workspace: Option<WorkspaceId> },
    NewWorkspace { title: Option<Seq<char>> },
    Split { pane: Option<PaneId>, orientation: SplitDir },
    ClosePane { pane: PaneId },
    Notify { pane: PaneId, title: Seq<char>, body: Seq<char> },
    Snapshot { pane: PaneId },
    GetConfig { path: Option<Seq<char>> },
    SetConfig { path: Seq<char>, value: Seq<char> },
    ListNotifications,
    MarkAllRead,
    RenameTab { tab: TabId, title: Seq<char> },
    RenameWorkspace { workspace: WorkspaceId, title: Seq<char> },
    ReorderTab { tab: TabId, index: usize },
    ResizePane { pane: PaneId, rows: u16, cols: u16 },
    OpenBrowser { url: Seq<char>, orientation: SplitDir },
    NavigateBrowser { pane: PaneId, url: Seq<char> },
    Find { pane: PaneId, query: Seq<char> },
    CloseWorkspace { workspace: WorkspaceId },
    ReorderWorkspace { workspace: WorkspaceId, index: usize },
    Equalize,
    ToggleZoom,
    NextTab,
    PrevTab,
    MarkNotificationRead { id: u64 },
    DismissNotification { id: u64 },
    RunAction { name: Seq<char> },
}

/// An optional string as text.
pub open spec fn opt_view(o: Option<String>) -> Option<Seq<char>> {
    match o {
        Some(s) => Some(s@),
        None => None,
    }
}

impl View for Request {
    type V = RequestView;

    open spec fn view(&self) -> RequestView {
        match *self {
            Request::Ping => RequestView::Ping,
            Request::ListWorkspaces => RequestView::ListWorkspaces,
            Request::Send { pane, data } => RequestView::Send { pane, data: data@ },
            Request::SendKey { pane, key } => RequestView::SendKey { pane, key: key@ },
            Request::Focus { target } => RequestView::Focus { target },
            Request::FocusDir { dir } => RequestView::FocusDir { dir },
            Request::NewTab { workspace } => RequestView::NewTab { workspace },
            Request::NewWorkspace { title } => RequestView::NewWorkspace { title: opt_view(title) },
            Request::Split { pane, orientation } => RequestView::Split { pane, orientation },
            Request::ClosePane { pane } => RequestView::ClosePane { pane },
            Request::Notify { pane, title, body } => RequestView::Notify { pane, title: title@, body: body@ },
            Request::Snapshot { pane } => RequestView::Snapshot { pane },
            Request::GetConfig { path } => RequestView::GetConfig { path: opt_view(path) },
            Request::SetConfig { path, value } => RequestView::SetConfig { path: path@, value: value@ },
            Request::ListNotifications => RequestView::ListNotifications,
            Request::MarkAllRead => RequestView::MarkAllRead,
            Request::RenameTab { tab, title } => RequestView::RenameTab { tab, title: title@ },
            Request::RenameWorkspace { workspace, title } => RequestView::RenameWorkspace { workspace, title: title@ },
            Request::ReorderTab { tab, index } => RequestView::ReorderTab { tab, index },
            Request::ResizePane { pane, rows, cols } => RequestView::ResizePane { pane, rows, cols },
            Request::OpenBrowser { url, orientation } => RequestView::OpenBrowser { url: url@, orientation },
            Request::NavigateBrowser { pane, url } => RequestView::NavigateBrowser { pane, url: url@ },
            Request::Find { pane, query } => RequestView::Find { pane, query: query@ },
            Request::CloseWorkspace { workspace } => RequestView::CloseWorkspace { workspace },
            Request::ReorderWorkspace { workspace, index } => RequestView::ReorderWorkspace { workspace, index },
            Request::Equalize => RequestView::Equalize,
            Request::ToggleZoom => RequestView::ToggleZoom,
            Request::NextTab => RequestView::NextTab,
            Request::PrevTab => RequestView::PrevTab,
            Request::MarkNotificationRead { id } => RequestView::MarkNotificationRead { id },
            Request::DismissNotification { id } => RequestView::DismissNotification { id },
            Request::RunAction { name } => RequestView::RunAction { name: name@ },
        }
    }
}

/// The words of a command line as character sequences.
pub open spec fn words(args: Seq<String>) -> Seq<Seq<char>> {
    args.map_values(|a: String| a@)
}

/// The text after the last `:` (all of `s` when there is none).
pub open spec fn after_colon(s: Seq<char>) -> Seq<char>
    decreases s.len(),
{
    if s.len() == 0 {
        s
    } else if s.last() == ':' {
        Seq::empty()
    } else {
        after_colon(s.drop_last()).push(s.last())
    }
}

/// An id, bare or prefixed (`surface:3`, `tab:2`).
pub open spec fn spec_parse_id(s: Seq<char>) -> Result<u64, Seq<char>> {
    match spec_parse_unsigned(after_colon(s), u64::MAX as nat) {
        Some(v) => Ok(v as u64),
        None => Err("invalid id: "@ + s),
    }
}

/// `s` begins with `p`.
pub open spec fn has_prefix(s: Seq<char>, p: Seq<char>) -> bool {
    p.len() <= s.len() && s.take(p.len() as int) == p
}

/// A focus target: `workspace:N`, `tab:N`, `surface:N` / `pane:N`, or a bare
/// number (a pane).
pub open spec fn spec_parse_target(s: Seq<char>) -> Result<Target, Seq<char>> {
    match spec_parse_id(s) {
        Ok(id) => Ok(
            if has_prefix(s, "workspace:"@) {
                Target::Workspace(WorkspaceId(id))
            } else if has_prefix(s, "tab:"@) {
                Target::Tab(TabId(id))
            } else {
                Target::Pane(PaneId(id))
            },
        ),
        Err(e) => Err(e),
    }
}

/// A direction word: `left`/`l`, `right`/`r`, `up`/`u`, `down`/`d`.
pub open spec fn spec_parse_dir(s: Seq<char>) -> Result<Dir, Seq<char>> {
    if s == "left"@ || s == "l"@ {
        Ok(Dir::Left)
    } else if s == "right"@ || s == "r"@ {
        Ok(Dir::Right)
    } else if s == "up"@ || s == "u"@ {
        Ok(Dir::Up)
    } else if s == "down"@ || s == "d"@ {
        Ok(Dir::Down)
    } else {
        Err("invalid direction: "@ + s)
    }
}

/// The words joined by single spaces.
pub open spec fn join_space(ws: Seq<Seq<char>>) -> Seq<char>
    decreases ws.len(),
{
    if ws.len() == 0 {
        Seq::empty()
    } else if ws.len() == 1 {
        ws[0]
    } else {
        join_space(ws.drop_last()) + seq![' '] + ws.last()
    }
}

/// The scan of `args[i..]` for `--pane ID` flags, starting from the pane
/// and positional words found so far: a flag with a value takes the value
/// (the pane, when it is an id), a trailing flag is positional.
pub open spec fn pane_scan(args: Seq<Seq<char>>, i: int, pane: Option<PaneId>, pos: Seq<Seq<char>>) -> (Option<PaneId>, Seq<Seq<char>>)
    decreases args.len() - i,
{
    if i < 0 || i >= args.len() {
        (pane, pos)
    } else if args[i] == "--pane"@ && i + 1 < args.len() {
        let p = match spec_parse_id(args[i + 1]) {
            Ok(n) => Some(PaneId(n)),
            Err(_) => pane,
        };
        pane_scan(args, i + 2, p, pos)
    } else {
        pane_scan(args, i + 1, pane, pos.push(args[i]))
    }
}

/// The pane given by `--pane` and the other words.
pub open spec fn spec_take_pane(args: Seq<Seq<char>>) -> (Option<PaneId>, Seq<Seq<char>>) {
    pane_scan(args, 0, None, Seq::empty())
}

/// The word after the first `flag`.
pub open spec fn spec_value_flag(args: Seq<Seq<char>>, flag: Seq<char>) -> Option<Seq<char>> {
    match crate::workspace::first_match(args, |a: Seq<char>| a == flag) {
        Some(i) => if i + 1 < args.len() {
            Some(args[i + 1])
        } else {
            None
        },
        None => None,
    }
}

/// The scan of `args[i..]` for `--socket PATH`: each flag takes the next
/// word (none at the end); the other words are kept in order.
pub open spec fn socket_scan(args: Seq<Seq<char>>, i: int, sock: Option<Seq<char>>, rest: Seq<Seq<char>>) -> (Option<Seq<char>>, Seq<Seq<char>>)
    decreases args.len() + 1 - i,
{
    if i < 0 || i >= args.len() {
        (sock, rest)
    } else if args[i] == "--socket"@ {
        socket_scan(args, i + 2, if i + 1 < args.len() { Some(args[i + 1]) } else { None }, rest)
    } else {
        socket_scan(args, i + 1, sock, rest.push(args[i]))
    }
}

/// The socket path given by `--socket` and the other words.
pub open spec fn spec_extract_socket(args: Seq<Seq<char>>) -> (Option<Seq<char>>, Seq<Seq<char>>) {
    socket_scan(args, 0, None, Seq::empty())
}

/// Word `i` of `ws`, if there is one.
pub open spec fn word(ws: Seq<Seq<char>>, i: int) -> Option<Seq<char>> {
    if 0 <= i < ws.len() {
        Some(ws[i])
    } else {
        None
    }
}

/// The words of `ws` from `i` on, joined by spaces (empty past the end).
pub open spec fn joined_from(ws: Seq<Seq<char>>, i: int) -> Seq<char> {
    if i <= ws.len() {
        join_space(ws.skip(i))
    } else {
        Seq::empty()
    }
}

/// A command with an id argument, given what the command makes of the id.
pub open spec fn with_id(
    rest: Seq<Seq<char>>,
    missing: Seq<char>,
    make: spec_fn(u64) -> RequestView,
) -> Result<Option<RequestView>, Seq<char>> {
    match word(rest, 0) {
        None => Err(missing),
        Some(w) => match spec_parse_id(w) {
            Ok(id) => Ok(Some(make(id))),
            Err(e) => Err(e),
        },
    }
}

/// The request a command line asks for; `Ok(None)` asks for the usage text.
pub open spec fn spec_parse(args: Seq<Seq<char>>) -> Result<Option<RequestView>, Seq<char>> {
    if args.len() == 0 {
        Ok(None)
    } else {
        let cmd = args[0];
        let rest = args.skip(1);
        if cmd == "-h"@ || cmd == "--help"@ || cmd == "help"@ {
            Ok(None)
        } else if cmd == "ping"@ {
            Ok(Some(RequestView::Ping))
        } else if cmd == "list-workspaces"@ || cmd == "ls"@ {
            Ok(Some(RequestView::ListWorkspaces))
        } else if cmd == "notifications"@ || cmd == "notes"@ {
            Ok(Some(RequestView::ListNotifications))
        } else if cmd == "mark-read"@ {
            if rest.len() == 0 {
                Ok(Some(RequestView::MarkAllRead))
            } else {
                note_id(rest, Seq::empty(), |id: u64| RequestView::MarkNotificationRead { id })
            }
        } else if cmd == "rename-tab"@ {
            if rest.len() == 0 {
                Err("rename-tab requires a tab id"@)
            } else if joined_from(rest, 1).len() == 0 {
                Err("rename-tab requires a title"@)
            } else {
                with_id(rest, Seq::empty(), |id: u64| RequestView::RenameTab { tab: TabId(id), title: joined_from(rest, 1) })
            }
        } else if cmd == "rename-workspace"@ {
            if rest.len() == 0 {
                Err("rename-workspace requires a workspace id"@)
            } else if joined_from(rest, 1).len() == 0 {
                Err("rename-workspace requires a title"@)
            } else {
                with_id(
                    rest,
                    Seq::empty(),
                    |id: u64| RequestView::RenameWorkspace { workspace: WorkspaceId(id), title: joined_from(rest, 1) },
                )
            }
        } else if cmd == "reorder-tab"@ {
            if rest.len() == 0 {
                Err("reorder-tab requires a tab id"@)
            } else if rest.len() < 2 {
                Err("reorder-tab requires an index"@)
            } else {
                match spec_parse_unsigned(rest[1], usize::MAX as nat) {
                    None => Err("index must be a number"@),
                    Some(ix) => with_id(rest, Seq::empty(), |id: u64| RequestView::ReorderTab { tab: TabId(id), index: ix as usize }),
                }
            }
        } else if cmd == "browser"@ {
            if rest.len() == 0 {
                Err("browser requires a URL"@)
            } else {
                Ok(Some(RequestView::OpenBrowser {
                    url: rest[0],
                    orientation: if rest.len() > 1 && (rest[1] == "vertical"@ || rest[1] == "v"@) {
                        SplitDir::Vertical
                    } else {
                        SplitDir::Horizontal
                    },
                }))
            }
        } else if cmd == "navigate"@ {
            if rest.len() == 0 {
                Err("navigate requires a pane id"@)
            } else if rest.len() < 2 {
                Err("navigate requires a URL"@)
            } else {
                with_id(rest, Seq::empty(), |id: u64| RequestView::NavigateBrowser { pane: PaneId(id), url: rest[1] })
            }
        } else if cmd == "find"@ {
            if rest.len() == 0 {
                Err("find requires a pane id"@)
            } else if joined_from(rest, 1).len() == 0 {
                Err("find requires a query"@)
            } else {
                with_id(rest, Seq::empty(), |id: u64| RequestView::Find { pane: PaneId(id), query: joined_from(rest, 1) })
            }
        } else if cmd == "resize"@ {
            if rest.len() == 0 {
                Err("resize requires a pane id"@)
            } else if rest.len() < 2 {
                Err("resize requires rows"@)
            } else {
                match spec_parse_unsigned(rest[1], u16::MAX as nat) {
                    None => Err("rows must be a number"@),
                    Some(r) => if rest.len() < 3 {
                        Err("resize requires cols"@)
                    } else {
                        match spec_parse_unsigned(rest[2], u16::MAX as nat) {
                            None => Err("cols must be a number"@),
                            Some(c) => with_id(
                                rest,
                                Seq::empty(),
                                |id: u64| RequestView::ResizePane { pane: PaneId(id), rows: r as u16, cols: c as u16 },
                            ),
                        }
                    },
                }
            }
        } else if cmd == "send"@ || cmd == "send-key"@ || cmd == "split"@ {
            spec_flagged(cmd, rest)
        } else if cmd == "focus"@ {
            if rest.len() == 0 {
                Err("focus requires a target"@)
            } else {
                match spec_parse_target(rest[0]) {
                    Ok(t) => Ok(Some(RequestView::Focus { target: t })),
                    Err(e) => Err(e),
                }
            }
        } else if cmd == "focus-dir"@ {
            if rest.len() == 0 {
                Err("focus-dir requires a direction"@)
            } else {
                match spec_parse_dir(rest[0]) {
                    Ok(d) => Ok(Some(RequestView::FocusDir { dir: d })),
                    Err(e) => Err(e),
                }
            }
        } else if cmd == "new-tab"@ {
            match spec_value_flag(rest, "--workspace"@) {
                Some(v) => match spec_parse_id(v) {
                    Ok(id) => Ok(Some(RequestView::NewTab { workspace: Some(WorkspaceId(id)) })),
                    Err(e) => Err(e),
                },
                None => Ok(Some(RequestView::NewTab { workspace: None })),
            }
        } else if cmd == "new-workspace"@ {
            Ok(Some(RequestView::NewWorkspace { title: word(rest, 0) }))
        } else if cmd == "close-pane"@ {
            with_id(rest, "close-pane requires a pane id"@, |id: u64| RequestView::ClosePane { pane: PaneId(id) })
        } else if cmd == "notify"@ {
            with_id(
                rest,
                "notify requires a pane id"@,
                |id: u64|
                    RequestView::Notify {
                        pane: PaneId(id),
                        title: match word(rest, 1) {
                            Some(t) => t,
                            None => Seq::empty(),
                        },
                        body: joined_from(rest, 2),
                    },
            )
        } else if cmd == "snapshot"@ {
            with_id(rest, "snapshot requires a pane id"@, |id: u64| RequestView::Snapshot { pane: PaneId(id) })
        } else if cmd == "config"@ {
            if rest.len() > 0 && rest[0] == "get"@ {
                Ok(Some(RequestView::GetConfig { path: word(rest, 1) }))
            } else if rest.len() > 0 && rest[0] == "set"@ {
                if rest.len() < 2 {
                    Err("config set requires a path"@)
                } else if rest.len() < 3 {
                    Err("config set requires a value"@)
                } else {
                    Ok(Some(RequestView::SetConfig { path: rest[1], value: rest[2] }))
                }
            } else {
                Err("config requires get|set"@)
            }
        } else {
            spec_more(cmd, rest)
        }
    }
}

/// A notification id argument: the first word, a bare number.
pub open spec fn note_id(rest: Seq<Seq<char>>, missing: Seq<char>, make: spec_fn(u64) -> RequestView) -> Result<
    Option<RequestView>,
    Seq<char>,
> {
    match word(rest, 0) {
        None => Err(missing),
        Some(w) => match spec_parse_unsigned(w, u64::MAX as nat) {
            Some(v) => Ok(Some(make(v as u64))),
            None => Err("notification id must be a number"@),
        },
    }
}

/// The layout, notification and action commands.
pub open spec fn spec_more(cmd: Seq<char>, rest: Seq<Seq<char>>) -> Result<Option<RequestView>, Seq<char>> {
    if cmd == "equalize"@ {
        Ok(Some(RequestView::Equalize))
    } else if cmd == "zoom"@ {
        Ok(Some(RequestView::ToggleZoom))
    } else if cmd == "next-tab"@ {
        Ok(Some(RequestView::NextTab))
    } else if cmd == "prev-tab"@ {
        Ok(Some(RequestView::PrevTab))
    } else if cmd == "close-workspace"@ {
        with_id(
            rest,
            "close-workspace requires a workspace id"@,
            |id: u64| RequestView::CloseWorkspace { workspace: WorkspaceId(id) },
        )
    } else if cmd == "reorder-workspace"@ {
        if rest.len() == 0 {
            Err("reorder-workspace requires a workspace id"@)
        } else if rest.len() < 2 {
            Err("reorder-workspace requires an index"@)
        } else {
            match spec_parse_unsigned(rest[1], usize::MAX as nat) {
                None => Err("index must be a number"@),
                Some(ix) => with_id(
                    rest,
                    Seq::empty(),
                    |id: u64| RequestView::ReorderWorkspace { workspace: WorkspaceId(id), index: ix as usize },
                ),
            }
        }
    } else if cmd == "dismiss"@ {
        note_id(rest, "dismiss requires a notification id"@, |id: u64| RequestView::DismissNotification { id })
    } else if cmd == "run"@ {
        match word(rest, 0) {
            None => Err("run requires an action name"@),
            Some(n) => Ok(Some(RequestView::RunAction { name: n })),
        }
    } else {
        Err("unknown command: "@ + cmd)
    }
}

/// `send`, `send-key` and `split`, which take a `--pane ID` flag.
pub open spec fn spec_flagged(cmd: Seq<char>, rest: Seq<Seq<char>>) -> Result<Option<RequestView>, Seq<char>> {
    let (pane, pos) = spec_take_pane(rest);
    if cmd == "send"@ {
        if join_space(pos).len() == 0 {
            Err("send requires text"@)
        } else {
            Ok(Some(RequestView::Send { pane, data: join_space(pos) }))
        }
    } else if cmd == "send-key"@ {
        if pos.len() == 0 {
            Err("send-key requires a key"@)
        } else {
            Ok(Some(RequestView::SendKey { pane, key: pos[0] }))
        }
    } else if pos.len() > 0 && (pos[0] == "horizontal"@ || pos[0] == "h"@) {
        Ok(Some(RequestView::Split { pane, orientation: SplitDir::Horizontal }))
    } else if pos.len() > 0 && (pos[0] == "vertical"@ || pos[0] == "v"@) {
        Ok(Some(RequestView::Split { pane, orientation: SplitDir::Vertical }))
    } else {
        Err("split requires horizontal|vertical"@)
    }
}

/// The result of parsing, with texts as character sequences.
pub open spec fn parse_view(r: Result<Option<Request>, String>) -> Result<Option<RequestView>, Seq<char>> {
    match r {
        Ok(Some(q)) => Ok(Some(q@)),
        Ok(None) => Ok(None),
        Err(e) => Err(e@),
    }
}

fn push_text(out: &mut String, s: &str)
    ensures
        final(out)@ == old(out)@ + s@,
{
    let cs = str_chars(s);
    let mut i: usize = 0;
    while i < cs.len()
        invariant
            i <= cs@.len(),
            cs@ == s@,
            out@ == old(out)@ + cs@.take(i as int),
        decreases cs@.len() - i,
    {
        string_push(out, cs[i]);
        i = i + 1;
        assert(out@ =~= old(out)@ + cs@.take(i as int));
    }
    assert(cs@.take(i as int) =~= cs@);
}

/// `prefix` followed by `s`.
fn message(prefix: &str, s: &str) -> (m: String)
    ensures
        m@ == prefix@ + s@,
{
    let mut m = String::new();
    push_text(&mut m, prefix);
    push_text(&mut m, s);
    assert(m@ =~= prefix@ + s@);
    m
}

/// Whether `a` is the word `w`.
fn is_arg(a: &String, w: &str) -> (r: bool)
    ensures
        r == (a@ == w@),
{
    text_eq(a.as_str(), w)
}

/// Parse `surface:3`, `tab:2`, `workspace:1` or a bare number.
pub fn parse_id(s: &str) -> (r: Result<u64, String>)
    ensures
        match r {
            Ok(v) => spec_parse_id(s@) == Ok::<u64, Seq<char>>(v),
            Err(e) => spec_parse_id(s@) == Err::<u64, Seq<char>>(e@),
        },
{
    let cs = str_chars(s);
    let mut start = cs.len();
    proof {
        assert(cs@.take(start as int) =~= cs@);
        assert(after_colon(cs@) + cs@.skip(start as int) =~= after_colon(cs@));
    }
    while start > 0 && cs[start - 1] != ':'
        invariant
            start <= cs@.len(),
            cs@ == s@,
            after_colon(cs@) == after_colon(cs@.take(start as int)) + cs@.skip(start as int),
        decreases start,
    {
        proof {
            let t = cs@.take(start as int);
            assert(t.drop_last() =~= cs@.take(start - 1));
            assert(cs@.skip(start - 1) =~= seq![t.last()] + cs@.skip(start as int));
            assert(after_colon(t) == after_colon(t.drop_last()).push(t.last()));
            assert(after_colon(cs@.take(start - 1)).push(t.last()) + cs@.skip(start as int)
                =~= after_colon(cs@.take(start - 1)) + cs@.skip(start - 1));
        }
        start = start - 1;
    }
    let mut num: Vec<char> = Vec::new();
    let mut k = start;
    while k < cs.len()
        invariant
            start <= k <= cs@.len(),
            num@ == cs@.subrange(start as int, k as int),
        decreases cs@.len() - k,
    {
        num.push(cs[k]);
        k = k + 1;
        assert(num@ =~= cs@.subrange(start as int, k as int));
    }
    proof {
        let t = cs@.take(start as int);
        assert(after_colon(t) =~= Seq::<char>::empty()) by {
            if start > 0 {
                assert(t.last() == ':');
            }
        }
        assert(num@ =~= after_colon(cs@));
    }
    match parse_unsigned(num.as_slice(), u64::MAX) {
        Some(v) => Ok(v),
        None => Err(message("invalid id: ", s)),
    }
}

/// Whether `s` begins with `p`.
fn starts_with(s: &str, p: &str) -> (r: bool)
    ensures
        r == has_prefix(s@, p@),
{
    let a = str_chars(s);
    let b = str_chars(p);
    if b.len() > a.len() {
        return false;
    }
    let mut i: usize = 0;
    while i < b.len()
        invariant
            i <= b@.len() <= a@.len(),
            forall|j: int| 0 <= j < i ==> a@[j] == b@[j],
            a@ == s@,
            b@ == p@,
        decreases b@.len() - i,
    {
        if a[i] != b[i] {
            assert(a@.take(b@.len() as int)[i as int] != b@[i as int]);
            return false;
        }
        i = i + 1;
    }
    assert(a@.take(b@.len() as int) =~= b@);
    true
}

/// Parse a focus target.
pub fn parse_target(s: &str) -> (r: Result<Target, String>)
    ensures
        match r {
            Ok(t) => spec_parse_target(s@) == Ok::<Target, Seq<char>>(t),
            Err(e) => spec_parse_target(s@) == Err::<Target, Seq<char>>(e@),
        },
{
    let id = match parse_id(s) {
        Ok(id) => id,
        Err(e) => return Err(e),
    };
    if starts_with(s, "workspace:") {
        Ok(Target::Workspace(WorkspaceId(id)))
    } else if starts_with(s, "tab:") {
        Ok(Target::Tab(TabId(id)))
    } else {
        Ok(Target::Pane(PaneId(id)))
    }
}

/// Parse a direction word.
pub fn parse_dir(s: &str) -> (r: Result<Dir, String>)
    ensures
        match r {
            Ok(d) => spec_parse_dir(s@) == Ok::<Dir, Seq<char>>(d),
            Err(e) => spec_parse_dir(s@) == Err::<Dir, Seq<char>>(e@),
        },
{
    if text_eq(s, "left") || text_eq(s, "l") {
        Ok(Dir::Left)
    } else if text_eq(s, "right") || text_eq(s, "r") {
        Ok(Dir::Right)
    } else if text_eq(s, "up") || text_eq(s, "u") {
        Ok(Dir::Up)
    } else if text_eq(s, "down") || text_eq(s, "d") {
        Ok(Dir::Down)
    } else {
        Err(message("invalid direction: ", s))
    }
}

/// `--pane ID` taken out of the words: the pane (the last one given that
/// parses) and the other words.
pub fn take_pane_flag(args: &[String]) -> (r: (Option<PaneId>, Vec<String>))
    ensures
        (r.0, words(r.1@)) == spec_take_pane(words(args@)),
{
    let ghost ws = words(args@);
    let mut pane: Option<PaneId> = None;
    let mut positional: Vec<String> = Vec::new();
    let mut i: usize = 0;
    assert(words(positional@) =~= Seq::<Seq<char>>::empty());
    while i < args.len()
        invariant
            i <= args@.len() + 1,
            ws == words(args@),
            spec_take_pane(ws) == pane_scan(ws, i as int, pane, words(positional@)),
        decreases args@.len() + 1 - i,
    {
        if is_arg(&args[i], "--pane") && i + 1 < args.len() {
            match parse_id(args[i + 1].as_str()) {
                Ok(n) => {
                    pane = Some(PaneId(n));
                },
                Err(_) => {},
            }
            i = i + 2;
        } else {
            let ghost before = words(positional@);
            positional.push(args[i].clone());
            proof {
                assert(words(positional@) =~= before.push(ws[i as int]));
            }
            i = i + 1;
        }
    }
    (pane, positional)
}

/// The word after the first `flag`, if any.
pub fn take_value_flag(args: &[String], flag: &str) -> (r: Option<String>)
    ensures
        opt_view(r) == spec_value_flag(words(args@), flag@),
{
    let ghost ws = words(args@);
    let mut i: usize = 0;
    while i < args.len()
        invariant
            i <= args@.len(),
            ws == words(args@),
            forall|j: int| 0 <= j < i ==> !(|a: Seq<char>| a == flag@)(#[trigger] ws[j]),
        decreases args@.len() - i,
    {
        if text_eq(args[i].as_str(), flag) {
            proof {
                crate::workspace::lemma_first_match_at(ws, |a: Seq<char>| a == flag@, i as int);
            }
            if i + 1 < args.len() {
                return Some(args[i + 1].clone());
            } else {
                return None;
            }
        }
        i = i + 1;
    }
    proof {
        crate::workspace::lemma_first_match_at(ws, |a: Seq<char>| a == flag@, i as int);
    }
    None
}

/// `--socket PATH` taken out of the words: the path (of the last flag; none
/// when it ends the line) and the other words.
pub fn extract_socket(args: Vec<String>) -> (r: (Option<String>, Vec<String>))
    ensures
        (opt_view(r.0), words(r.1@)) == spec_extract_socket(words(args@)),
{
    let ghost ws = words(args@);
    let mut socket: Option<String> = None;
    let mut rest: Vec<String> = Vec::new();
    let mut i: usize = 0;
    assert(words(rest@) =~= Seq::<Seq<char>>::empty());
    while i < args.len()
        invariant
            i <= args@.len() + 1,
            ws == words(args@),
            spec_extract_socket(ws) == socket_scan(ws, i as int, opt_view(socket), words(rest@)),
        decreases args@.len() + 1 - i,
    {
        if is_arg(&args[i], "--socket") {
            proof {
                assert(ws[i as int] == "--socket"@);
            }
            if i + 1 < args.len() {
                let v = args[i + 1].clone();
                assert(v@ == ws[i + 1]);
                socket = Some(v);
                i = i + 2;
            } else {
                proof {
                    assert(socket_scan(ws, i + 2, None, words(rest@)) == (None::<Seq<char>>, words(rest@)));
                    assert(socket_scan(ws, i as int, opt_view(socket), words(rest@)) == socket_scan(ws, i + 2, None, words(rest@)));
                }
                socket = None;
                i = args.len();
                assert(socket_scan(ws, i as int, None, words(rest@)) == (None::<Seq<char>>, words(rest@)));
            }
        } else {
            let ghost before = words(rest@);
            rest.push(args[i].clone());
            proof {
                assert(words(rest@) =~= before.push(ws[i as int]));
            }
            i = i + 1;
        }
    }
    (socket, rest)
}

/// The words `args[from..]` joined by spaces.
fn join_from(args: &[String], from: usize) -> (s: String)
    requires
        from <= args@.len(),
    ensures
        s@ == join_space(words(args@).skip(from as int)),
{
    let ghost ws = words(args@);
    let mut out = String::new();
    let mut i = from;
    proof {
        assert(ws.skip(from as int).take(0) =~= Seq::<Seq<char>>::empty());
    }
    while i < args.len()
        invariant
            from <= i <= args@.len(),
            ws == words(args@),
            out@ == join_space(ws.skip(from as int).take(i - from)),
        decreases args@.len() - i,
    {
        let ghost pre = ws.skip(from as int).take(i - from);
        if i > from {
            string_push(&mut out, ' ');
        }
        push_text(&mut out, args[i].as_str());
        proof {
            let now = ws.skip(from as int).take(i + 1 - from);
            assert(now.drop_last() =~= pre);
            assert(now.last() == ws[i as int]);
            if i > from {
                assert(out@ =~= join_space(now));
            } else {
                assert(out@ =~= join_space(now));
            }
        }
        i = i + 1;
    }
    proof {
        assert(ws.skip(from as int).take(i - from) =~= ws.skip(from as int));
    }
    out
}


/// `send`, `send-key` or `split` (`cmd`) with the words after it.
fn parse_flagged(cmd: &String, rest: &[String]) -> (r: Result<Request, String>)
    ensures
        match r {
            Ok(q) => spec_flagged(cmd@, words(rest@)) == Ok::<Option<RequestView>, Seq<char>>(Some(q@)),
            Err(e) => spec_flagged(cmd@, words(rest@)) == Err::<Option<RequestView>, Seq<char>>(e@),
        },
{
    let (pane, positional) = take_pane_flag(rest);
    if is_arg(cmd, "send") {
        let data = join_from(positional.as_slice(), 0);
        proof {
            assert(words(positional@).skip(0) =~= words(positional@));
        }
        if data.as_str().is_empty() {
            return Err("send requires text".to_owned());
        }
        Ok(Request::Send { pane, data })
    } else if is_arg(cmd, "send-key") {
        if positional.len() == 0 {
            return Err("send-key requires a key".to_owned());
        }
        Ok(Request::SendKey { pane, key: positional[0].clone() })
    } else if positional.len() > 0 && (is_arg(&positional[0], "horizontal") || is_arg(&positional[0], "h")) {
        Ok(Request::Split { pane, orientation: SplitDir::Horizontal })
    } else if positional.len() > 0 && (is_arg(&positional[0], "vertical") || is_arg(&positional[0], "v")) {
        Ok(Request::Split { pane, orientation: SplitDir::Vertical })
    } else {
        Err("split requires horizontal|vertical".to_owned())
    }
}

/// The id in the first word, or `missing` when there is none.
fn id_arg(rest: &[String], missing: &str) -> (r: Result<u64, String>)
    ensures
        match r {
            Ok(v) => word(words(rest@), 0) matches Some(w) && spec_parse_id(w) == Ok::<u64, Seq<char>>(v),
            Err(e) => match word(words(rest@), 0) {
                None => e@ == missing@,
                Some(w) => spec_parse_id(w) == Err::<u64, Seq<char>>(e@),
            },
        },
{
    if rest.len() == 0 {
        return Err(missing.to_owned());
    }
    parse_id(rest[0].as_str())
}

/// An unsigned number no larger than `max`, or `bad` when it is not one.
fn number_arg(s: &String, max: u64, bad: &str) -> (r: Result<u64, String>)
    ensures
        match r {
            Ok(v) => spec_parse_unsigned(s@, max as nat) == Some(v as nat),
            Err(e) => spec_parse_unsigned(s@, max as nat) is None && e@ == bad@,
        },
{
    let cs = str_chars(s.as_str());
    match parse_unsigned(cs.as_slice(), max) {
        Some(v) => Ok(v),
        None => Err(bad.to_owned()),
    }
}

/// Parse a command line (without `--socket`) into a [`Request`]; `Ok(None)`
/// asks for the usage text.
#[verifier::rlimit(50)]
pub fn parse(args: &[String]) -> (r: Result<Option<Request>, String>)
    ensures
        parse_view(r) == spec_parse(words(args@)),
{
    let ghost ws = words(args@);
    if args.len() == 0 {
        return Ok(None);
    }
    let cmd = &args[0];
    let rest = vstd::slice::slice_subrange(args, 1, args.len());
    let ghost rw = words(rest@);
    proof {
        assert(rw =~= ws.skip(1));
        assert(cmd@ == ws[0]);
    }
    if is_arg(cmd, "-h") || is_arg(cmd, "--help") || is_arg(cmd, "help") {
        return Ok(None);
    }
    let req = if is_arg(cmd, "ping") {
        Request::Ping
    } else if is_arg(cmd, "list-workspaces") || is_arg(cmd, "ls") {
        Request::ListWorkspaces
    } else if is_arg(cmd, "notifications") || is_arg(cmd, "notes") {
        Request::ListNotifications
    } else if is_arg(cmd, "mark-read") {
        if rest.len() == 0 {
            Request::MarkAllRead
        } else {
            match number_arg(&rest[0], u64::MAX, "notification id must be a number") {
                Ok(id) => Request::MarkNotificationRead { id },
                Err(e) => return Err(e),
            }
        }
    } else if is_arg(cmd, "rename-tab") || is_arg(cmd, "rename-workspace") {
        let tab = is_arg(cmd, "rename-tab");
        if rest.len() == 0 {
            return Err(
                if tab {
                    "rename-tab requires a tab id".to_owned()
                } else {
                    "rename-workspace requires a workspace id".to_owned()
                },
            );
        }
        let title = join_from(rest, 1);
        if title.as_str().is_empty() {
            return Err(
                if tab {
                    "rename-tab requires a title".to_owned()
                } else {
                    "rename-workspace requires a title".to_owned()
                },
            );
        }
        let id = match parse_id(rest[0].as_str()) {
            Ok(id) => id,
            Err(e) => return Err(e),
        };
        if tab {
            Request::RenameTab { tab: TabId(id), title }
        } else {
            Request::RenameWorkspace { workspace: WorkspaceId(id), title }
        }
    } else if is_arg(cmd, "reorder-tab") {
        if rest.len() == 0 {
            return Err("reorder-tab requires a tab id".to_owned());
        }
        if rest.len() < 2 {
            return Err("reorder-tab requires an index".to_owned());
        }
        let index = match number_arg(&rest[1], usize::MAX as u64, "index must be a number") {
            Ok(v) => v as usize,
            Err(e) => return Err(e),
        };
        let id = match parse_id(rest[0].as_str()) {
            Ok(id) => id,
            Err(e) => return Err(e),
        };
        Request::ReorderTab { tab: TabId(id), index }
    } else if is_arg(cmd, "browser") {
        if rest.len() == 0 {
            return Err("browser requires a URL".to_owned());
        }
        let url = rest[0].clone();
        let orientation = if rest.len() > 1 && (is_arg(&rest[1], "vertical") || is_arg(&rest[1], "v")) {
            SplitDir::Vertical
        } else {
            SplitDir::Horizontal
        };
        Request::OpenBrowser { url, orientation }
    } else if is_arg(cmd, "navigate") {
        if rest.len() == 0 {
            return Err("navigate requires a pane id".to_owned());
        }
        if rest.len() < 2 {
            return Err("navigate requires a URL".to_owned());
        }
        let url = rest[1].clone();
        let id = match parse_id(rest[0].as_str()) {
            Ok(id) => id,
            Err(e) => return Err(e),
        };
        Request::NavigateBrowser { pane: PaneId(id), url }
    } else if is_arg(cmd, "find") {
        if rest.len() == 0 {
            return Err("find requires a pane id".to_owned());
        }
        let query = join_from(rest, 1);
        if query.as_str().is_empty() {
            return Err("find requires a query".to_owned());
        }
        let id = match parse_id(rest[0].as_str()) {
            Ok(id) => id,
            Err(e) => return Err(e),
        };
        Request::Find { pane: PaneId(id), query }
    } else if is_arg(cmd, "resize") {
        if rest.len() == 0 {
            return Err("resize requires a pane id".to_owned());
        }
        if rest.len() < 2 {
            return Err("resize requires rows".to_owned());
        }
        let rows = match number_arg(&rest[1], u16::MAX as u64, "rows must be a number") {
            Ok(v) => v as u16,
            Err(e) => return Err(e),
        };
        if rest.len() < 3 {
            return Err("resize requires cols".to_owned());
        }
        let cols = match number_arg(&rest[2], u16::MAX as u64, "cols must be a number") {
            Ok(v) => v as u16,
            Err(e) => return Err(e),
        };
        let id = match parse_id(rest[0].as_str()) {
            Ok(id) => id,
            Err(e) => return Err(e),
        };
        Request::ResizePane { pane: PaneId(id), rows, cols }
    } else if is_arg(cmd, "send") || is_arg(cmd, "send-key") || is_arg(cmd, "split") {
        match parse_flagged(cmd, rest) {
            Ok(q) => q,
            Err(e) => return Err(e),
        }
    } else if is_arg(cmd, "focus") {
        if rest.len() == 0 {
            return Err("focus requires a target".to_owned());
        }
        match parse_target(rest[0].as_str()) {
            Ok(target) => Request::Focus { target },
            Err(e) => return Err(e),
        }
    } else if is_arg(cmd, "focus-dir") {
        if rest.len() == 0 {
            return Err("focus-dir requires a direction".to_owned());
        }
        match parse_dir(rest[0].as_str()) {
            Ok(dir) => Request::FocusDir { dir },
            Err(e) => return Err(e),
        }
    } else if is_arg(cmd, "new-tab") {
        let workspace = match take_value_flag(rest, "--workspace") {
            Some(v) => match parse_id(v.as_str()) {
                Ok(id) => Some(WorkspaceId(id)),
                Err(e) => return Err(e),
            },
            None => None,
        };
        Request::NewTab { workspace }
    } else if is_arg(cmd, "new-workspace") {
        let title = if rest.len() > 0 {
            Some(rest[0].clone())
        } else {
            None
        };
        Request::NewWorkspace { title }
    } else if is_arg(cmd, "close-pane") {
        match id_arg(rest, "close-pane requires a pane id") {
            Ok(id) => Request::ClosePane { pane: PaneId(id) },
            Err(e) => return Err(e),
        }
    } else if is_arg(cmd, "notify") {
        if rest.len() == 0 {
            return Err("notify requires a pane id".to_owned());
        }
        let title = if rest.len() > 1 {
            rest[1].clone()
        } else {
            String::new()
        };
        let body = if rest.len() >= 2 {
            join_from(rest, 2)
        } else {
            String::new()
        };
        let id = match parse_id(rest[0].as_str()) {
            Ok(id) => id,
            Err(e) => return Err(e),
        };
        Request::Notify { pane: PaneId(id), title, body }
    } else if is_arg(cmd, "snapshot") {
        match id_arg(rest, "snapshot requires a pane id") {
            Ok(id) => Request::Snapshot { pane: PaneId(id) },
            Err(e) => return Err(e),
        }
    } else if is_arg(cmd, "config") {
        if rest.len() > 0 && is_arg(&rest[0], "get") {
            let path = if rest.len() > 1 {
                Some(rest[1].clone())
            } else {
                None
            };
            Request::GetConfig { path }
        } else if rest.len() > 0 && is_arg(&rest[0], "set") {
            if rest.len() < 2 {
                return Err("config set requires a path".to_owned());
            }
            if rest.len() < 3 {
                return Err("config set requires a value".to_owned());
            }
            Request::SetConfig { path: rest[1].clone(), value: rest[2].clone() }
        } else {
            return Err("config requires get|set".to_owned());
        }
    } else {
        match parse_more(cmd, rest) {
            Ok(q) => q,
            Err(e) => return Err(e),
        }
    };
    Ok(Some(req))
}

/// The layout, notification and action commands (`cmd`) with the words
/// after it.
fn parse_more(cmd: &String, rest: &[String]) -> (r: Result<Request, String>)
    ensures
        match r {
            Ok(q) => spec_more(cmd@, words(rest@)) == Ok::<Option<RequestView>, Seq<char>>(Some(q@)),
            Err(e) => spec_more(cmd@, words(rest@)) == Err::<Option<RequestView>, Seq<char>>(e@),
        },
{
    let ghost rw = words(rest@);
    if is_arg(cmd, "equalize") {
        Ok(Request::Equalize)
    } else if is_arg(cmd, "zoom") {
        Ok(Request::ToggleZoom)
    } else if is_arg(cmd, "next-tab") {
        Ok(Request::NextTab)
    } else if is_arg(cmd, "prev-tab") {
        Ok(Request::PrevTab)
    } else if is_arg(cmd, "close-workspace") {
        match id_arg(rest, "close-workspace requires a workspace id") {
            Ok(id) => Ok(Request::CloseWorkspace { workspace: WorkspaceId(id) }),
            Err(e) => Err(e),
        }
    } else if is_arg(cmd, "reorder-workspace") {
        if rest.len() == 0 {
            return Err("reorder-workspace requires a workspace id".to_owned());
        }
        if rest.len() < 2 {
            return Err("reorder-workspace requires an index".to_owned());
        }
        let index = match number_arg(&rest[1], usize::MAX as u64, "index must be a number") {
            Ok(v) => v as usize,
            Err(e) => return Err(e),
        };
        let id = match parse_id(rest[0].as_str()) {
            Ok(id) => id,
            Err(e) => return Err(e),
        };
        Ok(Request::ReorderWorkspace { workspace: WorkspaceId(id), index })
    } else if is_arg(cmd, "dismiss") {
        if rest.len() == 0 {
            return Err("dismiss requires a notification id".to_owned());
        }
        match number_arg(&rest[0], u64::MAX, "notification id must be a number") {
            Ok(id) => Ok(Request::DismissNotification { id }),
            Err(e) => Err(e),
        }
    } else if is_arg(cmd, "run") {
        if rest.len() == 0 {
            return Err("run requires an action name".to_owned());
        }
        Ok(Request::RunAction { name: rest[0].clone() })
    } else {
        Err(message("unknown command: ", cmd.as_str()))
    }
}

proof fn lemma_scan_without_pane(args: Seq<Seq<char>>, i: int)
    requires
        0 <= i <= args.len(),
        forall|k: int| 0 <= k < args.len() ==> #[trigger] args[k] != "--pane"@,
    ensures
        pane_scan(args, i, None, args.take(i)) == (None::<PaneId>, args),
    decreases args.len() - i,
{
    if i < args.len() {
        assert(args.take(i).push(args[i]) =~= args.take(i + 1));
        lemma_scan_without_pane(args, i + 1);
    } else {
        assert(args.take(i) =~= args);
    }
}

/// `send` with words and no `--pane` flag sends the words, joined by
/// spaces, to the focused pane; with no text it is an error.
pub proof fn law_send_without_pane(rest: Seq<Seq<char>>)
    requires
        forall|k: int| 0 <= k < rest.len() ==> #[trigger] rest[k] != "--pane"@,
    ensures
        spec_parse(seq!["send"@] + rest) == if join_space(rest).len() == 0 {
            Err::<Option<RequestView>, Seq<char>>("send requires text"@)
        } else {
            Ok(Some(RequestView::Send { pane: None, data: join_space(rest) }))
        },
{
    reveal_strlit("-h");
    reveal_strlit("--help");
    reveal_strlit("help");
    reveal_strlit("ping");
    reveal_strlit("list-workspaces");
    reveal_strlit("ls");
    reveal_strlit("notifications");
    reveal_strlit("notes");
    reveal_strlit("mark-read");
    reveal_strlit("rename-tab");
    reveal_strlit("rename-workspace");
    reveal_strlit("reorder-tab");
    reveal_strlit("browser");
    reveal_strlit("navigate");
    reveal_strlit("find");
    reveal_strlit("resize");
    reveal_strlit("send");
    let args = seq!["send"@] + rest;
    assert(args[0] == "send"@);
    assert(args.skip(1) =~= rest);
    assert(rest.take(0) =~= Seq::<Seq<char>>::empty());
    lemma_scan_without_pane(rest, 0);
    assert(spec_take_pane(rest) == (None::<PaneId>, rest));
    assert(spec_flagged("send"@, rest) == if join_space(rest).len() == 0 {
        Err::<Option<RequestView>, Seq<char>>("send requires text"@)
    } else {
        Ok(Some(RequestView::Send { pane: None, data: join_space(rest) }))
    });
    assert("send"@[0] != "help"@[0] && "send"@[0] != "ping"@[0] && "send"@[0] != "find"@[0]);
    assert(spec_parse(args) == spec_flagged("send"@, rest));
}
} // verus!
