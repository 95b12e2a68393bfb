//! What the command line prints for a response: the workspace tree, the
//! notification feed, search hits and the one-line answers, and whether the
//! text goes to standard error.

use vstd::prelude::*;
use crate::ids::addressed;
use crate::keys::push_str;
use crate::notification::Notification;
use crate::protocol::{PaneSummary, Response, TabSummary, WorkspaceSummary};
use crate::text::{decimal, push_decimal, text_eq};

verus! {

/// The texts `f` makes of the items of `s`, joined in order.
pub open spec fn joined<A>(s: Seq<A>, f: spec_fn(A) -> Seq<char>) -> Seq<char>
    decreases s.len(),
{
    if s.len() == 0 {
        Seq::empty()
    } else {
        joined(s.drop_last(), f) + f(s.last())
    }
}

proof fn lemma_joined_step<A>(s: Seq<A>, f: spec_fn(A) -> Seq<char>, i: int)
    requires
        0 <= i < s.len(),
    ensures
        joined(s.take(i + 1), f) == joined(s.take(i), f) + f(s[i]),
{
    assert(s.take(i + 1).drop_last() =~= s.take(i));
}

/// `surface:N`.
pub open spec fn pane_name(n: u64) -> Seq<char> {
    addressed(seq!['s', 'u', 'r', 'f', 'a', 'c', 'e', ':'], n)
}

/// The line of a pane: `·` when focused, its ring in brackets unless idle.
pub open spec fn pane_line(p: PaneSummary) -> Seq<char> {
    "    "@ + (if p.focused { "\u{b7}"@ } else { " "@ }) + " "@ + pane_name(p.id.0) + " "@ + p.title@ + (if p.ring@
        == "idle"@ {
        Seq::empty()
    } else {
        " ["@ + p.ring@ + "]"@
    }) + "\n"@
}

/// The lines of a tab: `>` when active, `●` when it rings, then its panes.
pub open spec fn tab_lines(t: TabSummary) -> Seq<char> {
    "  "@ + (if t.active { ">"@ } else { " "@ }) + " "@ + addressed(seq!['t', 'a', 'b', ':'], t.id.0) + " "@
        + t.title@ + (if t.attention { " \u{25cf}"@ } else { Seq::empty() }) + "\n"@ + joined(
        t.panes@,
        |p: PaneSummary| pane_line(p),
    )
}

/// The lines of a workspace: `*` when active, then its tabs.
pub open spec fn workspace_lines(w: WorkspaceSummary) -> Seq<char> {
    (if w.active { "*"@ } else { " "@ }) + " "@ + addressed(
        seq!['w', 'o', 'r', 'k', 's', 'p', 'a', 'c', 'e', ':'],
        w.id.0,
    ) + " "@ + w.title@ + "\n"@ + joined(w.tabs@, |t: TabSummary| tab_lines(t))
}

/// The workspace tree, one line per workspace, tab and pane.
pub open spec fn spec_tree_text(ws: Seq<WorkspaceSummary>) -> Seq<char> {
    joined(ws, |w: WorkspaceSummary| workspace_lines(w))
}

/// The line of a search hit.
pub open spec fn match_line(m: (usize, usize)) -> Seq<char> {
    "  line "@ + decimal(m.0 as nat) + ", col "@ + decimal(m.1 as nat) + "\n"@
}

/// The line of a notification: `•` when unread, its pane, title and body.
pub open spec fn notification_line(n: Notification) -> Seq<char> {
    (if n.read { " "@ } else { "\u{2022}"@ }) + " "@ + pane_name(n.pane.0) + " "@ + n.title@ + " \u{2014} "@
        + n.body@ + "\n"@
}

/// The text printed for `r`, and whether it goes to standard error.
pub open spec fn spec_response_text(r: Response) -> (Seq<char>, bool) {
    match r {
        Response::Done => ("ok\n"@, false),
        Response::Pong => ("pong\n"@, false),
        Response::Created { id } => ("created "@ + decimal(id as nat) + "\n"@, false),
        Response::Snapshot { text } => (text@, false),
        Response::ConfigValue { value } => (value@ + "\n"@, false),
        Response::Error { message } => ("error: "@ + message@ + "\n"@, true),
        Response::Workspaces { workspaces } => (spec_tree_text(workspaces@), false),
        Response::Matches { matches } => (
            decimal(matches@.len()) + " match(es)\n"@ + joined(matches@, |m: (usize, usize)| match_line(m)),
            false,
        ),
        Response::Notifications { notifications } => (
            (if notifications@.len() == 0 {
                "(no notifications)\n"@
            } else {
                Seq::empty()
            }) + joined(notifications@, |n: Notification| notification_line(n)),
            false,
        ),
    }
}

fn push_pane_line(out: &mut String, p: &PaneSummary)
    ensures
        final(out)@ == old(out)@ + pane_line(*p),
{
    push_str(out, "    ");
    push_str(out, if p.focused { "\u{b7}" } else { " " });
    push_str(out, " ");
    push_str(out, p.id.to_string().as_str());
    push_str(out, " ");
    push_str(out, p.title.as_str());
    if !text_eq(p.ring.as_str(), "idle") {
        push_str(out, " [");
        push_str(out, p.ring.as_str());
        push_str(out, "]");
    }
    push_str(out, "\n");
    assert(out@ =~= old(out)@ + pane_line(*p));
}

fn push_tab_lines(out: &mut String, t: &TabSummary)
    ensures
        final(out)@ == old(out)@ + tab_lines(*t),
{
    push_str(out, "  ");
    push_str(out, if t.active { ">" } else { " " });
    push_str(out, " ");
    push_str(out, t.id.to_string().as_str());
    push_str(out, " ");
    push_str(out, t.title.as_str());
    if t.attention {
        push_str(out, " \u{25cf}");
    }
    push_str(out, "\n");
    let ghost head = out@;
    let ghost f = |p: PaneSummary| pane_line(p);
    let mut k: usize = 0;
    while k < t.panes.len()
        invariant
            k <= t.panes@.len(),
            out@ == head + joined(t.panes@.take(k as int), f),
            f == (|p: PaneSummary| pane_line(p)),
        decreases t.panes@.len() - k,
    {
        push_pane_line(out, &t.panes[k]);
        proof {
            lemma_joined_step(t.panes@, f, k as int);
        }
        k = k + 1;
    }
    assert(t.panes@.take(k as int) =~= t.panes@);
    assert(out@ =~= old(out)@ + tab_lines(*t));
}

fn push_workspace_lines(out: &mut String, w: &WorkspaceSummary)
    ensures
        final(out)@ == old(out)@ + workspace_lines(*w),
{
    push_str(out, if w.active { "*" } else { " " });
    push_str(out, " ");
    push_str(out, w.id.to_string().as_str());
    push_str(out, " ");
    push_str(out, w.title.as_str());
    push_str(out, "\n");
    let ghost head = out@;
    let ghost f = |t: TabSummary| tab_lines(t);
    let mut k: usize = 0;
    while k < w.tabs.len()
        invariant
            k <= w.tabs@.len(),
            out@ == head + joined(w.tabs@.take(k as int), f),
            f == (|t: TabSummary| tab_lines(t)),
        decreases w.tabs@.len() - k,
    {
        push_tab_lines(out, &w.tabs[k]);
        proof {
            lemma_joined_step(w.tabs@, f, k as int);
        }
        k = k + 1;
    }
    assert(w.tabs@.take(k as int) =~= w.tabs@);
    assert(out@ =~= old(out)@ + workspace_lines(*w));
}

/// The workspace tree as `list-workspaces` prints it.
pub fn tree_text(workspaces: &[WorkspaceSummary]) -> (s: String)
    ensures
        s@ == spec_tree_text(workspaces@),
{
    let mut out = String::new();
    let ghost f = |w: WorkspaceSummary| workspace_lines(w);
    let mut i: usize = 0;
    while i < workspaces.len()
        invariant
            i <= workspaces@.len(),
            out@ == joined(workspaces@.take(i as int), f),
            f == (|w: WorkspaceSummary| workspace_lines(w)),
        decreases workspaces@.len() - i,
    {
        push_workspace_lines(&mut out, &workspaces[i]);
        proof {
            lemma_joined_step(workspaces@, f, i as int);
        }
        i = i + 1;
    }
    assert(workspaces@.take(i as int) =~= workspaces@);
    out
}

fn push_match_line(out: &mut String, m: (usize, usize))
    ensures
        final(out)@ == old(out)@ + match_line(m),
{
    push_str(out, "  line ");
    push_decimal(out, m.0 as u64);
    push_str(out, ", col ");
    push_decimal(out, m.1 as u64);
    push_str(out, "\n");
    assert(out@ =~= old(out)@ + match_line(m));
}

fn push_notification_line(out: &mut String, n: &Notification)
    ensures
        final(out)@ == old(out)@ + notification_line(*n),
{
    push_str(out, if n.read { " " } else { "\u{2022}" });
    push_str(out, " ");
    push_str(out, n.pane.to_string().as_str());
    push_str(out, " ");
    push_str(out, n.title.as_str());
    push_str(out, " \u{2014} ");
    push_str(out, n.body.as_str());
    push_str(out, "\n");
    assert(out@ =~= old(out)@ + notification_line(*n));
}

/// The text the command line prints for `r`, and whether it goes to
/// standard error (only for an error).
pub fn response_text(r: &Response) -> (o: (String, bool))
    ensures
        (o.0@, o.1) == spec_response_text(*r),
{
    let mut out = String::new();
    match r {
        Response::Done => {
            push_str(&mut out, "ok\n");
            (out, false)
        },
        Response::Pong => {
            push_str(&mut out, "pong\n");
            (out, false)
        },
        Response::Created { id } => {
            push_str(&mut out, "created ");
            push_decimal(&mut out, *id);
            push_str(&mut out, "\n");
            (out, false)
        },
        Response::Snapshot { text } => {
            push_str(&mut out, text.as_str());
            (out, false)
        },
        Response::ConfigValue { value } => {
            push_str(&mut out, value.as_str());
            push_str(&mut out, "\n");
            (out, false)
        },
        Response::Error { message } => {
            push_str(&mut out, "error: ");
            push_str(&mut out, message.as_str());
            push_str(&mut out, "\n");
            (out, true)
        },
        Response::Workspaces { workspaces } => (tree_text(workspaces.as_slice()), false),
        Response::Matches { matches } => {
            push_decimal(&mut out, matches.len() as u64);
            push_str(&mut out, " match(es)\n");
            let ghost head = out@;
            let ghost f = |m: (usize, usize)| match_line(m);
            let mut i: usize = 0;
            while i < matches.len()
                invariant
                    i <= matches@.len(),
                    out@ == head + joined(matches@.take(i as int), f),
                    f == (|m: (usize, usize)| match_line(m)),
                decreases matches@.len() - i,
            {
                push_match_line(&mut out, matches[i]);
                proof {
                    lemma_joined_step(matches@, f, i as int);
                }
                i = i + 1;
            }
            assert(matches@.take(i as int) =~= matches@);
            (out, false)
        },
        Response::Notifications { notifications } => {
            if notifications.len() == 0 {
                push_str(&mut out, "(no notifications)\n");
            }
            let ghost head = out@;
            let ghost f = |n: Notification| notification_line(n);
            let mut i: usize = 0;
            while i < notifications.len()
                invariant
                    i <= notifications@.len(),
                    out@ == head + joined(notifications@.take(i as int), f),
                    f == (|n: Notification| notification_line(n)),
                decreases notifications@.len() - i,
            {
                push_notification_line(&mut out, &notifications[i]);
                proof {
                    lemma_joined_step(notifications@, f, i as int);
                }
                i = i + 1;
            }
            assert(notifications@.take(i as int) =~= notifications@);
            (out, false)
        },
    }
}

} // verus!
