//! What the window's dialogs say and decide: delete confirmations and
//! reports, quick connect requests, the credentials a connection starts
//! with, and the parent-group choices of the new-group dialog.

use vstd::prelude::*;
use vstd::string::StringExecFns;
use vstd::utf8::{encode_utf8, is_char_boundary};
use crate::ids::{id_text, uuid_text};
use crate::ordering::{display_order, sort_keys, sorted_positions};
use crate::strings::{
    blank, dec, is_blank, join_with, joined, push_dec, str_eq, string_views, to_uppercase,
    unicode_uppercase,
};

verus! {

// ---------------------------------------------------------------------------
// Deleting
// ---------------------------------------------------------------------------

/// The kind word of a tree item.
pub open spec fn item_kind(is_group: bool) -> Seq<char> {
    if is_group {
        "group"@
    } else {
        "connection"@
    }
}

/// The question asked before deleting one item.
pub open spec fn delete_detail(name: Seq<char>, is_group: bool, connection_count: nat) -> Seq<char> {
    if is_group {
        if connection_count > 0 {
            "Are you sure you want to delete the group '"@ + name + "'?\n\nThis will also delete "@
                + dec(connection_count) + " connection(s) in this group."@
        } else {
            "Are you sure you want to delete the empty group '"@ + name + "'?"@
        }
    } else {
        "Are you sure you want to delete the connection '"@ + name + "'?"@
    }
}

/// The title and question of the confirmation before deleting one item; a
/// group also names the connections deleted with it.
pub fn delete_confirmation(name: &str, is_group: bool, connection_count: u64) -> (r: (
    String,
    String,
))
    ensures
        r.0@ == "Delete "@ + item_kind(is_group) + "?"@,
        r.1@ == delete_detail(name@, is_group, connection_count as nat),
{
    let mut title = String::from_str("Delete ");
    if is_group {
        title.append("group");
    } else {
        title.append("connection");
    }
    title.append("?");
    proof {
        reveal_strlit("Delete ");
    }
    let detail = if is_group {
        if connection_count > 0 {
            let mut d = String::from_str("Are you sure you want to delete the group '");
            d.append(name);
            d.append("'?\n\nThis will also delete ");
            push_dec(&mut d, connection_count);
            d.append(" connection(s) in this group.");
            d
        } else {
            let mut d = String::from_str("Are you sure you want to delete the empty group '");
            d.append(name);
            d.append("'?");
            d
        }
    } else {
        let mut d = String::from_str("Are you sure you want to delete the connection '");
        d.append(name);
        d.append("'?");
        d
    };
    (title, detail)
}

/// A line of the list of items about to be deleted.
pub fn selected_item_line(name: &str, is_group: bool) -> (line: String)
    ensures
        line@ == "\u{2022} "@ + name@ + " ("@ + item_kind(is_group) + ")"@,
{
    let mut line = String::from_str("\u{2022} ");
    line.append(name);
    line.append(" (");
    if is_group {
        line.append("group");
    } else {
        line.append("connection");
    }
    line.append(")");
    line
}

/// How many items a bulk delete removes: connections alone, groups alone,
/// or both (no groups reads as connections).
pub open spec fn deletion_summary_text(connections: nat, groups: nat) -> Seq<char> {
    if groups == 0 {
        dec(connections) + " connection(s)"@
    } else if connections == 0 {
        dec(groups) + " group(s)"@
    } else {
        dec(connections) + " connection(s) and "@ + dec(groups) + " group(s)"@
    }
}

/// Summarizes the items a bulk delete removes (see
/// `deletion_summary_text`).
pub fn deletion_summary(connections: u64, groups: u64) -> (s: String)
    ensures
        s@ == deletion_summary_text(connections as nat, groups as nat),
{
    let mut s = String::new();
    if groups == 0 {
        push_dec(&mut s, connections);
        s.append(" connection(s)");
    } else if connections == 0 {
        push_dec(&mut s, groups);
        s.append(" group(s)");
    } else {
        push_dec(&mut s, connections);
        s.append(" connection(s) and ");
        push_dec(&mut s, groups);
        s.append(" group(s)");
    }
    proof {
        assert(Seq::<char>::empty() + dec(connections as nat) =~= dec(connections as nat));
        assert(Seq::<char>::empty() + dec(groups as nat) =~= dec(groups as nat));
    }
    s
}

/// A failure line of a bulk delete: the item's identifier and the error.
pub fn failure_line(id: u128, error: &str) -> (line: String)
    ensures
        line@ == uuid_text(id) + ": "@ + error@,
{
    let mut line = id_text(id);
    line.append(": ");
    line.append(error);
    line
}

/// The title and text reporting a bulk delete: how many items went, and
/// the failures, one per line, when there were any.
pub fn deletion_report(success_count: u64, failures: &Vec<String>) -> (r: (String, String))
    ensures
        failures@.len() == 0 ==> r.0@ == "Deletion Complete"@ && r.1@ == "Successfully deleted "@
            + dec(success_count as nat) + " item(s)."@,
        failures@.len() > 0 ==> r.0@ == "Deletion Partially Complete"@ && r.1@ == "Deleted "@
            + dec(success_count as nat) + " item(s).\n\nFailed to delete "@ + dec(
            failures@.len() as nat,
        ) + " item(s):\n"@ + joined(string_views(failures@), "\n"@),
{
    if failures.len() == 0 {
        let title = String::from_str("Deletion Complete");
        let mut text = String::from_str("Successfully deleted ");
        push_dec(&mut text, success_count);
        text.append(" item(s).");
        (title, text)
    } else {
        let title = String::from_str("Deletion Partially Complete");
        let mut text = String::from_str("Deleted ");
        push_dec(&mut text, success_count);
        text.append(" item(s).\n\nFailed to delete ");
        push_dec(&mut text, failures.len() as u64);
        text.append(" item(s):\n");
        let lines = join_with(failures, "\n");
        text.append(lines.as_str());
        (title, text)
    }
}

// ---------------------------------------------------------------------------
// Quick connect
// ---------------------------------------------------------------------------

/// The protocol of a quick connect choice: RDP, VNC, and SSH for the first
/// and any other choice.
pub open spec fn quick_protocol(index: u32) -> Seq<char> {
    if index == 1 {
        "rdp"@
    } else if index == 2 {
        "vnc"@
    } else {
        "ssh"@
    }
}

/// The port a quick connect choice suggests: 3389 for RDP, 5900 for VNC,
/// 22 for SSH.
pub fn quick_connect_default_port(protocol_index: u32) -> (port: u16)
    ensures
        port == if protocol_index == 1 {
            3389u16
        } else if protocol_index == 2 {
            5900u16
        } else {
            22u16
        },
{
    if protocol_index == 1 {
        3389
    } else if protocol_index == 2 {
        5900
    } else {
        22
    }
}

/// The port field after the protocol changes: it follows the protocol
/// unless it was edited by hand since the last change.
pub fn quick_connect_port_update(manually_changed: bool, protocol_index: u32) -> (port: Option<u16>)
    ensures
        port == if manually_changed {
            None
        } else {
            Some(
                if protocol_index == 1 {
                    3389u16
                } else if protocol_index == 2 {
                    5900u16
                } else {
                    22u16
                },
            )
        },
{
    if manually_changed {
        None
    } else {
        Some(quick_connect_default_port(protocol_index))
    }
}

/// A quick connection to open.
pub struct QuickConnect {
    /// Tab title: `Quick: <host>`
    pub title: String,
    /// Protocol name
    pub protocol: &'static str,
    /// User name, when one was given
    pub username: Option<String>,
    /// Whether an SSH client is started in the tab
    pub spawn_ssh: bool,
}

/// What the quick connect button does: nothing for a blank host; otherwise
/// a tab titled `Quick: <host>` with the chosen protocol, the user name when
/// it is not blank, and an SSH client for SSH.
pub fn quick_connect_request(host: &str, username: &str, protocol_index: u32) -> (q: Option<
    QuickConnect,
>)
    ensures
        q is None <==> blank(host@),
        q is Some ==> {
            let r = q->0;
            &&& r.title@ == "Quick: "@ + host@
            &&& r.protocol@ == quick_protocol(protocol_index)
            &&& r.spawn_ssh == (protocol_index != 1 && protocol_index != 2)
            &&& match r.username {
                Some(u) => !blank(username@) && u@ == username@,
                None => blank(username@),
            }
        },
{
    if is_blank(host) {
        return None;
    }
    let mut title = String::from_str("Quick: ");
    title.append(host);
    let protocol: &'static str = if protocol_index == 1 {
        "rdp"
    } else if protocol_index == 2 {
        "vnc"
    } else {
        "ssh"
    };
    let user = if is_blank(username) {
        None
    } else {
        Some(username.to_string())
    };
    Some(
        QuickConnect {
            title,
            protocol,
            username: user,
            spawn_ssh: protocol_index != 1 && protocol_index != 2,
        },
    )
}

// ---------------------------------------------------------------------------
// Starting a connection
// ---------------------------------------------------------------------------

/// How a connection is started once its credentials are looked up.
pub enum StartPlan {
    /// Open an RDP session with these credentials
    Rdp { username: String, password: String, domain: String },
    /// Ask for the RDP password first
    RdpPasswordDialog,
    /// Start the session (SSH, VNC, SPICE); cache the looked-up user and
    /// password first when both were found
    Start { cache: Option<(String, String)> },
}

/// Decides how a connection starts: RDP uses the looked-up user and
/// password when both were found, else the cached credentials, else asks;
/// other protocols start at once, caching a looked-up user and password.
pub fn plan_connection_start(
    is_rdp: bool,
    resolved: Option<(Option<String>, Option<String>)>,
    cached: Option<(String, String, String)>,
) -> (plan: StartPlan)
    ensures
        ({
            let full = match resolved {
                Some((Some(u), Some(p))) => Some((u@, p@)),
                _ => None,
            };
            if is_rdp {
                match full {
                    Some((u, p)) => plan matches StartPlan::Rdp { username, password, domain }
                        && username@ == u && password@ == p && domain@.len() == 0,
                    None => match cached {
                        Some((cu, cp, cd)) => plan matches StartPlan::Rdp {
                            username,
                            password,
                            domain,
                        } && username@ == cu@ && password@ == cp@ && domain@ == cd@,
                        None => plan is RdpPasswordDialog,
                    },
                }
            } else {
                match full {
                    Some((u, p)) => plan matches StartPlan::Start { cache: Some((cu, cp)) } && cu@
                        == u && cp@ == p,
                    None => plan matches StartPlan::Start { cache: None },
                }
            }
        }),
{
    let full: Option<(String, String)> = match resolved {
        Some((Some(u), Some(p))) => Some((u, p)),
        _ => None,
    };
    if is_rdp {
        match full {
            Some((u, p)) => StartPlan::Rdp { username: u, password: p, domain: String::new() },
            None => match cached {
                Some((u, p, d)) => StartPlan::Rdp { username: u, password: p, domain: d },
                None => StartPlan::RdpPasswordDialog,
            },
        }
    } else {
        StartPlan::Start { cache: full }
    }
}

// ---------------------------------------------------------------------------
// Parent group choices
// ---------------------------------------------------------------------------

/// Groups as (identifier, path).
pub open spec fn group_entries(groups: Seq<(u128, String)>) -> Seq<(u128, Seq<char>)> {
    groups.map_values(|g: (u128, String)| (g.0, g.1@))
}

/// The sort items of groups: all of sort order 0, named by path.
pub open spec fn path_items(groups: Seq<(u128, Seq<char>)>) -> Seq<(i32, Seq<char>)> {
    groups.map_values(|g: (u128, Seq<char>)| (0i32, g.1))
}

/// The choices of the parent-group list: first the root level, then the
/// groups (identifier, path) by lower-cased path, ties in the given order.
pub open spec fn parent_choices(groups: Seq<(u128, Seq<char>)>) -> Seq<(Option<u128>, Seq<char>)> {
    let order = display_order(
        sort_keys(path_items(groups)),
        groups.len(),
    );
    seq![(None::<u128>, "(None - Root Level)"@)] + order.map_values(
        |p: int| (Some(groups[p].0), groups[p].1),
    )
}

/// The choice selected at first: the last one for the preselected parent,
/// or the root level.
pub open spec fn preselected_choice(choices: Seq<(Option<u128>, Seq<char>)>, parent: Option<u128>) -> int
    decreases choices.len(),
{
    if choices.len() <= 1 {
        0
    } else if parent is Some && choices.last().0 == parent {
        choices.len() - 1
    } else {
        preselected_choice(choices.drop_last(), parent)
    }
}

/// Builds the parent-group choices (see `parent_choices`) and the one
/// selected at first (see `preselected_choice`).
pub fn parent_group_choices(groups: &Vec<(u128, String)>, preselected: Option<u128>) -> (r: (
    Vec<Option<u128>>,
    Vec<String>,
    usize,
))
    ensures
        r.0@.len() == r.1@.len(),
        r.0@.len() == groups@.len() + 1,
        forall|k: int|
            0 <= k < r.0@.len() ==> (r.0@[k], r.1@[k]@) == #[trigger] parent_choices(
                group_entries(groups@),
            )[k],
        r.2 == preselected_choice(
            parent_choices(group_entries(groups@)),
            preselected,
        ),
{
    let ghost gv = group_entries(groups@);
    let ghost choices = parent_choices(gv);
    let mut keyed: Vec<(i32, String)> = Vec::new();
    let mut k: usize = 0;
    while k < groups.len()
        invariant
            k <= groups@.len(),
            gv == group_entries(groups@),
            keyed@.map_values(|it: (i32, String)| (it.0, it.1@)) == path_items(gv.take(k as int)),
        decreases groups@.len() - k,
    {
        let ghost before = keyed@;
        keyed.push((0, groups[k].1.clone()));
        proof {
            assert(gv[k as int] == (groups@[k as int].0, groups@[k as int].1@));
            assert(gv.take(k + 1) =~= gv.take(k as int).push(gv[k as int]));
            assert(path_items(gv.take(k + 1)) =~= path_items(gv.take(k as int)).push(
                (0i32, gv[k as int].1),
            ));
            assert(keyed@.map_values(|it: (i32, String)| (it.0, it.1@)) =~= before.map_values(
                |it: (i32, String)| (it.0, it.1@),
            ).push((0i32, groups@[k as int].1@)));
            assert(keyed@.map_values(|it: (i32, String)| (it.0, it.1@)) =~= path_items(gv.take(k + 1)));
        }
        k += 1;
    }
    proof {
        assert(gv.take(groups@.len() as int) =~= gv);
    }
    let order = sorted_positions(&keyed);
    let ghost ord = order@.map_values(|p: usize| p as int);
    proof {
        crate::ordering::display_order_is_sorted(
            sort_keys(path_items(gv)),
            groups@.len() as nat,
        );
        assert forall|j: int| 0 <= j < order@.len() implies 0 <= #[trigger] order@[j]
            < groups@.len() by {
            assert(ord[j] == order@[j] as int);
        }
    }
    let mut ids: Vec<Option<u128>> = Vec::new();
    let mut labels: Vec<String> = Vec::new();
    ids.push(None);
    labels.push(String::from_str("(None - Root Level)"));
    let mut selected: usize = 0;
    let mut i: usize = 0;
    while i < order.len()
        invariant
            i <= order@.len(),
            order@.len() == groups@.len(),
            ord == order@.map_values(|p: usize| p as int),
            choices == parent_choices(gv),
            gv == group_entries(groups@),
            forall|j: int| 0 <= j < order@.len() ==> 0 <= #[trigger] order@[j] < groups@.len(),
            ord == display_order(
                sort_keys(path_items(gv)),
                groups@.len() as nat,
            ),
            ids@.len() == i + 1,
            labels@.len() == i + 1,
            forall|j: int| 0 <= j <= i ==> (ids@[j], labels@[j]@) == #[trigger] choices[j],
            selected == preselected_choice(choices.take(i + 1), preselected),
        decreases order@.len() - i,
    {
        let p = order[i];
        proof {
            assert(ord[i as int] == p as int);
            assert(choices[i + 1] == (Some(gv[p as int].0), gv[p as int].1));
        }
        ids.push(Some(groups[p].0));
        labels.push(groups[p].1.clone());
        proof {
            assert(choices.take(i + 2).drop_last() =~= choices.take(i + 1));
            assert(choices.take(i + 2).last() == choices[i + 1]);
        }
        if preselected.is_some() && preselected == Some(groups[p].0) {
            selected = i + 1;
        }
        i += 1;
    }
    proof {
        assert(choices.len() == groups@.len() + 1);
        assert(choices.take(i + 1) =~= choices);
    }
    (ids, labels, selected)
}

// ---------------------------------------------------------------------------
// Snippets
// ---------------------------------------------------------------------------

/// The one-line preview of a snippet's command: the command itself when it
/// has at most 50 bytes, otherwise its first 50 bytes (which must end a
/// character) followed by `...`.
pub fn command_preview(command: &str) -> (p: String)
    requires
        command.len() > 50 ==> is_char_boundary(encode_utf8(command@), 50),
    ensures
        command.len() <= 50 ==> p@ == command@,
        command.len() > 50 ==> {
            &&& p@.len() >= 3
            &&& encode_utf8(p@.take(p@.len() - 3)) == encode_utf8(command@).take(50)
            &&& p@.skip(p@.len() - 3) == "..."@
        },
{
    if command.len() > 50 {
        let (head, _tail) = command.split_at(50);
        let mut p = head.to_string();
        p.append("...");
        proof {
            reveal_strlit("...");
            assert(p@.take(p@.len() - 3) =~= head@);
            assert(p@.skip(p@.len() - 3) =~= "..."@);
        }
        p
    } else {
        command.to_string()
    }
}

// ---------------------------------------------------------------------------
// Sessions manager
// ---------------------------------------------------------------------------

/// The count line of the sessions manager.
pub fn session_count_text(ui_sessions: u64, tracked_sessions: u64) -> (s: String)
    ensures
        s@ == dec(ui_sessions as nat) + " UI session(s), "@ + dec(tracked_sessions as nat)
            + " tracked session(s)"@,
{
    let mut s = String::new();
    push_dec(&mut s, ui_sessions);
    s.append(" UI session(s), ");
    push_dec(&mut s, tracked_sessions);
    s.append(" tracked session(s)");
    proof {
        assert(Seq::<char>::empty() + dec(ui_sessions as nat) =~= dec(ui_sessions as nat));
    }
    s
}

/// The icon of a session row: a terminal for SSH and local shells, a
/// computer for RDP, a display for VNC, a server otherwise.
pub open spec fn session_row_icon_name(protocol: Seq<char>) -> Seq<char> {
    if protocol == "ssh"@ || protocol == "local"@ {
        "utilities-terminal-symbolic"@
    } else if protocol == "rdp"@ {
        "computer-symbolic"@
    } else if protocol == "vnc"@ {
        "video-display-symbolic"@
    } else {
        "network-server-symbolic"@
    }
}

/// Picks the icon of a session row (see `session_row_icon_name`).
pub fn session_row_icon(protocol: &str) -> (icon: &'static str)
    ensures
        icon@ == session_row_icon_name(protocol@),
{
    if str_eq(protocol, "ssh") || str_eq(protocol, "local") {
        "utilities-terminal-symbolic"
    } else if str_eq(protocol, "rdp") {
        "computer-symbolic"
    } else if str_eq(protocol, "vnc") {
        "video-display-symbolic"
    } else {
        "network-server-symbolic"
    }
}

/// The connection line of a session row: the protocol in capitals for a
/// quick connection, `host (PROTOCOL)` for a saved one that still exists,
/// nothing otherwise (`host` is `None` when the connection is gone).
pub fn session_connection_info(is_quick: bool, host: Option<&str>, protocol: &str) -> (info: Option<
    String,
>)
    ensures
        is_quick ==> info is Some && info->0@ == unicode_uppercase(protocol@),
        !is_quick ==> match host {
            Some(h) => info is Some && info->0@ == h@ + " ("@ + unicode_uppercase(protocol@)
                + ")"@,
            None => info is None,
        },
{
    if is_quick {
        return Some(to_uppercase(protocol));
    }
    match host {
        Some(h) => {
            let mut s = h.to_string();
            s.append(" (");
            let upper = to_uppercase(protocol);
            s.append(upper.as_str());
            s.append(")");
            Some(s)
        },
        None => None,
    }
}

} // verus!
