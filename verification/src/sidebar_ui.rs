//! Presentation helpers of the sidebar: protocol icons and the context menu.

use vstd::prelude::*;
use crate::strings::strip_prefix;
use crate::terminal::tabs::{plain_icon, plain_protocol_icon, zerotrust_icon, zerotrust_provider_icon};

verus! {

/// The icon of a connection's protocol in the tree: `zerotrust:provider`
/// picks the provider's icon; other names are matched exactly.
pub open spec fn sidebar_protocol_icon(protocol: Seq<char>) -> Seq<char> {
    if "zerotrust:"@.is_prefix_of(protocol) {
        zerotrust_icon(protocol.skip(10))
    } else {
        plain_protocol_icon(protocol)
    }
}

/// Returns the icon name for a protocol string (see `sidebar_protocol_icon`).
pub fn get_protocol_icon(protocol: &str) -> (icon: &'static str)
    ensures
        icon@ == sidebar_protocol_icon(protocol@),
{
    proof {
        reveal_strlit("zerotrust:");
    }
    match strip_prefix(protocol, "zerotrust:") {
        Some(provider) => zerotrust_provider_icon(provider),
        None => plain_icon(protocol),
    }
}

/// The entries of a tree item's context menu: label and window action.
/// A connection offers Connect, Edit, View Details, Duplicate, Move to
/// Group... and Delete; a group offers Edit and Delete.
pub open spec fn item_menu(is_group: bool) -> Seq<(Seq<char>, Seq<char>)> {
    if is_group {
        seq![("Edit"@, "edit-connection"@), ("Delete"@, "delete-connection"@)]
    } else {
        seq![
            ("Connect"@, "connect"@),
            ("Edit"@, "edit-connection"@),
            ("View Details"@, "view-details"@),
            ("Duplicate"@, "duplicate-connection"@),
            ("Move to Group..."@, "move-to-group"@),
            ("Delete"@, "delete-connection"@),
        ]
    }
}

/// The context menu entries of a tree item (see `item_menu`).
pub fn item_menu_entries(is_group: bool) -> (entries: Vec<(&'static str, &'static str)>)
    ensures
        entries@.map_values(|e: (&'static str, &'static str)| (e.0@, e.1@)) == item_menu(is_group),
{
    let mut entries: Vec<(&'static str, &'static str)> = Vec::new();
    if !is_group {
        entries.push(("Connect", "connect"));
    }
    entries.push(("Edit", "edit-connection"));
    if !is_group {
        entries.push(("View Details", "view-details"));
        entries.push(("Duplicate", "duplicate-connection"));
        entries.push(("Move to Group...", "move-to-group"));
    }
    entries.push(("Delete", "delete-connection"));
    proof {
        assert(entries@.map_values(|e: (&'static str, &'static str)| (e.0@, e.1@)) =~= item_menu(
            is_group,
        ));
    }
    entries
}

} // verus!
