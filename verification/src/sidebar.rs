//! The connection sidebar's state: per-connection session status and
//! counts, search history, protocol quick filters, the persisted selection,
//! and how each tree item presents itself.
//!
//! The tree widgets live with the interface; this module holds the state they
//! show and the decisions about it.

use vstd::prelude::*;
use vstd::string::StringExecFns;
use crate::ids::{id_text, parse_id, uuid_parse, uuid_text};
use crate::seqs::{first_index, lemma_first_index};
use crate::strings::{is_blank, blank, string_views, str_eq, split_on, lemma_split_on_join, lemma_split_on_single};
use crate::sidebar_ui::{get_protocol_icon, sidebar_protocol_icon};
use crate::sidebar_tree::{
    document_holders, document_keys, document_row, find_item_in_children, find_last_group,
    group_row, conn_row, home_members, items_status_set_from, lemma_home_members_step,
    update_item_status_recursive,
};

verus! {

/// Maximum number of remembered searches.
pub const MAX_SEARCH_HISTORY: usize = 20;

/// Status and number of open sessions of one connection.
pub struct SessionStatusInfo {
    /// Status shown in the tree: `connected`, `connecting`, `failed`,
    /// `disconnected`, or another text set by the caller
    pub status: String,
    /// Number of open sessions of the connection
    pub active_count: usize,
}

/// A protocol quick filter. The variants are in the byte order of their
/// names.
#[derive(Debug, Clone, Copy, PartialEq, Eq, Structural)]
pub enum ProtocolFilter {
    /// RDP connections
    Rdp,
    /// SPICE connections
    Spice,
    /// SSH connections
    Ssh,
    /// VNC connections
    Vnc,
    /// Zero-trust connections
    ZeroTrust,
}

/// The position of a filter in name order.
pub open spec fn filter_index(f: ProtocolFilter) -> int {
    match f {
        ProtocolFilter::Rdp => 0,
        ProtocolFilter::Spice => 1,
        ProtocolFilter::Ssh => 2,
        ProtocolFilter::Vnc => 3,
        ProtocolFilter::ZeroTrust => 4,
    }
}

/// The filter at a position in name order.
pub open spec fn filter_at(i: int) -> ProtocolFilter {
    if i == 0 {
        ProtocolFilter::Rdp
    } else if i == 1 {
        ProtocolFilter::Spice
    } else if i == 2 {
        ProtocolFilter::Ssh
    } else if i == 3 {
        ProtocolFilter::Vnc
    } else {
        ProtocolFilter::ZeroTrust
    }
}

/// The button name of a filter.
pub open spec fn filter_name(f: ProtocolFilter) -> Seq<char> {
    match f {
        ProtocolFilter::Rdp => "RDP"@,
        ProtocolFilter::Spice => "SPICE"@,
        ProtocolFilter::Ssh => "SSH"@,
        ProtocolFilter::Vnc => "VNC"@,
        ProtocolFilter::ZeroTrust => "ZeroTrust"@,
    }
}

/// The lower-case name of a filter, as the search syntax writes it.
pub open spec fn filter_search_name(f: ProtocolFilter) -> Seq<char> {
    match f {
        ProtocolFilter::Rdp => "rdp"@,
        ProtocolFilter::Spice => "spice"@,
        ProtocolFilter::Ssh => "ssh"@,
        ProtocolFilter::Vnc => "vnc"@,
        ProtocolFilter::ZeroTrust => "zerotrust"@,
    }
}

impl ProtocolFilter {
    /// The button name of the filter.
    pub fn name(self) -> (n: &'static str)
        ensures
            n@ == filter_name(self),
    {
        match self {
            ProtocolFilter::Rdp => "RDP",
            ProtocolFilter::Spice => "SPICE",
            ProtocolFilter::Ssh => "SSH",
            ProtocolFilter::Vnc => "VNC",
            ProtocolFilter::ZeroTrust => "ZeroTrust",
        }
    }

    fn search_name(self) -> (n: &'static str)
        ensures
            n@ == filter_search_name(self),
    {
        match self {
            ProtocolFilter::Rdp => "rdp",
            ProtocolFilter::Spice => "spice",
            ProtocolFilter::Ssh => "ssh",
            ProtocolFilter::Vnc => "vnc",
            ProtocolFilter::ZeroTrust => "zerotrust",
        }
    }

    fn at(i: usize) -> (f: ProtocolFilter)
        requires
            i < 5,
        ensures
            f == filter_at(i as int),
            filter_index(f) == i,
    {
        if i == 0 {
            ProtocolFilter::Rdp
        } else if i == 1 {
            ProtocolFilter::Spice
        } else if i == 2 {
            ProtocolFilter::Ssh
        } else if i == 3 {
            ProtocolFilter::Vnc
        } else {
            ProtocolFilter::ZeroTrust
        }
    }

    fn index(self) -> (i: usize)
        ensures
            i == filter_index(self),
            i < 5,
            filter_at(i as int) == self,
    {
        match self {
            ProtocolFilter::Rdp => 0,
            ProtocolFilter::Spice => 1,
            ProtocolFilter::Ssh => 2,
            ProtocolFilter::Vnc => 3,
            ProtocolFilter::ZeroTrust => 4,
        }
    }
}

/// The active filters, in name order.
pub open spec fn active_filters(active: Seq<bool>) -> Seq<ProtocolFilter>
    decreases active.len(),
{
    if active.len() == 0 {
        Seq::empty()
    } else if active.last() {
        active_filters(active.drop_last()).push(filter_at(active.len() - 1))
    } else {
        active_filters(active.drop_last())
    }
}

/// `protocols:` followed by the names of `filters` joined by commas.
pub open spec fn joined_names(filters: Seq<ProtocolFilter>) -> Seq<char>
    decreases filters.len(),
{
    if filters.len() == 0 {
        Seq::empty()
    } else if filters.len() == 1 {
        filter_name(filters[0])
    } else {
        joined_names(filters.drop_last()) + ","@ + filter_name(filters.last())
    }
}

/// The search text for a set of active filters: empty without filters,
/// `protocol:<name>` (lower case) for one, and `protocols:` with the names
/// in sorted order, comma-separated, for several.
pub open spec fn filter_query(filters: Seq<ProtocolFilter>) -> Seq<char> {
    if filters.len() == 0 {
        Seq::empty()
    } else if filters.len() == 1 {
        "protocol:"@ + filter_search_name(filters[0])
    } else {
        "protocols:"@ + joined_names(filters)
    }
}

/// The history after searching for `query`: the query first, then the
/// earlier searches without it, at most `MAX_SEARCH_HISTORY` in all.
pub open spec fn history_after(history: Seq<Seq<char>>, query: Seq<char>) -> Seq<Seq<char>> {
    let moved = seq![query] + history.filter(differs_from(query));
    if moved.len() > 20 {
        moved.take(20)
    } else {
        moved
    }
}

/// The test that keeps every search other than `query`.
pub open spec fn differs_from(query: Seq<char>) -> spec_fn(Seq<char>) -> bool {
    |q: Seq<char>| q != query
}

/// Equality of two texts (named for use in proofs).
pub open spec fn str_eq_spec(a: Seq<char>, b: Seq<char>) -> bool {
    a == b
}

/// The keys of the status table.
pub open spec fn status_keys(entries: Seq<(String, SessionStatusInfo)>) -> Seq<Seq<char>> {
    entries.map_values(|e: (String, SessionStatusInfo)| e.0@)
}

/// The status and session count recorded for `id`, if any.
pub open spec fn status_of(entries: Seq<(String, SessionStatusInfo)>, id: Seq<char>) -> Option<
    (Seq<char>, nat),
> {
    let i = first_index(status_keys(entries), id);
    if i >= 0 {
        Some((entries[i].1.status@, entries[i].1.active_count as nat))
    } else {
        None
    }
}


/// What the search entry does when its text changes.
#[derive(Debug, Clone, Copy, PartialEq, Eq, Structural)]
pub enum SearchChange {
    /// The change was made by the sidebar itself: nothing to do
    Ignore,
    /// `?` was typed: clear the text and show the syntax help
    ShowHelp,
    /// The text was cleared while filters were active: the filters were cleared
    FiltersCleared,
    /// Nothing to do here
    Nothing,
}

/// A key the tree view reacts to.
#[derive(Debug, Clone, Copy, PartialEq, Eq, Structural)]
pub enum SidebarKey {
    /// Return
    Return,
    /// Enter on the keypad
    KeypadEnter,
    /// Delete
    Delete,
    /// `a` or `A`
    A,
    /// Escape
    Escape,
    /// Any other key
    Other,
}

/// What a key press in the tree view does.
#[derive(Debug, Clone, Copy, PartialEq, Eq, Structural)]
pub enum KeyOutcome {
    /// Consume the key (activation is handled by the view itself)
    Stop,
    /// Select every item, consuming the key
    SelectAll,
    /// Clear the selection, consuming the key
    ClearSelection,
    /// Let the key through
    Proceed,
}

/// Decides what a key press in the tree view does.
pub fn key_outcome(key: SidebarKey, control: bool, is_multi_mode: bool) -> (o: KeyOutcome)
    ensures
        o == match key {
            SidebarKey::Return | SidebarKey::KeypadEnter => KeyOutcome::Stop,
            SidebarKey::A => if control && is_multi_mode {
                KeyOutcome::SelectAll
            } else {
                KeyOutcome::Proceed
            },
            SidebarKey::Escape => if is_multi_mode {
                KeyOutcome::ClearSelection
            } else {
                KeyOutcome::Proceed
            },
            SidebarKey::Delete | SidebarKey::Other => KeyOutcome::Proceed,
        },
{
    match key {
        SidebarKey::Return | SidebarKey::KeypadEnter => KeyOutcome::Stop,
        SidebarKey::Delete => KeyOutcome::Proceed,
        SidebarKey::A => if control && is_multi_mode {
            KeyOutcome::SelectAll
        } else {
            KeyOutcome::Proceed
        },
        SidebarKey::Escape => if is_multi_mode {
            KeyOutcome::ClearSelection
        } else {
            KeyOutcome::Proceed
        },
        SidebarKey::Other => KeyOutcome::Proceed,
    }
}

/// Whether the search entry opens the history list on a key press: the
/// Down key on an empty entry.
pub fn opens_history(is_down_key: bool, entry_text: &str) -> (b: bool)
    ensures
        b == (is_down_key && entry_text@.len() == 0),
{
    is_down_key && entry_text.is_empty()
}

/// A connection, group or document in the tree.
pub struct ConnectionItem {
    /// Identifier text
    pub id: String,
    /// Display name
    pub name: String,
    /// Protocol name (empty for groups and documents)
    pub protocol: String,
    /// Whether the item is a group
    pub is_group: bool,
    /// Whether the item is a document
    pub is_document: bool,
    /// Whether the document has unsaved changes
    pub is_dirty: bool,
    /// Host name (empty for groups and documents)
    pub host: String,
    /// Session status text
    pub status: String,
    /// The items below a group or document; `None` for a connection
    pub children: Option<Vec<ConnectionItem>>,
}

impl ConnectionItem {
    /// Creates a connection item, `disconnected`.
    pub fn new_connection(id: &str, name: &str, protocol: &str, host: &str) -> (item: Self)
        ensures
            item.id@ == id@ && item.name@ == name@ && item.protocol@ == protocol@ && item.host@
                == host@,
            !item.is_group && !item.is_document && !item.is_dirty,
            item.status@ == "disconnected"@,
            item.children is None,
    {
        ConnectionItem {
            id: id.to_owned(),
            name: name.to_owned(),
            protocol: protocol.to_owned(),
            is_group: false,
            is_document: false,
            is_dirty: false,
            host: host.to_owned(),
            status: "disconnected".to_owned(),
            children: None,
        }
    }

    /// Creates a connection item with a given status.
    pub fn new_connection_with_status(
        id: &str,
        name: &str,
        protocol: &str,
        host: &str,
        status: &str,
    ) -> (item: Self)
        ensures
            item.id@ == id@ && item.name@ == name@ && item.protocol@ == protocol@ && item.host@
                == host@,
            !item.is_group && !item.is_document && !item.is_dirty,
            item.status@ == status@,
            item.children is None,
    {
        ConnectionItem {
            id: id.to_owned(),
            name: name.to_owned(),
            protocol: protocol.to_owned(),
            is_group: false,
            is_document: false,
            is_dirty: false,
            host: host.to_owned(),
            status: status.to_owned(),
            children: None,
        }
    }

    /// Creates a group item.
    pub fn new_group(id: &str, name: &str) -> (item: Self)
        ensures
            item.id@ == id@ && item.name@ == name@,
            item.protocol@.len() == 0 && item.host@.len() == 0 && item.status@.len() == 0,
            item.is_group && !item.is_document && !item.is_dirty,
            item.children matches Some(c) && c@.len() == 0,
    {
        ConnectionItem {
            id: id.to_owned(),
            name: name.to_owned(),
            protocol: String::new(),
            is_group: true,
            is_document: false,
            is_dirty: false,
            host: String::new(),
            status: String::new(),
            children: Some(Vec::new()),
        }
    }

    /// Creates a document item.
    pub fn new_document(id: &str, name: &str, is_dirty: bool) -> (item: Self)
        ensures
            item.id@ == id@ && item.name@ == name@,
            item.protocol@.len() == 0 && item.host@.len() == 0 && item.status@.len() == 0,
            !item.is_group && item.is_document && item.is_dirty == is_dirty,
            item.children matches Some(c) && c@.len() == 0,
    {
        ConnectionItem {
            id: id.to_owned(),
            name: name.to_owned(),
            protocol: String::new(),
            is_group: false,
            is_document: true,
            is_dirty,
            host: String::new(),
            status: String::new(),
            children: Some(Vec::new()),
        }
    }

    /// Sets the dirty flag.
    pub fn set_dirty(&mut self, dirty: bool)
        ensures
            final(self).is_dirty == dirty,
            final(self).id == old(self).id && final(self).name == old(self).name,
            final(self).is_group == old(self).is_group && final(self).is_document == old(self).is_document,
            final(self).protocol == old(self).protocol && final(self).host == old(self).host
                && final(self).status == old(self).status,
            final(self).children == old(self).children,
    {
        self.is_dirty = dirty;
    }

    /// The items below a group or document; `None` for a connection.
    pub fn children(&self) -> (c: Option<&Vec<ConnectionItem>>)
        ensures
            match c {
                Some(v) => self.children == Some(*v),
                None => self.children is None,
            },
    {
        match &self.children {
            Some(v) => Some(v),
            None => None,
        }
    }

    /// Appends a child to a group or document; a connection, which has no
    /// children, is left as it is.
    pub fn add_child(&mut self, child: ConnectionItem)
        ensures
            final(self).id == old(self).id && final(self).name == old(self).name,
            final(self).is_group == old(self).is_group && final(self).is_document == old(self).is_document,
            final(self).protocol == old(self).protocol && final(self).host == old(self).host
                && final(self).status == old(self).status && final(self).is_dirty == old(self).is_dirty,
            match old(self).children {
                Some(c) => final(self).children matches Some(d) && d@ == c@.push(child),
                None => final(self).children is None,
            },
    {
        match &mut self.children {
            Some(c) => c.push(child),
            None => {},
        }
    }
}

impl Default for ConnectionItem {
    /// An unnamed, disconnected SSH connection with empty identifier and host.
    fn default() -> (item: Self)
        ensures
            item.id@ == ""@ && item.name@ == "Unnamed"@ && item.protocol@ == "ssh"@
                && item.host@ == ""@,
            !item.is_group && !item.is_document && !item.is_dirty,
            item.status@ == "disconnected"@,
            item.children is None,
    {
        Self::new_connection("", "Unnamed", "ssh", "")
    }
}

/// How a tree item presents itself.
pub struct ItemPresentation {
    /// What screen readers announce
    pub accessible_label: String,
    /// The screen-reader description
    pub accessible_description: String,
    /// The item's icon
    pub icon_name: &'static str,
    /// The status icon and its style class; `None` hides it
    pub status_icon: Option<(&'static str, &'static str)>,
    /// The visible label
    pub label: String,
}

/// The word naming an item's kind.
pub open spec fn item_kind_word(item: ConnectionItem) -> Seq<char> {
    if item.is_document {
        "document"@
    } else if item.is_group {
        "group"@
    } else {
        "connection"@
    }
}

/// The icon of an item.
pub open spec fn item_icon(item: ConnectionItem) -> Seq<char> {
    if item.is_document {
        "x-office-document-symbolic"@
    } else if item.is_group {
        "folder-symbolic"@
    } else {
        sidebar_protocol_icon(item.protocol@)
    }
}

/// The status icon and style class for a status text.
pub open spec fn status_icon_for(status: Seq<char>) -> Option<(Seq<char>, Seq<char>)> {
    if status == "connected"@ {
        Some(("emblem-default-symbolic"@, "status-connected"@))
    } else if status == "connecting"@ {
        Some(("network-transmit-receive-symbolic"@, "status-connecting"@))
    } else if status == "failed"@ {
        Some(("dialog-error-symbolic"@, "status-failed"@))
    } else {
        None
    }
}

/// The status icon for a status text (see `status_icon_for`).
pub fn status_icon(status: &str) -> (r: Option<(&'static str, &'static str)>)
    ensures
        match r {
            Some((icon, class)) => status_icon_for(status@) == Some((icon@, class@)),
            None => status_icon_for(status@) is None,
        },
{
    if str_eq(status, "connected") {
        Some(("emblem-default-symbolic", "status-connected"))
    } else if str_eq(status, "connecting") {
        Some(("network-transmit-receive-symbolic", "status-connecting"))
    } else if str_eq(status, "failed") {
        Some(("dialog-error-symbolic", "status-failed"))
    } else {
        None
    }
}

/// Computes how a tree item presents itself: its accessible texts, icon,
/// status icon, and label (a bullet marks a document with unsaved changes).
pub fn item_presentation(item: &ConnectionItem) -> (p: ItemPresentation)
    ensures
        p.accessible_label@ == item_kind_word(*item) + " "@ + item.name@,
        p.accessible_description@ == if item.is_group {
            "Double-click to expand, right-click for options"@
        } else {
            "Double-click to connect, right-click for options. Protocol: "@ + item.protocol@
        },
        p.icon_name@ == item_icon(*item),
        match p.status_icon {
            Some((icon, class)) => status_icon_for(item.status@) == Some((icon@, class@)),
            None => status_icon_for(item.status@) is None,
        },
        p.label@ == if item.is_document && item.is_dirty {
            "\u{2022} "@ + item.name@
        } else {
            item.name@
        },
{
    let kind = if item.is_document {
        "document"
    } else if item.is_group {
        "group"
    } else {
        "connection"
    };
    let mut accessible_label = kind.to_owned();
    accessible_label.append(" ");
    accessible_label.append(item.name.as_str());
    let accessible_description = if item.is_group {
        "Double-click to expand, right-click for options".to_owned()
    } else {
        let mut d = "Double-click to connect, right-click for options. Protocol: ".to_owned();
        d.append(item.protocol.as_str());
        d
    };
    let icon_name = if item.is_document {
        "x-office-document-symbolic"
    } else if item.is_group {
        "folder-symbolic"
    } else {
        get_protocol_icon(item.protocol.as_str())
    };
    let label = if item.is_document && item.is_dirty {
        let mut l = "\u{2022} ".to_owned();
        l.append(item.name.as_str());
        l
    } else {
        item.name.clone()
    };
    ItemPresentation {
        accessible_label,
        accessible_description,
        icon_name,
        status_icon: status_icon(item.status.as_str()),
        label,
    }
}

/// Whether the item behind a row is a group or a document; `false` when no
/// item is found behind the row.
pub fn is_row_widget_group_or_document(item: Option<&ConnectionItem>) -> (b: bool)
    ensures
        b == match item {
            Some(it) => it.is_group || it.is_document,
            None => false,
        },
{
    match item {
        Some(it) => it.is_group || it.is_document,
        None => false,
    }
}

/// Whether a row whose first icon is `icon_name` stands for a group (what
/// the context menu is built for).
pub fn row_is_group(icon_name: Option<&str>) -> (b: bool)
    ensures
        b == match icon_name {
            Some(n) => n@ == "folder-symbolic"@,
            None => false,
        },
{
    match icon_name {
        Some(n) => str_eq(n, "folder-symbolic"),
        None => false,
    }
}

/// The status and count after one more session opens.
pub open spec fn after_increment(prev: Option<(Seq<char>, nat)>) -> (Seq<char>, nat) {
    (
        "connected"@,
        match prev {
            Some((_, n)) => n + 1,
            None => 1,
        },
    )
}

/// The status and count after one session closes (`prev` being recorded).
pub open spec fn after_decrement(prev: (Seq<char>, nat), failed: bool) -> (Seq<char>, nat) {
    let left: nat = if prev.1 == 0 { 0 } else { (prev.1 - 1) as nat };
    (
        if left == 0 {
            if failed {
                "failed"@
            } else {
                "disconnected"@
            }
        } else {
            prev.0
        },
        left,
    )
}

/// Sidebar state for the connection tree.
pub struct ConnectionSidebar {
    statuses: Vec<(String, SessionStatusInfo)>,
    search_history: Vec<String>,
    active_filters: Vec<bool>,
    group_ops_mode: bool,
    pending_search_query: Option<String>,
    selection: Vec<u128>,
    store: Vec<ConnectionItem>,
}

impl ConnectionSidebar {
    /// The status table.
    pub closed spec fn statuses_spec(&self) -> Seq<(String, SessionStatusInfo)> {
        self.statuses@
    }

    /// The remembered searches, most recent first.
    pub closed spec fn history_spec(&self) -> Seq<Seq<char>> {
        string_views(self.search_history@)
    }

    /// Which filters are active, in name order.
    pub closed spec fn filters_spec(&self) -> Seq<bool> {
        self.active_filters@
    }

    /// Whether group operations (multi-selection) mode is on.
    pub closed spec fn group_ops_spec(&self) -> bool {
        self.group_ops_mode
    }

    /// The search waiting for its debounce delay.
    pub closed spec fn pending_spec(&self) -> Option<Seq<char>> {
        match self.pending_search_query {
            Some(q) => Some(q@),
            None => None,
        }
    }

    /// The persisted selection.
    pub closed spec fn selection_spec(&self) -> Seq<u128> {
        self.selection@
    }

    /// The items at the top of the tree.
    pub closed spec fn store_spec(&self) -> Seq<ConnectionItem> {
        self.store@
    }

    /// Distinct status keys, a history of distinct entries within its bound,
    /// one flag per filter, and a selection without repeats.
    pub open spec fn wf(&self) -> bool {
        &&& status_keys(self.statuses_spec()).no_duplicates()
        &&& self.history_spec().no_duplicates()
        &&& self.history_spec().len() <= 20
        &&& self.filters_spec().len() == 5
        &&& self.selection_spec().no_duplicates()
    }

    /// Creates an empty sidebar state.
    pub fn new() -> (s: Self)
        ensures
            s.wf(),
            s.statuses_spec().len() == 0,
            s.history_spec().len() == 0,
            s.filters_spec() == seq![false, false, false, false, false],
            !s.group_ops_spec(),
            s.pending_spec() is None,
            s.selection_spec().len() == 0,
            s.store_spec().len() == 0,
    {
        let s = ConnectionSidebar {
            statuses: Vec::new(),
            search_history: Vec::new(),
            active_filters: vec![false, false, false, false, false],
            group_ops_mode: false,
            pending_search_query: None,
            selection: Vec::new(),
            store: Vec::new(),
        };
        proof {
            assert(status_keys(s.statuses@) =~= Seq::<Seq<char>>::empty());
            assert(string_views(s.search_history@) =~= Seq::<Seq<char>>::empty());
        }
        s
    }

    fn find_status(&self, id: &str) -> (r: Option<usize>)
        ensures
            match r {
                Some(i) => i as int == first_index(status_keys(self.statuses@), id@) && i
                    < self.statuses@.len(),
                None => first_index(status_keys(self.statuses@), id@) == -1,
            },
    {
        let ghost keys = status_keys(self.statuses@);
        proof {
            lemma_first_index(keys, id@);
        }
        let mut i: usize = 0;
        while i < self.statuses.len()
            invariant
                i <= self.statuses@.len(),
                keys == status_keys(self.statuses@),
                forall|k: int| 0 <= k < i ==> keys[k] != id@,
                -1 <= first_index(keys, id@) < keys.len(),
                first_index(keys, id@) == -1 ==> forall|k: int| 0 <= k < keys.len() ==> keys[k] != id@,
                first_index(keys, id@) >= 0 ==> keys[first_index(keys, id@)] == id@,
                forall|k: int| 0 <= k < first_index(keys, id@) ==> keys[k] != id@,
            decreases self.statuses.len() - i,
        {
            if str_eq(self.statuses[i].0.as_str(), id) {
                assert(keys[i as int] == id@);
                return Some(i);
            }
            i += 1;
        }
        None
    }

    fn set_entry(&mut self, id: &str, status: String, count: usize)
        requires
            status_keys(old(self).statuses@).no_duplicates(),
        ensures
            status_keys(final(self).statuses@).no_duplicates(),
            final(self).search_history == old(self).search_history,
            final(self).active_filters == old(self).active_filters,
            final(self).group_ops_mode == old(self).group_ops_mode,
            final(self).pending_search_query == old(self).pending_search_query,
            final(self).selection == old(self).selection,
            final(self).store == old(self).store,
            status_of(final(self).statuses@, id@) == Some((status@, count as nat)),
            forall|other: Seq<char>|
                other != id@ ==> status_of(final(self).statuses@, other) == status_of(
                    old(self).statuses@,
                    other,
                ),
    {
        let ghost before = self.statuses@;
        let ghost status_view = status@;
        match self.find_status(id) {
            Some(i) => {
                let key = self.statuses[i].0.clone();
                self.statuses.set(i, (key, SessionStatusInfo { status, active_count: count }));
                proof {
                    assert(status_keys(self.statuses@) =~= status_keys(before));
                }
            },
            None => {
                self.statuses.push(
                    (id.to_owned(), SessionStatusInfo { status, active_count: count }),
                );
                proof {
                    lemma_first_index(status_keys(before), id@);
                    assert(status_keys(self.statuses@) =~= status_keys(before).push(id@));
                    assert(status_keys(self.statuses@).drop_last() =~= status_keys(before));
                }
            },
        }
        proof {
            let keys = status_keys(self.statuses@);
            lemma_first_index(keys, id@);
            lemma_first_index(status_keys(before), id@);
            assert forall|other: Seq<char>| other != id@ implies status_of(
                self.statuses@,
                other,
            ) == status_of(before, other) by {
                lemma_first_index(keys, other);
                lemma_first_index(status_keys(before), other);
                let a = first_index(status_keys(before), other);
                let b = first_index(keys, other);
                if a >= 0 {
                    assert(keys[a] == other);
                }
                if b >= 0 && b < before.len() {
                    assert(status_keys(before)[b] == other);
                }
            }
        }
    }

    /// Updates the status of a connection, keeping its session count (zero
    /// for a connection not seen before).
    pub fn update_connection_status(&mut self, id: &str, status: &str)
        requires
            old(self).wf(),
        ensures
            final(self).wf(),
            final(self).history_spec() == old(self).history_spec(),
            final(self).filters_spec() == old(self).filters_spec(),
            final(self).selection_spec() == old(self).selection_spec(),
            status_of(final(self).statuses_spec(), id@) == Some(
                (
                    status@,
                    match status_of(old(self).statuses_spec(), id@) {
                        Some((_, n)) => n,
                        None => 0,
                    },
                ),
            ),
            forall|other: Seq<char>|
                other != id@ ==> status_of(final(self).statuses_spec(), other) == status_of(
                    old(self).statuses_spec(),
                    other,
                ),
            items_status_set_from(old(self).store_spec(), final(self).store_spec(), 0, id@, status@),
    {
        let count = match self.find_status(id) {
            Some(i) => self.statuses[i].1.active_count,
            None => 0,
        };
        self.set_entry(id, status.to_owned(), count);
        update_item_status_recursive(&mut self.store, id, status);
    }

    /// Records one more open session of a connection; its status becomes
    /// `connected`.
    pub fn increment_session_count(&mut self, id: &str)
        requires
            old(self).wf(),
            match status_of(old(self).statuses_spec(), id@) {
                Some((_, n)) => n < usize::MAX,
                None => true,
            },
        ensures
            final(self).wf(),
            final(self).history_spec() == old(self).history_spec(),
            final(self).filters_spec() == old(self).filters_spec(),
            final(self).selection_spec() == old(self).selection_spec(),
            status_of(final(self).statuses_spec(), id@) == Some(
                after_increment(status_of(old(self).statuses_spec(), id@)),
            ),
            forall|other: Seq<char>|
                other != id@ ==> status_of(final(self).statuses_spec(), other) == status_of(
                    old(self).statuses_spec(),
                    other,
                ),
            items_status_set_from(old(self).store_spec(), final(self).store_spec(), 0, id@, "connected"@),
    {
        let count = match self.find_status(id) {
            Some(i) => self.statuses[i].1.active_count + 1,
            None => 1,
        };
        self.set_entry(id, "connected".to_owned(), count);
        update_item_status_recursive(&mut self.store, id, "connected");
    }

    /// Records that one session of a connection closed. While sessions stay
    /// open the status is kept; when the last one closes it becomes `failed`
    /// or `disconnected`. Returns the status after the change (`disconnected`
    /// for a connection without a record, which stays without one).
    pub fn decrement_session_count(&mut self, id: &str, failed: bool) -> (status: String)
        requires
            old(self).wf(),
        ensures
            final(self).wf(),
            final(self).history_spec() == old(self).history_spec(),
            final(self).filters_spec() == old(self).filters_spec(),
            final(self).selection_spec() == old(self).selection_spec(),
            match status_of(old(self).statuses_spec(), id@) {
                Some(prev) => status_of(final(self).statuses_spec(), id@) == Some(
                    after_decrement(prev, failed),
                ) && status@ == after_decrement(prev, failed).0,
                None => status@ == "disconnected"@ && final(self).statuses_spec() == old(self).statuses_spec(),
            },
            forall|other: Seq<char>|
                other != id@ ==> status_of(final(self).statuses_spec(), other) == status_of(
                    old(self).statuses_spec(),
                    other,
                ),
            items_status_set_from(old(self).store_spec(), final(self).store_spec(), 0, id@, status@),
    {
        match self.find_status(id) {
            Some(i) => {
                let old_count = self.statuses[i].1.active_count;
                let left = if old_count == 0 {
                    0
                } else {
                    old_count - 1
                };
                let status = if left == 0 {
                    if failed {
                        "failed".to_owned()
                    } else {
                        "disconnected".to_owned()
                    }
                } else {
                    self.statuses[i].1.status.clone()
                };
                let result = status.clone();
                self.set_entry(id, status, left);
                update_item_status_recursive(&mut self.store, id, result.as_str());
                result
            },
            None => {
                let result = "disconnected".to_owned();
                update_item_status_recursive(&mut self.store, id, result.as_str());
                result
            },
        }
    }

    /// Gets the number of open sessions of a connection (zero without a
    /// record).
    pub fn get_session_count(&self, id: &str) -> (n: usize)
        ensures
            n == match status_of(self.statuses_spec(), id@) {
                Some((_, c)) => c,
                None => 0,
            },
    {
        match self.find_status(id) {
            Some(i) => self.statuses[i].1.active_count,
            None => 0,
        }
    }


    /// Adds a search to the history: blank searches are ignored; otherwise
    /// the query moves to the front (see `history_after`).
    pub fn add_to_search_history(&mut self, query: &str)
        requires
            old(self).wf(),
        ensures
            final(self).wf(),
            final(self).statuses_spec() == old(self).statuses_spec(),
            final(self).filters_spec() == old(self).filters_spec(),
            final(self).selection_spec() == old(self).selection_spec(),
            final(self).store_spec() == old(self).store_spec(),
            final(self).history_spec() == if blank(query@) {
                old(self).history_spec()
            } else {
                history_after(old(self).history_spec(), query@)
            },
    {
        if is_blank(query) {
            return;
        }
        let ghost before = string_views(self.search_history@);
        let mut moved: Vec<String> = Vec::new();
        moved.push(query.to_owned());
        let mut i: usize = 0;
        while i < self.search_history.len()
            invariant
                i <= self.search_history@.len(),
                before == string_views(self.search_history@),
                before.no_duplicates(),
                string_views(moved@) == seq![query@] + before.take(i as int).filter(
                    differs_from(query@),
                ),
                string_views(moved@).no_duplicates(),
                forall|k: int|
                    1 <= k < moved@.len() ==> before.take(i as int).contains(
                        #[trigger] string_views(moved@)[k],
                    ),
            decreases self.search_history.len() - i,
        {
            proof {
                reveal(Seq::filter);
                assert(before.take(i + 1).drop_last() =~= before.take(i as int));
            }
            let item = &self.search_history[i];
            if !str_eq(item.as_str(), query) {
                let ghost mv = string_views(moved@);
                proof {
                    assert(!mv.contains(item@)) by {
                        if mv.contains(item@) {
                            let k = choose|k: int| 0 <= k < mv.len() && mv[k] == item@;
                            if k >= 1 {
                                let j = choose|j: int|
                                    0 <= j < i && before.take(i as int)[j] == mv[k];
                                assert(before[j] == before[i as int]);
                            }
                        }
                    }
                }
                moved.push(item.clone());
                proof {
                    assert(string_views(moved@) =~= mv.push(item@));
                    assert(seq![query@] + before.take(i + 1).filter(differs_from(query@))
                        =~= (seq![query@] + before.take(i as int).filter(differs_from(query@))).push(item@));
                }
            }
            proof {
                assert forall|k: int| 1 <= k < moved@.len() implies before.take(i + 1).contains(
                    #[trigger] string_views(moved@)[k],
                ) by {
                    if k < moved@.len() - 1 || str_eq_spec(item@, query@) {
                        let j = choose|j: int|
                            0 <= j < i && before.take(i as int)[j] == string_views(moved@)[k];
                        assert(before.take(i + 1)[j] == string_views(moved@)[k]);
                    } else if before.take(i as int).contains(string_views(moved@)[k]) {
                        let j = choose|j: int|
                            0 <= j < i && before.take(i as int)[j] == string_views(moved@)[k];
                        assert(before.take(i + 1)[j] == string_views(moved@)[k]);
                    } else {
                        assert(before.take(i + 1)[i as int] == string_views(moved@)[k]);
                    }
                }
            }
            i += 1;
        }
        proof {
            assert(before.take(before.len() as int) =~= before);
        }
        if moved.len() > MAX_SEARCH_HISTORY {
            moved.truncate(MAX_SEARCH_HISTORY);
        }
        proof {
            let full = seq![query@] + before.filter(differs_from(query@));
            if full.len() > 20 {
                assert(string_views(moved@) =~= full.take(20));
            }
        }
        self.search_history = moved;
    }

    /// Gets the search history, most recent first.
    pub fn get_search_history(&self) -> (h: Vec<String>)
        ensures
            string_views(h@) == self.history_spec(),
    {
        self.search_history.clone()
    }

    /// Clears the search history.
    pub fn clear_search_history(&mut self)
        requires
            old(self).wf(),
        ensures
            final(self).wf(),
            final(self).history_spec().len() == 0,
            final(self).statuses_spec() == old(self).statuses_spec(),
            final(self).filters_spec() == old(self).filters_spec(),
            final(self).selection_spec() == old(self).selection_spec(),
            final(self).store_spec() == old(self).store_spec(),
    {
        self.search_history = Vec::new();
        proof {
            assert(string_views(self.search_history@) =~= Seq::<Seq<char>>::empty());
        }
    }

    /// The search text for the active filters (see `filter_query`).
    pub fn filter_search_text(&self) -> (text: String)
        requires
            self.wf(),
        ensures
            text@ == filter_query(active_filters(self.filters_spec())),
    {
        let active = self.get_active_protocol_filters();
        let mut text = String::new();
        if active.len() == 1 {
            text.append("protocol:");
            text.append(active[0].search_name());
        } else if active.len() > 1 {
            text.append("protocols:");
            let mut i: usize = 0;
            let ghost prefix = text@;
            while i < active.len()
                invariant
                    i <= active@.len(),
                    active@.len() > 1,
                    prefix == "protocols:"@,
                    text@ == prefix + joined_names(active@.take(i as int)),
                decreases active.len() - i,
            {
                if i > 0 {
                    text.append(",");
                }
                text.append(active[i].name());
                proof {
                    let t = active@.take(i + 1);
                    assert(t.drop_last() =~= active@.take(i as int));
                    if i == 0 {
                        assert(joined_names(active@.take(0)) =~= Seq::<char>::empty());
                        assert(text@ =~= prefix + joined_names(t));
                    } else {
                        assert(text@ =~= prefix + joined_names(t));
                    }
                }
                i += 1;
            }
            proof {
                assert(active@.take(active@.len() as int) =~= active@);
            }
        }
        proof {
            if active@.len() == 1 {
                assert(text@ =~= "protocol:"@ + filter_search_name(active@[0]));
            }
            if active@.len() == 0 {
                assert(text@ =~= Seq::<char>::empty());
            }
        }
        text
    }

    /// Toggles a protocol filter and returns the search text that the
    /// active filters now call for (see `filter_query`).
    pub fn toggle_protocol_filter(&mut self, filter: ProtocolFilter) -> (text: String)
        requires
            old(self).wf(),
        ensures
            final(self).wf(),
            final(self).filters_spec() == old(self).filters_spec().update(
                filter_index(filter),
                !old(self).filters_spec()[filter_index(filter)],
            ),
            final(self).statuses_spec() == old(self).statuses_spec(),
            final(self).history_spec() == old(self).history_spec(),
            final(self).selection_spec() == old(self).selection_spec(),
            final(self).store_spec() == old(self).store_spec(),
            text@ == filter_query(active_filters(final(self).filters_spec())),
    {
        let i = filter.index();
        let now = !self.active_filters[i];
        self.active_filters.set(i, now);
        self.filter_search_text()
    }

    /// Clears all protocol filters (done when the search text is cleared by
    /// hand).
    pub fn clear_protocol_filters(&mut self)
        requires
            old(self).wf(),
        ensures
            final(self).wf(),
            final(self).filters_spec() == seq![false, false, false, false, false],
            final(self).statuses_spec() == old(self).statuses_spec(),
            final(self).history_spec() == old(self).history_spec(),
            final(self).selection_spec() == old(self).selection_spec(),
            final(self).store_spec() == old(self).store_spec(),
    {
        self.active_filters = vec![false, false, false, false, false];
    }

    /// Gets the active protocol filters, in name order.
    pub fn get_active_protocol_filters(&self) -> (f: Vec<ProtocolFilter>)
        requires
            self.wf(),
        ensures
            f@ == active_filters(self.filters_spec()),
    {
        let mut f: Vec<ProtocolFilter> = Vec::new();
        let mut i: usize = 0;
        while i < 5
            invariant
                i <= 5,
                self.active_filters@.len() == 5,
                f@ == active_filters(self.active_filters@.take(i as int)),
            decreases 5 - i,
        {
            proof {
                assert(self.active_filters@.take(i + 1).drop_last() =~= self.active_filters@.take(
                    i as int,
                ));
            }
            if self.active_filters[i] {
                f.push(ProtocolFilter::at(i));
            }
            i += 1;
        }
        proof {
            assert(self.active_filters@.take(5) =~= self.active_filters@);
        }
        f
    }

    /// Checks if any protocol filters are active.
    pub fn has_active_protocol_filters(&self) -> (b: bool)
        requires
            self.wf(),
        ensures
            b == (active_filters(self.filters_spec()).len() > 0),
    {
        self.get_active_protocol_filters().len() > 0
    }

    /// Gets the count of active protocol filters.
    pub fn active_protocol_filter_count(&self) -> (n: usize)
        requires
            self.wf(),
        ensures
            n == active_filters(self.filters_spec()).len(),
    {
        self.get_active_protocol_filters().len()
    }

    /// Returns whether group operations mode is active.
    pub fn is_group_operations_mode(&self) -> (b: bool)
        ensures
            b == self.group_ops_spec(),
    {
        self.group_ops_mode
    }

    /// Switches group operations (multi-selection) mode.
    pub fn set_group_operations_mode(&mut self, enabled: bool)
        requires
            old(self).wf(),
        ensures
            final(self).wf(),
            final(self).group_ops_spec() == enabled,
            final(self).statuses_spec() == old(self).statuses_spec(),
            final(self).history_spec() == old(self).history_spec(),
            final(self).filters_spec() == old(self).filters_spec(),
            final(self).selection_spec() == old(self).selection_spec(),
            final(self).store_spec() == old(self).store_spec(),
    {
        self.group_ops_mode = enabled;
    }

    /// Sets the pending search query.
    pub fn set_pending_search_query(&mut self, query: Option<String>)
        requires
            old(self).wf(),
        ensures
            final(self).wf(),
            final(self).pending_spec() == match query {
                Some(q) => Some(q@),
                None => None,
            },
            final(self).statuses_spec() == old(self).statuses_spec(),
            final(self).history_spec() == old(self).history_spec(),
            final(self).filters_spec() == old(self).filters_spec(),
            final(self).selection_spec() == old(self).selection_spec(),
            final(self).store_spec() == old(self).store_spec(),
    {
        self.pending_search_query = query;
    }

    /// Gets the pending search query.
    pub fn pending_search_query(&self) -> (q: Option<String>)
        ensures
            match q {
                Some(t) => self.pending_spec() == Some(t@),
                None => self.pending_spec() is None,
            },
    {
        match &self.pending_search_query {
            Some(q) => Some(q.clone()),
            None => None,
        }
    }

    fn selection_position(&self, id: u128) -> (r: Option<usize>)
        ensures
            match r {
                Some(i) => i < self.selection@.len() && self.selection@[i as int] == id,
                None => !self.selection@.contains(id),
            },
    {
        let mut i: usize = 0;
        while i < self.selection.len()
            invariant
                i <= self.selection@.len(),
                forall|k: int| 0 <= k < i ==> self.selection@[k] != id,
            decreases self.selection.len() - i,
        {
            if self.selection[i] == id {
                return Some(i);
            }
            i += 1;
        }
        None
    }

    /// Adds an item to the persisted selection.
    pub fn persist_selection(&mut self, id: u128)
        requires
            old(self).wf(),
        ensures
            final(self).wf(),
            final(self).selection_spec().to_set() == old(self).selection_spec().to_set().insert(id),
            final(self).statuses_spec() == old(self).statuses_spec(),
            final(self).history_spec() == old(self).history_spec(),
            final(self).filters_spec() == old(self).filters_spec(),
            final(self).store_spec() == old(self).store_spec(),
    {
        if self.selection_position(id).is_none() {
            let ghost before = self.selection@;
            self.selection.push(id);
            proof {
                assert(self.selection@.to_set() =~= before.to_set().insert(id)) by {
                    assert forall|x: u128| self.selection@.to_set().contains(x) <==> before.to_set().insert(id).contains(x) by {
                        if x != id && self.selection@.contains(x) {
                            let k = choose|k: int| 0 <= k < self.selection@.len() && self.selection@[k] == x;
                            assert(before[k] == x);
                        }
                        if before.contains(x) {
                            let k = choose|k: int| 0 <= k < before.len() && before[k] == x;
                            assert(self.selection@[k] == x);
                        }
                        if x == id {
                            assert(self.selection@[before.len() as int] == id);
                        }
                    }
                }
            }
        } else {
            proof {
                assert(self.selection@.to_set() =~= self.selection@.to_set().insert(id));
            }
        }
    }

    /// Removes an item from the persisted selection.
    pub fn unpersist_selection(&mut self, id: u128)
        requires
            old(self).wf(),
        ensures
            final(self).wf(),
            final(self).selection_spec().to_set() == old(self).selection_spec().to_set().remove(id),
            final(self).statuses_spec() == old(self).statuses_spec(),
            final(self).history_spec() == old(self).history_spec(),
            final(self).filters_spec() == old(self).filters_spec(),
            final(self).store_spec() == old(self).store_spec(),
    {
        if let Some(i) = self.selection_position(id) {
            let ghost before = self.selection@;
            self.selection.remove(i);
            proof {
                assert forall|x: u128| self.selection@.to_set().contains(x) <==> before.to_set().remove(id).contains(x) by {
                    if self.selection@.contains(x) {
                        let k = choose|k: int| 0 <= k < self.selection@.len() && self.selection@[k] == x;
                        let ok = if k < i { k } else { k + 1 };
                        assert(before[ok] == x);
                        assert(ok != i);
                    }
                    if x != id && before.contains(x) {
                        let k = choose|k: int| 0 <= k < before.len() && before[k] == x;
                        assert(k != i);
                        let nk = if k < i { k } else { k - 1 };
                        assert(self.selection@[nk] == x);
                    }
                }
                assert(self.selection@.to_set() =~= before.to_set().remove(id));
                assert forall|a: int, b: int| 0 <= a < b < self.selection@.len() implies self.selection@[a] != self.selection@[b] by {
                    let oa = if a < i { a } else { a + 1 };
                    let ob = if b < i { b } else { b + 1 };
                    assert(self.selection@[a] == before[oa]);
                    assert(self.selection@[b] == before[ob]);
                }
            }
        } else {
            proof {
                assert(self.selection@.to_set() =~= self.selection@.to_set().remove(id));
            }
        }
    }

    /// Toggles an item in the persisted selection.
    pub fn toggle_persisted_selection(&mut self, id: u128)
        requires
            old(self).wf(),
        ensures
            final(self).wf(),
            final(self).selection_spec().to_set() == if old(self).selection_spec().contains(id) {
                old(self).selection_spec().to_set().remove(id)
            } else {
                old(self).selection_spec().to_set().insert(id)
            },
            final(self).statuses_spec() == old(self).statuses_spec(),
            final(self).history_spec() == old(self).history_spec(),
            final(self).filters_spec() == old(self).filters_spec(),
            final(self).store_spec() == old(self).store_spec(),
    {
        if self.selection_position(id).is_some() {
            self.unpersist_selection(id);
        } else {
            self.persist_selection(id);
        }
    }

    /// Checks if an item is in the persisted selection.
    pub fn is_selection_persisted(&self, id: u128) -> (b: bool)
        ensures
            b == self.selection_spec().contains(id),
    {
        self.selection_position(id).is_some()
    }

    /// Clears the persisted selection.
    pub fn clear_selection_state(&mut self)
        requires
            old(self).wf(),
        ensures
            final(self).wf(),
            final(self).selection_spec().len() == 0,
            final(self).statuses_spec() == old(self).statuses_spec(),
            final(self).history_spec() == old(self).history_spec(),
            final(self).filters_spec() == old(self).filters_spec(),
            final(self).store_spec() == old(self).store_spec(),
    {
        self.selection = Vec::new();
    }

    /// Returns the number of persisted selections.
    pub fn selection_count(&self) -> (n: usize)
        requires
            self.wf(),
        ensures
            n == self.selection_spec().to_set().len(),
    {
        proof {
            self.selection@.unique_seq_to_set();
        }
        self.selection.len()
    }


    /// Reacts to a change of the search text. Changes the sidebar made
    /// itself are ignored; `?` asks for the syntax help; clearing the text
    /// clears the active filters.
    pub fn on_search_changed(&mut self, text: &str, programmatic: bool) -> (c: SearchChange)
        requires
            old(self).wf(),
        ensures
            final(self).wf(),
            final(self).statuses_spec() == old(self).statuses_spec(),
            final(self).history_spec() == old(self).history_spec(),
            final(self).selection_spec() == old(self).selection_spec(),
            final(self).store_spec() == old(self).store_spec(),
            programmatic ==> c == SearchChange::Ignore && final(self).filters_spec() == old(self).filters_spec(),
            !programmatic && text@ == "?"@ ==> c == SearchChange::ShowHelp && final(self).filters_spec() == old(self).filters_spec(),
            !programmatic && text@.len() == 0 && active_filters(old(self).filters_spec()).len() > 0
                ==> c == SearchChange::FiltersCleared && final(self).filters_spec() == seq![
                false,
                false,
                false,
                false,
                false,
            ],
            !programmatic && text@ != "?"@ && !(text@.len() == 0 && active_filters(
                old(self).filters_spec(),
            ).len() > 0) ==> c == SearchChange::Nothing && final(self).filters_spec() == old(self).filters_spec(),
    {
        if programmatic {
            return SearchChange::Ignore;
        }
        if str_eq(text, "?") {
            proof {
                reveal_strlit("?");
            }
            return SearchChange::ShowHelp;
        }
        if text.is_empty() && self.has_active_protocol_filters() {
            self.clear_protocol_filters();
            return SearchChange::FiltersCleared;
        }
        SearchChange::Nothing
    }

    /// The status a connection shows in the tree: the recorded one, or
    /// `disconnected` when none is recorded.
    pub fn status_for_display(&self, id: &str) -> (s: String)
        ensures
            match status_of(self.statuses_spec(), id@) {
                Some((st, _)) => s@ == st,
                None => s@ == "disconnected"@,
            },
    {
        match self.find_status(id) {
            Some(i) => self.statuses[i].1.status.clone(),
            None => "disconnected".to_owned(),
        }
    }

    /// Gets the status of a connection.
    pub fn get_connection_status(&self, id: &str) -> (s: Option<String>)
        ensures
            match s {
                Some(t) => status_of(self.statuses_spec(), id@) matches Some((st, _)) && t@ == st,
                None => status_of(self.statuses_spec(), id@) is None,
            },
    {
        match self.find_status(id) {
            Some(i) => Some(self.statuses[i].1.status.clone()),
            None => None,
        }
    }

    /// The items at the top of the tree.
    pub fn store(&self) -> (s: &Vec<ConnectionItem>)
        ensures
            s@ == self.store_spec(),
    {
        &self.store
    }

    /// Builds the row of one document: a group row per group, each holding
    /// the connections whose home it is, then the connections without one.
    fn document_item(
        &self,
        doc: &(u128, String, bool),
        groups: &Vec<(u128, String)>,
        conns: &Vec<(u128, String, String, String, Option<u128>)>,
    ) -> (item: ConnectionItem)
        ensures
            document_row(item, *doc, groups@, conns@, self.statuses_spec()),
    {
        let mut rows: Vec<ConnectionItem> = Vec::new();
        let mut j: usize = 0;
        while j < groups.len()
            invariant
                j <= groups@.len(),
                rows@.len() == j,
                forall|t: int|
                    0 <= t < j ==> group_row(
                        #[trigger] rows@[t],
                        groups@[t],
                        Seq::empty(),
                        self.statuses@,
                    ),
            decreases groups.len() - j,
        {
            let gid = id_text(groups[j].0);
            rows.push(ConnectionItem::new_group(gid.as_str(), groups[j].1.as_str()));
            j += 1;
        }
        let mut roots: Vec<ConnectionItem> = Vec::new();
        let mut i: usize = 0;
        proof {
            assert forall|t: int| 0 <= t < groups@.len() implies home_members(
                groups@,
                conns@.take(0),
                t,
            ) == Seq::<(u128, String, String, String, Option<u128>)>::empty() by {
                assert(conns@.take(0).len() == 0);
            }
            assert(conns@.take(0).len() == 0);
        }
        while i < conns.len()
            invariant
                i <= conns@.len(),
                rows@.len() == groups@.len(),
                forall|t: int|
                    0 <= t < groups@.len() ==> group_row(
                        #[trigger] rows@[t],
                        groups@[t],
                        home_members(groups@, conns@.take(i as int), t),
                        self.statuses@,
                    ),
                roots@.len() == home_members(groups@, conns@.take(i as int), -1).len(),
                forall|t: int|
                    0 <= t < roots@.len() ==> conn_row(
                        #[trigger] roots@[t],
                        home_members(groups@, conns@.take(i as int), -1)[t],
                        self.statuses@,
                    ),
            decreases conns.len() - i,
        {
            let conn = &conns[i];
            let cid = id_text(conn.0);
            let status = match self.find_status(cid.as_str()) {
                Some(k) => self.statuses[k].1.status.clone(),
                None => "disconnected".to_owned(),
            };
            let item = ConnectionItem::new_connection_with_status(
                cid.as_str(),
                conn.1.as_str(),
                conn.2.as_str(),
                conn.3.as_str(),
                status.as_str(),
            );
            proof {
                lemma_home_members_step(groups@, conns@, i as int);
                assert(conn_row(item, conns@[i as int], self.statuses@));
            }
            let home = match conn.4 {
                Some(g) => find_last_group(groups, g),
                None => None,
            };
            match home {
                Some(h) => {
                    let ghost rows_before = rows@;
                    let mut g = rows.remove(h);
                    g.add_child(item);
                    rows.insert(h, g);
                    proof {
                        assert(rows@ =~= rows_before.update(h as int, g));
                        assert forall|t: int| 0 <= t < groups@.len() implies group_row(
                            #[trigger] rows@[t],
                            groups@[t],
                            home_members(groups@, conns@.take(i + 1), t),
                            self.statuses@,
                        ) by {
                            if t != h as int {
                                assert(rows@[t] == rows_before[t]);
                            } else {
                                let m = g.children->0;
                                let members = home_members(groups@, conns@.take(i + 1), t);
                                assert forall|u: int| 0 <= u < members.len() implies conn_row(
                                    #[trigger] m@[u],
                                    members[u],
                                    self.statuses@,
                                ) by {
                                    if u < members.len() - 1 {
                                        assert(rows_before[t].children->0@[u] == m@[u]);
                                    }
                                }
                            }
                        }
                    }
                },
                None => {
                    roots.push(item);
                },
            }
            i += 1;
        }
        proof {
            assert(conns@.take(conns@.len() as int) =~= conns@);
        }
        rows.append(&mut roots);
        let did = id_text(doc.0);
        let mut item = ConnectionItem::new_document(did.as_str(), doc.1.as_str(), doc.2);
        item.children = Some(rows);
        item
    }

    /// Replaces the tree with the given documents. For each document
    /// `contents` holds its groups and its connections (identifier, name,
    /// protocol, host, group); a connection whose group is not among the
    /// document's groups sits at the document's top level. Connections show
    /// their recorded status, or `disconnected`.
    pub fn populate_with_documents(
        &mut self,
        documents: &Vec<(u128, String, bool)>,
        contents: &Vec<(Vec<(u128, String)>, Vec<(u128, String, String, String, Option<u128>)>)>,
    )
        requires
            old(self).wf(),
            contents@.len() == documents@.len(),
        ensures
            final(self).wf(),
            final(self).statuses_spec() == old(self).statuses_spec(),
            final(self).history_spec() == old(self).history_spec(),
            final(self).filters_spec() == old(self).filters_spec(),
            final(self).selection_spec() == old(self).selection_spec(),
            final(self).store_spec().len() == documents@.len(),
            forall|k: int|
                0 <= k < documents@.len() ==> document_row(
                    #[trigger] final(self).store_spec()[k],
                    documents@[k],
                    contents@[k].0@,
                    contents@[k].1@,
                    old(self).statuses_spec(),
                ),
    {
        self.store = Vec::new();
        let mut k: usize = 0;
        while k < documents.len()
            invariant
                k <= documents@.len(),
                contents@.len() == documents@.len(),
                self.wf(),
                self.statuses_spec() == old(self).statuses_spec(),
                self.history_spec() == old(self).history_spec(),
                self.filters_spec() == old(self).filters_spec(),
                self.selection_spec() == old(self).selection_spec(),
                self.store@.len() == k,
                forall|t: int|
                    0 <= t < k ==> document_row(
                        #[trigger] self.store@[t],
                        documents@[t],
                        contents@[t].0@,
                        contents@[t].1@,
                        old(self).statuses_spec(),
                    ),
            decreases documents.len() - k,
        {
            let item = self.document_item(&documents[k], &contents[k].0, &contents[k].1);
            self.store.push(item);
            k += 1;
        }
    }

    /// Sets the dirty flag of the first top-level document whose identifier
    /// is `doc_id`; without one the tree is unchanged.
    pub fn update_document_dirty_state(&mut self, doc_id: u128, is_dirty: bool)
        requires
            old(self).wf(),
        ensures
            final(self).wf(),
            final(self).statuses_spec() == old(self).statuses_spec(),
            final(self).history_spec() == old(self).history_spec(),
            final(self).filters_spec() == old(self).filters_spec(),
            final(self).selection_spec() == old(self).selection_spec(),
            final(self).store_spec().len() == old(self).store_spec().len(),
            ({
                let k = first_index(document_keys(old(self).store_spec()), Some(uuid_text(doc_id)));
                &&& forall|j: int|
                    0 <= j < old(self).store_spec().len() && j != k ==> final(self).store_spec()[j]
                        == old(self).store_spec()[j]
                &&& k >= 0 ==> {
                    let a = final(self).store_spec()[k];
                    let b = old(self).store_spec()[k];
                    &&& a.is_dirty == is_dirty
                    &&& a.id == b.id && a.name == b.name && a.protocol == b.protocol
                    &&& a.host == b.host && a.status == b.status && a.children == b.children
                    &&& a.is_group == b.is_group && a.is_document == b.is_document
                }
            }),
    {
        let text = id_text(doc_id);
        let ghost keys = document_keys(self.store@);
        let ghost key = Some(uuid_text(doc_id));
        proof {
            lemma_first_index(keys, key);
        }
        let mut i: usize = 0;
        while i < self.store.len()
            invariant
                i <= self.store@.len(),
                self.wf(),
                self.store@ == old(self).store@,
                self.statuses == old(self).statuses,
                self.search_history == old(self).search_history,
                self.active_filters == old(self).active_filters,
                self.selection == old(self).selection,
                keys == document_keys(self.store@),
                text@ == uuid_text(doc_id),
                key == Some(uuid_text(doc_id)),
                forall|j: int| 0 <= j < i ==> keys[j] != key,
                -1 <= first_index(keys, key) < keys.len(),
                first_index(keys, key) == -1 ==> forall|j: int| 0 <= j < keys.len() ==> keys[j] != key,
                first_index(keys, key) >= 0 ==> keys[first_index(keys, key)] == key,
                forall|j: int| 0 <= j < first_index(keys, key) ==> keys[j] != key,
            decreases self.store.len() - i,
        {
            if self.store[i].is_document && str_eq(self.store[i].id.as_str(), text.as_str()) {
                assert(keys[i as int] == key);
                let ghost before = self.store@;
                let mut item = self.store.remove(i);
                item.set_dirty(is_dirty);
                self.store.insert(i, item);
                proof {
                    assert(self.store@ =~= before.update(i as int, item));
                }
                return;
            }
            assert(keys[i as int] != key);
            i += 1;
        }
    }

    /// The document at the top of the tree that is, or holds somewhere below
    /// it, the item with identifier `item_id`: the first such document's
    /// identifier read back from its row, or `None`.
    pub fn get_document_for_item(&self, item_id: u128) -> (r: Option<u128>)
        ensures
            ({
                let k = first_index(document_holders(self.store_spec(), uuid_text(item_id)), true);
                r == if k >= 0 {
                    uuid_parse(self.store_spec()[k].id@)
                } else {
                    None
                }
            }),
    {
        let text = id_text(item_id);
        let ghost holders = document_holders(self.store@, uuid_text(item_id));
        proof {
            lemma_first_index(holders, true);
        }
        let mut i: usize = 0;
        while i < self.store.len()
            invariant
                i <= self.store@.len(),
                holders == document_holders(self.store@, uuid_text(item_id)),
                text@ == uuid_text(item_id),
                forall|j: int| 0 <= j < i ==> holders[j] != true,
                -1 <= first_index(holders, true) < holders.len(),
                first_index(holders, true) == -1 ==> forall|j: int| 0 <= j < holders.len() ==> holders[j] != true,
                first_index(holders, true) >= 0 ==> holders[first_index(holders, true)] == true,
                forall|j: int| 0 <= j < first_index(holders, true) ==> holders[j] != true,
            decreases self.store.len() - i,
        {
            if self.store[i].is_document {
                if str_eq(self.store[i].id.as_str(), text.as_str()) {
                    assert(holders[i as int]);
                    return parse_id(self.store[i].id.as_str());
                }
                match &self.store[i].children {
                    Some(c) => {
                        if find_item_in_children(c, text.as_str()) {
                            assert(holders[i as int]);
                            return parse_id(self.store[i].id.as_str());
                        }
                    },
                    None => {},
                }
            }
            assert(!holders[i as int]);
            i += 1;
        }
        None
    }
}

/// The status and count after `k` sessions open, starting from `prev`.
pub open spec fn after_increments(prev: Option<(Seq<char>, nat)>, k: nat) -> Option<(Seq<char>, nat)>
    decreases k,
{
    if k == 0 {
        prev
    } else {
        Some(after_increment(after_increments(prev, (k - 1) as nat)))
    }
}

/// The status and count after sessions close one by one, each with its
/// failure flag, starting from `start`.
pub open spec fn after_decrements(start: (Seq<char>, nat), flags: Seq<bool>) -> (Seq<char>, nat)
    decreases flags.len(),
{
    if flags.len() == 0 {
        start
    } else {
        after_decrement(after_decrements(start, flags.drop_last()), flags.last())
    }
}

/// Counting sessions over a run of calls: a connection without a record
/// that opens `k` sessions reads `connected` with count `k`; after `j` of
/// them close (the closes carrying `flags`), the count is `k - j` (never
/// below zero), and the status stays `connected` while sessions remain,
/// then reads `failed` or `disconnected` by the last close's flag.
pub proof fn session_counts_over_calls(k: nat, flags: Seq<bool>)
    requires
        k >= 1,
        flags.len() >= 1,
    ensures
        after_increments(None, k) == Some(("connected"@, k)),
        after_decrements(("connected"@, k), flags) == (
            if flags.len() < k {
                "connected"@
            } else if flags.last() {
                "failed"@
            } else {
                "disconnected"@
            },
            if flags.len() < k {
                (k - flags.len()) as nat
            } else {
                0nat
            },
        ),
    decreases flags.len(),
{
    lemma_increments(k);
    let prev = after_decrements(("connected"@, k), flags.drop_last());
    if flags.len() > 1 {
        session_counts_over_calls(k, flags.drop_last());
    } else {
        assert(flags.drop_last().len() == 0);
        assert(prev == ("connected"@, k));
    }
    assert(after_decrements(("connected"@, k), flags) == after_decrement(prev, flags.last()));
}

proof fn lemma_increments(k: nat)
    ensures
        k >= 1 ==> after_increments(None, k) == Some(("connected"@, k)),
    decreases k,
{
    if k > 1 {
        lemma_increments((k - 1) as nat);
    } else if k == 1 {
        assert(after_increments(None, 0) == None::<(Seq<char>, nat)>);
    }
}

/// Opening a session and closing it again restores the count; the status
/// then reads `connected` when other sessions stay open, and `disconnected`
/// when none does.
pub proof fn session_count_round_trip(prev: Option<(Seq<char>, nat)>)
    ensures
        after_decrement(after_increment(prev), false) == (
            if match prev {
                Some((_, n)) => n,
                None => 0,
            } == 0 {
                "disconnected"@
            } else {
                "connected"@
            },
            match prev {
                Some((_, n)) => n,
                None => 0nat,
            },
        ),
{
}

/// A search just made heads the history, the history never holds a search
/// twice or more than `MAX_SEARCH_HISTORY` entries, and repeating the search
/// changes nothing.
pub proof fn search_history_laws(history: Seq<Seq<char>>, query: Seq<char>)
    requires
        history.no_duplicates(),
    ensures
        history_after(history, query)[0] == query,
        history_after(history, query).no_duplicates(),
        history_after(history, query).len() <= 20,
        history_after(history_after(history, query), query) == history_after(history, query),
{
    broadcast use vstd::seq_lib::group_filter_ensures;
    let rest = history.filter(differs_from(query));
    let moved = seq![query] + rest;
    let h1 = history_after(history, query);
    lemma_filter_distinct(history, differs_from(query));
    assert(moved.no_duplicates()) by {
        assert forall|i: int, j: int| 0 <= i < j < moved.len() implies moved[i] != moved[j] by {
            assert(moved[j] == rest[j - 1]);
            if i > 0 {
                assert(moved[i] == rest[i - 1]);
            }
        }
    }
    assert(h1.no_duplicates()) by {
        assert forall|i: int, j: int| 0 <= i < j < h1.len() implies h1[i] != h1[j] by {
            assert(h1[i] == moved[i] && h1[j] == moved[j]);
        }
    }
    let tail = h1.drop_first();
    assert forall|i: int| 0 <= i < tail.len() implies tail[i] != query by {
        assert(tail[i] == h1[i + 1]);
        assert(h1[0] == query);
    }
    lemma_filter_keeps_all(tail, query);
    assert(h1 =~= seq![query] + tail);
    lemma_filter_head(query, tail);
    assert(seq![query] + h1.filter(differs_from(query)) =~= h1);
}

/// Filtering keeps the elements in order, so no duplicates appear.
pub proof fn lemma_filter_distinct<A>(s: Seq<A>, pred: spec_fn(A) -> bool)
    requires
        s.no_duplicates(),
    ensures
        s.filter(pred).no_duplicates(),
    decreases s.len(),
{
    reveal(Seq::filter);
    if s.len() > 0 {
        let d = s.drop_last();
        assert(d.no_duplicates()) by {
            assert forall|i: int, j: int| 0 <= i < j < d.len() implies d[i] != d[j] by {
                assert(d[i] == s[i] && d[j] == s[j]);
            }
        }
        lemma_filter_distinct(d, pred);
        crate::split_view::lemma_filter_from(d, pred);
        let f = d.filter(pred);
        if pred(s.last()) {
            assert forall|i: int| 0 <= i < f.len() implies f[i] != s.last() by {
                let k = choose|k: int| 0 <= k < d.len() && d[k] == f[i];
                assert(s[k] == d[k]);
            }
        }
    }
}

proof fn lemma_filter_keeps_all(s: Seq<Seq<char>>, query: Seq<char>)
    requires
        forall|i: int| 0 <= i < s.len() ==> s[i] != query,
    ensures
        s.filter(differs_from(query)) == s,
    decreases s.len(),
{
    reveal(Seq::filter);
    if s.len() > 0 {
        lemma_filter_keeps_all(s.drop_last(), query);
        assert(s.drop_last().push(s.last()) =~= s);
    }
}

proof fn lemma_filter_head(query: Seq<char>, rest: Seq<Seq<char>>)
    ensures
        (seq![query] + rest).filter(differs_from(query)) == rest.filter(
            differs_from(query)),
{
    broadcast use vstd::seq_lib::group_filter_ensures;
    Seq::<Seq<char>>::filter_distributes_over_add(seq![query], rest, differs_from(query));
    let f = seq![query].filter(differs_from(query));
    crate::split_view::lemma_filter_from(seq![query], differs_from(query));
    if f.len() > 0 {
        assert(seq![query].contains(f[0]));
        assert(f[0] != query);
    }
    assert(f =~= Seq::<Seq<char>>::empty());
}

/// The number of set flags.
pub open spec fn count_set(flags: Seq<bool>) -> nat
    decreases flags.len(),
{
    if flags.len() == 0 {
        0
    } else {
        count_set(flags.drop_last()) + if flags.last() {
            1nat
        } else {
            0nat
        }
    }
}

proof fn lemma_filter_names(f: ProtocolFilter, g: ProtocolFilter)
    ensures
        !filter_name(f).contains(','),
        f != g ==> filter_name(f) != filter_name(g),
{
    reveal_strlit("RDP");
    reveal_strlit("SPICE");
    reveal_strlit("SSH");
    reveal_strlit("VNC");
    reveal_strlit("ZeroTrust");
    let n = filter_name(f);
    if n.contains(',') {
        let i = choose|i: int| 0 <= i < n.len() && n[i] == ',';
    }
    if f != g && filter_name(f) == filter_name(g) {
        assert(filter_name(f).len() == filter_name(g).len());
        assert(filter_name(f)[0] == filter_name(g)[0]);
        assert(filter_name(f)[1] == filter_name(g)[1]);
    }
}

proof fn lemma_joined_names_split(fs: Seq<ProtocolFilter>)
    requires
        fs.len() >= 1,
    ensures
        split_on(joined_names(fs), ',') == fs.map_values(|f: ProtocolFilter| filter_name(f)),
    decreases fs.len(),
{
    lemma_filter_names(fs.last(), fs.last());
    if fs.len() == 1 {
        lemma_split_on_single(filter_name(fs[0]), ',');
        assert(fs.map_values(|f: ProtocolFilter| filter_name(f)) =~= seq![filter_name(fs[0])]);
    } else {
        lemma_joined_names_split(fs.drop_last());
        reveal_strlit(",");
        assert(","@ == seq![',']);
        lemma_split_on_join(joined_names(fs.drop_last()), filter_name(fs.last()), ',');
        assert(fs.map_values(|f: ProtocolFilter| filter_name(f)) =~= fs.drop_last().map_values(
            |f: ProtocolFilter| filter_name(f),
        ).push(filter_name(fs.last())));
    }
}

proof fn lemma_active_filters(active: Seq<bool>)
    requires
        active.len() <= 5,
    ensures
        active_filters(active).len() == count_set(active),
        forall|k: int|
            0 <= k < active_filters(active).len() ==> exists|i: int|
                0 <= i < active.len() && active[i] && #[trigger] active_filters(active)[k]
                    == filter_at(i),
        forall|i: int|
            0 <= i < active.len() && active[i] ==> #[trigger] active_filters(active).contains(
                filter_at(i),
            ),
    decreases active.len(),
{
    if active.len() > 0 {
        let rest = active.drop_last();
        lemma_active_filters(rest);
        let r = active_filters(rest);
        let a = active_filters(active);
        assert forall|k: int| 0 <= k < a.len() implies exists|i: int|
            0 <= i < active.len() && active[i] && #[trigger] a[k] == filter_at(i) by {
            if k < r.len() {
                assert(a[k] == r[k]);
                let i = choose|i: int| 0 <= i < rest.len() && rest[i] && #[trigger] r[k] == filter_at(i);
                assert(active[i] == rest[i]);
            } else {
                assert(a[k] == filter_at(active.len() - 1));
            }
        }
        assert forall|i: int| 0 <= i < active.len() && active[i] implies #[trigger] a.contains(
            filter_at(i),
        ) by {
            if i < active.len() - 1 {
                assert(rest[i] == active[i]);
                assert(r.contains(filter_at(i)));
                let k = choose|k: int| 0 <= k < r.len() && r[k] == filter_at(i);
                if active.last() {
                    assert(a[k] == r[k]);
                }
            } else {
                assert(a[a.len() - 1] == filter_at(i));
            }
        }
    }
}

/// The query of several active filters names every one of them: it is
/// `protocols:` followed by comma-separated names, as many names as active
/// filters, and a filter's name is among them exactly when the filter is
/// active.
pub proof fn filter_query_names_all_active(active: Seq<bool>)
    requires
        active.len() == 5,
        count_set(active) >= 2,
    ensures
        ({
            let names = split_on(joined_names(active_filters(active)), ',');
            &&& filter_query(active_filters(active)) == "protocols:"@ + joined_names(
                active_filters(active),
            )
            &&& names.len() == count_set(active)
            &&& forall|i: int|
                0 <= i < 5 ==> (names.contains(filter_name(#[trigger] filter_at(i))) <==> active[i])
        }),
{
    let fs = active_filters(active);
    lemma_active_filters(active);
    lemma_joined_names_split(fs);
    let names = split_on(joined_names(fs), ',');
    assert forall|i: int| 0 <= i < 5 implies (names.contains(filter_name(#[trigger] filter_at(i)))
        <==> active[i]) by {
        if active[i] {
            assert(active_filters(active).contains(filter_at(i)));
            let k = choose|k: int| 0 <= k < fs.len() && fs[k] == filter_at(i);
            assert(names[k] == filter_name(fs[k]));
            assert(names.contains(filter_name(filter_at(i))));
        }
        if names.contains(filter_name(filter_at(i))) {
            let k = choose|k: int| 0 <= k < names.len() && names[k] == filter_name(filter_at(i));
            assert(names[k] == filter_name(fs[k]));
            let j = choose|j: int| 0 <= j < active.len() && active[j] && #[trigger] fs[k] == filter_at(j);
            lemma_filter_names(fs[k], filter_at(i));
            assert(filter_index(filter_at(j)) == j);
            assert(filter_index(filter_at(i)) == i);
        }
    }
}

/// Toggling a filter twice leaves the filters as they were.
pub proof fn filter_toggle_twice(filters: Seq<bool>, f: ProtocolFilter)
    requires
        filters.len() == 5,
    ensures
        filters.update(filter_index(f), !filters[filter_index(f)]).update(
            filter_index(f),
            !filters.update(filter_index(f), !filters[filter_index(f)])[filter_index(f)],
        ) == filters,
{
    assert(filters.update(filter_index(f), !filters[filter_index(f)]).update(
        filter_index(f),
        !filters.update(filter_index(f), !filters[filter_index(f)])[filter_index(f)],
    ) =~= filters);
}

/// Toggling an item in the persisted selection twice leaves the selection as
/// it was.
pub proof fn selection_toggle_twice(selection: Set<u128>, id: u128)
    ensures
        ({
            let once = if selection.contains(id) {
                selection.remove(id)
            } else {
                selection.insert(id)
            };
            if once.contains(id) {
                once.remove(id)
            } else {
                once.insert(id)
            }
        }) == selection,
{
    let once = if selection.contains(id) {
        selection.remove(id)
    } else {
        selection.insert(id)
    };
    let twice = if once.contains(id) {
        once.remove(id)
    } else {
        once.insert(id)
    };
    assert(twice =~= selection);
}

// ---------------------------------------------------------------------------
// Tree rows read back
// ---------------------------------------------------------------------------

/// The identifiers among item identifier texts that parse, in order.
pub open spec fn parsed_ids(texts: Seq<Seq<char>>) -> Seq<u128>
    decreases texts.len(),
{
    if texts.len() == 0 {
        Seq::empty()
    } else {
        let before = parsed_ids(texts.drop_last());
        match uuid_parse(texts.last()) {
            Some(id) => before.push(id),
            None => before,
        }
    }
}

/// The identifiers of the selected rows, given their identifier texts;
/// texts that are not identifiers are skipped.
pub fn get_selected_ids(selected: &Vec<String>) -> (ids: Vec<u128>)
    ensures
        ids@ == parsed_ids(string_views(selected@)),
{
    let ghost views = string_views(selected@);
    let mut ids: Vec<u128> = Vec::new();
    let mut i: usize = 0;
    while i < selected.len()
        invariant
            i <= selected@.len(),
            views == string_views(selected@),
            ids@ == parsed_ids(views.take(i as int)),
        decreases selected@.len() - i,
    {
        proof {
            assert(views.take(i + 1).drop_last() =~= views.take(i as int));
            assert(views.take(i + 1).last() == selected@[i as int]@);
        }
        match parse_id(selected[i].as_str()) {
            Some(id) => ids.push(id),
            None => {},
        }
        i += 1;
    }
    proof {
        assert(views.take(selected@.len() as int) =~= views);
    }
    ids
}

/// A row of the tree as read back: identifier text, whether it is a group,
/// whether it is a document, whether it is expanded.
pub open spec fn expanded_rows(rows: Seq<(Seq<char>, bool, bool, bool)>) -> Seq<Seq<char>>
    decreases rows.len(),
{
    if rows.len() == 0 {
        Seq::empty()
    } else {
        let before = expanded_rows(rows.drop_last());
        let r = rows.last();
        if (r.1 || r.2) && r.3 {
            before.push(r.0)
        } else {
            before
        }
    }
}

/// The identifiers of the expanded groups and documents among the rows
/// (identifier text, is group, is document, is expanded).
pub fn get_expanded_groups(rows: &Vec<(String, bool, bool, bool)>) -> (ids: Vec<u128>)
    ensures
        ids@ == parsed_ids(
            expanded_rows(rows@.map_values(|r: (String, bool, bool, bool)| (r.0@, r.1, r.2, r.3))),
        ),
{
    let ghost views = rows@.map_values(|r: (String, bool, bool, bool)| (r.0@, r.1, r.2, r.3));
    let mut texts: Vec<String> = Vec::new();
    let mut i: usize = 0;
    while i < rows.len()
        invariant
            i <= rows@.len(),
            views == rows@.map_values(|r: (String, bool, bool, bool)| (r.0@, r.1, r.2, r.3)),
            string_views(texts@) == expanded_rows(views.take(i as int)),
        decreases rows@.len() - i,
    {
        proof {
            assert(views.take(i + 1).drop_last() =~= views.take(i as int));
            assert(views.take(i + 1).last() == views[i as int]);
        }
        let r = &rows[i];
        if (r.1 || r.2) && r.3 {
            let ghost before = string_views(texts@);
            texts.push(r.0.clone());
            proof {
                assert(string_views(texts@) =~= before.push(r.0@));
            }
        }
        i += 1;
    }
    proof {
        assert(views.take(rows@.len() as int) =~= views);
    }
    get_selected_ids(&texts)
}

/// The row to select for an item: the first row (by identifier text, in
/// row order) showing the identifier of `item_id`, or `None` when no row
/// shows it.
pub fn select_item_by_id(row_ids: &Vec<String>, item_id: u128) -> (row: Option<usize>)
    ensures
        ({
            let k = first_index(string_views(row_ids@), uuid_text(item_id));
            row == if k >= 0 {
                Some(k as usize)
            } else {
                None
            }
        }),
{
    let text = id_text(item_id);
    let ghost keys = string_views(row_ids@);
    proof {
        lemma_first_index(keys, uuid_text(item_id));
    }
    let mut i: usize = 0;
    while i < row_ids.len()
        invariant
            i <= row_ids@.len(),
            keys == string_views(row_ids@),
            text@ == uuid_text(item_id),
            forall|j: int| 0 <= j < i ==> keys[j] != text@,
            -1 <= first_index(keys, text@) < keys.len(),
            first_index(keys, text@) == -1 ==> forall|j: int| 0 <= j < keys.len() ==> keys[j] != text@,
            first_index(keys, text@) >= 0 ==> keys[first_index(keys, text@)] == text@,
            forall|j: int| 0 <= j < first_index(keys, text@) ==> keys[j] != text@,
        decreases row_ids.len() - i,
    {
        if str_eq(row_ids[i].as_str(), text.as_str()) {
            assert(keys[i as int] == text@);
            return Some(i);
        }
        assert(keys[i as int] != text@);
        i += 1;
    }
    None
}

/// The tree state saved when a search starts, to be restored when it is
/// cleared.
pub struct PreSearchState<T> {
    saved: Option<T>,
}

impl<T> PreSearchState<T> {
    /// What is saved.
    pub closed spec fn saved_spec(&self) -> Option<T> {
        self.saved
    }

    /// Nothing saved.
    pub fn new() -> (s: Self)
        ensures
            s.saved_spec() is None,
    {
        PreSearchState { saved: None }
    }

    /// Saves the tree state at the first keystroke of a search: a state
    /// saved already is kept.
    pub fn save_pre_search_state(&mut self, current: T)
        ensures
            final(self).saved_spec() == if old(self).saved_spec() is None {
                Some(current)
            } else {
                old(self).saved_spec()
            },
    {
        if self.saved.is_none() {
            self.saved = Some(current);
        }
    }

    /// Hands back the saved state to restore, and forgets it.
    pub fn restore_pre_search_state(&mut self) -> (s: Option<T>)
        ensures
            s == old(self).saved_spec(),
            final(self).saved_spec() is None,
    {
        self.saved.take()
    }

    /// Checks if there is a saved pre-search state.
    pub fn has_pre_search_state(&self) -> (b: bool)
        ensures
            b == (self.saved_spec() is Some),
    {
        self.saved.is_some()
    }
}

/// The position of the last of a document's groups with identifier `g`, or
/// -1.
pub open spec fn last_group_position(group_ids: Seq<u128>, g: u128) -> int
    decreases group_ids.len(),
{
    if group_ids.len() == 0 {
        -1
    } else if group_ids.last() == g {
        group_ids.len() - 1
    } else {
        last_group_position(group_ids.drop_last(), g)
    }
}

/// Where a document's connection sits in the tree: under its group when
/// the document has a group with that identifier (the last such one, as
/// later groups replace earlier ones), otherwise (`None`) directly under
/// the document.
pub fn document_placement(group_ids: &Vec<u128>, group_id: Option<u128>) -> (pos: Option<usize>)
    ensures
        match group_id {
            Some(g) => match pos {
                Some(p) => p as int == last_group_position(group_ids@, g),
                None => last_group_position(group_ids@, g) == -1,
            },
            None => pos is None,
        },
{
    match group_id {
        None => None,
        Some(g) => {
            let mut i: usize = group_ids.len();
            proof {
                assert(group_ids@.take(i as int) =~= group_ids@);
            }
            while i > 0
                invariant
                    i <= group_ids@.len(),
                    group_id == Some(g),
                    last_group_position(group_ids@, g) == last_group_position(
                        group_ids@.take(i as int),
                        g,
                    ),
                decreases i,
            {
                proof {
                    assert(group_ids@.take(i as int).last() == group_ids@[i - 1]);
                    assert(group_ids@.take(i as int).drop_last() =~= group_ids@.take(i - 1));
                }
                if group_ids[i - 1] == g {
                    return Some(i - 1);
                }
                i -= 1;
            }
            None
        },
    }
}

/// Whether a tree row is expanded when restoring the expanded groups: an
/// expandable, collapsed group or document whose identifier is among the
/// expanded ones.
pub fn should_expand_row(
    is_expandable: bool,
    is_expanded: bool,
    is_group_or_document: bool,
    id_text: &str,
    expanded: &Vec<u128>,
) -> (b: bool)
    ensures
        b == (is_expandable && !is_expanded && is_group_or_document && match uuid_parse(id_text@) {
            Some(id) => expanded@.contains(id),
            None => false,
        }),
{
    if !(is_expandable && !is_expanded && is_group_or_document) {
        return false;
    }
    match parse_id(id_text) {
        None => false,
        Some(id) => {
            let mut i: usize = 0;
            while i < expanded.len()
                invariant
                    i <= expanded@.len(),
                    is_expandable && !is_expanded && is_group_or_document,
                    uuid_parse(id_text@) == Some(id),
                    forall|k: int| 0 <= k < i ==> expanded@[k] != id,
                decreases expanded@.len() - i,
            {
                if expanded[i] == id {
                    proof {
                        assert(expanded@[i as int] == id);
                    }
                    return true;
                }
                i += 1;
            }
            false
        },
    }
}

} // verus!
