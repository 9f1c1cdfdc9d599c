//! The sidebar's item tree: documents and groups hold child items, and
//! lookups and status changes walk it depth first.

use vstd::prelude::*;
use crate::ids::{uuid_parse, uuid_text};
use crate::seqs::{first_index, lemma_first_index};
use crate::sidebar::{status_of, ConnectionItem, SessionStatusInfo};
use crate::strings::str_eq;

verus! {

/// Whether the tree under `item`, the item included, holds an item with
/// identifier `id`. With `kinds_only`, only the children of groups and
/// documents are searched.
pub open spec fn item_reaches(item: ConnectionItem, id: Seq<char>, kinds_only: bool) -> bool
    decreases item, 0int,
{
    if item.id@ == id {
        true
    } else {
        match item.children {
            Some(c) => {
                if !kinds_only || item.is_group || item.is_document {
                    proof {
                        assert(decreases_to!(item => item.children));
                        assert(decreases_to!(item.children => c));
                        assert(decreases_to!(c => c@));
                    }
                    items_reach_from(c@, 0, id, kinds_only)
                } else {
                    false
                }
            },
            None => false,
        }
    }
}

/// Whether one of `items` from position `from` on reaches `id` (see
/// `item_reaches`).
pub open spec fn items_reach_from(
    items: Seq<ConnectionItem>,
    from: int,
    id: Seq<char>,
    kinds_only: bool,
) -> bool
    decreases items, items.len() - from,
{
    if 0 <= from < items.len() {
        item_reaches(items[from], id, kinds_only) || items_reach_from(items, from + 1, id, kinds_only)
    } else {
        false
    }
}

/// Searches `model` depth first for an item with identifier `item_id`;
/// with `kinds_only`, only below groups and documents.
fn search_items(model: &Vec<ConnectionItem>, item_id: &str, kinds_only: bool) -> (found: bool)
    ensures
        found == items_reach_from(model@, 0, item_id@, kinds_only),
    decreases model@,
{
    let mut i: usize = 0;
    while i < model.len()
        invariant
            i <= model@.len(),
            items_reach_from(model@, 0, item_id@, kinds_only) == items_reach_from(
                model@,
                i as int,
                item_id@,
                kinds_only,
            ),
        decreases model.len() - i,
    {
        if str_eq(model[i].id.as_str(), item_id) {
            assert(item_reaches(model@[i as int], item_id@, kinds_only));
            return true;
        }
        if !kinds_only || model[i].is_group || model[i].is_document {
            match &model[i].children {
                Some(c) => {
                    proof {
                        assert(decreases_to!(model@ => model@[i as int]));
                        assert(decreases_to!(model@[i as int] => model@[i as int].children));
                        assert(decreases_to!(model@[i as int].children => *c));
                        assert(decreases_to!(*c => c@));
                    }
                    if search_items(c, item_id, kinds_only) {
                        assert(item_reaches(model@[i as int], item_id@, kinds_only));
                        return true;
                    }
                    assert(!item_reaches(model@[i as int], item_id@, kinds_only));
                },
                None => {
                    assert(!item_reaches(model@[i as int], item_id@, kinds_only));
                },
            }
        } else {
            assert(!item_reaches(model@[i as int], item_id@, kinds_only));
        }
        i += 1;
    }
    false
}

/// Searches `model`, and the children of each item that has them, for an
/// item with identifier `item_id`.
pub fn find_item_in_children(model: &Vec<ConnectionItem>, item_id: &str) -> (found: bool)
    ensures
        found == items_reach_from(model@, 0, item_id@, false),
{
    search_items(model, item_id, false)
}

/// `after` is `before` with a new status on the item with identifier `id`,
/// which `before` reaches below groups and documents: on `before` itself
/// when the identifiers match, else on the first child that reaches it.
/// Every other field stays.
pub open spec fn item_status_set(
    before: ConnectionItem,
    after: ConnectionItem,
    id: Seq<char>,
    status: Seq<char>,
) -> bool
    decreases before, 0int,
{
    &&& after.id == before.id
    &&& after.name == before.name
    &&& after.protocol == before.protocol
    &&& after.is_group == before.is_group
    &&& after.is_document == before.is_document
    &&& after.is_dirty == before.is_dirty
    &&& after.host == before.host
    &&& if before.id@ == id {
        after.status@ == status && after.children == before.children
    } else {
        &&& after.status == before.status
        &&& match before.children {
            Some(b) => {
                proof {
                    assert(decreases_to!(before => before.children));
                    assert(decreases_to!(before.children => b));
                    assert(decreases_to!(b => b@));
                }
                after.children matches Some(a) && items_status_set_from(b@, a@, 0, id, status)
            },
            None => false,
        }
    }
}

/// `after` is `before` where, from position `from` on, the first item that
/// reaches `id` below groups and documents has taken the new status (see
/// `item_status_set`) and every other item is unchanged.
pub open spec fn items_status_set_from(
    before: Seq<ConnectionItem>,
    after: Seq<ConnectionItem>,
    from: int,
    id: Seq<char>,
    status: Seq<char>,
) -> bool
    decreases before, before.len() - from,
{
    &&& after.len() == before.len()
    &&& if 0 <= from < before.len() {
        if item_reaches(before[from], id, true) {
            &&& item_status_set(before[from], after[from], id, status)
            &&& forall|k: int| from < k < before.len() ==> after[k] == before[k]
        } else {
            after[from] == before[from] && items_status_set_from(before, after, from + 1, id, status)
        }
    } else {
        true
    }
}

proof fn lemma_reach_from_unreached(items: Seq<ConnectionItem>, from: int, id: Seq<char>, kinds_only: bool)
    requires
        0 <= from <= items.len(),
        forall|k: int| from <= k < items.len() ==> !item_reaches(items[k], id, kinds_only),
    ensures
        !items_reach_from(items, from, id, kinds_only),
    decreases items.len() - from,
{
    if from < items.len() {
        lemma_reach_from_unreached(items, from + 1, id, kinds_only);
    }
}

/// Leaving every item as it is meets the update when nothing reaches `id`.
proof fn lemma_status_set_same(before: Seq<ConnectionItem>, from: int, id: Seq<char>, status: Seq<char>)
    requires
        0 <= from <= before.len(),
        forall|k: int| from <= k < before.len() ==> !item_reaches(before[k], id, true),
    ensures
        items_status_set_from(before, before, from, id, status),
    decreases before.len() - from,
{
    if from < before.len() {
        lemma_status_set_same(before, from + 1, id, status);
    }
}

/// Changing only the item at `i`, the first that reaches `id`, as
/// `item_status_set` says, meets the update from any earlier position.
proof fn lemma_status_set_at(
    before: Seq<ConnectionItem>,
    after: Seq<ConnectionItem>,
    from: int,
    i: int,
    id: Seq<char>,
    status: Seq<char>,
)
    requires
        0 <= from <= i < before.len(),
        after.len() == before.len(),
        forall|k: int| 0 <= k < i ==> !item_reaches(#[trigger] before[k], id, true),
        forall|k: int| 0 <= k < before.len() && k != i ==> after[k] == before[k],
        item_reaches(before[i], id, true),
        item_status_set(before[i], after[i], id, status),
    ensures
        items_status_set_from(before, after, from, id, status),
    decreases i - from,
{
    if from < i {
        lemma_status_set_at(before, after, from + 1, i, id, status);
    }
}

/// Sets the status of the first item with identifier `id`, searching
/// `model` depth first and descending only into groups and documents.
/// Returns whether such an item was found.
pub fn update_item_status_recursive(model: &mut Vec<ConnectionItem>, id: &str, status: &str) -> (found: bool)
    ensures
        found == items_reach_from(old(model)@, 0, id@, true),
        items_status_set_from(old(model)@, final(model)@, 0, id@, status@),
    decreases old(model)@,
{
    let ghost before = old(model)@;
    let mut i: usize = 0;
    while i < model.len()
        invariant
            model@ == before,
            before == old(model)@,
            i <= before.len(),
            items_reach_from(before, 0, id@, true) == items_reach_from(before, i as int, id@, true),
            forall|k: int| 0 <= k < i ==> !item_reaches(#[trigger] before[k], id@, true),
        decreases model.len() - i,
    {
        if str_eq(model[i].id.as_str(), id) {
            let mut item = model.remove(i);
            item.status = status.to_owned();
            model.insert(i, item);
            proof {
                assert(item_reaches(before[i as int], id@, true));
                assert(items_reach_from(before, i as int, id@, true));
                lemma_status_set_at(before, model@, 0, i as int, id@, status@);
            }
            return true;
        }
        let below = (model[i].is_group || model[i].is_document) && match &model[i].children {
            Some(c) => search_items(c, id, true),
            None => false,
        };
        if below {
            let ConnectionItem {
                id: item_id,
                name,
                protocol,
                is_group,
                is_document,
                is_dirty,
                host,
                status: item_status,
                children,
            } = model.remove(i);
            proof {
                assert(children == before[i as int].children);
            }
            let mut c = match children {
                Some(c) => c,
                None => Vec::new(),
            };
            proof {
                assert(c == before[i as int].children->0);
                assert(decreases_to!(before => before[i as int]));
                assert(decreases_to!(before[i as int] => before[i as int].children));
                assert(decreases_to!(before[i as int].children => before[i as int].children->0));
                assert(decreases_to!(before[i as int].children->0 => before[i as int].children->0@));
            }
            let found = update_item_status_recursive(&mut c, id, status);
            let item = ConnectionItem {
                id: item_id,
                name,
                protocol,
                is_group,
                is_document,
                is_dirty,
                host,
                status: item_status,
                children: Some(c),
            };
            model.insert(i, item);
            proof {
                assert(item_reaches(before[i as int], id@, true));
                assert(items_reach_from(before, i as int, id@, true));
                assert(model@[i as int] == item);
                assert(item_status_set(before[i as int], item, id@, status@));
                lemma_status_set_at(before, model@, 0, i as int, id@, status@);
            }
            return true;
        }
        assert(!item_reaches(before[i as int], id@, true));
        i += 1;
    }
    proof {
        lemma_reach_from_unreached(before, i as int, id@, true);
        lemma_status_set_same(before, 0, id@, status@);
    }
    false
}

/// The index of the last group with identifier `gid`, or -1.
pub open spec fn last_group_index(groups: Seq<(u128, String)>, gid: u128) -> int
    decreases groups.len(),
{
    if groups.len() == 0 {
        -1
    } else if groups.last().0 == gid {
        groups.len() - 1
    } else {
        last_group_index(groups.drop_last(), gid)
    }
}

/// Where a connection of a document goes: the index of the last group with
/// its group identifier, or -1 (the document itself) when it has no group or
/// its group is not among the document's groups.
pub open spec fn conn_home(
    groups: Seq<(u128, String)>,
    conn: (u128, String, String, String, Option<u128>),
) -> int {
    match conn.4 {
        Some(g) => last_group_index(groups, g),
        None => -1,
    }
}

/// The connections whose home is `home`, in order.
pub open spec fn home_members(
    groups: Seq<(u128, String)>,
    conns: Seq<(u128, String, String, String, Option<u128>)>,
    home: int,
) -> Seq<(u128, String, String, String, Option<u128>)>
    decreases conns.len(),
{
    if conns.len() == 0 {
        Seq::empty()
    } else {
        let before = home_members(groups, conns.drop_last(), home);
        if conn_home(groups, conns.last()) == home {
            before.push(conns.last())
        } else {
            before
        }
    }
}

/// The status a connection's row shows: the recorded one, else
/// `disconnected`.
pub open spec fn shown_status(statuses: Seq<(String, SessionStatusInfo)>, id: Seq<char>) -> Seq<
    char,
> {
    match status_of(statuses, id) {
        Some((s, _)) => s,
        None => "disconnected"@,
    }
}

/// The row of a connection: its identifier rendered as text, its name,
/// protocol and host, and its shown status.
pub open spec fn conn_row(
    item: ConnectionItem,
    conn: (u128, String, String, String, Option<u128>),
    statuses: Seq<(String, SessionStatusInfo)>,
) -> bool {
    &&& item.id@ == uuid_text(conn.0)
    &&& item.name@ == conn.1@
    &&& item.protocol@ == conn.2@
    &&& item.host@ == conn.3@
    &&& !item.is_group && !item.is_document && !item.is_dirty
    &&& item.status@ == shown_status(statuses, uuid_text(conn.0))
    &&& item.children is None
}

/// The row of a group holding `members`' rows in order.
pub open spec fn group_row(
    item: ConnectionItem,
    group: (u128, String),
    members: Seq<(u128, String, String, String, Option<u128>)>,
    statuses: Seq<(String, SessionStatusInfo)>,
) -> bool {
    &&& item.id@ == uuid_text(group.0)
    &&& item.name@ == group.1@
    &&& item.is_group && !item.is_document && !item.is_dirty
    &&& item.protocol@.len() == 0 && item.host@.len() == 0 && item.status@.len() == 0
    &&& item.children matches Some(m) && m@.len() == members.len() && forall|t: int|
        0 <= t < members.len() ==> conn_row(#[trigger] m@[t], members[t], statuses)
}

/// The children of a document: a row per group, holding the connections
/// whose home it is, then the rows of the connections without a home.
pub open spec fn document_children(
    children: Seq<ConnectionItem>,
    groups: Seq<(u128, String)>,
    conns: Seq<(u128, String, String, String, Option<u128>)>,
    statuses: Seq<(String, SessionStatusInfo)>,
) -> bool {
    let roots = home_members(groups, conns, -1);
    &&& children.len() == groups.len() + roots.len()
    &&& forall|j: int|
        0 <= j < groups.len() ==> group_row(
            #[trigger] children[j],
            groups[j],
            home_members(groups, conns, j),
            statuses,
        )
    &&& forall|j: int|
        groups.len() <= j < children.len() ==> conn_row(
            #[trigger] children[j],
            roots[j - groups.len()],
            statuses,
        )
}

/// The row of a document with its groups and connections.
pub open spec fn document_row(
    item: ConnectionItem,
    doc: (u128, String, bool),
    groups: Seq<(u128, String)>,
    conns: Seq<(u128, String, String, String, Option<u128>)>,
    statuses: Seq<(String, SessionStatusInfo)>,
) -> bool {
    &&& item.id@ == uuid_text(doc.0)
    &&& uuid_parse(item.id@) == Some(doc.0)
    &&& item.name@ == doc.1@
    &&& item.is_document && !item.is_group && item.is_dirty == doc.2
    &&& item.protocol@.len() == 0 && item.host@.len() == 0 && item.status@.len() == 0
    &&& item.children matches Some(c) && document_children(c@, groups, conns, statuses)
}

/// Finds the last group with identifier `gid`.
pub(crate) fn find_last_group(groups: &Vec<(u128, String)>, gid: u128) -> (r: Option<usize>)
    ensures
        match r {
            Some(h) => h as int == last_group_index(groups@, gid) && h < groups@.len(),
            None => last_group_index(groups@, gid) == -1,
        },
{
    let mut n: usize = groups.len();
    assert(groups@.take(n as int) =~= groups@);
    while n > 0
        invariant
            n <= groups@.len(),
            last_group_index(groups@, gid) == last_group_index(groups@.take(n as int), gid),
        decreases n,
    {
        assert(groups@.take(n as int).drop_last() =~= groups@.take(n - 1));
        if groups[n - 1].0 == gid {
            return Some(n - 1);
        }
        n -= 1;
    }
    None
}

/// The members of each home among a prefix one connection longer.
pub proof fn lemma_home_members_step(
    groups: Seq<(u128, String)>,
    conns: Seq<(u128, String, String, String, Option<u128>)>,
    i: int,
)
    requires
        0 <= i < conns.len(),
    ensures
        forall|home: int|
            #[trigger] home_members(groups, conns.take(i + 1), home) == if conn_home(groups, conns[i])
                == home {
                home_members(groups, conns.take(i), home).push(conns[i])
            } else {
                home_members(groups, conns.take(i), home)
            },
{
    assert(conns.take(i + 1).drop_last() =~= conns.take(i));
}

/// The identifiers of the top-level documents; `None` at other items.
pub open spec fn document_keys(store: Seq<ConnectionItem>) -> Seq<Option<Seq<char>>> {
    store.map_values(
        |it: ConnectionItem|
            if it.is_document {
                Some(it.id@)
            } else {
                None
            },
    )
}

/// For each top-level item, whether it is a document that is or holds the
/// item with identifier text `text`.
pub open spec fn document_holders(store: Seq<ConnectionItem>, text: Seq<char>) -> Seq<bool> {
    store.map_values(|it: ConnectionItem| it.is_document && item_reaches(it, text, false))
}

/// Reaching `id` at position `j` makes the sequence reach it from any
/// position up to `j`.
proof fn lemma_reach_at(
    items: Seq<ConnectionItem>,
    from: int,
    j: int,
    id: Seq<char>,
    kinds_only: bool,
)
    requires
        0 <= from <= j < items.len(),
        item_reaches(items[j], id, kinds_only),
    ensures
        items_reach_from(items, from, id, kinds_only),
    decreases j - from,
{
    if from < j {
        lemma_reach_at(items, from + 1, j, id, kinds_only);
    }
}

/// A group index found for a connection lies among the groups.
proof fn lemma_last_group_index(groups: Seq<(u128, String)>, gid: u128)
    ensures
        -1 <= last_group_index(groups, gid) < groups.len(),
    decreases groups.len(),
{
    if groups.len() > 0 {
        lemma_last_group_index(groups.drop_last(), gid);
    }
}

/// Each connection is among the members of its home; the result is its
/// position there.
proof fn lemma_member_of_home(
    groups: Seq<(u128, String)>,
    conns: Seq<(u128, String, String, String, Option<u128>)>,
    c: int,
) -> (t: int)
    requires
        0 <= c < conns.len(),
    ensures
        0 <= t < home_members(groups, conns, conn_home(groups, conns[c])).len(),
        home_members(groups, conns, conn_home(groups, conns[c]))[t] == conns[c],
    decreases conns.len(),
{
    let h = conn_home(groups, conns[c]);
    if c == conns.len() - 1 {
        home_members(groups, conns, h).len() - 1
    } else {
        let rest = conns.drop_last();
        assert(rest[c] == conns[c]);
        lemma_member_of_home(groups, rest, c)
    }
}

/// A document's row holds the document itself, each of its groups and each
/// of its connections: looking up any of them from the document finds it.
pub proof fn document_row_holds_contents(
    item: ConnectionItem,
    doc: (u128, String, bool),
    groups: Seq<(u128, String)>,
    conns: Seq<(u128, String, String, String, Option<u128>)>,
    statuses: Seq<(String, SessionStatusInfo)>,
)
    requires
        document_row(item, doc, groups, conns, statuses),
    ensures
        item_reaches(item, uuid_text(doc.0), false),
        forall|g: int| 0 <= g < groups.len() ==> item_reaches(item, uuid_text(#[trigger] groups[g].0), false),
        forall|c: int| 0 <= c < conns.len() ==> item_reaches(item, uuid_text(#[trigger] conns[c].0), false),
{
    let children = item.children->0@;
    assert forall|g: int| 0 <= g < groups.len() implies item_reaches(
        item,
        uuid_text(#[trigger] groups[g].0),
        false,
    ) by {
        assert(item_reaches(children[g], uuid_text(groups[g].0), false));
        lemma_reach_at(children, 0, g, uuid_text(groups[g].0), false);
    }
    assert forall|c: int| 0 <= c < conns.len() implies item_reaches(
        item,
        uuid_text(#[trigger] conns[c].0),
        false,
    ) by {
        let text = uuid_text(conns[c].0);
        let h = conn_home(groups, conns[c]);
        let t = lemma_member_of_home(groups, conns, c);
        match conns[c].4 {
            Some(gid) => lemma_last_group_index(groups, gid),
            None => {},
        }
        if h >= 0 {
            let members = home_members(groups, conns, h);
            let row = children[h];
            assert(group_row(row, groups[h], members, statuses));
            let m = row.children->0@;
            assert(conn_row(m[t], members[t], statuses));
            assert(item_reaches(m[t], text, false));
            lemma_reach_at(m, 0, t, text, false);
            assert(item_reaches(row, text, false));
            lemma_reach_at(children, 0, h, text, false);
        } else {
            let roots = home_members(groups, conns, -1);
            let j = groups.len() + t;
            assert(conn_row(children[j], roots[j - groups.len()], statuses));
            assert(item_reaches(children[j], text, false));
            lemma_reach_at(children, 0, j, text, false);
        }
    }
}

/// After the tree is built from documents, looking up a group or connection
/// of document `k` finds document `k` or an earlier one that also holds an
/// item with that identifier; the identifier read back from the row found
/// is that document's.
pub proof fn populated_lookup_finds_document(
    store: Seq<ConnectionItem>,
    documents: Seq<(u128, String, bool)>,
    contents: Seq<(Vec<(u128, String)>, Vec<(u128, String, String, String, Option<u128>)>)>,
    statuses: Seq<(String, SessionStatusInfo)>,
    k: int,
    id: u128,
)
    requires
        store.len() == documents.len(),
        contents.len() == documents.len(),
        forall|t: int|
            0 <= t < documents.len() ==> document_row(
                #[trigger] store[t],
                documents[t],
                contents[t].0@,
                contents[t].1@,
                statuses,
            ),
        0 <= k < documents.len(),
        id == documents[k].0 || (exists|g: int| 0 <= g < contents[k].0@.len() && #[trigger] contents[k].0@[g].0 == id)
            || (exists|c: int| 0 <= c < contents[k].1@.len() && #[trigger] contents[k].1@[c].0 == id),
    ensures
        ({
            let f = first_index(document_holders(store, uuid_text(id)), true);
            &&& 0 <= f <= k
            &&& uuid_parse(store[f].id@) == Some(documents[f].0)
        }),
{
    let holders = document_holders(store, uuid_text(id));
    document_row_holds_contents(store[k], documents[k], contents[k].0@, contents[k].1@, statuses);
    if id != documents[k].0 {
        if exists|g: int| 0 <= g < contents[k].0@.len() && #[trigger] contents[k].0@[g].0 == id {
            let g = choose|g: int| 0 <= g < contents[k].0@.len() && #[trigger] contents[k].0@[g].0 == id;
            assert(item_reaches(store[k], uuid_text(contents[k].0@[g].0), false));
        } else {
            let c = choose|c: int| 0 <= c < contents[k].1@.len() && #[trigger] contents[k].1@[c].0 == id;
            assert(item_reaches(store[k], uuid_text(contents[k].1@[c].0), false));
        }
    }
    assert(holders[k]);
    lemma_first_index(holders, true);
    let f = first_index(holders, true);
    assert(document_row(store[f], documents[f], contents[f].0@, contents[f].1@, statuses));
}

/// Two sequences that agree from `from` on reach the same identifiers from
/// there.
proof fn lemma_reach_same_suffix(
    a: Seq<ConnectionItem>,
    b: Seq<ConnectionItem>,
    from: int,
    x: Seq<char>,
    kinds_only: bool,
)
    requires
        0 <= from <= a.len(),
        a.len() == b.len(),
        forall|k: int| from <= k < a.len() ==> a[k] == b[k],
    ensures
        items_reach_from(a, from, x, kinds_only) == items_reach_from(b, from, x, kinds_only),
    decreases a.len() - from,
{
    if from < a.len() {
        lemma_reach_same_suffix(a, b, from + 1, x, kinds_only);
    }
}

/// A status change on one item keeps the identifiers its tree reaches.
proof fn lemma_item_status_set_keeps(
    before: ConnectionItem,
    after: ConnectionItem,
    id: Seq<char>,
    status: Seq<char>,
    x: Seq<char>,
    kinds_only: bool,
)
    requires
        item_status_set(before, after, id, status),
    ensures
        item_reaches(after, x, kinds_only) == item_reaches(before, x, kinds_only),
    decreases before, 0int,
{
    if before.id@ != id {
        let b = before.children->0;
        let a = after.children->0;
        assert(decreases_to!(before => before.children));
        assert(decreases_to!(before.children => b));
        assert(decreases_to!(b => b@));
        lemma_items_status_set_keeps(b@, a@, 0, id, status, x, kinds_only);
    }
}

/// A status change from `from` on keeps the identifiers reached from there.
proof fn lemma_items_status_set_keeps(
    before: Seq<ConnectionItem>,
    after: Seq<ConnectionItem>,
    from: int,
    id: Seq<char>,
    status: Seq<char>,
    x: Seq<char>,
    kinds_only: bool,
)
    requires
        0 <= from <= before.len(),
        items_status_set_from(before, after, from, id, status),
    ensures
        items_reach_from(after, from, x, kinds_only) == items_reach_from(
            before,
            from,
            x,
            kinds_only,
        ),
    decreases before, before.len() - from,
{
    if from < before.len() {
        assert(decreases_to!(before => before[from]));
        if item_reaches(before[from], id, true) {
            lemma_item_status_set_keeps(before[from], after[from], id, status, x, kinds_only);
            lemma_reach_same_suffix(after, before, from + 1, x, kinds_only);
        } else {
            lemma_items_status_set_keeps(before, after, from + 1, id, status, x, kinds_only);
        }
    }
}

/// A status change keeps the tree's items: every identifier is found after
/// it exactly when it was found before, and each top-level document holds
/// the same identifiers as before.
pub proof fn status_change_keeps_items(
    before: Seq<ConnectionItem>,
    after: Seq<ConnectionItem>,
    id: Seq<char>,
    status: Seq<char>,
    x: Seq<char>,
    kinds_only: bool,
)
    requires
        items_status_set_from(before, after, 0, id, status),
    ensures
        items_reach_from(after, 0, x, kinds_only) == items_reach_from(before, 0, x, kinds_only),
        document_holders(after, x) == document_holders(before, x),
{
    lemma_items_status_set_keeps(before, after, 0, id, status, x, kinds_only);
    assert forall|j: int| 0 <= j < before.len() implies #[trigger] document_holders(after, x)[j]
        == document_holders(before, x)[j] by {
        lemma_status_set_entry(before, after, 0, j, id, status);
        if after[j] != before[j] {
            lemma_item_status_set_keeps(before[j], after[j], id, status, x, false);
        }
    }
    assert(document_holders(after, x) =~= document_holders(before, x));
}

/// Under a status change each item is either unchanged or changed as
/// `item_status_set` says (with the same kind).
proof fn lemma_status_set_entry(
    before: Seq<ConnectionItem>,
    after: Seq<ConnectionItem>,
    from: int,
    j: int,
    id: Seq<char>,
    status: Seq<char>,
)
    requires
        0 <= from <= j < before.len(),
        items_status_set_from(before, after, from, id, status),
    ensures
        after.len() == before.len(),
        after[j] == before[j] || item_status_set(before[j], after[j], id, status),
    decreases j - from,
{
    if from < j && !item_reaches(before[from], id, true) {
        lemma_status_set_entry(before, after, from + 1, j, id, status);
    }
}

} // verus!
