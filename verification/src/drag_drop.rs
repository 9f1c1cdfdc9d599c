//! The text protocol of drag and drop in the connection tree: what a dragged
//! row carries, what a drop on another row produces, and how the window reads
//! that back into a move or a reorder.

use vstd::prelude::*;
use vstd::string::StringExecFns;
use crate::ids::{parse_id, uuid_parse};
use crate::strings::{
    lemma_split_on_join, lemma_split_on_single, split_by_char, split_on, str_eq, string_views,
};

verus! {

/// Where a dragged row lands relative to the row under the pointer.
#[derive(Debug, Clone, Copy, PartialEq, Eq, Structural)]
pub enum DropPosition {
    /// Above the target row
    Before,
    /// Below the target row
    After,
    /// Inside the target group
    Into,
}

/// The word a drop position is written as.
pub open spec fn position_word(p: DropPosition) -> Seq<char> {
    match p {
        DropPosition::Before => "before"@,
        DropPosition::After => "after"@,
        DropPosition::Into => "into"@,
    }
}

/// The word a flag is written as.
pub open spec fn flag_word(b: bool) -> Seq<char> {
    if b {
        "true"@
    } else {
        "false"@
    }
}

/// The kind word of a dragged row.
pub open spec fn kind_word(is_group: bool) -> Seq<char> {
    if is_group {
        "group"@
    } else {
        "conn"@
    }
}

/// What a dragged row carries: its kind and its identifier, `kind:id`.
pub open spec fn drag_text(is_group: bool, id: Seq<char>) -> Seq<char> {
    kind_word(is_group) + ":"@ + id
}

/// What a drop hands to the window:
/// `kind:id:target:target_is_group:position`.
pub open spec fn drop_text(
    kind: Seq<char>,
    id: Seq<char>,
    target: Seq<char>,
    target_is_group: bool,
    position: DropPosition,
) -> Seq<char> {
    kind + ":"@ + id + ":"@ + target + ":"@ + flag_word(target_is_group) + ":"@ + position_word(
        position,
    )
}

/// The drop that the tree accepts for the dragged text `data` on a target:
/// the text must have exactly two `:`-separated parts, and a row is never
/// dropped on itself.
pub open spec fn drop_outcome(
    data: Seq<char>,
    target: Seq<char>,
    target_is_group: bool,
    position: DropPosition,
) -> Option<Seq<char>> {
    let parts = split_on(data, ':');
    if parts.len() != 2 || parts[1] == target {
        None
    } else {
        Some(drop_text(parts[0], parts[1], target, target_is_group, position))
    }
}

/// A change to the tree that the window carries out after a drop.
#[derive(Debug, Clone, Copy, PartialEq, Eq, Structural)]
pub enum DragDropAction {
    /// Put a connection into a group
    MoveConnectionToGroup { connection: u128, group: u128 },
    /// Put a connection next to another one, in that one's group
    ReorderConnection { connection: u128, target: u128 },
    /// Put a group next to another group
    ReorderGroup { group: u128, target: u128 },
}

/// The action the window reads from a drop text: exactly four `:`-separated
/// parts (kind, item, target, target-is-group), both identifiers parseable,
/// and a kind of `conn` or `group`.
pub open spec fn drag_drop_outcome(data: Seq<char>) -> Option<DragDropAction> {
    let parts = split_on(data, ':');
    if parts.len() != 4 {
        None
    } else {
        match (uuid_parse(parts[1]), uuid_parse(parts[2])) {
            (Some(item), Some(target)) => {
                if parts[0] == "conn"@ {
                    if parts[3] == "true"@ {
                        Some(DragDropAction::MoveConnectionToGroup { connection: item, group: target })
                    } else {
                        Some(DragDropAction::ReorderConnection { connection: item, target })
                    }
                } else if parts[0] == "group"@ {
                    Some(DragDropAction::ReorderGroup { group: item, target })
                } else {
                    None
                }
            },
            _ => None,
        }
    }
}

impl DropPosition {
    /// The word the position is written as.
    pub fn word(self) -> (w: &'static str)
        ensures
            w@ == position_word(self),
    {
        match self {
            DropPosition::Before => "before",
            DropPosition::After => "after",
            DropPosition::Into => "into",
        }
    }
}

fn flag_str(b: bool) -> (w: &'static str)
    ensures
        w@ == flag_word(b),
{
    if b {
        "true"
    } else {
        "false"
    }
}

/// The text a dragged row carries: `group:<id>` or `conn:<id>`.
pub fn drag_data(is_group: bool, id: &str) -> (data: String)
    ensures
        data@ == drag_text(is_group, id@),
{
    let mut data = if is_group {
        String::from_str("group")
    } else {
        String::from_str("conn")
    };
    proof {
        reveal_strlit("group");
        reveal_strlit("conn");
    }
    data.append(":");
    data.append(id);
    data
}

/// What a drop of the dragged text `data` on the row `target_id` hands to the
/// window, or `None` where the tree refuses the drop (see `drop_outcome`).
pub fn drop_action_data(
    data: &str,
    target_id: &str,
    target_is_group: bool,
    position: DropPosition,
) -> (text: Option<String>)
    ensures
        match (text, drop_outcome(data@, target_id@, target_is_group, position)) {
            (Some(t), Some(o)) => t@ == o,
            (None, None) => true,
            _ => false,
        },
{
    let parts = split_by_char(data, ':');
    proof {
        assert(string_views(parts@).len() == parts@.len());
    }
    if parts.len() != 2 {
        return None;
    }
    proof {
        assert(string_views(parts@)[0] == parts@[0]@);
        assert(string_views(parts@)[1] == parts@[1]@);
    }
    if str_eq(parts[1].as_str(), target_id) {
        return None;
    }
    let mut text = parts[0].clone();
    text.append(":");
    text.append(parts[1].as_str());
    text.append(":");
    text.append(target_id);
    text.append(":");
    text.append(flag_str(target_is_group));
    text.append(":");
    text.append(position.word());
    Some(text)
}

/// Reads a drop text into the action the window carries out, or `None` where
/// the window ignores the drop (see `drag_drop_outcome`).
pub fn parse_drag_drop(data: &str) -> (action: Option<DragDropAction>)
    ensures
        action == drag_drop_outcome(data@),
{
    let parts = split_by_char(data, ':');
    proof {
        assert(string_views(parts@).len() == parts@.len());
    }
    if parts.len() != 4 {
        return None;
    }
    proof {
        assert forall|k: int| 0 <= k < 4 implies string_views(parts@)[k] == #[trigger] parts@[k]@ by {}
    }
    let item = match parse_id(parts[1].as_str()) {
        Some(u) => u,
        None => return None,
    };
    let target = match parse_id(parts[2].as_str()) {
        Some(u) => u,
        None => return None,
    };
    let target_is_group = str_eq(parts[3].as_str(), "true");
    if str_eq(parts[0].as_str(), "conn") {
        if target_is_group {
            Some(DragDropAction::MoveConnectionToGroup { connection: item, group: target })
        } else {
            Some(DragDropAction::ReorderConnection { connection: item, target })
        }
    } else if str_eq(parts[0].as_str(), "group") {
        Some(DragDropAction::ReorderGroup { group: item, target })
    } else {
        None
    }
}

proof fn lemma_words_plain(is_group: bool, flag: bool)
    ensures
        !kind_word(is_group).contains(':'),
        !flag_word(flag).contains(':'),
        ":"@ == seq![':'],
{
    reveal_strlit("group");
    reveal_strlit("conn");
    reveal_strlit("true");
    reveal_strlit("false");
    reveal_strlit(":");
    assert(":"@ =~= seq![':']);
}

/// A dragged row dropped on another row is accepted, and what the drop hands
/// on carries the row's kind and identifier, the target, whether the target
/// is a group, and the position.
pub proof fn drop_carries_dragged_row(
    is_group: bool,
    id: Seq<char>,
    target: Seq<char>,
    target_is_group: bool,
    position: DropPosition,
)
    requires
        !id.contains(':'),
        id != target,
    ensures
        drop_outcome(drag_text(is_group, id), target, target_is_group, position) == Some(
            drop_text(kind_word(is_group), id, target, target_is_group, position),
        ),
{
    lemma_words_plain(is_group, target_is_group);
    lemma_split_on_single(kind_word(is_group), ':');
    lemma_split_on_join(kind_word(is_group), id, ':');
}

/// The window reads its four-part text `kind:item:target:flag` back into the
/// move or reorder it names: a connection dropped into a group moves there,
/// a connection dropped on a connection is reordered next to it, and a group
/// is reordered next to the target.
pub proof fn window_reads_drop(
    is_group: bool,
    item: Seq<char>,
    target: Seq<char>,
    target_is_group: bool,
)
    requires
        !item.contains(':'),
        !target.contains(':'),
        uuid_parse(item) is Some,
        uuid_parse(target) is Some,
    ensures
        drag_drop_outcome(
            kind_word(is_group) + ":"@ + item + ":"@ + target + ":"@ + flag_word(target_is_group),
        ) == Some(
            if is_group {
                DragDropAction::ReorderGroup {
                    group: uuid_parse(item)->0,
                    target: uuid_parse(target)->0,
                }
            } else if target_is_group {
                DragDropAction::MoveConnectionToGroup {
                    connection: uuid_parse(item)->0,
                    group: uuid_parse(target)->0,
                }
            } else {
                DragDropAction::ReorderConnection {
                    connection: uuid_parse(item)->0,
                    target: uuid_parse(target)->0,
                }
            },
        ),
{
    lemma_words_plain(is_group, target_is_group);
    let k = kind_word(is_group);
    lemma_split_on_single(k, ':');
    lemma_split_on_join(k, item, ':');
    lemma_split_on_join(k + ":"@ + item, target, ':');
    lemma_split_on_join(k + ":"@ + item + ":"@ + target, flag_word(target_is_group), ':');
    reveal_strlit("group");
    reveal_strlit("conn");
    reveal_strlit("true");
    reveal_strlit("false");
    assert("conn"@ != "group"@);
    assert("false"@ != "true"@);
}

} // verus!
