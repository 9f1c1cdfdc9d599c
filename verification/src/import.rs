//! Planning an import: the group that gathers everything imported from one
//! source, the order in which imported groups are recreated (level by
//! level, parents before their children),
//! where each group and connection lands, and the Remmina group tags. The
//! window creates the groups and connections with its connection manager and
//! reports the new identifiers back to `ImportPlan`.

use std::collections::HashMap;
use vstd::prelude::*;
use vstd::string::StringExecFns;
use crate::strings::{str_eq, strip_prefix, string_views};
use crate::seqs::{first_index, lemma_first_index};

verus! {

/// The name of the group that gathers an import: `<source> Import`.
pub fn import_group_name(source_name: &str) -> (name: String)
    ensures
        name@ == source_name@ + " Import"@,
{
    let mut name = source_name.to_string();
    name.append(" Import");
    name
}

/// The identifiers of the imported groups, in import order.
pub open spec fn group_ids(groups: Seq<(u128, Option<u128>)>) -> Seq<u128> {
    groups.map_values(|g: (u128, Option<u128>)| g.0)
}

/// How deep a group with parent `parent` sits below the roots of the import,
/// following at most `fuel` parent links: 0 when it has no parent or its
/// parent is not imported (the first imported group with the parent's
/// identifier is the parent); `None` when the links do not end in a root
/// within `fuel` steps.
pub open spec fn import_level(groups: Seq<(u128, Option<u128>)>, parent: Option<u128>, fuel: nat) -> Option<
    nat,
>
    decreases fuel,
{
    match parent {
        None => Some(0),
        Some(p) => {
            let k = first_index(group_ids(groups), p);
            if k < 0 {
                Some(0)
            } else if fuel == 0 {
                None
            } else {
                match import_level(groups, groups[k].1, (fuel - 1) as nat) {
                    Some(l) => Some(l + 1),
                    None => None,
                }
            }
        },
    }
}

/// The level of the group at position `i`: its depth below the roots, or
/// `None` when its parent links run in a cycle.
pub open spec fn level_of(groups: Seq<(u128, Option<u128>)>, i: int) -> Option<nat> {
    import_level(groups, groups[i].1, groups.len())
}

/// The positions among the first `n` groups whose level is `level`, in
/// order.
pub open spec fn positions_at(groups: Seq<(u128, Option<u128>)>, n: nat, level: Option<nat>) -> Seq<
    int,
>
    decreases n,
{
    if n == 0 {
        Seq::empty()
    } else {
        let before = positions_at(groups, (n - 1) as nat, level);
        if level_of(groups, n - 1) == level {
            before.push(n - 1)
        } else {
            before
        }
    }
}

/// The groups of levels `l` and deeper, level by level, each level in
/// import order, and then the groups in parent cycles.
pub open spec fn levels_from(groups: Seq<(u128, Option<u128>)>, l: nat) -> Seq<int>
    decreases groups.len() + 1 - l,
{
    if l > groups.len() {
        positions_at(groups, groups.len(), None)
    } else {
        positions_at(groups, groups.len(), Some(l)) + levels_from(groups, l + 1)
    }
}

/// The order in which imported groups are recreated: by level, the roots
/// first, then their children, then theirs, each level in the order of the
/// import; groups whose parent links run in a cycle come last.
pub open spec fn import_order(groups: Seq<(u128, Option<u128>)>) -> Seq<int> {
    levels_from(groups, 0)
}

/// Computes `import_level`.
fn level_in(groups: &Vec<(u128, Option<u128>)>, parent: Option<u128>, fuel: usize) -> (r: Option<usize>)
    ensures
        match import_level(groups@, parent, fuel as nat) {
            Some(l) => r == Some(l as usize) && l <= fuel,
            None => r is None,
        },
    decreases fuel,
{
    match parent {
        None => Some(0),
        Some(p) => {
            let ghost ids = group_ids(groups@);
            proof {
                lemma_first_index(ids, p);
            }
            let mut i: usize = 0;
            while i < groups.len()
                invariant
                    i <= groups@.len(),
                    parent == Some(p),
                    ids == group_ids(groups@),
                    forall|k: int| 0 <= k < i ==> ids[k] != p,
                decreases groups@.len() - i,
            {
                if groups[i].0 == p {
                    proof {
                        lemma_first_index(ids, p);
                        assert(ids[i as int] == p);
                        if first_index(ids, p) != i {
                            assert(ids[first_index(ids, p)] == p);
                        }
                        assert(first_index(ids, p) == i as int);
                    }
                    if fuel == 0 {
                        return None;
                    }
                    let up = level_in(groups, groups[i].1, fuel - 1);
                    proof {
                        assert(import_level(groups@, parent, fuel as nat) == match import_level(
                            groups@,
                            groups@[i as int].1,
                            (fuel - 1) as nat,
                        ) {
                            Some(l) => Some(l + 1),
                            None => None::<nat>,
                        });
                    }
                    return match up {
                        Some(l) => Some(l + 1),
                        None => None,
                    };
                }
                i += 1;
            }
            proof {
                lemma_first_index(ids, p);
                if first_index(ids, p) >= 0 {
                    assert(ids[first_index(ids, p)] == p);
                }
            }
            Some(0)
        },
    }
}

fn positions_with(groups: &Vec<(u128, Option<u128>)>, levels: &Vec<Option<usize>>, level: Option<usize>) -> (pos: Vec<usize>)
    requires
        levels@.len() == groups@.len(),
        forall|i: int|
            0 <= i < groups@.len() ==> match level_of(groups@, i) {
                Some(l) => #[trigger] levels@[i] == Some(l as usize) && l <= groups@.len(),
                None => levels@[i] is None,
            },
        match level {
            Some(l) => l <= groups@.len(),
            None => true,
        },
    ensures
        pos@.map_values(|p: usize| p as int) == positions_at(
            groups@,
            groups@.len(),
            match level {
                Some(l) => Some(l as nat),
                None => None,
            },
        ),
{
    let ghost lv: Option<nat> = match level {
        Some(l) => Some(l as nat),
        None => None,
    };
    let mut pos: Vec<usize> = Vec::new();
    let mut i: usize = 0;
    while i < groups.len()
        invariant
            i <= groups@.len(),
            levels@.len() == groups@.len(),
            forall|i: int|
                0 <= i < groups@.len() ==> match level_of(groups@, i) {
                    Some(l) => #[trigger] levels@[i] == Some(l as usize) && l <= groups@.len(),
                    None => levels@[i] is None,
                },
            lv == match level {
                Some(l) => Some(l as nat),
                None => None::<nat>,
            },
            pos@.map_values(|p: usize| p as int) == positions_at(groups@, i as nat, lv),
        decreases groups@.len() - i,
    {
        let ghost before = pos@;
        let li = levels[i];
        assert(li == levels@[i as int]);
        proof {
            assert((li == level) == (level_of(groups@, i as int) == lv));
        }
        if li == level {
            pos.push(i);
            proof {
                assert(pos@.map_values(|p: usize| p as int) =~= before.map_values(
                    |p: usize| p as int,
                ).push(i as int));
            }
        }
        i += 1;
    }
    pos
}

fn append_positions(order: &mut Vec<usize>, part: Vec<usize>)
    ensures
        final(order)@ == old(order)@ + part@,
{
    let ghost before = order@;
    let mut j: usize = 0;
    while j < part.len()
        invariant
            j <= part@.len(),
            order@ == before + part@.take(j as int),
        decreases part@.len() - j,
    {
        order.push(part[j]);
        proof {
            assert(before + part@.take(j + 1) =~= (before + part@.take(j as int)).push(part@[j as int]));
        }
        j += 1;
    }
    proof {
        assert(part@.take(part@.len() as int) =~= part@);
    }
}

/// The order in which the imported groups (identifier, parent) are
/// recreated, as positions in `groups` (see `import_order`): every imported
/// parent comes before its children.
pub fn import_group_order(groups: &Vec<(u128, Option<u128>)>) -> (order: Vec<usize>)
    ensures
        order@.map_values(|p: usize| p as int) == import_order(groups@),
{
    let n = groups.len();
    let mut levels: Vec<Option<usize>> = Vec::new();
    let mut i: usize = 0;
    while i < n
        invariant
            n == groups@.len(),
            i <= n,
            levels@.len() == i,
            forall|k: int|
                0 <= k < i ==> match level_of(groups@, k) {
                    Some(l) => #[trigger] levels@[k] == Some(l as usize) && l <= n,
                    None => levels@[k] is None,
                },
        decreases n - i,
    {
        let l = level_in(groups, groups[i].1, n);
        levels.push(l);
        i += 1;
    }
    let mut order: Vec<usize> = Vec::new();
    let mut l: usize = 0;
    loop
        invariant_except_break
            order@.map_values(|p: usize| p as int) + levels_from(groups@, l as nat) == levels_from(
                groups@,
                0,
            ),
        invariant
            n == groups@.len(),
            l <= n,
            levels@.len() == n,
            forall|k: int|
                0 <= k < n ==> match level_of(groups@, k) {
                    Some(v) => #[trigger] levels@[k] == Some(v as usize) && v <= n,
                    None => levels@[k] is None,
                },
        ensures
            order@.map_values(|p: usize| p as int) + levels_from(groups@, (n + 1) as nat)
                == levels_from(groups@, 0),
        decreases n - l,
    {
        let part = positions_with(groups, &levels, Some(l));
        let ghost before = order@;
        append_positions(&mut order, part);
        proof {
            assert(levels_from(groups@, l as nat) == positions_at(groups@, n as nat, Some(l as nat))
                + levels_from(groups@, (l + 1) as nat));
            assert(order@.map_values(|p: usize| p as int) =~= before.map_values(|p: usize| p as int)
                + part@.map_values(|p: usize| p as int));
            assert(order@.map_values(|p: usize| p as int) + levels_from(groups@, (l + 1) as nat)
                =~= before.map_values(|p: usize| p as int) + levels_from(groups@, l as nat));
        }
        if l == n {
            break;
        }
        l += 1;
    }
    let rest = positions_with(groups, &levels, None);
    let ghost before = order@;
    append_positions(&mut order, rest);
    proof {
        assert(order@.map_values(|p: usize| p as int) =~= before.map_values(|p: usize| p as int)
            + rest@.map_values(|p: usize| p as int));
        assert(order@.map_values(|p: usize| p as int) =~= levels_from(groups@, 0));
    }
    order
}

/// Every imported group is recreated exactly once: the order lists each
/// position of the import once, and nothing else.
pub proof fn import_order_is_complete(groups: Seq<(u128, Option<u128>)>, i: int)
    requires
        0 <= i < groups.len(),
    ensures
        import_order(groups).contains(i),
        import_order(groups).len() == groups.len(),
        import_order(groups).no_duplicates(),
        forall|k: int|
            0 <= k < import_order(groups).len() ==> 0 <= #[trigger] import_order(groups)[k]
                < groups.len(),
{
    let s = import_order(groups);
    lemma_levels_from_shape(groups, 0);
    lemma_level_bound(groups, groups[i].1, groups.len());
    s.unique_seq_to_set();
    vstd::set_lib::lemma_int_range(0, groups.len() as int);
    assert forall|x: int| s.to_set().contains(x) <==> vstd::set_lib::set_int_range(
        0,
        groups.len() as int,
    ).contains(x) by {
        if 0 <= x < groups.len() {
            lemma_level_bound(groups, groups[x].1, groups.len());
        }
    }
    assert(s.to_set() =~= vstd::set_lib::set_int_range(0, groups.len() as int));
}

/// The hierarchy is kept: a group whose parent is imported (and whose
/// parent links end in a root) is recreated after its parent, so the parent
/// exists when the group is created under it.
pub proof fn import_order_puts_parents_first(
    groups: Seq<(u128, Option<u128>)>,
    i: int,
    a: int,
    b: int,
)
    requires
        0 <= i < groups.len(),
        groups[i].1 matches Some(p) && first_index(group_ids(groups), p) >= 0,
        level_of(groups, i) is Some,
        0 <= a < import_order(groups).len(),
        0 <= b < import_order(groups).len(),
        import_order(groups)[a] == first_index(group_ids(groups), groups[i].1->0),
        import_order(groups)[b] == i,
    ensures
        a < b,
{
    let n = groups.len();
    let p = groups[i].1->0;
    let k = first_index(group_ids(groups), p);
    lemma_first_index(group_ids(groups), p);
    let up = import_level(groups, groups[k].1, (n - 1) as nat);
    assert(up is Some);
    lemma_level_fuel(groups, groups[k].1, (n - 1) as nat, n);
    assert(level_of(groups, k) == up);
    assert(level_of(groups, i) == Some(up->0 + 1));
    lemma_levels_from_shape(groups, 0);
}

/// Whether a level is known and lies above another known level.
pub open spec fn shallower(a: Option<nat>, b: Option<nat>) -> bool {
    match (a, b) {
        (Some(x), Some(y)) => x < y,
        _ => false,
    }
}

proof fn lemma_level_bound(groups: Seq<(u128, Option<u128>)>, parent: Option<u128>, fuel: nat)
    ensures
        import_level(groups, parent, fuel) matches Some(v) ==> v <= fuel,
    decreases fuel,
{
    if fuel > 0 {
        match parent {
            Some(p) => {
                let k = first_index(group_ids(groups), p);
                if k >= 0 {
                    lemma_level_bound(groups, groups[k].1, (fuel - 1) as nat);
                }
            },
            None => {},
        }
    }
}

/// More fuel does not change a level that was found.
proof fn lemma_level_fuel(groups: Seq<(u128, Option<u128>)>, parent: Option<u128>, fuel: nat, more: nat)
    requires
        fuel <= more,
        import_level(groups, parent, fuel) is Some,
    ensures
        import_level(groups, parent, more) == import_level(groups, parent, fuel),
    decreases fuel,
{
    match parent {
        Some(p) => {
            let k = first_index(group_ids(groups), p);
            if k >= 0 {
                lemma_level_fuel(groups, groups[k].1, (fuel - 1) as nat, (more - 1) as nat);
            }
        },
        None => {},
    }
}

proof fn lemma_positions_at_shape(groups: Seq<(u128, Option<u128>)>, n: nat, level: Option<nat>)
    requires
        n <= groups.len(),
    ensures
        forall|k: int|
            0 <= k < positions_at(groups, n, level).len() ==> {
                let p = #[trigger] positions_at(groups, n, level)[k];
                &&& 0 <= p < n
                &&& level_of(groups, p) == level
            },
        forall|x: int, y: int|
            0 <= x < y < positions_at(groups, n, level).len() ==> #[trigger] positions_at(
                groups,
                n,
                level,
            )[x] < #[trigger] positions_at(groups, n, level)[y],
    decreases n,
{
    if n > 0 {
        lemma_positions_at_shape(groups, (n - 1) as nat, level);
        let before = positions_at(groups, (n - 1) as nat, level);
        let now = positions_at(groups, n, level);
        if level_of(groups, n - 1) == level {
            assert(now == before.push(n - 1));
            assert forall|k: int| 0 <= k < now.len() implies {
                let p = #[trigger] now[k];
                &&& 0 <= p < n
                &&& level_of(groups, p) == level
            } by {
                if k < before.len() {
                    assert(now[k] == before[k]);
                }
            }
            assert forall|x: int, y: int| 0 <= x < y < now.len() implies #[trigger] now[x]
                < #[trigger] now[y] by {
                assert(now[x] == before[x]);
                if y < before.len() {
                    assert(now[y] == before[y]);
                }
            }
        } else {
            assert(now == before);
        }
    }
}

proof fn lemma_positions_at_contain(groups: Seq<(u128, Option<u128>)>, n: nat, i: int)
    requires
        0 <= i < n <= groups.len(),
    ensures
        positions_at(groups, n, level_of(groups, i)).contains(i),
    decreases n,
{
    let lv = level_of(groups, i);
    if i == n - 1 {
        assert(positions_at(groups, n, lv).last() == i);
    } else {
        lemma_positions_at_contain(groups, (n - 1) as nat, i);
        let before = positions_at(groups, (n - 1) as nat, lv);
        let k = choose|k: int| 0 <= k < before.len() && before[k] == i;
        if level_of(groups, n - 1) == lv {
            assert(before.push(n - 1)[k] == i);
        }
    }
}

/// The groups of levels `l` and deeper: each in range, each once, each of
/// level at least `l` (or in a cycle), every such group present, and
/// shallower groups before deeper ones.
proof fn lemma_levels_from_shape(groups: Seq<(u128, Option<u128>)>, l: nat)
    requires
        l <= groups.len() + 1,
    ensures
        ({
            let s = levels_from(groups, l);
            &&& forall|k: int| 0 <= k < s.len() ==> 0 <= #[trigger] s[k] < groups.len()
            &&& forall|k: int|
                0 <= k < s.len() ==> (#[trigger] level_of(groups, s[k]) matches Some(v) ==> l <= v)
            &&& s.no_duplicates()
            &&& forall|i: int|
                0 <= i < groups.len() && (level_of(groups, i) matches Some(v) ==> l <= v)
                    ==> #[trigger] s.contains(i)
            &&& forall|x: int, y: int|
                0 <= x < s.len() && 0 <= y < s.len() && shallower(
                    level_of(groups, #[trigger] s[x]),
                    level_of(groups, #[trigger] s[y]),
                ) ==> x < y
        }),
    decreases groups.len() + 1 - l,
{
    let n = groups.len();
    let s = levels_from(groups, l);
    if l > n {
        let c = positions_at(groups, n, None);
        lemma_positions_at_shape(groups, n, None);
        assert(s == c);
        assert forall|k: int| 0 <= k < s.len() implies (#[trigger] level_of(groups, s[k]) matches Some(v)
            ==> l <= v) by {
            assert(level_of(groups, s[k]) is None);
        }
        assert forall|i: int|
            0 <= i < groups.len() && (level_of(groups, i) matches Some(v) ==> l <= v)
                implies #[trigger] s.contains(i) by {
            lemma_level_bound(groups, groups[i].1, n);
            lemma_positions_at_contain(groups, n, i);
        }
        assert forall|x: int, y: int| 0 <= x < y < s.len() implies s[x] != s[y] by {
            assert(s[x] < s[y]);
        }
    } else {
        let c = positions_at(groups, n, Some(l));
        let r = levels_from(groups, l + 1);
        lemma_positions_at_shape(groups, n, Some(l));
        lemma_levels_from_shape(groups, l + 1);
        assert(s == c + r);
        assert forall|k: int| 0 <= k < s.len() implies 0 <= #[trigger] s[k] < groups.len() by {
            if k < c.len() {
                assert(s[k] == c[k]);
            } else {
                assert(s[k] == r[k - c.len()]);
            }
        }
        assert forall|k: int| 0 <= k < s.len() implies (#[trigger] level_of(groups, s[k]) matches Some(v)
            ==> l <= v) by {
            if k < c.len() {
                assert(s[k] == c[k]);
            } else {
                assert(s[k] == r[k - c.len()]);
            }
        }
        assert forall|x: int, y: int| 0 <= x < y < s.len() implies s[x] != s[y] by {
            if y < c.len() {
                assert(s[x] == c[x] && s[y] == c[y]);
            } else if x < c.len() {
                assert(s[x] == c[x] && s[y] == r[y - c.len()]);
                assert(level_of(groups, s[x]) == Some(l));
            } else {
                assert(s[x] == r[x - c.len()] && s[y] == r[y - c.len()]);
            }
        }
        assert forall|i: int|
            0 <= i < groups.len() && (level_of(groups, i) matches Some(v) ==> l <= v)
                implies #[trigger] s.contains(i) by {
            if level_of(groups, i) == Some(l) {
                lemma_positions_at_contain(groups, n, i);
                let k = choose|k: int| 0 <= k < c.len() && c[k] == i;
                assert(s[k] == i);
            } else {
                assert(r.contains(i));
                let k = choose|k: int| 0 <= k < r.len() && r[k] == i;
                assert(s[c.len() + k] == i);
            }
        }
        assert forall|x: int, y: int|
            0 <= x < s.len() && 0 <= y < s.len() && shallower(
                level_of(groups, #[trigger] s[x]),
                level_of(groups, #[trigger] s[y]),
            ) implies x < y by {
            if y < c.len() {
                assert(s[y] == c[y]);
                assert(level_of(groups, s[y]) == Some(l));
                if x < c.len() {
                    assert(s[x] == c[x]);
                } else {
                    assert(s[x] == r[x - c.len()]);
                }
            } else if x >= c.len() {
                assert(s[x] == r[x - c.len()] && s[y] == r[y - c.len()]);
            }
        }
    }
}

// ---------------------------------------------------------------------------
// Remmina group tags
// ---------------------------------------------------------------------------

/// Whether a tag names a Remmina group: it begins with `remmina:`.
pub open spec fn remmina_tag(tag: Seq<char>) -> bool {
    "remmina:"@.is_prefix_of(tag)
}

/// The Remmina group named by the first such tag, if any.
pub open spec fn remmina_group(tags: Seq<Seq<char>>) -> Option<Seq<char>>
    decreases tags.len(),
{
    if tags.len() == 0 {
        None
    } else if remmina_tag(tags[0]) {
        Some(tags[0].skip("remmina:"@.len() as int))
    } else {
        remmina_group(tags.drop_first())
    }
}

/// The tags other than the Remmina group tags, in order.
pub open spec fn other_tags(tags: Seq<Seq<char>>) -> Seq<Seq<char>>
    decreases tags.len(),
{
    if tags.len() == 0 {
        Seq::empty()
    } else {
        let before = other_tags(tags.drop_last());
        if remmina_tag(tags.last()) {
            before
        } else {
            before.push(tags.last())
        }
    }
}

proof fn lemma_remmina_group_skip(tags: Seq<Seq<char>>, i: int)
    requires
        0 <= i <= tags.len(),
        forall|k: int| 0 <= k < i ==> !remmina_tag(#[trigger] tags[k]),
    ensures
        remmina_group(tags) == remmina_group(tags.skip(i)),
    decreases i,
{
    if i == 0 {
        assert(tags.skip(0) =~= tags);
    } else {
        let d = tags.drop_first();
        assert(!remmina_tag(tags[0]));
        assert forall|k: int| 0 <= k < i - 1 implies !remmina_tag(#[trigger] d[k]) by {
            assert(d[k] == tags[k + 1]);
        }
        lemma_remmina_group_skip(d, i - 1);
        assert(d.skip(i - 1) =~= tags.skip(i));
    }
}

/// Splits a connection's tags: the Remmina group of the first `remmina:`
/// tag, and the tags without any `remmina:` tag.
pub fn split_remmina_tags(tags: &Vec<String>) -> (r: (Option<String>, Vec<String>))
    ensures
        match (r.0, remmina_group(string_views(tags@))) {
            (Some(g), Some(h)) => g@ == h,
            (None, None) => true,
            _ => false,
        },
        string_views(r.1@) == other_tags(string_views(tags@)),
{
    let ghost views = string_views(tags@);
    let mut group: Option<String> = None;
    let mut kept: Vec<String> = Vec::new();
    let mut i: usize = 0;
    while i < tags.len()
        invariant
            i <= tags@.len(),
            views == string_views(tags@),
            string_views(kept@) == other_tags(views.take(i as int)),
            match group {
                Some(g) => remmina_group(views) == Some(g@),
                None => forall|k: int| 0 <= k < i ==> !remmina_tag(#[trigger] views[k]),
            },
        decreases tags@.len() - i,
    {
        let tag = tags[i].as_str();
        proof {
            assert(views[i as int] == tag@);
            assert(views.take(i + 1).drop_last() =~= views.take(i as int));
            assert(views.take(i + 1).last() == tag@);
        }
        match strip_prefix(tag, "remmina:") {
            Some(rest) => {
                if group.is_none() {
                    proof {
                        lemma_remmina_group_skip(views, i as int);
                        assert(views.skip(i as int)[0] == tag@);
                    }
                    group = Some(rest.to_string());
                }
            },
            None => {
                let ghost before = string_views(kept@);
                kept.push(tags[i].clone());
                proof {
                    assert(string_views(kept@) =~= before.push(tag@));
                }
            },
        }
        i += 1;
    }
    proof {
        assert(views.take(tags@.len() as int) =~= views);
        if group is None {
            lemma_remmina_group_skip(views, tags@.len() as int);
            assert(views.skip(tags@.len() as int).len() == 0);
        }
    }
    (group, kept)
}

// ---------------------------------------------------------------------------
// The plan
// ---------------------------------------------------------------------------

/// The latest identifier recorded for a subgroup name.
pub open spec fn subgroup_lookup(entries: Seq<(Seq<char>, u128)>, name: Seq<char>) -> Option<u128>
    decreases entries.len(),
{
    if entries.len() == 0 {
        None
    } else if entries.last().0 == name {
        Some(entries.last().1)
    } else {
        subgroup_lookup(entries.drop_last(), name)
    }
}

/// What an import has created so far: the group that gathers it, the new
/// identifier of each imported group, and the new group of each subgroup
/// name.
pub struct ImportPlan {
    parent_group_id: Option<u128>,
    group_map: HashMap<u128, u128>,
    subgroups: Vec<(String, u128)>,
}

impl ImportPlan {
    /// The group that gathers the import.
    pub closed spec fn parent_spec(&self) -> Option<u128> {
        self.parent_group_id
    }

    /// Old group identifiers to new ones.
    pub closed spec fn group_map_spec(&self) -> Map<u128, u128> {
        self.group_map@
    }

    /// Subgroup names to new groups, latest last.
    pub closed spec fn subgroups_spec(&self) -> Seq<(Seq<char>, u128)> {
        self.subgroups@.map_values(|e: (String, u128)| (e.0@, e.1))
    }

    /// Starts a plan for an import gathered in `parent_group_id` (none when
    /// that group could not be made).
    pub fn new(parent_group_id: Option<u128>) -> (p: Self)
        ensures
            p.parent_spec() == parent_group_id,
            p.group_map_spec() == Map::<u128, u128>::empty(),
            p.subgroups_spec().len() == 0,
    {
        let p = ImportPlan { parent_group_id, group_map: HashMap::new(), subgroups: Vec::new() };
        proof {
            assert(p.subgroups_spec() =~= Seq::<(Seq<char>, u128)>::empty());
        }
        p
    }

    /// The group under which an imported group is recreated: its parent's
    /// new group when that was recreated already, otherwise the import's
    /// group.
    pub fn parent_for_group(&self, original_parent: Option<u128>) -> (g: Option<u128>)
        ensures
            g == match original_parent {
                Some(p) => if self.group_map_spec().contains_key(p) {
                    Some(self.group_map_spec()[p])
                } else {
                    self.parent_spec()
                },
                None => self.parent_spec(),
            },
    {
        broadcast use vstd::std_specs::hash::group_hash_axioms;
        match original_parent {
            Some(p) => match self.group_map.get(&p) {
                Some(id) => Some(*id),
                None => self.parent_group_id,
            },
            None => self.parent_group_id,
        }
    }

    /// Records that the imported group `old_id`, named `name`, now exists
    /// as `new_id`.
    pub fn record_group(&mut self, old_id: u128, name: &str, new_id: u128)
        ensures
            final(self).parent_spec() == old(self).parent_spec(),
            final(self).group_map_spec() == old(self).group_map_spec().insert(old_id, new_id),
            final(self).subgroups_spec() == old(self).subgroups_spec().push((name@, new_id)),
    {
        broadcast use vstd::std_specs::hash::group_hash_axioms;
        self.group_map.insert(old_id, new_id);
        self.record_subgroup(name, new_id);
    }

    /// Records that the subgroup `name` now exists as `new_id`.
    pub fn record_subgroup(&mut self, name: &str, new_id: u128)
        ensures
            final(self).parent_spec() == old(self).parent_spec(),
            final(self).group_map_spec() == old(self).group_map_spec(),
            final(self).subgroups_spec() == old(self).subgroups_spec().push((name@, new_id)),
    {
        let ghost before = self.subgroups_spec();
        self.subgroups.push((name.to_string(), new_id));
        proof {
            assert(self.subgroups_spec() =~= before.push((name@, new_id)));
        }
    }

    /// The group recorded for a subgroup name, if any.
    pub fn subgroup(&self, name: &str) -> (g: Option<u128>)
        ensures
            g == subgroup_lookup(self.subgroups_spec(), name@),
    {
        let ghost entries = self.subgroups_spec();
        let mut i: usize = self.subgroups.len();
        proof {
            assert(entries.take(i as int) =~= entries);
        }
        while i > 0
            invariant
                i <= self.subgroups@.len(),
                entries == self.subgroups@.map_values(|e: (String, u128)| (e.0@, e.1)),
                subgroup_lookup(entries, name@) == subgroup_lookup(entries.take(i as int), name@),
            decreases i,
        {
            proof {
                assert(entries.take(i as int).last() == entries[i - 1]);
                assert(entries.take(i as int).drop_last() =~= entries.take(i - 1));
            }
            if str_eq(self.subgroups[i - 1].0.as_str(), name) {
                return Some(self.subgroups[i - 1].1);
            }
            i -= 1;
        }
        None
    }

    /// The group under which a Remmina subgroup must be created first: the
    /// import's group, when the subgroup does not exist yet.
    pub fn remmina_subgroup_to_create(&self, name: &str) -> (parent: Option<u128>)
        ensures
            parent == if subgroup_lookup(self.subgroups_spec(), name@) is None {
                self.parent_spec()
            } else {
                None
            },
    {
        if self.subgroup(name).is_none() {
            self.parent_group_id
        } else {
            None
        }
    }

    /// The group an imported connection goes into: its Remmina subgroup
    /// when it has a Remmina tag; otherwise its group's new identifier, or
    /// the import's group when its group was not recreated or it has none.
    pub fn target_group(&self, remmina: &Option<String>, group_id: Option<u128>) -> (g: Option<
        u128,
    >)
        ensures
            g == match remmina {
                Some(name) => subgroup_lookup(self.subgroups_spec(), name@),
                None => match group_id {
                    Some(old_id) => if self.group_map_spec().contains_key(old_id) {
                        Some(self.group_map_spec()[old_id])
                    } else {
                        self.parent_spec()
                    },
                    None => self.parent_spec(),
                },
            },
    {
        broadcast use vstd::std_specs::hash::group_hash_axioms;
        match remmina {
            Some(name) => self.subgroup(name.as_str()),
            None => match group_id {
                Some(old_id) => match self.group_map.get(&old_id) {
                    Some(id) => Some(*id),
                    None => self.parent_group_id,
                },
                None => self.parent_group_id,
            },
        }
    }
}

} // verus!
