//! Picking the foreground process of a pane out of a process snapshot.
//!
//! Windows attaches no foreground process group to a terminal, so the
//! deepest descendant of the pane's shell stands in for it.

use vstd::prelude::*;

use crate::platform::{ForegroundJob, ForegroundProcess};

verus! {

/// How many generations below the root are looked at where parent links
/// form a cycle.
pub const MAX_DEPTH: usize = 16;

/// One row of a process snapshot.
#[derive(Clone, Debug, PartialEq, Eq)]
pub struct ProcessEntry {
    pub pid: u32,
    pub parent_pid: u32,
    pub name: String,
}

/// Whether `entry` is a child of the process `pid`. A process that names
/// itself as its parent is nobody's child.
pub open spec fn is_child_of(entry: ProcessEntry, pid: u32) -> bool {
    entry.parent_pid == pid && entry.pid != pid
}

/// Whether `pid` has a child in the snapshot.
pub open spec fn has_child(snapshot: Seq<ProcessEntry>, pid: u32) -> bool {
    exists|i: int| 0 <= i < snapshot.len() && is_child_of(#[trigger] snapshot[i], pid)
}

/// Whether `pid` is a descendant of `root` in exactly `depth` steps.
pub open spec fn at_depth(snapshot: Seq<ProcessEntry>, root: u32, depth: nat, pid: u32) -> bool
    decreases depth,
{
    if depth == 0 {
        pid == root
    } else {
        exists|i: int|
            {
                &&& 0 <= i < snapshot.len()
                &&& (#[trigger] snapshot[i]).pid == pid
                &&& is_child_of(snapshot[i], snapshot[i].parent_pid)
                &&& at_depth(snapshot, root, (depth - 1) as nat, snapshot[i].parent_pid)
            }
    }
}

/// Whether `pid` is a childless process other than `root` that is reached
/// from `root` in `depth` steps.
pub open spec fn leaf_at(snapshot: Seq<ProcessEntry>, root: u32, depth: nat, pid: u32) -> bool {
    &&& pid != root
    &&& !has_child(snapshot, pid)
    &&& at_depth(snapshot, root, depth, pid)
}

/// Whether child links that start at `root` lead into a cycle: some process
/// below `root` is its own descendant.
pub open spec fn cycle_below(snapshot: Seq<ProcessEntry>, root: u32) -> bool {
    exists|depth: nat, pid: u32, steps: nat|
        steps > 0 && #[trigger] at_depth(snapshot, root, depth, pid) && #[trigger] at_depth(
            snapshot,
            pid,
            steps,
            pid,
        )
}

/// Whether the processes at `depth` are looked at: all of them in a tree,
/// and those within the depth limit where there is a cycle.
pub open spec fn is_looked_at(snapshot: Seq<ProcessEntry>, root: u32, depth: nat) -> bool {
    depth <= MAX_DEPTH || !cycle_below(snapshot, root)
}

/// Whether `pid` is the largest leaf at `depth` and no leaf lies deeper.
pub open spec fn deepest_leaf(
    snapshot: Seq<ProcessEntry>,
    root: u32,
    depth: nat,
    pid: u32,
) -> bool {
    &&& is_looked_at(snapshot, root, depth)
    &&& leaf_at(snapshot, root, depth, pid)
    &&& forall|other: u32| #[trigger]
        leaf_at(snapshot, root, depth, other) ==> other <= pid
    &&& forall|deeper: nat, other: u32|
        depth < deeper && is_looked_at(snapshot, root, deeper) ==> !#[trigger] leaf_at(
            snapshot,
            root,
            deeper,
            other,
        )
}

/// What it means for `active` to be the foreground process below `root`:
/// the deepest leaf, the highest pid among several at that depth, and none
/// where there is no leaf.
pub open spec fn is_active_descendant(
    snapshot: Seq<ProcessEntry>,
    root: u32,
    active: Option<u32>,
) -> bool {
    match active {
        Some(pid) => exists|depth: nat| #[trigger] deepest_leaf(snapshot, root, depth, pid),
        None => forall|depth: nat, pid: u32|
            is_looked_at(snapshot, root, depth) ==> !#[trigger] leaf_at(
                snapshot,
                root,
                depth,
                pid,
            ),
    }
}

/// Whether `pid` is the largest leaf at `depth` and no leaf lies deeper, as
/// far as the first `levels` levels go.
spec fn deepest_leaf_within(
    snapshot: Seq<ProcessEntry>,
    root: u32,
    levels: nat,
    depth: nat,
    pid: u32,
) -> bool {
    &&& depth < levels
    &&& leaf_at(snapshot, root, depth, pid)
    &&& forall|other: u32| #[trigger]
        leaf_at(snapshot, root, depth, other) ==> other <= pid
    &&& forall|deeper: nat, other: u32|
        depth < deeper < levels ==> !#[trigger] leaf_at(snapshot, root, deeper, other)
}

/// Whether `active` is the best leaf that the first `levels` levels hold.
spec fn is_active_within(
    snapshot: Seq<ProcessEntry>,
    root: u32,
    levels: nat,
    active: Option<u32>,
) -> bool {
    match active {
        Some(pid) => exists|depth: nat| #[trigger]
            deepest_leaf_within(snapshot, root, levels, depth, pid),
        None => no_leaf_within(snapshot, root, levels),
    }
}

/// Whether none of the first `levels` levels holds a leaf.
spec fn no_leaf_within(snapshot: Seq<ProcessEntry>, root: u32, levels: nat) -> bool {
    forall|depth: nat, pid: u32|
        depth < levels ==> !#[trigger] leaf_at(snapshot, root, depth, pid)
}

/// Going down from `root` and on from where that leads is going down from
/// `root`.
proof fn lemma_depths_add(
    snapshot: Seq<ProcessEntry>,
    root: u32,
    depth: nat,
    middle: u32,
    steps: nat,
    pid: u32,
)
    requires
        at_depth(snapshot, root, depth, middle),
        at_depth(snapshot, middle, steps, pid),
    ensures
        at_depth(snapshot, root, depth + steps, pid),
    decreases steps,
{
    if steps > 0 {
        let i = choose|i: int|
            {
                &&& 0 <= i < snapshot.len()
                &&& (#[trigger] snapshot[i]).pid == pid
                &&& is_child_of(snapshot[i], snapshot[i].parent_pid)
                &&& at_depth(snapshot, middle, (steps - 1) as nat, snapshot[i].parent_pid)
            };
        lemma_depths_add(
            snapshot,
            root,
            depth,
            middle,
            (steps - 1) as nat,
            snapshot[i].parent_pid,
        );
        assert((depth + steps - 1) as nat == depth + (steps - 1) as nat);
    }
}

/// A process on a cycle is found again at ever greater depths.
proof fn lemma_cycle_goes_deep(
    snapshot: Seq<ProcessEntry>,
    root: u32,
    depth: nat,
    pid: u32,
    steps: nat,
    least: nat,
) -> (deep: nat)
    requires
        at_depth(snapshot, root, depth, pid),
        at_depth(snapshot, pid, steps, pid),
        steps > 0,
    ensures
        deep >= least,
        at_depth(snapshot, root, deep, pid),
    decreases least,
{
    if least == 0 {
        depth
    } else {
        let shallower = lemma_cycle_goes_deep(
            snapshot,
            root,
            depth,
            pid,
            steps,
            (least - 1) as nat,
        );
        lemma_depths_add(snapshot, root, shallower, pid, steps, pid);
        shallower + steps
    }
}

/// Where a level is empty there is no cycle.
proof fn lemma_empty_level_no_cycle(snapshot: Seq<ProcessEntry>, root: u32, depth: nat)
    requires
        forall|other: u32| !#[trigger] at_depth(snapshot, root, depth, other),
    ensures
        !cycle_below(snapshot, root),
{
    if cycle_below(snapshot, root) {
        let (above, pid, steps) = choose|above: nat, pid: u32, steps: nat|
            steps > 0 && #[trigger] at_depth(snapshot, root, above, pid) && #[trigger] at_depth(
                snapshot,
                pid,
                steps,
                pid,
            );
        let deep = lemma_cycle_goes_deep(snapshot, root, above, pid, steps, depth);
        lemma_empty_level(snapshot, root, depth, deep, pid);
    }
}

/// Whether `rows` are rows of the snapshot, each the parent of the next,
/// that lead down from `root`.
spec fn is_chain(snapshot: Seq<ProcessEntry>, root: u32, rows: Seq<int>) -> bool {
    &&& forall|k: int| 0 <= k < rows.len() ==> 0 <= #[trigger] rows[k] < snapshot.len()
    &&& forall|k: int|
        0 <= k < rows.len() ==> is_child_of(
            snapshot[#[trigger] rows[k]],
            if k == 0 {
                root
            } else {
                snapshot[rows[k - 1]].pid
            },
        )
}

/// A process at some depth hangs on a chain of that many rows.
proof fn lemma_chain_to(snapshot: Seq<ProcessEntry>, root: u32, depth: nat, pid: u32) -> (rows: Seq<
    int,
>)
    requires
        at_depth(snapshot, root, depth, pid),
    ensures
        rows.len() == depth,
        is_chain(snapshot, root, rows),
        pid == (if depth == 0 {
            root
        } else {
            snapshot[rows[depth - 1]].pid
        }),
    decreases depth,
{
    if depth == 0 {
        seq![]
    } else {
        let i = choose|i: int|
            {
                &&& 0 <= i < snapshot.len()
                &&& (#[trigger] snapshot[i]).pid == pid
                &&& is_child_of(snapshot[i], snapshot[i].parent_pid)
                &&& at_depth(snapshot, root, (depth - 1) as nat, snapshot[i].parent_pid)
            };
        let above = lemma_chain_to(snapshot, root, (depth - 1) as nat, snapshot[i].parent_pid);
        let rows = above.push(i);
        assert forall|k: int| 0 <= k < rows.len() implies is_child_of(
            snapshot[#[trigger] rows[k]],
            if k == 0 {
                root
            } else {
                snapshot[rows[k - 1]].pid
            },
        ) by {
            if k < above.len() {
                assert(rows[k] == above[k]);
                if k > 0 {
                    assert(rows[k - 1] == above[k - 1]);
                }
            }
        }
        rows
    }
}

/// The rows of a chain lie at the depths they come at.
proof fn lemma_chain_depths(snapshot: Seq<ProcessEntry>, root: u32, rows: Seq<int>, k: int)
    requires
        is_chain(snapshot, root, rows),
        0 <= k < rows.len(),
    ensures
        at_depth(snapshot, root, (k + 1) as nat, snapshot[rows[k]].pid),
    decreases k,
{
    let row = rows[k];
    if k > 0 {
        lemma_chain_depths(snapshot, root, rows, k - 1);
    } else {
        assert(at_depth(snapshot, root, 0, root));
    }
    assert(is_child_of(snapshot[row], snapshot[row].parent_pid));
    assert(at_depth(snapshot, root, k as nat, snapshot[row].parent_pid));
}

/// A later row of a chain lies below an earlier one.
proof fn lemma_chain_steps(
    snapshot: Seq<ProcessEntry>,
    root: u32,
    rows: Seq<int>,
    from: int,
    to: int,
)
    requires
        is_chain(snapshot, root, rows),
        0 <= from < to < rows.len(),
    ensures
        at_depth(snapshot, snapshot[rows[from]].pid, (to - from) as nat, snapshot[rows[to]].pid),
    decreases to,
{
    let start = snapshot[rows[from]].pid;
    let row = rows[to];
    if from + 1 < to {
        lemma_chain_steps(snapshot, root, rows, from, to - 1);
    } else {
        assert(at_depth(snapshot, start, 0, start));
    }
    assert(is_child_of(snapshot[row], snapshot[row].parent_pid));
    assert(at_depth(snapshot, start, (to - from - 1) as nat, snapshot[row].parent_pid));
}

/// There are no more different rows than the snapshot has.
proof fn lemma_distinct_rows_fit(snapshot: Seq<ProcessEntry>, rows: Seq<int>)
    requires
        rows.no_duplicates(),
        forall|k: int| 0 <= k < rows.len() ==> 0 <= #[trigger] rows[k] < snapshot.len(),
    ensures
        rows.len() <= snapshot.len(),
{
    let all = vstd::set_lib::set_int_range(0, snapshot.len() as int);
    rows.unique_seq_to_set();
    vstd::set_lib::lemma_int_range(0, snapshot.len() as int);
    assert(rows.to_set().subset_of(all));
    vstd::set_lib::lemma_len_subset(rows.to_set(), all);
}

/// A chain that comes to a row again has gone round a cycle.
proof fn lemma_repeat_is_a_cycle(snapshot: Seq<ProcessEntry>, root: u32, rows: Seq<int>)
    requires
        is_chain(snapshot, root, rows),
        !rows.no_duplicates(),
    ensures
        cycle_below(snapshot, root),
{
    let (i, j) = choose|i: int, j: int|
        0 <= i < rows.len() && 0 <= j < rows.len() && i != j && rows[i] == rows[j];
    let from = if i < j {
        i
    } else {
        j
    };
    let to = if i < j {
        j
    } else {
        i
    };
    let repeated = snapshot[rows[from]].pid;
    lemma_chain_depths(snapshot, root, rows, from);
    lemma_chain_steps(snapshot, root, rows, from, to);
    assert(at_depth(snapshot, root, (from + 1) as nat, repeated));
    assert(at_depth(snapshot, repeated, (to - from) as nat, repeated));
}

/// A process deeper than there are rows hangs on a cycle.
proof fn lemma_too_deep_is_a_cycle(snapshot: Seq<ProcessEntry>, root: u32, depth: nat, pid: u32)
    requires
        at_depth(snapshot, root, depth, pid),
        depth > snapshot.len(),
    ensures
        cycle_below(snapshot, root),
{
    let rows = lemma_chain_to(snapshot, root, depth, pid);
    if rows.no_duplicates() {
        lemma_distinct_rows_fit(snapshot, rows);
    }
    lemma_repeat_is_a_cycle(snapshot, root, rows);
}

/// A level below an empty level is empty.
proof fn lemma_empty_level(snapshot: Seq<ProcessEntry>, root: u32, depth: nat, deeper: nat, pid: u32)
    requires
        forall|other: u32| !#[trigger] at_depth(snapshot, root, depth, other),
        depth <= deeper,
    ensures
        !at_depth(snapshot, root, deeper, pid),
    decreases deeper,
{
    if depth < deeper {
        assert forall|i: int| 0 <= i < snapshot.len() implies !at_depth(
            snapshot,
            root,
            (deeper - 1) as nat,
            (#[trigger] snapshot[i]).parent_pid,
        ) by {
            lemma_empty_level(
                snapshot,
                root,
                depth,
                (deeper - 1) as nat,
                snapshot[i].parent_pid,
            );
        }
    }
}

/// Whether `pid` is a child of one of `parents`.
spec fn reached_from(snapshot: Seq<ProcessEntry>, parents: Seq<u32>, pid: u32) -> bool {
    exists|i: int|
        0 <= i < snapshot.len() && (#[trigger] snapshot[i]).pid == pid && is_child_of(
            snapshot[i],
            snapshot[i].parent_pid,
        ) && parents.contains(snapshot[i].parent_pid)
}

/// What is reached from one parent more is what was reached before and that
/// parent's own children.
proof fn lemma_reached_from_push(
    snapshot: Seq<ProcessEntry>,
    frontier: Seq<u32>,
    k: int,
    before: Seq<u32>,
    offspring: Seq<u32>,
)
    requires
        0 <= k < frontier.len(),
        forall|pid: u32| #[trigger]
            before.contains(pid) <==> reached_from(snapshot, frontier.take(k), pid),
        forall|child: u32| #[trigger]
            offspring.contains(child) <==> exists|i: int|
                0 <= i < snapshot.len() && is_child_of(#[trigger] snapshot[i], frontier[k])
                    && snapshot[i].pid == child,
    ensures
        forall|pid: u32| #[trigger]
            (before + offspring).contains(pid) <==> reached_from(
                snapshot,
                frontier.take(k + 1),
                pid,
            ),
{
    let both = before + offspring;
    let old_parents = frontier.take(k);
    let parents = frontier.take(k + 1);
    assert(parents =~= old_parents.push(frontier[k]));
    assert forall|p: u32| #[trigger] parents.contains(p) <==> (old_parents.contains(p) || p
        == frontier[k]) by {
        if old_parents.contains(p) {
            let j = choose|j: int| 0 <= j < old_parents.len() && old_parents[j] == p;
            assert(parents[j] == p);
        }
        assert(parents[k] == frontier[k]);
    }
    assert forall|pid: u32| #[trigger] both.contains(pid) <==> reached_from(
        snapshot,
        parents,
        pid,
    ) by {
        if both.contains(pid) {
            let j = choose|j: int| 0 <= j < both.len() && both[j] == pid;
            if j < before.len() {
                assert(before[j] == pid);
                assert(before.contains(pid));
                assert(reached_from(snapshot, old_parents, pid));
            } else {
                assert(offspring[j - before.len()] == pid);
                assert(offspring.contains(pid));
            }
        }
        if reached_from(snapshot, parents, pid) {
            let i = choose|i: int|
                0 <= i < snapshot.len() && (#[trigger] snapshot[i]).pid == pid && is_child_of(
                    snapshot[i],
                    snapshot[i].parent_pid,
                ) && parents.contains(snapshot[i].parent_pid);
            if old_parents.contains(snapshot[i].parent_pid) {
                assert(reached_from(snapshot, old_parents, pid));
                assert(before.contains(pid));
                let j = choose|j: int| 0 <= j < before.len() && before[j] == pid;
                assert(both[j] == pid);
            } else {
                assert(is_child_of(snapshot[i], frontier[k]));
                assert(offspring.contains(pid));
                let j = choose|j: int| 0 <= j < offspring.len() && offspring[j] == pid;
                assert(both[before.len() + j] == pid);
            }
        }
    }
}

/// The children of a whole level are the level below it.
proof fn lemma_next_level(snapshot: Seq<ProcessEntry>, root: u32, depth: nat, frontier: Seq<u32>)
    requires
        forall|pid: u32| #[trigger]
            frontier.contains(pid) <==> at_depth(snapshot, root, depth, pid),
    ensures
        forall|pid: u32| #[trigger]
            at_depth(snapshot, root, depth + 1, pid) <==> reached_from(snapshot, frontier, pid),
{
    assert forall|pid: u32| #[trigger]
        at_depth(snapshot, root, depth + 1, pid) <==> reached_from(snapshot, frontier, pid) by {
        if at_depth(snapshot, root, depth + 1, pid) {
            let i = choose|i: int|
                {
                    &&& 0 <= i < snapshot.len()
                    &&& (#[trigger] snapshot[i]).pid == pid
                    &&& is_child_of(snapshot[i], snapshot[i].parent_pid)
                    &&& at_depth(snapshot, root, depth, snapshot[i].parent_pid)
                };
            assert(frontier.contains(snapshot[i].parent_pid));
        }
        if reached_from(snapshot, frontier, pid) {
            let i = choose|i: int|
                0 <= i < snapshot.len() && (#[trigger] snapshot[i]).pid == pid && is_child_of(
                    snapshot[i],
                    snapshot[i].parent_pid,
                ) && frontier.contains(snapshot[i].parent_pid);
            assert(at_depth(snapshot, root, depth, snapshot[i].parent_pid));
        }
    }
}

/// The best leaf of the levels above and the leaves of one level more give
/// the best leaf of all of them.
proof fn lemma_level_done(
    snapshot: Seq<ProcessEntry>,
    root: u32,
    depth: nat,
    frontier: Seq<u32>,
    above: Option<u32>,
    above_depth: nat,
    best: Option<u32>,
    best_depth: nat,
)
    requires
        forall|pid: u32| #[trigger]
            frontier.contains(pid) <==> at_depth(snapshot, root, depth, pid),
        above is None ==> above_depth == 0 && no_leaf_within(snapshot, root, depth),
        above matches Some(pid) ==> deepest_leaf_within(snapshot, root, depth, above_depth, pid),
        best_depth == depth && best is Some || best == above && best_depth == above_depth,
        best == above && best_depth == above_depth ==> forall|j: int|
            0 <= j < frontier.len() ==> (#[trigger] frontier[j]) == root || has_child(
                snapshot,
                frontier[j],
            ),
        best_depth == depth && best is Some ==> {
            &&& frontier.contains(best->0)
            &&& best->0 != root
            &&& !has_child(snapshot, best->0)
            &&& forall|j: int|
                0 <= j < frontier.len() ==> (#[trigger] frontier[j]) == root || has_child(
                    snapshot,
                    frontier[j],
                ) || frontier[j] <= best->0
        },
    ensures
        best is None ==> best_depth == 0 && no_leaf_within(snapshot, root, depth + 1),
        best matches Some(pid) ==> deepest_leaf_within(snapshot, root, depth + 1, best_depth, pid),
{
    assert forall|other: u32| #[trigger] leaf_at(snapshot, root, depth, other) implies best is Some
        && best_depth == depth && other <= best->0 by {
        assert(frontier.contains(other));
        let j = choose|j: int| 0 <= j < frontier.len() && frontier[j] == other;
        assert(frontier[j] == other);
    }
    if best is Some && best_depth == depth {
        assert(leaf_at(snapshot, root, depth, best->0));
    }
}

/// The pids of the children of `pid`, in snapshot order.
fn children_of(snapshot: &[ProcessEntry], pid: u32) -> (children: Vec<u32>)
    ensures
        forall|child: u32| #[trigger]
            children@.contains(child) <==> exists|i: int|
                0 <= i < snapshot@.len() && is_child_of(#[trigger] snapshot@[i], pid)
                    && snapshot@[i].pid == child,
        children@.len() == 0 <==> !has_child(snapshot@, pid),
{
    let mut children: Vec<u32> = Vec::new();
    let mut k: usize = 0;
    while k < snapshot.len()
        invariant
            k <= snapshot@.len(),
            forall|child: u32| #[trigger]
                children@.contains(child) <==> exists|i: int|
                    0 <= i < k && is_child_of(#[trigger] snapshot@[i], pid) && snapshot@[i].pid
                        == child,
            children@.len() == 0 <==> (forall|i: int|
                0 <= i < k ==> !is_child_of(#[trigger] snapshot@[i], pid)),
        decreases snapshot@.len() - k,
    {
        let entry = &snapshot[k];
        let ghost before = children@;
        if entry.parent_pid == pid && entry.pid != pid {
            children.push(entry.pid);
            proof {
                assert forall|child: u32| #[trigger] children@.contains(child) <==> (
                before.contains(child) || child == entry.pid) by {
                    if before.contains(child) {
                        let j = choose|j: int| 0 <= j < before.len() && before[j] == child;
                        assert(children@[j] == child);
                    }
                    assert(children@[before.len() as int] == entry.pid);
                }
                assert(is_child_of(snapshot@[k as int], pid));
            }
        }
        k = k + 1;
    }
    children
}

/// Adds those of `pids` to `level` that it does not hold yet.
fn add_new(level: &mut Vec<u32>, pids: &Vec<u32>)
    ensures
        forall|pid: u32| #[trigger]
            final(level)@.contains(pid) <==> (old(level)@ + pids@).contains(pid),
        old(level)@.no_duplicates() ==> final(level)@.no_duplicates(),
{
    let mut k: usize = 0;
    assert(old(level)@ + pids@.take(0) =~= old(level)@);
    while k < pids.len()
        invariant
            k <= pids@.len(),
            forall|pid: u32| #[trigger]
                level@.contains(pid) <==> (old(level)@ + pids@.take(k as int)).contains(pid),
            old(level)@.no_duplicates() ==> level@.no_duplicates(),
        decreases pids@.len() - k,
    {
        let new: u32 = pids[k];
        let mut held = false;
        let mut j: usize = 0;
        while j < level.len()
            invariant
                j <= level@.len(),
                held <==> (exists|i: int| 0 <= i < j && #[trigger] level@[i] == new),
            decreases level@.len() - j,
        {
            if level[j] == new {
                held = true;
            }
            j = j + 1;
        }
        let ghost before = level@;
        if !held {
            level.push(new);
        }
        proof {
            let seen = old(level)@ + pids@.take(k as int);
            let more = old(level)@ + pids@.take(k + 1);
            assert(more =~= seen.push(new));
            assert forall|pid: u32| #[trigger] level@.contains(pid) <==> more.contains(pid) by {
                lemma_push_contains(seen, new, pid);
                lemma_push_contains(before, new, pid);
            }
        }
        k = k + 1;
    }
    assert(pids@.take(k as int) =~= pids@);
}

/// A sequence with one element more contains what it contained and that.
proof fn lemma_push_contains(pids: Seq<u32>, new: u32, pid: u32)
    ensures
        pids.push(new).contains(pid) <==> pids.contains(pid) || pid == new,
{
    if pids.contains(pid) {
        let i = choose|i: int| 0 <= i < pids.len() && pids[i] == pid;
        assert(pids.push(new)[i] == pid);
    }
    assert(pids.push(new)[pids.len() as int] == new);
}

/// The best leaf of all levels down to an empty one is the active
/// descendant.
proof fn lemma_walk_ran_out(
    snapshot: Seq<ProcessEntry>,
    root: u32,
    levels: nat,
    active: Option<u32>,
)
    requires
        is_active_within(snapshot, root, levels, active),
        forall|other: u32| !#[trigger] at_depth(snapshot, root, levels, other),
    ensures
        is_active_descendant(snapshot, root, active),
{
    lemma_empty_level_no_cycle(snapshot, root, levels);
    assert forall|deeper: nat, other: u32| levels <= deeper implies !#[trigger] leaf_at(
        snapshot,
        root,
        deeper,
        other,
    ) by {
        lemma_empty_level(snapshot, root, levels, deeper, other);
    }
    if let Some(pid) = active {
        let depth = choose|depth: nat| #[trigger]
            deepest_leaf_within(snapshot, root, levels, depth, pid);
        assert(deepest_leaf(snapshot, root, depth, pid));
    }
}

/// Where there is a cycle, the best leaf within the depth limit is the
/// active descendant.
proof fn lemma_walk_met_a_cycle(snapshot: Seq<ProcessEntry>, root: u32, active: Option<u32>)
    requires
        is_active_within(snapshot, root, (MAX_DEPTH + 1) as nat, active),
        cycle_below(snapshot, root),
    ensures
        is_active_descendant(snapshot, root, active),
{
    if let Some(pid) = active {
        let depth = choose|depth: nat| #[trigger]
            deepest_leaf_within(snapshot, root, (MAX_DEPTH + 1) as nat, depth, pid);
        assert(deepest_leaf(snapshot, root, depth, pid));
    }
}

/// Walks the descendants of `root` breadth first and returns the deepest
/// leaf that is not `root` itself. Where several leaves lie at that depth
/// the highest pid wins, as a cheap sign of having been spawned last.
///
/// Parent links may form a cycle, since pids are reused. No path without a
/// repeat has more steps than the snapshot has rows, so a walk that goes on
/// longer has met one; the answer is then the one it held at the depth
/// limit.
pub fn pick_active_descendant(snapshot: &[ProcessEntry], root: u32) -> (active: Option<u32>)
    ensures
        is_active_descendant(snapshot@, root, active),
{
    let last_depth: usize = if snapshot.len() > MAX_DEPTH {
        snapshot.len()
    } else {
        MAX_DEPTH
    };
    let mut frontier: Vec<u32> = Vec::new();
    frontier.push(root);
    let mut best: Option<u32> = None;
    let mut best_depth: usize = 0;
    let mut held: Option<u32> = None;
    let mut depth: usize = 0;
    assert(frontier@[0] == root);
    loop
        invariant
            depth <= last_depth,
            MAX_DEPTH <= last_depth,
            snapshot@.len() <= last_depth,
            frontier@.no_duplicates(),
            forall|pid: u32| #[trigger]
                frontier@.contains(pid) <==> at_depth(snapshot@, root, depth as nat, pid),
            best is None ==> best_depth == 0 && no_leaf_within(snapshot@, root, depth as nat),
            best matches Some(pid) ==> deepest_leaf_within(
                snapshot@,
                root,
                depth as nat,
                best_depth as nat,
                pid,
            ),
            depth > MAX_DEPTH ==> is_active_within(
                snapshot@,
                root,
                (MAX_DEPTH + 1) as nat,
                held,
            ),
        decreases last_depth - depth,
    {
        let ghost above = best;
        let ghost above_depth = best_depth;
        let mut next: Vec<u32> = Vec::new();
        let mut k: usize = 0;
        proof {
            assert forall|j: int| depth == 0 && 0 <= j < frontier@.len() implies #[trigger]
                frontier@[j] == root by {
                assert(frontier@.contains(frontier@[j]));
            }
        }
        while k < frontier.len()
            invariant
                k <= frontier@.len(),
                next@.no_duplicates(),
                forall|pid: u32| #[trigger]
                    next@.contains(pid) <==> reached_from(snapshot@, frontier@.take(k as int), pid),
                depth == 0 ==> forall|j: int|
                    0 <= j < frontier@.len() ==> #[trigger] frontier@[j] == root,
                above is None ==> above_depth == 0,
                above is Some ==> above_depth < depth,
                best_depth == depth && best is Some || best == above && best_depth == above_depth,
                best == above && best_depth == above_depth ==> forall|j: int|
                    0 <= j < k ==> (#[trigger] frontier@[j]) == root || has_child(
                        snapshot@,
                        frontier@[j],
                    ),
                best_depth == depth && best is Some ==> {
                    &&& frontier@.contains(best->0)
                    &&& best->0 != root
                    &&& !has_child(snapshot@, best->0)
                    &&& forall|j: int|
                        0 <= j < k ==> (#[trigger] frontier@[j]) == root || has_child(
                            snapshot@,
                            frontier@[j],
                        ) || frontier@[j] <= best->0
                },
            decreases frontier@.len() - k,
        {
            let pid: u32 = frontier[k];
            let children = children_of(snapshot, pid);
            let ghost next_before = next@;
            if children.len() == 0 && pid != root {
                let better = match best {
                    Some(leaf) => depth > best_depth || (depth == best_depth && pid > leaf),
                    None => depth > best_depth,
                };
                if better {
                    best = Some(pid);
                    best_depth = depth;
                }
                assert(next@ =~= next_before + children@);
            } else {
                add_new(&mut next, &children);
            }
            proof {
                lemma_reached_from_push(snapshot@, frontier@, k as int, next_before, children@);
                assert forall|pid: u32| #[trigger] next@.contains(pid) <==> reached_from(
                    snapshot@,
                    frontier@.take(k + 1),
                    pid,
                ) by {
                    assert(next@.contains(pid) <==> (next_before + children@).contains(pid));
                }
            }
            k = k + 1;
        }
        proof {
            assert(frontier@.take(k as int) =~= frontier@);
            lemma_next_level(snapshot@, root, depth as nat, frontier@);
            lemma_level_done(
                snapshot@,
                root,
                depth as nat,
                frontier@,
                above,
                above_depth as nat,
                best,
                best_depth as nat,
            );
            assert(is_active_within(snapshot@, root, (depth + 1) as nat, best)) by {
                if let Some(pid) = best {
                    assert(deepest_leaf_within(
                        snapshot@,
                        root,
                        (depth + 1) as nat,
                        best_depth as nat,
                        pid,
                    ));
                }
            }
        }
        if depth == MAX_DEPTH {
            held = best;
        }
        if next.len() == 0 {
            proof {
                assert forall|other: u32| !#[trigger] at_depth(
                    snapshot@,
                    root,
                    (depth + 1) as nat,
                    other,
                ) by {
                    assert(!next@.contains(other));
                }
                lemma_walk_ran_out(snapshot@, root, (depth + 1) as nat, best);
            }
            return best;
        }
        if depth == last_depth {
            proof {
                let deep = next@[0];
                assert(next@.contains(deep));
                lemma_too_deep_is_a_cycle(snapshot@, root, (depth + 1) as nat, deep);
                lemma_walk_met_a_cycle(snapshot@, root, held);
            }
            return held;
        }
        frontier = next;
        depth = depth + 1;
    }
}

/// Whether `i` is the first row of the snapshot for the process `pid`.
pub open spec fn first_row_of(snapshot: Seq<ProcessEntry>, pid: u32, i: int) -> bool {
    &&& 0 <= i < snapshot.len()
    &&& snapshot[i].pid == pid
    &&& forall|j: int| 0 <= j < i ==> (#[trigger] snapshot[j]).pid != pid
}

/// Whether `job` consists of the process in `entry` alone, known by its
/// name and nothing more.
pub open spec fn is_single_process_job(job: ForegroundJob, entry: ProcessEntry) -> bool {
    &&& job.process_group_id == entry.pid
    &&& job.processes@.len() == 1
    &&& job.processes@[0].pid == entry.pid
    &&& job.processes@[0].name@ == entry.name@
    &&& job.processes@[0].argv0 matches Some(argv0) && argv0@ == entry.name@
    &&& job.processes@[0].cmdline is None
}

/// What `foreground_process_group_id` finds: nothing for pid zero, the
/// active descendant for any other shell.
pub open spec fn is_foreground_group(
    snapshot: Seq<ProcessEntry>,
    child_pid: u32,
    group: Option<u32>,
) -> bool {
    if child_pid == 0 {
        group is None
    } else {
        is_active_descendant(snapshot, child_pid, group)
    }
}

/// What `foreground_job` finds: nothing for pid zero, and for any other
/// shell the active descendant as its first row names it.
pub open spec fn is_foreground_job(
    snapshot: Seq<ProcessEntry>,
    child_pid: u32,
    job: Option<ForegroundJob>,
) -> bool {
    match job {
        None => child_pid == 0 || is_active_descendant(snapshot, child_pid, None),
        Some(found) => {
            &&& child_pid != 0
            &&& is_active_descendant(snapshot, child_pid, Some(found.process_group_id))
            &&& exists|i: int|
                first_row_of(snapshot, found.process_group_id, i) && is_single_process_job(
                    found,
                    #[trigger] snapshot[i],
                )
        },
    }
}

/// The foreground job of a pane whose shell is `child_pid`, as far as
/// `snapshot` shows it: the active descendant of the shell, under the name
/// that its first row gives it. Pid zero stands for no shell.
pub fn foreground_job(child_pid: u32, snapshot: &[ProcessEntry]) -> (job: Option<ForegroundJob>)
    ensures
        is_foreground_job(snapshot@, child_pid, job),
{
    if child_pid == 0 {
        return None;
    }
    match pick_active_descendant(snapshot, child_pid) {
        None => None,
        Some(active) => {
            let mut k: usize = 0;
            while k < snapshot.len()
                invariant
                    k <= snapshot@.len(),
                    child_pid != 0,
                    is_active_descendant(snapshot@, child_pid, Some(active)),
                    forall|j: int| 0 <= j < k ==> (#[trigger] snapshot@[j]).pid != active,
                decreases snapshot@.len() - k,
            {
                let entry = &snapshot[k];
                if entry.pid == active {
                    let mut processes: Vec<ForegroundProcess> = Vec::new();
                    processes.push(
                        ForegroundProcess {
                            pid: entry.pid,
                            name: entry.name.clone(),
                            argv0: Some(entry.name.clone()),
                            cmdline: None,
                        },
                    );
                    let job = ForegroundJob { process_group_id: active, processes };
                    assert(is_single_process_job(job, snapshot@[k as int]));
                    return Some(job);
                }
                k = k + 1;
            }
            proof {
                let depth = choose|depth: nat| #[trigger]
                    deepest_leaf(snapshot@, child_pid, depth, active);
                assert(leaf_at(snapshot@, child_pid, depth, active));
                assert(depth > 0);
            }
            None
        },
    }
}

/// The process group that stands for the foreground of a pane whose shell
/// is `child_pid`: the pid of the shell's active descendant. Pid zero
/// stands for no shell.
pub fn foreground_process_group_id(child_pid: u32, snapshot: &[ProcessEntry]) -> (group: Option<
    u32,
>)
    ensures
        is_foreground_group(snapshot@, child_pid, group),
{
    if child_pid == 0 {
        return None;
    }
    pick_active_descendant(snapshot, child_pid)
}

/// A snapshot and a root determine the active descendant.
pub proof fn active_descendant_is_unique(
    snapshot: Seq<ProcessEntry>,
    root: u32,
    a: Option<u32>,
    b: Option<u32>,
)
    requires
        is_active_descendant(snapshot, root, a),
        is_active_descendant(snapshot, root, b),
    ensures
        a == b,
{
    if let Some(x) = a {
        let d = choose|d: nat| #[trigger] deepest_leaf(snapshot, root, d, x);
        assert(leaf_at(snapshot, root, d, x));
        if let Some(y) = b {
            let e = choose|e: nat| #[trigger] deepest_leaf(snapshot, root, e, y);
            assert(leaf_at(snapshot, root, e, y));
            assert(d == e);
        }
    } else if let Some(y) = b {
        let e = choose|e: nat| #[trigger] deepest_leaf(snapshot, root, e, y);
        assert(leaf_at(snapshot, root, e, y));
    }
}

/// The foreground process is a process of the snapshot, other than the
/// shell, and has no children.
pub proof fn active_descendant_is_a_listed_leaf(
    snapshot: Seq<ProcessEntry>,
    root: u32,
    pid: u32,
)
    requires
        is_active_descendant(snapshot, root, Some(pid)),
    ensures
        pid != root,
        !has_child(snapshot, pid),
        exists|i: int| 0 <= i < snapshot.len() && (#[trigger] snapshot[i]).pid == pid,
{
    let depth = choose|depth: nat| #[trigger]
        deepest_leaf(snapshot, root, depth, pid);
    assert(leaf_at(snapshot, root, depth, pid));
    assert(depth > 0);
}

/// In a tree of processes no leaf lies deeper than the active descendant,
/// at whatever depth, and none at the same depth has a higher pid.
pub proof fn in_a_tree_no_leaf_lies_deeper(
    snapshot: Seq<ProcessEntry>,
    root: u32,
    active: Option<u32>,
    depth: nat,
    leaf: u32,
)
    requires
        !cycle_below(snapshot, root),
        is_active_descendant(snapshot, root, active),
        leaf_at(snapshot, root, depth, leaf),
    ensures
        active matches Some(pid) && exists|deepest: nat| #[trigger]
            leaf_at(snapshot, root, deepest, pid) && depth <= deepest && (depth == deepest ==> leaf
                <= pid),
{
    assert(is_looked_at(snapshot, root, depth));
    let pid = active->0;
    let deepest = choose|deepest: nat| #[trigger] deepest_leaf(snapshot, root, deepest, pid);
    assert(leaf_at(snapshot, root, deepest, pid));
}

/// On one snapshot the foreground job and the foreground process group
/// agree: either both are missing or the job carries that group.
pub proof fn foreground_job_carries_the_group(
    snapshot: Seq<ProcessEntry>,
    child_pid: u32,
    job: Option<ForegroundJob>,
    group: Option<u32>,
)
    requires
        is_foreground_job(snapshot, child_pid, job),
        is_foreground_group(snapshot, child_pid, group),
    ensures
        match job {
            Some(found) => group == Some(found.process_group_id),
            None => group is None,
        },
{
    if child_pid != 0 {
        match job {
            Some(found) => {
                active_descendant_is_unique(
                    snapshot,
                    child_pid,
                    Some(found.process_group_id),
                    group,
                );
            },
            None => {
                active_descendant_is_unique(snapshot, child_pid, None, group);
            },
        }
    }
}

/// Whether a snapshot has a row with these two pids.
pub open spec fn has_link(snapshot: Seq<ProcessEntry>, pid: u32, parent_pid: u32) -> bool {
    exists|i: int|
        0 <= i < snapshot.len() && (#[trigger] snapshot[i]).pid == pid && snapshot[i].parent_pid
            == parent_pid
}

/// Whether every parent link in `a` is also in `b`.
pub open spec fn links_within(a: Seq<ProcessEntry>, b: Seq<ProcessEntry>) -> bool {
    forall|i: int| 0 <= i < a.len() ==> has_link(b, (#[trigger] a[i]).pid, a[i].parent_pid)
}

/// Whether two snapshots list the same parent links.
pub open spec fn same_links(a: Seq<ProcessEntry>, b: Seq<ProcessEntry>) -> bool {
    links_within(a, b) && links_within(b, a)
}

/// A process reached over the links of `a` is reached over those of `b`.
proof fn lemma_links_keep_depth(
    a: Seq<ProcessEntry>,
    b: Seq<ProcessEntry>,
    root: u32,
    depth: nat,
    pid: u32,
)
    requires
        links_within(a, b),
        at_depth(a, root, depth, pid),
    ensures
        at_depth(b, root, depth, pid),
    decreases depth,
{
    if depth > 0 {
        let i = choose|i: int|
            {
                &&& 0 <= i < a.len()
                &&& (#[trigger] a[i]).pid == pid
                &&& is_child_of(a[i], a[i].parent_pid)
                &&& at_depth(a, root, (depth - 1) as nat, a[i].parent_pid)
            };
        lemma_links_keep_depth(a, b, root, (depth - 1) as nat, a[i].parent_pid);
        assert(has_link(b, a[i].pid, a[i].parent_pid));
        let j = choose|j: int|
            0 <= j < b.len() && (#[trigger] b[j]).pid == a[i].pid && b[j].parent_pid
                == a[i].parent_pid;
        assert(is_child_of(b[j], b[j].parent_pid));
    }
}

/// Over the same links a process is a leaf at the same depths.
proof fn lemma_links_keep_leaves(
    a: Seq<ProcessEntry>,
    b: Seq<ProcessEntry>,
    root: u32,
    depth: nat,
    pid: u32,
)
    requires
        same_links(a, b),
    ensures
        leaf_at(a, root, depth, pid) <==> leaf_at(b, root, depth, pid),
{
    if at_depth(a, root, depth, pid) {
        lemma_links_keep_depth(a, b, root, depth, pid);
    }
    if at_depth(b, root, depth, pid) {
        lemma_links_keep_depth(b, a, root, depth, pid);
    }
    if has_child(a, pid) {
        let i = choose|i: int| 0 <= i < a.len() && is_child_of(#[trigger] a[i], pid);
        assert(has_link(b, a[i].pid, a[i].parent_pid));
        let j = choose|j: int|
            0 <= j < b.len() && (#[trigger] b[j]).pid == a[i].pid && b[j].parent_pid
                == a[i].parent_pid;
        assert(is_child_of(b[j], pid));
    }
    if has_child(b, pid) {
        let i = choose|i: int| 0 <= i < b.len() && is_child_of(#[trigger] b[i], pid);
        assert(has_link(a, b[i].pid, b[i].parent_pid));
        let j = choose|j: int|
            0 <= j < a.len() && (#[trigger] a[j]).pid == b[i].pid && a[j].parent_pid
                == b[i].parent_pid;
        assert(is_child_of(a[j], pid));
    }
}

/// A cycle over the links of `a` is one over those of `b`.
proof fn lemma_links_keep_cycles(a: Seq<ProcessEntry>, b: Seq<ProcessEntry>, root: u32)
    requires
        links_within(a, b),
        cycle_below(a, root),
    ensures
        cycle_below(b, root),
{
    let (depth, pid, steps) = choose|depth: nat, pid: u32, steps: nat|
        steps > 0 && #[trigger] at_depth(a, root, depth, pid) && #[trigger] at_depth(
            a,
            pid,
            steps,
            pid,
        );
    lemma_links_keep_depth(a, b, root, depth, pid);
    lemma_links_keep_depth(a, b, pid, steps, pid);
}

/// Only the parent links matter: neither the order of the rows, nor rows
/// listed twice, nor the names change which descendant is active.
pub proof fn active_descendant_depends_on_links_only(
    a: Seq<ProcessEntry>,
    b: Seq<ProcessEntry>,
    root: u32,
    active: Option<u32>,
)
    requires
        same_links(a, b),
        is_active_descendant(a, root, active),
    ensures
        is_active_descendant(b, root, active),
{
    if cycle_below(a, root) {
        lemma_links_keep_cycles(a, b, root);
    }
    if cycle_below(b, root) {
        lemma_links_keep_cycles(b, a, root);
    }
    assert forall|depth: nat, pid: u32| #[trigger]
        leaf_at(b, root, depth, pid) <==> leaf_at(a, root, depth, pid) by {
        lemma_links_keep_leaves(a, b, root, depth, pid);
    }
    if let Some(pid) = active {
        let depth = choose|depth: nat| #[trigger]
            deepest_leaf(a, root, depth, pid);
        assert(deepest_leaf(b, root, depth, pid));
    }
}

/// Whether a row has no part in the tree below `root`: it names itself as
/// its parent, or its parent is neither `root` nor a descendant of it.
pub open spec fn is_unrelated(snapshot: Seq<ProcessEntry>, root: u32, row: ProcessEntry) -> bool {
    row.pid == row.parent_pid || forall|depth: nat|
        !#[trigger] at_depth(snapshot, root, depth, row.parent_pid)
}

/// An unrelated row leaves every level as it was.
proof fn lemma_unrelated_row_keeps_depth(
    snapshot: Seq<ProcessEntry>,
    row: ProcessEntry,
    root: u32,
    depth: nat,
    pid: u32,
)
    requires
        is_unrelated(snapshot, root, row),
    ensures
        at_depth(snapshot.push(row), root, depth, pid) <==> at_depth(snapshot, root, depth, pid),
    decreases depth,
{
    let grown = snapshot.push(row);
    if depth > 0 {
        let up = (depth - 1) as nat;
        assert forall|i: int| 0 <= i < grown.len() implies at_depth(
            grown,
            root,
            up,
            (#[trigger] grown[i]).parent_pid,
        ) == at_depth(snapshot, root, up, grown[i].parent_pid) by {
            lemma_unrelated_row_keeps_depth(snapshot, row, root, up, grown[i].parent_pid);
        }
        if at_depth(snapshot, root, depth, pid) {
            let i = choose|i: int|
                {
                    &&& 0 <= i < snapshot.len()
                    &&& (#[trigger] snapshot[i]).pid == pid
                    &&& is_child_of(snapshot[i], snapshot[i].parent_pid)
                    &&& at_depth(snapshot, root, up, snapshot[i].parent_pid)
                };
            assert(grown[i] == snapshot[i]);
        }
        if at_depth(grown, root, depth, pid) {
            let i = choose|i: int|
                {
                    &&& 0 <= i < grown.len()
                    &&& (#[trigger] grown[i]).pid == pid
                    &&& is_child_of(grown[i], grown[i].parent_pid)
                    &&& at_depth(grown, root, up, grown[i].parent_pid)
                };
            assert(grown[i] == snapshot[i]);
        }
    }
}

/// What has no part in the tree below `root` has none below a process in
/// that tree.
proof fn lemma_unrelated_further_down(
    snapshot: Seq<ProcessEntry>,
    row: ProcessEntry,
    root: u32,
    depth: nat,
    pid: u32,
)
    requires
        is_unrelated(snapshot, root, row),
        at_depth(snapshot, root, depth, pid),
    ensures
        is_unrelated(snapshot, pid, row),
{
    if row.pid != row.parent_pid {
        assert forall|steps: nat| !#[trigger] at_depth(snapshot, pid, steps, row.parent_pid) by {
            if at_depth(snapshot, pid, steps, row.parent_pid) {
                lemma_depths_add(snapshot, root, depth, pid, steps, row.parent_pid);
            }
        }
    }
}

/// An unrelated row neither closes nor opens a cycle.
proof fn lemma_unrelated_row_keeps_cycles(
    snapshot: Seq<ProcessEntry>,
    row: ProcessEntry,
    root: u32,
)
    requires
        is_unrelated(snapshot, root, row),
    ensures
        cycle_below(snapshot.push(row), root) <==> cycle_below(snapshot, root),
{
    let grown = snapshot.push(row);
    assert forall|depth: nat, pid: u32, steps: nat|
        at_depth(snapshot, root, depth, pid) implies #[trigger] at_depth(grown, root, depth, pid)
        && (#[trigger] at_depth(grown, pid, steps, pid) <==> at_depth(
        snapshot,
        pid,
        steps,
        pid,
    )) by {
        lemma_unrelated_row_keeps_depth(snapshot, row, root, depth, pid);
        lemma_unrelated_further_down(snapshot, row, root, depth, pid);
        lemma_unrelated_row_keeps_depth(snapshot, row, pid, steps, pid);
    }
    if cycle_below(snapshot, root) {
        let (depth, pid, steps) = choose|depth: nat, pid: u32, steps: nat|
            steps > 0 && #[trigger] at_depth(snapshot, root, depth, pid) && #[trigger] at_depth(
                snapshot,
                pid,
                steps,
                pid,
            );
        lemma_unrelated_row_keeps_depth(snapshot, row, root, depth, pid);
        assert(at_depth(grown, root, depth, pid) && at_depth(grown, pid, steps, pid));
    }
    if cycle_below(grown, root) {
        let (depth, pid, steps) = choose|depth: nat, pid: u32, steps: nat|
            steps > 0 && #[trigger] at_depth(grown, root, depth, pid) && #[trigger] at_depth(
                grown,
                pid,
                steps,
                pid,
            );
        lemma_unrelated_row_keeps_depth(snapshot, row, root, depth, pid);
        assert(at_depth(snapshot, root, depth, pid) && at_depth(snapshot, pid, steps, pid));
    }
}

/// A process started below something other than the shell and its
/// descendants does not change which descendant is active, and neither does
/// a row that names itself as its parent.
pub proof fn unrelated_process_is_ignored(
    snapshot: Seq<ProcessEntry>,
    row: ProcessEntry,
    root: u32,
    active: Option<u32>,
)
    requires
        is_unrelated(snapshot, root, row),
        is_active_descendant(snapshot, root, active),
    ensures
        is_active_descendant(snapshot.push(row), root, active),
{
    let grown = snapshot.push(row);
    lemma_unrelated_row_keeps_cycles(snapshot, row, root);
    assert forall|depth: nat, pid: u32| #[trigger]
        leaf_at(grown, root, depth, pid) == leaf_at(snapshot, root, depth, pid) by {
        lemma_unrelated_row_keeps_depth(snapshot, row, root, depth, pid);
        if at_depth(snapshot, root, depth, pid) {
            if has_child(snapshot, pid) {
                let i = choose|i: int|
                    0 <= i < snapshot.len() && is_child_of(#[trigger] snapshot[i], pid);
                assert(grown[i] == snapshot[i]);
            }
            if has_child(grown, pid) {
                let i = choose|i: int|
                    0 <= i < grown.len() && is_child_of(#[trigger] grown[i], pid);
                assert(grown[i] == snapshot[i]);
            }
        }
    }
    if let Some(pid) = active {
        let depth = choose|depth: nat| #[trigger] deepest_leaf(snapshot, root, depth, pid);
        assert(deepest_leaf(grown, root, depth, pid));
    }
}

/// Whether `rows` lead down from `root`, one row a step: the first row's
/// parent is `root`, each further row's parent is the process of the row
/// before it, and no row names itself as its parent.
pub open spec fn is_descent(snapshot: Seq<ProcessEntry>, root: u32, rows: Seq<int>) -> bool {
    &&& forall|k: int| 0 <= k < rows.len() ==> 0 <= #[trigger] rows[k] < snapshot.len()
    &&& forall|k: int|
        0 <= k < rows.len() ==> {
            &&& snapshot[#[trigger] rows[k]].pid != snapshot[rows[k]].parent_pid
            &&& snapshot[rows[k]].parent_pid == (if k == 0 {
                root
            } else {
                snapshot[rows[k - 1]].pid
            })
        }
}

/// A descent is a chain of rows, and the other way round.
proof fn lemma_descent_is_chain(snapshot: Seq<ProcessEntry>, root: u32, rows: Seq<int>)
    ensures
        is_descent(snapshot, root, rows) <==> is_chain(snapshot, root, rows),
{
    if is_chain(snapshot, root, rows) {
        assert forall|k: int| 0 <= k < rows.len() implies {
            &&& snapshot[#[trigger] rows[k]].pid != snapshot[rows[k]].parent_pid
            &&& snapshot[rows[k]].parent_pid == (if k == 0 {
                root
            } else {
                snapshot[rows[k - 1]].pid
            })
        } by {
            assert(is_child_of(
                snapshot[rows[k]],
                if k == 0 {
                    root
                } else {
                    snapshot[rows[k - 1]].pid
                },
            ));
        }
    }
}

/// A cycle is a descent that comes to a row again.
proof fn lemma_cycle_is_a_repeat(snapshot: Seq<ProcessEntry>, root: u32)
    ensures
        cycle_below(snapshot, root) <==> exists|rows: Seq<int>| #[trigger]
            is_descent(snapshot, root, rows) && !rows.no_duplicates(),
{
    if cycle_below(snapshot, root) {
        let (depth, pid, steps) = choose|depth: nat, pid: u32, steps: nat|
            steps > 0 && #[trigger] at_depth(snapshot, root, depth, pid) && #[trigger] at_depth(
                snapshot,
                pid,
                steps,
                pid,
            );
        let deep = lemma_cycle_goes_deep(
            snapshot,
            root,
            depth,
            pid,
            steps,
            snapshot.len() + 1,
        );
        let rows = lemma_chain_to(snapshot, root, deep, pid);
        lemma_descent_is_chain(snapshot, root, rows);
        if rows.no_duplicates() {
            lemma_distinct_rows_fit(snapshot, rows);
        }
        assert(is_descent(snapshot, root, rows) && !rows.no_duplicates());
    }
    if exists|rows: Seq<int>| #[trigger]
        is_descent(snapshot, root, rows) && !rows.no_duplicates() {
        let rows = choose|rows: Seq<int>| #[trigger]
            is_descent(snapshot, root, rows) && !rows.no_duplicates();
        lemma_descent_is_chain(snapshot, root, rows);
        lemma_repeat_is_a_cycle(snapshot, root, rows);
    }
}

/// Every row whose process is not its own parent is one step below that
/// parent, whatever the two numbers are, and the parent has a child.
pub proof fn every_row_is_a_step_below_its_parent(snapshot: Seq<ProcessEntry>, i: int)
    requires
        0 <= i < snapshot.len(),
        snapshot[i].pid != snapshot[i].parent_pid,
    ensures
        at_depth(snapshot, snapshot[i].parent_pid, 1, snapshot[i].pid),
        has_child(snapshot, snapshot[i].parent_pid),
{
    let parent = snapshot[i].parent_pid;
    assert(at_depth(snapshot, parent, 0, parent));
    assert(is_child_of(snapshot[i], parent));
}

/// A process has a child only where some other row names it as its parent.
pub proof fn a_child_is_a_row(snapshot: Seq<ProcessEntry>, pid: u32)
    requires
        has_child(snapshot, pid),
    ensures
        exists|i: int|
            0 <= i < snapshot.len() && (#[trigger] snapshot[i]).parent_pid == pid && snapshot[i].pid
                != pid,
{
    let i = choose|i: int| 0 <= i < snapshot.len() && is_child_of(#[trigger] snapshot[i], pid);
    assert(snapshot[i].parent_pid == pid);
}

/// The depth of a process is the number of rows on a way down to it: every
/// such way puts the process it ends in at that depth.
pub proof fn a_descent_reaches_its_length(
    snapshot: Seq<ProcessEntry>,
    root: u32,
    rows: Seq<int>,
)
    requires
        is_descent(snapshot, root, rows),
    ensures
        at_depth(
            snapshot,
            root,
            rows.len(),
            if rows.len() == 0 {
                root
            } else {
                snapshot[rows.last()].pid
            },
        ),
{
    lemma_descent_is_chain(snapshot, root, rows);
    if rows.len() > 0 {
        lemma_chain_depths(snapshot, root, rows, rows.len() - 1);
    }
}

/// A process at some depth has a way down to it of that many rows.
pub proof fn a_depth_has_its_descent(
    snapshot: Seq<ProcessEntry>,
    root: u32,
    depth: nat,
    pid: u32,
)
    requires
        at_depth(snapshot, root, depth, pid),
    ensures
        exists|rows: Seq<int>| #[trigger]
            is_descent(snapshot, root, rows) && rows.len() == depth && pid == (if depth == 0 {
                root
            } else {
                snapshot[rows.last()].pid
            }),
{
    let rows = lemma_chain_to(snapshot, root, depth, pid);
    lemma_descent_is_chain(snapshot, root, rows);
}

/// The active descendant lies below the root and is no other process's
/// parent. There is a way down to it of at most sixteen rows, or no way down
/// from the root comes to a row twice.
pub proof fn the_active_descendant_is_a_leaf_below_the_root(
    snapshot: Seq<ProcessEntry>,
    root: u32,
    pid: u32,
)
    requires
        is_active_descendant(snapshot, root, Some(pid)),
    ensures
        pid != root,
        forall|i: int|
            0 <= i < snapshot.len() && (#[trigger] snapshot[i]).parent_pid == pid ==> snapshot[i].pid
                == pid,
        exists|rows: Seq<int>|
            {
                &&& #[trigger] is_descent(snapshot, root, rows)
                &&& rows.len() > 0
                &&& snapshot[rows.last()].pid == pid
                &&& rows.len() <= 16 || forall|other: Seq<int>| #[trigger]
                    is_descent(snapshot, root, other) ==> other.no_duplicates()
            },
{
    let depth = choose|depth: nat| #[trigger] deepest_leaf(snapshot, root, depth, pid);
    assert(leaf_at(snapshot, root, depth, pid));
    let rows = lemma_chain_to(snapshot, root, depth, pid);
    lemma_descent_is_chain(snapshot, root, rows);
    lemma_cycle_is_a_repeat(snapshot, root);
    assert forall|i: int|
        0 <= i < snapshot.len() && (#[trigger] snapshot[i]).parent_pid
            == pid implies snapshot[i].pid == pid by {
        if snapshot[i].pid != pid {
            assert(is_child_of(snapshot[i], pid));
        }
    }
    assert(is_descent(snapshot, root, rows) && rows.len() > 0 && snapshot[rows.last()].pid
        == pid);
}

/// No leaf is passed over: where a way down from the root ends in a process
/// that is no other's parent, there is an active descendant, and a way down
/// to it that is at least as long. Of two equally long ways the
/// higher pid is taken. The way given has at most sixteen rows, or no way
/// down comes to a row twice.
pub proof fn no_leaf_below_the_root_is_passed_over(
    snapshot: Seq<ProcessEntry>,
    root: u32,
    active: Option<u32>,
    rows: Seq<int>,
)
    requires
        is_active_descendant(snapshot, root, active),
        is_descent(snapshot, root, rows),
        rows.len() > 0,
        snapshot[rows.last()].pid != root,
        forall|i: int|
            0 <= i < snapshot.len() && (#[trigger] snapshot[i]).parent_pid
                == snapshot[rows.last()].pid ==> snapshot[i].pid == snapshot[rows.last()].pid,
        rows.len() <= 16 || forall|other: Seq<int>| #[trigger]
            is_descent(snapshot, root, other) ==> other.no_duplicates(),
    ensures
        active matches Some(pid) && exists|longest: Seq<int>|
            {
                &&& #[trigger] is_descent(snapshot, root, longest)
                &&& snapshot[longest.last()].pid == pid
                &&& rows.len() <= longest.len()
                &&& rows.len() == longest.len() ==> snapshot[rows.last()].pid <= pid
                &&& longest.len() <= 16 || forall|other: Seq<int>| #[trigger]
                    is_descent(snapshot, root, other) ==> other.no_duplicates()
            },
{
    let leaf = snapshot[rows.last()].pid;
    a_descent_reaches_its_length(snapshot, root, rows);
    lemma_cycle_is_a_repeat(snapshot, root);
    if has_child(snapshot, leaf) {
        a_child_is_a_row(snapshot, leaf);
    }
    assert(leaf_at(snapshot, root, rows.len(), leaf));
    assert(is_looked_at(snapshot, root, rows.len()));
    let pid = active->0;
    let depth = choose|depth: nat| #[trigger] deepest_leaf(snapshot, root, depth, pid);
    assert(leaf_at(snapshot, root, depth, pid));
    let longest = lemma_chain_to(snapshot, root, depth, pid);
    lemma_descent_is_chain(snapshot, root, longest);
    assert(is_descent(snapshot, root, longest) && snapshot[longest.last()].pid == pid);
}

/// A process whose only child has no children of its own has that child as
/// its active descendant, whichever of the two pids is the higher.
pub proof fn an_only_child_is_the_active_descendant(
    snapshot: Seq<ProcessEntry>,
    root: u32,
    active: Option<u32>,
    i: int,
)
    requires
        is_active_descendant(snapshot, root, active),
        0 <= i < snapshot.len(),
        snapshot[i].parent_pid == root,
        snapshot[i].pid != root,
        forall|j: int|
            0 <= j < snapshot.len() && (#[trigger] snapshot[j]).parent_pid == root
                ==> snapshot[j].pid == snapshot[i].pid || snapshot[j].pid == root,
        forall|j: int|
            0 <= j < snapshot.len() && (#[trigger] snapshot[j]).parent_pid == snapshot[i].pid
                ==> snapshot[j].pid == snapshot[i].pid,
    ensures
        active == Some(snapshot[i].pid),
{
    let only = snapshot[i].pid;
    let rows = seq![i];
    assert(is_descent(snapshot, root, rows));
    assert(snapshot[rows.last()].pid == only);
    no_leaf_below_the_root_is_passed_over(snapshot, root, active, rows);
    let pid = active->0;
    the_active_descendant_is_a_leaf_below_the_root(snapshot, root, pid);
    let way = choose|way: Seq<int>| #[trigger]
        is_descent(snapshot, root, way) && way.len() > 0 && snapshot[way.last()].pid == pid;
    let first = way[0];
    assert(snapshot[first].parent_pid == root);
    assert(snapshot[first].pid == only);
    if way.len() > 1 {
        let second = way[1];
        assert(snapshot[second].parent_pid == snapshot[way[0]].pid);
    }
}

/// The foreground group of a shell is the shell's active descendant, and so
/// is the foreground job: there is a job exactly where there is a group.
pub proof fn the_foreground_is_the_active_descendant(
    snapshot: Seq<ProcessEntry>,
    child_pid: u32,
    active: Option<u32>,
    group: Option<u32>,
    job: Option<ForegroundJob>,
)
    requires
        child_pid != 0,
        is_active_descendant(snapshot, child_pid, active),
        is_foreground_group(snapshot, child_pid, group),
        is_foreground_job(snapshot, child_pid, job),
    ensures
        group == active,
        active is None ==> job is None,
        active matches Some(pid) ==> (job matches Some(found) && found.process_group_id == pid),
{
    active_descendant_is_unique(snapshot, child_pid, active, group);
    foreground_job_carries_the_group(snapshot, child_pid, job, group);
}

/// Pid zero stands for no shell: nothing is in its foreground.
pub proof fn no_shell_has_no_foreground(
    snapshot: Seq<ProcessEntry>,
    job: Option<ForegroundJob>,
    group: Option<u32>,
)
    requires
        is_foreground_job(snapshot, 0, job),
        is_foreground_group(snapshot, 0, group),
    ensures
        job is None,
        group is None,
{
}

/// The foreground job is one process: the one that is the foreground group.
/// Its name, and the name it was started under, are what the first row of
/// that process says, and its command line is not known.
pub proof fn the_foreground_job_is_one_named_process(
    snapshot: Seq<ProcessEntry>,
    child_pid: u32,
    found: ForegroundJob,
    group: Option<u32>,
    i: int,
)
    requires
        is_foreground_job(snapshot, child_pid, Some(found)),
        is_foreground_group(snapshot, child_pid, group),
        0 <= i < snapshot.len(),
        Some(snapshot[i].pid) == group,
        forall|j: int| 0 <= j < i ==> (#[trigger] snapshot[j]).pid != snapshot[i].pid,
    ensures
        group == Some(found.process_group_id),
        found.processes@.len() == 1,
        found.processes@[0].pid == snapshot[i].pid,
        found.processes@[0].name@ == snapshot[i].name@,
        found.processes@[0].argv0 matches Some(argv0) && argv0@ == snapshot[i].name@,
        found.processes@[0].cmdline is None,
{
    foreground_job_carries_the_group(snapshot, child_pid, Some(found), group);
    let first = choose|first: int|
        first_row_of(snapshot, found.process_group_id, first) && is_single_process_job(
            found,
            #[trigger] snapshot[first],
        );
    assert(first == i) by {
        if first < i {
            assert(snapshot[first].pid != snapshot[i].pid);
        } else if i < first {
            assert(snapshot[i].pid != found.process_group_id);
        }
    }
}

} // verus!
