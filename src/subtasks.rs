//! Nesting a task's sub-tasks into a tree, by index over the flat list.
use crate::models::SubTask;
use vstd::prelude::*;

verus! {

/// Some sub-task of the list has id `p`.
pub open spec fn names_member(flat: Seq<SubTask>, p: Seq<char>) -> bool {
    exists|k: int| 0 <= k < flat.len() && (#[trigger] flat[k]).id@ == p
}

/// A sub-task sits at the top when it has no parent in the list.
pub open spec fn is_root(flat: Seq<SubTask>, j: int) -> bool {
    match flat[j].parent_id {
        None => true,
        Some(p) => !names_member(flat, p@),
    }
}

/// Position of the first sub-task among the first `n` whose id is `p`.
pub open spec fn first_with_id(flat: Seq<SubTask>, p: Seq<char>, n: int) -> Option<int>
    decreases n,
{
    if n <= 0 {
        None
    } else {
        match first_with_id(flat, p, n - 1) {
            Some(k) => Some(k),
            None => if flat[n - 1].id@ == p {
                Some(n - 1)
            } else {
                None
            },
        }
    }
}

/// Position of the parent of sub-task `j`, if its parent is in the list.
pub open spec fn parent_index(flat: Seq<SubTask>, j: int) -> Option<int> {
    match flat[j].parent_id {
        Some(p) => first_with_id(flat, p@, flat.len() as int),
        None => None,
    }
}

/// The position reached from `j` after following `s` parent links.
pub open spec fn climb(flat: Seq<SubTask>, j: int, s: nat) -> Option<int>
    decreases s,
{
    if s == 0 {
        Some(j)
    } else {
        match climb(flat, j, (s - 1) as nat) {
            Some(a) => if 0 <= a < flat.len() {
                parent_index(flat, a)
            } else {
                None
            },
            None => None,
        }
    }
}

/// Following parent links from `j` comes back to `j`.
pub open spec fn on_cycle(flat: Seq<SubTask>, j: int) -> bool {
    exists|s: int| 1 <= s <= flat.len() && #[trigger] climb(flat, j, s as nat) == Some(j)
}

/// A sub-task stands at the top level when its parent is not in the list, or
/// when it lies on a cycle of parent links.
pub open spec fn is_top(flat: Seq<SubTask>, j: int) -> bool {
    is_root(flat, j) || on_cycle(flat, j)
}

/// Sub-task `j` nests below a sub-task with id `pid`: its parent has that id
/// and it is on no cycle.
pub open spec fn child_of(flat: Seq<SubTask>, j: int, pid: Seq<char>) -> bool {
    (flat[j].parent_id matches Some(p) && p@ == pid) && !on_cycle(flat, j)
}

pub open spec fn as_index(o: Option<usize>) -> Option<int> {
    match o {
        Some(k) => Some(k as int),
        None => None,
    }
}

/// Positions among the first `n` sub-tasks whose parent has id `pid`, in list order.
pub open spec fn children_upto(flat: Seq<SubTask>, pid: Seq<char>, n: int) -> Seq<int>
    decreases n,
{
    if n <= 0 {
        Seq::empty()
    } else {
        children_upto(flat, pid, n - 1) + if child_of(flat, n - 1, pid) {
            seq![n - 1]
        } else {
            Seq::empty()
        }
    }
}

/// Order of the top level: by `sort_order`, ties by position in the list.
pub open spec fn key_lt(flat: Seq<SubTask>, a: int, b: int) -> bool {
    flat[a].sort_order < flat[b].sort_order || (flat[a].sort_order == flat[b].sort_order && a < b)
}

/// `order` lists every top-level position once, in top-level order.
pub open spec fn root_order(flat: Seq<SubTask>, order: Seq<int>) -> bool {
    &&& forall|a: int| 0 <= a < order.len() ==> 0 <= #[trigger] order[a] < flat.len() && is_top(flat, order[a])
    &&& forall|a: int, b: int| 0 <= a < b < order.len() ==> key_lt(flat, #[trigger] order[a], #[trigger] order[b])
    &&& forall|j: int| 0 <= j < flat.len() && is_top(flat, j) ==> #[trigger] order.contains(j)
}

pub open spec fn same_fields(node: SubTask, s: SubTask) -> bool {
    &&& node.id == s.id
    &&& node.task_id == s.task_id
    &&& node.parent_id == s.parent_id
    &&& node.title == s.title
    &&& node.description == s.description
    &&& node.priority == s.priority
    &&& node.due_date == s.due_date
    &&& node.completed == s.completed
    &&& node.sort_order == s.sort_order
    &&& node.created_at == s.created_at
}

/// `node` is sub-task `i` with its descendants nested below it, `depth`
/// levels deep.
pub open spec fn is_subtree(node: SubTask, flat: Seq<SubTask>, i: int, depth: nat) -> bool
    decreases depth,
{
    &&& same_fields(node, flat[i])
    &&& node.children matches Some(cs) && if depth == 0 {
        cs@.len() == 0
    } else {
        let idx = children_upto(flat, flat[i].id@, flat.len() as int);
        &&& cs@.len() == idx.len()
        &&& forall|k: int|
            0 <= k < cs@.len() ==> is_subtree(#[trigger] cs@[k], flat, idx[k], (depth - 1) as nat)
    }
}

fn copy_text(o: &Option<String>) -> (r: Option<String>)
    ensures
        r == *o,
{
    match o {
        Some(s) => Some(s.clone()),
        None => None,
    }
}

fn build_node(flat: &Vec<SubTask>, cyc: &Vec<bool>, i: usize, depth: usize) -> (r: SubTask)
    requires
        i < flat@.len(),
        cyc@.len() == flat@.len(),
        forall|j: int| 0 <= j < flat@.len() ==> #[trigger] cyc@[j] == on_cycle(flat@, j),
    ensures
        is_subtree(r, flat@, i as int, depth as nat),
    decreases depth,
{
    let s = &flat[i];
    let mut children: Vec<SubTask> = Vec::new();
    if depth > 0 {
        let ghost pid = s.id@;
        let mut j: usize = 0;
        while j < flat.len()
            invariant
                j <= flat@.len(),
                i < flat@.len(),
                depth > 0,
                cyc@.len() == flat@.len(),
                forall|q: int| 0 <= q < flat@.len() ==> #[trigger] cyc@[q] == on_cycle(flat@, q),
                pid == flat@[i as int].id@,
                children@.len() == children_upto(flat@, pid, j as int).len(),
                forall|k: int|
                    0 <= k < children@.len() ==> is_subtree(
                        #[trigger] children@[k],
                        flat@,
                        children_upto(flat@, pid, j as int)[k],
                        (depth - 1) as nat,
                    ),
            decreases flat@.len() - j,
        {
            let is_child = match &flat[j].parent_id {
                Some(p) => *p == flat[i].id && !cyc[j],
                None => false,
            };
            proof {
                assert(is_child == child_of(flat@, j as int, pid));
            }
            if is_child {
                let c = build_node(flat, cyc, j, depth - 1);
                children.push(c);
            }
            proof {
                let before = children_upto(flat@, pid, j as int);
                let after = children_upto(flat@, pid, j as int + 1);
                if is_child {
                    assert(after =~= before + seq![j as int]);
                    assert forall|k: int| 0 <= k < children@.len() implies is_subtree(
                        #[trigger] children@[k],
                        flat@,
                        after[k],
                        (depth - 1) as nat,
                    ) by {
                        if k < before.len() {
                            assert(after[k] == before[k]);
                        }
                    }
                } else {
                    assert(after =~= before);
                }
            }
            j = j + 1;
        }
    }
    SubTask {
        id: s.id.clone(),
        task_id: s.task_id.clone(),
        parent_id: copy_text(&s.parent_id),
        title: s.title.clone(),
        description: copy_text(&s.description),
        priority: s.priority.clone(),
        due_date: copy_text(&s.due_date),
        completed: s.completed,
        sort_order: s.sort_order,
        created_at: s.created_at.clone(),
        children: Some(children),
    }
}

proof fn lemma_first_with_id_step(flat: Seq<SubTask>, p: Seq<char>, n: int)
    requires
        0 <= n,
    ensures
        first_with_id(flat, p, n + 1) == match first_with_id(flat, p, n) {
            Some(k) => Some(k),
            None => if flat[n].id@ == p {
                Some(n)
            } else {
                None
            },
        },
{
}

fn parent_position(flat: &Vec<SubTask>, j: usize) -> (r: Option<usize>)
    requires
        j < flat@.len(),
    ensures
        as_index(r) == parent_index(flat@, j as int),
        r matches Some(k) ==> k < flat@.len(),
{
    match &flat[j].parent_id {
        None => None,
        Some(p) => {
            let mut found: Option<usize> = None;
            let mut k: usize = 0;
            while k < flat.len()
                invariant
                    k <= flat@.len(),
                    as_index(found) == first_with_id(flat@, p@, k as int),
                    found matches Some(f) ==> f < k,
                decreases flat@.len() - k,
            {
                proof {
                    lemma_first_with_id_step(flat@, p@, k as int);
                }
                if found.is_none() && flat[k].id == *p {
                    found = Some(k);
                }
                k = k + 1;
            }
            found
        },
    }
}

fn is_on_cycle(flat: &Vec<SubTask>, j: usize) -> (r: bool)
    requires
        j < flat@.len(),
    ensures
        r == on_cycle(flat@, j as int),
{
    let n = flat.len();
    let mut cur: Option<usize> = Some(j);
    let mut s: usize = 0;
    while s < n
        invariant
            n == flat@.len(),
            j < n,
            s <= n,
            as_index(cur) == climb(flat@, j as int, s as nat),
            cur matches Some(c) ==> c < n,
            forall|t: int| 1 <= t <= s ==> #[trigger] climb(flat@, j as int, t as nat) != Some(j as int),
        decreases n - s,
    {
        cur = match cur {
            Some(a) => parent_position(flat, a),
            None => None,
        };
        s = s + 1;
        proof {
            assert(climb(flat@, j as int, s as nat) == as_index(cur));
        }
        if cur == Some(j) {
            proof {
                let t: int = s as int;
                assert(climb(flat@, j as int, t as nat) == Some(j as int));
                assert(on_cycle(flat@, j as int));
            }
            return true;
        }
    }
    false
}

fn has_parent_in_list(flat: &Vec<SubTask>, j: usize) -> (r: bool)
    requires
        j < flat@.len(),
    ensures
        r == !is_root(flat@, j as int),
{
    match &flat[j].parent_id {
        None => false,
        Some(p) => {
            let mut k: usize = 0;
            while k < flat.len()
                invariant
                    k <= flat@.len(),
                    j < flat@.len(),
                    flat@[j as int].parent_id == Some(*p),
                    forall|q: int| 0 <= q < k ==> (#[trigger] flat@[q]).id@ != p@,
                decreases flat@.len() - k,
            {
                if flat[k].id == *p {
                    proof {
                        assert(flat@[k as int].id@ == p@);
                        assert(names_member(flat@, p@));
                    }
                    return true;
                }
                k = k + 1;
            }
            false
        },
    }
}

/// Nest the sub-tasks of one task: every sub-task goes below the sub-task that
/// its `parent_id` names. Those whose parent is not in the list, and those on a
/// cycle of parent links, form the top level, ordered by `sort_order` (ties
/// keep list order). Children keep list order.
pub fn build_sub_task_tree(flat: Vec<SubTask>) -> (r: Vec<SubTask>)
    ensures
        exists|order: Seq<int>|
            #[trigger] root_order(flat@, order) && r@.len() == order.len() && forall|k: int|
                0 <= k < r@.len() ==> is_subtree(
                    #[trigger] r@[k],
                    flat@,
                    order[k],
                    flat@.len() as nat,
                ),
{
    let n = flat.len();
    let mut cycles: Vec<bool> = Vec::new();
    let mut c: usize = 0;
    while c < n
        invariant
            n == flat@.len(),
            c <= n,
            cycles@.len() == c,
            forall|q: int| 0 <= q < c ==> #[trigger] cycles@[q] == on_cycle(flat@, q),
        decreases n - c,
    {
        let b = is_on_cycle(&flat, c);
        cycles.push(b);
        c = c + 1;
    }
    let mut roots: Vec<usize> = Vec::new();
    let mut j: usize = 0;
    while j < n
        invariant
            n == flat@.len(),
            j <= n,
            cycles@.len() == n,
            forall|q: int| 0 <= q < n ==> #[trigger] cycles@[q] == on_cycle(flat@, q),
            forall|a: int| 0 <= a < roots@.len() ==> (#[trigger] roots@[a]) < j && is_top(flat@, roots@[a] as int),
            forall|a: int, b: int|
                0 <= a < b < roots@.len() ==> key_lt(flat@, #[trigger] roots@[a] as int, #[trigger] roots@[b] as int),
            forall|q: int| 0 <= q < j && is_top(flat@, q) ==> exists|a: int| 0 <= a < roots@.len() && #[trigger] roots@[a] == q,
        decreases n - j,
    {
        if !has_parent_in_list(&flat, j) || cycles[j] {
            let mut p: usize = 0;
            while p < roots.len() && flat[roots[p]].sort_order <= flat[j].sort_order
                invariant
                    n == flat@.len(),
                    j < n,
                    p <= roots@.len(),
                    forall|a: int| 0 <= a < roots@.len() ==> (#[trigger] roots@[a]) < j,
                    forall|a: int| 0 <= a < p ==> key_lt(flat@, #[trigger] roots@[a] as int, j as int),
                decreases roots@.len() - p,
            {
                p = p + 1;
            }
            let ghost old_roots = roots@;
            roots.insert(p, j);
            proof {
                assert(roots@ == old_roots.insert(p as int, j));
                assert forall|a: int, b: int|
                    0 <= a < b < roots@.len() implies key_lt(flat@, #[trigger] roots@[a] as int, #[trigger] roots@[b] as int) by {
                    if p < old_roots.len() && b > p as int {
                        assert(flat@[old_roots[p as int] as int].sort_order > flat@[j as int].sort_order);
                    }
                }
                assert forall|q: int| 0 <= q < j + 1 && is_top(flat@, q) implies exists|a: int| 0 <= a < roots@.len() && #[trigger] roots@[a] == q by {
                    if q == j {
                        assert(roots@[p as int] == j);
                    } else {
                        let a = choose|a: int| 0 <= a < old_roots.len() && #[trigger] old_roots[a] == q;
                        if a < p {
                            assert(roots@[a] == q);
                        } else {
                            assert(roots@[a + 1] == q);
                        }
                    }
                }
            }
        }
        j = j + 1;
    }
    let ghost order: Seq<int> = roots@.map_values(|x: usize| x as int);
    let mut out: Vec<SubTask> = Vec::new();
    let mut k: usize = 0;
    while k < roots.len()
        invariant
            n == flat@.len(),
            cycles@.len() == n,
            forall|q: int| 0 <= q < n ==> #[trigger] cycles@[q] == on_cycle(flat@, q),
            order == roots@.map_values(|x: usize| x as int),
            forall|a: int| 0 <= a < roots@.len() ==> (#[trigger] roots@[a]) < n,
            k <= roots@.len(),
            out@.len() == k,
            forall|a: int| 0 <= a < k ==> is_subtree(#[trigger] out@[a], flat@, order[a], n as nat),
        decreases roots@.len() - k,
    {
        let node = build_node(&flat, &cycles, roots[k], n);
        out.push(node);
        k = k + 1;
    }
    proof {
        assert forall|j: int| 0 <= j < flat@.len() && is_top(flat@, j) implies #[trigger] order.contains(j) by {
            let a = choose|a: int| 0 <= a < roots@.len() && #[trigger] roots@[a] == j;
            assert(order[a] == j);
        }
        assert(root_order(flat@, order));
    }
    out
}

} // verus!
