//! Running processes: the target picker, and the set that a target stands for.

use vstd::prelude::*;

use crate::netmon::source::PidFilter;
use crate::text::{copy_opt, lemma_order, opt_text, sorts_before, sorts_before_of};

verus! {

/// A process that could be watched.
#[derive(Debug)]
pub struct RunningProcess {
    pub pid: u32,
    pub name: String,
    pub exe_path: Option<String>,
}

/// The model of a [`RunningProcess`].
pub struct ProcessView {
    pub pid: u32,
    pub name: Seq<char>,
    pub exe_path: Option<Seq<char>>,
}

impl View for RunningProcess {
    type V = ProcessView;

    open spec fn view(&self) -> ProcessView {
        ProcessView { pid: self.pid, name: self.name@, exe_path: opt_text(self.exe_path) }
    }
}

/// The models of a list of processes.
pub open spec fn process_views(v: Seq<RunningProcess>) -> Seq<ProcessView> {
    v.map_values(|p: RunningProcess| p@)
}

/// `s` in lower case, as `str::to_lowercase` has it for all of Unicode.
pub uninterp spec fn lowercase(s: Seq<char>) -> Seq<char>;

/// `str::to_lowercase`, a function of the text alone.
#[verifier::external_body]
fn lowercase_of(s: &str) -> (r: String)
    ensures
        r@ == lowercase(s@),
{
    s.to_lowercase()
}

/// Where a process of key `key` goes among the first `n`: behind all whose key does not
/// sort after it.
pub open spec fn slot(list: Seq<(Seq<char>, ProcessView)>, key: Seq<char>, n: nat) -> nat
    decreases n,
{
    if n == 0 || n > list.len() || !sorts_before(key, list[n - 1].0) {
        n
    } else {
        slot(list, key, (n - 1) as nat)
    }
}

/// The processes that have a name, each with its key, ordered by key; of two with the same
/// key the earlier stays in front.
pub open spec fn ranked(procs: Seq<(Seq<char>, ProcessView)>) -> Seq<(Seq<char>, ProcessView)>
    decreases procs.len(),
{
    if procs.len() == 0 {
        Seq::empty()
    } else {
        let rest = ranked(procs.drop_last());
        if procs.last().1.name.len() == 0 {
            rest
        } else {
            rest.insert(slot(rest, procs.last().0, rest.len()) as int, procs.last())
        }
    }
}

/// Processes with their sort keys: the names in lower case.
pub open spec fn with_keys(procs: Seq<ProcessView>) -> Seq<(Seq<char>, ProcessView)> {
    procs.map_values(|p: ProcessView| (lowercase(p.name), p))
}

/// The processes of a ranked list.
pub open spec fn without_keys(list: Seq<(Seq<char>, ProcessView)>) -> Seq<ProcessView> {
    list.map_values(|e: (Seq<char>, ProcessView)| e.1)
}

/// The models of keyed processes.
pub open spec fn keyed_views(v: Seq<(String, RunningProcess)>) -> Seq<(Seq<char>, ProcessView)> {
    v.map_values(|e: (String, RunningProcess)| (e.0@, e.1@))
}

fn copy_process(p: &RunningProcess) -> (r: RunningProcess)
    ensures
        r@ == p@,
{
    RunningProcess { pid: p.pid, name: p.name.clone(), exe_path: copy_opt(&p.exe_path) }
}

/// Orders keyed processes for the target picker: those with a name, by key.
pub fn rank_processes(procs: &Vec<(String, RunningProcess)>) -> (r: Vec<(String, RunningProcess)>)
    ensures
        keyed_views(r@) == ranked(keyed_views(procs@)),
{
    let ghost all = keyed_views(procs@);
    let mut out: Vec<(String, RunningProcess)> = Vec::new();
    let mut i: usize = 0;
    assert(all.take(0) =~= Seq::empty());
    assert(keyed_views(out@) =~= Seq::empty());
    while i < procs.len()
        invariant
            i <= procs@.len(),
            all == keyed_views(procs@),
            keyed_views(out@) == ranked(all.take(i as int)),
        decreases procs.len() - i,
    {
        assert(all.take(i + 1).drop_last() =~= all.take(i as int));
        assert(all.take(i + 1).last() == (procs@[i as int].0@, procs@[i as int].1@));
        if !procs[i].1.name.as_str().is_empty() {
            let ghost list = keyed_views(out@);
            let key = procs[i].0.as_str();
            let mut k: usize = out.len();
            while k > 0 && sorts_before_of(key, out[k - 1].0.as_str())
                invariant
                    k <= out@.len(),
                    list == keyed_views(out@),
                    slot(list, key@, list.len()) == slot(list, key@, k as nat),
                decreases k,
            {
                assert(list[k - 1].0 == out@[k - 1].0@);
                k = k - 1;
            }
            assert(k > 0 ==> list[k - 1].0 == out@[k - 1].0@);
            assert(slot(list, key@, list.len()) == k);
            let entry = (procs[i].0.clone(), copy_process(&procs[i].1));
            out.insert(k, entry);
            assert(keyed_views(out@) =~= list.insert(k as int, (entry.0@, entry.1@)));
        }
        i = i + 1;
    }
    assert(all.take(all.len() as int) =~= all);
    out
}

/// Orders running processes for the target picker: those with a resolvable name, by name
/// without regard to case.
pub fn list_processes(procs: &Vec<RunningProcess>) -> (r: Vec<RunningProcess>)
    ensures
        process_views(r@) == without_keys(ranked(with_keys(process_views(procs@)))),
{
    let mut pairs: Vec<(String, RunningProcess)> = Vec::new();
    let ghost all = with_keys(process_views(procs@));
    let mut i: usize = 0;
    assert(keyed_views(pairs@) =~= all.take(0));
    while i < procs.len()
        invariant
            i <= procs@.len(),
            all == with_keys(process_views(procs@)),
            keyed_views(pairs@) == all.take(i as int),
        decreases procs.len() - i,
    {
        let ghost before = keyed_views(pairs@);
        let pair = (lowercase_of(procs[i].name.as_str()), copy_process(&procs[i]));
        pairs.push(pair);
        assert(all[i as int] == (lowercase(procs@[i as int].name@), procs@[i as int]@));
        assert(keyed_views(pairs@) =~= before.push((pair.0@, pair.1@)));
        assert(keyed_views(pairs@) =~= all.take(i + 1));
        i = i + 1;
    }
    assert(all.take(all.len() as int) =~= all);
    let ordered = rank_processes(&pairs);
    let ghost list = keyed_views(ordered@);
    let mut out: Vec<RunningProcess> = Vec::new();
    let mut k: usize = 0;
    assert(process_views(out@) =~= without_keys(list).take(0));
    while k < ordered.len()
        invariant
            k <= ordered@.len(),
            list == keyed_views(ordered@),
            process_views(out@) == without_keys(list).take(k as int),
        decreases ordered.len() - k,
    {
        let ghost before = process_views(out@);
        let p = copy_process(&ordered[k].1);
        out.push(p);
        assert(list[k as int] == (ordered@[k as int].0@, ordered@[k as int].1@));
        assert(process_views(out@) =~= before.push(p@));
        assert(process_views(out@) =~= without_keys(list).take(k + 1));
        k = k + 1;
    }
    assert(without_keys(list).take(list.len() as int) =~= without_keys(list));
    out
}

/// Whether a list is ordered by key.
pub open spec fn in_order(list: Seq<(Seq<char>, ProcessView)>) -> bool {
    forall|i: int, j: int|
        0 <= i < j < list.len() ==> !sorts_before((#[trigger] list[j]).0, (#[trigger] list[i]).0)
}

proof fn lemma_slot(list: Seq<(Seq<char>, ProcessView)>, key: Seq<char>, n: nat)
    requires
        n <= list.len(),
        in_order(list),
    ensures
        slot(list, key, n) <= n,
        forall|i: int| 0 <= i < slot(list, key, n) ==> !sorts_before(key, (#[trigger] list[i]).0),
        forall|i: int| slot(list, key, n) <= i < n ==> sorts_before(key, (#[trigger] list[i]).0),
    decreases n,
{
    if n > 0 {
        if !sorts_before(key, list[n - 1].0) {
            assert forall|i: int| 0 <= i < n implies !sorts_before(key, (#[trigger] list[i]).0) by {
                if i < n - 1 && sorts_before(key, list[i].0) {
                    lemma_order(list[i].0, list[n - 1].0, key);
                    lemma_order(key, list[i].0, list[n - 1].0);
                }
            }
        } else {
            lemma_slot(list, key, (n - 1) as nat);
        }
    }
}

/// The picker's list is ordered, holds only processes with a name, and every one of them as
/// often as it was given.
pub proof fn lemma_ranked(procs: Seq<(Seq<char>, ProcessView)>)
    ensures
        in_order(ranked(procs)),
        ranked(procs).to_multiset() == procs.filter(
            |e: (Seq<char>, ProcessView)| e.1.name.len() > 0,
        ).to_multiset(),
    decreases procs.len(),
{
    broadcast use vstd::seq_lib::group_to_multiset_ensures;

    let named = |e: (Seq<char>, ProcessView)| e.1.name.len() > 0;
    reveal(Seq::filter);
    if procs.len() > 0 {
        let rest = ranked(procs.drop_last());
        let last = procs.last();
        lemma_ranked(procs.drop_last());
        if named(last) {
            lemma_slot(rest, last.0, rest.len());
            let k = slot(rest, last.0, rest.len()) as int;
            let out = rest.insert(k, last);
            assert forall|i: int, j: int| 0 <= i < j < out.len() implies !sorts_before(
                (#[trigger] out[j]).0,
                (#[trigger] out[i]).0,
            ) by {
                let a = if i < k {
                    i
                } else {
                    i - 1
                };
                let b = if j < k {
                    j
                } else {
                    j - 1
                };
                if i == k {
                    lemma_order(out[j].0, last.0, last.0);
                } else if j != k {
                    assert(out[i] == rest[a] && out[j] == rest[b]);
                }
            }
            vstd::seq_lib::to_multiset_insert(rest, k, last);
        }
    }
}

/// Whether `p` descends from `root` by `k` steps from parent to child.
pub open spec fn descends(procs: Seq<(u32, Option<u32>)>, root: u32, p: u32, k: nat) -> bool
    decreases k,
{
    if k == 0 {
        p == root
    } else {
        exists|i: int|
            0 <= i < procs.len() && (#[trigger] procs[i]).0 == p && procs[i].1 is Some && descends(
                procs,
                root,
                procs[i].1->0,
                (k - 1) as nat,
            )
    }
}

/// Whether `p` is `root` or descends from it.
pub open spec fn in_family(procs: Seq<(u32, Option<u32>)>, root: u32, p: u32) -> bool {
    exists|k: nat| #[trigger] descends(procs, root, p, k)
}

/// Whether a filter takes in the process `p`.
pub open spec fn takes(filter: PidFilter, procs: Seq<(u32, Option<u32>)>, p: u32) -> bool {
    if filter.include_children {
        in_family(procs, filter.root_pid, p)
    } else {
        p == filter.root_pid
    }
}

fn has_pid(pids: &Vec<u32>, p: u32) -> (r: bool)
    ensures
        r == pids@.contains(p),
{
    let mut i: usize = 0;
    while i < pids.len()
        invariant
            i <= pids@.len(),
            forall|k: int| 0 <= k < i ==> pids@[k] != p,
        decreases pids.len() - i,
    {
        if pids[i] == p {
            assert(pids@[i as int] == p);
            return true;
        }
        i = i + 1;
    }
    false
}

/// How many of the marks are not set.
spec fn unset(marks: Seq<bool>) -> nat
    decreases marks.len(),
{
    if marks.len() == 0 {
        0
    } else {
        unset(marks.drop_last()) + if marks.last() {
            0nat
        } else {
            1
        }
    }
}

proof fn lemma_unset(marks: Seq<bool>, i: int)
    requires
        0 <= i < marks.len(),
        !marks[i],
    ensures
        unset(marks.update(i, true)) + 1 == unset(marks),
    decreases marks.len(),
{
    if i == marks.len() - 1 {
        assert(marks.update(i, true).drop_last() =~= marks.drop_last());
    } else {
        assert(marks.update(i, true).drop_last() =~= marks.drop_last().update(i, true));
        lemma_unset(marks.drop_last(), i);
    }
}

proof fn lemma_family_step(procs: Seq<(u32, Option<u32>)>, root: u32, i: int)
    requires
        0 <= i < procs.len(),
        procs[i].1 is Some,
        in_family(procs, root, procs[i].1->0),
    ensures
        in_family(procs, root, procs[i].0),
{
    let k = choose|k: nat| #[trigger] descends(procs, root, procs[i].1->0, k);
    assert(descends(procs, root, procs[i].0, k + 1));
}

/// A set that holds the root and every child of its members holds every descendant.
proof fn lemma_closed_holds_family(
    procs: Seq<(u32, Option<u32>)>,
    root: u32,
    pids: Seq<u32>,
    p: u32,
    k: nat,
)
    requires
        pids.contains(root),
        forall|i: int|
            0 <= i < procs.len() && (#[trigger] procs[i]).1 is Some && pids.contains(
                procs[i].1->0,
            ) ==> pids.contains(procs[i].0),
        descends(procs, root, p, k),
    ensures
        pids.contains(p),
    decreases k,
{
    if k > 0 {
        let i = choose|i: int|
            0 <= i < procs.len() && (#[trigger] procs[i]).0 == p && procs[i].1 is Some && descends(
                procs,
                root,
                procs[i].1->0,
                (k - 1) as nat,
            );
        lemma_closed_holds_family(procs, root, pids, procs[i].1->0, (k - 1) as nat);
    }
}

/// Resolve the PID set to capture: the root PID plus, if requested, all of its
/// descendants (so helper/renderer child processes are covered). `procs` lists the
/// running processes, each with its parent.
pub fn collect_pids(filter: PidFilter, procs: &Vec<(u32, Option<u32>)>) -> (r: Vec<u32>)
    ensures
        forall|p: u32| #[trigger] r@.contains(p) <==> takes(filter, procs@, p),
        r@.no_duplicates(),
{
    let root = filter.root_pid;
    let mut pids: Vec<u32> = Vec::new();
    pids.push(root);
    proof {
        assert(pids@[0] == root);
        assert(descends(procs@, root, root, 0));
    }
    if !filter.include_children {
        return pids;
    }
    let mut marks: Vec<bool> = Vec::new();
    while marks.len() < procs.len()
        invariant
            marks@.len() <= procs@.len(),
            forall|k: int| 0 <= k < marks@.len() ==> !marks@[k],
        decreases procs.len() - marks.len(),
    {
        marks.push(false);
    }
    // Repeatedly absorb any process whose parent is already in the set.
    loop
        invariant
            filter.include_children,
            root == filter.root_pid,
            marks@.len() == procs@.len(),
            pids@.no_duplicates(),
            pids@.contains(root),
            forall|p: u32| #[trigger] pids@.contains(p) ==> in_family(procs@, root, p),
            forall|k: int|
                0 <= k < marks@.len() && #[trigger] marks@[k] ==> pids@.contains(procs@[k].0),
        decreases unset(marks@),
    {
        let ghost start = pids@;
        let ghost at_start = unset(marks@);
        let mut added = false;
        let mut i: usize = 0;
        while i < procs.len()
            invariant
                i <= procs@.len(),
                root == filter.root_pid,
                marks@.len() == procs@.len(),
                pids@.no_duplicates(),
                pids@.contains(root),
                forall|p: u32| #[trigger] pids@.contains(p) ==> in_family(procs@, root, p),
                forall|k: int|
                    0 <= k < marks@.len() && #[trigger] marks@[k] ==> pids@.contains(procs@[k].0),
                added ==> unset(marks@) < at_start,
                !added ==> pids@ == start && unset(marks@) == at_start && forall|k: int|
                    0 <= k < i && (#[trigger] procs@[k]).1 is Some && pids@.contains(procs@[k].1->0)
                        ==> pids@.contains(procs@[k].0),
            decreases procs.len() - i,
        {
            let (child, parent) = procs[i];
            if !has_pid(&pids, child) {
                match parent {
                    Some(parent) => {
                        if has_pid(&pids, parent) {
                            let ghost before = pids@;
                            assert(procs@[i as int] == (child, Some(parent)));
                            proof {
                                lemma_family_step(procs@, root, i as int);
                                lemma_unset(marks@, i as int);
                            }
                            pids.push(child);
                            marks.set(i, true);
                            proof {
                                assert(pids@[before.len() as int] == child);
                                assert forall|p: u32| before.contains(p) implies #[trigger] pids@.contains(
                                    p,
                                ) by {
                                    let k = choose|k: int| 0 <= k < before.len() && before[k] == p;
                                    assert(pids@[k] == p);
                                }
                                assert forall|p: u32| #[trigger] pids@.contains(
                                    p,
                                ) implies in_family(procs@, root, p) by {
                                    if p != child {
                                        let k = choose|k: int|
                                            0 <= k < pids@.len() && pids@[k] == p;
                                        assert(before[k] == p);
                                        assert(before.contains(p));
                                    }
                                }
                            }
                            added = true;
                        }
                    },
                    None => {},
                }
            }
            i = i + 1;
        }
        if !added {
            proof {
                assert forall|p: u32| #[trigger] pids@.contains(p) <==> takes(
                    filter,
                    procs@,
                    p,
                ) by {
                    if in_family(procs@, root, p) {
                        let k = choose|k: nat| #[trigger] descends(procs@, root, p, k);
                        lemma_closed_holds_family(procs@, root, pids@, p, k);
                    }
                }
            }
            return pids;
        }
    }
}

/// A filter that takes in children takes in what one that does not takes in, and the
/// children of all that it takes in.
pub proof fn lemma_family(
    root: u32,
    procs: Seq<(u32, Option<u32>)>,
    i: int,
)
    requires
        0 <= i < procs.len(),
        procs[i].1 is Some,
        takes(PidFilter { root_pid: root, include_children: true }, procs, procs[i].1->0),
    ensures
        takes(PidFilter { root_pid: root, include_children: true }, procs, root),
        takes(PidFilter { root_pid: root, include_children: true }, procs, procs[i].0),
{
    assert(descends(procs, root, root, 0));
    lemma_family_step(procs, root, i);
}

} // verus!
