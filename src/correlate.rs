//! Correlation of socket inodes with the processes whose descriptors refer to them.

use vstd::prelude::*;
use crate::num::{parse_spec, parse_unsigned};
use crate::text::{has_prefix, starts_with, to_chars};

verus! {

/// One open descriptor of a process: the owning pid and the descriptor's link target.
pub struct FdLink {
    pub pid: i32,
    pub target: String,
}

/// The processes that hold descriptors to one socket inode.
pub struct InodeOwners {
    pub inode: u64,
    pub pids: Vec<i32>,
}

/// Socket inode to owning pids, built once per snapshot.
pub struct CorrelationMap {
    pub entries: Vec<InodeOwners>,
}

/// The inode named by a descriptor target of the form `socket:[<decimal>]`.
pub open spec fn socket_inode_spec(t: Seq<char>) -> Option<nat> {
    let p = "socket:["@;
    if has_prefix(t, p) && t.len() >= p.len() + 1 && t.last() == ']' {
        parse_spec(t.subrange(p.len() as int, t.len() - 1), 10, u64::MAX as nat)
    } else {
        None
    }
}

/// Whether descriptor `k` of `links` refers to socket `inode`.
pub open spec fn refers(links: Seq<FdLink>, k: int, inode: u64) -> bool {
    socket_inode_spec(links[k].target@) == Some(inode as nat)
}

/// Some descriptor of `links` refers to socket `inode`.
pub open spec fn referenced(links: Seq<FdLink>, inode: u64) -> bool {
    exists|k: int| 0 <= k < links.len() && #[trigger] refers(links, k, inode)
}

/// Process `pid` holds a descriptor of `links` that refers to socket `inode`.
pub open spec fn holds(links: Seq<FdLink>, pid: i32, inode: u64) -> bool {
    exists|k: int| 0 <= k < links.len() && links[k].pid == pid && #[trigger] refers(links, k, inode)
}

impl CorrelationMap {
    /// Each inode has one entry, and no pid is listed twice for it.
    pub open spec fn wf(&self) -> bool {
        &&& forall|a: int, b: int|
            0 <= a < b < self.entries@.len() ==> self.entries@[a].inode != self.entries@[b].inode
        &&& forall|j: int, a: int, b: int|
            0 <= j < self.entries@.len() && 0 <= a < b < self.entries@[j].pids@.len()
                ==> self.entries@[j].pids@[a] != self.entries@[j].pids@[b]
    }

    /// Whether the map has an entry for `inode`.
    pub open spec fn has(&self, inode: u64) -> bool {
        exists|j: int| 0 <= j < self.entries@.len() && #[trigger] self.entries@[j].inode == inode
    }

    /// The owners recorded for `inode`, or none.
    pub open spec fn owners(&self, inode: u64) -> Seq<i32> {
        if self.has(inode) {
            let j = choose|j: int| 0 <= j < self.entries@.len() && #[trigger] self.entries@[j].inode == inode;
            self.entries@[j].pids@
        } else {
            Seq::empty()
        }
    }

    /// The map holds exactly the associations that `links` make.
    pub open spec fn built_from(&self, links: Seq<FdLink>) -> bool {
        &&& self.wf()
        &&& forall|inode: u64| #[trigger] self.has(inode) <==> referenced(links, inode)
        &&& forall|inode: u64, pid: i32| #[trigger] self.owners(inode).contains(pid) <==> holds(links, pid, inode)
    }

    /// The owners recorded for `inode`, in the order they were first seen.
    pub fn owners_of(&self, inode: u64) -> (r: Vec<i32>)
        requires
            self.wf(),
        ensures
            r@ == self.owners(inode),
    {
        for j in 0..self.entries.len()
            invariant
                self.wf(),
                forall|k: int| 0 <= k < j ==> self.entries@[k].inode != inode,
        {
            if self.entries[j].inode == inode {
                proof {
                    let c = choose|c: int| 0 <= c < self.entries@.len() && #[trigger] self.entries@[c].inode == inode;
                    assert(c == j as int);
                }
                return self.entries[j].pids.clone();
            }
        }
        Vec::new()
    }
}

/// The inode named by a descriptor target of the form `socket:[<decimal>]`.
pub fn socket_inode(target: &str) -> (r: Option<u64>)
    ensures
        match socket_inode_spec(target@) {
            Some(v) => r == Some(v as u64),
            None => r is None,
        },
{
    let t = to_chars(target);
    let p = "socket:[";
    let pc = to_chars(p);
    if !starts_with(&t, p) || t.len() <= pc.len() || t[t.len() - 1] != ']' {
        return None;
    }
    let mut inner: Vec<char> = Vec::new();
    let mut i: usize = pc.len();
    while i < t.len() - 1
        invariant
            pc@ == p@,
            pc@.len() + 1 <= t@.len(),
            pc@.len() <= i <= t@.len() - 1,
            inner@ == t@.subrange(pc@.len() as int, i as int),
        decreases t.len() - i,
    {
        inner.push(t[i]);
        assert(inner@ =~= t@.subrange(pc@.len() as int, i + 1));
        i = i + 1;
    }
    parse_unsigned(&inner, 10, u64::MAX)
}

proof fn lemma_extend(links: Seq<FdLink>, i: int)
    requires
        0 <= i < links.len(),
    ensures
        forall|x: u64| #[trigger] referenced(links.subrange(0, i + 1), x) <==> (referenced(links.subrange(0, i), x)
            || refers(links, i, x)),
        forall|p: i32, x: u64| #[trigger] holds(links.subrange(0, i + 1), p, x) <==> (holds(links.subrange(0, i), p, x)
            || (links[i].pid == p && refers(links, i, x))),
{
    let before = links.subrange(0, i);
    let after = links.subrange(0, i + 1);
    assert forall|x: u64| #[trigger] referenced(after, x) <==> (referenced(before, x) || refers(links, i, x)) by {
        if referenced(after, x) {
            let k = choose|k: int| 0 <= k < after.len() && #[trigger] refers(after, k, x);
            if k < i {
                assert(refers(before, k, x));
            }
        }
        if referenced(before, x) {
            let k = choose|k: int| 0 <= k < before.len() && #[trigger] refers(before, k, x);
            assert(refers(after, k, x));
        }
        if refers(links, i, x) {
            assert(refers(after, i, x));
        }
    }
    assert forall|p: i32, x: u64| #[trigger] holds(after, p, x) <==> (holds(before, p, x) || (links[i].pid == p
        && refers(links, i, x))) by {
        if holds(after, p, x) {
            let k = choose|k: int| 0 <= k < after.len() && after[k].pid == p && #[trigger] refers(after, k, x);
            if k < i {
                assert(refers(before, k, x));
            }
        }
        if holds(before, p, x) {
            let k = choose|k: int| 0 <= k < before.len() && before[k].pid == p && #[trigger] refers(before, k, x);
            assert(refers(after, k, x));
        }
        if links[i].pid == p && refers(links, i, x) {
            assert(refers(after, i, x));
        }
    }
}

/// Builds the inode-to-pids map from every process's descriptor links.
pub fn build_inode_to_pids_map(links: &Vec<FdLink>) -> (r: CorrelationMap)
    ensures
        r.built_from(links@),
{
    let mut m = CorrelationMap { entries: Vec::new() };
    for i in 0..links.len()
        invariant
            m.wf(),
            forall|inode: u64| #[trigger] m.has(inode) <==> referenced(links@.subrange(0, i as int), inode),
            forall|j: int, pid: i32| 0 <= j < m.entries@.len() ==> (#[trigger] m.entries@[j].pids@.contains(pid)
                <==> holds(links@.subrange(0, i as int), pid, m.entries@[j].inode)),
    {
        let pid = links[i].pid;
        proof {
            lemma_extend(links@, i as int);
        }
        match socket_inode(links[i].target.as_str()) {
            None => {
                assert forall|j: int, p: i32| 0 <= j < m.entries@.len() implies (#[trigger] m.entries@[j].pids@.contains(p)
                    <==> holds(links@.subrange(0, i + 1), p, m.entries@[j].inode)) by {
                    assert(holds(links@.subrange(0, i + 1), p, m.entries@[j].inode) <==> holds(links@.subrange(0, i as int), p, m.entries@[j].inode));
                }
            },
            Some(inode) => {
                assert(forall|x: u64| refers(links@, i as int, x) <==> x == inode);
                let ghost mm = m;
                let mut found: usize = m.entries.len();
                for j in 0..m.entries.len()
                    invariant
                        found == m.entries@.len() || (found < j && m.entries@[found as int].inode == inode),
                        found == m.entries@.len() ==> forall|k: int| 0 <= k < j ==> m.entries@[k].inode != inode,
                {
                    if found == m.entries.len() && m.entries[j].inode == inode {
                        found = j;
                    }
                }
                let ghost m0 = m.entries@;
                if found < m.entries.len() {
                    let mut present = false;
                    let n = m.entries[found].pids.len();
                    for q in 0..n
                        invariant
                            found < m.entries@.len(),
                            n == m.entries@[found as int].pids@.len(),
                            present <==> exists|k: int| 0 <= k < q && m.entries@[found as int].pids@[k] == pid,
                    {
                        if m.entries[found].pids[q] == pid {
                            present = true;
                        }
                    }
                    if !present {
                        m.entries[found].pids.push(pid);
                    }
                    assert(m.entries@.len() == m0.len());
                    assert forall|j: int| 0 <= j < m0.len() implies #[trigger] m.entries@[j].inode == m0[j].inode
                        && (j != found ==> m.entries@[j].pids@ == m0[j].pids@) by {}
                    assert forall|p: i32| #[trigger] m.entries@[found as int].pids@.contains(p) <==> (m0[found as int].pids@.contains(p) || p == pid) by {
                        if !present {
                            assert(m.entries@[found as int].pids@ == m0[found as int].pids@.push(pid));
                            if m0[found as int].pids@.contains(p) {
                                let k = choose|k: int| 0 <= k < m0[found as int].pids@.len() && m0[found as int].pids@[k] == p;
                                assert(m.entries@[found as int].pids@[k] == p);
                            }
                            if p == pid {
                                assert(m.entries@[found as int].pids@[m0[found as int].pids@.len() as int] == p);
                            }
                        } else {
                            if p == pid {
                                let k = choose|k: int| 0 <= k < m0[found as int].pids@.len() && m0[found as int].pids@[k] == pid;
                            }
                        }
                    }
                    assert forall|j: int, p: i32| 0 <= j < m.entries@.len() implies (#[trigger] m.entries@[j].pids@.contains(p)
                        <==> holds(links@.subrange(0, i + 1), p, m.entries@[j].inode)) by {
                        let x = m.entries@[j].inode;
                        assert(holds(links@.subrange(0, i + 1), p, x) <==> (holds(links@.subrange(0, i as int), p, x) || (p == pid && x == inode)));
                        if j < m0.len() {
                            assert(mm.entries@[j].pids@.contains(p) <==> holds(links@.subrange(0, i as int), p, x));
                        }
                    }
                    assert forall|x: u64| #[trigger] m.has(x) <==> referenced(links@.subrange(0, i + 1), x) by {
                        if m.has(x) {
                            let j = choose|j: int| 0 <= j < m.entries@.len() && #[trigger] m.entries@[j].inode == x;
                            assert(mm.entries@[j].inode == x);
                            assert(mm.has(x));
                        }
                        if mm.has(x) {
                            let j = choose|j: int| 0 <= j < mm.entries@.len() && #[trigger] mm.entries@[j].inode == x;
                            assert(m.entries@[j].inode == x);
                        }
                        if x == inode {
                            assert(m.entries@[found as int].inode == x);
                        }
                    }
                } else {
                    let mut pids: Vec<i32> = Vec::new();
                    pids.push(pid);
                    m.entries.push(InodeOwners { inode, pids });
                    proof {
                        if mm.has(inode) {
                            let j = choose|j: int| 0 <= j < mm.entries@.len() && #[trigger] mm.entries@[j].inode == inode;
                        }
                    }
                    assert(!referenced(links@.subrange(0, i as int), inode));
                    assert forall|j: int| 0 <= j < m0.len() implies #[trigger] m.entries@[j].inode == m0[j].inode
                        && m.entries@[j].pids@ == m0[j].pids@ by {}
                    assert(m.entries@[m0.len() as int].pids@ =~= seq![pid]);
                    assert forall|j: int, p: i32| 0 <= j < m.entries@.len() implies (#[trigger] m.entries@[j].pids@.contains(p)
                        <==> holds(links@.subrange(0, i + 1), p, m.entries@[j].inode)) by {
                        let x = m.entries@[j].inode;
                        assert(holds(links@.subrange(0, i + 1), p, x) <==> (holds(links@.subrange(0, i as int), p, x) || (p == pid && x == inode)));
                        if holds(links@.subrange(0, i as int), p, x) {
                            let k = choose|k: int| 0 <= k < i && links@.subrange(0, i as int)[k].pid == p
                                && #[trigger] refers(links@.subrange(0, i as int), k, x);
                            assert(referenced(links@.subrange(0, i as int), x));
                        }
                        if j == m0.len() && p == pid {
                            assert(m.entries@[j].pids@[0] == p);
                        }
                        if j < m0.len() {
                            assert(mm.entries@[j].pids@.contains(p) <==> holds(links@.subrange(0, i as int), p, x));
                        }
                    }
                    assert forall|x: u64| #[trigger] m.has(x) <==> referenced(links@.subrange(0, i + 1), x) by {
                        if m.has(x) {
                            let j = choose|j: int| 0 <= j < m.entries@.len() && #[trigger] m.entries@[j].inode == x;
                            if j < m0.len() {
                                assert(mm.entries@[j].inode == x);
                                assert(mm.has(x));
                            }
                        }
                        if mm.has(x) {
                            let j = choose|j: int| 0 <= j < mm.entries@.len() && #[trigger] mm.entries@[j].inode == x;
                            assert(m.entries@[j].inode == x);
                        }
                        if x == inode {
                            assert(m.entries@[m0.len() as int].inode == x);
                        }
                    }
                }
            },
        }
    }
    assert(links@.subrange(0, links@.len() as int) =~= links@);
    assert forall|inode: u64, pid: i32| #[trigger] m.owners(inode).contains(pid) <==> holds(links@, pid, inode) by {
        if m.has(inode) {
            let j = choose|j: int| 0 <= j < m.entries@.len() && #[trigger] m.entries@[j].inode == inode;
            assert(m.entries@[j].pids@.contains(pid) <==> holds(links@, pid, inode));
        } else if holds(links@, pid, inode) {
            let k = choose|k: int| 0 <= k < links@.len() && links@[k].pid == pid && #[trigger] refers(links@, k, inode);
            assert(referenced(links@, inode));
        }
    }
    m
}

/// Only inodes that some descriptor refers to have owners, and every process
/// whose descriptor refers to an inode is among its owners (fork-shared
/// sockets list each holder).
pub proof fn lemma_owners_exact(links: Seq<FdLink>, m: CorrelationMap, inode: u64, p1: i32, p2: i32)
    requires
        m.built_from(links),
    ensures
        !referenced(links, inode) ==> !m.has(inode) && m.owners(inode).len() == 0,
        holds(links, p1, inode) && holds(links, p2, inode) ==> m.owners(inode).contains(p1)
            && m.owners(inode).contains(p2),
{
    assert(m.has(inode) <==> referenced(links, inode));
    assert(m.owners(inode).contains(p1) <==> holds(links, p1, inode));
    assert(m.owners(inode).contains(p2) <==> holds(links, p2, inode));
}

} // verus!
