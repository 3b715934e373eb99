//! Process-family contracts: what `always_comb`, `always_latch` and
//! `always_ff` processes may contain, checked before any process is
//! lowered.

use vstd::prelude::*;
use vstd::string::StringExecFns;
use crate::codegen::{Codegen, node_ok};
use crate::design::{NodeKind, StmtKind, AlwaysKind, JoinKind, BuiltinCall};
use crate::text::{owned, decimal_string, decimal};
use crate::processes::process_kind_text;

verus! {

/// The timing and assignment constructs a process body reaches, in scan
/// order.
pub struct ProcessContractScan {
    pub event_controls: Vec<usize>,
    pub blocking_timing_controls: Vec<usize>,
    pub fork_controls: Vec<usize>,
    pub event_triggers: Vec<usize>,
    pub disallowed_assignments: Vec<usize>,
}

/// The abstract state of a scan: the five lists and which subroutines have
/// been entered.
pub struct ScanState {
    pub ev: Seq<usize>,
    pub bt: Seq<usize>,
    pub fk: Seq<usize>,
    pub tr: Seq<usize>,
    pub da: Seq<usize>,
    pub visited: Seq<bool>,
}

/// Subroutines not yet entered.
pub open spec fn unvisited(v: Seq<bool>) -> nat
    decreases v.len(),
{
    if v.len() == 0 {
        0
    } else {
        unvisited(v.drop_last()) + if v.last() { 0nat } else { 1nat }
    }
}

pub proof fn lemma_unvisited_mark(v: Seq<bool>, i: int)
    requires
        0 <= i < v.len(),
        !v[i],
    ensures
        unvisited(v.update(i, true)) + 1 == unvisited(v),
    decreases v.len(),
{
    if i < v.len() - 1 {
        assert(v.update(i, true).drop_last() =~= v.drop_last().update(i, true));
        lemma_unvisited_mark(v.drop_last(), i);
    } else {
        assert(v.update(i, true).drop_last() =~= v.drop_last());
    }
}

/// Entered subroutines stay entered.
pub open spec fn grows(a: Seq<bool>, b: Seq<bool>) -> bool {
    a.len() == b.len() && forall|i: int| 0 <= i < a.len() && #[trigger] a[i] ==> b[i]
}

pub proof fn lemma_grows_unvisited(a: Seq<bool>, b: Seq<bool>)
    requires
        grows(a, b),
    ensures
        unvisited(b) <= unvisited(a),
    decreases a.len(),
{
    if a.len() > 0 {
        assert(a[a.len() - 1] == a.last());
        lemma_grows_unvisited(a.drop_last(), b.drop_last());
    }
}

pub open spec fn scan_view(s: ProcessContractScan, visited: Seq<bool>) -> ScanState {
    ScanState {
        ev: s.event_controls@,
        bt: s.blocking_timing_controls@,
        fk: s.fork_controls@,
        tr: s.event_triggers@,
        da: s.disallowed_assignments@,
        visited,
    }
}

impl Codegen {
    /// The scan state after recording node `node` itself.
    pub open spec fn record_spec(&self, node: int, st: ScanState) -> ScanState {
        let n = node as usize;
        match self.kind(node) {
            NodeKind::Stmt(StmtKind::EventControl) => ScanState { ev: st.ev.push(n), ..st },
            NodeKind::Stmt(StmtKind::DelayControl) | NodeKind::Stmt(StmtKind::CycleDelayControl)
            | NodeKind::Stmt(StmtKind::Wait) | NodeKind::Stmt(StmtKind::WaitOrder)
            | NodeKind::Stmt(StmtKind::WaitFork) => ScanState { bt: st.bt.push(n), ..st },
            NodeKind::Stmt(StmtKind::Assign { blocking, delayed }) => if blocking && delayed {
                ScanState { bt: st.bt.push(n), ..st }
            } else {
                st
            },
            NodeKind::Stmt(StmtKind::Fork { join_kind }) => if join_kind != JoinKind::Detached {
                ScanState { fk: st.fk.push(n), bt: st.bt.push(n), ..st }
            } else {
                ScanState { fk: st.fk.push(n), ..st }
            },
            NodeKind::Stmt(StmtKind::ProcContAssign) | NodeKind::Stmt(StmtKind::Force)
            | NodeKind::Stmt(StmtKind::Release) | NodeKind::Stmt(StmtKind::Deassign) =>
                ScanState { da: st.da.push(n), ..st },
            NodeKind::Stmt(StmtKind::EventTrigger) => ScanState { tr: st.tr.push(n), ..st },
            _ => st,
        }
    }

    /// The message for a call that names no subroutine.
    pub open spec fn unresolved_call(&self, node: int) -> Seq<char> {
        "call `"@ + self.nodes@[node].name@ + "` does not resolve to a subroutine"@
    }

    /// The scan of node `node` from state `st`: its own construct, the body
    /// of a subroutine it calls for the first time, then its children. A
    /// call of `process::self()` contributes nothing; a semaphore or mailbox
    /// constructor contributes its arguments only. The error is the message
    /// for the first call that does not resolve.
    pub open spec fn scan_spec(&self, node: int, st: ScanState) -> Result<ScanState, Seq<char>>
        decreases unvisited(st.visited), self.len() - node, self.nodes@[node].children.len() + 1,
    {
        if !(0 <= node < self.len()) || st.visited.len() != self.len() {
            Err(Seq::empty())
        } else {
            match self.kind(node) {
                NodeKind::FuncCall { builtin: BuiltinCall::ProcessSelf, .. } => Ok(st),
                NodeKind::FuncCall { builtin: BuiltinCall::SemaphoreNew, .. }
                | NodeKind::FuncCall { builtin: BuiltinCall::MailboxNew, .. } =>
                    self.scan_children(node, 0, st),
                NodeKind::FuncCall { callee, .. } => match callee {
                    Some(ft) => if ft >= self.len() {
                        Err(self.unresolved_call(node))
                    } else if st.visited[ft as int] {
                        self.scan_children(node, 0, st)
                    } else {
                        let marked = ScanState { visited: st.visited.update(ft as int, true), ..st };
                        proof { lemma_unvisited_mark(st.visited, ft as int); }
                        match self.nodes@[ft as int].body {
                            Some(b) => match self.scan_spec(b as int, marked) {
                                Ok(after) => if grows(marked.visited, after.visited) {
                                    proof { lemma_grows_unvisited(marked.visited, after.visited); }
                                    self.scan_children(node, 0, after)
                                } else {
                                    Err(Seq::empty())
                                },
                                Err(e) => Err(e),
                            },
                            None => self.scan_children(node, 0, marked),
                        }
                    },
                    None => Err(self.unresolved_call(node)),
                },
                _ => self.scan_children(node, 0, self.record_spec(node, st)),
            }
        }
    }

    /// The scan of the children of `node` from position `k` on.
    pub open spec fn scan_children(&self, node: int, k: int, st: ScanState) -> Result<ScanState, Seq<char>>
        decreases unvisited(st.visited), self.len() - node, self.nodes@[node].children.len() - k,
    {
        let children = self.nodes@[node].children@;
        if !(0 <= node < self.len()) || k < 0 || k >= children.len() {
            Ok(st)
        } else {
            let c = children[k];
            if !(node < c < self.len()) {
                Err(Seq::empty())
            } else {
                match self.scan_spec(c as int, st) {
                    Ok(after) => if grows(st.visited, after.visited) {
                        proof { lemma_grows_unvisited(st.visited, after.visited); }
                        self.scan_children(node, k + 1, after)
                    } else {
                        Err(Seq::empty())
                    },
                    Err(e) => Err(e),
                }
            }
        }
    }
}

impl Codegen {
    fn record_construct(&self, node: usize, scan: &mut ProcessContractScan, Ghost(visited): Ghost<Seq<bool>>)
        requires
            node < self.nodes.len(),
        ensures
            scan_view(*final(scan), visited) == self.record_spec(node as int, scan_view(*old(scan), visited)),
    {
        match &self.nodes[node].kind {
            NodeKind::Stmt(StmtKind::EventControl) => scan.event_controls.push(node),
            NodeKind::Stmt(StmtKind::DelayControl) | NodeKind::Stmt(StmtKind::CycleDelayControl)
            | NodeKind::Stmt(StmtKind::Wait) | NodeKind::Stmt(StmtKind::WaitOrder)
            | NodeKind::Stmt(StmtKind::WaitFork) => scan.blocking_timing_controls.push(node),
            NodeKind::Stmt(StmtKind::Assign { blocking, delayed }) => if *blocking && *delayed {
                scan.blocking_timing_controls.push(node);
            },
            NodeKind::Stmt(StmtKind::Fork { join_kind }) => {
                scan.fork_controls.push(node);
                if *join_kind != JoinKind::Detached {
                    scan.blocking_timing_controls.push(node);
                }
            },
            NodeKind::Stmt(StmtKind::ProcContAssign) | NodeKind::Stmt(StmtKind::Force)
            | NodeKind::Stmt(StmtKind::Release) | NodeKind::Stmt(StmtKind::Deassign) =>
                scan.disallowed_assignments.push(node),
            NodeKind::Stmt(StmtKind::EventTrigger) => scan.event_triggers.push(node),
            _ => {},
        }
    }

    /// Collect the timing and assignment constructs a process body reaches,
    /// entering each called subroutine body once.
    pub fn scan_process_contract(&self, node: usize, scan: &mut ProcessContractScan, visited: &mut Vec<bool>)
        -> (r: Result<(), String>)
        requires
            self.wf(),
            node < self.nodes.len(),
            old(visited).len() == self.nodes.len(),
        ensures
            final(visited).len() == self.nodes.len(),
            self.scan_spec(node as int, scan_view(*old(scan), old(visited)@)) == (match r {
                Ok(_) => Ok(scan_view(*final(scan), final(visited)@)),
                Err(e) => Err(e@),
            }),
            r is Ok ==> grows(old(visited)@, final(visited)@),
        decreases unvisited(old(visited)@), self.nodes.len() - node, self.nodes@[node as int].children.len() + 1,
    {
        proof { self.lemma_node(node as int); }
        match &self.nodes[node].kind {
            NodeKind::FuncCall { builtin: BuiltinCall::ProcessSelf, .. } => Ok(()),
            NodeKind::FuncCall { builtin: BuiltinCall::SemaphoreNew, .. }
            | NodeKind::FuncCall { builtin: BuiltinCall::MailboxNew, .. } => self.scan_contract_children(node, scan, visited),
            NodeKind::FuncCall { callee, .. } => {
                let ft = match callee {
                    Some(ft) => *ft,
                    None => return Err(self.named_message("call `", node, "` does not resolve to a subroutine")),
                };
                if ft >= self.nodes.len() {
                    return Err(self.named_message("call `", node, "` does not resolve to a subroutine"));
                }
                if visited[ft] {
                    return self.scan_contract_children(node, scan, visited);
                }
                let ghost entry = visited@;
                visited.set(ft, true);
                proof { lemma_unvisited_mark(entry, ft as int); }
                let ghost marked = visited@;
                if let Some(b) = self.nodes[ft].body {
                    proof { self.lemma_node(ft as int); }
                    match self.scan_process_contract(b, scan, visited) {
                        Ok(()) => {},
                        Err(e) => return Err(e),
                    }
                    proof { lemma_grows_unvisited(marked, visited@); }
                }
                let ghost before_children = visited@;
                let r = self.scan_contract_children(node, scan, visited);
                proof {
                    if r is Ok {
                        assert forall|i: int| 0 <= i < entry.len() && #[trigger] entry[i] implies visited@[i] by {
                            assert(marked[i]);
                            assert(before_children[i]);
                        }
                    }
                }
                r
            },
            _ => {
                self.record_construct(node, scan, Ghost(visited@));
                self.scan_contract_children(node, scan, visited)
            },
        }
    }

    fn scan_contract_children(&self, node: usize, scan: &mut ProcessContractScan, visited: &mut Vec<bool>)
        -> (r: Result<(), String>)
        requires
            self.wf(),
            node < self.nodes.len(),
            old(visited).len() == self.nodes.len(),
        ensures
            final(visited).len() == self.nodes.len(),
            self.scan_children(node as int, 0, scan_view(*old(scan), old(visited)@)) == (match r {
                Ok(_) => Ok(scan_view(*final(scan), final(visited)@)),
                Err(e) => Err(e@),
            }),
            r is Ok ==> grows(old(visited)@, final(visited)@),
        decreases unvisited(old(visited)@), self.nodes.len() - node, self.nodes@[node as int].children.len(),
    {
        proof { self.lemma_node(node as int); }
        let children = &self.nodes[node].children;
        let ghost start = scan_view(*scan, visited@);
        let mut k: usize = 0;
        while k < children.len()
            invariant
                self.wf(),
                node < self.nodes.len(),
                node_ok(self.nodes@, node as int),
                children@ == self.nodes@[node as int].children@,
                k <= children.len(),
                visited.len() == self.nodes.len(),
                grows(start.visited, visited@),
                unvisited(visited@) <= unvisited(start.visited),
                start.visited == old(visited)@,
                start == scan_view(*old(scan), old(visited)@),
                self.scan_children(node as int, 0, start) == self.scan_children(node as int, k as int, scan_view(*scan, visited@)),
            decreases children.len() - k,
        {
            let c = children[k];
            let ghost before = scan_view(*scan, visited@);
            match self.scan_process_contract(c, scan, visited) {
                Ok(()) => {},
                Err(e) => return Err(e),
            }
            proof {
                lemma_grows_unvisited(before.visited, visited@);
                assert forall|i: int| 0 <= i < start.visited.len() && #[trigger] start.visited[i] implies visited@[i] by {
                    assert(before.visited[i]);
                }
            }
            k = k + 1;
        }
        proof {
            assert forall|i: int| 0 <= i < start.visited.len() && #[trigger] start.visited[i] implies visited@[i] by {}
        }
        Ok(())
    }
}

impl Codegen {
    /// The scan state before anything is scanned.
    pub open spec fn fresh_scan(&self) -> ScanState {
        ScanState {
            ev: seq![],
            bt: seq![],
            fk: seq![],
            tr: seq![],
            da: seq![],
            visited: Seq::new(self.nodes.len() as nat, |i: int| false),
        }
    }

    /// Whether a process of family `kind` with body `stmt` keeps its
    /// contract: `always_comb` and `always_latch` contain no event control,
    /// blocking timing control or fork; `always_ff` contains exactly one
    /// event control and no other timing control, fork, event trigger or
    /// procedural continuous assignment.
    pub open spec fn contract_ok(&self, stmt: int, kind: Option<AlwaysKind>) -> bool {
        match kind {
            None => true,
            Some(k) => match self.scan_spec(stmt, self.fresh_scan()) {
                Err(_) => false,
                Ok(st) => if k == AlwaysKind::Comb || k == AlwaysKind::Latch {
                    st.ev.len() == 0 && st.bt.len() == 0 && st.fk.len() == 0
                } else if k == AlwaysKind::FlipFlop {
                    &&& st.ev.len() == 1
                    &&& st.bt.len() == 0
                    &&& st.fk.len() == 0
                    &&& st.tr.len() == 0
                    &&& st.da.len() == 0
                } else {
                    true
                },
            },
        }
    }

    /// `semantic error: <what> process `<path><middle><location of node>`.
    pub open spec fn contract_failure(&self, path: Seq<char>, what: Seq<char>, middle: Seq<char>, node: usize) -> Seq<char> {
        "semantic error: "@ + what + " process `"@ + path + middle
            + if node < self.nodes.len() { self.location_text(node as int) } else { seq![] }
    }

    /// The diagnostic of a process of family `k` at `path` whose body scans
    /// to `st` and breaks its contract.
    pub open spec fn contract_message(&self, path: Seq<char>, k: AlwaysKind, st: ScanState) -> Seq<char> {
        if (k == AlwaysKind::Comb || k == AlwaysKind::Latch) && (st.ev.len() > 0 || st.bt.len() > 0 || st.fk.len() > 0) {
            let node = if st.ev.len() > 0 { st.ev[0] } else if st.bt.len() > 0 { st.bt[0] } else { st.fk[0] };
            self.contract_failure(path, process_kind_text(Some(k)),
                "` cannot contain a blocking timing control or fork at "@, node)
        } else if st.ev.len() != 1 {
            "semantic error: always_ff process `"@ + path + "` must contain exactly one event control (found "@
                + decimal(st.ev.len()) + ")"@
        } else if st.bt.len() > 0 {
            self.contract_failure(path, "always_ff"@, "` cannot contain a timing control at "@, st.bt[0])
        } else if st.fk.len() > 0 {
            self.contract_failure(path, "always_ff"@, "` cannot contain a fork at "@, st.fk[0])
        } else if st.tr.len() > 0 {
            self.contract_failure(path, "always_ff"@, "` cannot trigger an event at "@, st.tr[0])
        } else {
            self.contract_failure(path, "always_ff"@, "` contains an unsupported procedural assignment at "@, st.da[0])
        }
    }

    fn contract_error(&self, what: &str, path: &str, middle: &str, node: usize) -> (r: String)
        ensures
            r@ == self.contract_failure(path@, what@, middle@, node),
    {
        let mut m = owned("semantic error: ");
        m.append(what);
        m.append(" process `");
        m.append(path);
        m.append(middle);
        if node < self.nodes.len() {
            m.append(self.source_location(node).as_str());
        }
        m
    }

    /// Check a process body against the contract of its process family
    /// before it is lowered; lint settings cannot turn these off.
    pub fn validate_process_contract(&self, path: &str, stmt: usize, process_kind: Option<AlwaysKind>)
        -> (r: Result<(), String>)
        requires
            self.wf(),
            stmt < self.nodes.len(),
        ensures
            r is Ok <==> self.contract_ok(stmt as int, process_kind),
            r matches Err(e) ==> (process_kind matches Some(k) && match self.scan_spec(stmt as int, self.fresh_scan()) {
                Ok(st) => e@ == self.contract_message(path@, k, st),
                Err(m) => e@ == m,
            }),
    {
        let k = match process_kind {
            Some(k) => k,
            None => return Ok(()),
        };
        let mut scan = ProcessContractScan {
            event_controls: Vec::new(),
            blocking_timing_controls: Vec::new(),
            fork_controls: Vec::new(),
            event_triggers: Vec::new(),
            disallowed_assignments: Vec::new(),
        };
        let mut visited: Vec<bool> = Vec::new();
        let mut i: usize = 0;
        while i < self.nodes.len()
            invariant
                i <= self.nodes.len(),
                visited@ == Seq::new(i as nat, |j: int| false),
            decreases self.nodes.len() - i,
        {
            visited.push(false);
            assert(visited@ =~= Seq::new((i + 1) as nat, |j: int| false));
            i = i + 1;
        }
        assert(scan_view(scan, visited@) =~= self.fresh_scan());
        match self.scan_process_contract(stmt, &mut scan, &mut visited) {
            Ok(()) => {},
            Err(e) => return Err(e),
        }
        let label = self.process_kind_label(Some(k));
        if k == AlwaysKind::Comb || k == AlwaysKind::Latch {
            let first = if scan.event_controls.len() > 0 {
                Some(scan.event_controls[0])
            } else if scan.blocking_timing_controls.len() > 0 {
                Some(scan.blocking_timing_controls[0])
            } else if scan.fork_controls.len() > 0 {
                Some(scan.fork_controls[0])
            } else {
                None
            };
            if let Some(node) = first {
                return Err(self.contract_error(label, path, "` cannot contain a blocking timing control or fork at ", node));
            }
        }
        if k == AlwaysKind::FlipFlop {
            if scan.event_controls.len() != 1 {
                let mut m = owned("semantic error: always_ff process `");
                m.append(path);
                m.append("` must contain exactly one event control (found ");
                let count = decimal_string(scan.event_controls.len() as u128);
                m.append(count.as_str());
                m.append(")");
                return Err(m);
            }
            if scan.blocking_timing_controls.len() > 0 {
                return Err(self.contract_error("always_ff", path, "` cannot contain a timing control at ",
                    scan.blocking_timing_controls[0]));
            }
            if scan.fork_controls.len() > 0 {
                return Err(self.contract_error("always_ff", path, "` cannot contain a fork at ", scan.fork_controls[0]));
            }
            if scan.event_triggers.len() > 0 {
                return Err(self.contract_error("always_ff", path, "` cannot trigger an event at ", scan.event_triggers[0]));
            }
            if scan.disallowed_assignments.len() > 0 {
                return Err(self.contract_error("always_ff", path,
                    "` contains an unsupported procedural assignment at ", scan.disallowed_assignments[0]));
            }
        }
        Ok(())
    }
}

} // verus!
