//! Inout-net groups: the nets that inout port connections collapse into one
//! resolved cell, checked and given one driver slot per member.

use vstd::prelude::*;
use vstd::string::StringExecFns;
use crate::codegen::Codegen;
use crate::design::{NodeKind, NetGroup, SignalInfo, IrSignal, IrModel};
use crate::nets::{net_kind_of, IrNetKind, LLG_MAX_NET_DRIVERS, site_lookup};
use crate::text::{decimal, decimal_string, owned, str_is};

verus! {

/// `g_net_<k>`.
pub open spec fn group_name(k: nat) -> Seq<char> {
    "g_net_"@ + decimal(k)
}

impl Codegen {
    /// The storage width of net `m`: that of its collected signal, else its
    /// declared packed width, else one bit.
    pub open spec fn member_width(&self, m: int) -> u32 {
        match self.signals@[m] {
            Some(info) => info.width,
            None => match self.kind(m) {
                NodeKind::Net { ty, .. } => match ty.width {
                    Some(w) => w,
                    None => 1,
                },
                _ => 1,
            },
        }
    }

    /// The resolution family of net `m`.
    pub open spec fn member_kind(&self, m: int) -> Option<IrNetKind> {
        match self.kind(m) {
            NodeKind::Net { net_type, .. } => net_kind_of(net_type),
            _ => None,
        }
    }

    /// The first position at or after `k` of a member that is not a net.
    pub open spec fn first_non_net(&self, s: Seq<usize>, k: int) -> Option<int>
        decreases s.len() - k,
    {
        if k < 0 || k >= s.len() {
            None
        } else if !(self.kind(s[k] as int) is Net) {
            Some(k)
        } else {
            self.first_non_net(s, k + 1)
        }
    }

    /// The first position at or after `k` of a member whose width is not `w`.
    pub open spec fn first_other_width(&self, s: Seq<usize>, w: u32, k: int) -> Option<int>
        decreases s.len() - k,
    {
        if k < 0 || k >= s.len() {
            None
        } else if self.member_width(s[k] as int) != w {
            Some(k)
        } else {
            self.first_other_width(s, w, k + 1)
        }
    }

    /// The first position at or after `k` of a member not of family `kind`.
    pub open spec fn first_other_kind(&self, s: Seq<usize>, kind: IrNetKind, k: int) -> Option<int>
        decreases s.len() - k,
    {
        if k < 0 || k >= s.len() {
            None
        } else if self.member_kind(s[k] as int) != Some(kind) {
            Some(k)
        } else {
            self.first_other_kind(s, kind, k + 1)
        }
    }

    /// The display names of `members`, separated by `, `.
    pub open spec fn joined_names(&self, members: Seq<usize>) -> Seq<char>
        decreases members.len(),
    {
        if members.len() == 0 {
            Seq::empty()
        } else if members.len() == 1 {
            self.display_name_spec(members[0] as int)
        } else {
            self.joined_names(members.drop_last()) + ", "@ + self.display_name_spec(members.last() as int)
        }
    }

    /// `inout-net group {<names>}`.
    pub open spec fn inout_group_label(&self, members: Seq<usize>) -> Seq<char> {
        "inout-net group {"@ + self.joined_names(members) + "}"@
    }

    /// Why the nets `members` cannot form one resolved net: a member that is
    /// not a net, a member whose width differs from the first's, a first
    /// member without a resolution family or a later one of another family,
    /// or more members than the runtime counts drivers.
    pub open spec fn inout_group_problem(&self, members: Seq<usize>) -> Option<Seq<char>> {
        let joined = self.inout_group_label(members);
        let first = members[0] as int;
        match self.first_non_net(members, 0) {
            Some(k) => Some(joined + ": member `"@ + self.display_name_spec(members[k] as int) + "` is not a net at "@
                + self.location_text(members[k] as int)),
            None => {
                let w = self.member_width(first);
                match self.first_other_width(members, w, 1) {
                    Some(k) => Some(joined + ": member `"@ + self.display_name_spec(members[k] as int)
                        + "` has a different width than `"@ + self.display_name_spec(first) + "` at "@
                        + self.location_text(members[k] as int)),
                    None => match self.member_kind(first) {
                        None => Some(joined + ": member `"@ + self.display_name_spec(first)
                            + "` has unsupported net type for an executable inout connection"@),
                        Some(kind) => match self.first_other_kind(members, kind, 1) {
                            Some(k) => Some(joined + ": member `"@ + self.display_name_spec(members[k] as int)
                                + "` has an incompatible net type at "@ + self.location_text(members[k] as int)),
                            None => if members.len() > LLG_MAX_NET_DRIVERS {
                                Some(joined + ": "@ + decimal(members.len()) + "-member group exceeds the runtime driver-count range at "@
                                    + self.location_text(first))
                            } else {
                                None
                            },
                        },
                    },
                }
            },
        }
    }

    /// `new` is `old` after the nets `members` became resolved group `gidx`:
    /// the group is appended with the first member's width and signedness,
    /// one driver slot of strength `(6, 6)` per member; member `i` with
    /// collected storage is renamed to the group's resolved cell, its model
    /// signal becomes slot `i` of the group and is recorded as the member's
    /// structural driver of the group.
    pub open spec fn inout_group_formed(old: Codegen, new: Codegen, members: Seq<usize>) -> bool {
        let gidx = old.model.net_groups.len();
        let name = group_name(gidx as nat);
        let first = members[0] as int;
        let resolved = name + ".resolved"@;
        let n = members.len();
        &&& new.model.net_groups@.len() == gidx + 1
        &&& new.model.net_groups@.take(gidx as int) == old.model.net_groups@
        &&& new.model.net_groups@[gidx as int].c_name@ == name
        &&& new.model.net_groups@[gidx as int].width == old.member_width(first)
        &&& new.model.net_groups@[gidx as int].signed == old.kind(first)->Net_ty.signed
        &&& new.model.net_groups@[gidx as int].n_drivers == n
        &&& new.model.net_groups@[gidx as int].driver_strengths@ == Seq::new(n, |i: int| (6u8, 6u8))
        &&& new.model.signals.len() == old.model.signals.len()
        &&& new.signals.len() == old.signals.len()
        &&& new.nodes == old.nodes
        &&& forall|x: int| 0 <= x < old.signals.len() && !members.contains(x as usize)
            ==> #[trigger] new.signals@[x] == old.signals@[x]
        &&& forall|i: int| 0 <= i < n ==> match #[trigger] old.signals@[members[i] as int] {
            Some(info) => {
                &&& new.signals@[members[i] as int] == Some(SignalInfo { global: new.signals@[members[i] as int]->0.global, ..info })
                &&& new.signals@[members[i] as int]->0.global@ == resolved
                &&& info.ir < old.model.signals.len() ==> {
                    &&& new.model.signals@[info.ir as int].c_name@ == resolved
                    &&& new.model.signals@[info.ir as int].net_driver == Some((gidx, i as u32))
                    &&& new.driver_signal(members[i], gidx, 0) == Some(info.ir)
                }
            },
            None => new.signals@[members[i] as int] is None,
        }
    }
}

impl Codegen {
    fn member_width_of(&self, m: usize) -> (r: u32)
        requires
            self.wf(),
            m < self.nodes.len(),
        ensures
            r == self.member_width(m as int),
    {
        match self.signal_of(m) {
            Some(info) => info.width,
            None => match &self.nodes[m].kind {
                NodeKind::Net { ty, .. } => match ty.width {
                    Some(w) => w,
                    None => 1,
                },
                _ => 1,
            },
        }
    }

    fn member_kind_of(&self, m: usize) -> (r: Option<IrNetKind>)
        requires
            m < self.nodes.len(),
        ensures
            r == self.member_kind(m as int),
    {
        match &self.nodes[m].kind {
            NodeKind::Net { net_type, .. } => Self::ir_net_kind(net_type),
            _ => None,
        }
    }

    fn inout_label_of(&self, members: &Vec<usize>) -> (r: String)
        requires
            self.wf(),
            forall|i: int| 0 <= i < members.len() ==> #[trigger] members@[i] < self.nodes.len(),
        ensures
            r@ == self.inout_group_label(members@),
    {
        let mut names = String::new();
        let mut k: usize = 0;
        while k < members.len()
            invariant
                self.wf(),
                k <= members.len(),
                forall|i: int| 0 <= i < members.len() ==> #[trigger] members@[i] < self.nodes.len(),
                names@ == self.joined_names(members@.take(k as int)),
            decreases members.len() - k,
        {
            assert(members@.take(k + 1).drop_last() =~= members@.take(k as int));
            if k > 0 {
                names.append(", ");
            }
            names.append(self.display_name(members[k]).as_str());
            k = k + 1;
        }
        assert(members@.take(members.len() as int) =~= members@);
        let mut r = owned("inout-net group {");
        r.append(names.as_str());
        r.append("}");
        r
    }

    /// The diagnostic of `inout_group_problem`, or nothing when the nets can
    /// form one resolved net.
    fn check_inout_group(&self, members: &Vec<usize>, label: &String) -> (r: Option<String>)
        requires
            self.wf(),
            members.len() >= 1,
            forall|i: int| 0 <= i < members.len() ==> #[trigger] members@[i] < self.nodes.len(),
            label@ == self.inout_group_label(members@),
        ensures
            r matches Some(m) ==> self.inout_group_problem(members@) == Some(m@),
            r is None ==> self.inout_group_problem(members@) is None,
    {
        let n = members.len();
        let first = members[0];
        let mut k: usize = 0;
        while k < n
            invariant
                k <= n == members.len(),
                self.first_non_net(members@, 0) == self.first_non_net(members@, k as int),
                self.wf(),
                forall|i: int| 0 <= i < members.len() ==> #[trigger] members@[i] < self.nodes.len(),
                label@ == self.inout_group_label(members@),
                first == members@[0],
                n >= 1,
            decreases n - k,
        {
            if !matches!(self.nodes[members[k]].kind, NodeKind::Net { .. }) {
                let bad = members[k];
                let mut m = label.clone();
                m.append(": member `");
                m.append(self.display_name(bad).as_str());
                m.append("` is not a net at ");
                m.append(self.source_location(bad).as_str());
                return Some(m);
            }
            k = k + 1;
        }
        let w = self.member_width_of(first);
        let mut k: usize = 1;
        while k < n
            invariant
                1 <= k <= n == members.len(),
                self.first_other_width(members@, w, 1) == self.first_other_width(members@, w, k as int),
                self.first_non_net(members@, 0) is None,
                w == self.member_width(first as int),
                self.wf(),
                forall|i: int| 0 <= i < members.len() ==> #[trigger] members@[i] < self.nodes.len(),
                label@ == self.inout_group_label(members@),
                first == members@[0],
                n >= 1,
            decreases n - k,
        {
            if self.member_width_of(members[k]) != w {
                let bad = members[k];
                let mut m = label.clone();
                m.append(": member `");
                m.append(self.display_name(bad).as_str());
                m.append("` has a different width than `");
                m.append(self.display_name(first).as_str());
                m.append("` at ");
                m.append(self.source_location(bad).as_str());
                return Some(m);
            }
            k = k + 1;
        }
        let kind = match self.member_kind_of(first) {
            Some(kind) => kind,
            None => {
                let mut m = label.clone();
                m.append(": member `");
                m.append(self.display_name(first).as_str());
                m.append("` has unsupported net type for an executable inout connection");
                return Some(m);
            },
        };
        let mut k: usize = 1;
        while k < n
            invariant
                1 <= k <= n == members.len(),
                self.first_other_kind(members@, kind, 1) == self.first_other_kind(members@, kind, k as int),
                self.first_non_net(members@, 0) is None,
                self.first_other_width(members@, self.member_width(first as int), 1) is None,
                self.member_kind(first as int) == Some(kind),
                self.wf(),
                forall|i: int| 0 <= i < members.len() ==> #[trigger] members@[i] < self.nodes.len(),
                label@ == self.inout_group_label(members@),
                first == members@[0],
                n >= 1,
            decreases n - k,
        {
            if self.member_kind_of(members[k]) != Some(kind) {
                let bad = members[k];
                let mut m = label.clone();
                m.append(": member `");
                m.append(self.display_name(bad).as_str());
                m.append("` has an incompatible net type at ");
                m.append(self.source_location(bad).as_str());
                return Some(m);
            }
            k = k + 1;
        }
        if n > LLG_MAX_NET_DRIVERS as usize {
            let mut m = label.clone();
            m.append(": ");
            m.append(decimal_string(n as u128).as_str());
            m.append("-member group exceeds the runtime driver-count range at ");
            m.append(self.source_location(first).as_str());
            return Some(m);
        }
        None
    }
}

impl Codegen {
    /// Collapse the nets `members` (ascending node ids of one inout
    /// connection component) into resolved group `g_net_<k>`, `k` the number
    /// of groups so far: check them, append the group with one `(6, 6)`
    /// driver slot per member, rename each member's collected storage to
    /// the group's resolved cell with slot `i` for member `i`, and record
    /// that signal as the member's structural driver of the group.
    pub fn build_inout_net_group(&mut self, members: &Vec<usize>) -> (r: Result<usize, String>)
        requires
            old(self).wf(),
            members.len() >= 1,
            forall|i: int| 0 <= i < members.len() ==> #[trigger] members@[i] < old(self).nodes.len(),
            forall|i: int, j: int| 0 <= i < j < members.len() ==> members@[i] < members@[j],
            forall|i: int, j: int| 0 <= i < j < members.len() && #[trigger] old(self).signals@[members@[i] as int] is Some
                && #[trigger] old(self).signals@[members@[j] as int] is Some
                ==> old(self).signals@[members@[i] as int]->0.ir != old(self).signals@[members@[j] as int]->0.ir,
        ensures
            old(self).inout_group_problem(members@) matches Some(m) ==> r matches Err(e) && e@ == m
                && *final(self) == *old(self),
            old(self).inout_group_problem(members@) is None
                && (exists|id: int| 0 <= id < old(self).len() && #[trigger] old(self).member_violation(id, members@))
                ==> r is Err && *final(self) == *old(self),
            r matches Ok(gidx) ==> gidx == old(self).model.net_groups.len()
                && old(self).inout_group_problem(members@) is None
                && !(exists|id: int| 0 <= id < old(self).len() && #[trigger] old(self).member_violation(id, members@))
                && Self::inout_group_formed(*old(self), *final(self), members@),
            old(self).inout_group_problem(members@) is None
                && !(exists|id: int| 0 <= id < old(self).len() && #[trigger] old(self).member_violation(id, members@))
                && old(self).structural_drivers.len() + members.len() <= u32::MAX + 1 ==> r is Ok,
            final(self).wf(),
    {
        let label = self.inout_label_of(members);
        match self.check_inout_group(members, &label) {
            Some(m) => return Err(m),
            None => {},
        }
        let first = members[0];
        match self.unsupported_member_write(members) {
            Some(reason) => {
                let mut m = label;
                m.append(": ");
                m.append(reason.as_str());
                m.append(" at ");
                m.append(self.source_location(first).as_str());
                return Err(m);
            },
            None => {},
        }
        let ghost c0 = *self;
        let n = members.len();
        let width = self.member_width_of(first);
        let signed = match &self.nodes[first].kind {
            NodeKind::Net { ty, .. } => ty.signed,
            _ => false,
        };
        let gidx = self.model.net_groups.len();
        let mut name = owned("g_net_");
        name.append(decimal_string(gidx as u128).as_str());
        let mut resolved = name.clone();
        resolved.append(".resolved");
        let mut slot: usize = 0;
        while slot < n
            invariant
                slot <= n == members.len(),
                n <= LLG_MAX_NET_DRIVERS,
                resolved@ == group_name(gidx as nat) + ".resolved"@,
                gidx == c0.model.net_groups.len(),
                forall|i: int| 0 <= i < n ==> #[trigger] members@[i] < c0.nodes.len(),
                forall|i: int, j: int| 0 <= i < j < n ==> members@[i] < members@[j],
                forall|i: int, j: int| 0 <= i < j < n && #[trigger] c0.signals@[members@[i] as int] is Some
                    && #[trigger] c0.signals@[members@[j] as int] is Some
                    ==> c0.signals@[members@[i] as int]->0.ir != c0.signals@[members@[j] as int]->0.ir,
                c0.wf(),
                self.signals.len() == c0.signals.len(),
                self.model.signals.len() == c0.model.signals.len(),
                *self == (Codegen { signals: self.signals, model: self.model, ..c0 }),
                self.model == (IrModel { signals: self.model.signals, ..c0.model }),
                forall|i: int| slot <= i < n ==> #[trigger] self.signals@[members@[i] as int]
                    == c0.signals@[members@[i] as int],
                forall|x: int| 0 <= x < c0.signals.len() && !members@.contains(x as usize)
                    ==> #[trigger] self.signals@[x] == c0.signals@[x],
                forall|i: int| slot <= i < n ==> match #[trigger] c0.signals@[members@[i] as int] {
                    Some(info) => info.ir < c0.model.signals.len() ==> self.model.signals@[info.ir as int]
                        == c0.model.signals@[info.ir as int],
                    None => true,
                },
                forall|i: int| 0 <= i < slot ==> match #[trigger] c0.signals@[members@[i] as int] {
                    Some(info) => {
                        &&& self.signals@[members@[i] as int] == Some(SignalInfo {
                            global: self.signals@[members@[i] as int]->0.global, ..info })
                        &&& self.signals@[members@[i] as int]->0.global@ == resolved@
                        &&& info.ir < c0.model.signals.len() ==> {
                            &&& self.model.signals@[info.ir as int].c_name@ == resolved@
                            &&& self.model.signals@[info.ir as int].net_driver == Some((gidx, i as u32))
                        }
                    },
                    None => self.signals@[members@[i] as int] is None,
                },
            decreases n - slot,
        {
            let m = members[slot];
            let current = match &self.signals[m] {
                Some(info) => Some(info.clone()),
                None => None,
            };
            match current {
                Some(info) => {
                    let ir = info.ir;
                    self.signals.set(m, Some(SignalInfo { global: resolved.clone(), ..info }));
                    if ir < self.model.signals.len() {
                        let sig = self.model.signals.remove(ir);
                        let updated = IrSignal { c_name: resolved.clone(), net_driver: Some((gidx, slot as u32)), ..sig };
                        self.model.signals.insert(ir, updated);
                    }
                },
                None => {},
            }
            slot = slot + 1;
        }
        let mut strengths: Vec<(u8, u8)> = Vec::new();
        let mut k: usize = 0;
        while k < n
            invariant
                k <= n,
                strengths@ == Seq::new(k as nat, |i: int| (6u8, 6u8)),
            decreases n - k,
        {
            strengths.push((6, 6));
            k = k + 1;
        }
        self.model.net_groups.push(NetGroup { c_name: name, width, signed, n_drivers: n as u32, driver_strengths: strengths });
        let ghost c1 = *self;
        let mut slot: usize = 0;
        while slot < n
            invariant
                slot <= n == members.len(),
                gidx == c0.model.net_groups.len(),
                forall|i: int, j: int| 0 <= i < j < n ==> members@[i] < members@[j],
                forall|i: int| 0 <= i < n ==> #[trigger] members@[i] < c0.nodes.len(),
                self.signals == c1.signals,
                self.model == c1.model,
                self.structural_drivers.len() >= c1.structural_drivers.len(),
                self.structural_drivers@.take(c1.structural_drivers.len() as int) == c1.structural_drivers@,
                *self == (Codegen {
                    structural_drivers: self.structural_drivers,
                    structural_driver_sites: self.structural_driver_sites,
                    ..c1
                }),
                forall|i: int| 0 <= i < slot ==> match #[trigger] c0.signals@[members@[i] as int] {
                    Some(info) => self.driver_signal(members@[i], gidx, 0) == Some(info.ir),
                    None => true,
                },
                self.structural_drivers.len() <= c1.structural_drivers.len() + slot,
                c0 == *old(self),
                c0.inout_group_problem(members@) is None,
                !(exists|id: int| 0 <= id < c0.len() && #[trigger] c0.member_violation(id, members@)),
                c1.structural_drivers == c0.structural_drivers,
                c1.structural_driver_sites == c0.structural_driver_sites,
                c0.wf(),
                c1 == (Codegen { signals: c1.signals, model: c1.model, ..c0 }),
                c1.signals.len() == c0.signals.len(),
                forall|i: int| 0 <= i < n ==> match #[trigger] c0.signals@[members@[i] as int] {
                    Some(info) => c1.signals@[members@[i] as int] is Some
                        && c1.signals@[members@[i] as int]->0.ir == info.ir,
                    None => c1.signals@[members@[i] as int] is None,
                },
            decreases n - slot,
        {
            let m = members[slot];
            let ir = match &self.signals[m] {
                Some(info) => Some(info.ir),
                None => None,
            };
            match ir {
                Some(ir) => {
                    let id = match self.record_structural_driver(ir) {
                        Ok(id) => id,
                        Err(e) => return Err(e),
                    };
                    let ghost sites_before = self.structural_driver_sites@;
                    self.structural_driver_sites.push((m, gidx, id));
                    assert(self.structural_driver_sites@.drop_last() =~= sites_before);
                },
                None => {},
            }
            slot = slot + 1;
        }
        proof {
            let name = group_name(gidx as nat);
            assert(self.model.net_groups@.len() == gidx + 1);
            assert(self.model.net_groups@.take(gidx as int) =~= c0.model.net_groups@);
            assert(self.model.net_groups@[gidx as int].c_name@ == name);
            assert(self.model.net_groups@[gidx as int].width == c0.member_width(members@[0] as int));
            assert(self.model.net_groups@[gidx as int].signed == c0.kind(members@[0] as int)->Net_ty.signed);
            assert(self.model.net_groups@[gidx as int].driver_strengths@ == Seq::new(n as nat, |i: int| (6u8, 6u8)));
            assert(self.model.signals.len() == c0.model.signals.len());
            assert(forall|i: int| 0 <= i < n ==> match #[trigger] c0.signals@[members@[i] as int] {
                Some(info) => {
                    &&& self.signals@[members@[i] as int] == Some(SignalInfo { global: self.signals@[members@[i] as int]->0.global, ..info })
                    &&& self.signals@[members@[i] as int]->0.global@ == name + ".resolved"@
                    &&& info.ir < c0.model.signals.len() ==> {
                        &&& self.model.signals@[info.ir as int].c_name@ == name + ".resolved"@
                        &&& self.model.signals@[info.ir as int].net_driver == Some((gidx, i as u32))
                        &&& self.driver_signal(members@[i], gidx, 0) == Some(info.ir)
                    }
                },
                None => self.signals@[members@[i] as int] is None,
            });
        }
        Ok(gidx)
    }
}

/// No entry of `sites` names `(source, group)`, so none is found for it.
pub proof fn lemma_site_lookup_none(sites: Seq<(usize, usize, u32)>, source: usize, group: usize)
    requires
        forall|q: int| 0 <= q < sites.len() ==> !((#[trigger] sites[q]).0 == source && sites[q].1 == group),
    ensures
        site_lookup(sites, source, group) is None,
    decreases sites.len(),
{
    if sites.len() > 0 {
        assert forall|q: int| 0 <= q < sites.drop_last().len() implies
            !((#[trigger] sites.drop_last()[q]).0 == source && sites.drop_last()[q].1 == group) by {
            assert(sites.drop_last()[q] == sites[q]);
        }
        lemma_site_lookup_none(sites.drop_last(), source, group);
    }
}

/// Whether `sources` are strictly ascending.
pub open spec fn ascending_sources(sites: Seq<(usize, (u8, u8))>) -> bool {
    forall|i: int, j: int| 0 <= i < j < sites.len() ==> sites[i].0 < sites[j].0
}

impl Codegen {
    /// Why wired net `net` with `n` driving sites gets no resolved group.
    pub open spec fn wired_group_problem(&self, net: int, n: nat) -> Option<Seq<char>> {
        let shown = self.display_name_spec(net);
        if n > LLG_MAX_NET_DRIVERS {
            Some("wired net `"@ + shown + "` has "@ + decimal(n)
                + " continuous driver sites, exceeding the runtime driver-count range"@)
        } else {
            match self.signals@[net] {
                None => Some("wired net `"@ + shown + "` has no lowered scalar storage"@),
                Some(info) => if info.real {
                    Some("real-valued wired net `"@ + shown + "` is not supported"@)
                } else {
                    None
                },
            }
        }
    }

    /// `new` is `old` after standalone wired net `net` became resolved group
    /// `g_net_<k>` driven by `sites`: the group has the net's width and
    /// signedness, one `(6, 6)` slot when nothing drives it and otherwise one
    /// slot per site with the site's strengths, in site order; every
    /// collected storage named like the net's is renamed to the resolved
    /// cell, and the net's model signal is slot 0 of the group.
    pub open spec fn wired_group_formed(old: Codegen, new: Codegen, net: int, sites: Seq<(usize, (u8, u8))>) -> bool {
        let gidx = old.model.net_groups.len();
        let info = old.signals@[net]->0;
        let resolved = group_name(gidx as nat) + ".resolved"@;
        let group = new.model.net_groups@[gidx as int];
        &&& new.model.net_groups@.len() == gidx + 1
        &&& new.model.net_groups@.take(gidx as int) == old.model.net_groups@
        &&& group.c_name@ == group_name(gidx as nat)
        &&& group.width == info.width
        &&& group.signed == info.signed
        &&& sites.len() == 0 ==> group.n_drivers == 1 && group.driver_strengths@ == seq![(6u8, 6u8)]
            && new.driver_signal(net as usize, gidx, 0) == Some(info.ir)
        &&& sites.len() > 0 ==> group.n_drivers == sites.len()
            && group.driver_strengths@ == sites.map_values(|e: (usize, (u8, u8))| e.1)
        &&& new.signals.len() == old.signals.len()
        &&& forall|x: int| 0 <= x < old.signals.len() ==> #[trigger] new.signals@[x] == match old.signals@[x] {
            Some(other) => if other.global@ == info.global@ {
                Some(SignalInfo { global: new.signals@[x]->0.global, ..other })
            } else {
                Some(other)
            },
            None => None,
        }
        &&& forall|x: int| 0 <= x < old.signals.len() && (#[trigger] old.signals@[x]) is Some
            && old.signals@[x]->0.global@ == info.global@ ==> new.signals@[x]->0.global@ == resolved
        &&& info.ir < old.model.signals.len() ==> new.model.signals@[info.ir as int].c_name@ == resolved
            && new.model.signals@[info.ir as int].net_driver == Some((gidx, 0u32))
    }

    /// Give standalone wired net `net` its own resolved group, driven by
    /// `sites` (the driving sites in ascending node order with their driver
    /// strengths): the group starts with one default slot when nothing
    /// drives the net, and each site then gets a contribution slot.
    pub fn build_wired_net_group(&mut self, net: usize, sites: &Vec<(usize, (u8, u8))>) -> (r: Result<usize, String>)
        requires
            old(self).wf(),
            net < old(self).nodes.len(),
            ascending_sources(sites@),
            old(self).model.signals.len() + sites.len() < usize::MAX,
            forall|k: int| 0 <= k < old(self).structural_driver_sites.len()
                ==> (#[trigger] old(self).structural_driver_sites@[k]).1 < old(self).model.net_groups.len(),
        ensures
            old(self).wired_group_problem(net as int, sites.len() as nat) matches Some(m) ==> r matches Err(e)
                && e@ == m && *final(self) == *old(self),
            r matches Ok(gidx) ==> gidx == old(self).model.net_groups.len()
                && old(self).wired_group_problem(net as int, sites.len() as nat) is None
                && Self::wired_group_formed(*old(self), *final(self), net as int, sites@),
            old(self).wired_group_problem(net as int, sites.len() as nat) is None
                && old(self).structural_drivers.len() + sites.len() <= u32::MAX ==> r is Ok,
            final(self).wf(),
    {
        let shown = self.display_name(net);
        let n = sites.len();
        if n > LLG_MAX_NET_DRIVERS as usize {
            let mut m = owned("wired net `");
            m.append(shown.as_str());
            m.append("` has ");
            m.append(decimal_string(n as u128).as_str());
            m.append(" continuous driver sites, exceeding the runtime driver-count range");
            return Err(m);
        }
        let info = match &self.signals[net] {
            Some(info) => info.clone(),
            None => {
                let mut m = owned("wired net `");
                m.append(shown.as_str());
                m.append("` has no lowered scalar storage");
                return Err(m);
            },
        };
        if info.real {
            let mut m = owned("real-valued wired net `");
            m.append(shown.as_str());
            m.append("` is not supported");
            return Err(m);
        }
        let ghost c0 = *self;
        let gidx = self.model.net_groups.len();
        let mut name = owned("g_net_");
        name.append(decimal_string(gidx as u128).as_str());
        let mut resolved = name.clone();
        resolved.append(".resolved");
        let mut initial: Vec<(u8, u8)> = Vec::new();
        if n == 0 {
            initial.push((6, 6));
        }
        let initial_drivers: u32 = if n == 0 { 1 } else { 0 };
        self.model.net_groups.push(NetGroup {
            c_name: name,
            width: info.width,
            signed: info.signed,
            n_drivers: initial_drivers,
            driver_strengths: initial,
        });
        let ghost cp = *self;
        let mut x: usize = 0;
        while x < self.signals.len()
            invariant
                x <= self.signals.len() == c0.signals.len(),
                resolved@ == group_name(gidx as nat) + ".resolved"@,
                *self == (Codegen { signals: self.signals, ..cp }),
                cp == (Codegen { model: cp.model, ..c0 }),
                forall|y: int| x <= y < c0.signals.len() ==> #[trigger] self.signals@[y] == c0.signals@[y],
                forall|y: int| 0 <= y < x ==> #[trigger] self.signals@[y] == match c0.signals@[y] {
                    Some(other) => if other.global@ == info.global@ {
                        Some(SignalInfo { global: self.signals@[y]->0.global, ..other })
                    } else {
                        Some(other)
                    },
                    None => None,
                },
                forall|y: int| 0 <= y < x && (#[trigger] c0.signals@[y]) is Some
                    && c0.signals@[y]->0.global@ == info.global@ ==> self.signals@[y]->0.global@ == resolved@,
            decreases c0.signals.len() - x,
        {
            let renamed = match &self.signals[x] {
                Some(other) => if str_is(other.global.as_str(), info.global.as_str()) {
                    Some(SignalInfo { global: resolved.clone(), ..other.clone() })
                } else {
                    None
                },
                None => None,
            };
            match renamed {
                Some(v) => self.signals.set(x, Some(v)),
                None => {},
            }
            x = x + 1;
        }
        let ir = info.ir;
        if ir < self.model.signals.len() {
            let sig = self.model.signals.remove(ir);
            let updated = IrSignal { c_name: resolved.clone(), net_driver: Some((gidx, 0u32)), ..sig };
            self.model.signals.insert(ir, updated);
        }
        assert(self.model.signals@.len() == c0.model.signals@.len());
        if n == 0 {
            let id = match self.record_structural_driver(ir) {
                Ok(id) => id,
                Err(e) => return Err(e),
            };
            self.structural_driver_sites.push((net, gidx, id));
            assert(self.driver_signal(net, gidx, 0) == Some(ir));
        }
        assert(n == 0 ==> self.model.net_groups@[gidx as int].driver_strengths@ =~= seq![(6u8, 6u8)]);
        let ghost c1 = *self;
        let mut k: usize = 0;
        while k < n
            invariant
                k <= n == sites.len() <= LLG_MAX_NET_DRIVERS,
                ascending_sources(sites@),
                gidx == c0.model.net_groups.len(),
                gidx < self.model.net_groups.len() == c0.model.net_groups.len() + 1,
                self.model.net_groups@.take(gidx as int) == c0.model.net_groups@,
                self.model.net_groups@[gidx as int] == (NetGroup {
                    n_drivers: self.model.net_groups@[gidx as int].n_drivers,
                    driver_strengths: self.model.net_groups@[gidx as int].driver_strengths,
                    ..c1.model.net_groups@[gidx as int]
                }),
                n > 0 ==> self.model.net_groups@[gidx as int].n_drivers == k
                    && self.model.net_groups@[gidx as int].driver_strengths@
                    == sites@.take(k as int).map_values(|e: (usize, (u8, u8))| e.1),
                c1.model.signals.len() <= self.model.signals.len() <= c1.model.signals.len() + k,
                c1.model.signals.len() == c0.model.signals.len(),
                c0.model.signals.len() + n < usize::MAX,
                forall|q: int| 0 <= q < c1.model.signals.len() ==> #[trigger] self.model.signals@[q]
                    == c1.model.signals@[q],
                self.signals == c1.signals,
                self.nodes == c1.nodes,
                c1.wf(),
                c0 == *old(self),
                c0.wired_group_problem(net as int, n as nat) is None,
                n > 0 ==> c1.structural_drivers == c0.structural_drivers && c1.structural_driver_sites
                    == c0.structural_driver_sites,
                self.structural_drivers.len() <= c1.structural_drivers.len() + k,
                n == 0 ==> *self == c1,
                forall|q: int| 0 <= q < self.structural_driver_sites.len()
                    && (#[trigger] self.structural_driver_sites@[q]).1 == gidx
                    ==> forall|i: int| k <= i < n ==> self.structural_driver_sites@[q].0 < sites@[i].0,
                *self == (Codegen {
                    model: self.model,
                    structural_drivers: self.structural_drivers,
                    structural_driver_sites: self.structural_driver_sites,
                    structural_driver_terminal_sites: self.structural_driver_terminal_sites,
                    ..c1
                }),
            decreases n - k,
        {
            let (source, strengths) = sites[k];
            proof {
                lemma_site_lookup_none(self.structural_driver_sites@, source, gidx);
            }
            let ghost sites_before = self.structural_driver_sites@;
            let ghost sigs_before = self.model.signals@;
            match self.add_structural_driver_for_terminal(gidx, source, strengths, 0) {
                Ok(_) => {},
                Err(e) => return Err(e),
            }
            proof {
                assert forall|q: int| 0 <= q < c1.model.signals.len() implies
                    #[trigger] self.model.signals@[q] == c1.model.signals@[q] by {
                    assert(sigs_before[q] == c1.model.signals@[q]);
                    if self.model.signals@.len() > sigs_before.len() {
                        assert(self.model.signals@.drop_last()[q] == self.model.signals@[q]);
                    } else {
                        assert(self.model.signals@ == sigs_before);
                    }
                }
                assert(sites@.take(k + 1).drop_last() =~= sites@.take(k as int));
            }
            k = k + 1;
        }
        assert(sites@.take(n as int) =~= sites@);
        Ok(gidx)
    }
}

/// A labelling of node ids that gives both ends of every link one label.
pub open spec fn closed_under(links: Seq<(usize, usize)>, m: spec_fn(usize) -> usize) -> bool {
    forall|k: int| 0 <= k < links.len() ==> m((#[trigger] links[k]).0) == m(links[k].1)
}

/// `x` and `y` are joined by the links: every labelling closed under the
/// links gives them one label.
pub open spec fn joined(links: Seq<(usize, usize)>, x: usize, y: usize) -> bool {
    forall|m: spec_fn(usize) -> usize| closed_under(links, m) ==> #[trigger] m(x) == m(y)
}

/// What a step of the relabelling leaves of label `v` when `hi` merges
/// into `lo`.
pub open spec fn merged(v: usize, lo: usize, hi: usize) -> usize {
    if v == hi { lo } else { v }
}

proof fn lemma_joined_trans(links: Seq<(usize, usize)>, x: usize, y: usize, z: usize)
    requires
        joined(links, x, y),
        joined(links, y, z),
    ensures
        joined(links, x, z),
{
    assert forall|m: spec_fn(usize) -> usize| closed_under(links, m) implies #[trigger] m(x) == m(z) by {
        assert(m(x) == m(y));
        assert(m(y) == m(z));
    }
}

proof fn lemma_joined_link(links: Seq<(usize, usize)>, k: int)
    requires
        0 <= k < links.len(),
    ensures
        joined(links, links[k].0, links[k].1),
{
    assert forall|m: spec_fn(usize) -> usize| closed_under(links, m) implies #[trigger] m(links[k].0) == m(links[k].1) by {
        assert(m(links[k].0) == m(links[k].1));
    }
}

proof fn lemma_joined_sym(links: Seq<(usize, usize)>, x: usize, y: usize)
    requires
        joined(links, x, y),
    ensures
        joined(links, y, x),
{
    assert forall|m: spec_fn(usize) -> usize| closed_under(links, m) implies #[trigger] m(y) == m(x) by {
        assert(m(x) == m(y));
    }
}

/// The connection components of the nodes below `n` under `links` (the
/// parent- and child-side nets of inout ports), as one label per node: the
/// smallest node of its component. Both ends of every link get one label,
/// and nodes get one label only when the links join them.
pub fn inout_components(n: usize, links: &Vec<(usize, usize)>) -> (r: Vec<usize>)
    requires
        forall|k: int| 0 <= k < links.len() ==> (#[trigger] links@[k]).0 < n && links@[k].1 < n,
    ensures
        r.len() == n,
        forall|x: int| 0 <= x < n ==> #[trigger] r@[x] <= x && r@[r@[x] as int] == r@[x],
        forall|k: int| 0 <= k < links.len() ==> r@[(#[trigger] links@[k]).0 as int] == r@[links@[k].1 as int],
        forall|x: int, y: int| 0 <= x < n && 0 <= y < n && #[trigger] r@[x] == #[trigger] r@[y]
            ==> joined(links@, x as usize, y as usize),
{
    let mut labels: Vec<usize> = Vec::new();
    let mut i: usize = 0;
    while i < n
        invariant
            i <= n,
            labels.len() == i,
            forall|x: int| 0 <= x < i ==> #[trigger] labels@[x] == x,
        decreases n - i,
    {
        labels.push(i);
        i = i + 1;
    }
    proof {
        assert forall|x: int, y: int| 0 <= x < n && 0 <= y < n && #[trigger] labels@[x] == #[trigger] labels@[y]
            implies joined(links@, x as usize, y as usize) by {
            assert(x == y);
            assert forall|m: spec_fn(usize) -> usize| closed_under(links@, m) implies #[trigger] m(x as usize)
                == m(y as usize) by {}
        }
    }
    let mut k: usize = 0;
    while k < links.len()
        invariant
            k <= links.len(),
            labels.len() == n,
            forall|q: int| 0 <= q < links.len() ==> (#[trigger] links@[q]).0 < n && links@[q].1 < n,
            forall|x: int| 0 <= x < n ==> #[trigger] labels@[x] <= x && labels@[labels@[x] as int] == labels@[x],
            forall|q: int| 0 <= q < k ==> labels@[(#[trigger] links@[q]).0 as int] == labels@[links@[q].1 as int],
            forall|x: int, y: int| 0 <= x < n && 0 <= y < n && #[trigger] labels@[x] == #[trigger] labels@[y]
                ==> joined(links@, x as usize, y as usize),
        decreases links.len() - k,
    {
        let (a, b) = links[k];
        let la = labels[a];
        let lb = labels[b];
        if la != lb {
            let lo = if la < lb { la } else { lb };
            let hi = if la < lb { lb } else { la };
            let ghost before = labels@;
            let mut x: usize = 0;
            while x < n
                invariant
                    x <= n == labels.len(),
                    before.len() == n,
                    forall|y: int| 0 <= y < x ==> #[trigger] labels@[y] == merged(before[y], lo, hi),
                    forall|y: int| x <= y < n ==> #[trigger] labels@[y] == before[y],
                decreases n - x,
            {
                if labels[x] == hi {
                    labels.set(x, lo);
                }
                x = x + 1;
            }
            proof {
                assert(forall|y: int| 0 <= y < n ==> #[trigger] labels@[y] == merged(before[y], lo, hi));
                assert(before[lo as int] == lo && before[hi as int] == hi);
                assert forall|y: int| 0 <= y < n implies #[trigger] labels@[y] <= y
                    && labels@[labels@[y] as int] == labels@[y] by {
                    assert(before[y] <= y);
                    assert(before[before[y] as int] == before[y]);
                }
                assert forall|q: int| 0 <= q < k + 1 implies labels@[(#[trigger] links@[q]).0 as int]
                    == labels@[links@[q].1 as int] by {
                    if q < k {
                        assert(before[links@[q].0 as int] == before[links@[q].1 as int]);
                    }
                }
                lemma_joined_link(links@, k as int);
                assert forall|p: int, y: int| 0 <= p < n && 0 <= y < n && #[trigger] labels@[p] == #[trigger] labels@[y]
                    implies joined(links@, p as usize, y as usize) by {
                    let bp = before[p];
                    let by_ = before[y];
                    if bp == by_ {
                    } else {
                        // One of them held `hi` and the other `lo`.
                        let (ph, yl) = if bp == hi { (p, y) } else { (y, p) };
                        assert(before[ph] == hi && before[yl] == lo);
                        // `hi` and `lo` are the labels of the two ends of the link.
                        let (eh, el) = if la == hi { (a, b) } else { (b, a) };
                        assert(before[eh as int] == hi && before[el as int] == lo);
                        assert(joined(links@, ph as usize, eh));
                        assert(joined(links@, yl as usize, el));
                        if la == hi {
                            lemma_joined_trans(links@, ph as usize, a, b);
                        } else {
                            lemma_joined_sym(links@, a, b);
                            lemma_joined_trans(links@, ph as usize, b, a);
                        }
                        lemma_joined_sym(links@, yl as usize, el);
                        lemma_joined_trans(links@, ph as usize, el, yl as usize);
                        if bp != hi {
                            lemma_joined_sym(links@, ph as usize, yl as usize);
                        }
                    }
                }
            }
        }
        k = k + 1;
    }
    labels
}

/// A node joined to another node ends some link.
proof fn lemma_joined_end(links: Seq<(usize, usize)>, y: usize, r: usize)
    requires
        y != r,
        joined(links, y, r),
    ensures
        link_end(links, r),
{
    if !link_end(links, r) {
        let m = |v: usize| if v == r { 1usize } else { 0usize };
        assert(closed_under(links, m));
        assert(m(y) == m(r));
    }
}

/// Whether node `x` is an end of one of `links`.
pub open spec fn link_end(links: Seq<(usize, usize)>, x: usize) -> bool {
    exists|k: int| 0 <= k < links.len() && ((#[trigger] links[k]).0 == x || links[k].1 == x)
}

/// The member lists `lists` are the connection components of the ends of
/// `links`: each is a nonempty ascending list of link ends joined to its
/// first element, the first elements ascend and no two are joined, and
/// every link end is in one of them.
pub open spec fn components_of(links: Seq<(usize, usize)>, lists: Seq<Seq<usize>>) -> bool {
    &&& forall|k: int| 0 <= k < lists.len() ==> (#[trigger] lists[k]).len() > 0
    &&& forall|k: int, i: int, j: int| 0 <= k < lists.len() && 0 <= i < j < lists[k].len()
        ==> #[trigger] lists[k][i] < #[trigger] lists[k][j]
    &&& forall|k: int, i: int| 0 <= k < lists.len() && 0 <= i < lists[k].len()
        ==> link_end(links, #[trigger] lists[k][i]) && joined(links, lists[k][0], lists[k][i])
    &&& forall|k1: int, k2: int| 0 <= k1 < k2 < lists.len() ==> (#[trigger] lists[k1])[0] < (#[trigger] lists[k2])[0]
        && !joined(links, lists[k1][0], lists[k2][0])
    &&& forall|x: usize| #[trigger] link_end(links, x) ==> exists|k: int, i: int| 0 <= k < lists.len()
        && 0 <= i < lists[k].len() && #[trigger] lists[k][i] == x
}

/// The nodes `y` at or after `root` with `ends[y]` labelled `root`, in
/// ascending order; with `labels` giving each node a label no larger than
/// itself, these are all such nodes.
fn component_members(labels: &Vec<usize>, ends: &Vec<bool>, root: usize) -> (members: Vec<usize>)
    requires
        labels.len() == ends.len(),
        root < labels.len(),
        ends@[root as int] && labels@[root as int] == root,
        forall|y: int| 0 <= y < labels.len() ==> #[trigger] labels@[y] <= y,
    ensures
        members.len() > 0,
        members@[0] == root,
        forall|i: int, j: int| 0 <= i < j < members.len() ==> members@[i] < members@[j],
        forall|i: int| 0 <= i < members.len() ==> #[trigger] members@[i] < labels.len() && ends@[members@[i] as int]
            && labels@[members@[i] as int] == root,
        forall|z: int| 0 <= z < labels.len() && ends@[z] && labels@[z] == root ==> members@.contains(z as usize),
{
    let n = labels.len();
    let mut members: Vec<usize> = Vec::new();
    let mut y: usize = root;
    while y < n
        invariant
            root <= y <= n == labels.len() == ends.len(),
            ends@[root as int] && labels@[root as int] == root,
            members.len() > 0 ==> members@[0] == root,
            y > root ==> members.len() > 0,
            forall|i: int, j: int| 0 <= i < j < members.len() ==> members@[i] < members@[j],
            forall|i: int| 0 <= i < members.len() ==> #[trigger] members@[i] < y && ends@[members@[i] as int]
                && labels@[members@[i] as int] == root,
            forall|z: int| root <= z < y && ends@[z] && labels@[z] == root ==> members@.contains(z as usize),
        decreases n - y,
    {
        if ends[y] && labels[y] == root {
            let ghost prev = members@;
            members.push(y);
            proof {
                assert forall|z: int| root <= z < y + 1 && ends@[z] && labels@[z] == root implies
                    members@.contains(z as usize) by {
                    if z == y {
                        assert(members@[members.len() - 1] == y);
                    } else {
                        assert(prev.contains(z as usize));
                        let i = choose|i: int| 0 <= i < prev.len() && prev[i] == z as usize;
                        assert(members@[i] == prev[i]);
                    }
                }
            }
        }
        y = y + 1;
    }
    proof {
        assert forall|z: int| 0 <= z < n && ends@[z] && labels@[z] == root implies
            members@.contains(z as usize) by {
            assert(labels@[z] <= z);
        }
    }
    members
}

impl Codegen {
    /// Collapse the whole-net inout connections `links` (the parent- and
    /// child-side nets of each inout port) into resolved groups: one group
    /// per connection component, in order of the component's smallest node,
    /// each formed by `build_inout_net_group`. Returns the components.
    #[verifier::rlimit(100)]
    #[verifier::spinoff_prover]
    pub fn build_net_groups(&mut self, links: &Vec<(usize, usize)>) -> (r: Result<Vec<Vec<usize>>, String>)
        requires
            old(self).wf(),
            forall|k: int| 0 <= k < links.len() ==> (#[trigger] links@[k]).0 < old(self).nodes.len()
                && links@[k].1 < old(self).nodes.len(),
            forall|x: int, y: int| 0 <= x < y < old(self).nodes.len() && #[trigger] old(self).signals@[x] is Some
                && #[trigger] old(self).signals@[y] is Some
                ==> old(self).signals@[x]->0.ir != old(self).signals@[y]->0.ir,
        ensures
            final(self).wf(),
            r matches Ok(lists) ==> components_of(links@, lists@.map_values(|l: Vec<usize>| l@)),
            r matches Ok(lists) ==> final(self).model.net_groups.len() == old(self).model.net_groups.len() + lists.len(),
            r matches Ok(lists) ==> forall|k: int| 0 <= k < lists.len() ==> {
                let g = #[trigger] final(self).model.net_groups@[old(self).model.net_groups.len() + k];
                &&& g.c_name@ == group_name((old(self).model.net_groups.len() + k) as nat)
                &&& g.n_drivers == lists@[k].len()
            },
    {
        let n = self.nodes.len();
        let labels = inout_components(n, links);
        let mut ends: Vec<bool> = Vec::new();
        let mut x: usize = 0;
        while x < n
            invariant
                x <= n,
                ends.len() == x,
                forall|y: int| 0 <= y < x ==> !#[trigger] ends@[y],
            decreases n - x,
        {
            ends.push(false);
            x = x + 1;
        }
        let mut k: usize = 0;
        while k < links.len()
            invariant
                k <= links.len(),
                ends.len() == n,
                forall|q: int| 0 <= q < links.len() ==> (#[trigger] links@[q]).0 < n && links@[q].1 < n,
                forall|y: int| 0 <= y < n ==> (#[trigger] ends@[y] <==> exists|q: int| 0 <= q < k
                    && ((#[trigger] links@[q]).0 == y || links@[q].1 == y)),
            decreases links.len() - k,
        {
            let (a, b) = links[k];
            ends.set(a, true);
            ends.set(b, true);
            proof {
                assert forall|y: int| 0 <= y < n implies (#[trigger] ends@[y] <==> exists|q: int| 0 <= q < k + 1
                    && ((#[trigger] links@[q]).0 == y || links@[q].1 == y)) by {
                    if y == a || y == b {
                        assert(links@[k as int].0 == a && links@[k as int].1 == b);
                    }
                }
            }
            k = k + 1;
        }
        let ghost m = |v: usize| if v < n { labels@[v as int] } else { 0usize };
        assert(closed_under(links@, m));
        let ghost base = self.model.net_groups.len();
        let mut lists: Vec<Vec<usize>> = Vec::new();
        let mut root: usize = 0;
        while root < n
            invariant
                root <= n == self.nodes.len() == labels.len() == ends.len(),
                self.wf(),
                base + lists.len() == self.model.net_groups.len(),
                forall|y: int| 0 <= y < n ==> #[trigger] labels@[y] <= y,
                forall|x: int, y: int| 0 <= x < y < n && #[trigger] self.signals@[x] is Some
                    && #[trigger] self.signals@[y] is Some ==> self.signals@[x]->0.ir != self.signals@[y]->0.ir,
                forall|k: int| 0 <= k < lists.len() ==> {
                    let l = #[trigger] lists@[k]@;
                    &&& l.len() > 0
                    &&& l[0] < root
                    &&& labels@[l[0] as int] == l[0]
                    &&& forall|i: int, j: int| 0 <= i < j < l.len() ==> l[i] < l[j]
                    &&& forall|i: int| 0 <= i < l.len() ==> #[trigger] l[i] < n && ends@[l[i] as int]
                        && labels@[l[i] as int] == l[0]
                    &&& forall|y: int| 0 <= y < n && ends@[y] && labels@[y] == l[0] ==> l.contains(y as usize)
                },
                forall|k1: int, k2: int| 0 <= k1 < k2 < lists.len() ==> (#[trigger] lists@[k1])@[0]
                    < (#[trigger] lists@[k2])@[0],
                forall|r: int| 0 <= r < root && ends@[r] && labels@[r] == r ==> exists|k: int| 0 <= k < lists.len()
                    && (#[trigger] lists@[k])@[0] == r,
                forall|k: int| 0 <= k < lists.len() ==> {
                    let g = #[trigger] self.model.net_groups@[base + k];
                    &&& g.c_name@ == group_name((base + k) as nat)
                    &&& g.n_drivers == lists@[k].len()
                },
            decreases n - root,
        {
            if ends[root] && labels[root] == root {
                let members = component_members(&labels, &ends, root);
                let ghost before = *self;
                let ghost lists_before = lists@;
                match self.build_inout_net_group(&members) {
                    Ok(_) => {},
                    Err(e) => return Err(e),
                }
                proof {
                    let gidx = before.model.net_groups.len();
                    assert forall|q: int| 0 <= q < lists_before.len() implies #[trigger] self.model.net_groups@[base + q]
                        == before.model.net_groups@[base + q] by {
                        assert(self.model.net_groups@.take(gidx as int)[base + q] == self.model.net_groups@[base + q]);
                    }
                    assert forall|x: int, y: int| 0 <= x < y < n && #[trigger] self.signals@[x] is Some
                        && #[trigger] self.signals@[y] is Some implies self.signals@[x]->0.ir != self.signals@[y]->0.ir by {
                        assert(before.signals@[x] is Some && before.signals@[y] is Some);
                    }
                }
                lists.push(members);
                proof {
                    assert(lists@[lists.len() - 1]@[0] == root);
                    assert forall|r: int| 0 <= r < root + 1 && ends@[r] && labels@[r] == r implies exists|k: int|
                        0 <= k < lists.len() && (#[trigger] lists@[k])@[0] == r by {
                        if r < root {
                            let k = choose|k: int| 0 <= k < lists_before.len() && (#[trigger] lists_before[k])@[0] == r;
                            assert(lists@[k] == lists_before[k]);
                        } else {
                            assert(lists@[lists.len() - 1]@[0] == r);
                        }
                    }
                }
            }
            root = root + 1;
        }
        proof {
            let ls = lists@.map_values(|l: Vec<usize>| l@);
            assert forall|x: usize| #[trigger] link_end(links@, x) implies exists|k: int, i: int| 0 <= k < ls.len()
                && 0 <= i < ls[k].len() && #[trigger] ls[k][i] == x by {
                let q = choose|q: int| 0 <= q < links@.len() && ((#[trigger] links@[q]).0 == x || links@[q].1 == x);
                assert(x < n);
                assert(ends@[x as int]);
                let r = labels@[x as int];
                assert(labels@[r as int] == r);
                if r != x {
                    assert(joined(links@, x, r));
                    lemma_joined_end(links@, x, r);
                    let q2 = choose|q2: int| 0 <= q2 < links@.len() && ((#[trigger] links@[q2]).0 == r || links@[q2].1 == r);
                    assert(ends@[r as int]);
                }
                let k = choose|k: int| 0 <= k < lists.len() && (#[trigger] lists@[k])@[0] == r;
                assert(lists@[k]@.contains(x));
                let i = choose|i: int| 0 <= i < lists@[k]@.len() && lists@[k]@[i] == x;
                assert(ls[k][i] == x);
            }
            assert forall|k1: int, k2: int| 0 <= k1 < k2 < ls.len() implies (#[trigger] ls[k1])[0] < (#[trigger] ls[k2])[0]
                && !joined(links@, ls[k1][0], ls[k2][0]) by {
                assert(lists@[k1]@[0] < lists@[k2]@[0]);
                assert(m(ls[k1][0]) != m(ls[k2][0]));
            }
            assert forall|k: int, i: int| 0 <= k < ls.len() && 0 <= i < ls[k].len()
                implies link_end(links@, #[trigger] ls[k][i]) && joined(links@, ls[k][0], ls[k][i]) by {
                assert(labels@[lists@[k]@[i] as int] == lists@[k]@[0]);
                assert(labels@[lists@[k]@[0] as int] == lists@[k]@[0]);
            }
        }
        Ok(lists)
    }
}

} // verus!
