//! Resolved nets: structural driver slots, net kinds and true-net aliases.

use vstd::prelude::*;
use vstd::string::StringExecFns;
use crate::codegen::{Codegen, node_ok};
use crate::design::{NodeKind, ExprKind, NetType, NetGroup, IrSignal, IrModel};
use crate::text::{push_char, owned, decimal, decimal_string};

verus! {

/// The most contributions the runtime resolves on one net.
pub const LLG_MAX_NET_DRIVERS: u32 = 65535;

/// The resolution function of a resolved net.
#[derive(Clone, Copy, Debug, PartialEq, Eq, Structural)]
pub enum IrNetKind {
    Wire,
    Wand,
    Wor,
    Tri0,
    Tri1,
    Supply0,
    Supply1,
}

/// The driver id registered last for the structural site `(source, group)`.
pub open spec fn site_lookup(sites: Seq<(usize, usize, u32)>, source: usize, group: usize) -> Option<u32>
    decreases sites.len(),
{
    if sites.len() == 0 {
        None
    } else {
        let e = sites.last();
        if e.0 == source && e.1 == group {
            Some(e.2)
        } else {
            site_lookup(sites.drop_last(), source, group)
        }
    }
}

/// The driver id registered last for terminal `terminal` of `(source, group)`.
pub open spec fn terminal_lookup(sites: Seq<(usize, usize, usize, u32)>, source: usize, group: usize, terminal: usize) -> Option<u32>
    decreases sites.len(),
{
    if sites.len() == 0 {
        None
    } else {
        let e = sites.last();
        if e.0 == source && e.1 == group && e.2 == terminal {
            Some(e.3)
        } else {
            terminal_lookup(sites.drop_last(), source, group, terminal)
        }
    }
}

proof fn lemma_site_lookup_bound(sites: Seq<(usize, usize, u32)>, source: usize, group: usize, n: nat)
    requires
        forall|k: int| 0 <= k < sites.len() ==> ((#[trigger] sites[k]).2 as int) < n,
    ensures
        site_lookup(sites, source, group) matches Some(id) ==> (id as int) < n,
    decreases sites.len(),
{
    if sites.len() > 0 {
        lemma_site_lookup_bound(sites.drop_last(), source, group, n);
        assert(sites.last() == sites[sites.len() - 1]);
    }
}

proof fn lemma_terminal_lookup_bound(sites: Seq<(usize, usize, usize, u32)>, source: usize, group: usize, terminal: usize, n: nat)
    requires
        forall|k: int| 0 <= k < sites.len() ==> ((#[trigger] sites[k]).3 as int) < n,
    ensures
        terminal_lookup(sites, source, group, terminal) matches Some(id) ==> (id as int) < n,
    decreases sites.len(),
{
    if sites.len() > 0 {
        lemma_terminal_lookup_bound(sites.drop_last(), source, group, terminal, n);
        assert(sites.last() == sites[sites.len() - 1]);
    }
}

fn find_site(sites: &Vec<(usize, usize, u32)>, source: usize, group: usize) -> (r: Option<u32>)
    ensures
        r == site_lookup(sites@, source, group),
{
    let mut k = sites.len();
    assert(sites@.subrange(0, k as int) =~= sites@);
    while k > 0
        invariant
            k <= sites.len(),
            site_lookup(sites@, source, group) == site_lookup(sites@.subrange(0, k as int), source, group),
        decreases k,
    {
        assert(sites@.subrange(0, k as int).drop_last() =~= sites@.subrange(0, k - 1));
        let (a, b, id) = sites[k - 1];
        if a == source && b == group {
            return Some(id);
        }
        k = k - 1;
    }
    None
}

fn find_terminal_site(sites: &Vec<(usize, usize, usize, u32)>, source: usize, group: usize, terminal: usize) -> (r: Option<u32>)
    ensures
        r == terminal_lookup(sites@, source, group, terminal),
{
    let mut k = sites.len();
    assert(sites@.subrange(0, k as int) =~= sites@);
    while k > 0
        invariant
            k <= sites.len(),
            terminal_lookup(sites@, source, group, terminal) == terminal_lookup(sites@.subrange(0, k as int), source, group, terminal),
        decreases k,
    {
        assert(sites@.subrange(0, k as int).drop_last() =~= sites@.subrange(0, k - 1));
        let (a, b, t, id) = sites[k - 1];
        if a == source && b == group && t == terminal {
            return Some(id);
        }
        k = k - 1;
    }
    None
}

/// The resolution function of a declared net type; `trireg`, `reg` and
/// undeclared types have none.
pub open spec fn net_kind_of(net_type: NetType) -> Option<IrNetKind> {
    match net_type {
        NetType::Wire | NetType::Tri | NetType::Uwire | NetType::Logic => Some(IrNetKind::Wire),
        NetType::Wand | NetType::TriAnd => Some(IrNetKind::Wand),
        NetType::Wor | NetType::TriOr => Some(IrNetKind::Wor),
        NetType::Tri0 => Some(IrNetKind::Tri0),
        NetType::Tri1 => Some(IrNetKind::Tri1),
        NetType::Supply0 => Some(IrNetKind::Supply0),
        NetType::Supply1 => Some(IrNetKind::Supply1),
        _ => None,
    }
}

impl Codegen {
    /// The resolution function of a declared net type.
    pub fn ir_net_kind(net_type: &NetType) -> (r: Option<IrNetKind>)
        ensures
            r == net_kind_of(*net_type),
    {
        match net_type {
            NetType::Wire | NetType::Tri | NetType::Uwire | NetType::Logic => Some(IrNetKind::Wire),
            NetType::Wand | NetType::TriAnd => Some(IrNetKind::Wand),
            NetType::Wor | NetType::TriOr => Some(IrNetKind::Wor),
            NetType::Tri0 => Some(IrNetKind::Tri0),
            NetType::Tri1 => Some(IrNetKind::Tri1),
            NetType::Supply0 => Some(IrNetKind::Supply0),
            NetType::Supply1 => Some(IrNetKind::Supply1),
            _ => None,
        }
    }

    /// The driver id of terminal `terminal` of `(source, group)`; terminal
    /// zero uses the site identity itself.
    pub open spec fn driver_id(&self, source: usize, group: usize, terminal: usize) -> Option<u32> {
        if terminal == 0 {
            site_lookup(self.structural_driver_sites@, source, group)
        } else {
            terminal_lookup(self.structural_driver_terminal_sites@, source, group, terminal)
        }
    }

    /// The contribution signal of terminal `terminal` of `(source, group)`.
    pub open spec fn driver_signal(&self, source: usize, group: usize, terminal: usize) -> Option<usize> {
        match self.driver_id(source, group, terminal) {
            Some(id) => if (id as int) < self.structural_drivers.len() {
                Some(self.structural_drivers@[id as int])
            } else {
                None
            },
            None => None,
        }
    }

    /// Why terminal `terminal` of `(source, group)` gets no contribution
    /// slot.
    pub open spec fn structural_driver_problem(&self, source: usize, group: usize, terminal: usize) -> Seq<char> {
        match self.driver_id(source, group, terminal) {
            Some(id) => "structural driver "@ + decimal(id as nat) + " has no recorded signal"@,
            None => if group >= self.model.net_groups.len() {
                "structural driver references missing net group "@ + decimal(group as nat)
            } else if self.model.net_groups@[group as int].n_drivers >= LLG_MAX_NET_DRIVERS {
                "resolved net `"@ + self.model.net_groups@[group as int].c_name@
                    + "` has more structural drivers than the runtime can represent"@
            } else {
                "structural driver id space exhausted"@
            },
        }
    }

    /// Every registered site names a recorded driver.
    pub open spec fn drivers_ok(&self) -> bool {
        &&& forall|k: int| 0 <= k < self.structural_driver_sites.len()
            ==> ((#[trigger] self.structural_driver_sites@[k]).2 as int) < self.structural_drivers.len()
        &&& forall|k: int| 0 <= k < self.structural_driver_terminal_sites.len()
            ==> ((#[trigger] self.structural_driver_terminal_sites@[k]).3 as int) < self.structural_drivers.len()
    }

    /// `new` records the contribution `signal` under the next driver id and
    /// registers that id for terminal `terminal` of `(source, group)`.
    pub open spec fn site_registered(old: Codegen, new: Codegen, source: usize, group: usize, terminal: usize, signal: usize) -> bool {
        let id = old.structural_drivers.len() as u32;
        &&& old.structural_drivers.len() <= u32::MAX
        &&& new.structural_drivers@ == old.structural_drivers@.push(signal)
        &&& terminal == 0 ==> new.structural_driver_sites@ == old.structural_driver_sites@.push((source, group, id))
            && new.structural_driver_terminal_sites == old.structural_driver_terminal_sites
        &&& terminal != 0 ==> new.structural_driver_terminal_sites@
            == old.structural_driver_terminal_sites@.push((source, group, terminal, id))
            && new.structural_driver_sites == old.structural_driver_sites
    }

    /// Registering a contribution for one site makes that site's lookup
    /// return it, leaves the lookup of every other site unchanged, and keeps
    /// every registered site naming a recorded driver.
    pub proof fn law_registration_is_local(old: Codegen, new: Codegen, source: usize, group: usize, terminal: usize,
        signal: usize, other_source: usize, other_group: usize, other_terminal: usize)
        requires
            old.drivers_ok(),
            Self::site_registered(old, new, source, group, terminal, signal),
        ensures
            new.drivers_ok(),
            new.driver_signal(source, group, terminal) == Some(signal),
            (other_source, other_group, other_terminal) != (source, group, terminal)
                ==> new.driver_signal(other_source, other_group, other_terminal)
                    == old.driver_signal(other_source, other_group, other_terminal),
    {
        let n = old.structural_drivers@.len();
        assert forall|k: int| 0 <= k < new.structural_driver_sites.len()
            implies ((#[trigger] new.structural_driver_sites@[k]).2 as int) < new.structural_drivers.len() by {
            if k < old.structural_driver_sites.len() {
                assert(new.structural_driver_sites@[k] == old.structural_driver_sites@[k]);
            }
        }
        assert forall|k: int| 0 <= k < new.structural_driver_terminal_sites.len()
            implies ((#[trigger] new.structural_driver_terminal_sites@[k]).3 as int) < new.structural_drivers.len() by {
            if k < old.structural_driver_terminal_sites.len() {
                assert(new.structural_driver_terminal_sites@[k] == old.structural_driver_terminal_sites@[k]);
            }
        }
        assert(new.structural_drivers@[n as int] == signal);
        if terminal == 0 {
            assert(new.structural_driver_sites@.drop_last() == old.structural_driver_sites@);
        } else {
            assert(new.structural_driver_terminal_sites@.drop_last() == old.structural_driver_terminal_sites@);
        }
        if (other_source, other_group, other_terminal) != (source, group, terminal) {
            if other_terminal == 0 {
                lemma_site_lookup_bound(old.structural_driver_sites@, other_source, other_group, n);
            } else {
                lemma_terminal_lookup_bound(old.structural_driver_terminal_sites@, other_source, other_group, other_terminal, n);
            }
            match old.driver_id(other_source, other_group, other_terminal) {
                Some(id) => {
                    assert(new.structural_drivers@[id as int] == old.structural_drivers@[id as int]);
                },
                None => {},
            }
        }
    }

    /// Register one structural driver for `signal` under the next id.
    pub fn record_structural_driver(&mut self, signal: usize) -> (r: Result<u32, String>)
        ensures
            old(self).structural_drivers.len() <= u32::MAX ==> r == Ok::<u32, String>(old(self).structural_drivers.len() as u32)
                && final(self).structural_drivers@ == old(self).structural_drivers@.push(signal)
                && *final(self) == (Codegen { structural_drivers: final(self).structural_drivers, ..*old(self) }),
            old(self).structural_drivers.len() > u32::MAX ==> r is Err && *final(self) == *old(self),
            r matches Err(e) ==> e@ == "structural driver id space exhausted"@,
    {
        let n = self.structural_drivers.len();
        if n > 4294967295usize {
            return Err(owned("structural driver id space exhausted"));
        }
        self.structural_drivers.push(signal);
        Ok(n as u32)
    }

    /// The contribution signal of the structural site `(source, group)`.
    pub fn structural_driver_signal(&self, source: usize, group: usize) -> (r: Option<usize>)
        ensures
            r == self.driver_signal(source, group, 0),
    {
        match find_site(&self.structural_driver_sites, source, group) {
            Some(id) => if (id as usize) < self.structural_drivers.len() {
                Some(self.structural_drivers[id as usize])
            } else {
                None
            },
            None => None,
        }
    }

    /// The contribution signal of one output terminal of a structural site.
    pub fn structural_driver_signal_for_terminal(&self, source: usize, group: usize, terminal: usize) -> (r: Option<usize>)
        ensures
            r == self.driver_signal(source, group, terminal),
    {
        if terminal == 0 {
            return self.structural_driver_signal(source, group);
        }
        match find_terminal_site(&self.structural_driver_terminal_sites, source, group, terminal) {
            Some(id) => if (id as usize) < self.structural_drivers.len() {
                Some(self.structural_drivers[id as usize])
            } else {
                None
            },
            None => None,
        }
    }

    /// Whether `source` drives some resolved group structurally.
    pub fn has_structural_driver(&self, source: usize) -> (r: bool)
        ensures
            r == exists|k: int| 0 <= k < self.structural_driver_sites.len()
                && (#[trigger] self.structural_driver_sites@[k]).0 == source,
    {
        let mut k: usize = 0;
        while k < self.structural_driver_sites.len()
            invariant
                k <= self.structural_driver_sites.len(),
                forall|j: int| 0 <= j < k ==> (#[trigger] self.structural_driver_sites@[j]).0 != source,
            decreases self.structural_driver_sites.len() - k,
        {
            if self.structural_driver_sites[k].0 == source {
                return true;
            }
            k = k + 1;
        }
        false
    }

    /// `new` is `old` after adding the contribution `signal` with `strengths`
    /// to net group `group` as its driver slot `slot`.
    pub open spec fn contribution_added(old: Codegen, new: Codegen, group: usize, strengths: (u8, u8), slot: u32, signal: usize) -> bool {
        let net = old.model.net_groups@[group as int];
        &&& slot == net.n_drivers
        &&& new.model.net_groups@.len() == old.model.net_groups@.len()
        &&& forall|g: int| 0 <= g < old.model.net_groups@.len() && g != group ==> #[trigger] new.model.net_groups@[g] == old.model.net_groups@[g]
        &&& new.model.net_groups@[group as int].n_drivers == slot + 1
        &&& new.model.net_groups@[group as int].driver_strengths@ == net.driver_strengths@.push(strengths)
        &&& new.model.net_groups@[group as int] == (NetGroup {
            n_drivers: new.model.net_groups@[group as int].n_drivers,
            driver_strengths: new.model.net_groups@[group as int].driver_strengths,
            ..net
        })
        &&& signal == old.model.signals.len()
        &&& new.model.signals@.len() == signal + 1
        &&& new.model.signals@.drop_last() == old.model.signals@
        &&& new.model.signals@.last().c_name@ == net.c_name@ + seq!['.', 'r', 'e', 's', 'o', 'l', 'v', 'e', 'd']
        &&& new.model.signals@.last().width == net.width
        &&& new.model.signals@.last().signed == net.signed
        &&& !new.model.signals@.last().two_state
        &&& !new.model.signals@.last().real
        &&& !new.model.signals@.last().aliased
        &&& new.model.signals@.last().hdl_name is None
        &&& !new.model.signals@.last().omit
        &&& new.model.signals@.last().net_driver == Some((group, slot))
        &&& new.model == (IrModel { signals: new.model.signals, net_groups: new.model.net_groups, ..old.model })
    }

    /// One contribution slot per source terminal: the first registration of
    /// `(source, group, terminal)` on a group with room returns the next
    /// model signal, fills the next driver slot with `strengths` and marks
    /// that signal as the slot's driver; registering it again returns the
    /// same signal and changes nothing.
    pub proof fn law_one_slot_per_terminal(c0: Codegen, c1: Codegen, c2: Codegen, group: usize, source: usize,
        strengths: (u8, u8), strengths2: (u8, u8), terminal: usize, r1: Result<usize, String>, r2: Result<usize, String>)
        requires
            group < c0.model.net_groups.len(),
            c0.driver_id(source, group, terminal) is None,
            c0.model.net_groups@[group as int].n_drivers < LLG_MAX_NET_DRIVERS,
            c0.structural_drivers.len() <= u32::MAX,
            Self::driver_post(c0, c1, group, source, strengths, terminal, r1),
            Self::driver_post(c1, c2, group, source, strengths2, terminal, r2),
        ensures
            r1 == Ok::<usize, String>(c0.model.signals.len()),
            c1.model.net_groups@[group as int].n_drivers == c0.model.net_groups@[group as int].n_drivers + 1,
            c1.model.net_groups@[group as int].driver_strengths@
                == c0.model.net_groups@[group as int].driver_strengths@.push(strengths),
            c1.model.signals@[c0.model.signals.len() as int].net_driver
                == Some((group, c0.model.net_groups@[group as int].n_drivers)),
            r2 == r1,
            c2 == c1,
    {
        let id = c0.structural_drivers.len() as u32;
        if terminal == 0 {
            assert(site_lookup(c1.structural_driver_sites@, source, group) == Some(id));
        } else {
            assert(terminal_lookup(c1.structural_driver_terminal_sites@, source, group, terminal) == Some(id));
        }
        assert(c1.driver_id(source, group, terminal) == Some(id));
        assert(c1.structural_drivers@[id as int] == c0.model.signals.len());
    }

    /// What `add_structural_driver_for_terminal(group, source, strengths,
    /// terminal)` does from `old` to `new` with result `r`.
    pub open spec fn driver_post(old: Codegen, new: Codegen, group: usize, source: usize, strengths: (u8, u8),
        terminal: usize, r: Result<usize, String>) -> bool
    {
        &&& r matches Err(e) ==> e@ == old.structural_driver_problem(source, group, terminal)
        &&& old.driver_id(source, group, terminal) is Some ==> {
            &&& r is Ok <==> old.driver_signal(source, group, terminal) is Some
            &&& r matches Ok(sig) ==> old.driver_signal(source, group, terminal) == Some(sig)
            &&& new == old
        }
        &&& old.driver_id(source, group, terminal) is None ==> {
            &&& group >= old.model.net_groups.len() ==> r is Err && new == old
            &&& group < old.model.net_groups.len()
                && old.model.net_groups@[group as int].n_drivers >= LLG_MAX_NET_DRIVERS ==> r is Err
                && new == old
            &&& group < old.model.net_groups.len()
                && old.model.net_groups@[group as int].n_drivers < LLG_MAX_NET_DRIVERS ==> {
                let slot = old.model.net_groups@[group as int].n_drivers;
                let signal = old.model.signals.len();
                &&& Self::contribution_added(old, new, group, strengths, slot, signal)
                &&& old.structural_drivers.len() > u32::MAX ==> r is Err
                    && new == (Codegen { model: new.model, ..old })
                &&& old.structural_drivers.len() <= u32::MAX ==> {
                    let id = old.structural_drivers.len() as u32;
                    &&& r == Ok::<usize, String>(signal)
                    &&& Self::site_registered(old, new, source, group, terminal, signal)
                    &&& new.driver_signal(source, group, terminal) == Some(signal)
                    &&& new == (Codegen {
                        model: new.model,
                        structural_drivers: new.structural_drivers,
                        structural_driver_sites: new.structural_driver_sites,
                        structural_driver_terminal_sites: new.structural_driver_terminal_sites,
                        ..old
                    })
                }
            }
        }
    }

    /// Give one primitive output terminal of `source` a contribution slot of
    /// the resolved group `group`, or return the slot it already has.
    /// Terminal zero uses the plain `(source, group)` identity; later outputs
    /// get slots of their own when they share that group.
    pub fn add_structural_driver_for_terminal(&mut self, group: usize, source: usize, strengths: (u8, u8), terminal: usize)
        -> (r: Result<usize, String>)
        requires
            old(self).model.signals.len() < usize::MAX,
        ensures
            Self::driver_post(*old(self), *final(self), group, source, strengths, terminal, r),
    {
        let existing = if terminal == 0 {
            find_site(&self.structural_driver_sites, source, group)
        } else {
            find_terminal_site(&self.structural_driver_terminal_sites, source, group, terminal)
        };
        if let Some(id) = existing {
            return if (id as usize) < self.structural_drivers.len() {
                Ok(self.structural_drivers[id as usize])
            } else {
                let mut m = owned("structural driver ");
                m.append(decimal_string(id as u128).as_str());
                m.append(" has no recorded signal");
                Err(m)
            };
        }
        if group >= self.model.net_groups.len() {
            let mut m = owned("structural driver references missing net group ");
            m.append(decimal_string(group as u128).as_str());
            return Err(m);
        }
        let slot = self.model.net_groups[group].n_drivers;
        if slot >= LLG_MAX_NET_DRIVERS {
            let mut m = owned("resolved net `");
            m.append(self.model.net_groups[group].c_name.as_str());
            m.append("` has more structural drivers than the runtime can represent");
            return Err(m);
        }
        let ghost old_groups = self.model.net_groups@;
        self.model.net_groups[group].n_drivers = slot + 1;
        self.model.net_groups[group].driver_strengths.push(strengths);
        let mut c_name = self.model.net_groups[group].c_name.clone();
        c_name.append(".resolved");
        proof {
            reveal_strlit(".resolved");
            assert(c_name@ =~= old_groups[group as int].c_name@ + seq!['.', 'r', 'e', 's', 'o', 'l', 'v', 'e', 'd']);
        }
        let width = self.model.net_groups[group].width;
        let signed = self.model.net_groups[group].signed;
        let signal = self.model.signals.len();
        self.model.signals.push(IrSignal {
            c_name,
            width,
            signed,
            two_state: false,
            real: false,
            net_driver: Some((group, slot)),
            aliased: false,
            hdl_name: None,
            omit: false,
        });
        assert(self.model.signals@.drop_last() =~= old(self).model.signals@);
        let id = match self.record_structural_driver(signal) {
            Ok(id) => id,
            Err(e) => return Err(e),
        };
        if terminal == 0 {
            self.structural_driver_sites.push((source, group, id));
            assert(site_lookup(self.structural_driver_sites@, source, group) == Some(id));
        } else {
            self.structural_driver_terminal_sites.push((source, group, terminal, id));
            assert(terminal_lookup(self.structural_driver_terminal_sites@, source, group, terminal) == Some(id));
        }
        Ok(signal)
    }

    /// Give `source` a contribution slot of the resolved group `group`.
    pub fn add_structural_driver(&mut self, group: usize, source: usize, strengths: (u8, u8)) -> (r: Result<usize, String>)
        requires
            old(self).model.signals.len() < usize::MAX,
        ensures
            r matches Err(e) ==> e@ == old(self).structural_driver_problem(source, group, 0),
            old(self).driver_id(source, group, 0) is Some ==> {
                &&& r is Ok <==> old(self).driver_signal(source, group, 0) is Some
                &&& r matches Ok(sig) ==> old(self).driver_signal(source, group, 0) == Some(sig)
                &&& *final(self) == *old(self)
            },
            old(self).driver_id(source, group, 0) is None ==> {
                &&& r is Ok <==> group < old(self).model.net_groups.len()
                    && old(self).model.net_groups@[group as int].n_drivers < LLG_MAX_NET_DRIVERS
                    && old(self).structural_drivers.len() <= u32::MAX
                &&& !(group < old(self).model.net_groups.len()
                    && old(self).model.net_groups@[group as int].n_drivers < LLG_MAX_NET_DRIVERS)
                    ==> *final(self) == *old(self)
                &&& group < old(self).model.net_groups.len()
                    && old(self).model.net_groups@[group as int].n_drivers < LLG_MAX_NET_DRIVERS
                    && old(self).structural_drivers.len() > u32::MAX ==> {
                    &&& Self::contribution_added(*old(self), *final(self), group, strengths,
                        old(self).model.net_groups@[group as int].n_drivers, old(self).model.signals.len())
                    &&& *final(self) == (Codegen { model: final(self).model, ..*old(self) })
                }
                &&& r matches Ok(sig) ==> {
                    &&& Self::contribution_added(*old(self), *final(self), group, strengths,
                        old(self).model.net_groups@[group as int].n_drivers, sig)
                    &&& final(self).driver_signal(source, group, 0) == Some(sig)
                    &&& final(self).structural_drivers@ == old(self).structural_drivers@.push(sig)
                    &&& final(self).structural_driver_sites@ == old(self).structural_driver_sites@.push(
                        (source, group, old(self).structural_drivers.len() as u32))
                    &&& *final(self) == (Codegen {
                        model: final(self).model,
                        structural_drivers: final(self).structural_drivers,
                        structural_driver_sites: final(self).structural_driver_sites,
                        ..*old(self)
                    })
                }
            },
    {
        self.add_structural_driver_for_terminal(group, source, strengths, 0)
    }
}

/// How an assignment target touches a set of resolved-net members.
#[derive(Clone, Copy, Debug, PartialEq, Eq, Structural)]
pub enum MemberWrite {
    Untouched,
    Whole,
    Select,
}

pub fn contains_node(members: &Vec<usize>, x: usize) -> (r: bool)
    ensures
        r == members@.contains(x),
{
    let mut i: usize = 0;
    while i < members.len()
        invariant
            i <= members.len(),
            forall|k: int| 0 <= k < i ==> members@[k] != x,
        decreases members.len() - i,
    {
        if members[i] == x {
            assert(members@[i as int] == x);
            return true;
        }
        i = i + 1;
    }
    false
}

impl Codegen {
    /// The first of `members` whose model signal is signal `ir`.
    pub open spec fn member_with_ir(&self, members: Seq<usize>, ir: usize) -> Option<usize>
        decreases members.len(),
    {
        if members.len() == 0 {
            None
        } else {
            let m = members[0];
            if m < self.nodes.len() && (self.signals@[m as int] matches Some(s) && s.ir == ir) {
                Some(m)
            } else {
                self.member_with_ir(members.drop_first(), ir)
            }
        }
    }

    fn find_member_with_ir(&self, members: &Vec<usize>, ir: usize) -> (r: Option<usize>)
        requires
            self.wf(),
        ensures
            r == self.member_with_ir(members@, ir),
            r matches Some(m) ==> m < self.nodes.len(),
    {
        let mut i: usize = 0;
        assert(members@.skip(0) =~= members@);
        while i < members.len()
            invariant
                self.wf(),
                i <= members.len(),
                self.member_with_ir(members@, ir) == self.member_with_ir(members@.skip(i as int), ir),
            decreases members.len() - i,
        {
            assert(members@.skip(i as int).drop_first() =~= members@.skip(i + 1));
            assert(members@.skip(i as int)[0] == members@[i as int]);
            let m = members[i];
            if m < self.nodes.len() {
                if let Some(s) = &self.signals[m] {
                    if s.ir == ir {
                        return Some(m);
                    }
                }
            }
            i = i + 1;
        }
        None
    }

    /// The member a select chain or reference ultimately writes.
    pub open spec fn member_base(&self, node: int, members: Seq<usize>) -> Option<usize>
        decreases self.measure(node),
    {
        if !(0 <= node < self.len()) || !node_ok(self.nodes@, node) {
            None
        } else {
            match self.kind(node) {
                NodeKind::Net { .. } => if members.contains(node as usize) {
                    Some(node as usize)
                } else {
                    None
                },
                NodeKind::Expr(ExprKind::Ref { target: Some(t) }) => if members.contains(t) {
                    Some(t)
                } else {
                    self.member_base(t as int, members)
                },
                NodeKind::Expr(ExprKind::HierPath { refs }) => match self.hier_signal_spec(refs@) {
                    Some(sig) => self.member_with_ir(members, sig.ir),
                    None => None,
                },
                NodeKind::Expr(ExprKind::BitSelect { base, .. }) => self.member_base(base as int, members),
                NodeKind::Expr(ExprKind::PartSelect { base, .. }) => self.member_base(base as int, members),
                NodeKind::Expr(ExprKind::IndexedPartSelect { base, .. }) => self.member_base(base as int, members),
                NodeKind::Expr(ExprKind::ArraySelect { base, .. }) => self.member_base(base as int, members),
                _ => None,
            }
        }
    }

    /// The member (if any) a select chain or reference ultimately writes.
    pub fn member_write_base(&self, node: usize, members: &Vec<usize>) -> (r: Option<usize>)
        requires
            self.wf(),
            node < self.nodes.len(),
        ensures
            r == self.member_base(node as int, members@),
            r matches Some(m) ==> m < self.nodes.len(),
        decreases self.measure(node as int),
    {
        proof { self.lemma_node(node as int); }
        match &self.nodes[node].kind {
            NodeKind::Net { .. } => if contains_node(members, node) { Some(node) } else { None },
            NodeKind::Expr(ExprKind::Ref { target: Some(t) }) => if contains_node(members, *t) {
                Some(*t)
            } else {
                self.member_write_base(*t, members)
            },
            NodeKind::Expr(ExprKind::HierPath { refs }) => match self.hier_path_signal(refs) {
                Some(sig) => self.find_member_with_ir(members, sig.ir),
                None => None,
            },
            NodeKind::Expr(ExprKind::BitSelect { base, .. }) => self.member_write_base(*base, members),
            NodeKind::Expr(ExprKind::PartSelect { base, .. }) => self.member_write_base(*base, members),
            NodeKind::Expr(ExprKind::IndexedPartSelect { base, .. }) => self.member_write_base(*base, members),
            NodeKind::Expr(ExprKind::ArraySelect { base, .. }) => self.member_write_base(*base, members),
            _ => None,
        }
    }

    /// How an assignment target touches `members`.
    pub open spec fn member_write_spec(&self, lhs: int, members: Seq<usize>) -> MemberWrite {
        match self.kind(lhs) {
            NodeKind::Net { .. } => if members.contains(lhs as usize) {
                MemberWrite::Whole
            } else {
                MemberWrite::Untouched
            },
            NodeKind::Expr(ExprKind::Ref { target: Some(t) }) => if members.contains(t) {
                MemberWrite::Whole
            } else {
                MemberWrite::Untouched
            },
            NodeKind::Expr(ExprKind::BitSelect { .. }) | NodeKind::Expr(ExprKind::PartSelect { .. })
            | NodeKind::Expr(ExprKind::IndexedPartSelect { .. }) | NodeKind::Expr(ExprKind::ArraySelect { .. }) =>
                if self.member_base(lhs, members) is Some {
                    MemberWrite::Select
                } else {
                    MemberWrite::Untouched
                },
            _ => MemberWrite::Untouched,
        }
    }

    /// How an assignment target touches `members`: not at all, as a whole
    /// signal, or through a packed select.
    pub fn member_write_kind(&self, lhs: usize, members: &Vec<usize>) -> (r: MemberWrite)
        requires
            self.wf(),
            lhs < self.nodes.len(),
        ensures
            r == self.member_write_spec(lhs as int, members@),
    {
        match &self.nodes[lhs].kind {
            NodeKind::Net { .. } => if contains_node(members, lhs) { MemberWrite::Whole } else { MemberWrite::Untouched },
            NodeKind::Expr(ExprKind::Ref { target: Some(t) }) =>
                if contains_node(members, *t) { MemberWrite::Whole } else { MemberWrite::Untouched },
            NodeKind::Expr(ExprKind::BitSelect { .. }) | NodeKind::Expr(ExprKind::PartSelect { .. })
            | NodeKind::Expr(ExprKind::IndexedPartSelect { .. }) | NodeKind::Expr(ExprKind::ArraySelect { .. }) =>
                if self.member_write_base(lhs, members).is_some() { MemberWrite::Select } else { MemberWrite::Untouched },
            _ => MemberWrite::Untouched,
        }
    }

    /// A member written anywhere inside an lvalue-shaped expression,
    /// searching a node before its children.
    pub open spec fn nested_member_spec(&self, node: int, members: Seq<usize>) -> Option<usize>
        decreases self.len() - node, self.nodes@[node].children.len() + 1,
    {
        if !(0 <= node < self.len()) {
            None
        } else {
            match self.member_base(node, members) {
                Some(m) => Some(m),
                None => self.nested_member_children(node, self.nodes@[node].children@, members),
            }
        }
    }

    pub open spec fn nested_member_children(&self, node: int, list: Seq<usize>, members: Seq<usize>) -> Option<usize>
        decreases self.len() - node, list.len(),
    {
        if list.len() == 0 {
            None
        } else {
            let c = list[0];
            let first = if node < c < self.len() {
                self.nested_member_spec(c as int, members)
            } else {
                None
            };
            match first {
                Some(x) => Some(x),
                None => self.nested_member_children(node, list.drop_first(), members),
            }
        }
    }

    /// A member written anywhere inside an lvalue-shaped expression, so that
    /// checks also close over concatenations and compound actuals.
    pub fn nested_member_target(&self, node: usize, members: &Vec<usize>) -> (r: Option<usize>)
        requires
            self.wf(),
            node < self.nodes.len(),
        ensures
            r == self.nested_member_spec(node as int, members@),
            r matches Some(m) ==> m < self.nodes.len(),
        decreases self.nodes.len() - node, self.nodes@[node as int].children.len() + 1,
    {
        if let Some(m) = self.member_write_base(node, members) {
            return Some(m);
        }
        self.nested_member_in_children(node, &self.nodes[node].children, members)
    }

    fn nested_member_in_children(&self, node: usize, list: &Vec<usize>, members: &Vec<usize>) -> (r: Option<usize>)
        requires
            self.wf(),
            node < self.nodes.len(),
            list@ == self.nodes@[node as int].children@,
        ensures
            r == self.nested_member_children(node as int, list@, members@),
            r matches Some(m) ==> m < self.nodes.len(),
        decreases self.nodes.len() - node, list.len(),
    {
        proof { self.lemma_node(node as int); }
        let mut i: usize = 0;
        assert(list@.skip(0) =~= list@);
        while i < list.len()
            invariant
                self.wf(),
                node < self.nodes.len(),
                list@ == self.nodes@[node as int].children@,
                node_ok(self.nodes@, node as int),
                i <= list.len(),
                self.nested_member_children(node as int, list@, members@)
                    == self.nested_member_children(node as int, list@.skip(i as int), members@),
            decreases list.len() - i,
        {
            assert(list@.skip(i as int).drop_first() =~= list@.skip(i + 1));
            assert(list@.skip(i as int)[0] == list@[i as int]);
            let c = list[i];
            if let Some(x) = self.nested_member_target(c, members) {
                return Some(x);
            }
            i = i + 1;
        }
        None
    }
}

impl Codegen {
    /// `(formal, member)` of the first output or inout formal, from position
    /// `i` on, whose actual among `args` writes a member.
    pub open spec fn out_member_from(&self, formals: Seq<(usize, bool)>, args: Seq<usize>, members: Seq<usize>, i: int)
        -> Option<(usize, usize)>
        decreases formals.len() - i,
    {
        if i < 0 || i >= formals.len() {
            None
        } else {
            let (io, is_out) = formals[i];
            let hit = if is_out && i < args.len() && args[i] < self.nodes.len() {
                self.nested_member_spec(args[i] as int, members)
            } else {
                None
            };
            match hit {
                Some(m) => Some((io, m)),
                None => self.out_member_from(formals, args, members, i + 1),
            }
        }
    }

    /// `(formal, member)` when a task call binds an output or inout formal to
    /// an actual that writes a member.
    pub open spec fn task_member_spec(&self, call: int, members: Seq<usize>) -> Option<(usize, usize)> {
        match self.kind(call) {
            NodeKind::FuncCall { callee: Some(ft), .. } => if ft < self.nodes.len() && self.func_info_spec(ft as int) is Ok {
                self.out_member_from(self.formals_spec(self.nodes@[ft as int].children@), self.nodes@[call].children@, members, 0)
            } else {
                None
            },
            _ => None,
        }
    }

    /// Whether a task call binds an output or inout formal to a member:
    /// such actuals become pointers in the emitted C and would write the
    /// resolved cell directly, bypassing resolution.
    pub fn task_actual_member_write(&self, call: usize, members: &Vec<usize>) -> (r: Option<String>)
        requires
            self.wf(),
            call < self.nodes.len(),
        ensures
            r is Some <==> self.task_member_spec(call as int, members@) is Some,
    {
        proof { self.lemma_node(call as int); }
        let ft = match &self.nodes[call].kind {
            NodeKind::FuncCall { callee: Some(ft), .. } => *ft,
            _ => return None,
        };
        let formals = match self.func_info(ft, call) {
            Ok((_, _, formals)) => formals,
            Err(_) => return None,
        };
        let args = &self.nodes[call].children;
        let mut idx: usize = 0;
        while idx < formals.len()
            invariant
                self.wf(),
                call < self.nodes.len(),
                node_ok(self.nodes@, call as int),
                args@ == self.nodes@[call as int].children@,
                self.task_member_spec(call as int, members@) == self.out_member_from(formals@, args@, members@, 0),
                idx <= formals.len(),
                forall|k: int| 0 <= k < formals.len() ==> #[trigger] formals@[k].0 < self.nodes.len(),
                self.out_member_from(formals@, args@, members@, 0) == self.out_member_from(formals@, args@, members@, idx as int),
            decreases formals.len() - idx,
        {
            let (io, is_out) = formals[idx];
            if is_out && idx < args.len() {
                let arg = args[idx];
                if let Some(m) = self.nested_member_target(arg, members) {
                    let mut msg = owned("task output/inout actual `");
                    msg.append(self.nodes[io].name.as_str());
                    msg.append("` on member `");
                    msg.append(self.display_name(m).as_str());
                    push_char(&mut msg, '`');
                    return Some(msg);
                }
            }
            idx = idx + 1;
        }
        None
    }

    /// The first child of a node: the target of an assignment.
    pub open spec fn first_child(&self, id: int) -> Option<usize> {
        if self.nodes@[id].children.len() > 0 {
            Some(self.nodes@[id].children@[0])
        } else {
            None
        }
    }

    /// Whether node `id` writes a member in a way a resolved inout group
    /// cannot support: a dynamic select in a continuous assignment, any
    /// select in a blocking assignment, any nonblocking write, or a task
    /// actual.
    pub open spec fn member_violation(&self, id: int, members: Seq<usize>) -> bool {
        match self.kind(id) {
            NodeKind::ContAssign { .. } => match self.first_child(id) {
                Some(lhs) => self.member_write_spec(lhs as int, members) == MemberWrite::Select
                    && !self.selects_constant(lhs as int),
                None => false,
            },
            NodeKind::Stmt(crate::design::StmtKind::Assign { blocking, .. }) => match self.first_child(id) {
                Some(lhs) => if blocking {
                    self.member_write_spec(lhs as int, members) == MemberWrite::Select
                } else {
                    self.member_base(lhs as int, members) is Some
                },
                None => false,
            },
            NodeKind::FuncCall { is_task, .. } => is_task && self.task_member_spec(id, members) is Some,
            _ => false,
        }
    }

    /// The reason a candidate inout-net group cannot be supported, from a
    /// design-wide scan of every write targeting its members. Constant
    /// selects in continuous drivers are admitted; procedural and dynamic
    /// writes fail closed.
    pub fn unsupported_member_write(&self, members: &Vec<usize>) -> (r: Option<String>)
        requires
            self.wf(),
        ensures
            r is Some <==> exists|id: int| 0 <= id < self.len() && #[trigger] self.member_violation(id, members@),
    {
        let mut id: usize = 0;
        while id < self.nodes.len()
            invariant
                self.wf(),
                id <= self.nodes.len(),
                forall|j: int| 0 <= j < id ==> !#[trigger] self.member_violation(j, members@),
            decreases self.nodes.len() - id,
        {
            proof { self.lemma_node(id as int); }
            let first = if self.nodes[id].children.len() > 0 { Some(self.nodes[id].children[0]) } else { None };
            match &self.nodes[id].kind {
                NodeKind::ContAssign { .. } => if let Some(lhs) = first {
                    if self.member_write_kind(lhs, members) == MemberWrite::Select
                        && !self.net_lvalue_selects_are_constant(lhs) {
                        assert(self.member_violation(id as int, members@));
                        let base = match self.member_write_base(lhs, members) {
                            Some(b) => b,
                            None => lhs,
                        };
                        let mut msg = owned("dynamic bit/part/select LHS on member `");
                        msg.append(self.display_name(base).as_str());
                        push_char(&mut msg, '`');
                        return Some(msg);
                    }
                },
                NodeKind::Stmt(crate::design::StmtKind::Assign { blocking, .. }) => if let Some(lhs) = first {
                    if *blocking {
                        if self.member_write_kind(lhs, members) == MemberWrite::Select {
                            assert(self.member_violation(id as int, members@));
                            let base = match self.member_write_base(lhs, members) {
                                Some(b) => b,
                                None => lhs,
                            };
                            let mut msg = owned("bit/part/select LHS on member `");
                            msg.append(self.display_name(base).as_str());
                            push_char(&mut msg, '`');
                            return Some(msg);
                        }
                    } else if let Some(member) = self.member_write_base(lhs, members) {
                        assert(self.member_violation(id as int, members@));
                        let mut msg = owned("nonblocking assignment to member `");
                        msg.append(self.display_name(member).as_str());
                        push_char(&mut msg, '`');
                        return Some(msg);
                    }
                },
                NodeKind::FuncCall { is_task: true, .. } => {
                    if let Some(reason) = self.task_actual_member_write(id, members) {
                        assert(self.member_violation(id as int, members@));
                        return Some(reason);
                    }
                },
                _ => {},
            }
            assert(!self.member_violation(id as int, members@));
            id = id + 1;
        }
        None
    }
}

impl Codegen {
    /// A diagnostic about the net alias `alias`, located at its source.
    pub fn alias_error(&self, alias: usize, message: &str) -> (r: String)
        requires
            self.wf(),
            alias < self.nodes.len(),
        ensures
            r@ == self.alias_message(alias as int, message@),
    {
        let mut m = owned("net alias `");
        m.append(self.display_name(alias).as_str());
        m.append("` ");
        m.append(message);
        m.append(" at ");
        m.append(self.source_location(alias).as_str());
        proof {
            reveal_strlit("net alias `");
            reveal_strlit("` ");
            reveal_strlit(" at ");
        }
        assert(m@ =~= seq!['n', 'e', 't', ' ', 'a', 'l', 'i', 'a', 's', ' ', '`'] + self.display_name_spec(alias as int)
            + seq!['`', ' '] + message@ + seq![' ', 'a', 't', ' '] + self.location_text(alias as int));
        m
    }

    /// The first node, from `i` on, whose model signal is signal `ir`.
    pub open spec fn node_with_ir_from(&self, ir: usize, i: int) -> Option<usize>
        decreases self.len() - i,
    {
        if i < 0 || i >= self.len() {
            None
        } else if self.signals@[i] matches Some(s) && s.ir == ir {
            Some(i as usize)
        } else {
            self.node_with_ir_from(ir, i + 1)
        }
    }

    fn node_with_ir(&self, ir: usize) -> (r: Option<usize>)
        requires
            self.wf(),
        ensures
            r == self.node_with_ir_from(ir, 0),
            r matches Some(t) ==> t < self.nodes.len(),
    {
        let mut i: usize = 0;
        while i < self.nodes.len()
            invariant
                self.wf(),
                i <= self.nodes.len(),
                self.node_with_ir_from(ir, 0) == self.node_with_ir_from(ir, i as int),
            decreases self.nodes.len() - i,
        {
            if let Some(s) = &self.signals[i] {
                if s.ir == ir {
                    return Some(i);
                }
            }
            i = i + 1;
        }
        None
    }

    /// The plain net an alias operand names, through references, casts and
    /// hierarchical paths.
    pub open spec fn alias_base_spec(&self, e: int) -> Option<usize>
        decreases self.measure(e),
    {
        if !(0 <= e < self.len()) || !node_ok(self.nodes@, e) {
            None
        } else {
            match self.kind(e) {
                NodeKind::Net { .. } => Some(e as usize),
                NodeKind::Expr(ExprKind::Ref { target: Some(t) }) => self.alias_base_spec(t as int),
                NodeKind::Expr(ExprKind::HierPath { refs }) => match self.hier_signal_spec(refs@) {
                    Some(info) => self.node_with_ir_from(info.ir, 0),
                    None => None,
                },
                NodeKind::Expr(ExprKind::Cast { operand, .. }) => self.alias_base_spec(operand as int),
                _ => None,
            }
        }
    }

    /// Why an alias operand names no plain net.
    pub open spec fn alias_base_problem(&self, e: int) -> Seq<char>
        decreases self.measure(e),
    {
        if !(0 <= e < self.len()) || !node_ok(self.nodes@, e) {
            "does not reference a plain net"@
        } else {
            match self.kind(e) {
                NodeKind::Expr(ExprKind::Ref { target: Some(t) }) => self.alias_base_problem(t as int),
                NodeKind::Expr(ExprKind::HierPath { .. }) => "has an unresolved hierarchical net"@,
                NodeKind::Expr(ExprKind::Cast { operand, .. }) => self.alias_base_problem(operand as int),
                NodeKind::Expr(ExprKind::Ref { target: None }) => "has an unresolved net expression"@,
                _ => "does not reference a plain net"@,
            }
        }
    }

    /// The plain net an alias operand names.
    pub fn alias_base_net(&self, alias: usize, expression: usize) -> (r: Result<usize, String>)
        requires
            self.wf(),
            alias < self.nodes.len(),
            expression < self.nodes.len(),
        ensures
            r is Ok <==> self.alias_base_spec(expression as int) is Some,
            r matches Ok(net) ==> self.alias_base_spec(expression as int) == Some(net),
            r matches Err(m) ==> m@ == self.alias_message(alias as int, self.alias_base_problem(expression as int)),
        decreases self.measure(expression as int),
    {
        proof { self.lemma_node(expression as int); }
        match &self.nodes[expression].kind {
            NodeKind::Net { .. } => Ok(expression),
            NodeKind::Expr(ExprKind::Ref { target: Some(t) }) => self.alias_base_net(alias, *t),
            NodeKind::Expr(ExprKind::HierPath { refs }) => {
                let found = match self.hier_path_signal(refs) {
                    Some(info) => self.node_with_ir(info.ir),
                    None => None,
                };
                match found {
                    Some(t) => Ok(t),
                    None => Err(self.alias_error(alias, "has an unresolved hierarchical net")),
                }
            },
            NodeKind::Expr(ExprKind::Cast { operand, .. }) => self.alias_base_net(alias, *operand),
            NodeKind::Expr(ExprKind::Ref { target: None }) => Err(self.alias_error(alias, "has an unresolved net expression")),
            _ => Err(self.alias_error(alias, "does not reference a plain net")),
        }
    }

    /// Whether a model signal takes part in a true net alias.
    pub open spec fn signal_aliased(&self, ir: usize) -> bool {
        ir < self.model.signals.len() && self.model.signals@[ir as int].aliased
    }

    /// Whether an expression is rooted in a net that takes part in a true
    /// alias.
    pub open spec fn touches_alias(&self, e: int) -> bool
        decreases self.measure(e), 1int,
    {
        if !(0 <= e < self.len()) || !node_ok(self.nodes@, e) {
            false
        } else {
            match self.kind(e) {
                NodeKind::Net { .. } => self.signals@[e] matches Some(info) && self.signal_aliased(info.ir),
                NodeKind::Expr(ExprKind::Ref { target: Some(t) }) => self.touches_alias(t as int),
                NodeKind::Expr(ExprKind::HierPath { refs }) =>
                    self.hier_signal_spec(refs@) matches Some(info) && self.signal_aliased(info.ir),
                NodeKind::Expr(ExprKind::BitSelect { base, .. }) => self.touches_alias(base as int),
                NodeKind::Expr(ExprKind::PartSelect { base, .. }) => self.touches_alias(base as int),
                NodeKind::Expr(ExprKind::IndexedPartSelect { base, .. }) => self.touches_alias(base as int),
                NodeKind::Expr(ExprKind::Concat { operands, .. }) => self.any_touches_alias(e, operands@, 0),
                NodeKind::Expr(ExprKind::MultiConcat { operands }) => self.any_touches_alias(e, operands@, 1),
                NodeKind::Expr(ExprKind::Cast { operand, .. }) => self.touches_alias(operand as int),
                _ => false,
            }
        }
    }

    /// Whether an operand of `e` from position `i` on touches an alias.
    pub open spec fn any_touches_alias(&self, e: int, operands: Seq<usize>, i: int) -> bool
        decreases self.measure(e), 0int, operands.len() - i,
    {
        if i < 0 || i >= operands.len() {
            false
        } else {
            let o = operands[i];
            (e < o < self.len() && self.measure(o as int) < self.measure(e) && self.touches_alias(o as int))
                || self.any_touches_alias(e, operands, i + 1)
        }
    }

    /// Whether an expression is rooted in a net that takes part in a true
    /// alias, so that an unsupported alias lvalue is rejected rather than
    /// written as a raw signal.
    pub fn expression_may_touch_alias(&self, expression: usize) -> (r: bool)
        requires
            self.wf(),
            expression < self.nodes.len(),
        ensures
            r == self.touches_alias(expression as int),
        decreases self.measure(expression as int), 1int, 0int,
    {
        proof { self.lemma_node(expression as int); }
        match &self.nodes[expression].kind {
            NodeKind::Net { .. } => match &self.signals[expression] {
                Some(info) => info.ir < self.model.signals.len() && self.model.signals[info.ir].aliased,
                None => false,
            },
            NodeKind::Expr(ExprKind::Ref { target: Some(t) }) => self.expression_may_touch_alias(*t),
            NodeKind::Expr(ExprKind::HierPath { refs }) => match self.hier_path_signal(refs) {
                Some(info) => info.ir < self.model.signals.len() && self.model.signals[info.ir].aliased,
                None => false,
            },
            NodeKind::Expr(ExprKind::BitSelect { base, .. }) => self.expression_may_touch_alias(*base),
            NodeKind::Expr(ExprKind::PartSelect { base, .. }) => self.expression_may_touch_alias(*base),
            NodeKind::Expr(ExprKind::IndexedPartSelect { base, .. }) => self.expression_may_touch_alias(*base),
            NodeKind::Expr(ExprKind::Concat { operands, .. }) => self.any_operand_touches(expression, operands, 0),
            NodeKind::Expr(ExprKind::MultiConcat { operands }) => self.any_operand_touches(expression, operands, 1),
            NodeKind::Expr(ExprKind::Cast { operand, .. }) => self.expression_may_touch_alias(*operand),
            _ => false,
        }
    }

    fn any_operand_touches(&self, e: usize, operands: &Vec<usize>, start: usize) -> (r: bool)
        requires
            self.wf(),
            e < self.nodes.len(),
            is_chain_expr(self, e as int),
            forall|k: int| 0 <= k < operands.len() ==> e < #[trigger] operands@[k] < self.nodes.len(),
        ensures
            r == self.any_touches_alias(e as int, operands@, start as int),
        decreases self.measure(e as int), 0int, operands.len() - start,
    {
        let mut i = start;
        while i < operands.len()
            invariant
                self.wf(),
                e < self.nodes.len(),
                is_chain_expr(self, e as int),
                forall|k: int| 0 <= k < operands.len() ==> e < #[trigger] operands@[k] < self.nodes.len(),
                start <= i,
                self.any_touches_alias(e as int, operands@, start as int) == self.any_touches_alias(e as int, operands@, i as int),
            decreases operands.len() - i,
        {
            let o = operands[i];
            if self.expression_may_touch_alias(o) {
                return true;
            }
            i = i + 1;
        }
        false
    }
}

/// Whether node `e` is a chained expression (its measure is positive).
pub open spec fn is_chain_expr(cg: &Codegen, e: int) -> bool {
    crate::design::is_chain(cg.kind(e))
}


/// One bit of a net taking part in a net alias.
#[derive(Clone, Copy, Debug, PartialEq, Eq, Structural)]
pub struct AliasBit {
    pub net: usize,
    pub bit: u32,
}

impl Codegen {
    /// The diagnostic `net alias `<name>` <message> at <location>`.
    pub open spec fn alias_message(&self, alias: int, message: Seq<char>) -> Seq<char> {
        seq!['n', 'e', 't', ' ', 'a', 'l', 'i', 'a', 's', ' ', '`'] + self.display_name_spec(alias)
            + seq!['`', ' '] + message + seq![' ', 'a', 't', ' '] + self.location_text(alias)
    }

    /// The width of net `net`: its lowered signal's, else its declared
    /// width (one bit when undeclared); `None` for a node that is no net.
    pub open spec fn alias_net_width(&self, net: int) -> Option<u32> {
        match self.kind(net) {
            NodeKind::Net { ty, .. } => Some(match self.signals@[net] {
                Some(sig) => sig.width,
                None => match ty.width {
                    Some(w) => w,
                    None => 1u32,
                },
            }),
            _ => None,
        }
    }

    /// The alias bit at packed position `relative` (counted from the least
    /// significant bit of net `net`'s packed range).
    pub fn alias_bit(&self, alias: usize, net: usize, relative: i128) -> (r: Result<AliasBit, String>)
        requires
            self.wf(),
            alias < self.nodes.len(),
            net < self.nodes.len(),
        ensures
            r is Ok <==> (0 <= relative <= u32::MAX && (self.alias_net_width(net as int) matches Some(w) && relative < w)),
            (0 <= relative <= u32::MAX && self.alias_net_width(net as int) is None) ==> (r matches Err(m)
                && m@ == self.alias_message(alias as int, "does not reference a plain net"@)),
            (0 <= relative <= u32::MAX && (self.alias_net_width(net as int) matches Some(w) && relative >= w))
                ==> (r matches Err(m) && m@ == self.alias_message(alias as int, "has a packed bit index outside its net"@)),
            r matches Ok(b) ==> b == (AliasBit { net, bit: relative as u32 }),
            (relative < 0 || relative > u32::MAX) ==> (r matches Err(m)
                && m@ == self.alias_message(alias as int, "has a packed bit index outside the runtime range"@)),
    {
        if relative < 0 || relative > 0xffff_ffff {
            return Err(self.alias_error(alias, "has a packed bit index outside the runtime range"));
        }
        let bit = relative as u32;
        let width = match &self.nodes[net].kind {
            NodeKind::Net { ty, .. } => match &self.signals[net] {
                Some(sig) => sig.width,
                None => match ty.width {
                    Some(w) => w,
                    None => 1,
                },
            },
            _ => return Err(self.alias_error(alias, "does not reference a plain net")),
        };
        if bit >= width {
            return Err(self.alias_error(alias, "has a packed bit index outside its net"));
        }
        Ok(AliasBit { net, bit })
    }
}

impl Codegen {
    /// Whether declaration `id` already belongs to a resolved or aliased
    /// group.
    pub open spec fn grouped_member(&self, id: usize) -> bool {
        &&& id < self.nodes.len()
        &&& self.signals@[id as int] matches Some(info)
        &&& info.ir < self.model.signals.len()
        &&& (self.model.signals@[info.ir as int].net_driver is Some || self.model.signals@[info.ir as int].aliased)
    }

    /// The wired-net kind that declaration `id` forms on its own, if any:
    /// plain wires outside interfaces that are not yet collapsed, and every
    /// wired-logic, pulled and supply net, unless already grouped.
    pub open spec fn standalone_net_kind(&self, id: usize) -> Option<IrNetKind> {
        if id >= self.nodes.len() {
            None
        } else {
            match self.kind(id as int) {
                NodeKind::Net { net_type, .. } => {
                    let grouped = self.grouped_member(id);
                    match net_type {
                        NetType::Wire | NetType::Tri | NetType::Uwire | NetType::Logic => {
                            let in_interface = self.nodes@[id as int].parent matches Some(p)
                                && p < self.nodes.len()
                                && (self.kind(p as int) matches NodeKind::ModuleInst { is_interface: true, .. });
                            let collapsed = self.signals@[id as int] matches Some(info)
                                && self.model.signals@[info.ir as int].net_driver is Some;
                            if !in_interface && !collapsed && !grouped { Some(IrNetKind::Wire) } else { None }
                        },
                        NetType::Wand | NetType::TriAnd => if !grouped { Some(IrNetKind::Wand) } else { None },
                        NetType::Wor | NetType::TriOr => if !grouped { Some(IrNetKind::Wor) } else { None },
                        NetType::Tri0 => if !grouped { Some(IrNetKind::Tri0) } else { None },
                        NetType::Tri1 => if !grouped { Some(IrNetKind::Tri1) } else { None },
                        NetType::Supply0 => if !grouped { Some(IrNetKind::Supply0) } else { None },
                        NetType::Supply1 => if !grouped { Some(IrNetKind::Supply1) } else { None },
                        _ => None,
                    }
                },
                _ => None,
            }
        }
    }

    /// The standalone wired nets among the first `k` of `nodes`, in order.
    pub open spec fn standalone_nets_upto(&self, nodes: Seq<usize>, k: int) -> Seq<(usize, IrNetKind)>
        decreases k,
    {
        if k <= 0 {
            Seq::empty()
        } else {
            let prev = self.standalone_nets_upto(nodes, k - 1);
            match self.standalone_net_kind(nodes[k - 1]) {
                Some(kind) => prev.push((nodes[k - 1], kind)),
                None => prev,
            }
        }
    }

    /// A plain wire's scalar storage, when it has one, names a model signal.
    pub open spec fn wire_storage_ok(&self, id: usize) -> bool {
        (id < self.nodes.len() && (self.kind(id as int) matches NodeKind::Net { net_type, .. }
            && (net_type == NetType::Wire || net_type == NetType::Tri || net_type == NetType::Uwire
                || net_type == NetType::Logic))
            && self.signals@[id as int] matches Some(info)) ==> self.signals@[id as int]->0.ir < self.model.signals.len()
    }

    fn grouped(&self, id: usize) -> (r: bool)
        requires
            self.wf(),
            id < self.nodes.len(),
        ensures
            r == self.grouped_member(id),
    {
        match &self.signals[id] {
            Some(info) => if info.ir < self.model.signals.len() {
                self.model.signals[info.ir].net_driver.is_some() || self.model.signals[info.ir].aliased
            } else {
                false
            },
            None => false,
        }
    }

    /// The nets of `nodes` that become wired net groups of their own, with
    /// their resolution kind, in the order of `nodes`: the first phase of
    /// building the wired net groups.
    pub fn wired_net_candidates(&self, nodes: &Vec<usize>) -> (r: Vec<(usize, IrNetKind)>)
        requires
            self.wf(),
            forall|k: int| 0 <= k < nodes.len() ==> #[trigger] self.wire_storage_ok(nodes@[k]),
        ensures
            r@ == self.standalone_nets_upto(nodes@, nodes.len() as int),
            forall|i: int| 0 <= i < r.len() ==> (self.kind((#[trigger] r@[i]).0 as int) matches NodeKind::Net { net_type, .. }
                && net_kind_of(net_type) == Some(r@[i].1)),
    {
        proof {
            self.law_candidates_keep_declared_kind(nodes@, nodes.len() as int);
        }
        let mut out: Vec<(usize, IrNetKind)> = Vec::new();
        let mut k: usize = 0;
        while k < nodes.len()
            invariant
                self.wf(),
                k <= nodes.len(),
                forall|q: int| 0 <= q < nodes.len() ==> #[trigger] self.wire_storage_ok(nodes@[q]),
                out@ == self.standalone_nets_upto(nodes@, k as int),
            decreases nodes.len() - k,
        {
            let id = nodes[k];
            assert(self.wire_storage_ok(nodes@[k as int]));
            let kind: Option<IrNetKind> = if id >= self.nodes.len() {
                None
            } else {
                match &self.nodes[id].kind {
                    NodeKind::Net { net_type, .. } => {
                        let grouped = self.grouped(id);
                        match net_type {
                            NetType::Wire | NetType::Tri | NetType::Uwire | NetType::Logic => {
                                let in_interface = match self.nodes[id].parent {
                                    Some(p) => p < self.nodes.len() && match &self.nodes[p].kind {
                                        NodeKind::ModuleInst { is_interface: true, .. } => true,
                                        _ => false,
                                    },
                                    None => false,
                                };
                                let collapsed = match &self.signals[id] {
                                    Some(info) => self.model.signals[info.ir].net_driver.is_some(),
                                    None => false,
                                };
                                if !in_interface && !collapsed && !grouped { Some(IrNetKind::Wire) } else { None }
                            },
                            NetType::Wand | NetType::TriAnd => if !grouped { Some(IrNetKind::Wand) } else { None },
                            NetType::Wor | NetType::TriOr => if !grouped { Some(IrNetKind::Wor) } else { None },
                            NetType::Tri0 => if !grouped { Some(IrNetKind::Tri0) } else { None },
                            NetType::Tri1 => if !grouped { Some(IrNetKind::Tri1) } else { None },
                            NetType::Supply0 => if !grouped { Some(IrNetKind::Supply0) } else { None },
                            NetType::Supply1 => if !grouped { Some(IrNetKind::Supply1) } else { None },
                            _ => None,
                        }
                    },
                    _ => None,
                }
            };
            assert(kind == self.standalone_net_kind(id));
            if let Some(kd) = kind {
                out.push((id, kd));
            }
            k = k + 1;
        }
        out
    }
}

/// The resolution kind each declared net type names: `wire`, `tri`,
/// `uwire` and `logic` nets resolve as wires, `wand`/`triand` as wired-and,
/// `wor`/`trior` as wired-or, `tri0`, `tri1`, `supply0`, `supply1` as
/// themselves, and no other net type resolves.
pub proof fn law_net_kind_table(t: NetType)
    ensures
        (t == NetType::Wire || t == NetType::Tri || t == NetType::Uwire || t == NetType::Logic)
            ==> net_kind_of(t) == Some(IrNetKind::Wire),
        (t == NetType::Wand || t == NetType::TriAnd) ==> net_kind_of(t) == Some(IrNetKind::Wand),
        (t == NetType::Wor || t == NetType::TriOr) ==> net_kind_of(t) == Some(IrNetKind::Wor),
        t == NetType::Tri0 ==> net_kind_of(t) == Some(IrNetKind::Tri0),
        t == NetType::Tri1 ==> net_kind_of(t) == Some(IrNetKind::Tri1),
        t == NetType::Supply0 ==> net_kind_of(t) == Some(IrNetKind::Supply0),
        t == NetType::Supply1 ==> net_kind_of(t) == Some(IrNetKind::Supply1),
        (t == NetType::TriReg || t == NetType::Reg || t == NetType::Undeclared || t == NetType::Unsupported)
            ==> net_kind_of(t) is None,
{
}

impl Codegen {
    /// A net that forms a wired group on its own resolves with the kind its
    /// declared net type names.
    pub proof fn law_standalone_kind_is_declared(&self, id: usize)
        ensures
            self.standalone_net_kind(id) matches Some(k) ==> self.kind(id as int) matches NodeKind::Net { net_type, .. }
                && net_kind_of(net_type) == Some(k),
    {
    }

    /// Every candidate `wired_net_candidates` lists carries the kind its
    /// declared net type names.
    pub proof fn law_candidates_keep_declared_kind(&self, nodes: Seq<usize>, k: int)
        ensures
            forall|i: int| 0 <= i < self.standalone_nets_upto(nodes, k).len() ==> {
                let e = #[trigger] self.standalone_nets_upto(nodes, k)[i];
                self.kind(e.0 as int) matches NodeKind::Net { net_type, .. } && net_kind_of(net_type) == Some(e.1)
            },
        decreases k,
    {
        if k > 0 {
            self.law_candidates_keep_declared_kind(nodes, k - 1);
            self.law_standalone_kind_is_declared(nodes[k - 1]);
        }
    }
}

} // verus!
