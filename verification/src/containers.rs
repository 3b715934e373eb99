//! Resizable containers: which container an expression denotes, element
//! paths through nested containers, and element types by depth.

use vstd::prelude::*;
use vstd::string::StringExecFns;
use crate::codegen::{Codegen, ContainerInfo, node_ok};
use crate::design::{NodeKind, ExprKind, IrContainerKind, IrContainerElement, IrAssocKey};

verus! {

/// The element type `depth` levels into a container whose elements are `e`.
pub open spec fn element_at(e: IrContainerElement, depth: int) -> Option<IrContainerElement>
    decreases depth,
{
    if depth <= 1 {
        Some(e)
    } else {
        match e {
            IrContainerElement::Container { element, .. } => element_at(*element, depth - 1),
            _ => None,
        }
    }
}

impl Codegen {
    /// Every container a declaration holds is a container of the model.
    pub open spec fn containers_ok(&self) -> bool {
        forall|n: int| 0 <= n < self.containers.len() ==> (#[trigger] self.containers@[n] matches Some(c)
            ==> c.ir < self.model.containers.len())
    }

    /// Whether an index denotes the unbounded `$`, directly or through a
    /// parameter reference.
    pub open spec fn unbounded_spec(&self, node: int) -> bool
        decreases self.measure(node),
    {
        if !(0 <= node < self.len()) || !node_ok(self.nodes@, node) {
            false
        } else {
            match self.kind(node) {
                NodeKind::Expr(ExprKind::Unbounded) => true,
                NodeKind::Expr(ExprKind::Ref { target: Some(t) }) => self.unbounded_spec(t as int),
                _ => false,
            }
        }
    }

    pub fn is_unbounded_node(&self, node: usize) -> (r: bool)
        requires
            self.wf(),
            node < self.nodes.len(),
        ensures
            r == self.unbounded_spec(node as int),
        decreases self.measure(node as int),
    {
        proof { self.lemma_node(node as int); }
        match &self.nodes[node].kind {
            NodeKind::Expr(ExprKind::Unbounded) => true,
            NodeKind::Expr(ExprKind::Ref { target: Some(t) }) => self.is_unbounded_node(*t),
            _ => false,
        }
    }

    /// The container an expression denotes: that of an array declaration,
    /// of a reference's target, of the first (else last) resolved component
    /// of a hierarchical path, or of the left side of an assignment.
    pub open spec fn container_spec(&self, node: int) -> Option<ContainerInfo>
        decreases self.measure(node),
    {
        if !(0 <= node < self.len()) || !node_ok(self.nodes@, node) {
            None
        } else {
            match self.kind(node) {
                NodeKind::Array { .. } => self.containers@[node],
                NodeKind::Expr(ExprKind::Ref { target: Some(t) }) => self.containers@[t as int],
                NodeKind::Expr(ExprKind::HierPath { refs }) => {
                    let pick = if refs.len() > 0 && refs@[0] is Some {
                        refs@[0]
                    } else if refs.len() > 0 {
                        refs@.last()
                    } else {
                        None
                    };
                    match pick {
                        Some(t) => self.containers@[t as int],
                        None => None,
                    }
                },
                NodeKind::Expr(ExprKind::Assignment { operands }) => if operands.len() > 0 {
                    self.container_spec(operands@[0] as int)
                } else {
                    None
                },
                _ => None,
            }
        }
    }

    pub fn container_of(&self, node: usize) -> (r: Option<ContainerInfo>)
        requires
            self.wf(),
            node < self.nodes.len(),
        ensures
            r == self.container_spec(node as int),
        decreases self.measure(node as int),
    {
        proof { self.lemma_node(node as int); }
        match &self.nodes[node].kind {
            NodeKind::Array { .. } => self.containers[node],
            NodeKind::Expr(ExprKind::Ref { target: Some(t) }) => self.containers[*t],
            NodeKind::Expr(ExprKind::HierPath { refs }) => {
                let pick = if refs.len() > 0 && refs[0].is_some() {
                    refs[0]
                } else if refs.len() > 0 {
                    refs[refs.len() - 1]
                } else {
                    None
                };
                match pick {
                    Some(t) => self.containers[t],
                    None => None,
                }
            },
            NodeKind::Expr(ExprKind::Assignment { operands }) => if operands.len() > 0 {
                self.container_of(operands[0])
            } else {
                None
            },
            _ => None,
        }
    }

    /// `(base, key)` of a single-index selection.
    pub open spec fn single_select(&self, node: int) -> Option<(usize, usize)> {
        match self.kind(node) {
            NodeKind::Expr(ExprKind::BitSelect { base, index }) => Some((base, index)),
            NodeKind::Expr(ExprKind::ArraySelect { base, indices }) => if indices.len() == 1 {
                Some((base, indices@[0]))
            } else {
                None
            },
            _ => None,
        }
    }

    fn single_select_of(&self, node: usize) -> (r: Option<(usize, usize)>)
        requires
            self.wf(),
            node < self.nodes.len(),
        ensures
            r == self.single_select(node as int),
            r matches Some((b, k)) ==> node < b < self.nodes.len() && node < k < self.nodes.len(),
    {
        proof { self.lemma_node(node as int); }
        match &self.nodes[node].kind {
            NodeKind::Expr(ExprKind::BitSelect { base, index }) => Some((*base, *index)),
            NodeKind::Expr(ExprKind::ArraySelect { base, indices }) => if indices.len() == 1 {
                Some((*base, indices[0]))
            } else {
                None
            },
            _ => None,
        }
    }

    /// `(container, key)` of an element selection of an associative array
    /// with the given kind of key (string, or integral and wildcard).
    pub open spec fn assoc_element(&self, node: int, string_key: bool) -> Option<(usize, usize)> {
        match self.single_select(node) {
            Some((base, key)) => match self.container_spec(base as int) {
                Some(c) => match self.model.containers@[c.ir as int].kind {
                    IrContainerKind::Associative { key: k } => if (k == IrAssocKey::String) == string_key {
                        Some((c.ir, key))
                    } else {
                        None
                    },
                    _ => None,
                },
                None => None,
            },
            None => None,
        }
    }

    fn assoc_element_of(&self, node: usize, string_key: bool) -> (r: Option<(usize, usize)>)
        requires
            self.wf(),
            self.containers_ok(),
            node < self.nodes.len(),
        ensures
            r == self.assoc_element(node as int, string_key),
    {
        let (base, key) = match self.single_select_of(node) {
            Some(p) => p,
            None => return None,
        };
        let c = match self.container_of(base) {
            Some(c) => c,
            None => return None,
        };
        proof { self.lemma_container_ir(base as int); }
        match self.model.containers[c.ir].kind {
            IrContainerKind::Associative { key: k } => {
                let is_string = match k {
                    IrAssocKey::String => true,
                    _ => false,
                };
                if is_string == string_key { Some((c.ir, key)) } else { None }
            },
            _ => None,
        }
    }

    /// The container an expression denotes is a container of the model.
    pub proof fn lemma_container_ir(&self, node: int)
        requires
            self.wf(),
            self.containers_ok(),
        ensures
            self.container_spec(node) matches Some(c) ==> c.ir < self.model.containers.len(),
        decreases self.measure(node),
    {
        if 0 <= node < self.len() && node_ok(self.nodes@, node) {
            match self.kind(node) {
                NodeKind::Expr(ExprKind::Assignment { operands }) => if operands.len() > 0 {
                    self.lemma_container_ir(operands@[0] as int);
                },
                NodeKind::Expr(ExprKind::HierPath { refs }) => {
                    if refs.len() > 0 {
                        assert(refs@[0] == refs@[0]);
                        assert(refs@.last() == refs@[refs.len() - 1]);
                    }
                },
                _ => {},
            }
        }
    }

    /// `(container, key)` of an element of an associative array with an
    /// integral or wildcard key.
    pub fn associative_integral_element(&self, node: usize) -> (r: Option<(usize, usize)>)
        requires
            self.wf(),
            self.containers_ok(),
            node < self.nodes.len(),
        ensures
            r == self.assoc_element(node as int, false),
    {
        self.assoc_element_of(node, false)
    }

    /// `(container, key)` of an element of a string-keyed associative array.
    pub fn associative_string_element(&self, node: usize) -> (r: Option<(usize, usize)>)
        requires
            self.wf(),
            self.containers_ok(),
            node < self.nodes.len(),
        ensures
            r == self.assoc_element(node as int, true),
    {
        self.assoc_element_of(node, true)
    }

    /// `(base, indices)` of a selection with at least one index.
    pub open spec fn selection(&self, node: int) -> Option<(usize, Seq<usize>)> {
        match self.kind(node) {
            NodeKind::Expr(ExprKind::BitSelect { base, index }) => Some((base, seq![index])),
            NodeKind::Expr(ExprKind::ArraySelect { base, indices }) => if indices.len() > 0 {
                Some((base, indices@))
            } else {
                None
            },
            _ => None,
        }
    }

    /// `(container, indices)` of an element reached through nested
    /// container selections; string-keyed associative arrays have no such
    /// path.
    pub open spec fn element_path_spec(&self, node: int) -> Option<(usize, Seq<usize>)>
        decreases self.measure(node),
    {
        if !(0 <= node < self.len()) || !node_ok(self.nodes@, node) {
            None
        } else {
            match self.selection(node) {
                None => None,
                Some((base, indices)) => match self.element_path_spec(base as int) {
                    Some((c, prefix)) => Some((c, prefix + indices)),
                    None => match self.assoc_element(base as int, false) {
                        Some((c, key)) => Some((c, seq![key] + indices)),
                        None => match self.container_spec(base as int) {
                            Some(info) => match self.model.containers@[info.ir as int].kind {
                                IrContainerKind::Associative { key: IrAssocKey::String } => None,
                                _ => Some((info.ir, indices)),
                            },
                            None => None,
                        },
                    },
                },
            }
        }
    }

    /// `(container, indices)` of an element selected through nested
    /// resizable containers.
    pub fn container_element_path(&self, node: usize) -> (r: Option<(usize, Vec<usize>)>)
        requires
            self.wf(),
            self.containers_ok(),
            node < self.nodes.len(),
        ensures
            r matches Some((c, idx)) ==> self.element_path_spec(node as int) == Some((c, idx@)),
            r is None ==> self.element_path_spec(node as int) is None,
        decreases self.measure(node as int),
    {
        proof { self.lemma_node(node as int); }
        let (base, indices): (usize, Vec<usize>) = match &self.nodes[node].kind {
            NodeKind::Expr(ExprKind::BitSelect { base, index }) => (*base, vec![*index]),
            NodeKind::Expr(ExprKind::ArraySelect { base, indices }) => if indices.len() > 0 {
                (*base, indices.clone())
            } else {
                return None;
            },
            _ => return None,
        };
        assert(self.selection(node as int) == Some((base, indices@)));
        if let Some((container, mut prefix)) = self.container_element_path(base) {
            let mut i: usize = 0;
            let ghost p0 = prefix@;
            while i < indices.len()
                invariant
                    i <= indices.len(),
                    prefix@ == p0 + indices@.take(i as int),
                decreases indices.len() - i,
            {
                prefix.push(indices[i]);
                assert(indices@.take(i + 1) =~= indices@.take(i as int).push(indices@[i as int]));
                assert(prefix@ =~= p0 + indices@.take(i + 1));
                i = i + 1;
            }
            assert(indices@.take(indices.len() as int) =~= indices@);
            return Some((container, prefix));
        }
        if let Some((container, key)) = self.associative_integral_element(base) {
            let mut prefix: Vec<usize> = vec![key];
            let mut i: usize = 0;
            let ghost p0 = prefix@;
            assert(p0 =~= seq![key]);
            while i < indices.len()
                invariant
                    i <= indices.len(),
                    prefix@ == p0 + indices@.take(i as int),
                decreases indices.len() - i,
            {
                prefix.push(indices[i]);
                assert(indices@.take(i + 1) =~= indices@.take(i as int).push(indices@[i as int]));
                assert(prefix@ =~= p0 + indices@.take(i + 1));
                i = i + 1;
            }
            assert(indices@.take(indices.len() as int) =~= indices@);
            return Some((container, prefix));
        }
        let info = match self.container_of(base) {
            Some(info) => info,
            None => return None,
        };
        proof { self.lemma_container_ir(base as int); }
        match self.model.containers[info.ir].kind {
            IrContainerKind::Associative { key: IrAssocKey::String } => None,
            _ => Some((info.ir, indices)),
        }
    }

    /// The element type `depth` levels into container `container`.
    pub fn container_element_type(&self, container: usize, depth: usize) -> (r: Option<IrContainerElement>)
        requires
            container < self.model.containers.len(),
        ensures
            r == element_at(self.model.containers@[container as int].element, depth as int),
    {
        let mut element = self.model.containers[container].element.clone();
        let mut k: usize = 1;
        while k < depth
            invariant
                1 <= k,
                k <= depth || depth == 0,
                element_at(self.model.containers@[container as int].element, depth as int)
                    == element_at(element, depth - k + 1),
            decreases depth - k,
        {
            element = match element {
                IrContainerElement::Container { element: next, .. } => *next,
                _ => return None,
            };
            k = k + 1;
        }
        Some(element)
    }
}


impl Codegen {
    /// The container an element selection reaches is a container of the
    /// model.
    pub proof fn lemma_selected_container(&self, node: int)
        requires
            self.wf(),
            self.containers_ok(),
        ensures
            self.element_path_spec(node) matches Some((c, _)) ==> c < self.model.containers.len(),
            self.assoc_element(node, true) matches Some((c, _)) ==> c < self.model.containers.len(),
            self.assoc_element(node, false) matches Some((c, _)) ==> c < self.model.containers.len(),
        decreases self.measure(node),
    {
        if let Some((base, _)) = self.single_select(node) {
            self.lemma_container_ir(base as int);
        }
        if 0 <= node < self.len() && node_ok(self.nodes@, node) {
            if let Some((base, _)) = self.selection(node) {
                self.lemma_selected_container(base as int);
                self.lemma_container_ir(base as int);
            }
        }
    }

    /// The element type an expression reads out of a resizable container:
    /// the element of a string-keyed associative array it selects, else the
    /// element at the depth of its nested selection.
    pub open spec fn selected_element_type(&self, node: int) -> Option<IrContainerElement> {
        match self.assoc_element(node, true) {
            Some((c, _)) => Some(self.model.containers@[c as int].element),
            None => match self.element_path_spec(node) {
                Some((c, idx)) => element_at(self.model.containers@[c as int].element, idx.len() as int),
                None => None,
            },
        }
    }

    /// Whether an expression reads a string element of a resizable
    /// container.
    pub fn is_container_string_expr(&self, node: usize) -> (r: bool)
        requires
            self.wf(),
            self.containers_ok(),
            node < self.nodes.len(),
        ensures
            r == (self.selected_element_type(node as int) == Some(IrContainerElement::String)),
    {
        proof { self.lemma_selected_container(node as int); }
        if let Some((container, _)) = self.associative_string_element(node) {
            return matches!(self.model.containers[container].element, IrContainerElement::String);
        }
        match self.container_element_path(node) {
            Some((container, indices)) => match self.container_element_type(container, indices.len()) {
                Some(IrContainerElement::String) => true,
                _ => false,
            },
            None => false,
        }
    }

    /// Whether an expression reads a `chandle` element of a resizable
    /// container.
    pub fn is_container_chandle_expr(&self, node: usize) -> (r: bool)
        requires
            self.wf(),
            self.containers_ok(),
            node < self.nodes.len(),
        ensures
            r == (self.selected_element_type(node as int) == Some(IrContainerElement::Chandle)),
    {
        proof { self.lemma_selected_container(node as int); }
        if let Some((container, _)) = self.associative_string_element(node) {
            return matches!(self.model.containers[container].element, IrContainerElement::Chandle);
        }
        match self.container_element_path(node) {
            Some((container, indices)) => match self.container_element_type(container, indices.len()) {
                Some(IrContainerElement::Chandle) => true,
                _ => false,
            },
            None => false,
        }
    }
}


impl Codegen {
    /// Whether a streaming target is, or streams into, a resizable
    /// container, through nested streams and concatenations.
    pub open spec fn stream_target_has_container(&self, node: int) -> bool
        decreases self.len() - node, 1int, 0int,
    {
        if !(0 <= node < self.len()) || !node_ok(self.nodes@, node) {
            false
        } else if self.container_spec(node) is Some {
            true
        } else {
            match self.kind(node) {
                NodeKind::Expr(ExprKind::Streaming { streams }) => self.any_stream_target(node, streams@, 0),
                NodeKind::Expr(ExprKind::Concat { operands, .. }) => self.any_stream_target(node, operands@, 0),
                _ => false,
            }
        }
    }

    pub open spec fn any_stream_target(&self, node: int, ops: Seq<usize>, k: int) -> bool
        decreases self.len() - node, 0int, ops.len() - k,
    {
        if k < 0 || k >= ops.len() {
            false
        } else {
            (node < ops[k] < self.len() && self.stream_target_has_container(ops[k] as int))
                || self.any_stream_target(node, ops, k + 1)
        }
    }

    /// Whether a streaming assignment target holds a resizable container.
    pub fn stream_target_contains_container(&self, node: usize) -> (r: bool)
        requires
            self.wf(),
            node < self.nodes.len(),
        ensures
            r == self.stream_target_has_container(node as int),
        decreases self.nodes.len() - node, 1int,
    {
        proof { self.lemma_node(node as int); }
        if self.container_of(node).is_some() {
            return true;
        }
        let ops = match &self.nodes[node].kind {
            NodeKind::Expr(ExprKind::Streaming { streams }) => streams,
            NodeKind::Expr(ExprKind::Concat { operands, .. }) => operands,
            _ => return false,
        };
        let mut k: usize = 0;
        while k < ops.len()
            invariant
                self.wf(),
                node < self.nodes.len(),
                forall|j: int| 0 <= j < ops@.len() ==> node < #[trigger] ops@[j] < self.nodes.len(),
                k <= ops.len(),
                self.stream_target_has_container(node as int) == self.any_stream_target(node as int, ops@, k as int),
            decreases ops.len() - k,
        {
            if self.stream_target_contains_container(ops[k]) {
                return true;
            }
            k = k + 1;
        }
        false
    }
}

/// The position of the first `x` in `s`.
pub open spec fn first_position(s: Seq<usize>, x: usize) -> Option<int>
    decreases s.len(),
{
    if s.len() == 0 {
        None
    } else if s[0] == x {
        Some(0)
    } else {
        match first_position(s.drop_first(), x) {
            Some(i) => Some(i + 1),
            None => None,
        }
    }
}

impl Codegen {
    /// The arguments of a container method call: its children without the
    /// receiver (the first child that is `receiver`).
    pub fn container_method_arguments(&self, path: &str, call: usize, receiver: usize) -> (r: Result<Vec<usize>, String>)
        requires
            call < self.nodes.len(),
        ensures
            (match first_position(self.nodes@[call as int].children@, receiver) {
                Some(i) => Ok(self.nodes@[call as int].children@.remove(i)),
                None => Err("container method in `"@ + path@ + "` has no receiver child"@),
            }) == (match r {
                Ok(args) => Ok(args@),
                Err(e) => Err(e@),
            }),
    {
        let children = &self.nodes[call].children;
        let mut pos: usize = 0;
        assert(children@.skip(0) =~= children@);
        while pos < children.len()
            invariant
                pos <= children.len(),
                first_position(children@, receiver) == match first_position(children@.skip(pos as int), receiver) {
                    Some(i) => Some(i + pos),
                    None => None,
                },
            ensures
                pos <= children.len(),
                first_position(children@, receiver) == match first_position(children@.skip(pos as int), receiver) {
                    Some(i) => Some(i + pos),
                    None => None,
                },
                pos < children.len() ==> children@[pos as int] == receiver,
            decreases children.len() - pos,
        {
            assert(children@.skip(pos as int).drop_first() =~= children@.skip(pos + 1));
            if children[pos] == receiver {
                break;
            }
            pos = pos + 1;
        }
        if pos == children.len() {
            let mut m = String::from_str("container method in `");
            m.append(path);
            m.append("` has no receiver child");
            return Err(m);
        }
        let mut args: Vec<usize> = Vec::new();
        let mut i: usize = 0;
        while i < children.len()
            invariant
                pos < children.len(),
                i <= children.len(),
                args@ == (if i <= pos { children@.take(i as int) } else { children@.remove(pos as int).take(i - 1) }),
            decreases children.len() - i,
        {
            if i != pos {
                args.push(children[i]);
            }
            i = i + 1;
            assert(args@ =~= (if i <= pos { children@.take(i as int) } else { children@.remove(pos as int).take(i - 1) }));
        }
        assert(children@.remove(pos as int).take(children.len() - 1) =~= children@.remove(pos as int));
        Ok(args)
    }
}

} // verus!
