//! Function and task signatures: return shapes, formal lists and the C
//! declaration of a lowered subroutine.

use vstd::prelude::*;
use vstd::string::StringExecFns;
use crate::codegen::{Codegen, node_ok};
use crate::design::{NodeKind, TypeKind, TypeInfo, Direction, is_real_kind, is_handle_kind, is_two_state_kind,
    real_kind, handle_kind, two_state_kind};
use crate::ir::LLG_MAX_WIDTH;
use crate::names::{join, join_strings};
use crate::text::{decimal, decimal_string, owned};

verus! {

/// `(width, signed, two_state, shortreal)` of a value returned through the
/// packed or real ABI.
pub type RetShape = (u32, bool, bool, bool);

/// Output and inout formals are passed by address.
pub open spec fn is_out_direction(d: Direction) -> bool {
    d == Direction::Output || d == Direction::Inout
}

/// The C type of a formal passed by value or through an output pointer.
pub open spec fn c_type_text(ty: TypeInfo) -> Seq<char> {
    if ty.kind is String {
        seq!['l', 'l', 'g', '_', 's', 't', 'r', 'i', 'n', 'g', '_', 't']
    } else if is_handle_kind(ty.kind) {
        seq!['v', 'o', 'i', 'd', ' ', '*']
    } else if is_real_kind(ty.kind) {
        seq!['d', 'o', 'u', 'b', 'l', 'e']
    } else {
        seq!['s', 'v', '4', '_', 't']
    }
}

pub open spec fn const_text(const_ref: bool) -> Seq<char> {
    if const_ref {
        seq!['c', 'o', 'n', 's', 't', ' ']
    } else {
        seq![]
    }
}

/// The parameter of a `ref` formal at position `idx`.
pub open spec fn ref_param_text(ty: TypeInfo, const_ref: bool, idx: nat) -> Seq<char> {
    if ty.kind is String {
        const_text(const_ref) + seq!['l', 'l', 'g', '_', 's', 't', 'r', 'i', 'n', 'g', '_', 't', '*', ' ', 'r'] + decimal(idx)
    } else if is_handle_kind(ty.kind) {
        seq!['v', 'o', 'i', 'd', ' ', '*'] + const_text(const_ref) + seq!['*', ' ', 'r'] + decimal(idx)
    } else {
        const_text(const_ref) + seq!['l', 'l', 'g', '_', 'r', 'e', 'f', '_', 't', '*', ' ', 'r'] + decimal(idx)
    }
}

impl Codegen {
    pub open spec fn is_chandle_return_spec(&self, ft: int) -> bool {
        self.kind(ft) matches NodeKind::FuncTask { ret: Some(ty), .. } && is_handle_kind(ty.kind)
    }

    pub open spec fn is_string_return_spec(&self, ft: int) -> bool {
        self.kind(ft) matches NodeKind::FuncTask { ret: Some(ty), .. } && ty.kind is String
    }

    /// Whether a subroutine returns a class or chandle handle.
    pub fn is_chandle_return(&self, ft: usize) -> (r: bool)
        requires
            ft < self.nodes.len(),
        ensures
            r == self.is_chandle_return_spec(ft as int),
    {
        match &self.nodes[ft].kind {
            NodeKind::FuncTask { ret: Some(ty), .. } => handle_kind(&ty.kind),
            _ => false,
        }
    }

    /// Whether a subroutine returns a native string.
    pub fn is_string_return(&self, ft: usize) -> (r: bool)
        requires
            ft < self.nodes.len(),
        ensures
            r == self.is_string_return_spec(ft as int),
    {
        match &self.nodes[ft].kind {
            NodeKind::FuncTask { ret: Some(ty), .. } => match ty.kind {
                TypeKind::String => true,
                _ => false,
            },
            _ => false,
        }
    }

    /// The body statement of a subroutine.
    pub fn func_body(&self, ft: usize) -> (r: Option<usize>)
        requires
            self.wf(),
            ft < self.nodes.len(),
        ensures
            r == self.nodes@[ft as int].body,
            r matches Some(b) ==> b < self.nodes.len(),
    {
        proof { self.lemma_node(ft as int); }
        self.nodes[ft].body
    }

    /// The first variable among `list` (a function's implicit return variable).
    pub open spec fn first_var(&self, list: Seq<usize>) -> Option<usize>
        decreases list.len(),
    {
        if list.len() == 0 {
            None
        } else if list[0] < self.nodes.len() && self.kind(list[0] as int) is Var {
            Some(list[0])
        } else {
            self.first_var(list.drop_first())
        }
    }

    /// Whether the return variable of a function is declared two-state.
    pub open spec fn ret_two_state(&self, ft: int) -> bool {
        self.first_var(self.nodes@[ft].children@) matches Some(v) && self.nodes@[v as int].two_state
    }

    fn return_var_two_state(&self, ft: usize) -> (r: bool)
        requires
            self.wf(),
            ft < self.nodes.len(),
        ensures
            r == self.ret_two_state(ft as int),
    {
        proof { self.lemma_node(ft as int); }
        let children = &self.nodes[ft].children;
        let mut i: usize = 0;
        assert(children@.skip(0) =~= children@);
        while i < children.len()
            invariant
                self.wf(),
                ft < self.nodes.len(),
                node_ok(self.nodes@, ft as int),
                children@ == self.nodes@[ft as int].children@,
                i <= children.len(),
                self.first_var(children@) == self.first_var(children@.skip(i as int)),
            decreases children.len() - i,
        {
            assert(children@.skip(i as int).drop_first() =~= children@.skip(i + 1));
            assert(children@.skip(i as int)[0] == children@[i as int]);
            let c = children[i];
            if let NodeKind::Var { .. } = &self.nodes[c].kind {
                return self.nodes[c].two_state;
            }
            i = i + 1;
        }
        false
    }

    /// Formal declarations in source order, each with whether it is passed
    /// by address (output or inout); the implicit return variable that may
    /// precede them is skipped, and the list ends at the first other child.
    pub open spec fn formals_spec(&self, list: Seq<usize>) -> Seq<(usize, bool)>
        decreases list.len(),
    {
        if list.len() == 0 || list[0] >= self.nodes.len() {
            seq![]
        } else {
            match self.kind(list[0] as int) {
                NodeKind::FuncArg { direction, .. } => seq![(list[0], is_out_direction(direction))]
                    + self.formals_spec(list.drop_first()),
                NodeKind::Var { .. } => self.formals_spec(list.drop_first()),
                _ => seq![],
            }
        }
    }

    /// The formals of a subroutine, without any width recovery.
    pub fn func_formals(&self, ft: usize) -> (r: Vec<(usize, bool)>)
        requires
            self.wf(),
            ft < self.nodes.len(),
        ensures
            r@ == self.formals_spec(self.nodes@[ft as int].children@),
            forall|k: int| 0 <= k < r.len() ==> #[trigger] r@[k].0 < self.nodes.len(),
    {
        proof { self.lemma_node(ft as int); }
        let children = &self.nodes[ft].children;
        let mut out: Vec<(usize, bool)> = Vec::new();
        let mut i: usize = 0;
        assert(children@.skip(0) =~= children@);
        while i < children.len()
            invariant
                self.wf(),
                ft < self.nodes.len(),
                node_ok(self.nodes@, ft as int),
                children@ == self.nodes@[ft as int].children@,
                i <= children.len(),
                self.formals_spec(children@) == out@ + self.formals_spec(children@.skip(i as int)),
                forall|k: int| 0 <= k < out.len() ==> #[trigger] out@[k].0 < self.nodes.len(),
            decreases children.len() - i,
        {
            assert(children@.skip(i as int).drop_first() =~= children@.skip(i + 1));
            assert(children@.skip(i as int)[0] == children@[i as int]);
            let c = children[i];
            match &self.nodes[c].kind {
                NodeKind::FuncArg { direction, .. } => {
                    let is_out = *direction == Direction::Output || *direction == Direction::Inout;
                    let ghost before = out@;
                    out.push((c, is_out));
                    assert(self.formals_spec(children@.skip(i as int)) =~= seq![(c, is_out)]
                        + self.formals_spec(children@.skip(i + 1)));
                    assert(out@ + self.formals_spec(children@.skip(i + 1)) =~= before
                        + self.formals_spec(children@.skip(i as int)));
                },
                NodeKind::Var { .. } => {},
                _ => {
                    assert(self.formals_spec(children@.skip(i as int)) =~= Seq::<(usize, bool)>::empty());
                    assert(out@ + Seq::<(usize, bool)>::empty() =~= out@);
                    return out;
                },
            }
            i = i + 1;
        }
        assert(children@.skip(children.len() as int) =~= Seq::<usize>::empty());
        assert(out@ + Seq::<(usize, bool)>::empty() =~= out@);
        out
    }

    /// The return shape of an ordinary subroutine: handles and strings use
    /// their own ABI, reals carry no width, packed values at most
    /// `LLG_MAX_WIDTH` bits.
    pub open spec fn ret_shape(&self, ft: int, ty: TypeInfo) -> Result<Option<RetShape>, ()> {
        if ty.kind is Chandle || ty.kind is Class || ty.kind is String {
            Ok(None)
        } else if is_real_kind(ty.kind) {
            Ok(Some((0u32, false, false, ty.kind is ShortReal)))
        } else {
            match ty.width {
                Some(w) => if w > LLG_MAX_WIDTH {
                    Err(())
                } else {
                    Ok(Some((w, ty.signed, self.ret_two_state(ft) || is_two_state_kind(ty.kind), false)))
                },
                None => Err(()),
            }
        }
    }

    /// Why the return type `ty` of subroutine `ft` has no return shape.
    pub open spec fn ret_shape_error(&self, ft: int, ty: TypeInfo) -> Seq<char> {
        match ty.width {
            Some(w) => "return type of `"@ + self.nodes@[ft].name@ + "` is "@ + decimal(w as nat)
                + " bits wide; the runtime maximum supported width is 65536"@,
            None => "return type of `"@ + self.nodes@[ft].name@ + "` has no width"@,
        }
    }

    fn wide_return_message(&self, ft: usize, w: u32) -> (r: String)
        requires
            self.wf(),
            ft < self.nodes.len(),
        ensures
            r@ == "return type of `"@ + self.nodes@[ft as int].name@ + "` is "@ + decimal(w as nat)
                + " bits wide; the runtime maximum supported width is 65536"@,
    {
        let mut m = self.node_message("return type of `", ft, "` is ");
        m.append(decimal_string(w as u128).as_str());
        m.append(" bits wide; the runtime maximum supported width is 65536");
        m
    }

    pub open spec fn func_info_spec(&self, ft: int) -> Result<(bool, Option<RetShape>), ()> {
        match self.kind(ft) {
            NodeKind::FuncTask { is_task, ret, .. } => match ret {
                Some(ty) => match self.ret_shape(ft, ty) {
                    Ok(shape) => Ok((is_task, shape)),
                    Err(_) => Err(()),
                },
                None => Ok((is_task, None)),
            },
            _ => Err(()),
        }
    }

    /// `(is_task, return shape, formals)` of a subroutine. The return shape
    /// is `None` for void functions, tasks, and handle or string returns.
    pub fn func_info(&self, ft: usize, inst: usize) -> (r: Result<(bool, Option<RetShape>, Vec<(usize, bool)>), String>)
        requires
            self.wf(),
            ft < self.nodes.len(),
        ensures
            r is Ok <==> self.func_info_spec(ft as int) is Ok,
            r matches Err(e) ==> e@ == match self.kind(ft as int) {
                NodeKind::FuncTask { ret: Some(ty), .. } => self.ret_shape_error(ft as int, ty),
                _ => "non-FuncTask passed to func_info"@,
            },
            r matches Ok((is_task, ret, formals)) ==> self.func_info_spec(ft as int) == Ok::<(bool, Option<RetShape>), ()>((is_task, ret))
                && formals@ == self.formals_spec(self.nodes@[ft as int].children@)
                && forall|k: int| 0 <= k < formals.len() ==> #[trigger] formals@[k].0 < self.nodes.len(),
    {
        let (is_task, ret) = match &self.nodes[ft].kind {
            NodeKind::FuncTask { is_task, ret, .. } => (*is_task, ret),
            _ => return Err(owned("non-FuncTask passed to func_info")),
        };
        let ret_two_state = self.return_var_two_state(ft);
        let shape = match ret {
            Some(ty) => {
                let handle_or_string = match ty.kind {
                    TypeKind::Chandle | TypeKind::Class | TypeKind::String => true,
                    _ => false,
                };
                if handle_or_string {
                    None
                } else if real_kind(&ty.kind) {
                    let short = match ty.kind {
                        TypeKind::ShortReal => true,
                        _ => false,
                    };
                    Some((0u32, false, false, short))
                } else {
                    match ty.width {
                        Some(w) => {
                            if w > LLG_MAX_WIDTH {
                                return Err(self.wide_return_message(ft, w));
                            }
                            Some((w, ty.signed, ret_two_state || two_state_kind(&ty.kind), false))
                        },
                        None => return Err(self.node_message("return type of `", ft, "` has no width")),
                    }
                }
            },
            None => None,
        };
        Ok((is_task, shape, self.func_formals(ft)))
    }

    pub open spec fn dpi_return_spec(&self, ft: int) -> Result<Option<RetShape>, ()> {
        match self.kind(ft) {
            NodeKind::FuncTask { is_task, ret, .. } => if is_task {
                Ok(None)
            } else {
                match ret {
                    None => Ok(None),
                    Some(ty) => if ty.kind is Void {
                        Ok(None)
                    } else {
                        self.ret_shape(ft, ty)
                    },
                }
            },
            _ => Err(()),
        }
    }

    /// The return shape of a DPI-C import: tasks, void, handle and string
    /// returns have none.
    pub fn dpi_return_info(&self, ft: usize) -> (r: Result<Option<RetShape>, String>)
        requires
            self.wf(),
            ft < self.nodes.len(),
        ensures
            r is Ok <==> self.dpi_return_spec(ft as int) is Ok,
            r matches Ok(shape) ==> self.dpi_return_spec(ft as int) == Ok::<Option<RetShape>, ()>(shape),
            r matches Err(e) ==> e@ == match self.kind(ft as int) {
                NodeKind::FuncTask { ret: Some(ty), .. } => self.ret_shape_error(ft as int, ty),
                _ => "non-FuncTask passed to dpi_return_info"@,
            },
    {
        let (is_task, ret) = match &self.nodes[ft].kind {
            NodeKind::FuncTask { is_task, ret, .. } => (*is_task, ret),
            _ => return Err(owned("non-FuncTask passed to dpi_return_info")),
        };
        if is_task {
            return Ok(None);
        }
        let ty = match ret {
            Some(ty) => ty,
            None => return Ok(None),
        };
        match ty.kind {
            TypeKind::Void | TypeKind::Chandle | TypeKind::Class | TypeKind::String => return Ok(None),
            _ => {},
        }
        if real_kind(&ty.kind) {
            let short = match ty.kind {
                TypeKind::ShortReal => true,
                _ => false,
            };
            return Ok(Some((0u32, false, false, short)));
        }
        let width = match ty.width {
            Some(w) => w,
            None => return Err(self.node_message("return type of `", ft, "` has no width")),
        };
        if width > LLG_MAX_WIDTH {
            return Err(self.wide_return_message(ft, width));
        }
        let two_state = self.return_var_two_state(ft) || two_state_kind(&ty.kind);
        Ok(Some((width, ty.signed, two_state, false)))
    }

    /// Formals listed by `formals_spec` are formal arguments.
    pub proof fn lemma_formals_are_args(&self, list: Seq<usize>)
        ensures
            forall|k: int| 0 <= k < self.formals_spec(list).len() ==> (#[trigger] self.formals_spec(list)[k]).0 < self.nodes.len()
                && self.kind(self.formals_spec(list)[k].0 as int) is FuncArg,
        decreases list.len(),
    {
        if list.len() > 0 && list[0] < self.nodes.len() {
            self.lemma_formals_are_args(list.drop_first());
        }
    }

    /// The address parameter of formal `f` at position `idx`: `ref`
    /// formals by reference, outputs and inouts through a pointer.
    pub open spec fn address_param(&self, f: (usize, bool), idx: nat) -> Seq<Seq<char>> {
        match self.kind(f.0 as int) {
            NodeKind::FuncArg { direction, ty, const_ref } => if direction == Direction::Ref {
                seq![ref_param_text(ty, const_ref, idx)]
            } else if f.1 {
                seq![c_type_text(ty) + seq!['*', ' ', 'o'] + decimal(idx)]
            } else {
                seq![]
            },
            _ => seq![],
        }
    }

    /// The by-value parameter of input formal `f` at position `idx`.
    pub open spec fn value_param(&self, f: (usize, bool), idx: nat) -> Seq<Seq<char>> {
        match self.kind(f.0 as int) {
            NodeKind::FuncArg { direction, ty, .. } => if !f.1 && direction != Direction::Ref {
                seq![c_type_text(ty) + seq![' ', 'a'] + decimal(idx)]
            } else {
                seq![]
            },
            _ => seq![],
        }
    }

    pub open spec fn address_params(&self, formals: Seq<(usize, bool)>) -> Seq<Seq<char>>
        decreases formals.len(),
    {
        if formals.len() == 0 {
            seq![]
        } else {
            self.address_params(formals.drop_last()) + self.address_param(formals.last(), (formals.len() - 1) as nat)
        }
    }

    pub open spec fn value_params(&self, formals: Seq<(usize, bool)>) -> Seq<Seq<char>>
        decreases formals.len(),
    {
        if formals.len() == 0 {
            seq![]
        } else {
            self.value_params(formals.drop_last()) + self.value_param(formals.last(), (formals.len() - 1) as nat)
        }
    }

    /// The C return type of a subroutine.
    pub open spec fn ret_type_text(&self, ft: int, is_task: bool, ret: Option<RetShape>) -> Seq<char> {
        if is_task || ret is None {
            if !is_task && self.is_string_return_spec(ft) {
                seq!['l', 'l', 'g', '_', 's', 't', 'r', 'i', 'n', 'g', '_', 't']
            } else if !is_task && self.is_chandle_return_spec(ft) {
                seq!['v', 'o', 'i', 'd', ' ', '*']
            } else {
                seq!['v', 'o', 'i', 'd']
            }
        } else {
            seq!['s', 'v', '4', '_', 't']
        }
    }

    /// Class methods that are not static take the object as `_this`.
    pub open spec fn this_param(&self, ft: int, inst: int) -> Seq<Seq<char>> {
        if self.class_nodes@[inst] && !(self.kind(ft) matches NodeKind::FuncTask { is_static, .. } && is_static) {
            seq![seq!['v', 'o', 'i', 'd', ' ', '*', '_', 't', 'h', 'i', 's']]
        } else {
            seq![]
        }
    }

    /// The declaration prefix `static <ret> <name>(<params>` of a subroutine;
    /// every parameter list ends with `int depth`.
    pub open spec fn signature_text(&self, ft: int, inst: int, is_task: bool, ret: Option<RetShape>, c_name: Seq<char>,
        formals: Seq<(usize, bool)>) -> Seq<char>
    {
        let params = self.this_param(ft, inst) + self.address_params(formals) + self.value_params(formals)
            + seq![seq!['i', 'n', 't', ' ', 'd', 'e', 'p', 't', 'h']];
        seq!['s', 't', 'a', 't', 'i', 'c', ' '] + self.ret_type_text(ft, is_task, ret) + seq![' '] + c_name + seq!['(']
            + join(params, seq![',', ' '])
    }

    /// The declaration text and formals of a subroutine's signature: the
    /// formals are those `func_formals` lists, and the text is
    /// `static <ret> <c name>(` followed by the parameters joined with `, `
    /// and no closing parenthesis, the parameters being `void *_this` for a
    /// non-static class method, then the address formals in order (refs as
    /// `r<idx>`, outputs and inouts as `o<idx>`), then the by-value inputs
    /// `a<idx>`, then `int depth`. `listed` is a result of `func_formals(ft)`;
    /// `(text, formals)` a successful result of `func_signature(ft, inst)`.
    pub proof fn law_signature_shape(&self, ft: usize, inst: usize, listed: Seq<(usize, bool)>, text: Seq<char>,
        formals: Seq<(usize, bool)>)
        requires
            listed == self.formals_spec(self.nodes@[ft as int].children@),
            formals == self.formals_spec(self.nodes@[ft as int].children@),
            self.func_info_spec(ft as int) is Ok,
            self.func_names@[ft as int] is Some,
            text == self.signature_text(ft as int, inst as int, self.func_info_spec(ft as int)->Ok_0.0,
                self.func_info_spec(ft as int)->Ok_0.1, self.func_names@[ft as int]->0@, formals),
        ensures
            formals == listed,
            text == "static "@ + self.ret_type_text(ft as int, self.func_info_spec(ft as int)->Ok_0.0,
                    self.func_info_spec(ft as int)->Ok_0.1) + " "@ + self.func_names@[ft as int]->0@ + "("@
                + join(self.this_param(ft as int, inst as int) + self.address_params(formals)
                    + self.value_params(formals) + seq!["int depth"@], ", "@),
            text.last() == 'h',
    {
        reveal_strlit("static ");
        reveal_strlit(" ");
        reveal_strlit("(");
        reveal_strlit("int depth");
        reveal_strlit(", ");
        let params = self.this_param(ft as int, inst as int) + self.address_params(formals)
            + self.value_params(formals) + seq!["int depth"@];
        assert("int depth"@ =~= seq!['i', 'n', 't', ' ', 'd', 'e', 'p', 't', 'h']);
        assert(seq!["int depth"@] =~= seq![seq!['i', 'n', 't', ' ', 'd', 'e', 'p', 't', 'h']]);
        assert("static "@ =~= seq!['s', 't', 'a', 't', 'i', 'c', ' ']);
        assert(", "@ =~= seq![',', ' ']);
        assert(" "@ =~= seq![' ']);
        assert("("@ =~= seq!['(']);
        lemma_join_ends(params, ", "@);
    }

    fn c_type(ty: &TypeInfo) -> (r: &'static str)
        ensures
            r@ == c_type_text(*ty),
    {
        proof {
            reveal_strlit("llg_string_t");
            reveal_strlit("void *");
            reveal_strlit("double");
            reveal_strlit("sv4_t");
        }
        let r = match ty.kind {
            TypeKind::String => "llg_string_t",
            _ => if handle_kind(&ty.kind) {
                "void *"
            } else if real_kind(&ty.kind) {
                "double"
            } else {
                "sv4_t"
            },
        };
        assert(r@ =~= c_type_text(*ty));
        r
    }

    fn push_const(p: &mut String, const_ref: bool)
        ensures
            final(p)@ == old(p)@ + const_text(const_ref),
    {
        if const_ref {
            p.append("const ");
            proof { reveal_strlit("const "); }
        }
        assert(p@ =~= old(p)@ + const_text(const_ref));
    }

    fn push_param(params: &mut Vec<String>, p: String, ghost_base: Ghost<Seq<Seq<char>>>)
        requires
            old(params)@.map_values(|q: String| q@) == ghost_base@,
        ensures
            final(params)@.map_values(|q: String| q@) == ghost_base@.push(p@),
    {
        params.push(p);
        assert(params@.map_values(|q: String| q@) =~= ghost_base@.push(p@));
    }

    /// `(declaration prefix, formals)` of a subroutine: functions pass inputs
    /// by value; address formals (outputs and inouts as `o<idx>`, refs as
    /// `r<idx>`) come first, then by-value inputs as `a<idx>`, then `int depth`.
    #[verifier::rlimit(40)]
    pub fn func_signature(&self, ft: usize, inst: usize) -> (r: Result<(String, Vec<(usize, bool)>), String>)
        requires
            self.wf(),
            ft < self.nodes.len(),
            inst < self.nodes.len(),
        ensures
            r is Ok <==> self.func_info_spec(ft as int) is Ok && self.func_names@[ft as int] is Some,
            r matches Ok((text, formals)) ==> {
                &&& formals@ == self.formals_spec(self.nodes@[ft as int].children@)
                &&& self.func_info_spec(ft as int) matches Ok((is_task, ret))
                &&& self.func_names@[ft as int] matches Some(c_name)
                &&& text@ == self.signature_text(ft as int, inst as int, is_task, ret, c_name@, formals@)
            },
            r matches Err(e) ==> e@ == if self.func_info_spec(ft as int) is Err {
                match self.kind(ft as int) {
                    NodeKind::FuncTask { ret: Some(ty), .. } => self.ret_shape_error(ft as int, ty),
                    _ => "non-FuncTask passed to func_info"@,
                }
            } else {
                "function `"@ + self.nodes@[ft as int].name@ + "` has no C name"@
            },
    {
        let (is_task, ret, formals) = match self.func_info(ft, inst) {
            Ok(info) => info,
            Err(e) => return Err(e),
        };
        let c_name = match &self.func_names[ft] {
            Some(n) => n,
            None => return Err(self.node_message("function `", ft, "` has no C name")),
        };
        proof {
            self.lemma_formals_are_args(self.nodes@[ft as int].children@);
            reveal_strlit("llg_string_t");
            reveal_strlit("void *");
            reveal_strlit("void");
            reveal_strlit("sv4_t");
            reveal_strlit("void *_this");
            reveal_strlit("const ");
            reveal_strlit("");
            reveal_strlit("llg_string_t* r");
            reveal_strlit("* r");
            reveal_strlit("llg_ref_t* r");
            reveal_strlit("* o");
            reveal_strlit(" a");
            reveal_strlit("int depth");
            reveal_strlit("static ");
            reveal_strlit(", ");
        }
        let ret_t: &str = if is_task || ret.is_none() {
            if !is_task && self.is_string_return(ft) {
                "llg_string_t"
            } else if !is_task && self.is_chandle_return(ft) {
                "void *"
            } else {
                "void"
            }
        } else {
            "sv4_t"
        };
        assert(ret_t@ =~= self.ret_type_text(ft as int, is_task, ret));
        let mut params: Vec<String> = Vec::new();
        let is_static = match &self.nodes[ft].kind {
            NodeKind::FuncTask { is_static, .. } => *is_static,
            _ => false,
        };
        assert(params@.map_values(|q: String| q@) =~= Seq::<Seq<char>>::empty());
        if self.class_nodes[inst] && !is_static {
            Self::push_param(&mut params, owned("void *_this"), Ghost(Seq::empty()));
        }
        assert(params@.map_values(|q: String| q@) =~~= self.this_param(ft as int, inst as int));
        let ghost base = self.this_param(ft as int, inst as int);
        let mut idx: usize = 0;
        while idx < formals.len()
            invariant
                self.wf(),
                idx <= formals.len(),
                forall|k: int| 0 <= k < formals.len() ==> (#[trigger] formals@[k]).0 < self.nodes.len()
                    && self.kind(formals@[k].0 as int) is FuncArg,
                params@.map_values(|q: String| q@) == base + self.address_params(formals@.take(idx as int)),
            decreases formals.len() - idx,
        {
            assert(formals@.take(idx + 1).drop_last() =~= formals@.take(idx as int));
            assert(formals@.take(idx + 1).last() == formals@[idx as int]);
            let (c, is_out) = formals[idx];
            proof {
                reveal_strlit("llg_string_t* r");
                reveal_strlit("* r");
                reveal_strlit("llg_ref_t* r");
                reveal_strlit("* o");
                reveal_strlit("void *");
            }
            let ghost before = params@.map_values(|q: String| q@);
            if let NodeKind::FuncArg { direction, ty, const_ref } = &self.nodes[c].kind {
                if *direction == Direction::Ref {
                    let p = match ty.kind {
                        TypeKind::String => {
                            let mut p = String::new();
                            Self::push_const(&mut p, *const_ref);
                            p.append("llg_string_t* r");
                            p.append(decimal_string(idx as u128).as_str());
                            p
                        },
                        _ => if handle_kind(&ty.kind) {
                            let mut p = owned("void *");
                            Self::push_const(&mut p, *const_ref);
                            p.append("* r");
                            p.append(decimal_string(idx as u128).as_str());
                            p
                        } else {
                            let mut p = String::new();
                            Self::push_const(&mut p, *const_ref);
                            p.append("llg_ref_t* r");
                            p.append(decimal_string(idx as u128).as_str());
                            p
                        },
                    };
                    assert(p@ =~= ref_param_text(*ty, *const_ref, idx as nat));
                    Self::push_param(&mut params, p, Ghost(before));
                    assert(before.push(p@) =~= before + self.address_param(formals@[idx as int], idx as nat));
                } else if is_out {
                    let mut p = owned(Self::c_type(ty));
                    p.append("* o");
                    p.append(decimal_string(idx as u128).as_str());
                    assert(p@ =~= c_type_text(*ty) + seq!['*', ' ', 'o'] + decimal(idx as nat));
                    Self::push_param(&mut params, p, Ghost(before));
                    assert(before.push(p@) =~= before + self.address_param(formals@[idx as int], idx as nat));
                } else {
                    assert(before =~= before + self.address_param(formals@[idx as int], idx as nat));
                }
            }
            idx = idx + 1;
        }
        assert(formals@.take(formals.len() as int) =~= formals@);
        let ghost base2 = base + self.address_params(formals@);
        let mut idx: usize = 0;
        assert(base2 + self.value_params(formals@.take(0)) =~= base2);
        while idx < formals.len()
            invariant
                self.wf(),
                idx <= formals.len(),
                forall|k: int| 0 <= k < formals.len() ==> (#[trigger] formals@[k]).0 < self.nodes.len()
                    && self.kind(formals@[k].0 as int) is FuncArg,
                params@.map_values(|q: String| q@) == base2 + self.value_params(formals@.take(idx as int)),
            decreases formals.len() - idx,
        {
            assert(formals@.take(idx + 1).drop_last() =~= formals@.take(idx as int));
            assert(formals@.take(idx + 1).last() == formals@[idx as int]);
            let (c, is_out) = formals[idx];
            proof { reveal_strlit(" a"); }
            let ghost before = params@.map_values(|q: String| q@);
            if let NodeKind::FuncArg { direction, ty, .. } = &self.nodes[c].kind {
                if !is_out && *direction != Direction::Ref {
                    let mut p = owned(Self::c_type(ty));
                    p.append(" a");
                    p.append(decimal_string(idx as u128).as_str());
                    assert(p@ =~= c_type_text(*ty) + seq![' ', 'a'] + decimal(idx as nat));
                    Self::push_param(&mut params, p, Ghost(before));
                    assert(before.push(p@) =~= before + self.value_param(formals@[idx as int], idx as nat));
                } else {
                    assert(before =~= before + self.value_param(formals@[idx as int], idx as nat));
                }
            }
            idx = idx + 1;
        }
        assert(formals@.take(formals.len() as int) =~= formals@);
        let ghost before = params@.map_values(|q: String| q@);
        Self::push_param(&mut params, owned("int depth"), Ghost(before));
        proof {
            reveal_strlit(", ");
            let ghost params_text = self.this_param(ft as int, inst as int) + self.address_params(formals@)
                + self.value_params(formals@) + seq![seq!['i', 'n', 't', ' ', 'd', 'e', 'p', 't', 'h']];
            assert(params@.map_values(|q: String| q@) =~~= params_text);
            assert(", "@ =~= seq![',', ' ']);
            assert(join(params@.map_values(|q: String| q@), ", "@) == join(params_text, seq![',', ' ']));
        }
        let mut text = owned("static ");
        text.append(ret_t);
        text.append(" ");
        text.append(c_name.as_str());
        text.append("(");
        text.append(join_strings(&params, ", ").as_str());
        proof {
            reveal_strlit(" ");
            reveal_strlit("(");
            let ghost params_text = self.this_param(ft as int, inst as int) + self.address_params(formals@)
                + self.value_params(formals@) + seq![seq!['i', 'n', 't', ' ', 'd', 'e', 'p', 't', 'h']];
            assert(params@.map_values(|q: String| q@) =~~= params_text);
        }
        assert(text@ =~= self.signature_text(ft as int, inst as int, is_task, ret, c_name@, formals@));
        Ok((text, formals))
    }
}

/// A nonempty join ends with its last part.
proof fn lemma_join_ends(parts: Seq<Seq<char>>, sep: Seq<char>)
    requires
        parts.len() > 0,
        parts.last().len() > 0,
    ensures
        join(parts, sep).len() > 0,
        join(parts, sep).last() == parts.last().last(),
{
    if parts.len() > 1 {
        let a = join(parts.drop_last(), sep) + sep;
        assert((a + parts.last()).last() == parts.last().last());
    }
}

/// The C type of a formal passed by value or through an output pointer is
/// fixed by its SystemVerilog type: strings are `llg_string_t`, chandles and
/// class handles `void *`, real, realtime and shortreal values `double`, and
/// every other type the four-state vector `sv4_t`.
pub proof fn law_c_type_table(ty: TypeInfo)
    ensures
        ty.kind is String ==> c_type_text(ty) == "llg_string_t"@,
        (ty.kind is Chandle || ty.kind is Class) ==> c_type_text(ty) == "void *"@,
        (ty.kind is Real || ty.kind is RealTime || ty.kind is ShortReal) ==> c_type_text(ty) == "double"@,
        !(ty.kind is String || ty.kind is Chandle || ty.kind is Class || ty.kind is Real || ty.kind is RealTime
            || ty.kind is ShortReal) ==> c_type_text(ty) == "sv4_t"@,
{
    reveal_strlit("llg_string_t");
    reveal_strlit("void *");
    reveal_strlit("double");
    reveal_strlit("sv4_t");
}

} // verus!
