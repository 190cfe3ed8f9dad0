use vstd::prelude::*;
use vstd::string::StringExecFns;
use crate::compile::token::{TokenSpan, TokenValue, bytes_eq, name_bytes, slice_to_vec};
use super::{AstErrorKind, ItemRef, is_duplicate};
use super::expr::{Expr, ExprVar};
use super::resolve::{expr_found, init_in, init_resolved, inits_in, lemma_resolved_found, lookup_in, resolve_expr, scope_resolved};

verus! {

/// The scope is the root.
pub const SCOPE_GLOBAL: u16 = 0x1;
/// The scope is for a type container.
pub const SCOPE_TYPE: u16 = 0x2;
/// The scope is for function parameters.
pub const SCOPE_FN_PARAM: u16 = 0x4;
/// The scope is for function local variables.
pub const SCOPE_FN_LOCAL: u16 = 0x8;
/// The scope includes parent scopes.
pub const SCOPE_RECURSIVE: u16 = 0x10;
/// The scope has a 'this' variable.
pub const SCOPE_INSTANCE: u16 = 0x20;
/// The scope has a 'remote' variable.
pub const SCOPE_REMOTE: u16 = 0x40;
/// The flags that are valid for lookups.
pub const SCOPE_LOOKUP_MASK: u16 = 0x1F;
/// Every flag.
pub const SCOPE_ALL: u16 = 0x7F;

/// Flags for scope implementation and lookup. Some flags are only
/// valid for implementation - see `SCOPE_LOOKUP_MASK`.
#[derive(Debug, Copy, Clone, PartialEq, Eq, Hash, Structural)]
pub struct ScopeKind {
    bits: u16,
}

impl View for ScopeKind {
    type V = u16;

    closed spec fn view(&self) -> u16 {
        self.bits
    }
}

/// Whether the flags `a` hold every flag of `b`.
pub open spec fn flags_contain(a: u16, b: u16) -> bool {
    a & b == b
}

/// The names of the flags, in the order in which they are written.
pub open spec fn flag_names(bits: u16) -> Seq<Seq<char>> {
    let p0 = Seq::<Seq<char>>::empty();
    let p1 = if bits & SCOPE_GLOBAL != 0 { p0.push(seq!['G', 'l', 'o', 'b', 'a', 'l']) } else { p0 };
    let p2 = if bits & SCOPE_TYPE != 0 { p1.push(seq!['T', 'y', 'p', 'e']) } else { p1 };
    let p3 = if bits & SCOPE_FN_PARAM != 0 {
        p2.push(seq!['F', 'n', 'P', 'a', 'r', 'a', 'm'])
    } else {
        p2
    };
    let p4 = if bits & SCOPE_FN_LOCAL != 0 {
        p3.push(seq!['F', 'n', 'L', 'o', 'c', 'a', 'l'])
    } else {
        p3
    };
    let p5 = if bits & SCOPE_RECURSIVE != 0 {
        p4.push(seq!['R', 'e', 'c', 'u', 'r', 's', 'i', 'v', 'e'])
    } else {
        p4
    };
    let p6 = if bits & SCOPE_INSTANCE != 0 {
        p5.push(seq!['I', 'n', 's', 't', 'a', 'n', 'c', 'e'])
    } else {
        p5
    };
    if bits & SCOPE_REMOTE != 0 {
        p6.push(seq!['R', 'e', 'm', 'o', 't', 'e'])
    } else {
        p6
    }
}

/// The names joined with a comma and a space between each two.
pub open spec fn join_names(parts: Seq<Seq<char>>) -> Seq<char>
    decreases parts.len(),
{
    if parts.len() == 0 {
        Seq::empty()
    } else if parts.len() == 1 {
        parts[0]
    } else {
        join_names(parts.drop_last()) + seq![',', ' '] + parts.last()
    }
}

/// How a set of flags is written: the names of its flags in brackets.
pub open spec fn scope_kind_text(bits: u16) -> Seq<char> {
    seq!['['] + join_names(flag_names(bits)) + seq![']']
}

/// Appends the name of one flag to the text being built, after a separator
/// unless it is the first.
fn add_flag_name(out: &mut String, first: &mut bool, set: bool, rep: &str, Ghost(parts): Ghost<
    Seq<Seq<char>>,
>) -> (new_parts: Ghost<Seq<Seq<char>>>)
    requires
        old(out)@ == seq!['['] + join_names(parts),
        *old(first) <==> parts.len() == 0,
    ensures
        new_parts@ == (if set { parts.push(rep@) } else { parts }),
        final(out)@ == seq!['['] + join_names(new_parts@),
        *final(first) <==> new_parts@.len() == 0,
{
    if !set {
        return Ghost(parts);
    }
    let ghost np = parts.push(rep@);
    assert(np.drop_last() =~= parts);
    if !*first {
        proof {
            reveal_strlit(", ");
        }
        out.append(", ");
    }
    *first = false;
    out.append(rep);
    assert(out@ =~= seq!['['] + join_names(np));
    Ghost(np)
}

impl ScopeKind {
    /// The flags `bits`, without any bit that names no flag.
    pub fn from_bits_truncate(bits: u16) -> (r: Self)
        ensures
            r@ == bits & SCOPE_ALL,
    {
        ScopeKind { bits: bits & SCOPE_ALL }
    }

    pub fn new(bits: u16) -> (r: Self)
        ensures
            r@ == bits,
    {
        ScopeKind { bits }
    }

    pub fn empty() -> (r: Self)
        ensures
            r@ == 0,
    {
        ScopeKind { bits: 0 }
    }

    pub fn bits(&self) -> (r: u16)
        ensures
            r == self@,
    {
        self.bits
    }

    pub fn contains(&self, other: ScopeKind) -> (r: bool)
        ensures
            r == flags_contain(self@, other@),
    {
        self.bits & other.bits == other.bits
    }

    pub fn is_empty(&self) -> (r: bool)
        ensures
            r == (self@ == 0),
    {
        self.bits == 0
    }

    pub fn insert(&mut self, other: ScopeKind)
        ensures
            final(self)@ == old(self)@ | other@,
    {
        self.bits = self.bits | other.bits;
    }

    pub fn remove(&mut self, other: ScopeKind)
        ensures
            final(self)@ == old(self)@ & !other@,
    {
        self.bits = self.bits & !other.bits;
    }

    pub fn union(&self, other: ScopeKind) -> (r: Self)
        ensures
            r@ == self@ | other@,
    {
        ScopeKind { bits: self.bits | other.bits }
    }

    /// The flags written out, as in `[Type, Recursive]`.
    pub fn to_string(&self) -> (r: String)
        ensures
            r@ == scope_kind_text(self@),
    {
        let bits = self.bits;
        proof {
            reveal_strlit("[");
            reveal_strlit("]");
            reveal_strlit("Global");
            reveal_strlit("Type");
            reveal_strlit("FnParam");
            reveal_strlit("FnLocal");
            reveal_strlit("Recursive");
            reveal_strlit("Instance");
            reveal_strlit("Remote");
            assert("Global"@ =~= seq!['G', 'l', 'o', 'b', 'a', 'l']);
            assert("Type"@ =~= seq!['T', 'y', 'p', 'e']);
            assert("FnParam"@ =~= seq!['F', 'n', 'P', 'a', 'r', 'a', 'm']);
            assert("FnLocal"@ =~= seq!['F', 'n', 'L', 'o', 'c', 'a', 'l']);
            assert("Recursive"@ =~= seq!['R', 'e', 'c', 'u', 'r', 's', 'i', 'v', 'e']);
            assert("Instance"@ =~= seq!['I', 'n', 's', 't', 'a', 'n', 'c', 'e']);
            assert("Remote"@ =~= seq!['R', 'e', 'm', 'o', 't', 'e']);
        }
        let mut out = <String as StringExecFns>::from_str("[");
        let mut first = true;
        let ghost p0 = Seq::<Seq<char>>::empty();
        assert(out@ =~= seq!['['] + join_names(p0));
        let Ghost(p1) = add_flag_name(&mut out, &mut first, bits & SCOPE_GLOBAL != 0, "Global", Ghost(p0));
        let Ghost(p2) = add_flag_name(&mut out, &mut first, bits & SCOPE_TYPE != 0, "Type", Ghost(p1));
        let Ghost(p3) = add_flag_name(&mut out, &mut first, bits & SCOPE_FN_PARAM != 0, "FnParam", Ghost(p2));
        let Ghost(p4) = add_flag_name(&mut out, &mut first, bits & SCOPE_FN_LOCAL != 0, "FnLocal", Ghost(p3));
        let Ghost(p5) = add_flag_name(&mut out, &mut first, bits & SCOPE_RECURSIVE != 0, "Recursive", Ghost(p4));
        let Ghost(p6) = add_flag_name(&mut out, &mut first, bits & SCOPE_INSTANCE != 0, "Instance", Ghost(p5));
        let Ghost(p7) = add_flag_name(&mut out, &mut first, bits & SCOPE_REMOTE != 0, "Remote", Ghost(p6));
        assert(p7 =~= flag_names(bits));
        out.append("]");
        assert(out@ =~= scope_kind_text(bits));
        out
    }
}

/// A named value of a scope, with its type and, optionally, its first value.
#[derive(Debug)]
pub struct Variable {
    pub name: TokenValue<Vec<u8>>,
    pub ty: ItemRef,
    pub initial: Option<Expr>,
}

/// The name of a variable.
pub open spec fn var_name(v: Variable) -> Seq<u8> {
    name_bytes(v.name)
}

impl Variable {
    pub fn new(name: TokenValue<Vec<u8>>, ty: ItemRef) -> (r: Self)
        ensures
            r.name == name,
            r.ty == ty,
            r.initial is None,
    {
        Variable { name, ty, initial: None }
    }

    pub fn name(&self) -> (r: &TokenValue<Vec<u8>>)
        ensures
            *r == self.name,
    {
        &self.name
    }

    /// The index of the variable's type, once it has been looked up.
    pub fn ty(&self) -> (r: usize)
        requires
            self.ty.item is Some,
        ensures
            r == self.ty.item.unwrap(),
    {
        self.ty.unwrap()
    }

    pub fn set_initial(&mut self, initial: Expr)
        ensures
            final(self).name == old(self).name,
            final(self).ty == old(self).ty,
            final(self).initial == Some(initial),
    {
        self.initial = Some(initial);
    }
}

/// Where a variable stands: the index of its scope, and its index there.
#[derive(Debug, Copy, Clone, PartialEq, Eq, Structural)]
pub struct VarRef {
    pub scope: usize,
    pub index: usize,
}

/// A level of names: its kind, its variables, the scope around it and its
/// place in the source.
#[derive(Debug)]
pub struct Scope {
    pub kind: ScopeKind,
    pub vars: Vec<Variable>,
    pub parent: Option<usize>,
    pub span: TokenSpan,
}

impl Scope {
    /// A scope with no parent.
    pub fn new(kind: ScopeKind, span: TokenSpan) -> (r: Self)
        ensures
            r.kind == kind,
            r.vars@.len() == 0,
            r.parent is None,
            r.span == span,
    {
        Scope { kind, vars: Vec::new(), parent: None, span }
    }

    /// A scope inside the scope at index `parent`.
    pub fn child(parent: usize, kind: ScopeKind, span: TokenSpan) -> (r: Self)
        ensures
            r.kind == kind,
            r.vars@.len() == 0,
            r.parent == Some(parent),
            r.span == span,
    {
        Scope { kind, vars: Vec::new(), parent: Some(parent), span }
    }

    pub fn parent(&self) -> (r: Option<usize>)
        ensures
            r == self.parent,
    {
        self.parent
    }

    pub fn kind(&self) -> (r: ScopeKind)
        ensures
            r == self.kind,
    {
        self.kind
    }

    /// Moves the end of the scope's span.
    pub fn set_span(&mut self, span: TokenSpan)
        ensures
            final(self).kind == old(self).kind,
            final(self).vars == old(self).vars,
            final(self).parent == old(self).parent,
            final(self).span == span,
    {
        self.span = span;
    }
}

/// Whether a scope holds a variable of that name itself.
pub open spec fn local_has(s: Scope, name: Seq<u8>) -> bool {
    exists|i: int| 0 <= i < s.vars@.len() && #[trigger] var_name(s.vars@[i]) == name
}

/// The index of the variable of that name in a scope that holds it.
pub open spec fn local_index(s: Scope, name: Seq<u8>) -> int {
    choose|i: int| 0 <= i < s.vars@.len() && #[trigger] var_name(s.vars@[i]) == name
}

/// No two variables share a name.
pub open spec fn names_unique(vars: Seq<Variable>) -> bool {
    forall|i: int, j: int|
        0 <= i < vars.len() && 0 <= j < vars.len() && i != j ==> var_name(#[trigger] vars[i])
            != var_name(#[trigger] vars[j])
}

/// Scopes kept by index: a scope's parent comes before it, and no scope
/// holds two variables of one name.
pub open spec fn scopes_wf(sc: Seq<Scope>) -> bool {
    forall|i: int|
        0 <= i < sc.len() ==> (#[trigger] sc[i].parent matches Some(p) ==> p < i) && names_unique(
            sc[i].vars@,
        )
}

/// Whether the name is defined in the scope or any scope around it.
pub open spec fn scope_has(sc: Seq<Scope>, id: int, name: Seq<u8>) -> bool
    decreases id,
{
    if 0 <= id < sc.len() {
        local_has(sc[id], name) || match sc[id].parent {
            Some(p) => p < id && scope_has(sc, p as int, name),
            None => false,
        }
    } else {
        false
    }
}

/// The variable of that name in the scope or the nearest scope around it.
pub open spec fn scope_find(sc: Seq<Scope>, id: int, name: Seq<u8>) -> Option<VarRef>
    decreases id,
{
    if 0 <= id < sc.len() {
        if local_has(sc[id], name) {
            Some(VarRef { scope: id as usize, index: local_index(sc[id], name) as usize })
        } else {
            match sc[id].parent {
                Some(p) => if p < id {
                    scope_find(sc, p as int, name)
                } else {
                    None
                },
                None => None,
            }
        }
    } else {
        None
    }
}

/// The variable of that name in the scopes that the filter `kind` lets a
/// lookup see: a scope is searched when the filter holds all of its flags, and
/// the search goes on to the parent when the filter is recursive.
pub open spec fn scope_find_filtered(sc: Seq<Scope>, id: int, name: Seq<u8>, kind: u16) -> Option<
    VarRef,
>
    decreases id,
{
    if 0 <= id < sc.len() {
        if flags_contain(kind, sc[id].kind@) && local_has(sc[id], name) {
            Some(VarRef { scope: id as usize, index: local_index(sc[id], name) as usize })
        } else if flags_contain(kind, SCOPE_RECURSIVE) {
            match sc[id].parent {
                Some(p) => if p < id {
                    scope_find_filtered(sc, p as int, name, kind)
                } else {
                    None
                },
                None => None,
            }
        } else {
            None
        }
    } else {
        None
    }
}

/// How many scopes lie around a scope.
pub open spec fn scope_level(sc: Seq<Scope>, id: int) -> nat
    decreases id,
{
    if 0 <= id < sc.len() {
        match sc[id].parent {
            Some(p) => if p < id {
                1 + scope_level(sc, p as int)
            } else {
                0
            },
            None => 0,
        }
    } else {
        0
    }
}

/// The scopes `new` are the scopes `old` with `var` added to the scope `id`.
pub open spec fn var_added(old: Seq<Scope>, new: Seq<Scope>, id: int, var: Variable) -> bool {
    &&& new.len() == old.len()
    &&& forall|i: int| 0 <= i < old.len() && i != id ==> new[i] == old[i]
    &&& new[id].vars@ == old[id].vars@.push(var)
    &&& new[id].kind == old[id].kind
    &&& new[id].parent == old[id].parent
    &&& new[id].span == old[id].span
}

/// The first of the variables from `k` on whose name the scope `parent`
/// or a scope around it defines.
pub open spec fn clash_from(vars: Seq<Variable>, sc: Seq<Scope>, parent: int, k: int) -> Option<int>
    decreases vars.len() - k,
{
    if k < 0 || k >= vars.len() {
        None
    } else if scope_has(sc, parent, var_name(vars[k])) {
        Some(k)
    } else {
        clash_from(vars, sc, parent, k + 1)
    }
}

/// The message when a scope that has a parent is given another.
pub const SET_PARENT_REASON: &'static str = "can't set parent on scope that already has a parent";

/// Which scopes a lookup may see: a scope and the kinds of scope to look in.
#[derive(Debug, Copy, Clone, PartialEq, Eq, Structural)]
pub struct ScopeFilter {
    pub scope: usize,
    pub kind: ScopeKind,
}

impl ScopeFilter {
    pub fn new(scope: usize, kind: ScopeKind) -> (r: Self)
        ensures
            r.scope == scope,
            r.kind == kind,
    {
        ScopeFilter { scope, kind }
    }

    pub fn to_inner(&self) -> (r: usize)
        ensures
            r == self.scope,
    {
        self.scope
    }

    pub fn kind(&self) -> (r: ScopeKind)
        ensures
            r == self.kind,
    {
        self.kind
    }

    pub fn set_kind(&mut self, kind: ScopeKind)
        ensures
            final(self).scope == old(self).scope,
            final(self).kind == kind,
    {
        self.kind = kind;
    }
}

/// Looks for a variable by name among a scope's own variables.
fn find_local(s: &Scope, name: &[u8]) -> (r: Option<usize>)
    requires
        names_unique(s.vars@),
    ensures
        r is Some <==> local_has(*s, name@),
        r matches Some(i) ==> i == local_index(*s, name@) && i < s.vars@.len(),
{
    let mut i: usize = 0;
    while i < s.vars.len()
        invariant
            i <= s.vars@.len(),
            names_unique(s.vars@),
            forall|j: int| 0 <= j < i ==> var_name(#[trigger] s.vars@[j]) != name@,
        decreases s.vars@.len() - i,
    {
        if bytes_eq(s.vars[i].name.value().as_slice(), name) {
            proof {
                let k = local_index(*s, name@);
                assert(var_name(s.vars@[i as int]) == name@);
                assert(local_has(*s, name@));
                assert(var_name(s.vars@[k]) == name@);
            }
            return Some(i);
        }
        i = i + 1;
    }
    None
}

/// The scopes of a program, each known by its index.
#[derive(Debug)]
pub struct Scopes {
    items: Vec<Scope>,
}

impl View for Scopes {
    type V = Seq<Scope>;

    closed spec fn view(&self) -> Seq<Scope> {
        self.items@
    }
}

impl Scopes {
    pub fn new() -> (r: Self)
        ensures
            r@.len() == 0,
    {
        Scopes { items: Vec::new() }
    }

    pub fn len(&self) -> (r: usize)
        ensures
            r == self@.len(),
    {
        self.items.len()
    }

    pub fn get(&self, id: usize) -> (r: &Scope)
        requires
            id < self@.len(),
        ensures
            *r == self@[id as int],
    {
        &self.items[id]
    }

    /// Adds a scope; it gets the next index.
    pub fn push(&mut self, scope: Scope) -> (id: usize)
        requires
            scopes_wf(old(self)@),
            scope.parent matches Some(p) ==> p < old(self)@.len(),
            names_unique(scope.vars@),
        ensures
            id == old(self)@.len(),
            final(self)@ == old(self)@.push(scope),
            scopes_wf(final(self)@),
    {
        let id = self.items.len();
        self.items.push(scope);
        proof {
            assert forall|i: int| 0 <= i < self@.len() implies (#[trigger] self@[i].parent matches Some(
                p,
            ) ==> p < i) && names_unique(self@[i].vars@) by {
                if i < id {
                    assert(self@[i] == old(self)@[i]);
                }
            }
        }
        id
    }

    pub fn kind(&self, id: usize) -> (r: ScopeKind)
        requires
            id < self@.len(),
        ensures
            r == self@[id as int].kind,
    {
        self.items[id].kind
    }

    pub fn parent(&self, id: usize) -> (r: Option<usize>)
        requires
            id < self@.len(),
        ensures
            r == self@[id as int].parent,
    {
        self.items[id].parent
    }

    /// Whether the name is defined in the scope or any scope around it.
    pub fn has(&self, id: usize, name: &[u8]) -> (r: bool)
        requires
            scopes_wf(self@),
            id < self@.len(),
        ensures
            r == scope_has(self@, id as int, name@),
    {
        let mut cur = id;
        loop
            invariant
                scopes_wf(self@),
                cur < self@.len(),
                scope_has(self@, id as int, name@) == scope_has(self@, cur as int, name@),
            decreases cur,
        {
            if find_local(&self.items[cur], name).is_some() {
                return true;
            }
            match self.items[cur].parent {
                Some(p) => {
                    cur = p;
                },
                None => {
                    return false;
                },
            }
        }
    }

    /// Whether a lookup through the filter `kind` finds the name.
    pub fn has_filtered(&self, id: usize, name: &[u8], kind: ScopeKind) -> (r: bool)
        requires
            scopes_wf(self@),
            id < self@.len(),
        ensures
            r == scope_find_filtered(self@, id as int, name@, kind@) is Some,
    {
        self.find_filtered(id, name, kind).is_some()
    }

    /// The variable that a lookup through the filter `kind` finds.
    pub fn find_filtered(&self, id: usize, name: &[u8], kind: ScopeKind) -> (r: Option<VarRef>)
        requires
            scopes_wf(self@),
            id < self@.len(),
        ensures
            r == scope_find_filtered(self@, id as int, name@, kind@),
    {
        let mut cur = id;
        loop
            invariant
                scopes_wf(self@),
                cur < self@.len(),
                scope_find_filtered(self@, id as int, name@, kind@) == scope_find_filtered(
                    self@,
                    cur as int,
                    name@,
                    kind@,
                ),
            decreases cur,
        {
            if kind.contains(self.items[cur].kind) {
                if let Some(i) = find_local(&self.items[cur], name) {
                    return Some(VarRef { scope: cur, index: i });
                }
            }
            if !kind.contains(ScopeKind { bits: SCOPE_RECURSIVE }) {
                return None;
            }
            match self.items[cur].parent {
                Some(p) => {
                    cur = p;
                },
                None => {
                    return None;
                },
            }
        }
    }

    /// The variable that a lookup through the filter `kind` finds, to be
    /// changed by the caller.
    pub fn find_filtered_mut(&self, id: usize, name: &[u8], kind: ScopeKind) -> (r: Option<VarRef>)
        requires
            scopes_wf(self@),
            id < self@.len(),
        ensures
            r == scope_find_filtered(self@, id as int, name@, kind@),
    {
        self.find_filtered(id, name, kind)
    }

    /// The variable of that name in the scope or the nearest scope around it.
    pub fn find(&self, id: usize, name: &[u8]) -> (r: Option<VarRef>)
        requires
            scopes_wf(self@),
            id < self@.len(),
        ensures
            r == scope_find(self@, id as int, name@),
    {
        let mut cur = id;
        loop
            invariant
                scopes_wf(self@),
                cur < self@.len(),
                scope_find(self@, id as int, name@) == scope_find(self@, cur as int, name@),
            decreases cur,
        {
            if let Some(i) = find_local(&self.items[cur], name) {
                return Some(VarRef { scope: cur, index: i });
            }
            match self.items[cur].parent {
                Some(p) => {
                    cur = p;
                },
                None => {
                    return None;
                },
            }
        }
    }

    /// How many scopes lie around a scope.
    pub fn level(&self, id: usize) -> (r: u32)
        requires
            scopes_wf(self@),
            id < self@.len(),
            id <= u32::MAX,
        ensures
            r == scope_level(self@, id as int),
    {
        let mut cur = id;
        let mut n: u32 = 0;
        loop
            invariant
                scopes_wf(self@),
                cur < self@.len(),
                id <= u32::MAX,
                n + cur <= id,
                n + scope_level(self@, cur as int) == scope_level(self@, id as int),
            decreases cur,
        {
            match self.items[cur].parent {
                Some(p) => {
                    n = n + 1;
                    cur = p;
                },
                None => {
                    return n;
                },
            }
        }
    }

    /// Adds a variable to a scope. It is refused when the scope or a scope
    /// around it already defines the name.
    pub fn insert(&mut self, id: usize, var: Variable) -> (r: Result<VarRef, AstErrorKind>)
        requires
            scopes_wf(old(self)@),
            id < old(self)@.len(),
        ensures
            scopes_wf(final(self)@),
            scope_has(old(self)@, id as int, var_name(var)) ==> final(self)@ == old(self)@ && (
            r matches Err(e) && is_duplicate(e, var_name(var), var.name.spec_span(), "variable")),
            !scope_has(old(self)@, id as int, var_name(var)) ==> r == Ok::<VarRef, AstErrorKind>(
                VarRef { scope: id, index: old(self)@[id as int].vars@.len() as usize },
            ) && var_added(old(self)@, final(self)@, id as int, var),
    {
        if self.has(id, var.name.value().as_slice()) {
            let span = var.name.span().clone();
            return Err(AstErrorKind::DuplicateDefinition(var.name.into_inner(), span, "variable"));
        }
        let index = self.items[id].vars.len();
        self.items[id].vars.push(var);
        Ok(VarRef { scope: id, index })
    }

    /// Puts a scope that has no parent inside the scope `parent`. It is
    /// refused when the scope has a parent already, or when one of its
    /// variables is defined in `parent` or around it; then the first such
    /// variable is named.
    pub fn set_parent(&mut self, id: usize, parent: usize) -> (r: Result<(), AstErrorKind>)
        requires
            scopes_wf(old(self)@),
            id < old(self)@.len(),
            parent < id,
        ensures
            scopes_wf(final(self)@),
            old(self)@[id as int].parent is Some ==> final(self)@ == old(self)@ && r == Err::<
                (),
                AstErrorKind,
            >(AstErrorKind::InvalidOperation(SET_PARENT_REASON)),
            old(self)@[id as int].parent is None ==> match clash_from(
                old(self)@[id as int].vars@,
                old(self)@,
                parent as int,
                0,
            ) {
                Some(i) => final(self)@ == old(self)@ && (r matches Err(e) && is_duplicate(
                    e,
                    var_name(old(self)@[id as int].vars@[i]),
                    old(self)@[id as int].vars@[i].name.spec_span(),
                    "variable",
                )),
                None => r is Ok && final(self)@ == old(self)@.update(
                    id as int,
                    Scope { parent: Some(parent), ..old(self)@[id as int] },
                ),
            },
    {
        if self.items[id].parent.is_some() {
            return Err(AstErrorKind::InvalidOperation(SET_PARENT_REASON));
        }
        let mut i: usize = 0;
        while i < self.items[id].vars.len()
            invariant
                scopes_wf(self@),
                self@ == old(self)@,
                old(self)@[id as int].parent is None,
                id < self@.len(),
                parent < id,
                i <= self@[id as int].vars@.len(),
                clash_from(self@[id as int].vars@, self@, parent as int, 0) == clash_from(
                    self@[id as int].vars@,
                    self@,
                    parent as int,
                    i as int,
                ),
            decreases self@[id as int].vars@.len() - i,
        {
            if self.has(parent, self.items[id].vars[i].name.value().as_slice()) {
                let name = slice_to_vec(self.items[id].vars[i].name.value().as_slice());
                let span = self.items[id].vars[i].name.span().clone();
                return Err(AstErrorKind::DuplicateDefinition(name, span, "variable"));
            }
            i = i + 1;
        }
        self.items[id].parent = Some(parent);
        Ok(())
    }
}

/// A variable that was added to a scope because no scope in its chain
/// defined its name is what a lookup of that name from the scope finds.
pub proof fn lemma_insert_then_find(old: Seq<Scope>, new: Seq<Scope>, id: int, var: Variable)
    requires
        scopes_wf(old),
        0 <= id < old.len(),
        !scope_has(old, id, var_name(var)),
        var_added(old, new, id, var),
    ensures
        scope_find(new, id, var_name(var)) == Some(VarRef { scope: id as usize, index: old[id].vars@.len() as usize }),
        scope_has(new, id, var_name(var)),
{
    let name = var_name(var);
    let n = old[id].vars@.len() as int;
    assert(new[id].vars@[n] == var);
    assert(local_has(new[id], name));
    let k = local_index(new[id], name);
    assert(var_name(new[id].vars@[k]) == name);
    if k != n {
        assert(new[id].vars@[k] == old[id].vars@[k]);
        assert(local_has(old[id], name));
        assert(false);
    }
}

/// Adding a variable to a scope hides no name: every name that a scope
/// defined before, it still defines.
pub proof fn lemma_insert_keeps_names(old: Seq<Scope>, new: Seq<Scope>, id: int, var: Variable, other: int, name: Seq<u8>)
    requires
        scopes_wf(old),
        0 <= id < old.len(),
        var_added(old, new, id, var),
        scope_has(old, other, name),
    ensures
        scope_has(new, other, name),
    decreases other,
{
    if 0 <= other < old.len() {
        if local_has(old[other], name) {
            let i = choose|i: int| 0 <= i < old[other].vars@.len() && #[trigger] var_name(old[other].vars@[i]) == name;
            if other == id {
                assert(new[other].vars@[i] == old[other].vars@[i]);
            } else {
                assert(new[other] == old[other]);
            }
            assert(var_name(new[other].vars@[i]) == name);
        } else {
            match old[other].parent {
                Some(p) => {
                    lemma_insert_keeps_names(old, new, id, var, p as int, name);
                    if other != id {
                        assert(new[other] == old[other]);
                    }
                },
                None => {},
            }
        }
    }
}

/// A scope added inside another lies one level deeper.
pub proof fn lemma_child_level(old: Seq<Scope>, child: Scope)
    requires
        scopes_wf(old),
        child.parent matches Some(p) && p < old.len(),
    ensures
        scope_level(old.push(child), old.len() as int) == 1 + scope_level(old, child.parent.unwrap() as int),
{
    let new = old.push(child);
    let p = child.parent.unwrap() as int;
    lemma_level_prefix(old, new, p);
}

/// The level of a scope depends only on the scopes before it.
proof fn lemma_level_prefix(old: Seq<Scope>, new: Seq<Scope>, id: int)
    requires
        scopes_wf(old),
        0 <= id < old.len(),
        old.len() <= new.len(),
        forall|i: int| 0 <= i < old.len() ==> new[i] == old[i],
    ensures
        scope_level(new, id) == scope_level(old, id),
    decreases id,
{
    match old[id].parent {
        Some(p) => lemma_level_prefix(old, new, p as int),
        None => {},
    }
}

/// The scopes `b` are the scopes `a` but for the first values of their
/// variables: the same kinds, parents and variable names, in order.
pub open spec fn same_shape(a: Seq<Scope>, b: Seq<Scope>) -> bool {
    &&& a.len() == b.len()
    &&& forall|i: int|
        0 <= i < a.len() ==> (#[trigger] b[i]).kind == a[i].kind && b[i].parent == a[i].parent
            && b[i].span == a[i].span && b[i].vars@.len() == a[i].vars@.len()
    &&& forall|i: int, k: int|
        0 <= i < a.len() && 0 <= k < a[i].vars@.len() ==> var_name(#[trigger] b[i].vars@[k]) == var_name(
            a[i].vars@[k],
        ) && b[i].vars@[k].name == a[i].vars@[k].name && b[i].vars@[k].ty == a[i].vars@[k].ty
}

/// Lookups see only the shape of the scopes.
pub proof fn lemma_find_filtered_shape(a: Seq<Scope>, b: Seq<Scope>, id: int, name: Seq<u8>, kind: u16)
    requires
        scopes_wf(a),
        scopes_wf(b),
        same_shape(a, b),
    ensures
        scope_find_filtered(a, id, name, kind) == scope_find_filtered(b, id, name, kind),
    decreases id,
{
    if 0 <= id < a.len() {
        assert(b[id].kind == a[id].kind);
        if local_has(a[id], name) {
            let i = choose|i: int| 0 <= i < a[id].vars@.len() && #[trigger] var_name(a[id].vars@[i]) == name;
            assert(var_name(b[id].vars@[i]) == name);
            assert(local_has(b[id], name));
            let ka = local_index(a[id], name);
            let kb = local_index(b[id], name);
            assert(var_name(a[id].vars@[ka]) == name);
            assert(var_name(b[id].vars@[kb]) == name);
            assert(var_name(a[id].vars@[kb]) == name);
            assert(ka == kb);
        } else if local_has(b[id], name) {
            let i = choose|i: int| 0 <= i < b[id].vars@.len() && #[trigger] var_name(b[id].vars@[i]) == name;
            assert(var_name(a[id].vars@[i]) == name);
        }
        match a[id].parent {
            Some(p) => {
                if p < id {
                    lemma_find_filtered_shape(a, b, p as int, name, kind);
                }
            },
            None => {},
        }
    }
}

/// Lookups in scopes of the same shape agree.
pub proof fn lemma_lookup_shape(a: Seq<Scope>, b: Seq<Scope>)
    requires
        scopes_wf(a),
        scopes_wf(b),
        same_shape(a, b),
    ensures
        lookup_in(a) == lookup_in(b),
{
    assert forall|v: ExprVar| #[trigger] lookup_in(a)(v) == lookup_in(b)(v) by {
        lemma_find_filtered_shape(
            a,
            b,
            v.scope_filter.scope as int,
            name_bytes(v.name),
            v.scope_filter.kind@,
        );
    }
    assert(lookup_in(a) =~= lookup_in(b));
}

/// Whether the first value of every variable of the list names only
/// variables that are found.
pub open spec fn inits_found(vars: Seq<Variable>, look: spec_fn(ExprVar) -> Option<VarRef>) -> bool {
    forall|k: int| 0 <= k < vars.len() ==> ((#[trigger] vars[k]).initial matches Some(e) ==> expr_found(e, look))
}

pub proof fn lemma_same_shape_trans(a: Seq<Scope>, b: Seq<Scope>, c: Seq<Scope>)
    requires
        same_shape(a, b),
        same_shape(b, c),
    ensures
        same_shape(a, c),
{
    assert forall|i: int, k: int|
        0 <= i < a.len() && 0 <= k < a[i].vars@.len() implies var_name(#[trigger] c[i].vars@[k]) == var_name(
        a[i].vars@[k],
    ) && c[i].vars@[k].name == a[i].vars@[k].name && c[i].vars@[k].ty == a[i].vars@[k].ty by {
        assert(var_name(b[i].vars@[k]) == var_name(a[i].vars@[k]));
        assert(b[i].vars@.len() == a[i].vars@.len());
        assert(var_name(c[i].vars@[k]) == var_name(b[i].vars@[k]));
    }
}

impl Scopes {
    /// Resolves the first value of each variable of a scope, in order; the
    /// first value that names a variable not found is an error.
    pub fn resolve_scope(&mut self, id: usize) -> (r: Result<(), AstErrorKind>)
        requires
            scopes_wf(old(self)@),
            inits_in(old(self)@),
            id < old(self)@.len(),
        ensures
            scopes_wf(final(self)@),
            inits_in(final(self)@),
            same_shape(old(self)@, final(self)@),
            forall|s: int| 0 <= s < old(self)@.len() && s != id ==> #[trigger] final(self)@[s] == old(self)@[s],
            r is Ok <==> inits_found(old(self)@[id as int].vars@, lookup_in(old(self)@)),
            r is Ok ==> inits_found(final(self)@[id as int].vars@, lookup_in(final(self)@)),
            r is Ok ==> scope_resolved(old(self)@[id as int], final(self)@[id as int], lookup_in(old(self)@)),
            r matches Err(err) ==> (err matches AstErrorKind::NotDefined(_, _, w) && w == "variable"),
    {
        let n = self.items[id].vars.len();
        let mut k: usize = 0;
        proof {
            assert(same_shape(old(self)@, self@));
        }
        while k < n
            invariant
                scopes_wf(old(self)@),
                scopes_wf(self@),
                inits_in(self@),
                id < self@.len(),
                n == self@[id as int].vars@.len(),
                k <= n,
                same_shape(old(self)@, self@),
                forall|j: int| k <= j < n ==> #[trigger] self@[id as int].vars@[j] == old(self)@[id as int].vars@[j],
                forall|j: int|
                    0 <= j < k ==> ((#[trigger] old(self)@[id as int].vars@[j]).initial matches Some(e)
                        ==> expr_found(e, lookup_in(old(self)@))),
                forall|j: int|
                    0 <= j < k ==> ((#[trigger] self@[id as int].vars@[j]).initial matches Some(e)
                        ==> expr_found(e, lookup_in(old(self)@))),
                forall|s: int| 0 <= s < old(self)@.len() && s != id ==> #[trigger] self@[s] == old(self)@[s],
                forall|j: int|
                    0 <= j < k ==> init_resolved(old(self)@[id as int].vars@[j], #[trigger] self@[id as int].vars@[j], lookup_in(old(self)@)),
            decreases n - k,
        {
            let ghost before = self@;
            let init = self.items[id].vars[k].initial.take();
            let ghost mid = self@;
            proof {
                assert(same_shape(before, mid));
                assert forall|s: int, j: int| 0 <= s < mid.len() && 0 <= j < mid[s].vars@.len() implies init_in(
                    #[trigger] mid[s].vars@[j],
                    mid.len(),
                ) by {
                    if !(s == id && j == k) {
                        assert(init_in(before[s].vars@[j], before.len()));
                    }
                }
                assert(scopes_wf(mid));
                lemma_same_shape_trans(old(self)@, before, mid);
                lemma_lookup_shape(old(self)@, mid);
                assert(init_in(before[id as int].vars@[k as int], before.len()));
            }
            match init {
                Some(mut e) => {
                    let ghost e0 = e;
                    let res = resolve_expr(&*self, &mut e);
                    proof {
                        if res.is_ok() {
                            lemma_resolved_found(e0, e, lookup_in(mid), old(self)@);
                        }
                    }
                    self.items[id].vars[k].initial = Some(e);
                    proof {
                        assert(same_shape(mid, self@));
                        assert(scopes_wf(self@));
                        lemma_same_shape_trans(old(self)@, mid, self@);
                        assert forall|s: int, j: int| 0 <= s < self@.len() && 0 <= j < self@[s].vars@.len() implies init_in(
                            #[trigger] self@[s].vars@[j],
                            self@.len(),
                        ) by {
                            if !(s == id && j == k) {
                                assert(init_in(mid[s].vars@[j], mid.len()));
                            }
                        }
                    }
                    if res.is_err() {
                        return res;
                    }
                },
                None => {
                    self.items[id].vars[k].initial = None;
                    proof {
                        assert(same_shape(mid, self@));
                        lemma_same_shape_trans(old(self)@, mid, self@);
                    }
                },
            }
            k = k + 1;
        }
        proof {
            lemma_lookup_shape(old(self)@, self@);
        }
        Ok(())
    }
}

} // verus!
