//! The scope tree and symbol table: lexical scopes, the bindings declared in
//! each, and the symbols those bindings name. Built once per compilation
//! unit; a rewrite may add scopes and symbols but never removes any.

use vstd::prelude::*;

verus! {

pub type ScopeId = usize;

pub type SymbolId = usize;

/// Declaration-kind bits of a symbol.
pub type SymbolFlags = u8;

#[derive(Clone, Copy, PartialEq, Eq, Structural, Debug)]
pub enum ScopeKind {
    ProgramScope,
    FunctionScope,
    BlockScope,
    OtherScope,
}

/// One lexical scope: its parent link, kind, and the name-to-symbol mapping
/// of the bindings declared directly in it.
pub struct Scope {
    pub parent: Option<ScopeId>,
    pub kind: ScopeKind,
    pub bindings: Vec<(String, SymbolId)>,
}

/// One symbol: a logical binding, never duplicated and never reused.
pub struct Symbol {
    pub name: String,
    pub declaring_scope: ScopeId,
    pub flags: SymbolFlags,
}

/// The scope tree and symbol table of one compilation unit.
pub struct ScopeTree {
    pub scopes: Vec<Scope>,
    pub symbols: Vec<Symbol>,
}

/// The symbol that `name` is bound to in the binding list `b`: the first
/// entry with that name, or none.
pub open spec fn binding_in_list(b: Seq<(String, SymbolId)>, name: Seq<char>) -> Option<SymbolId>
    decreases b.len(),
{
    if b.len() == 0 {
        None
    } else if b[0].0@ == name {
        Some(b[0].1)
    } else {
        binding_in_list(b.drop_first(), name)
    }
}

/// A found binding points at an in-range entry carrying that name.
pub proof fn lemma_binding_in_list(b: Seq<(String, SymbolId)>, name: Seq<char>)
    ensures
        binding_in_list(b, name) matches Some(sym) ==> exists|j: int|
            0 <= j < b.len() && (#[trigger] b[j]).0@ == name && b[j].1 == sym,
        binding_in_list(b, name) is None ==> forall|j: int|
            0 <= j < b.len() ==> (#[trigger] b[j]).0@ != name,
    decreases b.len(),
{
    if b.len() > 0 {
        lemma_binding_in_list(b.drop_first(), name);
        if b[0].0@ != name {
            match binding_in_list(b.drop_first(), name) {
                Some(sym) => {
                    let j = choose|j: int|
                        0 <= j < b.drop_first().len() && (#[trigger] b.drop_first()[j]).0@ == name
                            && b.drop_first()[j].1 == sym;
                    assert(b[j + 1].0@ == name && b[j + 1].1 == sym);
                },
                None => {
                    assert forall|j: int| 0 <= j < b.len() implies (#[trigger] b[j]).0@ != name by {
                        if j > 0 {
                            assert(b.drop_first()[j - 1] == b[j]);
                        }
                    }
                },
            }
        }
    }
}

impl ScopeTree {
    /// Scope parent links point strictly downward (so they form a tree with
    /// no cycles), every binding names an existing symbol whose recorded
    /// name is the bound name, and every symbol's declaring scope exists.
    pub open spec fn wf(self) -> bool {
        &&& forall|s: int| 0 <= s < self.scopes@.len() ==>
            (#[trigger] self.scopes@[s].parent matches Some(p) ==> p < s)
        &&& forall|s: int, j: int|
            0 <= s < self.scopes@.len() && 0 <= j < self.scopes@[s].bindings@.len()
                ==> (#[trigger] self.scopes@[s].bindings@[j]).1 < self.symbols@.len()
                    && self.symbols@[self.scopes@[s].bindings@[j].1 as int].name@
                        == self.scopes@[s].bindings@[j].0@
        &&& forall|y: int| 0 <= y < self.symbols@.len()
                ==> (#[trigger] self.symbols@[y].declaring_scope) < self.scopes@.len()
    }

    /// The symbol that `name` is bound to directly in scope `s`, if any.
    pub open spec fn binding_in(self, s: ScopeId, name: Seq<char>) -> Option<SymbolId> {
        binding_in_list(self.scopes@[s as int].bindings@, name)
    }

    /// The nearest enclosing binding of `name`, searching from scope `s`
    /// outward along parent links.
    pub open spec fn resolve(self, s: ScopeId, name: Seq<char>) -> Option<SymbolId>
        decreases s,
    {
        match self.binding_in(s, name) {
            Some(sym) => Some(sym),
            None => match self.scopes@[s as int].parent {
                Some(p) => if p < s {
                    self.resolve(p, name)
                } else {
                    None
                },
                None => None,
            },
        }
    }

    /// A tree with one root scope of program kind and no symbols.
    pub fn new() -> (r: ScopeTree)
        ensures
            r.wf(),
            r.scopes@.len() == 1,
            r.symbols@.len() == 0,
            r.scopes@[0].parent is None,
            r.scopes@[0].kind == ScopeKind::ProgramScope,
            r.scopes@[0].bindings@.len() == 0,
    {
        let root = Scope { parent: None, kind: ScopeKind::ProgramScope, bindings: Vec::new() };
        let mut scopes: Vec<Scope> = Vec::new();
        scopes.push(root);
        ScopeTree { scopes, symbols: Vec::new() }
    }

    /// Makes a new scope under `parent` and returns its id.
    pub fn create_scope(&mut self, parent: ScopeId, kind: ScopeKind) -> (r: ScopeId)
        requires
            old(self).wf(),
            parent < old(self).scopes@.len(),
        ensures
            final(self).wf(),
            r == old(self).scopes@.len(),
            final(self).scopes@.len() == old(self).scopes@.len() + 1,
            final(self).scopes@.subrange(0, r as int) == old(self).scopes@,
            final(self).scopes@[r as int].parent == Some(parent),
            final(self).scopes@[r as int].kind == kind,
            final(self).scopes@[r as int].bindings@.len() == 0,
            final(self).symbols@ == old(self).symbols@,
    {
        let r = self.scopes.len();
        self.scopes.push(Scope { parent: Some(parent), kind, bindings: Vec::new() });
        proof {
            assert(self.scopes@.subrange(0, r as int) =~= old(self).scopes@);
        }
        r
    }

    /// The number of bindings declared directly in scope `s`.
    pub fn binding_count(&self, s: ScopeId) -> (r: usize)
        requires
            s < self.scopes@.len(),
        ensures
            r == self.scopes@[s as int].bindings@.len(),
    {
        self.scopes[s].bindings.len()
    }

    /// The number of symbols issued so far.
    pub fn symbol_count(&self) -> (r: usize)
        ensures
            r == self.symbols@.len(),
    {
        self.symbols.len()
    }

    /// Creates a fresh symbol named `name` and appends a binding of `name`
    /// to it in scope `s`. Does not itself enforce redeclaration rules:
    /// callers that need "already declared here" semantics query first.
    pub fn declare(&mut self, s: ScopeId, name: String, flags: SymbolFlags) -> (r: SymbolId)
        requires
            old(self).wf(),
            s < old(self).scopes@.len(),
        ensures
            final(self).wf(),
            r == old(self).symbols@.len(),
            final(self).symbols@.len() == old(self).symbols@.len() + 1,
            final(self).symbols@.subrange(0, r as int) == old(self).symbols@,
            final(self).symbols@[r as int].name@ == name@,
            final(self).symbols@[r as int].declaring_scope == s,
            final(self).symbols@[r as int].flags == flags,
            final(self).scopes@.len() == old(self).scopes@.len(),
            old(self).binding_in(s, name@) is None
                ==> final(self).binding_in(s, name@) == Some(r),
            old(self).binding_in(s, name@) matches Some(prev)
                ==> final(self).binding_in(s, name@) == Some(prev),
            forall|t: int| 0 <= t < final(self).scopes@.len() && t != s
                ==> #[trigger] final(self).scopes@[t] == old(self).scopes@[t],
            final(self).scopes@[s as int].parent == old(self).scopes@[s as int].parent,
            final(self).scopes@[s as int].kind == old(self).scopes@[s as int].kind,
            final(self).scopes@[s as int].bindings@
                == old(self).scopes@[s as int].bindings@.push(
                (final(self).scopes@[s as int].bindings@.last().0, r),
            ),
            final(self).scopes@[s as int].bindings@.last().0@ == name@,
    {
        let sid = self.symbols.len();
        self.symbols.push(Symbol { name: name.clone(), declaring_scope: s, flags });
        let mut scope = self.scopes.remove(s);
        scope.bindings.push((name, sid));
        self.scopes.insert(s, scope);
        proof {
            assert(self.symbols@.subrange(0, sid as int) =~= old(self).symbols@);
            assert(self.scopes@ =~= old(self).scopes@.update(
                s as int,
                self.scopes@[s as int],
            ));
            let old_b = old(self).scopes@[s as int].bindings@;
            let new_b = self.scopes@[s as int].bindings@;
            assert(new_b.last().0@ == name@ && new_b.last().1 == sid);
            lemma_binding_in_append(old_b, name@, new_b.last());
            assert(new_b == old_b.push(new_b.last()));
        }
        sid
    }

    /// Walks the scope chain from `s` up to the root and returns the nearest
    /// enclosing binding of `name`, or none: an unresolved (global or free)
    /// reference.
    pub fn find_binding(&self, s: ScopeId, name: &str) -> (r: Option<SymbolId>)
        requires
            self.wf(),
            s < self.scopes@.len(),
        ensures
            r == self.resolve(s, name@),
            r matches Some(sym) ==> sym < self.symbols@.len()
                && self.symbols@[sym as int].name@ == name@,
        decreases s,
    {
        let here = self.lookup_here(s, name);
        match here {
            Some(sym) => {
                proof {
                    lemma_binding_in_list(self.scopes@[s as int].bindings@, name@);
                }
                Some(sym)
            },
            None => match self.scopes[s].parent {
                Some(p) => self.find_binding(p, name),
                None => None,
            },
        }
    }

    /// Looks `name` up among the bindings declared directly in scope `s`.
    fn lookup_here(&self, s: ScopeId, name: &str) -> (r: Option<SymbolId>)
        requires
            s < self.scopes@.len(),
        ensures
            r == self.binding_in(s, name@),
    {
        let n = self.scopes[s].bindings.len();
        let mut i: usize = 0;
        proof {
            assert(self.scopes@[s as int].bindings@.skip(0) =~= self.scopes@[
                s as int
            ].bindings@);
        }
        while i < n
            invariant
                s < self.scopes@.len(),
                n == self.scopes@[s as int].bindings@.len(),
                i <= n,
                binding_in_list(self.scopes@[s as int].bindings@, name@) == binding_in_list(
                    self.scopes@[s as int].bindings@.skip(i as int),
                    name@,
                ),
            decreases n - i,
        {
            let hit = compare_str(self.scopes[s].bindings[i].0.as_str(), name);
            proof {
                let b = self.scopes@[s as int].bindings@;
                assert(b.skip(i as int)[0] == b[i as int]);
                assert(b.skip(i as int).drop_first() =~= b.skip(i as int + 1));
            }
            if hit {
                return Some(self.scopes[s].bindings[i].1);
            }
            i = i + 1;
        }
        proof {
            let b = self.scopes@[s as int].bindings@;
            assert(b.skip(n as int).len() == 0);
        }
        None
    }
}

/// Appending a binding leaves earlier names resolving as before and binds a
/// fresh name to the appended pair's symbol.
proof fn lemma_binding_in_append(b: Seq<(String, SymbolId)>, name: Seq<char>, p: (String, SymbolId))
    ensures
        binding_in_list(b.push(p), name) == (if binding_in_list(b, name) is Some {
            binding_in_list(b, name)
        } else if p.0@ == name {
            Some(p.1)
        } else {
            None::<SymbolId>
        }),
    decreases b.len(),
{
    reveal_with_fuel(binding_in_list, 2);
    if b.len() == 0 {
        assert(b.push(p).len() == 1);
        assert(b.push(p)[0] == p);
        if p.0@ != name {
            assert(b.push(p).drop_first() =~= Seq::<(String, SymbolId)>::empty());
        }
    } else {
        assert(b.push(p)[0] == b[0]);
        assert(b.push(p).drop_first() =~= b.drop_first().push(p));
        lemma_binding_in_append(b.drop_first(), name, p);
    }
}

/// Byte-for-byte string comparison.
pub fn compare_str(a: &str, b: &str) -> (r: bool)
    ensures
        r == (a@ == b@),
{
    let a_string = a.to_owned();
    let b_string = b.to_owned();
    a_string == b_string
}

} // verus!
