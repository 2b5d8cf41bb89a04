//! The hygienic binding subsystem: a `BoundIdentifier` is a small copyable
//! handle over one resolved symbol, and the factory for minting declaration
//! sites and use sites that all resolve to that symbol. `new_binding` mints
//! a fresh binding whose name cannot collide with any name reachable from
//! the requested scope.

use vstd::prelude::*;
use crate::Span;
use crate::ast::{
    BindingIdentifierNode, IdentifierReference, RefFlag, Expression, AssignmentTarget,
    SimpleAssignmentTarget,
};
use crate::model::{BindingIdM, IdentRefM, ExprM, TargetM, SimpleTargetM};
use crate::scope::{ScopeId, SymbolId, SymbolFlags, ScopeTree};

verus! {

/// Info about a binding, from which one can mint a binding identifier or
/// any number of identifier references.
#[derive(Clone)]
pub struct BoundIdentifier {
    pub name: String,
    pub symbol_id: SymbolId,
}

/// The model of a [`BoundIdentifier`].
#[verifier::ext_equal]
pub ghost struct BoundIdM {
    pub name: Seq<char>,
    pub symbol_id: SymbolId,
}

/// Like [`BoundIdentifier`], for a name that may be unresolved.
#[derive(Clone)]
pub struct MaybeBoundIdentifier {
    pub name: String,
    pub symbol_id: Option<SymbolId>,
}

/// A binding pattern, as minted for declaration sites.
pub enum BindingPattern {
    PatternIdent(BindingIdentifierNode),
    PatternOther { span: Span },
}

/// What minting a use site from a bound identifier yields: the handle's own
/// name and symbol, the requested flags and span.
pub open spec fn minted_reference(b: BoundIdM, span: Span, flags: RefFlag) -> IdentRefM {
    IdentRefM { name: b.name, symbol: Some(b.symbol_id), flags, span }
}

/// What minting a declaration site yields.
pub open spec fn minted_binding(b: BoundIdM, span: Span) -> BindingIdM {
    BindingIdM { name: b.name, symbol: Some(b.symbol_id), span }
}

/// Any two references minted from one bound identifier resolve to the same
/// symbol and carry byte-identical name text; the read/write flag and the
/// span are the only attributes in which they can differ.
pub proof fn lemma_minted_references_agree(
    b: BoundIdM,
    s1: Span,
    s2: Span,
    f1: RefFlag,
    f2: RefFlag,
)
    ensures
        minted_reference(b, s1, f1).symbol == minted_reference(b, s2, f2).symbol,
        minted_reference(b, s1, f1).symbol == Some(b.symbol_id),
        minted_reference(b, s1, f1).name == minted_reference(b, s2, f2).name,
        minted_reference(b, s1, f1).name == b.name,
        minted_reference(b, s1, f1).flags == f1,
        minted_reference(b, s1, f1).span == s1,
{
}

/// A declaration site and any use site minted from one bound identifier
/// agree on name text and symbol as well.
pub proof fn lemma_minted_sites_agree(b: BoundIdM, s1: Span, s2: Span, f2: RefFlag)
    ensures
        minted_binding(b, s1).symbol == minted_reference(b, s2, f2).symbol,
        minted_binding(b, s1).name == minted_reference(b, s2, f2).name,
{
}

impl BoundIdentifier {
    /// The model of this handle.
    pub open spec fn model(self) -> BoundIdM {
        BoundIdM { name: self.name@, symbol_id: self.symbol_id }
    }

    /// A handle for `name` and `symbol_id`.
    pub fn new(name: String, symbol_id: SymbolId) -> (r: BoundIdentifier)
        ensures
            r.model() == (BoundIdM { name: name@, symbol_id }),
    {
        BoundIdentifier { name, symbol_id }
    }

    /// A handle for an already-resolved declaration site.
    pub fn from_binding_ident(ident: &BindingIdentifierNode) -> (r: BoundIdentifier)
        requires
            ident.symbol is Some,
        ensures
            r.model() == (BoundIdM { name: ident.name@, symbol_id: ident.symbol->0 }),
    {
        let symbol_id = match ident.symbol {
            Some(s) => s,
            None => 0,
        };
        BoundIdentifier { name: clone_string(&ident.name), symbol_id }
    }

    /// This handle, weakened to one whose symbol may be absent.
    pub fn to_maybe_bound_identifier(&self) -> (r: MaybeBoundIdentifier)
        ensures
            r.name@ == self.name@,
            r.symbol_id == Some(self.symbol_id),
    {
        MaybeBoundIdentifier { name: clone_string(&self.name), symbol_id: Some(self.symbol_id) }
    }

    /// Mints a declaration site for this binding, with the synthetic span.
    pub fn create_binding_identifier(&self) -> (r: BindingIdentifierNode)
        ensures
            r.model() == minted_binding(self.model(), Span { start: 0, end: 0 }),
    {
        BindingIdentifierNode {
            name: clone_string(&self.name),
            symbol: Some(self.symbol_id),
            span: Span::synthetic(),
        }
    }

    /// Mints a binding pattern holding this binding's declaration site.
    pub fn create_binding_pattern(&self) -> (r: BindingPattern)
        ensures
            r matches BindingPattern::PatternIdent(b) && b.model() == minted_binding(
                self.model(),
                Span { start: 0, end: 0 },
            ),
    {
        BindingPattern::PatternIdent(self.create_binding_identifier())
    }

    // --- read only ---

    /// Mints a read use site, with the synthetic span.
    pub fn create_read_reference(&self) -> (r: IdentifierReference)
        ensures
            r.model() == minted_reference(self.model(), Span { start: 0, end: 0 }, RefFlag::Read),
    {
        self.create_spanned_read_reference(Span::synthetic())
    }

    /// Mints a read use site as an expression, with the synthetic span.
    pub fn create_read_expression(&self) -> (r: Expression)
        ensures
            r.model() == ExprM::Ident(
                minted_reference(self.model(), Span { start: 0, end: 0 }, RefFlag::Read),
            ),
    {
        self.create_spanned_read_expression(Span::synthetic())
    }

    /// Mints a read use site with the given span.
    pub fn create_spanned_read_reference(&self, span: Span) -> (r: IdentifierReference)
        ensures
            r.model() == minted_reference(self.model(), span, RefFlag::Read),
    {
        self.create_spanned_reference(span, RefFlag::Read)
    }

    /// Mints a read use site as an expression, with the given span.
    pub fn create_spanned_read_expression(&self, span: Span) -> (r: Expression)
        ensures
            r.model() == ExprM::Ident(minted_reference(self.model(), span, RefFlag::Read)),
    {
        self.create_spanned_expression(span, RefFlag::Read)
    }

    // --- write only ---

    /// Mints a write use site, with the synthetic span.
    pub fn create_write_reference(&self) -> (r: IdentifierReference)
        ensures
            r.model() == minted_reference(self.model(), Span { start: 0, end: 0 }, RefFlag::Write),
    {
        self.create_spanned_write_reference(Span::synthetic())
    }

    /// Mints a write use site as an expression, with the synthetic span.
    pub fn create_write_expression(&self) -> (r: Expression)
        ensures
            r.model() == ExprM::Ident(
                minted_reference(self.model(), Span { start: 0, end: 0 }, RefFlag::Write),
            ),
    {
        self.create_spanned_write_expression(Span::synthetic())
    }

    /// Mints a write use site as an assignment target, with the synthetic span.
    pub fn create_write_target(&self) -> (r: AssignmentTarget)
        ensures
            r.model() == TargetM::TargetIdent(
                minted_reference(self.model(), Span { start: 0, end: 0 }, RefFlag::Write),
            ),
    {
        self.create_spanned_write_target(Span::synthetic())
    }

    /// Mints a write use site as a simple assignment target, with the
    /// synthetic span.
    pub fn create_write_simple_target(&self) -> (r: SimpleAssignmentTarget)
        ensures
            r.model() == SimpleTargetM::SimpleIdent(
                minted_reference(self.model(), Span { start: 0, end: 0 }, RefFlag::Write),
            ),
    {
        self.create_spanned_write_simple_target(Span::synthetic())
    }

    /// Mints a write use site with the given span.
    pub fn create_spanned_write_reference(&self, span: Span) -> (r: IdentifierReference)
        ensures
            r.model() == minted_reference(self.model(), span, RefFlag::Write),
    {
        self.create_spanned_reference(span, RefFlag::Write)
    }

    /// Mints a write use site as an expression, with the given span.
    pub fn create_spanned_write_expression(&self, span: Span) -> (r: Expression)
        ensures
            r.model() == ExprM::Ident(minted_reference(self.model(), span, RefFlag::Write)),
    {
        self.create_spanned_expression(span, RefFlag::Write)
    }

    /// Mints a write use site as an assignment target, with the given span.
    pub fn create_spanned_write_target(&self, span: Span) -> (r: AssignmentTarget)
        ensures
            r.model() == TargetM::TargetIdent(
                minted_reference(self.model(), span, RefFlag::Write),
            ),
    {
        self.create_spanned_target(span, RefFlag::Write)
    }

    /// Mints a write use site as a simple assignment target, with the given
    /// span.
    pub fn create_spanned_write_simple_target(&self, span: Span) -> (r: SimpleAssignmentTarget)
        ensures
            r.model() == SimpleTargetM::SimpleIdent(
                minted_reference(self.model(), span, RefFlag::Write),
            ),
    {
        self.create_spanned_simple_target(span, RefFlag::Write)
    }

    // --- read and write ---

    /// Mints a read-and-write use site, with the synthetic span.
    pub fn create_read_write_reference(&self) -> (r: IdentifierReference)
        ensures
            r.model() == minted_reference(
                self.model(),
                Span { start: 0, end: 0 },
                RefFlag::ReadWrite,
            ),
    {
        self.create_spanned_read_write_reference(Span::synthetic())
    }

    /// Mints a read-and-write use site as an expression, with the synthetic
    /// span.
    pub fn create_read_write_expression(&self) -> (r: Expression)
        ensures
            r.model() == ExprM::Ident(
                minted_reference(self.model(), Span { start: 0, end: 0 }, RefFlag::ReadWrite),
            ),
    {
        self.create_spanned_read_write_expression(Span::synthetic())
    }

    /// Mints a read-and-write use site as an assignment target, with the
    /// synthetic span.
    pub fn create_read_write_target(&self) -> (r: AssignmentTarget)
        ensures
            r.model() == TargetM::TargetIdent(
                minted_reference(self.model(), Span { start: 0, end: 0 }, RefFlag::ReadWrite),
            ),
    {
        self.create_spanned_read_write_target(Span::synthetic())
    }

    /// Mints a read-and-write use site as a simple assignment target, with
    /// the synthetic span.
    pub fn create_read_write_simple_target(&self) -> (r: SimpleAssignmentTarget)
        ensures
            r.model() == SimpleTargetM::SimpleIdent(
                minted_reference(self.model(), Span { start: 0, end: 0 }, RefFlag::ReadWrite),
            ),
    {
        self.create_spanned_read_write_simple_target(Span::synthetic())
    }

    /// Mints a read-and-write use site with the given span.
    pub fn create_spanned_read_write_reference(&self, span: Span) -> (r: IdentifierReference)
        ensures
            r.model() == minted_reference(self.model(), span, RefFlag::ReadWrite),
    {
        self.create_spanned_reference(span, RefFlag::ReadWrite)
    }

    /// Mints a read-and-write use site as an expression, with the given span.
    pub fn create_spanned_read_write_expression(&self, span: Span) -> (r: Expression)
        ensures
            r.model() == ExprM::Ident(minted_reference(self.model(), span, RefFlag::ReadWrite)),
    {
        self.create_spanned_expression(span, RefFlag::ReadWrite)
    }

    /// Mints a read-and-write use site as an assignment target, with the
    /// given span.
    pub fn create_spanned_read_write_target(&self, span: Span) -> (r: AssignmentTarget)
        ensures
            r.model() == TargetM::TargetIdent(
                minted_reference(self.model(), span, RefFlag::ReadWrite),
            ),
    {
        self.create_spanned_target(span, RefFlag::ReadWrite)
    }

    /// Mints a read-and-write use site as a simple assignment target, with
    /// the given span.
    pub fn create_spanned_read_write_simple_target(&self, span: Span) -> (r: SimpleAssignmentTarget)
        ensures
            r.model() == SimpleTargetM::SimpleIdent(
                minted_reference(self.model(), span, RefFlag::ReadWrite),
            ),
    {
        self.create_spanned_simple_target(span, RefFlag::ReadWrite)
    }

    // --- caller-supplied flags ---

    /// Mints a use site with the given flags and the synthetic span.
    pub fn create_reference(&self, flags: RefFlag) -> (r: IdentifierReference)
        ensures
            r.model() == minted_reference(self.model(), Span { start: 0, end: 0 }, flags),
    {
        self.create_spanned_reference(Span::synthetic(), flags)
    }

    /// Mints a use site as an expression, with the given flags and the
    /// synthetic span.
    pub fn create_expression(&self, flags: RefFlag) -> (r: Expression)
        ensures
            r.model() == ExprM::Ident(
                minted_reference(self.model(), Span { start: 0, end: 0 }, flags),
            ),
    {
        self.create_spanned_expression(Span::synthetic(), flags)
    }

    /// Mints a use site as an assignment target, with the given flags and
    /// the synthetic span.
    pub fn create_target(&self, flags: RefFlag) -> (r: AssignmentTarget)
        ensures
            r.model() == TargetM::TargetIdent(
                minted_reference(self.model(), Span { start: 0, end: 0 }, flags),
            ),
    {
        self.create_spanned_target(Span::synthetic(), flags)
    }

    /// Mints a use site as a simple assignment target, with the given flags
    /// and the synthetic span.
    pub fn create_simple_target(&self, flags: RefFlag) -> (r: SimpleAssignmentTarget)
        ensures
            r.model() == SimpleTargetM::SimpleIdent(
                minted_reference(self.model(), Span { start: 0, end: 0 }, flags),
            ),
    {
        self.create_spanned_simple_target(Span::synthetic(), flags)
    }

    /// Mints a use site with the given span and flags.
    pub fn create_spanned_reference(&self, span: Span, flags: RefFlag) -> (r: IdentifierReference)
        ensures
            r.model() == minted_reference(self.model(), span, flags),
    {
        IdentifierReference {
            name: clone_string(&self.name),
            symbol: Some(self.symbol_id),
            flags,
            span,
        }
    }

    /// Mints a use site as an expression, with the given span and flags.
    pub fn create_spanned_expression(&self, span: Span, flags: RefFlag) -> (r: Expression)
        ensures
            r.model() == ExprM::Ident(minted_reference(self.model(), span, flags)),
    {
        Expression::Ident(self.create_spanned_reference(span, flags))
    }

    /// Mints a use site as an assignment target, with the given span and
    /// flags.
    pub fn create_spanned_target(&self, span: Span, flags: RefFlag) -> (r: AssignmentTarget)
        ensures
            r.model() == TargetM::TargetIdent(minted_reference(self.model(), span, flags)),
    {
        AssignmentTarget::TargetIdent(self.create_spanned_reference(span, flags))
    }

    /// Mints a use site as a simple assignment target, with the given span
    /// and flags.
    pub fn create_spanned_simple_target(&self, span: Span, flags: RefFlag) -> (r:
        SimpleAssignmentTarget)
        ensures
            r.model() == SimpleTargetM::SimpleIdent(minted_reference(self.model(), span, flags)),
    {
        SimpleAssignmentTarget::SimpleIdent(self.create_spanned_reference(span, flags))
    }
}

/// How many `'_'` characters `s` ends with.
pub open spec fn trailing_underscores(s: Seq<char>) -> nat
    decreases s.len(),
{
    if s.len() > 0 && s.last() == '_' {
        1 + trailing_underscores(s.drop_last())
    } else {
        0
    }
}

/// The largest trailing-underscore count over the names of `symbols`.
pub open spec fn max_trailing(symbols: Seq<crate::scope::Symbol>) -> nat
    decreases symbols.len(),
{
    if symbols.len() == 0 {
        0
    } else {
        let rest = max_trailing(symbols.drop_last());
        let last = trailing_underscores(symbols.last().name@);
        if last > rest {
            last
        } else {
            rest
        }
    }
}

/// A run of `k` underscores.
pub open spec fn underscore_run(k: nat) -> Seq<char> {
    Seq::new(k, |i: int| '_')
}

/// The name `new_binding` chooses: the candidate itself when it is free
/// reachable from the scope, else the candidate followed by one more
/// underscore than any issued symbol's name ends with.
pub open spec fn disambiguated_name(t: ScopeTree, scope: ScopeId, candidate: Seq<char>) -> Seq<
    char,
> {
    if t.resolve(scope, candidate) is None {
        candidate
    } else {
        candidate + underscore_run(max_trailing(t.symbols@) + 1)
    }
}

/// Mints a fresh binding: if `candidate` is already bound reachable from
/// `scope`, a disambiguated name is generated by deterministic suffixing;
/// the chosen name is declared in `scope` and handed back as a
/// [`BoundIdentifier`]. The chosen name was not bound anywhere reachable
/// from `scope` before the declaration: that is the hygiene guarantee.
pub fn new_binding(
    scopes: &mut ScopeTree,
    candidate: &str,
    scope: ScopeId,
    flags: SymbolFlags,
) -> (r: BoundIdentifier)
    requires
        old(scopes).wf(),
        scope < old(scopes).scopes@.len(),
    ensures
        final(scopes).wf(),
        r.name@ == disambiguated_name(*old(scopes), scope, candidate@),
        old(scopes).resolve(scope, r.name@) is None,
        r.symbol_id == old(scopes).symbols@.len(),
        final(scopes).symbols@.len() == old(scopes).symbols@.len() + 1,
        final(scopes).symbols@.subrange(0, r.symbol_id as int) == old(scopes).symbols@,
        final(scopes).symbols@[r.symbol_id as int].name@ == r.name@,
        final(scopes).symbols@[r.symbol_id as int].declaring_scope == scope,
        final(scopes).symbols@[r.symbol_id as int].flags == flags,
        final(scopes).scopes@.len() == old(scopes).scopes@.len(),
        final(scopes).binding_in(scope, r.name@) == Some(r.symbol_id),
{
    let taken = scopes.find_binding(scope, candidate).is_some();
    let mut name = candidate.to_owned();
    if taken {
        let m = max_trailing_count(scopes);
        name.append("_");
        proof {
            reveal_strlit("_");
            assert("_"@ =~= seq!['_']);
            assert(name@.drop_last() =~= candidate@);
            assert(trailing_underscores(name@) == trailing_underscores(candidate@) + 1);
        }
        let mut j: usize = 0;
        while j < m
            invariant
                j <= m,
                name@ == candidate@ + underscore_run(j as nat + 1),
                trailing_underscores(name@) == trailing_underscores(candidate@) + j + 1,
            decreases m - j,
        {
            let ghost before = name@;
            name.append("_");
            proof {
                reveal_strlit("_");
                assert("_"@ =~= seq!['_']);
                assert(name@.drop_last() =~= before);
                assert(name@ =~= candidate@ + underscore_run(j as nat + 2));
            }
            j = j + 1;
        }
        proof {
            lemma_resolved_name_bounded(*scopes, scope, name@, m as nat);
        }
    }
    let sid = scopes.declare(scope, name, flags);
    let bound = BoundIdentifier {
        name: clone_string(&scopes.symbols[sid].name),
        symbol_id: sid,
    };
    bound
}

/// A name with more trailing underscores than any issued symbol's name is
/// not resolvable from any scope.
proof fn lemma_resolved_name_bounded(t: ScopeTree, scope: ScopeId, name: Seq<char>, m: nat)
    requires
        t.wf(),
        scope < t.scopes@.len(),
        m >= max_trailing(t.symbols@),
        trailing_underscores(name) > m,
    ensures
        t.resolve(scope, name) is None,
    decreases scope,
{
    if t.binding_in(scope, name) is Some {
        crate::scope::lemma_binding_in_list(t.scopes@[scope as int].bindings@, name);
        let j = choose|j: int|
            0 <= j < t.scopes@[scope as int].bindings@.len()
                && (#[trigger] t.scopes@[scope as int].bindings@[j]).0@ == name;
        let sym = t.scopes@[scope as int].bindings@[j].1;
        assert(t.symbols@[sym as int].name@ == name);
        lemma_max_trailing(t.symbols@, sym as int);
        assert(false);
    }
    match t.scopes@[scope as int].parent {
        Some(p) => {
            lemma_resolved_name_bounded(t, p, name, m);
        },
        None => {},
    }
}

/// Every issued symbol's name has at most `max_trailing` trailing
/// underscores.
proof fn lemma_max_trailing(symbols: Seq<crate::scope::Symbol>, i: int)
    requires
        0 <= i < symbols.len(),
    ensures
        trailing_underscores(symbols[i].name@) <= max_trailing(symbols),
    decreases symbols.len(),
{
    if i == symbols.len() - 1 {
    } else {
        lemma_max_trailing(symbols.drop_last(), i);
        assert(symbols.drop_last()[i] == symbols[i]);
    }
}

/// The largest trailing-underscore count over all issued symbols' names.
fn max_trailing_count(scopes: &ScopeTree) -> (r: usize)
    ensures
        r == max_trailing(scopes.symbols@),
{
    let n = scopes.symbols.len();
    let mut m: usize = 0;
    let mut i: usize = 0;
    proof {
        assert(scopes.symbols@.subrange(0, 0) =~= Seq::<crate::scope::Symbol>::empty());
    }
    while i < n
        invariant
            i <= n,
            n == scopes.symbols@.len(),
            m == max_trailing(scopes.symbols@.subrange(0, i as int)),
        decreases n - i,
    {
        let t = trailing_count(scopes.symbols[i].name.as_str());
        proof {
            let pre = scopes.symbols@.subrange(0, i as int);
            let cur = scopes.symbols@.subrange(0, i as int + 1);
            assert(cur.drop_last() =~= pre);
            assert(cur.last() == scopes.symbols@[i as int]);
        }
        if t > m {
            m = t;
        }
        i = i + 1;
    }
    proof {
        assert(scopes.symbols@.subrange(0, n as int) =~= scopes.symbols@);
    }
    m
}

/// How many `'_'` characters `s` ends with.
fn trailing_count(s: &str) -> (r: usize)
    ensures
        r == trailing_underscores(s@),
{
    let n = s.unicode_len();
    let mut c: usize = 0;
    while c < n && s.get_char(n - 1 - c) == '_'
        invariant
            c <= n,
            n == s@.len(),
            forall|k: int| s@.len() - c <= k < s@.len() ==> s@[k] == '_',
        decreases n - c,
    {
        c = c + 1;
    }
    proof {
        lemma_trailing_characterization(s@, c as nat);
    }
    c
}

/// The trailing-underscore count is the length of the maximal underscore
/// run at the end.
proof fn lemma_trailing_characterization(s: Seq<char>, c: nat)
    requires
        c <= s.len(),
        forall|k: int| s.len() - c <= k < s.len() ==> s[k] == '_',
        c < s.len() ==> s[s.len() - c - 1] != '_',
    ensures
        trailing_underscores(s) == c,
    decreases c,
{
    if c == 0 {
    } else {
        assert(s.last() == '_');
        assert forall|k: int| s.drop_last().len() - (c - 1) <= k < s.drop_last().len()
            implies s.drop_last()[k] == '_' by {
            assert(s.drop_last()[k] == s[k]);
        }
        lemma_trailing_characterization(s.drop_last(), (c - 1) as nat);
    }
}

/// A fresh `String` with the same text.
pub fn clone_string(s: &String) -> (r: String)
    ensures
        r@ == s@,
{
    s.clone()
}

} // verus!
