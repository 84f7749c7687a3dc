//! Scoped symbol table used by the type checker.
use vstd::prelude::*;
use crate::assoc::NameMap;
use crate::ast::Type;
use crate::text::{join, join_strings};
use vstd::string::StringExecFns;

verus! {

/// A symbol represents a variable or function in the symbol table
#[derive(Debug, Clone)]
pub struct Symbol {
    pub name: String,
    pub ty: Type,
    pub mutable: bool,
    pub defined: bool,
}

/// A symbol with its name as a character sequence.
pub struct SymbolV {
    pub name: Seq<char>,
    pub ty: Type,
    pub mutable: bool,
    pub defined: bool,
}

impl View for Symbol {
    type V = SymbolV;

    open spec fn view(&self) -> SymbolV {
        SymbolV { name: self.name@, ty: self.ty, mutable: self.mutable, defined: self.defined }
    }
}

impl Symbol {
    /// A copy of the symbol.
    pub fn duplicate(&self) -> (r: Symbol)
        ensures
            r@ == self@,
    {
        Symbol { name: self.name.clone(), ty: self.ty, mutable: self.mutable, defined: self.defined }
    }
}

/// Symbol table with scope management
pub struct SymbolTable {
    scopes: Vec<NameMap<Symbol>>,
    pub errors: Vec<String>,
}

/// The contents of a symbol table: its scopes, innermost last, and the
/// errors recorded so far.
pub struct TableV {
    pub scopes: Seq<Map<Seq<char>, SymbolV>>,
    pub errors: Seq<Seq<char>>,
}

/// The messages of a list of errors.
pub open spec fn strings_view(v: Seq<String>) -> Seq<Seq<char>> {
    v.map_values(|s: String| s@)
}

impl View for SymbolTable {
    type V = TableV;

    closed spec fn view(&self) -> TableV {
        TableV {
            scopes: self.scopes@.map_values(|m: NameMap<Symbol>| m@),
            errors: strings_view(self.errors@),
        }
    }
}

/// The symbol a name resolves to: its entry in the innermost scope that has one.
pub open spec fn lookup_in(scopes: Seq<Map<Seq<char>, SymbolV>>, name: Seq<char>) -> Option<SymbolV>
    decreases scopes.len(),
{
    if scopes.len() == 0 {
        None
    } else if scopes.last().contains_key(name) {
        Some(scopes.last()[name])
    } else {
        lookup_in(scopes.drop_last(), name)
    }
}

/// The table with a new, empty innermost scope.
pub open spec fn push_scope_spec(t: TableV) -> TableV {
    TableV { scopes: t.scopes.push(Map::empty()), ..t }
}

/// The table without its innermost scope; the global scope stays.
pub open spec fn pop_scope_spec(t: TableV) -> TableV {
    if t.scopes.len() > 1 {
        TableV { scopes: t.scopes.drop_last(), ..t }
    } else {
        t
    }
}

/// The table with `sym` entered in its innermost scope, replacing an entry
/// of the same name there.
pub open spec fn declare_spec(t: TableV, sym: SymbolV) -> TableV {
    TableV {
        scopes: t.scopes.update(t.scopes.len() - 1, t.scopes.last().insert(sym.name, sym)),
        ..t
    }
}

/// The table with one more error.
pub open spec fn error_spec(t: TableV, msg: Seq<char>) -> TableV {
    TableV { errors: t.errors.push(msg), ..t }
}

/// The symbol a name resolves to in a table.
pub open spec fn lookup_spec(t: TableV, name: Seq<char>) -> Option<SymbolV> {
    lookup_in(t.scopes, name)
}

impl SymbolTable {
    /// A well-formed table has at least the global scope.
    pub open spec fn wf(&self) -> bool {
        self@.scopes.len() >= 1
    }

    /// Create a new symbol table with global scope
    pub fn new() -> (r: Self)
        ensures
            r.wf(),
            r@.scopes == seq![Map::<Seq<char>, SymbolV>::empty()],
            r@.errors == Seq::<Seq<char>>::empty(),
    {
        let mut scopes = Vec::new();
        scopes.push(NameMap::new());
        let r = SymbolTable { scopes, errors: Vec::new() };
        assert(r@.scopes =~= seq![Map::<Seq<char>, SymbolV>::empty()]);
        assert(r@.errors =~= Seq::<Seq<char>>::empty());
        r
    }

    /// Enter a new scope (for blocks, functions, etc)
    pub fn push_scope(&mut self)
        requires
            old(self).wf(),
        ensures
            final(self).wf(),
            final(self)@ == push_scope_spec(old(self)@),
    {
        self.scopes.push(NameMap::new());
        assert(self@.scopes =~= old(self)@.scopes.push(Map::empty()));
    }

    /// Exit current scope
    pub fn pop_scope(&mut self)
        requires
            old(self).wf(),
        ensures
            final(self).wf(),
            final(self)@ == pop_scope_spec(old(self)@),
    {
        if self.scopes.len() > 1 {
            self.scopes.pop();
            assert(self@.scopes =~= old(self)@.scopes.drop_last());
        }
    }

    /// Declare a symbol in current scope
    pub fn declare(&mut self, sym: Symbol)
        requires
            old(self).wf(),
        ensures
            final(self).wf(),
            final(self)@ == declare_spec(old(self)@, sym@),
    {
        let mut top = self.scopes.pop().unwrap();
        let ghost symv = sym@;
        let ghost topv = top@;
        top.set(sym.name.clone(), sym);
        self.scopes.push(top);
        assert(self@.scopes =~= old(self)@.scopes.update(
            old(self)@.scopes.len() - 1,
            topv.insert(symv.name, symv),
        ));
    }

    /// Look up a symbol (searches from current scope upwards)
    pub fn lookup(&self, name: &str) -> (r: Option<Symbol>)
        requires
            self.wf(),
        ensures
            match r {
                Some(s) => lookup_spec(self@, name@) == Some(s@),
                None => lookup_spec(self@, name@) is None,
            },
    {
        let key = String::from_str(name);
        let ghost sc = self@.scopes;
        let mut i = self.scopes.len();
        assert(sc.take(i as int) =~= sc);
        while i > 0
            invariant
                i <= self.scopes@.len(),
                sc == self@.scopes,
                key@ == name@,
                lookup_in(sc, name@) == lookup_in(sc.take(i as int), name@),
            decreases i,
        {
            assert(sc.take(i as int).drop_last() =~= sc.take(i - 1));
            assert(sc.take(i as int).last() == self.scopes@[i - 1]@);
            match self.scopes[i - 1].get(&key) {
                Some(sym) => {
                    return Some(sym.duplicate());
                },
                None => {},
            }
            i = i - 1;
        }
        None
    }

    /// Check if symbol exists in current scope only
    pub fn exists_in_current_scope(&self, name: &str) -> (r: bool)
        requires
            self.wf(),
        ensures
            r == self@.scopes.last().contains_key(name@),
    {
        let key = String::from_str(name);
        self.scopes[self.scopes.len() - 1].contains(&key)
    }

    /// Record an error
    pub fn error(&mut self, msg: String)
        requires
            old(self).wf(),
        ensures
            final(self).wf(),
            final(self)@ == error_spec(old(self)@, msg@),
    {
        let ghost m = msg@;
        self.errors.push(msg);
        assert(self@.errors =~= old(self)@.errors.push(m));
        assert(self@.scopes =~= old(self)@.scopes);
    }

    /// The recorded messages, separated by `; `.
    pub fn joined_errors(&self) -> (r: String)
        ensures
            r@ == join(self@.errors, "; "@),
    {
        join_strings(&self.errors)
    }

    /// Check if there are any errors
    pub fn has_errors(&self) -> (r: bool)
        ensures
            r == (self@.errors.len() > 0),
    {
        !self.errors.is_empty()
    }
}

/// A declared name resolves to the declared symbol and is in the current
/// scope; the recorded errors and the number of scopes stay as they were.
pub proof fn lemma_lookup_after_declare(t: TableV, sym: SymbolV)
    requires
        t.scopes.len() >= 1,
    ensures
        lookup_spec(declare_spec(t, sym), sym.name) == Some(sym),
        declare_spec(t, sym).scopes.last().contains_key(sym.name),
        declare_spec(t, sym).errors == t.errors,
        declare_spec(t, sym).scopes.len() == t.scopes.len(),
{
    let t2 = declare_spec(t, sym);
    assert(t2.scopes.last() == t.scopes.last().insert(sym.name, sym));
}

/// Declaring a name leaves what every other name resolves to, and whether
/// it is in the current scope.
pub proof fn lemma_declare_other(t: TableV, sym: SymbolV, name: Seq<char>)
    requires
        t.scopes.len() >= 1,
        name != sym.name,
    ensures
        lookup_spec(declare_spec(t, sym), name) == lookup_spec(t, name),
        declare_spec(t, sym).scopes.last().contains_key(name) == t.scopes.last().contains_key(name),
{
    let t2 = declare_spec(t, sym);
    assert(t2.scopes.drop_last() =~= t.scopes.drop_last());
}

/// Entering a scope and leaving it again gives back the same table.
pub proof fn lemma_push_pop(t: TableV)
    requires
        t.scopes.len() >= 1,
    ensures
        pop_scope_spec(push_scope_spec(t)) == t,
{
    assert(t.scopes.push(Map::empty()).drop_last() =~= t.scopes);
}

/// Whatever was declared in a scope that was left no longer shadows: after
/// entering a scope, declaring in it and leaving it, every name resolves as
/// before.
pub proof fn lemma_scope_declarations_end(t: TableV, sym: SymbolV, name: Seq<char>)
    requires
        t.scopes.len() >= 1,
    ensures
        lookup_spec(pop_scope_spec(declare_spec(push_scope_spec(t), sym)), name) == lookup_spec(t, name),
{
    let t1 = push_scope_spec(t);
    let t2 = declare_spec(t1, sym);
    assert(t2.scopes.drop_last() =~= t.scopes);
}

/// The global scope is never left.
pub proof fn lemma_pop_keeps_global(t: TableV)
    requires
        t.scopes.len() >= 1,
    ensures
        pop_scope_spec(t).scopes.len() >= 1,
        pop_scope_spec(t).scopes[0] == t.scopes[0],
{
}

/// The table after declaring the symbols one after the other.
pub open spec fn declare_all(t: TableV, syms: Seq<SymbolV>) -> TableV
    decreases syms.len(),
{
    if syms.len() == 0 {
        t
    } else {
        declare_spec(declare_all(t, syms.drop_last()), syms.last())
    }
}

proof fn lemma_declare_all_scopes(t: TableV, syms: Seq<SymbolV>)
    requires
        t.scopes.len() >= 1,
    ensures
        declare_all(t, syms).scopes.len() == t.scopes.len(),
        declare_all(t, syms).scopes.drop_last() == t.scopes.drop_last(),
        declare_all(t, syms).errors == t.errors,
    decreases syms.len(),
{
    if syms.len() > 0 {
        lemma_declare_all_scopes(t, syms.drop_last());
        let t1 = declare_all(t, syms.drop_last());
        assert(declare_spec(t1, syms.last()).scopes.drop_last() =~= t1.scopes.drop_last());
    }
}

/// Entering a scope, declaring any symbols in it and leaving it gives back
/// the same table: every name resolves as before, and is or is not in the
/// current scope as before.
pub proof fn lemma_scope_round_trip(t: TableV, syms: Seq<SymbolV>)
    requires
        t.scopes.len() >= 1,
    ensures
        pop_scope_spec(declare_all(push_scope_spec(t), syms)) == t,
{
    let t1 = push_scope_spec(t);
    lemma_declare_all_scopes(t1, syms);
    assert(t1.scopes.drop_last() =~= t.scopes);
    assert(pop_scope_spec(declare_all(t1, syms)).scopes =~= t.scopes);
}

} // verus!
