//! The assembler's symbol table: nested scopes kept in an arena, a stack of
//! active scopes, and the checks of the two passes.
use vstd::prelude::*;

use crate::asm_error::AsmError;
use crate::expr::SymbolLookup;
use crate::util::str_eq;

verus! {

/// Separator of scope paths; no symbol name may hold it.
pub const SCOPE_PATH_SEP: char = ':';

#[derive(Clone, Copy, Debug, PartialEq, Eq, Structural)]
pub enum Symbol {
    /// A place in a section, optionally with the scope opened at it.
    Location { section: usize, offset: u16, attached_scope: Option<usize> },
    /// A plain value.
    Free { value: i32 },
}

/// Value of a symbol, given the start addresses of the sections.
pub open spec fn symbol_value(sym: Symbol, section_starts: Seq<u16>) -> i32 {
    match sym {
        Symbol::Location { section, offset, .. } => if section < section_starts.len() {
            (section_starts[section as int] + offset) as i32
        } else {
            offset as i32
        },
        Symbol::Free { value } => value,
    }
}

pub struct Scope {
    names: Vec<String>,
    symbols: Vec<Symbol>,
}

impl Scope {
    pub closed spec fn wf(&self) -> bool {
        &&& self.names@.len() == self.symbols@.len()
        &&& forall|i: int, j: int|
            0 <= i < j < self.names@.len() ==> (#[trigger] self.names@[i])@ != (#[trigger] self.names@[j])@
    }

    /// Symbols of the scope by name.
    pub closed spec fn view(&self) -> Map<Seq<char>, Symbol> {
        Map::new(
            |n: Seq<char>| exists|i: int| 0 <= i < self.names@.len() && (#[trigger] self.names@[i])@ == n,
            |n: Seq<char>| self.symbols@[choose|i: int| 0 <= i < self.names@.len() && (#[trigger] self.names@[i])@ == n],
        )
    }

    fn new() -> (r: Scope)
        ensures
            r.wf(),
            r@ == Map::<Seq<char>, Symbol>::empty(),
    {
        let r = Scope { names: Vec::new(), symbols: Vec::new() };
        assert(r@ =~= Map::<Seq<char>, Symbol>::empty());
        r
    }

    fn find(&self, name: &str) -> (r: Option<usize>)
        requires
            self.wf(),
        ensures
            r matches Some(i) ==> i < self.names@.len() && self.names@[i as int]@ == name@,
            r is None <==> !self@.contains_key(name@),
            r matches Some(i) ==> self@.contains_key(name@) && self@[name@] == self.symbols@[i as int],
    {
        let mut i: usize = 0;
        while i < self.names.len()
            invariant
                self.wf(),
                i <= self.names@.len(),
                forall|k: int| 0 <= k < i ==> (#[trigger] self.names@[k])@ != name@,
            decreases self.names.len() - i,
        {
            if str_eq(self.names[i].as_str(), name) {
                proof {
                    assert(self@.contains_key(name@));
                    let c = choose|j: int| 0 <= j < self.names@.len() && (#[trigger] self.names@[j])@ == name@;
                    if c != i {
                        if c < i {
                            assert(self.names@[c]@ != name@);
                        } else {
                            assert(self.names@[i as int]@ != self.names@[c]@);
                        }
                    }
                }
                return Some(i);
            }
            i = i + 1;
        }
        None
    }

    fn insert(&mut self, name: String, sym: Symbol)
        requires
            old(self).wf(),
            !old(self)@.contains_key(name@),
        ensures
            final(self).wf(),
            final(self)@ == old(self)@.insert(name@, sym),
    {
        let ghost n = name@;
        self.names.push(name);
        self.symbols.push(sym);
        proof {
            let len = self.names@.len();
            assert forall|i: int, j: int| 0 <= i < j < len implies (#[trigger] self.names@[i])@ != (
            #[trigger] self.names@[j])@ by {
                if j == len - 1 {
                    assert(old(self).names@[i] == self.names@[i]);
                    assert(!old(self)@.contains_key(n));
                }
            }
            assert forall|m: Seq<char>| #[trigger] self@.contains_key(m) == old(self)@.insert(n, sym).contains_key(m) by {
                if m != n && self@.contains_key(m) {
                    let c = choose|j: int| 0 <= j < self.names@.len() && (#[trigger] self.names@[j])@ == m;
                    assert(old(self).names@[c] == self.names@[c]);
                }
                if m != n && old(self)@.contains_key(m) {
                    let c = choose|j: int| 0 <= j < old(self).names@.len() && (#[trigger] old(self).names@[j])@ == m;
                    assert(self.names@[c] == old(self).names@[c]);
                }
                if m == n {
                    assert(self.names@[len - 1]@ == n);
                }
            }
            assert forall|m: Seq<char>| #[trigger] self@.contains_key(m) implies self@[m] == old(self)@.insert(n, sym)[m] by {
                let c = choose|j: int| 0 <= j < self.names@.len() && (#[trigger] self.names@[j])@ == m;
                if m == n {
                    assert(self.names@[len - 1]@ == n);
                } else {
                    let d = choose|j: int| 0 <= j < old(self).names@.len() && (#[trigger] old(self).names@[j])@ == m;
                    assert(self.names@[d] == old(self).names@[d]);
                }
            }
            assert(self@ =~= old(self)@.insert(n, sym));
        }
    }
}


/// Whether `s` holds the scope path separator.
pub fn contains_separator(s: &str) -> (r: bool)
    ensures
        r == s@.contains(SCOPE_PATH_SEP),
{
    let n = s.unicode_len();
    let mut i: usize = 0;
    while i < n
        invariant
            n == s@.len(),
            i <= n,
            forall|k: int| 0 <= k < i ==> s@[k] != SCOPE_PATH_SEP,
        decreases n - i,
    {
        if s.get_char(i) == SCOPE_PATH_SEP {
            return true;
        }
        i = i + 1;
    }
    false
}


/// Symbols of all scopes, the path of scopes open now, and the pass.
pub struct SymbolTable {
    scopes: Vec<Scope>,
    /// Path from the root scope to the current one, by arena index.
    active: Vec<usize>,
    /// Scopes opened so far in this pass; the second pass opens them again
    /// in the same order.
    opened: usize,
    first_pass: bool,
    section_starts: Vec<u16>,
}

pub struct SymbolTableView {
    pub scopes: Seq<Map<Seq<char>, Symbol>>,
    pub active: Seq<usize>,
    pub opened: nat,
    pub first_pass: bool,
    pub section_starts: Seq<u16>,
}

impl SymbolTableView {
    /// Scope that definitions go to.
    pub open spec fn current(self) -> usize {
        self.active.last()
    }

    /// Value of `name` in the innermost active scope from `depth` outward
    /// that defines it.
    pub open spec fn lookup_from(self, name: Seq<char>, depth: int) -> Option<Symbol>
        decreases depth,
    {
        if depth <= 0 {
            None
        } else if self.scopes[self.active[depth - 1] as int].contains_key(name) {
            Some(self.scopes[self.active[depth - 1] as int][name])
        } else {
            self.lookup_from(name, depth - 1)
        }
    }

    pub open spec fn lookup(self, name: Seq<char>) -> Option<Symbol> {
        self.lookup_from(name, self.active.len() as int)
    }

    /// State after opening a scope: the next scope of the pass, created
    /// empty when the arena does not hold it yet.
    pub open spec fn pushed(self) -> SymbolTableView {
        SymbolTableView {
            scopes: if self.opened + 1 < self.scopes.len() {
                self.scopes
            } else {
                self.scopes.push(Map::empty())
            },
            active: self.active.push((self.opened + 1) as usize),
            opened: self.opened + 1,
            ..self
        }
    }

    /// State after closing the current scope; the root scope stays.
    pub open spec fn popped(self) -> SymbolTableView {
        if self.active.len() > 1 {
            SymbolTableView { active: self.active.drop_last(), ..self }
        } else {
            self
        }
    }

    /// State and outcome of defining `name` as `sym`, as `define_symbol`
    /// does it.
    pub open spec fn define(self, name: Seq<char>, sym: Symbol, position: usize) -> (SymbolTableView, Result<(), AsmError>) {
        let scope = self.scopes[self.current() as int];
        if name.contains(SCOPE_PATH_SEP) {
            (self, Err(AsmError::InvalidSymbolName { position }))
        } else if self.first_pass {
            if scope.contains_key(name) {
                (self, Err(AsmError::SymbolRedefinition { position }))
            } else {
                (
                    SymbolTableView {
                        scopes: self.scopes.update(self.current() as int, scope.insert(name, sym)),
                        ..self
                    },
                    Ok(()),
                )
            }
        } else if scope.contains_key(name) && scope[name] == sym {
            (self, Ok(()))
        } else {
            (self, Err(AsmError::SymbolChangedValue { position }))
        }
    }

    pub open spec fn value_of(self, name: Seq<char>) -> Option<i32> {
        match self.lookup(name) {
            Some(sym) => Some(symbol_value(sym, self.section_starts)),
            None => None,
        }
    }
}

impl View for SymbolTable {
    type V = SymbolTableView;

    closed spec fn view(&self) -> SymbolTableView {
        SymbolTableView {
            scopes: self.scopes@.map_values(|sc: Scope| sc@),
            active: self.active@,
            opened: self.opened as nat,
            first_pass: self.first_pass,
            section_starts: self.section_starts@,
        }
    }
}

impl SymbolTable {
    pub closed spec fn wf(&self) -> bool {
        &&& self.active@.len() >= 1
        &&& self.active@[0] == 0
        &&& forall|i: int| 0 <= i < self.active@.len() ==> (#[trigger] self.active@[i]) < self.scopes@.len()
        &&& forall|i: int| 0 <= i < self.scopes@.len() ==> (#[trigger] self.scopes@[i]).wf()
        &&& self.opened < self.scopes@.len()
        &&& self.section_starts@.len() == 1
    }

    /// A table for the first pass: one empty root scope, active, and one
    /// section starting at address 0.
    pub fn new() -> (r: SymbolTable)
        ensures
            r.wf(),
            r@.first_pass,
            r@.scopes == seq![Map::<Seq<char>, Symbol>::empty()],
            r@.active == seq![0usize],
            r@.section_starts == seq![0u16],
            r@.opened == 0,
    {
        let mut scopes: Vec<Scope> = Vec::new();
        scopes.push(Scope::new());
        let mut active: Vec<usize> = Vec::new();
        active.push(0);
        let mut section_starts: Vec<u16> = Vec::new();
        section_starts.push(0);
        let r = SymbolTable { scopes, active, opened: 0, first_pass: true, section_starts };
        assert(r@.scopes =~= seq![Map::<Seq<char>, Symbol>::empty()]);
        assert(r@.active =~= seq![0usize]);
        assert(r@.section_starts =~= seq![0u16]);
        r
    }

    /// Scopes opened so far in this pass.
    pub fn opened_scopes(&self) -> (r: usize)
        ensures
            r == self@.opened,
    {
        self.opened
    }

    /// Number of scopes in the arena.
    pub fn scope_count(&self) -> (r: usize)
        ensures
            r == self@.scopes.len(),
    {
        self.scopes.len()
    }

    pub fn is_first_pass(&self) -> (r: bool)
        ensures
            r == self@.first_pass,
    {
        self.first_pass
    }

    /// Switch to the second pass: only the root scope is active again, and
    /// scopes are opened again in first pass order.
    pub fn start_second_pass(&mut self)
        requires
            old(self).wf(),
        ensures
            final(self).wf(),
            !final(self)@.first_pass,
            final(self)@.scopes == old(self)@.scopes,
            final(self)@.active == seq![0usize],
            final(self)@.opened == 0,
            final(self)@ == (SymbolTableView { first_pass: false, opened: 0, active: seq![0usize], ..old(self)@ }),
    {
        self.first_pass = false;
        self.opened = 0;
        self.active = Vec::new();
        self.active.push(0);
        assert(self@.active =~= seq![0usize]);
    }

    /// Open a nested scope inside the current one and return its index. In
    /// the first pass it is a new, empty scope; in the second pass it is the
    /// scope that the same place opened in the first pass, or a new one.
    pub fn push_scope(&mut self) -> (r: usize)
        requires
            old(self).wf(),
            old(self)@.scopes.len() < usize::MAX,
        ensures
            final(self).wf(),
            final(self)@.active == old(self)@.active.push(r),
            final(self)@.first_pass == old(self)@.first_pass,
            final(self)@.opened == old(self)@.opened + 1,
            r == old(self)@.opened + 1,
            final(self)@ == old(self)@.pushed(),
            r < old(self)@.scopes.len() ==> final(self)@.scopes == old(self)@.scopes,
            r >= old(self)@.scopes.len() ==> final(self)@.scopes == old(self)@.scopes.push(
                Map::empty(),
            ),
    {
        let id = self.opened + 1;
        if id >= self.scopes.len() {
            let ghost before = self.scopes@;
            self.scopes.push(Scope::new());
            assert(self@.scopes =~= old(self)@.scopes.push(Map::empty()));
        }
        self.opened = id;
        self.active.push(id);
        id
    }

    /// Close the current scope; the root scope stays open.
    pub fn pop_scope(&mut self)
        requires
            old(self).wf(),
        ensures
            final(self).wf(),
            final(self)@.scopes == old(self)@.scopes,
            final(self)@.first_pass == old(self)@.first_pass,
            final(self)@.opened == old(self)@.opened,
            old(self)@.active.len() > 1 ==> final(self)@.active == old(self)@.active.drop_last(),
            old(self)@.active.len() == 1 ==> final(self)@.active == old(self)@.active,
            final(self)@ == old(self)@.popped(),
    {
        if self.active.len() > 1 {
            self.active.pop();
            assert(self@.active =~= old(self)@.active.drop_last());
        }
    }

    /// Define a symbol in the current scope. A name with the scope path
    /// separator is refused. In the first pass a name that the scope already
    /// defines is `SymbolRedefinition`; in the second pass the definition
    /// must equal the one of the first pass, else `SymbolChangedValue`.
    /// Errors carry `position`, where the definition stands.
    pub fn define_symbol(&mut self, name: &str, symbol: Symbol, position: usize) -> (r: Result<(), AsmError>)
        requires
            old(self).wf(),
        ensures
            final(self).wf(),
            final(self)@.active == old(self)@.active,
            final(self)@.first_pass == old(self)@.first_pass,
            final(self)@.opened == old(self)@.opened,
            final(self)@.section_starts == old(self)@.section_starts,
            (final(self)@, r) == old(self)@.define(name@, symbol, position),
            ({
                let scope = old(self)@.scopes[old(self)@.current() as int];
                if name@.contains(SCOPE_PATH_SEP) {
                    &&& r == Err::<(), AsmError>(AsmError::InvalidSymbolName { position })
                    &&& final(self)@.scopes == old(self)@.scopes
                } else if old(self)@.first_pass {
                    if scope.contains_key(name@) {
                        &&& r == Err::<(), AsmError>(AsmError::SymbolRedefinition { position })
                        &&& final(self)@.scopes == old(self)@.scopes
                    } else {
                        &&& r is Ok
                        &&& final(self)@.scopes == old(self)@.scopes.update(
                            old(self)@.current() as int,
                            scope.insert(name@, symbol),
                        )
                    }
                } else {
                    &&& final(self)@.scopes == old(self)@.scopes
                    &&& (r is Ok <==> scope.contains_key(name@) && scope[name@] == symbol)
                    &&& r is Err ==> r == Err::<(), AsmError>(AsmError::SymbolChangedValue { position })
                }
            }),
    {
        if contains_separator(name) {
            return Err(AsmError::InvalidSymbolName { position });
        }
        let cur = self.active[self.active.len() - 1];
        let found = self.scopes[cur].find(name);
        if self.first_pass {
            match found {
                Some(_) => Err(AsmError::SymbolRedefinition { position }),
                None => {
                    let mut scope = self.scopes.remove(cur);
                    scope.insert(name.to_owned(), symbol);
                    self.scopes.insert(cur, scope);
                    proof {
                        assert(self@.scopes =~= old(self)@.scopes.update(
                            cur as int,
                            old(self)@.scopes[cur as int].insert(name@, symbol),
                        ));
                        assert forall|i: int| 0 <= i < self.scopes@.len() implies (#[trigger] self.scopes@[i]).wf() by {
                            if i != cur {
                                assert(self.scopes@[i] == old(self).scopes@[i]);
                            }
                        }
                    }
                    Ok(())
                },
            }
        } else {
            match found {
                Some(i) => {
                    if self.scopes[cur].symbols[i] == symbol {
                        Ok(())
                    } else {
                        Err(AsmError::SymbolChangedValue { position })
                    }
                },
                None => Err(AsmError::SymbolChangedValue { position }),
            }
        }
    }

    /// Definition of `name` in the innermost active scope that has one.
    pub fn lookup_symbol(&self, name: &str) -> (r: Option<Symbol>)
        requires
            self.wf(),
        ensures
            r == self@.lookup(name@),
    {
        let mut depth: usize = self.active.len();
        while depth > 0
            invariant
                self.wf(),
                depth <= self.active@.len(),
                self@.lookup(name@) == self@.lookup_from(name@, depth as int),
            decreases depth,
        {
            let sc = self.active[depth - 1];
            assert(self@.scopes[sc as int] == self.scopes@[sc as int]@);
            match self.scopes[sc].find(name) {
                Some(i) => {
                    return Some(self.scopes[sc].symbols[i]);
                },
                None => {},
            }
            depth = depth - 1;
        }
        None
    }
}

/// What well-formedness tells of the view: a root scope is active and each
/// active scope exists.
pub proof fn lemma_view_wf(t: &SymbolTable)
    requires
        t.wf(),
    ensures
        t@.active.len() >= 1,
        forall|i: int| 0 <= i < t@.active.len() ==> (#[trigger] t@.active[i]) < t@.scopes.len(),
        t@.opened < t@.scopes.len(),
{
}

impl SymbolLookup for SymbolTable {
    open spec fn lookup_ready(&self) -> bool {
        self.wf()
    }

    open spec fn spec_lookup(&self, name: Seq<char>) -> Option<i32> {
        self@.value_of(name)
    }

    fn lookup(&self, name: &str) -> (r: Option<i32>) {
        match self.lookup_symbol(name) {
            Some(sym) => Some(self.value_of_symbol(sym)),
            None => None,
        }
    }
}

impl SymbolTable {
    /// Value of a symbol: a free symbol's value, or a location's section
    /// start plus offset.
    pub fn value_of_symbol(&self, sym: Symbol) -> (r: i32)
        ensures
            r == symbol_value(sym, self@.section_starts),
    {
        match sym {
            Symbol::Location { section, offset, .. } => {
                if section < self.section_starts.len() {
                    self.section_starts[section] as i32 + offset as i32
                } else {
                    offset as i32
                }
            },
            Symbol::Free { value } => value,
        }
    }
}

} // verus!
