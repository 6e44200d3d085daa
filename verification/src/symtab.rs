//! The scoped symbol table: a stack of scope frames, each mapping a
//! name to its declared type and the single-assignment value it
//! currently holds, if any. Lookup searches innermost frame first; the
//! root frame can never be popped.
//!
//! Frames keep their entries in insertion order, which gives the
//! live-value walks (`get_live_values`, `revalue_live`) a stable order.

use vstd::prelude::*;
use vstd::string::*;
use crate::ast;
use crate::utils::str_eq;
use crate::value::{Value, ValueTable};

verus! {

/// Failures of symbol-table operations.
#[derive(Debug, Clone, PartialEq)]
pub enum Error {
    /// The named symbol is not defined in any active frame.
    UndefinedSymbol(String),
    /// An attempt to pop the last remaining frame.
    ScopeUnderflow,
}

/// Mathematical mirror of `Error`.
pub enum SpecSymtabError {
    UndefinedSymbol(Seq<char>),
    ScopeUnderflow,
}

impl View for Error {
    type V = SpecSymtabError;

    open spec fn view(&self) -> SpecSymtabError {
        match self {
            Error::UndefinedSymbol(s) => SpecSymtabError::UndefinedSymbol(s@),
            Error::ScopeUnderflow => SpecSymtabError::ScopeUnderflow,
        }
    }
}

impl Error {
    /// A short description of the error kind.
    pub fn description(&self) -> (r: String)
        ensures
            (self is UndefinedSymbol ==> r@ == "Use of undefined symbol"@),
            (self is ScopeUnderflow ==> r@ == "Internal error: removing last available scope"@),
    {
        match self {
            Error::UndefinedSymbol(_) => String::from_str("Use of undefined symbol"),
            Error::ScopeUnderflow => String::from_str("Internal error: removing last available scope"),
        }
    }
}

/// One symbol's binding: its declared type and, once assigned, the
/// value currently holding it.
#[derive(Debug, Clone, Copy, PartialEq, Eq)]
pub struct SymbolTableEntry {
    pub ty: ast::Type,
    pub value: Option<Value>,
}

/// Mathematical view of one scope frame: names (as character
/// sequences) with their entries, in insertion order.
pub type SpecFrame = Seq<(Seq<char>, SymbolTableEntry)>;

/// The view of one executable frame.
pub open spec fn frame_view(f: Seq<(String, SymbolTableEntry)>) -> SpecFrame {
    f.map_values(|p: (String, SymbolTableEntry)| (p.0@, p.1))
}

/// Index of the first entry for `name` in the frame, or -1 when absent.
pub open spec fn frame_index(f: SpecFrame, name: Seq<char>) -> int
    decreases f.len(),
{
    if f.len() == 0 {
        -1
    } else if f[0].0 == name {
        0
    } else {
        let r = frame_index(f.drop_first(), name);
        if r < 0 {
            -1
        } else {
            r + 1
        }
    }
}

/// The entry for `name` in the frame, if any.
pub open spec fn frame_find(f: SpecFrame, name: Seq<char>) -> Option<SymbolTableEntry> {
    let i = frame_index(f, name);
    if i >= 0 {
        Some(f[i].1)
    } else {
        None
    }
}

pub proof fn lemma_frame_index_props(f: SpecFrame, name: Seq<char>)
    ensures
        -1 <= frame_index(f, name) < f.len(),
        frame_index(f, name) >= 0 ==> f[frame_index(f, name)].0 == name,
        frame_index(f, name) >= 0 ==> forall|j: int|
            0 <= j < frame_index(f, name) ==> (#[trigger] f[j]).0 != name,
        frame_index(f, name) == -1 ==> forall|j: int|
            0 <= j < f.len() ==> (#[trigger] f[j]).0 != name,
    decreases f.len(),
{
    if f.len() > 0 && f[0].0 != name {
        lemma_frame_index_props(f.drop_first(), name);
        assert forall|j: int| 1 <= j < f.len() implies f.drop_first()[j - 1] == (#[trigger] f[j]) by {}
    }
}

pub proof fn lemma_frame_index_is(f: SpecFrame, name: Seq<char>, i: int)
    requires
        0 <= i < f.len(),
        f[i].0 == name,
        forall|j: int| 0 <= j < i ==> (#[trigger] f[j]).0 != name,
    ensures
        frame_index(f, name) == i,
    decreases f.len(),
{
    if i > 0 {
        assert(f[0].0 != name);
        lemma_frame_index_is(f.drop_first(), name, i - 1);
    }
}

/// Index of the innermost frame containing `name`, or -1 when none does.
pub open spec fn lookup_depth(t: Seq<SpecFrame>, name: Seq<char>) -> int
    decreases t.len(),
{
    if t.len() == 0 {
        -1
    } else if frame_index(t.last(), name) >= 0 {
        t.len() - 1
    } else {
        lookup_depth(t.drop_last(), name)
    }
}

/// The innermost binding of `name`, searching frames from the top of
/// the stack outward.
pub open spec fn lookup(t: Seq<SpecFrame>, name: Seq<char>) -> Option<SymbolTableEntry> {
    let d = lookup_depth(t, name);
    if d >= 0 {
        frame_find(t[d], name)
    } else {
        None
    }
}

pub proof fn lemma_lookup_depth_props(t: Seq<SpecFrame>, name: Seq<char>)
    ensures
        -1 <= lookup_depth(t, name) < t.len(),
        lookup_depth(t, name) >= 0 ==> frame_index(t[lookup_depth(t, name)], name) >= 0,
        lookup_depth(t, name) >= 0 ==> forall|j: int|
            lookup_depth(t, name) < j < t.len() ==> frame_index(#[trigger] t[j], name) == -1,
        lookup_depth(t, name) == -1 ==> forall|j: int|
            0 <= j < t.len() ==> frame_index(#[trigger] t[j], name) == -1,
    decreases t.len(),
{
    if t.len() > 0 {
        lemma_frame_index_props(t.last(), name);
        if frame_index(t.last(), name) < 0 {
            lemma_lookup_depth_props(t.drop_last(), name);
            assert forall|j: int| 0 <= j < t.len() - 1 implies t.drop_last()[j] == (#[trigger] t[j]) by {}
        }
    }
}

pub proof fn lemma_lookup_depth_is(t: Seq<SpecFrame>, name: Seq<char>, d: int)
    requires
        0 <= d < t.len(),
        frame_index(t[d], name) >= 0,
        forall|j: int| d < j < t.len() ==> frame_index(#[trigger] t[j], name) == -1,
    ensures
        lookup_depth(t, name) == d,
    decreases t.len(),
{
    if d < t.len() - 1 {
        assert(frame_index(t.last(), name) == -1);
        lemma_lookup_depth_is(t.drop_last(), name, d);
    }
}

/// Defining `name` in a frame: overwrite its entry in place when the
/// name is already present, append it otherwise. The new entry carries
/// the declared type and no value.
pub open spec fn frame_define(f: SpecFrame, name: Seq<char>, ty: ast::Type) -> SpecFrame {
    let e = SymbolTableEntry { ty, value: None };
    let i = frame_index(f, name);
    if i >= 0 {
        f.update(i, (name, e))
    } else {
        f.push((name, e))
    }
}

/// Assigning a value to the innermost binding of `name`, which must
/// exist; its declared type is kept.
pub open spec fn frame_set_value(f: SpecFrame, name: Seq<char>, v: Value) -> SpecFrame {
    let i = frame_index(f, name);
    f.update(i, (name, SymbolTableEntry { ty: f[i].1.ty, value: Some(v) }))
}

pub open spec fn table_set_value(t: Seq<SpecFrame>, name: Seq<char>, v: Value) -> Seq<SpecFrame> {
    let d = lookup_depth(t, name);
    t.update(d, frame_set_value(t[d], name, v))
}

/// The values currently held by the symbols of one frame, in insertion
/// order.
pub open spec fn frame_live(f: SpecFrame) -> Seq<Value>
    decreases f.len(),
{
    if f.len() == 0 {
        Seq::<Value>::empty()
    } else {
        frame_live(f.drop_last()) + match f.last().1.value {
            Some(v) => seq![v],
            None => Seq::<Value>::empty(),
        }
    }
}

/// The values currently held by all symbols of all active frames, in a
/// stable order: outermost frame first, each frame in insertion order.
pub open spec fn table_live(t: Seq<SpecFrame>) -> Seq<Value>
    decreases t.len(),
{
    if t.len() == 0 {
        Seq::<Value>::empty()
    } else {
        table_live(t.drop_last()) + frame_live(t.last())
    }
}

/// Replacing each held value of one frame with a fresh one, counting
/// up from `next`: the resulting frame and the next unused identifier.
pub open spec fn spec_revalue_frame(f: SpecFrame, next: nat) -> (SpecFrame, nat)
    decreases f.len(),
{
    if f.len() == 0 {
        (Seq::<(Seq<char>, SymbolTableEntry)>::empty(), next)
    } else {
        let (pre, n) = spec_revalue_frame(f.drop_last(), next);
        let p = f.last();
        match p.1.value {
            Some(_) => (
                pre.push((p.0, SymbolTableEntry { ty: p.1.ty, value: Some(Value { id: n as usize }) })),
                n + 1,
            ),
            None => (pre.push(p), n),
        }
    }
}

/// Replacing each held value of every frame with a fresh one, in the
/// same stable order as `table_live`.
pub open spec fn spec_revalue(t: Seq<SpecFrame>, next: nat) -> (Seq<SpecFrame>, nat)
    decreases t.len(),
{
    if t.len() == 0 {
        (Seq::<SpecFrame>::empty(), next)
    } else {
        let (pre, n) = spec_revalue(t.drop_last(), next);
        let (f2, n2) = spec_revalue_frame(t.last(), n);
        (pre.push(f2), n2)
    }
}

/// Entries of a frame have pairwise distinct names.
pub open spec fn frame_keys_unique(f: SpecFrame) -> bool {
    forall|i: int, j: int| 0 <= i < j < f.len() ==> (#[trigger] f[i]).0 != (#[trigger] f[j]).0
}

/// Scoped name-to-binding table. There is always at least one active
/// frame.
#[derive(Debug)]
pub struct SymbolTable {
    table: Vec<Vec<(String, SymbolTableEntry)>>,
}

impl View for SymbolTable {
    type V = Seq<SpecFrame>;

    closed spec fn view(&self) -> Seq<SpecFrame> {
        self.table@.map_values(|f: Vec<(String, SymbolTableEntry)>| frame_view(f@))
    }
}

impl SymbolTable {
    /// At least one frame is active and every frame's names are unique.
    pub open spec fn wf(&self) -> bool {
        &&& self@.len() >= 1
        &&& forall|fi: int| 0 <= fi < self@.len() ==> frame_keys_unique(#[trigger] self@[fi])
    }

    pub fn new() -> (t: SymbolTable)
        ensures
            t.wf(),
            t@ =~= seq![Seq::<(Seq<char>, SymbolTableEntry)>::empty()],
    {
        let mut table: Vec<Vec<(String, SymbolTableEntry)>> = Vec::new();
        table.push(Vec::new());
        let t = SymbolTable { table };
        proof {
            assert(t@ =~~= seq![Seq::<(Seq<char>, SymbolTableEntry)>::empty()]);
        }
        t
    }

    /// Push an empty frame on top of the stack; always succeeds.
    pub fn push_scope(&mut self)
        requires
            old(self).wf(),
        ensures
            final(self).wf(),
            final(self)@ == old(self)@.push(Seq::<(Seq<char>, SymbolTableEntry)>::empty()),
    {
        self.table.push(Vec::new());
        proof {
            assert(final(self)@ =~~= old(self)@.push(Seq::<(Seq<char>, SymbolTableEntry)>::empty()));
        }
    }

    /// Remove the top frame, unless it is the only one: the root scope
    /// can never be popped, and on failure the table is unchanged.
    pub fn pop_scope(&mut self) -> (r: Result<(), Error>)
        requires
            old(self).wf(),
        ensures
            final(self).wf(),
            old(self)@.len() == 1 ==> (r matches Err(e) && e@ is ScopeUnderflow
                && final(self)@ == old(self)@),
            old(self)@.len() > 1 ==> r is Ok && final(self)@ == old(self)@.drop_last(),
    {
        if self.table.len() == 1 {
            Err(Error::ScopeUnderflow)
        } else {
            self.table.pop();
            proof {
                assert(final(self)@ =~= old(self)@.drop_last());
            }
            Ok(())
        }
    }

    /// Index of the first entry for `symbol` in one frame.
    #[verifier::loop_isolation(false)]
    fn find_in_frame(frame: &Vec<(String, SymbolTableEntry)>, symbol: &str) -> (r: Option<usize>)
        ensures
            match r {
                Some(i) => i == frame_index(frame_view(frame@), symbol@) && i < frame@.len(),
                None => frame_index(frame_view(frame@), symbol@) == -1,
            },
    {
        let ghost fv = frame_view(frame@);
        let mut i: usize = 0;
        while i < frame.len()
            invariant
                fv == frame_view(frame@),
                i <= frame@.len(),
                fv.len() == frame@.len(),
                forall|j: int| 0 <= j < i ==> (#[trigger] fv[j]).0 != symbol@,
            decreases frame@.len() - i,
        {
            if str_eq(frame[i].0.as_str(), symbol) {
                proof {
                    lemma_frame_index_is(fv, symbol@, i as int);
                }
                return Some(i);
            }
            i = i + 1;
        }
        proof {
            lemma_frame_index_props(fv, symbol@);
        }
        None
    }

    /// The innermost binding of `symbol`, if any.
    #[verifier::loop_isolation(false)]
    fn get_entry(&self, symbol: &str) -> (r: Option<SymbolTableEntry>)
        ensures
            r == lookup(self@, symbol@),
    {
        let mut fi: usize = self.table.len();
        while fi > 0
            invariant
                fi <= self@.len(),
                self@.len() == self.table@.len(),
                forall|j: int| fi <= j < self@.len() ==> frame_index(#[trigger] self@[j], symbol@) == -1,
            decreases fi,
        {
            fi = fi - 1;
            match Self::find_in_frame(&self.table[fi], symbol) {
                Some(ei) => {
                    proof {
                        lemma_lookup_depth_is(self@, symbol@, fi as int);
                    }
                    return Some(self.table[fi][ei].1);
                }
                None => {}
            }
        }
        proof {
            lemma_lookup_depth_props(self@, symbol@);
        }
        None
    }

    /// Insert `symbol` into the top frame with the given type and no
    /// value, shadowing outer bindings; overwrites a same-named entry
    /// already in the top frame. Never fails.
    #[verifier::loop_isolation(false)]
    pub fn define_symbol(&mut self, symbol: String, ty: ast::Type) -> (r: Result<(), Error>)
        requires
            old(self).wf(),
        ensures
            final(self).wf(),
            r is Ok,
            final(self)@ == old(self)@.update(
                old(self)@.len() - 1,
                frame_define(old(self)@.last(), symbol@, ty),
            ),
    {
        let top = self.table.len() - 1;
        let entry = SymbolTableEntry { ty, value: None };
        proof {
            lemma_frame_index_props(old(self)@.last(), symbol@);
        }
        match Self::find_in_frame(&self.table[top], symbol.as_str()) {
            Some(ei) => {
                self.table[top][ei] = (symbol, entry);
            }
            None => {
                self.table[top].push((symbol, entry));
            }
        }
        proof {
            assert(final(self)@ =~~= old(self)@.update(
                old(self)@.len() - 1,
                frame_define(old(self)@.last(), symbol@, ty),
            ));
            let newf = final(self)@.last();
            let oldf = old(self)@.last();
            assert forall|i: int, j: int| 0 <= i < j < newf.len() implies
                (#[trigger] newf[i]).0 != (#[trigger] newf[j]).0 by {
                assert(frame_keys_unique(oldf));
            }
        }
        Ok(())
    }

    /// Whether `symbol` is defined in some active frame.
    pub fn is_defined(&self, symbol: &str) -> (r: bool)
        ensures
            r == lookup(self@, symbol@).is_some(),
    {
        self.get_entry(symbol).is_some()
    }

    /// Whether `symbol` is defined in the top frame. Never fails.
    pub fn is_in_top_scope(&self, symbol: &str) -> (r: Result<bool, Error>)
        requires
            self.wf(),
        ensures
            r matches Ok(b) && b == (frame_index(self@.last(), symbol@) >= 0),
    {
        let top = self.table.len() - 1;
        Ok(Self::find_in_frame(&self.table[top], symbol).is_some())
    }

    /// Assign `value` to the innermost binding of `symbol`; fails with
    /// `UndefinedSymbol` and leaves the table unchanged when the symbol
    /// is not defined.
    #[verifier::loop_isolation(false)]
    pub fn set_value(&mut self, symbol: &str, value: Value) -> (r: Result<(), Error>)
        requires
            old(self).wf(),
        ensures
            final(self).wf(),
            lookup(old(self)@, symbol@).is_some() ==> r is Ok
                && final(self)@ == table_set_value(old(self)@, symbol@, value),
            lookup(old(self)@, symbol@).is_none() ==> (r matches Err(e)
                && e@ == SpecSymtabError::UndefinedSymbol(symbol@)
                && final(self)@ == old(self)@),
    {
        proof {
            lemma_lookup_depth_props(old(self)@, symbol@);
        }
        let mut fi: usize = self.table.len();
        while fi > 0
            invariant
                self@ == old(self)@,
                fi <= self@.len(),
                self@.len() == self.table@.len(),
                forall|j: int| fi <= j < self@.len() ==> frame_index(#[trigger] self@[j], symbol@) == -1,
            decreases fi,
        {
            fi = fi - 1;
            match Self::find_in_frame(&self.table[fi], symbol) {
                Some(ei) => {
                    proof {
                        lemma_lookup_depth_is(self@, symbol@, fi as int);
                        lemma_frame_index_props(self@[fi as int], symbol@);
                    }
                    let ty = self.table[fi][ei].1.ty;
                    self.table[fi][ei].1 = SymbolTableEntry { ty, value: Some(value) };
                    proof {
                        let name = old(self)@[fi as int][ei as int].0;
                        assert(name == symbol@);
                        assert(final(self)@[fi as int] =~~= frame_set_value(old(self)@[fi as int], symbol@, value));
                        assert(final(self)@ =~~= table_set_value(old(self)@, symbol@, value));
                        let newf = final(self)@[fi as int];
                        let oldf = old(self)@[fi as int];
                        assert forall|i: int, j: int| 0 <= i < j < newf.len() implies
                            (#[trigger] newf[i]).0 != (#[trigger] newf[j]).0 by {
                            assert(frame_keys_unique(oldf));
                            assert(oldf[i].0 == newf[i].0);
                            assert(oldf[j].0 == newf[j].0);
                        }
                    }
                    return Ok(());
                }
                None => {}
            }
        }
        proof {
            lemma_lookup_depth_props(self@, symbol@);
        }
        Err(Error::UndefinedSymbol(symbol.to_owned()))
    }

    /// The value currently held by `symbol`: `None` when the symbol is
    /// defined but was never assigned; `UndefinedSymbol` when it is not
    /// defined at all.
    pub fn get_value(&self, symbol: &str) -> (r: Result<Option<Value>, Error>)
        ensures
            match lookup(self@, symbol@) {
                Some(e) => r == Ok::<Option<Value>, Error>(e.value),
                None => r matches Err(e) && e@ == SpecSymtabError::UndefinedSymbol(symbol@),
            },
    {
        match self.get_entry(symbol) {
            Some(e) => Ok(e.value),
            None => Err(Error::UndefinedSymbol(symbol.to_owned())),
        }
    }

    /// The declared type of `symbol`; `UndefinedSymbol` when it is not
    /// defined.
    pub fn get_type(&self, symbol: &str) -> (r: Result<ast::Type, Error>)
        ensures
            match lookup(self@, symbol@) {
                Some(e) => r == Ok::<ast::Type, Error>(e.ty),
                None => r matches Err(e) && e@ == SpecSymtabError::UndefinedSymbol(symbol@),
            },
    {
        match self.get_entry(symbol) {
            Some(e) => Ok(e.ty),
            None => Err(Error::UndefinedSymbol(symbol.to_owned())),
        }
    }

    /// The values currently held by all live symbols, in the stable
    /// order: outermost frame first, each frame in insertion order.
    #[verifier::loop_isolation(false)]
    pub fn get_live_values(&self) -> (r: Vec<Value>)
        ensures
            r@ == table_live(self@),
    {
        let mut ret: Vec<Value> = Vec::new();
        let mut fi: usize = 0;
        while fi < self.table.len()
            invariant
                fi <= self@.len(),
                self@.len() == self.table@.len(),
                ret@ == table_live(self@.take(fi as int)),
            decreases self@.len() - fi,
        {
            let ghost pre = ret@;
            let mut ei: usize = 0;
            while ei < self.table[fi].len()
                invariant
                    fi < self@.len(),
                    self@.len() == self.table@.len(),
                    ei <= self@[fi as int].len(),
                    self@[fi as int].len() == self.table@[fi as int]@.len(),
                    ret@ == pre + frame_live(self@[fi as int].take(ei as int)),
                decreases self@[fi as int].len() - ei,
            {
                proof {
                    let f = self@[fi as int];
                    assert(f.take(ei + 1).drop_last() =~= f.take(ei as int));
                    assert(f.take(ei + 1).last() == f[ei as int]);
                }
                match self.table[fi][ei].1.value {
                    Some(v) => {
                        ret.push(v);
                    }
                    None => {}
                }
                ei = ei + 1;
            }
            proof {
                assert(self@[fi as int].take(self@[fi as int].len() as int) =~= self@[fi as int]);
                assert(self@.take(fi + 1).drop_last() =~= self@.take(fi as int));
                assert(self@.take(fi + 1).last() == self@[fi as int]);
            }
            fi = fi + 1;
        }
        proof {
            assert(self@.take(self@.len() as int) =~= self@);
        }
        ret
    }

    /// Replace the value of every symbol that currently holds one with
    /// a fresh value from `values`, one per live symbol, in the stable
    /// order of `table_live`; symbols without a value are untouched,
    /// and names, frame structure and declared types are all kept.
    #[verifier::loop_isolation(false)]
    pub fn revalue_live(&mut self, values: &mut ValueTable)
        requires
            old(self).wf(),
            old(values).wf(),
        ensures
            final(self).wf(),
            final(values).wf(),
            final(self)@ == spec_revalue(old(self)@, old(values).next_id()).0,
            final(values).next_id() == spec_revalue(old(self)@, old(values).next_id()).1,
            final(values)@ == old(values)@ + Seq::new(
                (final(values).next_id() - old(values).next_id()) as nat,
                |i: int| Value { id: (old(values).next_id() + i) as usize },
            ),
    {
        let ghost next0 = old(values).next_id();
        let mut fi: usize = 0;
        while fi < self.table.len()
            invariant
                old(self).wf(),
                values.wf(),
                fi <= self@.len(),
                self@.len() == self.table@.len(),
                old(self)@.len() == self@.len(),
                forall|j: int| fi <= j < self@.len() ==> #[trigger] self@[j] == old(self)@[j],
                self@.take(fi as int) == spec_revalue(old(self)@.take(fi as int), next0).0,
                values.next_id() == spec_revalue(old(self)@.take(fi as int), next0).1,
                values@.len() >= old(values)@.len(),
            decreases self@.len() - fi,
        {
            let ghost nfi = values.next_id();
            let ghost table_pre = self@;
            let ghost tphys_pre = self.table@;
            let mut ei: usize = 0;
            while ei < self.table[fi].len()
                invariant
                    old(self).wf(),
                    values.wf(),
                    fi < self@.len(),
                    self@.len() == self.table@.len(),
                    old(self)@.len() == self@.len(),
                    ei <= self@[fi as int].len(),
                    self@[fi as int].len() == old(self)@[fi as int].len(),
                    self@[fi as int].len() == self.table@[fi as int]@.len(),
                    forall|j: int| 0 <= j < self@.len() && j != fi
                        ==> #[trigger] self.table@[j] == tphys_pre[j],
                    forall|j: int| 0 <= j < self@.len() && j != fi ==> #[trigger] self@[j] == table_pre[j],
                    forall|j: int| fi < j < self@.len() ==> #[trigger] self@[j] == old(self)@[j],
                    forall|j: int| ei <= j < self@[fi as int].len()
                        ==> #[trigger] self@[fi as int][j] == old(self)@[fi as int][j],
                    self@[fi as int].take(ei as int)
                        == spec_revalue_frame(old(self)@[fi as int].take(ei as int), nfi).0,
                    values.next_id()
                        == spec_revalue_frame(old(self)@[fi as int].take(ei as int), nfi).1,
                    values@.len() >= old(values)@.len(),
                decreases self@[fi as int].len() - ei,
            {
                proof {
                    let f = old(self)@[fi as int];
                    assert(f.take(ei + 1).drop_last() =~= f.take(ei as int));
                    assert(f.take(ei + 1).last() == f[ei as int]);
                }
                let ghost f = old(self)@[fi as int];
                let ghost n = values.next_id();
                let ghost fv_pre = self@[fi as int];
                proof {
                    assert(self@[fi as int][ei as int] == f[ei as int]);
                    assert(spec_revalue_frame(f.take(ei + 1), nfi)
                        == match f[ei as int].1.value {
                            Some(_) => (
                                fv_pre.take(ei as int).push(
                                    (f[ei as int].0, SymbolTableEntry {
                                        ty: f[ei as int].1.ty,
                                        value: Some(Value { id: n as usize }),
                                    }),
                                ),
                                n + 1,
                            ),
                            None => (fv_pre.take(ei as int).push(f[ei as int]), n),
                        });
                }
                let has = self.table[fi][ei].1.value.is_some();
                if has {
                    let v = values.new_value();
                    let ty = self.table[fi][ei].1.ty;
                    self.table[fi][ei].1 = SymbolTableEntry { ty, value: Some(v) };
                    proof {
                        assert(v.id == n);
                        assert(self@[fi as int].take(ei as int) =~= fv_pre.take(ei as int));
                        assert(self@[fi as int][ei as int]
                            == (f[ei as int].0, SymbolTableEntry {
                                ty: f[ei as int].1.ty,
                                value: Some(Value { id: n as usize }),
                            }));
                    }
                } else {
                    proof {
                        assert(f[ei as int].1.value is None);
                    }
                }
                proof {
                    assert(self@[fi as int].take(ei + 1)
                        =~~= spec_revalue_frame(old(self)@[fi as int].take(ei + 1), nfi).0);
                    assert forall|j: int| 0 <= j < self@.len() && j != fi
                        implies #[trigger] self.table@[j] == tphys_pre[j]
                            && #[trigger] self@[j] == table_pre[j] by {
                        assert(self@[j] == frame_view(self.table@[j]@));
                        assert(table_pre[j] == frame_view(tphys_pre[j]@));
                    }
                    assert forall|j: int| ei + 1 <= j < self@[fi as int].len()
                        implies #[trigger] self@[fi as int][j] == old(self)@[fi as int][j] by {
                        assert(fv_pre[j] == old(self)@[fi as int][j]);
                        assert(self@[fi as int][j] == fv_pre[j]);
                    }
                }
                ei = ei + 1;
            }
            proof {
                let f = old(self)@[fi as int];
                assert(f.take(f.len() as int) =~= f);
                assert(self@[fi as int].take(self@[fi as int].len() as int) =~= self@[fi as int]);
                assert(old(self)@.take(fi + 1).drop_last() =~= old(self)@.take(fi as int));
                assert(old(self)@.take(fi + 1).last() == old(self)@[fi as int]);
                assert(self@.take(fi + 1) =~= self@.take(fi as int).push(self@[fi as int]));
                assert(self@.take(fi as int) =~= table_pre.take(fi as int));
            }
            fi = fi + 1;
        }
        proof {
            assert(old(self)@.take(old(self)@.len() as int) =~= old(self)@);
            assert(self@.take(self@.len() as int) =~= self@);
            lemma_spec_revalue_keeps_uniqueness(old(self)@, next0);
            assert(final(values)@ =~= old(values)@ + Seq::new(
                (final(values).next_id() - old(values).next_id()) as nat,
                |i: int| Value { id: (old(values).next_id() + i) as usize },
            ));
        }
    }
}

/// Revaluing changes no names, so frame-key uniqueness is preserved.
proof fn lemma_spec_revalue_frame_keeps_names(f: SpecFrame, next: nat)
    ensures
        spec_revalue_frame(f, next).0.len() == f.len(),
        forall|i: int| 0 <= i < f.len()
            ==> (#[trigger] spec_revalue_frame(f, next).0[i]).0 == f[i].0,
        spec_revalue_frame(f, next).1 >= next,
    decreases f.len(),
{
    if f.len() > 0 {
        lemma_spec_revalue_frame_keeps_names(f.drop_last(), next);
    }
}

pub proof fn lemma_spec_revalue_keeps_uniqueness(t: Seq<SpecFrame>, next: nat)
    requires
        forall|fi: int| 0 <= fi < t.len() ==> frame_keys_unique(#[trigger] t[fi]),
    ensures
        spec_revalue(t, next).0.len() == t.len(),
        forall|fi: int| 0 <= fi < t.len()
            ==> frame_keys_unique(#[trigger] spec_revalue(t, next).0[fi]),
    decreases t.len(),
{
    if t.len() > 0 {
        lemma_spec_revalue_keeps_uniqueness(t.drop_last(), next);
        let (pre, n) = spec_revalue(t.drop_last(), next);
        lemma_spec_revalue_frame_keeps_names(t.last(), n);
        let r = spec_revalue(t, next).0;
        assert forall|fi: int| 0 <= fi < t.len() implies frame_keys_unique(#[trigger] r[fi]) by {
            if fi < t.len() - 1 {
                assert(r[fi] == pre[fi]);
                assert(t.drop_last()[fi] == t[fi]);
            } else {
                let f2 = spec_revalue_frame(t.last(), n).0;
                assert(frame_keys_unique(t.last()));
                assert forall|i: int, j: int| 0 <= i < j < f2.len() implies
                    (#[trigger] f2[i]).0 != (#[trigger] f2[j]).0 by {
                    assert(f2[i].0 == t.last()[i].0);
                    assert(f2[j].0 == t.last()[j].0);
                }
            }
        }
    }
}

/// After defining `name` in the top frame, looking it up finds the new
/// entry: the declared type and no value.
pub proof fn lemma_define_then_lookup(t: Seq<SpecFrame>, name: Seq<char>, ty: ast::Type)
    requires
        t.len() >= 1,
    ensures
        lookup(t.update(t.len() - 1, frame_define(t.last(), name, ty)), name)
            == Some(SymbolTableEntry { ty, value: None }),
{
    let e = SymbolTableEntry { ty, value: None };
    let f = t.last();
    let f2 = frame_define(f, name, ty);
    let i = frame_index(f, name);
    lemma_frame_index_props(f, name);
    if i >= 0 {
        assert forall|j: int| 0 <= j < i implies (#[trigger] f2[j]).0 != name by {
            assert(f2[j] == f[j]);
        }
        lemma_frame_index_is(f2, name, i);
    } else {
        assert forall|j: int| 0 <= j < f.len() implies (#[trigger] f2[j]).0 != name by {
            assert(f2[j] == f[j]);
        }
        lemma_frame_index_is(f2, name, f.len() as int);
    }
    let t2 = t.update(t.len() - 1, f2);
    assert(t2.last() == f2);
}


/// A frame entry holding a value contributes that value to the frame's
/// live values.
pub proof fn lemma_frame_live_contains(f: SpecFrame, i: int, v: Value)
    requires
        0 <= i < f.len(),
        f[i].1.value == Some(v),
    ensures
        frame_live(f).contains(v),
    decreases f.len(),
{
    if i == f.len() - 1 {
        let pre = frame_live(f.drop_last());
        assert(frame_live(f)[pre.len() as int] == v);
    } else {
        lemma_frame_live_contains(f.drop_last(), i, v);
        let pre = frame_live(f.drop_last());
        let k = choose|k: int| 0 <= k < pre.len() && pre[k] == v;
        assert(frame_live(f)[k] == v);
    }
}

/// A value live in one frame is live in the whole table.
pub proof fn lemma_table_live_frame(t: Seq<SpecFrame>, d: int, v: Value)
    requires
        0 <= d < t.len(),
        frame_live(t[d]).contains(v),
    ensures
        table_live(t).contains(v),
    decreases t.len(),
{
    let pre = table_live(t.drop_last());
    if d == t.len() - 1 {
        let k = choose|k: int| 0 <= k < frame_live(t[d]).len() && frame_live(t[d])[k] == v;
        assert(table_live(t)[pre.len() + k] == v);
    } else {
        lemma_table_live_frame(t.drop_last(), d, v);
        let k = choose|k: int| 0 <= k < pre.len() && pre[k] == v;
        assert(table_live(t)[k] == v);
    }
}


/// Every value held in the table has an identifier below `n`.
pub open spec fn table_bounded(t: Seq<SpecFrame>, n: nat) -> bool {
    forall|fi: int, ei: int|
        0 <= fi < t.len() && 0 <= ei < t[fi].len() ==> match (#[trigger] t[fi][ei]).1.value {
            Some(v) => v.id < n,
            None => true,
        }
}

pub proof fn lemma_table_bounded_monotone(t: Seq<SpecFrame>, n: nat, m: nat)
    requires
        table_bounded(t, n),
        n <= m,
    ensures
        table_bounded(t, m),
{
}

/// Revaluing advances the counter monotonically.
pub proof fn lemma_revalue_monotone(t: Seq<SpecFrame>, next: nat)
    ensures
        spec_revalue(t, next).1 >= next,
    decreases t.len(),
{
    if t.len() > 0 {
        lemma_revalue_monotone(t.drop_last(), next);
        lemma_spec_revalue_frame_keeps_names(t.last(), spec_revalue(t.drop_last(), next).1);
    }
}

/// Every value a revalued frame holds was issued before the resulting
/// counter.
proof fn lemma_revalue_frame_bounded(f: SpecFrame, next: nat, fin: nat)
    requires
        spec_revalue_frame(f, next).1 <= fin,
        fin <= usize::MAX,
    ensures
        forall|ei: int|
            0 <= ei < spec_revalue_frame(f, next).0.len() ==> match (#[trigger] spec_revalue_frame(
                f,
                next,
            ).0[ei]).1.value {
                Some(v) => v.id < fin,
                None => true,
            },
    decreases f.len(),
{
    if f.len() > 0 {
        let (pre, n) = spec_revalue_frame(f.drop_last(), next);
        lemma_revalue_frame_bounded(f.drop_last(), next, fin);
    }
}

/// Every value a revalued table holds was issued before the resulting
/// counter.
pub proof fn lemma_revalue_bounded(t: Seq<SpecFrame>, next: nat, fin: nat)
    requires
        spec_revalue(t, next).1 <= fin,
        fin <= usize::MAX,
    ensures
        table_bounded(spec_revalue(t, next).0, fin),
    decreases t.len(),
{
    if t.len() > 0 {
        let (pre, n) = spec_revalue(t.drop_last(), next);
        lemma_spec_revalue_frame_keeps_names(t.last(), n);
        lemma_revalue_bounded(t.drop_last(), next, fin);
        lemma_revalue_frame_bounded(t.last(), n, fin);
        let r = spec_revalue(t, next).0;
        assert forall|fi: int, ei: int|
            0 <= fi < r.len() && 0 <= ei < r[fi].len() implies match (#[trigger] r[fi][ei]).1.value {
            Some(v) => v.id < fin,
            None => true,
        } by {
            if fi < r.len() - 1 {
                assert(r[fi] == pre[fi]);
            } else {
                assert(r[fi] == spec_revalue_frame(t.last(), n).0);
            }
        }
    }
}

/// Revaluing keeps the frame structure, in particular the frame count.
pub proof fn lemma_revalue_len(t: Seq<SpecFrame>, next: nat)
    ensures
        spec_revalue(t, next).0.len() == t.len(),
    decreases t.len(),
{
    if t.len() > 0 {
        lemma_revalue_len(t.drop_last(), next);
    }
}

/// Defining a symbol adds no held value, so boundedness is kept.
pub proof fn lemma_define_bounded(t: Seq<SpecFrame>, name: Seq<char>, ty: ast::Type, n: nat)
    requires
        table_bounded(t, n),
        t.len() >= 1,
    ensures
        table_bounded(t.update(t.len() - 1, frame_define(t.last(), name, ty)), n),
{
    let f2 = frame_define(t.last(), name, ty);
    let r = t.update(t.len() - 1, f2);
    lemma_frame_index_props(t.last(), name);
    assert forall|fi: int, ei: int|
        0 <= fi < r.len() && 0 <= ei < r[fi].len() implies match (#[trigger] r[fi][ei]).1.value {
        Some(v) => v.id < n,
        None => true,
    } by {
        if fi == r.len() - 1 {
            let i = frame_index(t.last(), name);
            if !(i >= 0 && ei == i) && !(i < 0 && ei == t.last().len()) {
                assert(f2[ei] == t.last()[ei]);
                assert(t[fi][ei] == t.last()[ei]);
            }
        }
    }
}

/// Assigning a bounded value keeps the table bounded.
pub proof fn lemma_set_value_bounded(t: Seq<SpecFrame>, name: Seq<char>, v: Value, n: nat)
    requires
        table_bounded(t, n),
        v.id < n,
        lookup(t, name) is Some,
    ensures
        table_bounded(table_set_value(t, name, v), n),
{
    lemma_lookup_depth_props(t, name);
    let d = lookup_depth(t, name);
    lemma_frame_index_props(t[d], name);
    let i = frame_index(t[d], name);
    let r = table_set_value(t, name, v);
    assert forall|fi: int, ei: int|
        0 <= fi < r.len() && 0 <= ei < r[fi].len() implies match (#[trigger] r[fi][ei]).1.value {
        Some(w) => w.id < n,
        None => true,
    } by {
        if fi == d && ei != i {
            assert(r[fi][ei] == t[fi][ei]);
        }
    }
}

/// Every live value of a bounded frame is bounded.
proof fn lemma_frame_live_bounded(f: SpecFrame, n: nat)
    requires
        forall|ei: int|
            0 <= ei < f.len() ==> match (#[trigger] f[ei]).1.value {
                Some(v) => v.id < n,
                None => true,
            },
    ensures
        forall|k: int| 0 <= k < frame_live(f).len() ==> (#[trigger] frame_live(f)[k]).id < n,
    decreases f.len(),
{
    if f.len() > 0 {
        assert forall|ei: int|
            0 <= ei < f.drop_last().len() implies match (#[trigger] f.drop_last()[ei]).1.value {
            Some(v) => v.id < n,
            None => true,
        } by {
            assert(f.drop_last()[ei] == f[ei]);
        }
        lemma_frame_live_bounded(f.drop_last(), n);
        let pre = frame_live(f.drop_last());
        assert forall|k: int| 0 <= k < frame_live(f).len() implies (#[trigger] frame_live(f)[k]).id
            < n by {
            if k < pre.len() {
                assert(frame_live(f)[k] == pre[k]);
            } else {
                assert(f[f.len() - 1] == f.last());
            }
        }
    }
}

/// Every live value of a bounded table is bounded.
pub proof fn lemma_table_live_bounded(t: Seq<SpecFrame>, n: nat)
    requires
        table_bounded(t, n),
    ensures
        forall|k: int| 0 <= k < table_live(t).len() ==> (#[trigger] table_live(t)[k]).id < n,
    decreases t.len(),
{
    if t.len() > 0 {
        assert forall|fi: int, ei: int|
            0 <= fi < t.drop_last().len() && 0 <= ei < t.drop_last()[fi].len() implies match (
        #[trigger] t.drop_last()[fi][ei]).1.value {
            Some(v) => v.id < n,
            None => true,
        } by {
            assert(t.drop_last()[fi] == t[fi]);
        }
        lemma_table_live_bounded(t.drop_last(), n);
        assert forall|ei: int|
            0 <= ei < t.last().len() implies match (#[trigger] t.last()[ei]).1.value {
            Some(v) => v.id < n,
            None => true,
        } by {
            assert(t.last() == t[t.len() - 1]);
        }
        lemma_frame_live_bounded(t.last(), n);
        let pre = table_live(t.drop_last());
        let fl = frame_live(t.last());
        assert forall|k: int| 0 <= k < table_live(t).len() implies (#[trigger] table_live(t)[k]).id
            < n by {
            if k < pre.len() {
                assert(table_live(t)[k] == pre[k]);
            } else {
                assert(table_live(t)[k] == fl[k - pre.len()]);
            }
        }
    }
}

} // verus!