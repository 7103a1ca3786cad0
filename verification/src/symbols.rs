use crate::linker_error::{LinkerError, Message};
use vstd::prelude::*;

verus! {

/// A symbol with a definitive address. `segment == 0` means "absolute", in
/// which case `frame` is the literal segment word.
#[derive(Debug, Eq, PartialEq, Structural, Copy, Clone)]
pub struct PublicSymbol {
    pub group: usize,
    pub segment: usize,
    pub frame: u16,
    pub offset: u16,
    pub used: bool,
}

/// A communal variable, whose size may still grow.
#[derive(Debug, Eq, PartialEq, Structural, Copy, Clone)]
pub struct CommonSymbol {
    pub size: u32,
    pub isfar: bool,
    pub group: usize,
    pub segment: usize,
    pub offset: u16,
}

#[derive(Debug, Eq, PartialEq, Structural, Copy, Clone)]
pub enum Symbol {
    Undefined,
    Public(PublicSymbol),
    Common(CommonSymbol),
}

impl Symbol {
    pub fn public(group: usize, segment: usize, frame: u16, offset: u16) -> (s: Symbol)
        ensures
            s == Symbol::Public(PublicSymbol { group, segment, frame, offset, used: false }),
    {
        Symbol::Public(PublicSymbol { group, segment, frame, offset, used: false })
    }

    pub fn common(size: u32, isfar: bool) -> (s: Symbol)
        ensures
            s == Symbol::Common(CommonSymbol { size, isfar, group: 0, segment: 0, offset: 0 }),
    {
        Symbol::Common(CommonSymbol { size, isfar, group: 0, segment: 0, offset: 0 })
    }

    /// What a table entry holding `current` (or no entry, for `None`) holds
    /// once `incoming` has been recorded under the same name; `None` where
    /// the combination is an error.
    ///
    /// A reference never undoes a definition, but marks a public symbol as
    /// used. A public definition resolves a reference and is then used; it
    /// cannot replace another definition. A communal variable keeps the
    /// larger of the two sizes and cannot change its near/far attribute.
    pub open spec fn transition(current: Option<Symbol>, incoming: Symbol) -> Option<Symbol> {
        match incoming {
            Symbol::Undefined => match current {
                None => Some(Symbol::Undefined),
                Some(Symbol::Public(p)) => Some(Symbol::Public(PublicSymbol { used: true, ..p })),
                Some(s) => Some(s),
            },
            Symbol::Public(p) => match current {
                None => Some(incoming),
                Some(Symbol::Undefined) => Some(
                    Symbol::Public(PublicSymbol { used: true, ..p }),
                ),
                Some(_) => None,
            },
            Symbol::Common(c) => match current {
                None => Some(incoming),
                Some(Symbol::Undefined) => Some(incoming),
                Some(Symbol::Public(_)) => None,
                Some(Symbol::Common(o)) => if c.isfar != o.isfar {
                    None
                } else {
                    Some(
                        Symbol::Common(
                            CommonSymbol { size: if o.size >= c.size {
                                o.size
                            } else {
                                c.size
                            }, ..o },
                        ),
                    )
                },
            },
        }
    }
}

/// One entry of the symbol table.
pub struct SymbolEntry {
    pub name: String,
    pub symbol: Symbol,
}

/// The symbol table: a mapping from names to symbols, kept in the order in
/// which the names first appeared. No name has more than one entry (`wf`).
pub struct SymbolTable {
    pub entries: Vec<SymbolEntry>,
}

/// A symbol table as a mathematical value: the names with their symbols, in
/// the order in which the names first appeared. Where a name occurs more
/// than once, which no table does that was built by `update`, the first
/// occurrence counts.
pub type Symbols = Seq<(Seq<char>, Symbol)>;

impl View for SymbolTable {
    type V = Symbols;

    open spec fn view(&self) -> Symbols {
        Seq::new(self.entries@.len(), |i: int| (self.entries@[i].name@, self.entries@[i].symbol))
    }
}

/// The 1-based position in `table` of the first entry for `name`, or 0.
pub open spec fn position_of(table: Symbols, name: Seq<char>) -> int
    decreases table.len(),
{
    if table.len() == 0 {
        0
    } else if position_of(table.drop_last(), name) != 0 {
        position_of(table.drop_last(), name)
    } else if table.last().0 == name {
        table.len() as int
    } else {
        0
    }
}

/// `position_of` is 0 exactly when no entry is for the name; otherwise it
/// names an entry for the name, after entries for other names.
pub proof fn lemma_position_of(table: Symbols, name: Seq<char>)
    ensures
        0 <= position_of(table, name) <= table.len(),
        position_of(table, name) == 0 ==> forall|i: int|
            0 <= i < table.len() ==> (#[trigger] table[i]).0 != name,
        position_of(table, name) != 0 ==> table[position_of(table, name) - 1].0 == name,
        forall|i: int| 0 <= i < position_of(table, name) - 1 ==> (#[trigger] table[i]).0 != name,
    decreases table.len(),
{
    if table.len() > 0 {
        let t = table.drop_last();
        lemma_position_of(t, name);
        if position_of(t, name) != 0 {
            assert(table[position_of(t, name) - 1] == t[position_of(t, name) - 1]);
            assert forall|i: int| 0 <= i < position_of(t, name) - 1 implies (
            #[trigger] table[i]).0 != name by {
                assert(table[i] == t[i]);
            }
        } else {
            assert forall|i: int| 0 <= i < table.len() - 1 implies (#[trigger] table[i]).0
                != name by {
                assert(table[i] == t[i]);
            }
        }
    }
}

/// An entry for the name that follows only entries for other names is the
/// one `position_of` names.
pub proof fn lemma_position_is(table: Symbols, name: Seq<char>, k: int)
    requires
        0 <= k <= table.len(),
        k != 0 ==> table[k - 1].0 == name,
        forall|i: int|
            0 <= i < (if k == 0 {
                table.len() as int
            } else {
                k - 1
            }) ==> (#[trigger] table[i]).0 != name,
    ensures
        position_of(table, name) == k,
{
    lemma_position_of(table, name);
    let r = position_of(table, name);
    if r != 0 && k != 0 {
        if r < k {
            assert(table[r - 1].0 != name);
        }
        if k < r {
            assert(table[k - 1].0 != name);
        }
    } else if r != 0 {
        assert(table[r - 1].0 != name);
    } else if k != 0 {
        assert(table[k - 1].0 != name);
    }
}

/// The symbol that `table` holds under `name`, if any.
pub open spec fn symbol_of(table: Symbols, name: Seq<char>) -> Option<Symbol> {
    if position_of(table, name) != 0 {
        Some(table[position_of(table, name) - 1].1)
    } else {
        None
    }
}

/// `table` with `symbol` under `name`: in the place of the entry for the
/// name, or at the end where there is none.
pub open spec fn stored(table: Symbols, name: Seq<char>, symbol: Symbol) -> Symbols {
    if position_of(table, name) != 0 {
        table.update(position_of(table, name) - 1, (name, symbol))
    } else {
        table.push((name, symbol))
    }
}

/// `table` once `symbol` has been recorded under `name`; `None` where the
/// symbol rules forbid it.
pub open spec fn with_symbol(table: Symbols, name: Seq<char>, symbol: Symbol) -> Option<Symbols> {
    match Symbol::transition(symbol_of(table, name), symbol) {
        Some(s) => Some(stored(table, name, s)),
        None => None,
    }
}

/// The names, in order, of the entries of `table` that are undefined.
pub open spec fn undefined_names(table: Symbols) -> Seq<Seq<char>>
    decreases table.len(),
{
    if table.len() == 0 {
        Seq::empty()
    } else if table.last().1 == Symbol::Undefined {
        undefined_names(table.drop_last()).push(table.last().0)
    } else {
        undefined_names(table.drop_last())
    }
}

/// Whether `table` has an undefined entry named `n`.
pub open spec fn has_undefined(table: Symbols, n: Seq<char>) -> bool {
    exists|i: int| 0 <= i < table.len() && #[trigger] table[i] == (n, Symbol::Undefined)
}

/// The undefined names are the names of the undefined entries.
pub proof fn lemma_undefined_names(table: Symbols, n: Seq<char>)
    ensures
        undefined_names(table).contains(n) <==> has_undefined(table, n),
    decreases table.len(),
{
    if table.len() > 0 {
        let rest = table.drop_last();
        let und = undefined_names(table);
        let before = undefined_names(rest);
        lemma_undefined_names(rest, n);
        if und.contains(n) {
            let j = choose|j: int| 0 <= j < und.len() && und[j] == n;
            if j < before.len() {
                assert(before[j] == n);
                let i = choose|i: int| 0 <= i < rest.len() && #[trigger] rest[i] == (
                    n,
                    Symbol::Undefined,
                );
                assert(table[i] == (n, Symbol::Undefined));
            } else {
                assert(table[table.len() - 1] == (n, Symbol::Undefined));
            }
        }
        if has_undefined(table, n) {
            let i = choose|i: int| 0 <= i < table.len() && #[trigger] table[i] == (
                n,
                Symbol::Undefined,
            );
            if i < rest.len() {
                assert(rest[i] == (n, Symbol::Undefined));
                let j = choose|j: int| 0 <= j < before.len() && before[j] == n;
                assert(und[j] == n);
            } else {
                assert(und[und.len() - 1] == n);
            }
        }
    }
}

/// Whether no name has more than one entry in `table`.
pub open spec fn unique_names(table: Symbols) -> bool {
    forall|i: int, j: int| 0 <= i < j < table.len() ==> table[i].0 != table[j].0
}

/// Recording a symbol in a table in which no name has more than one entry
/// leaves it so.
pub proof fn lemma_with_symbol_unique(table: Symbols, name: Seq<char>, symbol: Symbol)
    requires
        unique_names(table),
        with_symbol(table, name, symbol) is Some,
    ensures
        unique_names(with_symbol(table, name, symbol)->0),
{
    lemma_position_of(table, name);
    let next = with_symbol(table, name, symbol)->0;
    let p = position_of(table, name);
    assert forall|i: int, j: int| 0 <= i < j < next.len() implies next[i].0 != next[j].0 by {
        if p != 0 {
            assert(next[i].0 == table[i].0 && next[j].0 == table[j].0);
        } else if j < table.len() {
            assert(next[i] == table[i] && next[j] == table[j]);
        } else {
            assert(next[i] == table[i]);
            assert(table[i].0 != name);
        }
    }
}

/// In a table in which no name has more than one entry, the names that are
/// listed as undefined are those that the table holds as undefined, and
/// none is listed twice.
pub proof fn lemma_undefined_names_unique(table: Symbols, n: Seq<char>)
    requires
        unique_names(table),
    ensures
        undefined_names(table).contains(n) <==> symbol_of(table, n) == Some(Symbol::Undefined),
        undefined_names(table).no_duplicates(),
{
    lemma_undefined_names(table, n);
    lemma_position_of(table, n);
    if has_undefined(table, n) {
        let i = choose|i: int| 0 <= i < table.len() && #[trigger] table[i] == (
            n,
            Symbol::Undefined,
        );
        let p = position_of(table, n);
        if p - 1 < i {
            assert(table[p - 1].0 != table[i].0);
        }
    }
    if symbol_of(table, n) == Some(Symbol::Undefined) {
        let p = position_of(table, n);
        assert(table[p - 1] == (n, Symbol::Undefined));
    }
    lemma_undefined_names_distinct(table);
}

/// Where no name has more than one entry, no name is listed twice as
/// undefined.
proof fn lemma_undefined_names_distinct(table: Symbols)
    requires
        unique_names(table),
    ensures
        undefined_names(table).no_duplicates(),
    decreases table.len(),
{
    if table.len() > 0 {
        let rest = table.drop_last();
        assert(unique_names(rest)) by {
            assert forall|i: int, j: int| 0 <= i < j < rest.len() implies rest[i].0
                != rest[j].0 by {
                assert(rest[i] == table[i] && rest[j] == table[j]);
            }
        }
        lemma_undefined_names_distinct(rest);
        let before = undefined_names(rest);
        let und = undefined_names(table);
        let last = table.last();
        if last.1 == Symbol::Undefined {
            if before.contains(last.0) {
                lemma_undefined_names(rest, last.0);
                let i = choose|i: int| 0 <= i < rest.len() && #[trigger] rest[i] == (
                    last.0,
                    Symbol::Undefined,
                );
                assert(table[i].0 == table[table.len() - 1].0);
            }
            assert forall|a: int, b: int|
                0 <= a < und.len() && 0 <= b < und.len() && a != b implies und[a] != und[b] by {
                if a < before.len() && b < before.len() {
                    assert(und[a] == before[a] && und[b] == before[b]);
                } else if a < before.len() {
                    assert(before[a] == und[a]);
                    assert(before.contains(und[a]));
                } else {
                    assert(before[b] == und[b]);
                    assert(before.contains(und[b]));
                }
            }
        }
    }
}

/// Recording a symbol makes the table hold, under its name, what the symbol
/// rules give, and leaves every other name as it was.
pub proof fn lemma_with_symbol(table: Symbols, name: Seq<char>, symbol: Symbol, other: Seq<char>)
    requires
        with_symbol(table, name, symbol) is Some,
    ensures
        symbol_of(with_symbol(table, name, symbol)->0, name) == Symbol::transition(
            symbol_of(table, name),
            symbol,
        ),
        other != name ==> symbol_of(with_symbol(table, name, symbol)->0, other) == symbol_of(
            table,
            other,
        ),
{
    let s = Symbol::transition(symbol_of(table, name), symbol)->0;
    let next = stored(table, name, s);
    lemma_position_of(table, name);
    lemma_position_of(table, other);
    let p = position_of(table, name);
    let q = position_of(table, other);
    if p != 0 {
        assert forall|i: int| 0 <= i < p - 1 implies (#[trigger] next[i]).0 != name by {
            assert(next[i] == table[i]);
        }
        lemma_position_is(next, name, p);
        if other != name {
            if q != 0 {
                assert(next[q - 1] == table[q - 1]);
                assert forall|i: int| 0 <= i < q - 1 implies (#[trigger] next[i]).0 != other by {
                    assert(table[i].0 != other);
                }
                lemma_position_is(next, other, q);
            } else {
                assert forall|i: int| 0 <= i < next.len() implies (#[trigger] next[i]).0
                    != other by {
                    assert(table[i].0 != other);
                }
                lemma_position_is(next, other, 0);
            }
        }
    } else {
        assert forall|i: int| 0 <= i < table.len() implies (#[trigger] next[i]).0 != name by {
            assert(next[i] == table[i]);
        }
        lemma_position_is(next, name, table.len() as int + 1);
        if other != name {
            if q != 0 {
                assert(next[q - 1] == table[q - 1]);
                assert forall|i: int| 0 <= i < q - 1 implies (#[trigger] next[i]).0 != other by {
                    assert(next[i] == table[i]);
                }
                lemma_position_is(next, other, q);
            } else {
                assert forall|i: int| 0 <= i < next.len() implies (#[trigger] next[i]).0
                    != other by {
                    if i < table.len() {
                        assert(next[i] == table[i]);
                    }
                }
                lemma_position_is(next, other, 0);
            }
        }
    }
}

/// A reference that is followed by a public definition leaves the symbol
/// defined as the definition says, and used.
pub proof fn lemma_reference_then_definition(table: Symbols, name: Seq<char>, p: PublicSymbol)
    requires
        symbol_of(table, name) is None || symbol_of(table, name) == Some(Symbol::Undefined),
    ensures
        with_symbol(table, name, Symbol::Undefined) is Some,
        with_symbol(with_symbol(table, name, Symbol::Undefined)->0, name, Symbol::Public(p))
            is Some,
        symbol_of(
            with_symbol(
                with_symbol(table, name, Symbol::Undefined)->0,
                name,
                Symbol::Public(p),
            )->0,
            name,
        ) == Some(Symbol::Public(PublicSymbol { used: true, ..p })),
{
    lemma_with_symbol(table, name, Symbol::Undefined, name);
    let referenced = with_symbol(table, name, Symbol::Undefined)->0;
    lemma_with_symbol(referenced, name, Symbol::Public(p), name);
}

impl SymbolTable {
    /// No name has more than one entry.
    pub open spec fn wf(&self) -> bool {
        unique_names(self@)
    }

    pub fn new() -> (t: SymbolTable)
        ensures
            t@ == Seq::<(Seq<char>, Symbol)>::empty(),
            t.wf(),
    {
        let t = SymbolTable { entries: Vec::new() };
        assert(t@ =~= Seq::<(Seq<char>, Symbol)>::empty());
        t
    }

    /// The position of the entry named `name`, counted from 1, or 0.
    fn find(&self, name: &String) -> (r: usize)
        ensures
            r == position_of(self@, name@),
            r <= self.entries@.len(),
    {
        let mut i: usize = 0;
        while i < self.entries.len()
            invariant
                i <= self.entries@.len(),
                forall|j: int| 0 <= j < i ==> (#[trigger] self@[j]).0 != name@,
            decreases self.entries@.len() - i,
        {
            if self.entries[i].name == *name {
                proof {
                    assert(self@[i as int].0 == name@);
                    lemma_position_is(self@, name@, i + 1);
                }
                return i + 1;
            }
            assert(self@[i as int].0 != name@);
            i += 1;
        }
        proof {
            lemma_position_is(self@, name@, 0);
        }
        0
    }

    /// The symbol recorded under `name`, if any.
    pub fn get(&self, name: &str) -> (r: Option<Symbol>)
        ensures
            r == symbol_of(self@, name@),
    {
        let wanted = name.to_owned();
        let at = self.find(&wanted);
        if at != 0 {
            Some(self.entries[at - 1].symbol)
        } else {
            None
        }
    }

    /// The names that are referenced but not defined, in the order in which
    /// they entered the table.
    pub fn undefined_symbols(&self) -> (r: Vec<&String>)
        requires
            self.wf(),
        ensures
            r@.len() == undefined_names(self@).len(),
            forall|i: int| 0 <= i < r@.len() ==> r@[i]@ == undefined_names(self@)[i],
            undefined_names(self@).no_duplicates(),
            forall|n: Seq<char>|
                #[trigger] undefined_names(self@).contains(n) <==> symbol_of(self@, n) == Some(
                    Symbol::Undefined,
                ),
    {
        proof {
            assert forall|n: Seq<char>| #[trigger]
                undefined_names(self@).contains(n) <==> symbol_of(self@, n) == Some(
                    Symbol::Undefined,
                ) by {
                lemma_undefined_names_unique(self@, n);
            }
            lemma_undefined_names_unique(self@, Seq::empty());
        }
        let mut result: Vec<&String> = Vec::new();
        let mut i: usize = 0;
        while i < self.entries.len()
            invariant
                i <= self.entries@.len(),
                result@.len() == undefined_names(self@.take(i as int)).len(),
                forall|j: int|
                    0 <= j < result@.len() ==> result@[j]@ == undefined_names(
                        self@.take(i as int),
                    )[j],
            decreases self.entries@.len() - i,
        {
            proof {
                assert(self@.take(i + 1).drop_last() =~= self@.take(i as int));
                assert(self@.take(i + 1).last() == self@[i as int]);
            }
            if self.entries[i].symbol == Symbol::Undefined {
                result.push(&self.entries[i].name);
            }
            i += 1;
        }
        proof {
            assert(self@.take(i as int) =~= self@);
        }
        result
    }

    /// Records `symbol` under `name`, following `Symbol::transition`. A
    /// rejected update leaves the table as it was.
    pub fn update(&mut self, name: &str, symbol: Symbol) -> (r: Result<(), LinkerError>)
        ensures
            old(self).wf() ==> final(self).wf(),
            match r {
                Ok(_) => with_symbol(old(self)@, name@, symbol) == Some(final(self)@),
                Err(_) => with_symbol(old(self)@, name@, symbol) is None && final(self)@ == old(
                    self,
                )@,
            },
    {
        let key = name.to_owned();
        let at = self.find(&key);
        if at != 0 {
            let i = at - 1;
            let current = self.entries[i].symbol;
            let next = match symbol {
                Symbol::Undefined => match current {
                    Symbol::Public(p) => Symbol::Public(
                        PublicSymbol {
                            group: p.group,
                            segment: p.segment,
                            frame: p.frame,
                            offset: p.offset,
                            used: true,
                        },
                    ),
                    _ => current,
                },
                Symbol::Public(p) => match current {
                    Symbol::Undefined => Symbol::Public(
                        PublicSymbol {
                            group: p.group,
                            segment: p.segment,
                            frame: p.frame,
                            offset: p.offset,
                            used: true,
                        },
                    ),
                    Symbol::Public(_) => {
                        return Err(
                            Message::new("Public symbol ").str(name).str(
                                " is multiply defined.",
                            ).error(),
                        );
                    },
                    Symbol::Common(_) => {
                        return Err(
                            Message::new("Common variable ").str(name).str(
                                " is redefined as public symbol.",
                            ).error(),
                        );
                    },
                },
                Symbol::Common(c) => match current {
                    Symbol::Undefined => symbol,
                    Symbol::Public(_) => {
                        return Err(
                            Message::new("Public symbol ").str(name).str(
                                " is redefined as communal variable.",
                            ).error(),
                        );
                    },
                    Symbol::Common(o) => {
                        if c.isfar != o.isfar {
                            return Err(
                                LinkerError::with_detail(
                                    "Attempt to change near/far attribute of common variable ",
                                    name,
                                ),
                            );
                        }
                        Symbol::Common(
                            CommonSymbol {
                                size: if o.size >= c.size {
                                    o.size
                                } else {
                                    c.size
                                },
                                isfar: o.isfar,
                                group: o.group,
                                segment: o.segment,
                                offset: o.offset,
                            },
                        )
                    },
                },
            };
            self.entries.set(i, SymbolEntry { name: key, symbol: next });
            assert(self@ =~= stored(old(self)@, name@, next));
            proof {
                if old(self).wf() {
                    lemma_with_symbol_unique(old(self)@, name@, symbol);
                }
            }
            Ok(())
        } else {
            self.entries.push(SymbolEntry { name: key, symbol });
            assert(self@ =~= stored(old(self)@, name@, symbol));
            proof {
                if old(self).wf() {
                    lemma_with_symbol_unique(old(self)@, name@, symbol);
                }
            }
            Ok(())
        }
    }
}

} // verus!
