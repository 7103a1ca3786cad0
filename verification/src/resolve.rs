//! Closing the set of undefined symbols: the modules that define them are
//! found in the libraries, together with the modules that those need in
//! turn, and are then loaded in the order of their place in the libraries.

use crate::library::{module_extent, Library, Lookup};
use crate::linker_error::{append_number, number_text, LinkerError};
use crate::linkstate::{LinkState, LinkStateView};
use crate::object::{Object, ObjectView};
use crate::pass1::{
    object_externs, pass1_left, pass1_obj_externs, pass1_object, pass1_records, texts,
};
use crate::seq_search::{first_index, lemma_first_index_is, lemma_injective_bound};
use crate::symbols::{symbol_of, undefined_names, Symbol, Symbols};
use vstd::prelude::*;
use vstd::string::*;

verus! {

/// A module of a library that has not been extracted yet.
#[derive(PartialEq, Eq, Structural, Clone, Copy, Debug)]
pub struct LibraryModule {
    pub lib: usize,
    pub modpage: usize,
}

impl LibraryModule {
    /// Whether `self` comes before `other`: modules are ordered by library,
    /// and within a library by page.
    pub open spec fn precedes(self, other: LibraryModule) -> bool {
        self.lib < other.lib || (self.lib == other.lib && self.modpage < other.modpage)
    }

    pub fn comes_before(&self, other: &LibraryModule) -> (b: bool)
        ensures
            b == self.precedes(*other),
    {
        self.lib < other.lib || (self.lib == other.lib && self.modpage < other.modpage)
    }
}

/// What `mods` becomes when `m` is added to it: nothing is added twice.
pub open spec fn with_module(mods: Seq<LibraryModule>, m: LibraryModule) -> Seq<LibraryModule> {
    if mods.contains(m) {
        mods
    } else {
        mods.push(m)
    }
}

/// The modules found so far, in the order in which they were found.
pub struct LibraryModules {
    pub mods: Vec<LibraryModule>,
}

impl LibraryModules {
    pub fn new() -> (m: LibraryModules)
        ensures
            m.mods@ == Seq::<LibraryModule>::empty(),
    {
        LibraryModules { mods: Vec::new() }
    }

    pub fn has(&self, module: LibraryModule) -> (b: bool)
        ensures
            b == self.mods@.contains(module),
    {
        let mut i: usize = 0;
        while i < self.mods.len()
            invariant
                i <= self.mods@.len(),
                forall|j: int| 0 <= j < i ==> self.mods@[j] != module,
            decreases self.mods@.len() - i,
        {
            if self.mods[i] == module {
                return true;
            }
            i += 1;
        }
        false
    }

    pub fn add(&mut self, module: LibraryModule)
        ensures
            final(self).mods@ == with_module(old(self).mods@, module),
    {
        if !self.has(module) {
            self.mods.push(module);
        }
    }
}

/// `ordered` with `m` put before the first member that does not come before
/// it.
pub open spec fn insert_ordered(ordered: Seq<LibraryModule>, m: LibraryModule) -> Seq<
    LibraryModule,
> {
    let at = first_index(ordered, |x: LibraryModule| !x.precedes(m));
    if at == 0 {
        ordered.push(m)
    } else {
        ordered.insert(at - 1, m)
    }
}

/// The modules `mods`, each put in its place among those before it.
pub open spec fn ordered_modules(mods: Seq<LibraryModule>) -> Seq<LibraryModule>
    decreases mods.len(),
{
    if mods.len() == 0 {
        Seq::empty()
    } else {
        insert_ordered(ordered_modules(mods.drop_last()), mods.last())
    }
}

/// Whether each member of `s` comes before the members after it.
pub open spec fn is_ordered(s: Seq<LibraryModule>) -> bool {
    forall|i: int, j: int| 0 <= i < j < s.len() ==> s[i].precedes(s[j])
}

/// Putting a new module in its place keeps an ordered sequence ordered, and
/// adds that module and no other.
pub proof fn lemma_insert_ordered(ordered: Seq<LibraryModule>, m: LibraryModule)
    requires
        is_ordered(ordered),
        !ordered.contains(m),
    ensures
        is_ordered(insert_ordered(ordered, m)),
        forall|x: LibraryModule|
            insert_ordered(ordered, m).contains(x) <==> ordered.contains(x) || x == m,
{
    let pred = |x: LibraryModule| !x.precedes(m);
    let at = first_index(ordered, pred);
    crate::seq_search::lemma_first_index(ordered, pred);
    let r = insert_ordered(ordered, m);
    if at == 0 {
        assert forall|i: int, j: int| 0 <= i < j < r.len() implies r[i].precedes(r[j]) by {
            if j == ordered.len() {
                assert(!pred(ordered[i]));
            }
        }
        assert forall|x: LibraryModule| r.contains(x) <==> ordered.contains(x) || x == m by {
            if r.contains(x) {
                let i = choose|i: int| 0 <= i < r.len() && r[i] == x;
                if i < ordered.len() {
                    assert(ordered[i] == x);
                }
            }
            if ordered.contains(x) {
                let i = choose|i: int| 0 <= i < ordered.len() && ordered[i] == x;
                assert(r[i] == x);
            }
            if x == m {
                assert(r[ordered.len() as int] == x);
            }
        }
    } else {
        let p = at - 1;
        assert(pred(ordered[p]));
        assert forall|k: int| p <= k < ordered.len() implies m.precedes(ordered[k]) by {
            assert(!ordered[p].precedes(m));
            assert(ordered.contains(ordered[p]));
            assert(ordered[p] != m);
            if k > p {
                assert(ordered[p].precedes(ordered[k]));
            }
        }
        assert forall|i: int, j: int| 0 <= i < j < r.len() implies r[i].precedes(r[j]) by {
            if j < p {
            } else if j == p {
                assert(!pred(ordered[i]));
            } else if i < p {
                assert(r[j] == ordered[j - 1]);
            } else if i == p {
                assert(r[j] == ordered[j - 1]);
            } else {
                assert(r[i] == ordered[i - 1] && r[j] == ordered[j - 1]);
            }
        }
        assert forall|x: LibraryModule| r.contains(x) <==> ordered.contains(x) || x == m by {
            if r.contains(x) {
                let i = choose|i: int| 0 <= i < r.len() && r[i] == x;
                if i < p {
                    assert(ordered[i] == x);
                } else if i > p {
                    assert(ordered[i - 1] == x);
                }
            }
            if ordered.contains(x) {
                let i = choose|i: int| 0 <= i < ordered.len() && ordered[i] == x;
                if i < p {
                    assert(r[i] == x);
                } else {
                    assert(r[i + 1] == x);
                }
            }
            if x == m {
                assert(r[p] == x);
            }
        }
    }
}

/// Modules without duplicates come out in order, each of them and no other.
pub proof fn lemma_ordered_modules(mods: Seq<LibraryModule>)
    requires
        mods.no_duplicates(),
    ensures
        is_ordered(ordered_modules(mods)),
        forall|x: LibraryModule| ordered_modules(mods).contains(x) <==> mods.contains(x),
    decreases mods.len(),
{
    if mods.len() > 0 {
        let rest = mods.drop_last();
        let last = mods.last();
        lemma_ordered_modules(rest);
        if rest.contains(last) {
            let i = choose|i: int| 0 <= i < rest.len() && rest[i] == last;
            assert(mods[i] == mods[mods.len() - 1]);
        }
        lemma_insert_ordered(ordered_modules(rest), last);
        assert forall|x: LibraryModule| ordered_modules(mods).contains(x) <==> mods.contains(
            x,
        ) by {
            if mods.contains(x) {
                let i = choose|i: int| 0 <= i < mods.len() && mods[i] == x;
                if i < rest.len() {
                    assert(rest[i] == x);
                }
            }
            if rest.contains(x) {
                let i = choose|i: int| 0 <= i < rest.len() && rest[i] == x;
                assert(mods[i] == x);
            }
            if x == last {
                assert(mods[mods.len() - 1] == x);
            }
        }
    }
}

/// Puts `m` in its place in `ordered`.
fn place_module(ordered: &mut Vec<LibraryModule>, m: LibraryModule)
    ensures
        final(ordered)@ == insert_ordered(old(ordered)@, m),
{
    let ghost pred = |x: LibraryModule| !x.precedes(m);
    let mut at: usize = 0;
    while at < ordered.len() && ordered[at].comes_before(&m)
        invariant
            at <= ordered@.len(),
            pred == (|x: LibraryModule| !x.precedes(m)),
            forall|j: int| 0 <= j < at ==> !pred(#[trigger] ordered@[j]),
        decreases ordered@.len() - at,
    {
        at += 1;
    }
    if at == ordered.len() {
        proof {
            lemma_first_index_is(ordered@, pred, 0);
        }
        ordered.push(m);
    } else {
        proof {
            lemma_first_index_is(ordered@, pred, at + 1);
        }
        ordered.insert(at, m);
    }
}

/// The modules of `mods` in the order of their place in the libraries.
pub fn order_modules(mods: &LibraryModules) -> (ordered: Vec<LibraryModule>)
    ensures
        ordered@ == ordered_modules(mods.mods@),
{
    let mut ordered: Vec<LibraryModule> = Vec::new();
    let mut i: usize = 0;
    while i < mods.mods.len()
        invariant
            i <= mods.mods@.len(),
            ordered@ == ordered_modules(mods.mods@.take(i as int)),
        decreases mods.mods@.len() - i,
    {
        proof {
            assert(mods.mods@.take(i + 1).drop_last() =~= mods.mods@.take(i as int));
            assert(mods.mods@.take(i + 1).last() == mods.mods@[i as int]);
        }
        place_module(&mut ordered, mods.mods[i]);
        i += 1;
    }
    proof {
        assert(mods.mods@.take(i as int) =~= mods.mods@);
    }
    ordered
}

/// The module that defines `name`: the libraries are asked in their order,
/// from library `k` on, and the first that knows the name decides. The
/// outer `None` stands for a broken dictionary, the inner for a name that no
/// library knows.
pub open spec fn find_module(libs: Seq<Library>, name: Seq<char>, k: int) -> Option<
    Option<LibraryModule>,
>
    decreases libs.len() - k,
{
    if k < 0 || k >= libs.len() {
        Some(None)
    } else {
        match libs[k].lookup(name) {
            Lookup::Invalid => None,
            Lookup::Found(page) => Some(Some(LibraryModule { lib: k as usize, modpage: page })),
            Lookup::Absent => find_module(libs, name, k + 1),
        }
    }
}

/// What a search for names has come to: the modules that were found, and the
/// names that no library knows.
pub struct Resolution {
    pub mods: Seq<LibraryModule>,
    pub missing: Seq<Seq<char>>,
}

/// The search for the names from `names[i]` on. A name that the symbol table
/// holds as defined needs no search.
pub open spec fn resolve_names(
    symbols: Symbols,
    libs: Seq<Library>,
    names: Seq<Seq<char>>,
    i: int,
    acc: Resolution,
) -> Option<Resolution>
    decreases names.len() - i,
{
    if i < 0 || i >= names.len() {
        Some(acc)
    } else if symbol_of(symbols, names[i]) is Some && symbol_of(symbols, names[i])
        != Some(Symbol::Undefined) {
        resolve_names(symbols, libs, names, i + 1, acc)
    } else {
        match find_module(libs, names[i], 0) {
            None => None,
            Some(Some(m)) => resolve_names(
                symbols,
                libs,
                names,
                i + 1,
                Resolution { mods: with_module(acc.mods, m), ..acc },
            ),
            Some(None) => resolve_names(
                symbols,
                libs,
                names,
                i + 1,
                Resolution { missing: acc.missing.push(names[i]), ..acc },
            ),
        }
    }
}

/// The bytes of the module that starts at page `page` of `lib`.
pub open spec fn module_bytes(lib: Library, page: usize) -> Option<Seq<u8>> {
    match module_extent(lib.data@, page * lib.page_size) {
        Some(end) => Some(lib.data@.subrange(page * lib.page_size, end)),
        None => None,
    }
}

/// `acc` with those of the names from `names[i]` on that it does not hold
/// yet.
pub open spec fn with_names(acc: Seq<Seq<char>>, names: Seq<Seq<char>>, i: int) -> Seq<Seq<char>>
    decreases names.len() - i,
{
    if i < 0 || i >= names.len() {
        acc
    } else {
        with_names(
            if acc.contains(names[i]) {
                acc
            } else {
                acc.push(names[i])
            },
            names,
            i + 1,
        )
    }
}

/// The names that the modules from `mods[from]` on refer to from outside,
/// each once, added to `acc`.
pub open spec fn modules_externs(
    libs: Seq<Library>,
    mods: Seq<LibraryModule>,
    from: int,
    acc: Seq<Seq<char>>,
) -> Option<Seq<Seq<char>>>
    decreases mods.len() - from,
{
    if from < 0 || from >= mods.len() {
        Some(acc)
    } else if mods[from].lib >= libs.len() {
        None
    } else {
        match module_bytes(libs[mods[from].lib as int], mods[from].modpage) {
            Some(bytes) => match object_externs(bytes, 0) {
                Some(names) => modules_externs(libs, mods, from + 1, with_names(acc, names, 0)),
                None => None,
            },
            None => None,
        }
    }
}

/// The outcome of closing a set of names.
pub enum Closure {
    /// The modules that are needed, in the order in which they were found.
    Modules(Seq<LibraryModule>),
    /// The names that no library knows.
    Unresolved(Seq<Seq<char>>),
    /// A library could not be read.
    Broken,
}

/// The most modules that `libs` can hold: a page number has 16 bits.
pub open spec fn capacity(libs: Seq<Library>) -> int {
    libs.len() as int * 0x10000
}

/// The closure of `names`, given the modules `mods` found before: the
/// modules that define the names are found; a name that no library knows
/// ends the search; where new modules were found, the search goes on with
/// the names that those refer to, until no module or no name is new. The
/// search ends because the libraries hold no more modules than their
/// capacity (`lemma_capacity`).
pub open spec fn closure(
    symbols: Symbols,
    libs: Seq<Library>,
    names: Seq<Seq<char>>,
    mods: Seq<LibraryModule>,
) -> Closure
    decreases capacity(libs) - mods.len(),
{
    match resolve_names(symbols, libs, names, 0, Resolution { mods, missing: Seq::empty() }) {
        None => Closure::Broken,
        Some(found) => if found.missing.len() != 0 {
            Closure::Unresolved(found.missing)
        } else if found.mods.len() <= mods.len() {
            Closure::Modules(found.mods)
        } else if found.mods.len() > capacity(libs) {
            Closure::Broken
        } else {
            match modules_externs(libs, found.mods, mods.len() as int, Seq::empty()) {
                None => Closure::Broken,
                Some(externs) => if externs.len() == 0 {
                    Closure::Modules(found.mods)
                } else {
                    closure(symbols, libs, externs, found.mods)
                },
            }
        },
    }
}

/// Whether each of the objects has its four target threads and its four
/// frame threads.
pub open spec fn objects_wf(v: Seq<Object>) -> bool {
    forall|i: int| 0 <= i < v.len() ==> (#[trigger] v[i]).wf()
}

/// The views of the objects that `v` holds.
pub open spec fn object_views(v: Seq<Object>) -> Seq<ObjectView> {
    Seq::new(v.len(), |i: int| v[i]@)
}

/// What loading the modules from `ordered[k]` on does: each is extracted
/// from its library, goes through pass 1, and joins the objects.
pub open spec fn load_modules(
    st: LinkStateView,
    libs: Seq<Library>,
    ordered: Seq<LibraryModule>,
    k: int,
    objects: Seq<ObjectView>,
) -> Option<(LinkStateView, Seq<ObjectView>)>
    decreases ordered.len() - k,
{
    if k < 0 || k >= ordered.len() {
        Some((st, objects))
    } else if ordered[k].lib >= libs.len() {
        None
    } else {
        match module_bytes(libs[ordered[k].lib as int], ordered[k].modpage) {
            Some(bytes) => match pass1_records(st, ObjectView::empty(None), bytes, 0) {
                Some((st2, obj)) => load_modules(
                    st2,
                    libs,
                    ordered,
                    k + 1,
                    objects.push(ObjectView { data: Some(bytes), ..obj }),
                ),
                None => None,
            },
            None => None,
        }
    }
}

/// What loading the modules from `ordered[k]` on leaves behind: where a
/// module cannot be had from its library, what the modules before it have
/// done; where a module fails in pass 1, also what its records had done by
/// then, and the module does not join the objects.
pub open spec fn modules_left(
    st: LinkStateView,
    libs: Seq<Library>,
    ordered: Seq<LibraryModule>,
    k: int,
    objects: Seq<ObjectView>,
) -> (LinkStateView, Seq<ObjectView>)
    decreases ordered.len() - k,
{
    if k < 0 || k >= ordered.len() || ordered[k].lib >= libs.len() {
        (st, objects)
    } else {
        match module_bytes(libs[ordered[k].lib as int], ordered[k].modpage) {
            Some(bytes) => match pass1_records(st, ObjectView::empty(None), bytes, 0) {
                Some((st2, obj)) => modules_left(
                    st2,
                    libs,
                    ordered,
                    k + 1,
                    objects.push(ObjectView { data: Some(bytes), ..obj }),
                ),
                None => (pass1_left(st, ObjectView::empty(None), bytes, 0).0, objects),
            },
            None => (st, objects),
        }
    }
}

/// Searches the libraries, in their order, for the module that defines
/// `name`.
fn search_libraries(libs: &Vec<Library>, name: &str) -> (r: Result<
    Option<LibraryModule>,
    LinkerError,
>)
    ensures
        match r {
            Ok(found) => find_module(libs@, name@, 0) == Some(found),
            Err(_) => find_module(libs@, name@, 0) is None,
        },
{
    let mut libidx: usize = 0;
    while libidx < libs.len()
        invariant
            libidx <= libs@.len(),
            find_module(libs@, name@, 0) == find_module(libs@, name@, libidx as int),
        decreases libs@.len() - libidx,
    {
        match libs[libidx].find_symbol_in_dictionary(name)? {
            Some(modpage) => {
                return Ok(Some(LibraryModule { lib: libidx, modpage }));
            },
            None => {},
        }
        libidx += 1;
    }
    Ok(None)
}

/// Searches the libraries for each of `names` that is not defined yet, and
/// adds what is found to `mods` and what is not to `missing`.
fn resolve_round(
    state: &LinkState,
    libs: &Vec<Library>,
    names: &Vec<String>,
    mods: &mut LibraryModules,
    missing: &mut Vec<String>,
) -> (r: Result<(), LinkerError>)
    requires
        state.wf(),
    ensures
        match r {
            Ok(_) => resolve_names(
                state@.symbols,
                libs@,
                texts(names@),
                0,
                Resolution { mods: old(mods).mods@, missing: texts(old(missing)@) },
            ) == Some(Resolution { mods: final(mods).mods@, missing: texts(final(missing)@) }),
            Err(_) => resolve_names(
                state@.symbols,
                libs@,
                texts(names@),
                0,
                Resolution { mods: old(mods).mods@, missing: texts(old(missing)@) },
            ) is None,
        },
{
    let mut i: usize = 0;
    while i < names.len()
        invariant
            state.wf(),
            i <= names@.len(),
            resolve_names(
                state@.symbols,
                libs@,
                texts(names@),
                0,
                Resolution { mods: old(mods).mods@, missing: texts(old(missing)@) },
            ) == resolve_names(
                state@.symbols,
                libs@,
                texts(names@),
                i as int,
                Resolution { mods: mods.mods@, missing: texts(missing@) },
            ),
        decreases names@.len() - i,
    {
        let name = names[i].as_str();
        assert(texts(names@)[i as int] == name@);
        // A symbol that one of the modules loaded so far defines is
        // resolved.
        let defined = match state.symbols.get(name) {
            Some(symbol) => symbol != Symbol::Undefined,
            None => false,
        };
        if !defined {
            // Else search the libraries.
            match search_libraries(libs, name)? {
                Some(module) => {
                    mods.add(module);
                },
                None => {
                    let ghost before = texts(missing@);
                    missing.push(names[i].clone());
                    assert(texts(missing@) =~= before.push(name@));
                },
            }
        }
        i += 1;
    }
    Ok(())
}

/// Adds to `acc` those of `names` that it does not hold yet.
fn add_names(acc: &mut Vec<String>, names: Vec<String>)
    ensures
        texts(final(acc)@) == with_names(texts(old(acc)@), texts(names@), 0),
{
    let mut i: usize = 0;
    while i < names.len()
        invariant
            i <= names@.len(),
            with_names(texts(old(acc)@), texts(names@), 0) == with_names(
                texts(acc@),
                texts(names@),
                i as int,
            ),
        decreases names@.len() - i,
    {
        let name = &names[i];
        assert(texts(names@)[i as int] == name@);
        let mut known = false;
        let mut k: usize = 0;
        while k < acc.len() && !known
            invariant
                k <= acc@.len(),
                known ==> texts(acc@).contains(name@),
                !known ==> forall|j: int| 0 <= j < k ==> texts(acc@)[j] != name@,
            decreases acc@.len() - k + (if known { 0int } else { 1int }),
        {
            if acc[k] == *name {
                known = true;
                assert(texts(acc@)[k as int] == name@);
            } else {
                assert(texts(acc@)[k as int] != name@);
                k += 1;
            }
        }
        if !known {
            let ghost before = texts(acc@);
            acc.push(name.clone());
            assert(texts(acc@) =~= before.push(name@));
        }
        i += 1;
    }
}

/// Collects the names that the modules from `mods[from]` on refer to from
/// outside.
fn collect_externs(libs: &Vec<Library>, mods: &LibraryModules, from: usize) -> (r: Result<
    Vec<String>,
    LinkerError,
>)
    ensures
        match r {
            Ok(names) => modules_externs(libs@, mods.mods@, from as int, Seq::empty()) == Some(
                texts(names@),
            ),
            Err(_) => modules_externs(libs@, mods.mods@, from as int, Seq::empty()) is None,
        },
{
    let mut externs: Vec<String> = Vec::new();
    assert(texts(externs@) =~= Seq::<Seq<char>>::empty());
    let mut at = from;
    while at < mods.mods.len()
        invariant
            modules_externs(libs@, mods.mods@, from as int, Seq::empty()) == modules_externs(
                libs@,
                mods.mods@,
                at as int,
                texts(externs@),
            ),
        decreases mods.mods@.len() - at,
    {
        let moddef = mods.mods[at];
        if moddef.lib >= libs.len() {
            return Err(LinkerError::new("a module names a library that does not exist"));
        }
        let obj = libs[moddef.lib].extract_module(moddef.modpage)?;
        let names = match obj.data {
            Some(data) => pass1_obj_externs(data.as_slice())?,
            None => Vec::new(),
        };
        add_names(&mut externs, names);
        at += 1;
    }
    Ok(externs)
}

/// The modules that close the undefined symbols of `st`, in the order of
/// their place in the libraries; `None` where the symbols cannot be closed.
pub open spec fn needed_modules(
    symbols: Symbols,
    libs: Seq<Library>,
    undefined: Seq<Seq<char>>,
) -> Option<Seq<LibraryModule>> {
    match closure(symbols, libs, undefined, Seq::empty()) {
        Closure::Modules(mods) => Some(ordered_modules(mods)),
        _ => None,
    }
}

/// The names that keep the undefined symbols from being closed.
pub open spec fn unresolved_names(
    symbols: Symbols,
    libs: Seq<Library>,
    undefined: Seq<Seq<char>>,
) -> Seq<Seq<char>> {
    match closure(symbols, libs, undefined, Seq::empty()) {
        Closure::Unresolved(missing) => missing,
        _ => Seq::empty(),
    }
}

/// Adding a module to modules without duplicates leaves them without
/// duplicates.
pub proof fn lemma_with_module(mods: Seq<LibraryModule>, m: LibraryModule)
    requires
        mods.no_duplicates(),
    ensures
        with_module(mods, m).no_duplicates(),
        with_module(mods, m).len() >= mods.len(),
        with_module(mods, m).contains(m),
{
    let r = with_module(mods, m);
    if !mods.contains(m) {
        assert(r[mods.len() as int] == m);
    }
}

/// A search adds no module twice.
pub proof fn lemma_resolve_names_unique(
    symbols: Symbols,
    libs: Seq<Library>,
    names: Seq<Seq<char>>,
    i: int,
    acc: Resolution,
)
    requires
        acc.mods.no_duplicates(),
    ensures
        match resolve_names(symbols, libs, names, i, acc) {
            Some(found) => found.mods.no_duplicates(),
            None => true,
        },
    decreases names.len() - i,
{
    if 0 <= i < names.len() {
        if symbol_of(symbols, names[i]) is Some && symbol_of(symbols, names[i]) != Some(
            Symbol::Undefined,
        ) {
            lemma_resolve_names_unique(symbols, libs, names, i + 1, acc);
        } else {
            match find_module(libs, names[i], 0) {
                None => {},
                Some(Some(m)) => {
                    lemma_with_module(acc.mods, m);
                    lemma_resolve_names_unique(
                        symbols,
                        libs,
                        names,
                        i + 1,
                        Resolution { mods: with_module(acc.mods, m), ..acc },
                    );
                },
                Some(None) => {
                    lemma_resolve_names_unique(
                        symbols,
                        libs,
                        names,
                        i + 1,
                        Resolution { missing: acc.missing.push(names[i]), ..acc },
                    );
                },
            }
        }
    }
}

/// A closure holds no module twice.
pub proof fn lemma_closure_unique(
    symbols: Symbols,
    libs: Seq<Library>,
    names: Seq<Seq<char>>,
    mods: Seq<LibraryModule>,
)
    requires
        mods.no_duplicates(),
    ensures
        match closure(symbols, libs, names, mods) {
            Closure::Modules(found) => found.no_duplicates(),
            _ => true,
        },
    decreases capacity(libs) - mods.len(),
{
    lemma_resolve_names_unique(
        symbols,
        libs,
        names,
        0,
        Resolution { mods, missing: Seq::empty() },
    );
    match resolve_names(symbols, libs, names, 0, Resolution { mods, missing: Seq::empty() }) {
        None => {},
        Some(found) => {
            if found.missing.len() == 0 && found.mods.len() > mods.len() && found.mods.len()
                <= capacity(libs) {
                match modules_externs(libs, found.mods, mods.len() as int, Seq::empty()) {
                    None => {},
                    Some(externs) => {
                        if externs.len() != 0 {
                            lemma_closure_unique(symbols, libs, externs, found.mods);
                        }
                    },
                }
            }
        },
    }
}

/// The modules that are loaded are in the order of their place in the
/// libraries, by library and then by page, and each is loaded once: the
/// order in which they were found does not show.
pub proof fn lemma_needed_modules_ordered(
    symbols: Symbols,
    libs: Seq<Library>,
    undefined: Seq<Seq<char>>,
)
    ensures
        match needed_modules(symbols, libs, undefined) {
            Some(ordered) => is_ordered(ordered) && match closure(
                symbols,
                libs,
                undefined,
                Seq::empty(),
            ) {
                Closure::Modules(found) => forall|m: LibraryModule|
                    ordered.contains(m) <==> found.contains(m),
                _ => false,
            },
            None => true,
        },
{
    lemma_closure_unique(symbols, libs, undefined, Seq::empty());
    match closure(symbols, libs, undefined, Seq::empty()) {
        Closure::Modules(found) => {
            lemma_ordered_modules(found);
        },
        _ => {},
    }
}

/// Whether each of `mods` names a library of `libs` and a page that 16 bits
/// can tell.
pub open spec fn modules_in(libs: Seq<Library>, mods: Seq<LibraryModule>) -> bool {
    forall|i: int|
        0 <= i < mods.len() ==> (#[trigger] mods[i]).lib < libs.len() && mods[i].modpage <= 0xffff
}

/// The libraries cannot hold more modules than their capacity.
pub proof fn lemma_capacity(libs: Seq<Library>, mods: Seq<LibraryModule>)
    requires
        mods.no_duplicates(),
        modules_in(libs, mods),
    ensures
        mods.len() <= capacity(libs),
{
    let id = |i: int| mods[i].lib * 0x10000 + mods[i].modpage;
    assert forall|a: int| 0 <= a < mods.len() implies 0 <= #[trigger] id(a) < capacity(libs) by {
        assert(mods[a].lib < libs.len() && mods[a].modpage <= 0xffff);
    }
    assert forall|a: int, b: int| 0 <= a < b < mods.len() implies #[trigger] id(a)
        != #[trigger] id(b) by {
        assert(mods[a] != mods[b]);
        assert(mods[a].lib < libs.len() && mods[a].modpage <= 0xffff);
        assert(mods[b].lib < libs.len() && mods[b].modpage <= 0xffff);
    }
    lemma_injective_bound(id, mods.len() as int, capacity(libs));
}

/// What the libraries find is one of their modules.
pub proof fn lemma_find_module_in(libs: Seq<Library>, name: Seq<char>, k: int)
    requires
        0 <= k,
    ensures
        match find_module(libs, name, k) {
            Some(Some(m)) => m.lib < libs.len() && m.modpage <= 0xffff,
            _ => true,
        },
    decreases libs.len() - k,
{
    if k < libs.len() {
        match libs[k].lookup(name) {
            Lookup::Found(page) => {
                libs[k].lemma_found_within_bound(name, page);
            },
            Lookup::Absent => {
                lemma_find_module_in(libs, name, k + 1);
            },
            Lookup::Invalid => {},
        }
    }
}

/// A search adds modules of the libraries only.
pub proof fn lemma_resolve_names_in(
    symbols: Symbols,
    libs: Seq<Library>,
    names: Seq<Seq<char>>,
    i: int,
    acc: Resolution,
)
    requires
        modules_in(libs, acc.mods),
    ensures
        match resolve_names(symbols, libs, names, i, acc) {
            Some(found) => modules_in(libs, found.mods) && found.mods.len() >= acc.mods.len(),
            None => true,
        },
    decreases names.len() - i,
{
    if 0 <= i < names.len() {
        if symbol_of(symbols, names[i]) is Some && symbol_of(symbols, names[i]) != Some(
            Symbol::Undefined,
        ) {
            lemma_resolve_names_in(symbols, libs, names, i + 1, acc);
        } else {
            match find_module(libs, names[i], 0) {
                None => {},
                Some(Some(m)) => {
                    lemma_find_module_in(libs, names[i], 0);
                    lemma_resolve_names_in(
                        symbols,
                        libs,
                        names,
                        i + 1,
                        Resolution { mods: with_module(acc.mods, m), ..acc },
                    );
                },
                Some(None) => {
                    lemma_resolve_names_in(
                        symbols,
                        libs,
                        names,
                        i + 1,
                        Resolution { missing: acc.missing.push(names[i]), ..acc },
                    );
                },
            }
        }
    }
}

/// The text of the error for `n` names that no library knows.
pub open spec fn unresolved_text(n: nat) -> Seq<char> {
    number_text(n, false, 1) + " undefined externals"@
}

/// Finds the modules that close the undefined symbols of the link state.
/// Where a name is known to no library, the names of that kind are added to
/// the unresolved names of the link state.
fn close_symbols(state: &mut LinkState, libs: &Vec<Library>) -> (r: Result<
    LibraryModules,
    LinkerError,
>)
    requires
        old(state).wf(),
    ensures
        final(state).wf(),
        final(state)@ == (LinkStateView {
            unresolved: old(state)@.unresolved + unresolved_names(
                old(state)@.symbols,
                libs@,
                undefined_names(old(state)@.symbols),
            ),
            ..old(state)@
        }),
        match r {
            Ok(mods) => closure(
                old(state)@.symbols,
                libs@,
                undefined_names(old(state)@.symbols),
                Seq::empty(),
            ) == Closure::Modules(mods.mods@),
            Err(e) => match closure(
                old(state)@.symbols,
                libs@,
                undefined_names(old(state)@.symbols),
                Seq::empty(),
            ) {
                Closure::Modules(_) => false,
                Closure::Unresolved(missing) => e.message() == unresolved_text(missing.len()),
                Closure::Broken => true,
            },
        },
{
    let mut mods = LibraryModules::new();
    let mut und: Vec<String> = Vec::new();
    {
        let names = state.symbols.undefined_symbols();
        let mut i: usize = 0;
        while i < names.len()
            invariant
                i <= names@.len(),
                und@.len() == i,
                forall|j: int| 0 <= j < i ==> und@[j]@ == names@[j]@,
            decreases names@.len() - i,
        {
            und.push(names[i].clone());
            i += 1;
        }
        assert(texts(und@) =~= undefined_names(state@.symbols));
    }
    assert(state@.unresolved + Seq::<Seq<char>>::empty() =~= state@.unresolved);
    loop
        invariant
            state.wf(),
            *state == *old(state),
            mods.mods@.no_duplicates(),
            modules_in(libs@, mods.mods@),
            closure(state@.symbols, libs@, texts(und@), mods.mods@) == closure(
                old(state)@.symbols,
                libs@,
                undefined_names(old(state)@.symbols),
                Seq::empty(),
            ),
            mods.mods@.len() <= capacity(libs@),
        decreases capacity(libs@) - mods.mods@.len(),
    {
        let before = mods.mods.len();
        let mut missing: Vec<String> = Vec::new();
        assert(texts(missing@) =~= Seq::<Seq<char>>::empty());
        // First, find the modules for all the known undefineds.
        let ghost found_before = mods.mods@;
        resolve_round(state, libs, &und, &mut mods, &mut missing)?;
        proof {
            let acc = Resolution { mods: found_before, missing: Seq::empty() };
            lemma_resolve_names_unique(state@.symbols, libs@, texts(und@), 0, acc);
            lemma_resolve_names_in(state@.symbols, libs@, texts(und@), 0, acc);
            lemma_capacity(libs@, mods.mods@);
        }
        // If there were any symbols not found, return the error now.
        if missing.len() != 0 {
            let count = missing.len();
            let ghost names = texts(missing@);
            let ghost reported = texts(state.unresolved@);
            state.unresolved.append(&mut missing);
            assert(texts(state.unresolved@) =~= reported + names);
            return Err(LinkerError::counted(count, " undefined externals"));
        }
        // If no new modules were added, all is resolved.
        if mods.mods.len() <= before {
            return Ok(mods);
        }
        // At least one module was added: collect the externs again.
        let externs = collect_externs(libs, &mods, before)?;
        if externs.len() == 0 {
            return Ok(mods);
        }
        und = externs;
    }
}

/// What adding the library modules does: the modules that close the
/// undefined symbols are loaded, in the order of their place in the
/// libraries.
pub open spec fn library_modules_added(
    st: LinkStateView,
    undefined: Seq<Seq<char>>,
    libs: Seq<Library>,
    objects: Seq<ObjectView>,
) -> Option<(LinkStateView, Seq<ObjectView>)> {
    match needed_modules(st.symbols, libs, undefined) {
        Some(ordered) => load_modules(st, libs, ordered, 0, objects),
        None => None,
    }
}

/// What adding the library modules leaves behind, whether it succeeds or
/// fails. Where the symbols cannot be closed, no module is loaded: the
/// objects stay as they were, and so does the link state, but for the names
/// that no library knows.
pub open spec fn library_modules_left(
    st: LinkStateView,
    undefined: Seq<Seq<char>>,
    libs: Seq<Library>,
    objects: Seq<ObjectView>,
) -> (LinkStateView, Seq<ObjectView>) {
    match needed_modules(st.symbols, libs, undefined) {
        Some(ordered) => modules_left(st, libs, ordered, 0, objects),
        None => (
            LinkStateView {
                unresolved: st.unresolved + unresolved_names(st.symbols, libs, undefined),
                ..st
            },
            objects,
        ),
    }
}

/// Given that the object modules of the command line have been processed,
/// searches the libraries for the undefined symbols, and for those of the
/// modules that define them, until all symbols are resolved or some cannot
/// be; then adds the modules found to the objects, in the order of their
/// place in the libraries. Where the symbols cannot be closed, no module is
/// loaded: the objects stay as they were, and so does the link state, but
/// for the names that no library knows.
pub fn pass1_add_library_modules(
    state: &mut LinkState,
    libs: &Vec<Library>,
    objects: &mut Vec<Object>,
) -> (r: Result<(), LinkerError>)
    requires
        old(state).wf(),
    ensures
        final(state).wf(),
        objects_wf(old(objects)@) ==> objects_wf(final(objects)@),
        match r {
            Ok(_) => library_modules_added(
                old(state)@,
                undefined_names(old(state)@.symbols),
                libs@,
                object_views(old(objects)@),
            ) == Some((final(state)@, object_views(final(objects)@))),
            Err(_) => library_modules_added(
                old(state)@,
                undefined_names(old(state)@.symbols),
                libs@,
                object_views(old(objects)@),
            ) is None,
        },
        (final(state)@, object_views(final(objects)@)) == library_modules_left(
            old(state)@,
            undefined_names(old(state)@.symbols),
            libs@,
            object_views(old(objects)@),
        ),
        needed_modules(old(state)@.symbols, libs@, undefined_names(old(state)@.symbols)) is None
            ==> final(objects)@ == old(objects)@,
        match (
            r,
            closure(
                old(state)@.symbols,
                libs@,
                undefined_names(old(state)@.symbols),
                Seq::empty(),
            ),
        ) {
            (Err(e), Closure::Unresolved(missing)) => e.message() == unresolved_text(
                missing.len(),
            ),
            _ => true,
        },
{
    let mods = close_symbols(state, libs)?;
    let ordered = order_modules(&mods);
    let ghost st0 = state@;
    assert(st0 == old(state)@) by {
        assert(st0.unresolved =~= old(state)@.unresolved);
    }
    let mut k: usize = 0;
    while k < ordered.len()
        invariant
            state.wf(),
            objects_wf(old(objects)@) ==> objects_wf(objects@),
            st0 == old(state)@,
            needed_modules(
                old(state)@.symbols,
                libs@,
                undefined_names(old(state)@.symbols),
            ) == Some(ordered@),
            load_modules(state@, libs@, ordered@, k as int, object_views(objects@)) == load_modules(
                st0,
                libs@,
                ordered@,
                0,
                object_views(old(objects)@),
            ),
            modules_left(state@, libs@, ordered@, k as int, object_views(objects@)) == modules_left(
                st0,
                libs@,
                ordered@,
                0,
                object_views(old(objects)@),
            ),
        decreases ordered@.len() - k,
    {
        let moddef = ordered[k];
        if moddef.lib >= libs.len() {
            return Err(LinkerError::new("a module names a library that does not exist"));
        }
        let lib = &libs[moddef.lib];
        let mut obj = lib.extract_module(moddef.modpage)?;
        let data = match obj.data.take() {
            Some(data) => data,
            None => Vec::new(),
        };
        assert(obj@ == ObjectView::empty(None));
        let mut name = lib.name.clone();
        name.append("@");
        append_number(&mut name, moddef.modpage, true, 1);
        pass1_object(state, data.as_slice(), &mut obj, name.as_str())?;
        let ghost loaded = obj@;
        obj.data = Some(data);
        assert(obj@ == (ObjectView { data: Some(data@), ..loaded }));
        let ghost views = object_views(objects@);
        let ghost view = obj@;
        objects.push(obj);
        assert(object_views(objects@) =~= views.push(view));
        k += 1;
    }
    Ok(())
}

} // verus!
