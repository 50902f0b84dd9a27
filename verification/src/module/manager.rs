//! Loadable kernel modules and the kernel's symbol table.
use vstd::prelude::*;

use crate::keyed::{
    keyed_map, keys_distinct, lemma_keyed_absent, lemma_keyed_contains, lemma_keyed_index,
    lemma_keyed_insert, lemma_keyed_len, lemma_keyed_remove, lemma_keyed_update,
};
use crate::text::{
    chars_eq, chars_less, chars_of, lemma_less_irreflexive, lemma_less_total,
    lemma_less_transitive, seq_less,
};
use crate::{KernelError, KernelResult};

verus! {

#[derive(Debug, Clone, Copy, PartialEq, Eq, Structural)]
pub enum ModuleState {
    Loaded,
    Running,
    Stopped,
    Error,
}

#[derive(Debug, Clone, Copy, PartialEq, Eq, Structural)]
pub enum ModuleType {
    Driver,
    FileSystem,
    Network,
    Extension,
    Unknown,
}

#[derive(Debug, Clone, Copy, PartialEq, Eq, Structural)]
pub enum SymbolType {
    Function,
    Data,
    Bss,
    Unknown,
}

/// A loaded module.
#[derive(Debug)]
pub struct ModuleInfo {
    pub id: u64,
    pub name: String,
    pub version: (u16, u16, u16),
    pub module_type: ModuleType,
    pub state: ModuleState,
    pub dependencies: Vec<String>,
    pub size: usize,
    pub init_addr: usize,
    pub cleanup_addr: usize,
}

/// A module as plain values.
pub struct ModuleView {
    pub id: u64,
    pub name: Seq<char>,
    pub version: (u16, u16, u16),
    pub module_type: ModuleType,
    pub state: ModuleState,
    pub dependencies: Seq<Seq<char>>,
    pub size: usize,
    pub init_addr: usize,
    pub cleanup_addr: usize,
}

impl View for ModuleInfo {
    type V = ModuleView;

    open spec fn view(&self) -> ModuleView {
        ModuleView {
            id: self.id,
            name: self.name@,
            version: self.version,
            module_type: self.module_type,
            state: self.state,
            dependencies: Seq::new(self.dependencies@.len(), |i: int| self.dependencies@[i]@),
            size: self.size,
            init_addr: self.init_addr,
            cleanup_addr: self.cleanup_addr,
        }
    }
}

/// A symbol as `all_symbols` lists it.
#[derive(Debug)]
pub struct ModuleSymbol {
    pub name: String,
    pub addr: usize,
    pub symbol_type: SymbolType,
}

/// Names and addresses, kept in name order.
pub struct SymbolTable {
    symbols: Vec<(String, usize)>,
}

impl SymbolTable {
    /// The entries in name order.
    pub closed spec fn entries(&self) -> Seq<(Seq<char>, usize)> {
        Seq::new(self.symbols@.len(), |i: int| (self.symbols@[i].0@, self.symbols@[i].1))
    }

    /// The address of each registered name.
    pub open spec fn symbols(&self) -> Map<Seq<char>, usize> {
        keyed_map(self.entries())
    }

    /// Names strictly increase.
    pub closed spec fn wf(&self) -> bool {
        forall|i: int, j: int|
            0 <= i < j < self.entries().len() ==> seq_less(
                #[trigger] self.entries()[i].0,
                #[trigger] self.entries()[j].0,
            )
    }

    proof fn lemma_distinct(&self)
        requires
            self.wf(),
        ensures
            keys_distinct(self.entries()),
    {
        assert forall|i: int, j: int| 0 <= i < j < self.entries().len() implies #[trigger] self.entries()[i].0
            != #[trigger] self.entries()[j].0 by {
            if self.entries()[i].0 == self.entries()[j].0 {
                lemma_less_irreflexive(self.entries()[i].0);
            }
        }
    }

    pub fn new() -> (t: Self)
        ensures
            t.wf(),
            t.entries().len() == 0,
            t.symbols() == Map::<Seq<char>, usize>::empty(),
    {
        let t = SymbolTable { symbols: Vec::new() };
        assert(t.entries() =~= Seq::<(Seq<char>, usize)>::empty());
        t
    }

    /// Position of `name`, or where it would go.
    fn position(&self, name: &Vec<char>) -> (r: (usize, bool))
        requires
            self.wf(),
        ensures
            r.0 <= self.entries().len(),
            r.1 ==> r.0 < self.entries().len() && self.entries()[r.0 as int].0 == name@,
            !r.1 ==> forall|i: int| 0 <= i < r.0 ==> seq_less(#[trigger] self.entries()[i].0, name@),
            !r.1 ==> forall|i: int|
                r.0 <= i < self.entries().len() ==> seq_less(name@, #[trigger] self.entries()[i].0),
    {
        let mut i: usize = 0;
        while i < self.symbols.len()
            invariant
                self.wf(),
                i <= self.entries().len(),
                forall|k: int| 0 <= k < i ==> seq_less(#[trigger] self.entries()[k].0, name@),
            decreases self.entries().len() - i,
        {
            let m = chars_of(self.symbols[i].0.as_str());
            assert(m@ == self.entries()[i as int].0);
            if chars_eq(&m, name) {
                return (i, true);
            }
            if !chars_less(&m, name) {
                proof {
                    lemma_less_total(m@, name@);
                    assert forall|k: int| i <= k < self.entries().len() implies seq_less(
                        name@,
                        #[trigger] self.entries()[k].0,
                    ) by {
                        if k > i {
                            lemma_less_transitive(name@, m@, self.entries()[k].0);
                        }
                    }
                }
                return (i, false);
            }
            i = i + 1;
        }
        (i, false)
    }

    /// Binds `name` to `addr`, replacing an earlier binding of the name.
    pub fn register(&mut self, name: &str, addr: usize)
        requires
            old(self).wf(),
        ensures
            final(self).wf(),
            final(self).symbols() == old(self).symbols().insert(name@, addr),
    {
        let n = chars_of(name);
        let (pos, found) = self.position(&n);
        let ghost before = self.entries();
        proof {
            self.lemma_distinct();
        }
        if found {
            self.symbols.set(pos, (name.to_owned(), addr));
            proof {
                lemma_keyed_update(before, pos as int, addr);
                assert(self.entries() =~= before.update(pos as int, (before[pos as int].0, addr)));
            }
        } else {
            self.symbols.insert(pos, (name.to_owned(), addr));
            proof {
                assert forall|i: int| 0 <= i < before.len() implies #[trigger] before[i].0 != name@ by {
                    if i < pos {
                        lemma_less_irreflexive(name@);
                    } else {
                        lemma_less_irreflexive(name@);
                    }
                }
                lemma_keyed_insert(before, pos as int, name@, addr);
                assert(self.entries() =~= before.insert(pos as int, (name@, addr)));
                assert forall|i: int, j: int| 0 <= i < j < self.entries().len() implies seq_less(
                    #[trigger] self.entries()[i].0,
                    #[trigger] self.entries()[j].0,
                ) by {
                    let e = self.entries();
                    if j < pos {
                        assert(e[i] == before[i] && e[j] == before[j]);
                    } else if j == pos {
                        assert(e[i] == before[i]);
                    } else if i < pos {
                        assert(e[i] == before[i] && e[j] == before[j - 1]);
                        lemma_less_transitive(e[i].0, name@, e[j].0);
                    } else if i == pos {
                        assert(e[j] == before[j - 1]);
                    } else {
                        assert(e[i] == before[i - 1] && e[j] == before[j - 1]);
                    }
                }
            }
        }
    }

    /// The address bound to `name`.
    pub fn lookup(&self, name: &str) -> (r: Option<usize>)
        requires
            self.wf(),
        ensures
            r == if self.symbols().contains_key(name@) {
                Some(self.symbols()[name@])
            } else {
                None::<usize>
            },
    {
        let n = chars_of(name);
        let (pos, found) = self.position(&n);
        proof {
            self.lemma_distinct();
        }
        if found {
            proof {
                lemma_keyed_index(self.entries(), pos as int);
            }
            Some(self.symbols[pos].1)
        } else {
            proof {
                assert forall|i: int| 0 <= i < self.entries().len() implies #[trigger] self.entries()[i].0
                    != name@ by {
                    lemma_less_irreflexive(name@);
                }
                lemma_keyed_absent(self.entries(), name@);
            }
            None
        }
    }

    /// Every symbol, in strictly ascending name order, with its address and
    /// an unknown type.
    pub fn all_symbols(&self) -> (r: Vec<ModuleSymbol>)
        requires
            self.wf(),
        ensures
            r@.len() == self.entries().len(),
            r@.len() == self.symbols().len(),
            forall|i: int, j: int| 0 <= i < j < r@.len() ==> seq_less(#[trigger] r@[i].name@, #[trigger] r@[j].name@),
            forall|i: int|
                0 <= i < r@.len() ==> self.symbols().contains_key((#[trigger] r@[i]).name@)
                    && self.symbols()[r@[i].name@] == r@[i].addr,
            forall|name: Seq<char>|
                #[trigger] self.symbols().contains_key(name) ==> exists|i: int| 0 <= i < r@.len() && r@[i].name@ == name,
            forall|i: int|
                0 <= i < r@.len() ==> (#[trigger] r@[i]).name@ == self.entries()[i].0 && r@[i].addr
                    == self.entries()[i].1 && r@[i].symbol_type == SymbolType::Unknown,
    {
        let mut r: Vec<ModuleSymbol> = Vec::new();
        let mut i: usize = 0;
        while i < self.symbols.len()
            invariant
                i <= self.entries().len(),
                r@.len() == i,
                forall|k: int|
                    0 <= k < i ==> (#[trigger] r@[k]).name@ == self.entries()[k].0 && r@[k].addr
                        == self.entries()[k].1 && r@[k].symbol_type == SymbolType::Unknown,
            decreases self.entries().len() - i,
        {
            let entry = &self.symbols[i];
            r.push(
                ModuleSymbol {
                    name: entry.0.clone(),
                    addr: entry.1,
                    symbol_type: SymbolType::Unknown,
                },
            );
            i = i + 1;
        }
        proof {
            self.lemma_distinct();
            assert forall|i: int|
                0 <= i < r@.len() implies self.symbols().contains_key((#[trigger] r@[i]).name@)
                    && self.symbols()[r@[i].name@] == r@[i].addr by {
                lemma_keyed_index(self.entries(), i);
            }
            assert forall|name: Seq<char>|
                #[trigger] self.symbols().contains_key(name) implies exists|i: int| 0 <= i < r@.len() && r@[i].name@ == name by {
                lemma_keyed_contains(self.entries(), name);
                let k = choose|k: int| 0 <= k < self.entries().len() && #[trigger] self.entries()[k].0 == name;
                assert(r@[k].name@ == name);
            }
            lemma_keyed_len(self.entries());
        }
        r
    }
}

} // verus!

verus! {

/// A module just loaded under `name` with number `id`.
pub open spec fn fresh_module(id: u64, name: Seq<char>) -> ModuleView {
    ModuleView {
        id,
        name,
        version: (0, 1, 0),
        module_type: ModuleType::Driver,
        state: ModuleState::Loaded,
        dependencies: Seq::empty(),
        size: 0,
        init_addr: 0,
        cleanup_addr: 0,
    }
}

/// The symbols the kernel exports, given the addresses of its port I/O
/// routines; the others are placeholders at address 0.
pub open spec fn kernel_symbols(inb: usize, outb: usize, inl: usize, outl: usize) -> Map<
    Seq<char>,
    usize,
> {
    Map::empty().insert("kprint"@, 0).insert("inb"@, inb).insert("outb"@, outb).insert(
        "inl"@,
        inl,
    ).insert("outl"@, outl).insert("kmalloc"@, 0).insert("kfree"@, 0).insert("schedule"@, 0).insert(
        "yield"@,
        0,
    ).insert("vfs_open"@, 0).insert("vfs_read"@, 0).insert("vfs_write"@, 0).insert("vfs_close"@, 0)
}

/// Some module named `dep` is running.
pub open spec fn dep_running(mods: Seq<(u64, ModuleView)>, dep: Seq<char>) -> bool {
    exists|i: int|
        0 <= i < mods.len() && #[trigger] mods[i].1.name == dep && mods[i].1.state
            == ModuleState::Running
}

/// Every dependency names a running module.
pub open spec fn deps_running(mods: Seq<(u64, ModuleView)>, deps: Seq<Seq<char>>) -> bool {
    forall|d: int| 0 <= d < deps.len() ==> dep_running(mods, #[trigger] deps[d])
}

/// Some loaded module named `dep` is running.
pub open spec fn dep_running_in(mods: Map<u64, ModuleView>, dep: Seq<char>) -> bool {
    exists|id: u64|
        #[trigger] mods.contains_key(id) && mods[id].name == dep && mods[id].state == ModuleState::Running
}

/// Every dependency names a running module.
pub open spec fn deps_running_in(mods: Map<u64, ModuleView>, deps: Seq<Seq<char>>) -> bool {
    forall|d: int| 0 <= d < deps.len() ==> dep_running_in(mods, #[trigger] deps[d])
}

/// Over a list of distinct numbers, a running dependency in the list is one
/// in the map it describes.
proof fn lemma_deps_running_map(mods: Seq<(u64, ModuleView)>, deps: Seq<Seq<char>>)
    requires
        keys_distinct(mods),
    ensures
        deps_running(mods, deps) == deps_running_in(keyed_map(mods), deps),
{
    assert forall|dep: Seq<char>| dep_running(mods, dep) == dep_running_in(keyed_map(mods), dep) by {
        if dep_running(mods, dep) {
            let i = choose|i: int|
                0 <= i < mods.len() && #[trigger] mods[i].1.name == dep && mods[i].1.state == ModuleState::Running;
            lemma_keyed_index(mods, i);
            assert(keyed_map(mods).contains_key(mods[i].0));
        }
        if dep_running_in(keyed_map(mods), dep) {
            let id = choose|id: u64|
                #[trigger] keyed_map(mods).contains_key(id) && keyed_map(mods)[id].name == dep
                    && keyed_map(mods)[id].state == ModuleState::Running;
            lemma_keyed_contains(mods, id);
            let i = choose|i: int| 0 <= i < mods.len() && #[trigger] mods[i].0 == id;
            lemma_keyed_index(mods, i);
            assert(mods[i].1.name == dep);
        }
    }
    assert(deps_running(mods, deps) == deps_running_in(keyed_map(mods), deps)) by {
        if deps_running(mods, deps) {
            assert forall|d: int| 0 <= d < deps.len() implies dep_running_in(keyed_map(mods), #[trigger] deps[d]) by {
                assert(dep_running(mods, deps[d]));
            }
        }
        if deps_running_in(keyed_map(mods), deps) {
            assert forall|d: int| 0 <= d < deps.len() implies dep_running(mods, #[trigger] deps[d]) by {
                assert(dep_running_in(keyed_map(mods), deps[d]));
            }
        }
    }
}

/// Some module is loaded under `name`.
pub open spec fn name_taken(mods: Seq<(u64, ModuleView)>, name: Seq<char>) -> bool {
    exists|i: int| 0 <= i < mods.len() && #[trigger] mods[i].1.name == name
}

/// The number after `n`, wrapping at the top of `u64`.
pub open spec fn next_number(n: u64) -> u64 {
    if n == u64::MAX {
        0
    } else {
        (n + 1) as u64
    }
}

/// Loaded modules by number, the kernel symbol table and the ramdisk.
pub struct ModuleManager {
    modules: Vec<ModuleInfo>,
    symbol_table: SymbolTable,
    ramdisk_addr: usize,
    ramdisk_size: usize,
    next_id: u64,
}

impl ModuleManager {
    /// The modules in number order, with their numbers.
    pub closed spec fn entries(&self) -> Seq<(u64, ModuleView)> {
        Seq::new(self.modules@.len(), |i: int| (self.modules@[i].id, self.modules@[i]@))
    }

    /// The modules by number.
    pub open spec fn modules(&self) -> Map<u64, ModuleView> {
        keyed_map(self.entries())
    }

    pub closed spec fn symbols(&self) -> Map<Seq<char>, usize> {
        self.symbol_table.symbols()
    }

    /// The number the next loaded module gets.
    pub closed spec fn next_id(&self) -> u64 {
        self.next_id
    }

    /// Every loaded module's number is below the next number, so the next
    /// module loaded gets a number no loaded module has. Numbering starts at
    /// 1 and this holds until the counter reaches the top of `u64`.
    pub open spec fn ids_below_next(&self) -> bool {
        forall|id: u64| #[trigger] self.modules().contains_key(id) ==> id < self.next_id()
    }

    pub closed spec fn ramdisk(&self) -> (usize, usize) {
        (self.ramdisk_addr, self.ramdisk_size)
    }

    /// Numbers strictly increase; no module has an entry or exit routine
    /// (loading records none), so starting and stopping call nothing.
    pub closed spec fn wf(&self) -> bool {
        &&& self.symbol_table.wf()
        &&& forall|i: int, j: int|
            0 <= i < j < self.modules@.len() ==> #[trigger] self.modules@[i].id
                < #[trigger] self.modules@[j].id
        &&& forall|i: int|
            0 <= i < self.modules@.len() ==> #[trigger] self.modules@[i].init_addr == 0
                && self.modules@[i].cleanup_addr == 0
        &&& forall|i: int, j: int|
            0 <= i < j < self.modules@.len() ==> #[trigger] self.modules@[i].name@ != #[trigger] self.modules@[j].name@
    }

    proof fn lemma_names_distinct(&self, a: u64, b: u64)
        requires
            self.wf(),
            self.modules().contains_key(a),
            self.modules().contains_key(b),
            self.modules()[a].name == self.modules()[b].name,
        ensures
            a == b,
    {
        self.lemma_distinct();
        lemma_keyed_contains(self.entries(), a);
        lemma_keyed_contains(self.entries(), b);
        let i = choose|i: int| 0 <= i < self.entries().len() && #[trigger] self.entries()[i].0 == a;
        let j = choose|j: int| 0 <= j < self.entries().len() && #[trigger] self.entries()[j].0 == b;
        lemma_keyed_index(self.entries(), i);
        lemma_keyed_index(self.entries(), j);
        if i < j {
            assert(self.modules@[i].name@ != self.modules@[j].name@);
        } else if j < i {
            assert(self.modules@[j].name@ != self.modules@[i].name@);
        }
    }

    proof fn lemma_distinct(&self)
        requires
            self.wf(),
        ensures
            keys_distinct(self.entries()),
    {
        assert forall|i: int, j: int| 0 <= i < j < self.entries().len() implies #[trigger] self.entries()[i].0
            != #[trigger] self.entries()[j].0 by {
            assert(self.modules@[i].id < self.modules@[j].id);
        }
    }

    /// A manager with no modules whose symbol table holds the kernel's
    /// exports (see `kernel_symbols`).
    pub fn new(inb: usize, outb: usize, inl: usize, outl: usize) -> (m: Self)
        ensures
            m.wf(),
            m.modules() == Map::<u64, ModuleView>::empty(),
            m.symbols() == kernel_symbols(inb, outb, inl, outl),
            m.next_id() == 1,
            m.ids_below_next(),
            m.ramdisk() == (0usize, 0usize),
    {
        let mut mgr = ModuleManager {
            modules: Vec::new(),
            symbol_table: SymbolTable::new(),
            ramdisk_addr: 0,
            ramdisk_size: 0,
            next_id: 1,
        };
        mgr.register_kernel_symbols(inb, outb, inl, outl);
        assert(mgr.entries() =~= Seq::<(u64, ModuleView)>::empty());
        mgr
    }

    fn register_kernel_symbols(&mut self, inb: usize, outb: usize, inl: usize, outl: usize)
        requires
            old(self).wf(),
            old(self).symbols() == Map::<Seq<char>, usize>::empty(),
        ensures
            final(self).wf(),
            final(self).symbols() == kernel_symbols(inb, outb, inl, outl),
            final(self).modules@ == old(self).modules@,
            final(self).next_id == old(self).next_id,
            final(self).ramdisk() == old(self).ramdisk(),
    {
        self.symbol_table.register("kprint", 0);
        self.symbol_table.register("inb", inb);
        self.symbol_table.register("outb", outb);
        self.symbol_table.register("inl", inl);
        self.symbol_table.register("outl", outl);
        self.symbol_table.register("kmalloc", 0);
        self.symbol_table.register("kfree", 0);
        self.symbol_table.register("schedule", 0);
        self.symbol_table.register("yield", 0);
        self.symbol_table.register("vfs_open", 0);
        self.symbol_table.register("vfs_read", 0);
        self.symbol_table.register("vfs_write", 0);
        self.symbol_table.register("vfs_close", 0);
    }

    pub fn set_ramdisk(&mut self, addr: usize, size: usize)
        requires
            old(self).wf(),
        ensures
            final(self).wf(),
            final(self).ramdisk() == (addr, size),
            final(self).modules() == old(self).modules(),
            final(self).symbols() == old(self).symbols(),
            final(self).next_id() == old(self).next_id(),
    {
        self.ramdisk_addr = addr;
        self.ramdisk_size = size;
    }

    /// Whether a module is loaded under `name`.
    fn has_module_named(&self, name: &Vec<char>) -> (r: bool)
        ensures
            r == name_taken(self.entries(), name@),
    {
        let mut i: usize = 0;
        while i < self.modules.len()
            invariant
                i <= self.modules@.len(),
                forall|k: int| 0 <= k < i ==> #[trigger] self.entries()[k].1.name != name@,
            decreases self.modules@.len() - i,
        {
            let m = chars_of(self.modules[i].name.as_str());
            assert(m@ == self.entries()[i as int].1.name);
            if chars_eq(&m, name) {
                return true;
            }
            i = i + 1;
        }
        false
    }

    /// Position of module `id`, or where it would go.
    fn position(&self, id: u64) -> (r: (usize, bool))
        requires
            self.wf(),
        ensures
            r.0 <= self.modules@.len(),
            r.1 ==> r.0 < self.modules@.len() && self.modules@[r.0 as int].id == id,
            !r.1 ==> forall|i: int| 0 <= i < r.0 ==> #[trigger] self.modules@[i].id < id,
            !r.1 ==> forall|i: int| r.0 <= i < self.modules@.len() ==> id < #[trigger] self.modules@[i].id,
    {
        let mut i: usize = 0;
        while i < self.modules.len()
            invariant
                self.wf(),
                i <= self.modules@.len(),
                forall|k: int| 0 <= k < i ==> #[trigger] self.modules@[k].id < id,
            decreases self.modules@.len() - i,
        {
            if self.modules[i].id == id {
                return (i, true);
            }
            if self.modules[i].id > id {
                return (i, false);
            }
            i = i + 1;
        }
        (i, false)
    }

    /// Loads a module under `name` with the next number; a name already
    /// loaded is refused.
    #[verifier::rlimit(40)]
    pub fn load_module(&mut self, name: &str) -> (r: KernelResult<u64>)
        requires
            old(self).wf(),
        ensures
            final(self).wf(),
            final(self).symbols() == old(self).symbols(),
            final(self).ramdisk() == old(self).ramdisk(),
            name_taken(old(self).entries(), name@) ==> r == Err::<u64, KernelError>(
                KernelError::PageAlreadyMapped,
            ) && final(self).modules() == old(self).modules() && final(self).next_id() == old(
                self,
            ).next_id(),
            !name_taken(old(self).entries(), name@) ==> r == Ok::<u64, KernelError>(
                old(self).next_id(),
            ) && final(self).modules() == old(self).modules().insert(
                old(self).next_id(),
                fresh_module(old(self).next_id(), name@),
            ) && final(self).next_id() == next_number(old(self).next_id()),
            old(self).ids_below_next() ==> !old(self).modules().contains_key(old(self).next_id()),
            old(self).ids_below_next() && old(self).next_id() < u64::MAX ==> final(self).ids_below_next(),
    {
        let n = chars_of(name);
        if self.has_module_named(&n) {
            return Err(KernelError::PageAlreadyMapped);
        }
        let id = self.next_id;
        self.next_id = self.next_id.wrapping_add(1);
        let info = ModuleInfo {
            id,
            name: name.to_owned(),
            version: (0, 1, 0),
            module_type: ModuleType::Driver,
            state: ModuleState::Loaded,
            dependencies: Vec::new(),
            size: 0,
            init_addr: 0,
            cleanup_addr: 0,
        };
        assert(info@.dependencies =~= Seq::<Seq<char>>::empty());
        assert(info@ == fresh_module(id, name@));
        let ghost before = self.entries();
        let ghost old_mods = self.modules@;
        proof {
            self.lemma_distinct();
            assert forall|k: int| 0 <= k < old_mods.len() implies #[trigger] old_mods[k].name@ != name@ by {
                assert(before[k].1.name == old_mods[k].name@);
            }
        }
        let (pos, found) = self.position(id);
        if found {
            self.modules.set(pos, info);
            proof {
                assert forall|i: int, j: int|
                    0 <= i < j < self.modules@.len() implies #[trigger] self.modules@[i].name@ != #[trigger] self.modules@[j].name@ by {
                    if i != pos && j != pos {
                        assert(self.modules@[i] == old_mods[i] && self.modules@[j] == old_mods[j]);
                    } else if i == pos {
                        assert(self.modules@[j] == old_mods[j]);
                    } else {
                        assert(self.modules@[i] == old_mods[i]);
                    }
                }
                lemma_keyed_update(before, pos as int, fresh_module(id, name@));
                assert(self.entries() =~= before.update(pos as int, (id, fresh_module(id, name@))));
            }
        } else {
            self.modules.insert(pos, info);
            proof {
                assert forall|i: int, j: int|
                    0 <= i < j < self.modules@.len() implies #[trigger] self.modules@[i].name@ != #[trigger] self.modules@[j].name@ by {
                    if j < pos {
                        assert(self.modules@[i] == old_mods[i] && self.modules@[j] == old_mods[j]);
                    } else if i < pos && j == pos {
                        assert(self.modules@[i] == old_mods[i]);
                    } else if i < pos {
                        assert(self.modules@[i] == old_mods[i] && self.modules@[j] == old_mods[j - 1]);
                    } else if i == pos {
                        assert(self.modules@[j] == old_mods[j - 1]);
                    } else {
                        assert(self.modules@[i] == old_mods[i - 1] && self.modules@[j] == old_mods[j - 1]);
                    }
                }
                lemma_keyed_insert(before, pos as int, id, fresh_module(id, name@));
                assert(self.entries() =~= before.insert(pos as int, (id, fresh_module(id, name@))));
            }
        }
        proof {
            assert(self.modules() == old(self).modules().insert(id, fresh_module(id, name@)));
            assert(self.symbol_table.wf());
            assert(forall|i: int, j: int|
                0 <= i < j < self.modules@.len() ==> #[trigger] self.modules@[i].id < #[trigger] self.modules@[j].id);
            assert(forall|i: int|
                0 <= i < self.modules@.len() ==> #[trigger] self.modules@[i].init_addr == 0
                    && self.modules@[i].cleanup_addr == 0);
            assert(forall|i: int, j: int|
                0 <= i < j < self.modules@.len() ==> #[trigger] self.modules@[i].name@ != #[trigger] self.modules@[j].name@);
        }
        Ok(id)
    }

    /// Whether every name in `deps` is a running module.
    fn deps_satisfied(&self, deps: &Vec<String>) -> (r: bool)
        ensures
            r == deps_running(self.entries(), Seq::new(deps@.len(), |i: int| deps@[i]@)),
    {
        let ghost ds = Seq::new(deps@.len(), |i: int| deps@[i]@);
        let mut d: usize = 0;
        while d < deps.len()
            invariant
                d <= deps@.len(),
                ds == Seq::new(deps@.len(), |i: int| deps@[i]@),
                forall|e: int| 0 <= e < d ==> dep_running(self.entries(), #[trigger] ds[e]),
            decreases deps@.len() - d,
        {
            let want = chars_of(deps[d].as_str());
            let mut i: usize = 0;
            let mut found = false;
            while i < self.modules.len()
                invariant
                    i <= self.modules@.len(),
                    want@ == ds[d as int],
                    d < deps@.len(),
                    ds == Seq::new(deps@.len(), |i: int| deps@[i]@),
                    found ==> dep_running(self.entries(), ds[d as int]),
                    !found ==> forall|k: int|
                        0 <= k < i ==> !(#[trigger] self.entries()[k].1.name == ds[d as int]
                            && self.entries()[k].1.state == ModuleState::Running),
                decreases self.modules@.len() - i,
            {
                let m = chars_of(self.modules[i].name.as_str());
                assert(m@ == self.entries()[i as int].1.name);
                if chars_eq(&m, &want) && self.modules[i].state == ModuleState::Running {
                    found = true;
                }
                i = i + 1;
            }
            if !found {
                return false;
            }
            d = d + 1;
        }
        true
    }

    /// Starts module `id`: it must be loaded and not yet started, and each of
    /// its dependencies must be a running module.
    pub fn init_module(&mut self, module_id: u64) -> (r: KernelResult<()>)
        requires
            old(self).wf(),
        ensures
            final(self).wf(),
            final(self).symbols() == old(self).symbols(),
            final(self).ramdisk() == old(self).ramdisk(),
            final(self).next_id() == old(self).next_id(),
            old(self).ids_below_next() ==> final(self).ids_below_next(),
            !old(self).modules().contains_key(module_id) ==> r == Err::<(), KernelError>(
                KernelError::ModuleNotFound,
            ) && final(self).modules() == old(self).modules(),
            old(self).modules().contains_key(module_id) ==> {
                let m = old(self).modules()[module_id];
                if m.state != ModuleState::Loaded {
                    r == Err::<(), KernelError>(KernelError::InvalidArgument) && final(self).modules()
                        == old(self).modules()
                } else if !deps_running_in(old(self).modules(), m.dependencies) {
                    r == Err::<(), KernelError>(KernelError::ModuleNotFound) && final(self).modules()
                        == old(self).modules()
                } else {
                    r == Ok::<(), KernelError>(()) && final(self).modules() == old(self).modules().insert(
                        module_id,
                        ModuleView { state: ModuleState::Running, ..m },
                    )
                }
            },
    {
        proof {
            self.lemma_distinct();
        }
        let (pos, found) = self.position(module_id);
        if !found {
            proof {
                assert forall|i: int| 0 <= i < self.entries().len() implies #[trigger] self.entries()[i].0
                    != module_id by {
                    assert(self.entries()[i].0 == self.modules@[i].id);
                }
                lemma_keyed_absent(self.entries(), module_id);
            }
            return Err(KernelError::ModuleNotFound);
        }
        proof {
            lemma_keyed_index(self.entries(), pos as int);
            lemma_deps_running_map(self.entries(), self.entries()[pos as int].1.dependencies);
        }
        if self.modules[pos].state != ModuleState::Loaded {
            return Err(KernelError::InvalidArgument);
        }
        if !self.deps_satisfied(&self.modules[pos].dependencies) {
            return Err(KernelError::ModuleNotFound);
        }
        let ghost before = self.entries();
        let ghost old_mods = self.modules@;
        let ghost m = before[pos as int].1;
        let mut info = self.modules.remove(pos);
        info.state = ModuleState::Running;
        self.modules.insert(pos, info);
        proof {
            assert(self.modules@ =~= old_mods.update(pos as int, self.modules@[pos as int]));
            lemma_keyed_update(before, pos as int, ModuleView { state: ModuleState::Running, ..m });
            assert(self.entries() =~= before.update(
                pos as int,
                (module_id, ModuleView { state: ModuleState::Running, ..m }),
            ));
        }
        Ok(())
    }

    /// Unloads module `id`, which must be running or stopped.
    pub fn unload_module(&mut self, module_id: u64) -> (r: KernelResult<()>)
        requires
            old(self).wf(),
        ensures
            final(self).wf(),
            final(self).symbols() == old(self).symbols(),
            final(self).ramdisk() == old(self).ramdisk(),
            final(self).next_id() == old(self).next_id(),
            old(self).ids_below_next() ==> final(self).ids_below_next(),
            !old(self).modules().contains_key(module_id) ==> r == Err::<(), KernelError>(
                KernelError::ModuleNotFound,
            ) && final(self).modules() == old(self).modules(),
            old(self).modules().contains_key(module_id) ==> {
                let s = old(self).modules()[module_id].state;
                if s != ModuleState::Running && s != ModuleState::Stopped {
                    r == Err::<(), KernelError>(KernelError::InvalidArgument) && final(self).modules()
                        == old(self).modules()
                } else {
                    r == Ok::<(), KernelError>(()) && final(self).modules() == old(self).modules().remove(
                        module_id,
                    )
                }
            },
    {
        proof {
            self.lemma_distinct();
        }
        let (pos, found) = self.position(module_id);
        if !found {
            proof {
                assert forall|i: int| 0 <= i < self.entries().len() implies #[trigger] self.entries()[i].0
                    != module_id by {
                    assert(self.entries()[i].0 == self.modules@[i].id);
                }
                lemma_keyed_absent(self.entries(), module_id);
            }
            return Err(KernelError::ModuleNotFound);
        }
        proof {
            lemma_keyed_index(self.entries(), pos as int);
        }
        let state = self.modules[pos].state;
        if state != ModuleState::Running && state != ModuleState::Stopped {
            return Err(KernelError::InvalidArgument);
        }
        let ghost before = self.entries();
        self.modules.remove(pos);
        proof {
            lemma_keyed_remove(before, pos as int);
            assert(self.entries() =~= before.remove(pos as int));
        }
        Ok(())
    }

    /// Module `id`, if it is loaded.
    pub fn get_module_info(&self, module_id: u64) -> (r: Option<&ModuleInfo>)
        requires
            self.wf(),
        ensures
            match r {
                Some(m) => self.modules().contains_key(module_id) && m@ == self.modules()[module_id],
                None => !self.modules().contains_key(module_id),
            },
    {
        proof {
            self.lemma_distinct();
        }
        let (pos, found) = self.position(module_id);
        if found {
            proof {
                lemma_keyed_index(self.entries(), pos as int);
            }
            Some(&self.modules[pos])
        } else {
            proof {
                assert forall|i: int| 0 <= i < self.entries().len() implies #[trigger] self.entries()[i].0
                    != module_id by {
                    assert(self.entries()[i].0 == self.modules@[i].id);
                }
                lemma_keyed_absent(self.entries(), module_id);
            }
            None
        }
    }

    /// Every loaded module, in strictly ascending number order.
    pub fn list_modules(&self) -> (r: Vec<&ModuleInfo>)
        requires
            self.wf(),
        ensures
            r@.len() == self.entries().len(),
            forall|i: int| 0 <= i < r@.len() ==> (#[trigger] r@[i])@ == self.entries()[i].1,
            r@.len() == self.modules().len(),
            forall|i: int, j: int| 0 <= i < j < r@.len() ==> (#[trigger] r@[i]).id < (#[trigger] r@[j]).id,
            forall|i: int, j: int| 0 <= i < j < r@.len() ==> (#[trigger] r@[i]).name@ != (#[trigger] r@[j]).name@,
            forall|i: int|
                0 <= i < r@.len() ==> self.modules().contains_key((#[trigger] r@[i]).id)
                    && self.modules()[r@[i].id] == r@[i]@,
            forall|id: u64|
                #[trigger] self.modules().contains_key(id) ==> exists|i: int| 0 <= i < r@.len() && r@[i].id == id,
    {
        let mut r: Vec<&ModuleInfo> = Vec::new();
        let mut i: usize = 0;
        while i < self.modules.len()
            invariant
                i <= self.modules@.len(),
                r@.len() == i,
                forall|k: int| 0 <= k < i ==> (#[trigger] r@[k])@ == self.entries()[k].1,
            decreases self.modules@.len() - i,
        {
            r.push(&self.modules[i]);
            i = i + 1;
        }
        proof {
            self.lemma_distinct();
            assert forall|i: int| 0 <= i < r@.len() implies (#[trigger] r@[i]).id == self.entries()[i].0 by {
                assert(r@[i]@.id == self.modules@[i]@.id);
            }
            assert forall|i: int|
                0 <= i < r@.len() implies self.modules().contains_key((#[trigger] r@[i]).id)
                    && self.modules()[r@[i].id] == r@[i]@ by {
                lemma_keyed_index(self.entries(), i);
                assert(r@[i].id == self.entries()[i].0);
            }
            assert forall|i: int, j: int| 0 <= i < j < r@.len() implies (#[trigger] r@[i]).name@ != (#[trigger] r@[j]).name@ by {
                assert(r@[i]@.name == self.modules@[i]@.name);
                assert(r@[j]@.name == self.modules@[j]@.name);
            }
            assert forall|i: int, j: int| 0 <= i < j < r@.len() implies (#[trigger] r@[i]).id < (#[trigger] r@[j]).id by {
                assert(r@[i].id == self.entries()[i].0);
                assert(r@[j].id == self.entries()[j].0);
                assert(self.modules@[i].id < self.modules@[j].id);
            }
            assert forall|id: u64|
                #[trigger] self.modules().contains_key(id) implies exists|i: int| 0 <= i < r@.len() && r@[i].id == id by {
                lemma_keyed_contains(self.entries(), id);
                let k = choose|k: int| 0 <= k < self.entries().len() && #[trigger] self.entries()[k].0 == id;
                assert(r@[k].id == self.entries()[k].0);
            }
            lemma_keyed_len(self.entries());
        }
        r
    }

    /// The address bound to `name` in the symbol table.
    pub fn resolve_symbol(&self, name: &str) -> (r: Option<usize>)
        requires
            self.wf(),
        ensures
            r == if self.symbols().contains_key(name@) {
                Some(self.symbols()[name@])
            } else {
                None::<usize>
            },
    {
        self.symbol_table.lookup(name)
    }

    /// Binds `name` to `addr` in the symbol table.
    pub fn register_symbol(&mut self, name: &str, addr: usize)
        requires
            old(self).wf(),
        ensures
            final(self).wf(),
            final(self).symbols() == old(self).symbols().insert(name@, addr),
            final(self).modules() == old(self).modules(),
            final(self).next_id() == old(self).next_id(),
            final(self).ramdisk() == old(self).ramdisk(),
    {
        self.symbol_table.register(name, addr);
    }
}


/// No two loaded modules share a name: loading refuses a name already
/// loaded, and starting or stopping a module keeps its name.
pub proof fn law_module_names_distinct(m: &ModuleManager, a: u64, b: u64)
    requires
        m.wf(),
        m.modules().contains_key(a),
        m.modules().contains_key(b),
        m.modules()[a].name == m.modules()[b].name,
    ensures
        a == b,
{
    m.lemma_names_distinct(a, b);
}

/// A module just loaded is found under its number, loaded under its name
/// and not yet started; the other modules are as they were.
pub proof fn law_loaded_module_found(m: Map<u64, ModuleView>, id: u64, name: Seq<char>, other: u64)
    requires
        other != id,
    ensures
        m.insert(id, fresh_module(id, name)).contains_key(id),
        m.insert(id, fresh_module(id, name))[id].name == name,
        m.insert(id, fresh_module(id, name))[id].state == ModuleState::Loaded,
        m.insert(id, fresh_module(id, name)).contains_key(other) == m.contains_key(other),
        m.contains_key(other) ==> m.insert(id, fresh_module(id, name))[other] == m[other],
{
}

/// A symbol just registered resolves to its address, whatever it was bound
/// to before; other names are unaffected.
pub proof fn law_registered_symbol_resolves(
    m: Map<Seq<char>, usize>,
    name: Seq<char>,
    addr: usize,
    other: Seq<char>,
)
    requires
        other != name,
    ensures
        m.insert(name, addr).contains_key(name) && m.insert(name, addr)[name] == addr,
        m.insert(name, addr).contains_key(other) == m.contains_key(other),
        m.contains_key(other) ==> m.insert(name, addr)[other] == m[other],
{
}

/// Unloading forgets the module; the others are as they were.
pub proof fn law_unloaded_module_gone(m: Map<u64, ModuleView>, id: u64, other: u64)
    requires
        other != id,
    ensures
        !m.remove(id).contains_key(id),
        m.remove(id).contains_key(other) == m.contains_key(other),
{
}

} // verus!
