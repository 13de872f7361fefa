//! The data model: modules in insertion order, each with its named offsets
//! in insertion order.
use vstd::prelude::*;
use crate::ident::{ident_char, is_ident_char, is_ident_fragment};
use crate::text::{chars_of, same_text};

verus! {

/// A named byte distance from a module's base address.
#[derive(Debug)]
pub struct Offset {
    pub name: String,
    pub value: usize,
}

/// What an `Offset` stands for.
pub struct OffsetView {
    pub name: Seq<char>,
    pub value: nat,
}

impl View for Offset {
    type V = OffsetView;

    open spec fn view(&self) -> OffsetView {
        OffsetView { name: self.name@, value: self.value as nat }
    }
}

/// A module and the offsets it owns.
#[derive(Debug)]
pub struct Module {
    pub name: String,
    pub offsets: Vec<Offset>,
}

/// What a `Module` stands for.
pub struct ModuleView {
    pub name: Seq<char>,
    pub offsets: Seq<OffsetView>,
}

/// The views of a run of offsets, in order.
pub open spec fn offset_views(offsets: Seq<Offset>) -> Seq<OffsetView> {
    Seq::new(offsets.len(), |i: int| offsets[i]@)
}

/// The views of a run of modules, in order.
pub open spec fn module_views(modules: Seq<Module>) -> Seq<ModuleView> {
    Seq::new(modules.len(), |i: int| modules[i]@)
}

impl View for Module {
    type V = ModuleView;

    open spec fn view(&self) -> ModuleView {
        ModuleView { name: self.name@, offsets: offset_views(self.offsets@) }
    }
}

/// Whether every offset of a run has a name that may stand in an
/// identifier.
pub open spec fn offsets_named(offsets: Seq<OffsetView>) -> bool {
    forall|i: int| 0 <= i < offsets.len() ==> is_ident_fragment(#[trigger] offsets[i].name)
}

/// Whether some module of `modules` is called `name`.
pub open spec fn has_module(modules: Seq<ModuleView>, name: Seq<char>) -> bool {
    exists|i: int| 0 <= i < modules.len() && (#[trigger] modules[i]).name == name
}

/// The index of the first module at or after `from` that is called
/// `name`; the length where there is none.
pub open spec fn module_index_from(modules: Seq<ModuleView>, name: Seq<char>, from: int) -> int
    decreases modules.len() - from,
{
    if from < 0 || from >= modules.len() {
        modules.len() as int
    } else if modules[from].name == name {
        from
    } else {
        module_index_from(modules, name, from + 1)
    }
}

/// The index of the first module called `name`; the length where there is
/// none.
pub open spec fn module_index(modules: Seq<ModuleView>, name: Seq<char>) -> int {
    module_index_from(modules, name, 0)
}

/// No two modules share a name.
pub open spec fn names_unique(modules: Seq<ModuleView>) -> bool {
    forall|i: int, j: int|
        0 <= i < j < modules.len() ==> (#[trigger] modules[i]).name != (#[trigger] modules[j]).name
}

/// The validity of a model: module names are unique, and every offset has
/// a name that may stand in an identifier.
pub open spec fn well_formed(modules: Seq<ModuleView>) -> bool {
    &&& names_unique(modules)
    &&& forall|i: int| 0 <= i < modules.len() ==> offsets_named((#[trigger] modules[i]).offsets)
}

/// An ordered mapping from module name to that module's offsets.
#[derive(Debug)]
pub struct OffsetMap {
    modules: Vec<Module>,
}

impl View for OffsetMap {
    type V = Seq<ModuleView>;

    closed spec fn view(&self) -> Seq<ModuleView> {
        module_views(self.modules@)
    }
}

/// Characterises `module_index_from` by what holds at the index it gives.
pub proof fn lemma_module_index_from(modules: Seq<ModuleView>, name: Seq<char>, from: int)
    requires
        0 <= from <= modules.len(),
    ensures
        from <= module_index_from(modules, name, from) <= modules.len(),
        forall|j: int|
            from <= j < module_index_from(modules, name, from) ==> (#[trigger] modules[j]).name
                != name,
        module_index_from(modules, name, from) < modules.len() ==> modules[module_index_from(
            modules,
            name,
            from,
        )].name == name,
    decreases modules.len() - from,
{
    if from < modules.len() && modules[from].name != name {
        lemma_module_index_from(modules, name, from + 1);
    }
}

impl Offset {
    /// An offset called `name`, where `name` may stand in an identifier:
    /// it is not empty and holds only ASCII letters, digits and
    /// underscores. `None` for any other name.
    pub fn new(name: String, value: usize) -> (r: Option<Offset>)
        ensures
            r is Some <==> is_ident_fragment(name@),
            r matches Some(o) ==> o@ == (OffsetView { name: name@, value: value as nat }),
    {
        let cs = chars_of(name.as_str());
        if cs.len() == 0 {
            return None;
        }
        let mut i: usize = 0;
        while i < cs.len()
            invariant
                i <= cs.len(),
                cs@ == name@,
                forall|j: int| 0 <= j < i ==> is_ident_char(#[trigger] cs@[j]),
            decreases cs.len() - i,
        {
            if !ident_char(cs[i]) {
                return None;
            }
            i += 1;
        }
        Some(Offset { name, value })
    }
}

impl OffsetMap {
    /// Whether the map is valid: see `well_formed`.
    pub open spec fn wf(&self) -> bool {
        well_formed(self@)
    }

    /// A map without modules.
    pub fn new() -> (r: OffsetMap)
        ensures
            r@ == Seq::<ModuleView>::empty(),
            r.wf(),
    {
        let r = OffsetMap { modules: Vec::new() };
        assert(r@ =~= Seq::<ModuleView>::empty());
        r
    }

    /// The number of modules.
    pub fn len(&self) -> (n: usize)
        ensures
            n == self@.len(),
    {
        self.modules.len()
    }

    /// Whether the map holds no module.
    pub fn is_empty(&self) -> (r: bool)
        ensures
            r == (self@.len() == 0),
    {
        self.modules.len() == 0
    }

    /// The modules, in insertion order.
    pub fn modules(&self) -> (r: &Vec<Module>)
        ensures
            module_views(r@) == self@,
    {
        &self.modules
    }

    fn position(&self, name: &str) -> (i: usize)
        ensures
            i == module_index(self@, name@),
            i <= self@.len(),
    {
        let mut i: usize = 0;
        proof {
            lemma_module_index_from(self@, name@, 0);
        }
        while i < self.modules.len()
            invariant
                i <= self.modules.len(),
                module_index_from(self@, name@, i as int) == module_index(self@, name@),
            decreases self.modules.len() - i,
        {
            if same_text(self.modules[i].name.as_str(), name) {
                return i;
            }
            i += 1;
        }
        i
    }

    /// The offsets recorded for the module called `name`, if there is one.
    pub fn get(&self, name: &str) -> (r: Option<&Vec<Offset>>)
        ensures
            r is Some <==> has_module(self@, name@),
            r matches Some(offsets) ==> offset_views(offsets@) == self@[module_index(
                self@,
                name@,
            )].offsets,
    {
        let i = self.position(name);
        proof {
            lemma_module_index_from(self@, name@, 0);
        }
        if i < self.modules.len() {
            Some(&self.modules[i].offsets)
        } else {
            None
        }
    }

    /// Records `offsets` for the module called `name`. A module of that
    /// name that is already there keeps its place and has its offsets
    /// replaced; otherwise the module is added after all others. Returns
    /// whether a module was replaced.
    pub fn insert(&mut self, name: String, offsets: Vec<Offset>) -> (replaced: bool)
        ensures
            replaced == has_module(old(self)@, name@),
            replaced ==> final(self)@ == old(self)@.update(
                module_index(old(self)@, name@),
                ModuleView { name: name@, offsets: offset_views(offsets@) },
            ),
            !replaced ==> final(self)@ == old(self)@.push(
                ModuleView { name: name@, offsets: offset_views(offsets@) },
            ),
            old(self).wf() && offsets_named(offset_views(offsets@)) ==> final(self).wf(),
    {
        let i = self.position(name.as_str());
        proof {
            lemma_module_index_from(self@, name@, 0);
        }
        let ghost before = self@;
        let ghost added = ModuleView { name: name@, offsets: offset_views(offsets@) };
        if i < self.modules.len() {
            self.modules.set(i, Module { name, offsets });
            assert(self@ =~= before.update(i as int, added));
            true
        } else {
            self.modules.push(Module { name, offsets });
            assert(self@ =~= before.push(added));
            false
        }
    }
}

} // verus!
