use vstd::prelude::*;
use vstd::pervasive::unreached;

verus! {

/// The number of logical operation families.
pub const MODULE_COUNT: usize = 11;

/// The stable identity of a logical operation family, independent of which
/// backend compiled its kernels.
#[derive(Clone, Copy, Debug, PartialEq, Eq, Hash, Structural)]
pub enum Id {
    Affine,
    Binary,
    Cast,
    Conv,
    Fill,
    Indexing,
    Quantized,
    Reduce,
    Sort,
    Ternary,
    Unary,
}

/// The position of `id` in the canonical ordering of all module ids.
pub open spec fn id_index(id: Id) -> int {
    match id {
        Id::Affine => 0,
        Id::Binary => 1,
        Id::Cast => 2,
        Id::Conv => 3,
        Id::Fill => 4,
        Id::Indexing => 5,
        Id::Quantized => 6,
        Id::Reduce => 7,
        Id::Sort => 8,
        Id::Ternary => 9,
        Id::Unary => 10,
    }
}

/// The id at position `j` of the canonical ordering.
pub open spec fn id_of_index(j: int) -> Id {
    if j == 0 {
        Id::Affine
    } else if j == 1 {
        Id::Binary
    } else if j == 2 {
        Id::Cast
    } else if j == 3 {
        Id::Conv
    } else if j == 4 {
        Id::Fill
    } else if j == 5 {
        Id::Indexing
    } else if j == 6 {
        Id::Quantized
    } else if j == 7 {
        Id::Reduce
    } else if j == 8 {
        Id::Sort
    } else if j == 9 {
        Id::Ternary
    } else {
        Id::Unary
    }
}

/// The module index is a bijection between the ids and the table positions
/// `[0, MODULE_COUNT)`: every id has a position in range, distinct ids have
/// distinct positions, and every position in range is some id's position.
pub proof fn lemma_module_index_bijective(a: Id, b: Id, j: int)
    requires
        0 <= j < MODULE_COUNT,
    ensures
        0 <= id_index(a) < MODULE_COUNT,
        id_index(a) == id_index(b) ==> a == b,
        id_index(id_of_index(j)) == j,
        id_of_index(id_index(a)) == a,
{
}

/// The canonical ordering of all module ids: the id at position `j` has
/// module index `j`.
pub fn all_ids() -> (v: Vec<Id>)
    ensures
        v@.len() == MODULE_COUNT,
        forall|j: int| 0 <= j < v@.len() ==> id_index(#[trigger] v@[j]) == j,
{
    let mut v: Vec<Id> = Vec::new();
    v.push(Id::Affine);
    v.push(Id::Binary);
    v.push(Id::Cast);
    v.push(Id::Conv);
    v.push(Id::Fill);
    v.push(Id::Indexing);
    v.push(Id::Quantized);
    v.push(Id::Reduce);
    v.push(Id::Sort);
    v.push(Id::Ternary);
    v.push(Id::Unary);
    v
}

/// The dense table position of the module identified by `id`: a search of
/// the canonical ordering. Every id stands in that ordering, so the search
/// cannot fail; the result always lies below `MODULE_COUNT`.
pub fn module_index(id: Id) -> (r: usize)
    ensures
        r == id_index(id),
        r < MODULE_COUNT,
{
    let ids = all_ids();
    let n = ids.len();
    let mut i: usize = 0;
    while i < n
        invariant
            0 <= i <= n,
            n == ids@.len(),
            n == MODULE_COUNT,
            forall|j: int| 0 <= j < ids@.len() ==> id_index(#[trigger] ids@[j]) == j,
            i <= id_index(id),
        decreases n - i,
    {
        if ids[i] == id {
            return i;
        }
        proof {
            lemma_module_index_bijective(id, ids@[i as int], i as int);
        }
        i += 1;
    }
    proof {
        lemma_module_index_bijective(id, id, 0);
        assert(false);
    }
    unreached()
}

/// A compiled unit of device code: the dense table index of its operation
/// family together with the compiled kernel text, immutable once built.
pub struct Module {
    index: usize,
    ptx: &'static str,
}

impl Module {
    /// The dense table position of this module's operation family.
    pub closed spec fn spec_index(self) -> int {
        self.index as int
    }

    /// The compiled kernel text of this module.
    pub closed spec fn spec_ptx(self) -> &'static str {
        self.ptx
    }

    /// Builds the module of operation family `id` from its compiled kernel
    /// text.
    pub fn new(id: Id, ptx: &'static str) -> (m: Module)
        ensures
            m.spec_index() == id_index(id),
            m.spec_ptx() == ptx,
    {
        Module { index: module_index(id), ptx }
    }

    /// Returns the dense table position of this module's operation family.
    pub fn index(&self) -> (r: usize)
        ensures
            r == self.spec_index(),
    {
        self.index
    }

    /// Returns the compiled kernel text.
    pub fn ptx(&self) -> (r: &'static str)
        ensures
            r == self.spec_ptx(),
    {
        self.ptx
    }
}

/// The kernel registry of one backend: the compiled module of every
/// operation family, held at its dense table position. The table is built
/// and checked complete at construction, so a lookup can never miss.
pub struct Registry {
    modules: Vec<Module>,
}

impl Registry {
    /// The modules, ordered by table position.
    pub closed spec fn modules_view(self) -> Seq<Module> {
        self.modules@
    }

    /// Every operation family's module stands at its own table position.
    pub open spec fn wf(self) -> bool {
        &&& self.modules_view().len() == MODULE_COUNT
        &&& forall|i: int|
            0 <= i < MODULE_COUNT ==> (#[trigger] self.modules_view()[i]).spec_index() == i
    }

    /// Builds the registry from the compiled kernel text of every operation
    /// family, given in canonical order, and checks the table complete.
    pub fn new(sources: Vec<&'static str>) -> (r: Registry)
        requires
            sources@.len() == MODULE_COUNT,
        ensures
            r.wf(),
            forall|i: int|
                0 <= i < MODULE_COUNT ==> (#[trigger] r.modules_view()[i]).spec_ptx()
                    == sources@[i],
    {
        let ids = all_ids();
        let mut modules: Vec<Module> = Vec::new();
        let mut i: usize = 0;
        while i < ids.len()
            invariant
                0 <= i <= MODULE_COUNT,
                ids@.len() == MODULE_COUNT,
                sources@.len() == MODULE_COUNT,
                forall|j: int| 0 <= j < ids@.len() ==> id_index(#[trigger] ids@[j]) == j,
                modules@.len() == i,
                forall|j: int|
                    0 <= j < i ==> (#[trigger] modules@[j]).spec_index() == j
                        && modules@[j].spec_ptx() == sources@[j],
            decreases ids@.len() - i,
        {
            modules.push(Module::new(ids[i], sources[i]));
            i += 1;
        }
        Registry { modules }
    }

    /// Returns the compiled module of operation family `id`.
    pub fn get(&self, id: Id) -> (m: &Module)
        requires
            self.wf(),
        ensures
            *m == self.modules_view()[id_index(id)],
            m.spec_index() == id_index(id),
    {
        proof {
            lemma_module_index_bijective(id, id, 0);
        }
        let i = module_index(id);
        &self.modules[i]
    }
}

} // verus!
