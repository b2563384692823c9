//! The registry of managed process specifications: an ordered sequence in
//! which every id occurs once.
use vstd::prelude::*;
use crate::codec::texts_view;

verus! {

/// A process that the daemon is responsible for launching.
#[derive(Debug, Clone, PartialEq, Eq)]
pub struct ManagedProcessSpec {
    pub id: u64,
    pub created_at: u64,
    pub name: String,
    pub command: String,
    pub args: Vec<String>,
    pub pwd: String,
    pub enabled: bool,
}

pub struct SpecModel {
    pub id: u64,
    pub created_at: u64,
    pub name: Seq<char>,
    pub command: Seq<char>,
    pub args: Seq<Seq<char>>,
    pub pwd: Seq<char>,
    pub enabled: bool,
}

impl View for ManagedProcessSpec {
    type V = SpecModel;

    open spec fn view(&self) -> SpecModel {
        SpecModel {
            id: self.id,
            created_at: self.created_at,
            name: self.name@,
            command: self.command@,
            args: texts_view(self.args@),
            pwd: self.pwd@,
            enabled: self.enabled,
        }
    }
}

pub open spec fn specs_view(v: Seq<ManagedProcessSpec>) -> Seq<SpecModel> {
    v.map_values(|p: ManagedProcessSpec| p@)
}

/// A copy of a list of texts.
pub fn copy_texts(v: &Vec<String>) -> (r: Vec<String>)
    ensures
        texts_view(r@) == texts_view(v@),
{
    let mut out: Vec<String> = Vec::new();
    let mut i: usize = 0;
    while i < v.len()
        invariant
            i <= v@.len(),
            out@.len() == i,
            texts_view(out@) == texts_view(v@.subrange(0, i as int)),
        decreases v@.len() - i,
    {
        let ghost prev = out@;
        out.push(v[i].clone());
        proof {
            assert forall|k: int| 0 <= k < i implies #[trigger] out@[k]@ == v@[k]@ by {
                assert(out@[k] == prev[k]);
                assert(texts_view(prev)[k] == texts_view(v@.subrange(0, i as int))[k]);
            }
        }
        i = i + 1;
        assert(texts_view(out@) =~= texts_view(v@.subrange(0, i as int)));
    }
    assert(v@.subrange(0, i as int) =~= v@);
    out
}

impl ManagedProcessSpec {
    /// A copy of this specification.
    pub fn duplicate(&self) -> (r: ManagedProcessSpec)
        ensures
            r@ == self@,
    {
        ManagedProcessSpec {
            id: self.id,
            created_at: self.created_at,
            name: self.name.clone(),
            command: self.command.clone(),
            args: copy_texts(&self.args),
            pwd: self.pwd.clone(),
            enabled: self.enabled,
        }
    }
}

/// No id occurs twice.
pub open spec fn ids_unique(s: Seq<SpecModel>) -> bool {
    forall|i: int, j: int| 0 <= i < j < s.len() ==> s[i].id != s[j].id
}

/// One more than the largest id, or zero when there is none.
pub open spec fn id_bound(s: Seq<SpecModel>) -> int
    decreases s.len(),
{
    if s.len() == 0 {
        0
    } else {
        let b = id_bound(s.drop_last());
        if s.last().id + 1 > b {
            s.last().id + 1
        } else {
            b
        }
    }
}

/// Every id lies below `id_bound`.
pub proof fn lemma_id_bound(s: Seq<SpecModel>)
    ensures
        forall|i: int| 0 <= i < s.len() ==> s[i].id < id_bound(s),
        0 <= id_bound(s) <= u64::MAX + 1,
    decreases s.len(),
{
    if s.len() > 0 {
        lemma_id_bound(s.drop_last());
        assert forall|i: int| 0 <= i < s.len() implies s[i].id < id_bound(s) by {
            if i < s.len() - 1 {
                assert(s[i] == s.drop_last()[i]);
            }
        }
    }
}

/// The specification that an accepted `AddProcess` creates.
pub open spec fn new_spec(
    id: u64,
    created_at: u64,
    name: Seq<char>,
    command: Seq<char>,
    args: Seq<Seq<char>>,
    pwd: Seq<char>,
) -> SpecModel {
    SpecModel { id, created_at, name, command, args, pwd, enabled: true }
}

#[derive(Debug, Clone, Copy, PartialEq, Eq, Structural)]
pub enum RegistryError {
    /// Every id up to the largest `u64` is taken.
    IdsExhausted,
}

/// The ordered collection of managed process specifications.
#[derive(Debug, Clone, PartialEq, Eq)]
pub struct Registry {
    pub processes: Vec<ManagedProcessSpec>,
}

impl View for Registry {
    type V = Seq<SpecModel>;

    open spec fn view(&self) -> Seq<SpecModel> {
        specs_view(self.processes@)
    }
}

impl Registry {
    pub open spec fn wf(&self) -> bool {
        ids_unique(self@)
    }

    /// An empty registry.
    pub fn new() -> (r: Registry)
        ensures
            r@ == Seq::<SpecModel>::empty(),
            r.wf(),
    {
        let r = Registry { processes: Vec::new() };
        assert(r@ =~= Seq::<SpecModel>::empty());
        r
    }

    /// A registry of the given specifications, or `None` where an id repeats.
    pub fn from_specs(specs: Vec<ManagedProcessSpec>) -> (r: Option<Registry>)
        ensures
            ids_unique(specs_view(specs@)) ==> r is Some && r->0@ == specs_view(specs@),
            !ids_unique(specs_view(specs@)) ==> r is None,
    {
        let ghost s = specs_view(specs@);
        let mut i: usize = 0;
        while i < specs.len()
            invariant
                s == specs_view(specs@),
                i <= specs@.len(),
                forall|a: int, b: int| 0 <= a < b < s.len() && a < i ==> s[a].id != s[b].id,
            decreases specs@.len() - i,
        {
            let mut j: usize = i + 1;
            while j < specs.len()
                invariant
                    s == specs_view(specs@),
                    i < specs@.len(),
                    i + 1 <= j <= specs@.len(),
                    forall|a: int, b: int| 0 <= a < b < s.len() && a < i ==> s[a].id != s[b].id,
                    forall|b: int| i < b < j ==> s[i as int].id != s[b].id,
                decreases specs@.len() - j,
            {
                if specs[i].id == specs[j].id {
                    assert(s[i as int].id == s[j as int].id);
                    return None;
                }
                j = j + 1;
            }
            i = i + 1;
        }
        Some(Registry { processes: specs })
    }

    pub fn len(&self) -> (r: usize)
        ensures
            r == self@.len(),
    {
        self.processes.len()
    }

    /// A copy of this registry.
    pub fn snapshot(&self) -> (r: Registry)
        ensures
            r@ == self@,
    {
        let mut out: Vec<ManagedProcessSpec> = Vec::new();
        let mut i: usize = 0;
        while i < self.processes.len()
            invariant
                i <= self.processes@.len(),
                out@.len() == i,
                specs_view(out@) == specs_view(self.processes@.subrange(0, i as int)),
            decreases self.processes@.len() - i,
        {
            let ghost prev = out@;
            out.push(self.processes[i].duplicate());
            proof {
                let sv = specs_view(self.processes@.subrange(0, i as int));
                assert forall|k: int| 0 <= k < i implies #[trigger] out@[k]@ == self.processes@[k]@ by {
                    assert(out@[k] == prev[k]);
                    assert(specs_view(prev)[k] == sv[k]);
                }
            }
            i = i + 1;
            assert(specs_view(out@) =~= specs_view(self.processes@.subrange(0, i as int)));
        }
        assert(self.processes@.subrange(0, i as int) =~= self.processes@);
        Registry { processes: out }
    }

    /// The id that the next specification gets: one more than the largest
    /// id, or zero in an empty registry; `None` once that would pass `u64::MAX`.
    pub fn next_id(&self) -> (r: Option<u64>)
        ensures
            id_bound(self@) <= u64::MAX ==> r == Some(id_bound(self@) as u64),
            id_bound(self@) > u64::MAX ==> r is None,
    {
        let mut bound: u64 = 0;
        let mut i: usize = 0;
        while i < self.processes.len()
            invariant
                i <= self.processes@.len(),
                bound == id_bound(self@.subrange(0, i as int)),
            decreases self.processes@.len() - i,
        {
            let id = self.processes[i].id;
            proof {
                assert(self@.subrange(0, i + 1).drop_last() =~= self@.subrange(0, i as int));
            }
            if id == u64::MAX {
                proof {
                    lemma_bound_grows(self@, i as int);
                }
                return None;
            }
            if id + 1 > bound {
                bound = id + 1;
            }
            i = i + 1;
        }
        assert(self@.subrange(0, i as int) =~= self@);
        Some(bound)
    }

    /// Appends a new enabled specification with a fresh id.
    pub fn add_process(
        &mut self,
        name: String,
        command: String,
        args: Vec<String>,
        pwd: String,
        created_at: u64,
    ) -> (r: Result<ManagedProcessSpec, RegistryError>)
        requires
            old(self).wf(),
        ensures
            final(self).wf(),
            id_bound(old(self)@) <= u64::MAX ==> r is Ok && r->Ok_0@ == new_spec(
                id_bound(old(self)@) as u64,
                created_at,
                name@,
                command@,
                texts_view(args@),
                pwd@,
            ) && final(self)@ == old(self)@.push(r->Ok_0@),
            id_bound(old(self)@) > u64::MAX ==> r == Err::<ManagedProcessSpec, RegistryError>(
                RegistryError::IdsExhausted,
            ) && final(self)@ == old(self)@,
    {
        let id = match self.next_id() {
            Some(id) => id,
            None => return Err(RegistryError::IdsExhausted),
        };
        let spec = ManagedProcessSpec { id, created_at, name, command, args, pwd, enabled: true };
        let copy = spec.duplicate();
        proof {
            lemma_id_bound(self@);
        }
        self.processes.push(spec);
        assert(self@ =~= old(self)@.push(copy@));
        Ok(copy)
    }

    /// The enabled specifications, in order: what is relaunched at startup.
    pub fn enabled_specs(&self) -> (r: Vec<ManagedProcessSpec>)
        ensures
            specs_view(r@) == self@.filter(|p: SpecModel| p.enabled),
    {
        let mut out: Vec<ManagedProcessSpec> = Vec::new();
        let mut i: usize = 0;
        while i < self.processes.len()
            invariant
                i <= self.processes@.len(),
                specs_view(out@) == self@.subrange(0, i as int).filter(|p: SpecModel| p.enabled),
            decreases self.processes@.len() - i,
        {
            proof {
                assert(self@.subrange(0, i + 1).drop_last() =~= self@.subrange(0, i as int));
                reveal(Seq::filter);
            }
            if self.processes[i].enabled {
                out.push(self.processes[i].duplicate());
            }
            i = i + 1;
            assert(specs_view(out@) =~= self@.subrange(0, i as int).filter(|p: SpecModel| p.enabled));
        }
        assert(self@.subrange(0, i as int) =~= self@);
        out
    }
}

/// What reading the persisted registry found.
#[derive(Debug, Clone, PartialEq, Eq)]
pub enum StoredRegistry {
    /// There is no file.
    Absent,
    /// The file exists but could not be read.
    Unreadable,
    /// The file does not hold a registry document.
    Unparseable,
    /// The specifications that the file holds, in order.
    Parsed(Vec<ManagedProcessSpec>),
}

#[derive(Debug, Clone, Copy, PartialEq, Eq, Structural)]
pub enum LoadOutcome {
    Loaded,
    /// No file: the registry starts empty, as on a first run.
    NoFile,
    /// The file could not be read: the registry starts empty.
    Unreadable,
    /// The file is not a registry, or repeats an id: the registry starts empty.
    Corrupt,
}

/// The registry to start from, and whether the persisted state was lost.
pub fn load_registry(stored: StoredRegistry) -> (r: (Registry, LoadOutcome))
    ensures
        r.0.wf(),
        match stored {
            StoredRegistry::Absent => r.0@ == Seq::<SpecModel>::empty() && r.1 == LoadOutcome::NoFile,
            StoredRegistry::Unreadable => r.0@ == Seq::<SpecModel>::empty() && r.1
                == LoadOutcome::Unreadable,
            StoredRegistry::Unparseable => r.0@ == Seq::<SpecModel>::empty() && r.1
                == LoadOutcome::Corrupt,
            StoredRegistry::Parsed(v) => if ids_unique(specs_view(v@)) {
                r.0@ == specs_view(v@) && r.1 == LoadOutcome::Loaded
            } else {
                r.0@ == Seq::<SpecModel>::empty() && r.1 == LoadOutcome::Corrupt
            },
        },
{
    match stored {
        StoredRegistry::Absent => (Registry::new(), LoadOutcome::NoFile),
        StoredRegistry::Unreadable => (Registry::new(), LoadOutcome::Unreadable),
        StoredRegistry::Unparseable => (Registry::new(), LoadOutcome::Corrupt),
        StoredRegistry::Parsed(v) => match Registry::from_specs(v) {
            Some(reg) => (reg, LoadOutcome::Loaded),
            None => (Registry::new(), LoadOutcome::Corrupt),
        },
    }
}

proof fn lemma_bound_grows(s: Seq<SpecModel>, i: int)
    requires
        0 <= i < s.len(),
        s[i].id == u64::MAX,
    ensures
        id_bound(s) > u64::MAX,
{
    lemma_id_bound(s);
}

} // verus!
