//! Building a system: objects are added one by one under unique names, the
//! connectors are joined to them, and the whole is made into a system.

use vstd::prelude::*;
use vstd::string::*;
use crate::composition::SpeciesTable;
use crate::connector::{Connector, ConnectorError, ConnectorFault, ConnectorKind};
use crate::engine::{CylinderLayout, Engine, EngineConfig, EngineError, EngineFault, ValveLayout};
use crate::headers::{
    columns_of,
    cylinder_columns,
    cylinder_header,
    cylinder_headers,
    cylinder_num_storable_variables,
    header_of,
    SampledKind,
};
use crate::names::{all_distinct, lemma_position_of, position, position_of};
use crate::store::{fits, StoreData, MAX_ARRAY_LEN};
use crate::system::{
    connector_names,
    engine_names,
    entries_of,
    entry_names,
    find_entry,
    first_unregistered,
    registered,
    system_fault,
    ObjectInfo,
    System,
    SystemError,
    SystemFault,
};
use crate::ObjectType;

verus! {

/// Why a builder refused.
#[derive(Debug, Clone)]
pub enum BuildError {
    /// An object of this name is already there.
    DuplicateName(String),
    /// No object has this name.
    UnknownObject(String),
    /// The object of this name is no connector.
    NotAConnector(String),
    /// The connector refused.
    Connector(ConnectorError),
    /// The engine record gives no layout.
    Engine(EngineError),
    /// A system has one engine at most.
    EngineAlreadyAdded,
}

/// The model of a `BuildError`.
pub enum BuildFault {
    DuplicateName(Seq<char>),
    UnknownObject(Seq<char>),
    NotAConnector(Seq<char>),
    Connector(ConnectorFault),
    Engine(EngineFault),
    EngineAlreadyAdded,
}

impl View for BuildError {
    type V = BuildFault;

    open spec fn view(&self) -> BuildFault {
        match self {
            BuildError::DuplicateName(name) => BuildFault::DuplicateName(name@),
            BuildError::UnknownObject(name) => BuildFault::UnknownObject(name@),
            BuildError::NotAConnector(name) => BuildFault::NotAConnector(name@),
            BuildError::Connector(e) => BuildFault::Connector(e@),
            BuildError::Engine(e) => BuildFault::Engine(e@),
            BuildError::EngineAlreadyAdded => BuildFault::EngineAlreadyAdded,
        }
    }
}

/// The first of the first `n` added names that repeats an existing name or
/// an added name before it.
pub open spec fn first_duplicate(existing: Seq<Seq<char>>, added: Seq<Seq<char>>, n: int) -> Option<
    Seq<char>,
>
    decreases n,
{
    if n <= 0 {
        None
    } else {
        match first_duplicate(existing, added, n - 1) {
            Some(name) => Some(name),
            None => if (existing + added.take(n - 1)).contains(added[n - 1]) {
                Some(added[n - 1])
            } else {
                None
            },
        }
    }
}

proof fn lemma_duplicate_stays(existing: Seq<Seq<char>>, added: Seq<Seq<char>>, k: int, n: int)
    requires
        0 <= k <= n,
        first_duplicate(existing, added, k) is Some,
    ensures
        first_duplicate(existing, added, n) == first_duplicate(existing, added, k),
    decreases n - k,
{
    if k < n {
        lemma_duplicate_stays(existing, added, k, n - 1);
    }
}

proof fn lemma_no_duplicate(existing: Seq<Seq<char>>, added: Seq<Seq<char>>, n: int)
    requires
        0 <= n <= added.len(),
        all_distinct(existing),
        first_duplicate(existing, added, n) is None,
    ensures
        all_distinct(existing + added.take(n)),
    decreases n,
{
    if n > 0 {
        lemma_no_duplicate(existing, added, n - 1);
        let before = existing + added.take(n - 1);
        let now = existing + added.take(n);
        assert(now =~= before.push(added[n - 1]));
        assert forall|i: int, j: int| 0 <= i < j < now.len() implies now[i] != now[j] by {
            if j < before.len() {
                assert(now[i] == before[i] && now[j] == before[j]);
            } else {
                assert(now[i] == before[i]);
                assert(!before.contains(added[n - 1]));
            }
        }
    } else {
        assert(existing + added.take(0) =~= existing);
    }
}

proof fn lemma_all_registered(
    zero_dim: Seq<Seq<char>>,
    one_dim: Seq<Seq<char>>,
    cylinders: Option<Seq<Seq<char>>>,
    connectors: Seq<Seq<char>>,
    entries: Seq<(Seq<char>, ObjectType, int)>,
    n: int,
)
    requires
        0 <= n <= entries.len(),
        forall|k: int|
            0 <= k < entries.len() ==> registered(
                zero_dim,
                one_dim,
                cylinders,
                connectors,
                #[trigger] entries[k],
            ),
    ensures
        first_unregistered(zero_dim, one_dim, cylinders, connectors, entries, n) is None,
    decreases n,
{
    if n > 0 {
        lemma_all_registered(zero_dim, one_dim, cylinders, connectors, entries, n - 1);
    }
}

/// The names that an engine brings into a system: those of its cylinders,
/// then those of its valves.
pub open spec fn engine_object_names(e: Engine) -> Seq<Seq<char>> {
    e.names_view() + Seq::new(e.valves_view().len(), |j: int| e.valves_view()[j].0)
}

/// The entries that an engine brings into a list of objects: its cylinders,
/// then its valves as connectors, which take the places from `base` on.
pub open spec fn engine_entries(e: Engine, base: int) -> Seq<(Seq<char>, ObjectType, int)> {
    Seq::new(e.cylinders_view().len(), |i: int| (e.cylinders_view()[i].0, ObjectType::Cylinder, i))
        + Seq::new(
        e.valves_view().len(),
        |j: int| (e.valves_view()[j].0, ObjectType::Connector, base + j),
    )
}

/// The connector is the valve at place `j` of the engine: it has the valve's
/// name, and its one endpoint is the valve's cylinder.
pub open spec fn is_valve_of(c: Connector, e: Engine, j: int) -> bool {
    &&& c.name_view() == e.valves_view()[j].0
    &&& c.kind_view() == ConnectorKind::Valve
    &&& c.endpoints() == seq![e.cylinders_view()[e.valves_view()[j].1].0]
}

/// The names that the engine of a record brings into a system: those of its
/// cylinders, then those of its valves.
pub open spec fn config_object_names(config: EngineConfig) -> Seq<Seq<char>> {
    let valves = crate::engine::valves_of(config.cylinders@, config.cylinders@.len() as int);
    crate::engine::cylinder_names(config.cylinders@) + Seq::new(valves.len(), |j: int| valves[j].0)
}

/// The names that the layout of a record brings are those that the record
/// brings.
pub proof fn lemma_layout_names(e: Engine, config: EngineConfig)
    requires
        e.lays_out(config),
    ensures
        engine_object_names(e) == config_object_names(config),
{
    let orders = crate::engine::firing_order_of(config.firing_order@)->Ok_0;
    assert(e.names_view() =~= crate::engine::cylinder_names(config.cylinders@));
    assert(engine_object_names(e) =~= config_object_names(config));
}

/// Copies the names of the cylinders and of the valves of an engine.
fn engine_names_list(engine: &Engine) -> (r: Vec<String>)
    ensures
        r.deep_view() == engine_object_names(*engine),
{
    let cylinders = engine.cylinders();
    let valves = engine.valves();
    let mut out: Vec<String> = Vec::new();
    let n: usize = cylinders.len();
    let mut i: usize = 0;
    while i < n
        invariant
            n == cylinders.len(),
            i <= n,
            out.len() == i,
            forall|k: int| 0 <= k < i ==> (#[trigger] out[k])@ == cylinders[k].name@,
        decreases n - i,
    {
        out.push(cylinders[i].name.clone());
        i = i + 1;
    }
    let m: usize = valves.len();
    let mut j: usize = 0;
    while j < m
        invariant
            n == cylinders.len(),
            m == valves.len(),
            j <= m,
            out.len() == n + j,
            forall|k: int| 0 <= k < n ==> (#[trigger] out[k])@ == cylinders[k].name@,
            forall|k: int| 0 <= k < j ==> (#[trigger] out[n + k])@ == valves[k].name@,
        decreases m - j,
    {
        out.push(valves[j].name.clone());
        j = j + 1;
    }
    proof {
        let want = engine_object_names(*engine);
        assert(out.deep_view().len() == want.len());
        assert forall|k: int| 0 <= k < want.len() implies out.deep_view()[k] == want[k] by {
            if k < n {
                assert(out[k]@ == cylinders[k].name@);
                assert(engine.cylinders_view()[k] == cylinders[k].deep_view());
            } else {
                assert(out[n + (k - n)]@ == valves[k - n].name@);
                assert(engine.valves_view()[k - n] == valves[k - n].deep_view());
            }
        }
        assert(out.deep_view() =~= want);
    }
    out
}

/// Copies the names of a list of objects.
fn entry_names_list(objs: &Vec<ObjectInfo>) -> (r: Vec<String>)
    ensures
        r.deep_view() == entry_names(entries_of(objs@)),
{
    let mut out: Vec<String> = Vec::new();
    let n: usize = objs.len();
    let mut i: usize = 0;
    while i < n
        invariant
            n == objs.len(),
            i <= n,
            out.len() == i,
            forall|k: int| 0 <= k < i ==> (#[trigger] out[k])@ == objs[k].name@,
        decreases n - i,
    {
        out.push(objs[i].name.clone());
        i = i + 1;
    }
    assert(out.deep_view() =~= entry_names(entries_of(objs@)));
    out
}

/// Finds the first of the added names that repeats an existing name or an
/// added name before it.
fn find_duplicate(existing: Vec<String>, added: &Vec<String>) -> (r: Option<String>)
    ensures
        match r {
            Some(name) => first_duplicate(
                existing.deep_view(),
                added.deep_view(),
                added.len() as int,
            ) == Some(name@),
            None => first_duplicate(existing.deep_view(), added.deep_view(), added.len() as int)
                is None,
        },
{
    let ghost base = existing.deep_view();
    let mut seen = existing;
    let n: usize = added.len();
    let mut i: usize = 0;
    assert(base + added.deep_view().take(0) =~= base);
    while i < n
        invariant
            n == added.len(),
            i <= n,
            base == existing.deep_view(),
            seen.deep_view() == base + added.deep_view().take(i as int),
            first_duplicate(base, added.deep_view(), i as int) is None,
        decreases n - i,
    {
        if position(&seen, added[i].as_str()).is_some() {
            proof {
                let list = added.deep_view();
                assert(list[i as int] == added[i as int]@);
                assert((base + list.take(i as int)).contains(list[i as int]));
                assert(first_duplicate(base, list, i as int) is None);
                assert(first_duplicate(base, list, i + 1) == Some(list[i as int]));
                lemma_duplicate_stays(base, list, i + 1, n as int);
            }
            return Some(added[i].clone());
        }
        let ghost was = seen.deep_view();
        seen.push(added[i].clone());
        proof {
            assert(seen.deep_view() =~= was.push(added[i as int]@));
            assert(base + added.deep_view().take(i + 1) =~= was.push(added[i as int]@));
        }
        i = i + 1;
    }
    None
}

/// Enters the cylinders of an engine into a list of objects.
fn register_cylinders(
    objs: &mut Vec<ObjectInfo>,
    cylinders: &Vec<CylinderLayout>,
    species: &Vec<String>,
)
    requires
        fits(species.len() + 5),
    ensures
        final(objs).len() == old(objs).len() + cylinders.len(),
        forall|k: int| 0 <= k < old(objs).len() ==> (#[trigger] final(objs)[k]) == old(objs)[k],
        forall|i: int|
            0 <= i < cylinders.len() ==> {
                let info = #[trigger] final(objs)[old(objs).len() + i];
                &&& info.entry() == (cylinders[i].name@, ObjectType::Cylinder, i)
                &&& info.stored_data.wf()
                &&& info.stored_data.header_view() == cylinder_header(
                    species.deep_view(),
                    cylinders[i].store_species,
                )
                &&& info.stored_data.width() == cylinder_columns(
                    species.len() as nat,
                    cylinders[i].store_species,
                )
            },
{
    let n: usize = cylinders.len();
    let mut i: usize = 0;
    while i < n
        invariant
            n == cylinders.len(),
            i <= n,
            fits(species.len() + 5),
            objs.len() == old(objs).len() + i,
            forall|k: int| 0 <= k < old(objs).len() ==> (#[trigger] objs[k]) == old(objs)[k],
            forall|j: int|
                0 <= j < i ==> {
                    let info = #[trigger] objs[old(objs).len() + j];
                    &&& info.entry() == (cylinders[j].name@, ObjectType::Cylinder, j)
                    &&& info.stored_data.wf()
                    &&& info.stored_data.header_view() == cylinder_header(
                        species.deep_view(),
                        cylinders[j].store_species,
                    )
                    &&& info.stored_data.width() == cylinder_columns(
                        species.len() as nat,
                        cylinders[j].store_species,
                    )
                },
        decreases n - i,
    {
        let c = &cylinders[i];
        proof {
            lemma_fits_narrower(5, species.len() + 5);
        }
        let header = cylinder_headers(species, c.store_species);
        let width = cylinder_num_storable_variables(species.len(), c.store_species);
        objs.push(
            ObjectInfo::new(
                c.name.clone(),
                ObjectType::Cylinder,
                i,
                StoreData::new(header.as_str(), width),
            ),
        );
        i = i + 1;
    }
}

/// Enters the valves of an engine into a list of objects and into the list
/// of connectors.
fn register_valves(
    objs: &mut Vec<ObjectInfo>,
    connectors: &mut Vec<Connector>,
    engine: &Engine,
)
    requires
        engine.wf(),
    ensures
        final(objs).len() == old(objs).len() + engine.valves_view().len(),
        final(connectors).len() == old(connectors).len() + engine.valves_view().len(),
        forall|k: int| 0 <= k < old(objs).len() ==> (#[trigger] final(objs)[k]) == old(objs)[k],
        forall|k: int|
            0 <= k < old(connectors).len() ==> (#[trigger] final(connectors)[k]) == old(connectors)[k],
        forall|j: int|
            0 <= j < engine.valves_view().len() ==> {
                let info = #[trigger] final(objs)[old(objs).len() + j];
                &&& info.entry() == (
                    engine.valves_view()[j].0,
                    ObjectType::Connector,
                    old(connectors).len() + j,
                )
                &&& info.stored_data.wf()
                &&& info.stored_data.header_view() == header_of(SampledKind::Valve)
                &&& info.stored_data.width() == 5
            },
        forall|j: int|
            0 <= j < engine.valves_view().len() ==> is_valve_of(
                #[trigger] final(connectors)[old(connectors).len() + j],
                *engine,
                j,
            ),
{
    let valves = engine.valves();
    let cylinders = engine.cylinders();
    let kind = SampledKind::Valve;
    let m: usize = valves.len();
    let mut j: usize = 0;
    while j < m
        invariant
            engine.wf(),
            valves.deep_view() == engine.valves_view(),
            cylinders.deep_view() == engine.cylinders_view(),
            kind == SampledKind::Valve,
            m == valves.len(),
            j <= m,
            objs.len() == old(objs).len() + j,
            connectors.len() == old(connectors).len() + j,
            forall|k: int| 0 <= k < old(objs).len() ==> (#[trigger] objs[k]) == old(objs)[k],
            forall|k: int|
                0 <= k < old(connectors).len() ==> (#[trigger] connectors[k]) == old(connectors)[k],
            forall|t: int|
                0 <= t < j ==> {
                    let info = #[trigger] objs[old(objs).len() + t];
                    &&& info.entry() == (
                        engine.valves_view()[t].0,
                        ObjectType::Connector,
                        old(connectors).len() + t,
                    )
                    &&& info.stored_data.wf()
                    &&& info.stored_data.header_view() == header_of(SampledKind::Valve)
                    &&& info.stored_data.width() == 5
                },
            forall|t: int|
                0 <= t < j ==> is_valve_of(
                    #[trigger] connectors[old(connectors).len() + t],
                    *engine,
                    t,
                ),
        decreases m - j,
    {
        let v = &valves[j];
        proof {
            assert(engine.valves_view()[j as int] == v.deep_view());
            assert(v.cylinder < cylinders.len());
            assert(engine.cylinders_view()[v.cylinder as int] == cylinders[v.cylinder as int].deep_view());
        }
        let header = kind.get_headers();
        proof {
            lemma_fits_small(5);
        }
        let index: usize = connectors.len();
        objs.push(
            ObjectInfo::new(
                v.name.clone(),
                ObjectType::Connector,
                index,
                StoreData::new(header.as_str(), kind.num_storable_variables()),
            ),
        );
        connectors.push(Connector::valve(v.name.as_str(), cylinders[v.cylinder].name.as_str()));
        j = j + 1;
    }
}

/// Builds a system piece by piece.
pub struct SystemBuilder {
    objs_info: Vec<ObjectInfo>,
    engine: Option<Engine>,
    zero_dim: Vec<String>,
    one_dim: Vec<String>,
    connector: Vec<Connector>,
}

impl SystemBuilder {
    /// The list of objects as plain values: name, kind and place.
    pub closed spec fn entries(&self) -> Seq<(Seq<char>, ObjectType, int)> {
        entries_of(self.objs_info@)
    }

    /// The layout of the engine, where one was added.
    pub closed spec fn engine_view(&self) -> Option<Engine> {
        self.engine
    }

    /// The names of the zero-dimensional objects.
    pub closed spec fn zero_dim_names(&self) -> Seq<Seq<char>> {
        self.zero_dim.deep_view()
    }

    /// The names of the one-dimensional objects.
    pub closed spec fn one_dim_names(&self) -> Seq<Seq<char>> {
        self.one_dim.deep_view()
    }

    /// The connectors.
    pub closed spec fn connectors(&self) -> Seq<Connector> {
        self.connector@
    }

    /// The header of the samples of the object at place `k` of the list.
    pub closed spec fn header(&self, k: int) -> Seq<char> {
        self.objs_info[k].stored_data.header_view()
    }

    /// How many values a sample of the object at place `k` has.
    pub closed spec fn width(&self, k: int) -> int {
        self.objs_info[k].stored_data.width()
    }

    /// The names of the objects, in the order in which they were added.
    pub open spec fn names(&self) -> Seq<Seq<char>> {
        entry_names(self.entries())
    }

    /// Every table of samples is a table as it should be.
    pub closed spec fn stores_wf(&self) -> bool {
        forall|k: int|
            0 <= k < self.objs_info.len() ==> (#[trigger] self.objs_info[k]).stored_data.wf()
    }

    /// No name stands twice in the list of objects, and every entry points at
    /// an object of its name.
    pub open spec fn wf(&self) -> bool {
        &&& self.stores_wf()
        &&& all_distinct(self.names())
        &&& forall|k: int|
            0 <= k < self.entries().len() ==> registered(
                self.zero_dim_names(),
                self.one_dim_names(),
                engine_names(self.engine_view()),
                connector_names(self.connectors()),
                #[trigger] self.entries()[k],
            )
        &&& self.engine_view() matches Some(e) ==> e.wf()
    }

    /// The list of objects of `self` begins with the list of `other`, entry
    /// by entry, with the same headers and widths.
    pub open spec fn extends(&self, other: &Self) -> bool {
        &&& other.entries().len() <= self.entries().len()
        &&& forall|k: int|
            0 <= k < other.entries().len() ==> #[trigger] self.entries()[k] == other.entries()[k]
        &&& forall|k: int|
            0 <= k < other.entries().len() ==> #[trigger] self.header(k) == other.header(k)
        &&& forall|k: int|
            0 <= k < other.entries().len() ==> #[trigger] self.width(k) == other.width(k)
    }

    /// Makes a builder with no object in it.
    pub fn new() -> (r: SystemBuilder)
        ensures
            r.wf(),
            r.entries().len() == 0,
            r.engine_view() is None,
            r.zero_dim_names().len() == 0,
            r.one_dim_names().len() == 0,
            r.connectors().len() == 0,
    {
        SystemBuilder {
            objs_info: Vec::new(),
            engine: None,
            zero_dim: Vec::new(),
            one_dim: Vec::new(),
            connector: Vec::new(),
        }
    }

    /// Tells whether an object of the given name was added.
    pub fn does_it_exist(&self, obj_name: &str) -> (r: bool)
        ensures
            r == self.names().contains(obj_name@),
    {
        proof {
            lemma_position_of(self.names(), obj_name@);
        }
        find_entry(&self.objs_info, obj_name).is_some()
    }

    /// The list of objects.
    pub fn objs_info(&self) -> (r: &Vec<ObjectInfo>)
        ensures
            entries_of(r@) == self.entries(),
    {
        &self.objs_info
    }

    /// The layout of the engine, where one was added.
    pub fn engine(&self) -> (r: Option<&Engine>)
        ensures
            match r {
                Some(e) => self.engine_view() == Some(*e),
                None => self.engine_view() is None,
            },
    {
        match &self.engine {
            Some(eng) => Some(eng),
            None => None,
        }
    }

    /// The connectors.
    pub fn connector(&self) -> (r: &Vec<Connector>)
        ensures
            r@ == self.connectors(),
    {
        &self.connector
    }

    fn add_zero_dim(&mut self, elem_name: &str, kind: SampledKind) -> (r: Result<
        usize,
        BuildError,
    >)
        requires
            old(self).wf(),
        ensures
            final(self).wf(),
            final(self).engine_view() == old(self).engine_view(),
            final(self).one_dim_names() == old(self).one_dim_names(),
            final(self).connectors() == old(self).connectors(),
            final(self).extends(old(self)),
            match r {
                Ok(i) => {
                    &&& !old(self).names().contains(elem_name@)
                    &&& i == old(self).zero_dim_names().len()
                    &&& final(self).zero_dim_names() == old(self).zero_dim_names().push(elem_name@)
                    &&& final(self).entries() == old(self).entries().push(
                        (elem_name@, ObjectType::ZeroDim, i as int),
                    )
                    &&& final(self).header(old(self).entries().len() as int) == header_of(kind)
                    &&& final(self).width(old(self).entries().len() as int) == columns_of(kind)
                },
                Err(e) => {
                    &&& old(self).names().contains(elem_name@)
                    &&& e@ == BuildFault::DuplicateName(elem_name@)
                    &&& final(self).zero_dim_names() == old(self).zero_dim_names()
                    &&& final(self).entries() == old(self).entries()
                },
            },
    {
        if self.does_it_exist(elem_name) {
            return Err(BuildError::DuplicateName(elem_name.to_owned()));
        }
        let i: usize = self.zero_dim.len();
        let header = kind.get_headers();
        proof {
            lemma_fits_small(columns_of(kind));
        }
        let store = StoreData::new(header.as_str(), kind.num_storable_variables());
        let ghost before = self.entries();
        let ghost zero = self.zero_dim.deep_view();
        self.objs_info.push(ObjectInfo::new(elem_name.to_owned(), ObjectType::ZeroDim, i, store));
        self.zero_dim.push(elem_name.to_owned());
        proof {
            let added = (elem_name@, ObjectType::ZeroDim, i as int);
            assert(self.entries() =~= before.push(added));
            assert(self.zero_dim.deep_view() =~= zero.push(elem_name@));
            lemma_pushed_name_distinct(before, added);
            assert forall|k: int| 0 <= k < self.entries().len() implies registered(
                self.zero_dim_names(),
                self.one_dim_names(),
                engine_names(self.engine_view()),
                connector_names(self.connectors()),
                #[trigger] self.entries()[k],
            ) by {
                if k < before.len() {
                    assert(self.entries()[k] == before[k]);
                    assert(registered(
                        zero,
                        old(self).one_dim_names(),
                        engine_names(old(self).engine_view()),
                        connector_names(old(self).connectors()),
                        before[k],
                    ));
                }
            }
        }
        Ok(i)
    }

    /// Adds an environment: a control volume of constant pressure,
    /// temperature and composition. The result is its place among the
    /// zero-dimensional objects. A name that is taken is refused.
    pub fn add_environment(&mut self, elem_name: &str) -> (r: Result<usize, BuildError>)
        requires
            old(self).wf(),
        ensures
            final(self).wf(),
            final(self).engine_view() == old(self).engine_view(),
            final(self).one_dim_names() == old(self).one_dim_names(),
            final(self).connectors() == old(self).connectors(),
            final(self).extends(old(self)),
            match r {
                Ok(i) => {
                    &&& !old(self).names().contains(elem_name@)
                    &&& i == old(self).zero_dim_names().len()
                    &&& final(self).zero_dim_names() == old(self).zero_dim_names().push(elem_name@)
                    &&& final(self).entries() == old(self).entries().push(
                        (elem_name@, ObjectType::ZeroDim, i as int),
                    )
                    &&& final(self).header(old(self).entries().len() as int) == header_of(
                        SampledKind::Environment,
                    )
                    &&& final(self).width(old(self).entries().len() as int) == 2
                },
                Err(e) => {
                    &&& old(self).names().contains(elem_name@)
                    &&& e@ == BuildFault::DuplicateName(elem_name@)
                    &&& final(self).zero_dim_names() == old(self).zero_dim_names()
                    &&& final(self).entries() == old(self).entries()
                },
            },
    {
        self.add_zero_dim(elem_name, SampledKind::Environment)
    }

    /// Adds a reservoir: a control volume of fixed size. The result is its
    /// place among the zero-dimensional objects. A name that is taken is
    /// refused.
    pub fn add_reservoir(&mut self, elem_name: &str) -> (r: Result<usize, BuildError>)
        requires
            old(self).wf(),
        ensures
            final(self).wf(),
            final(self).engine_view() == old(self).engine_view(),
            final(self).one_dim_names() == old(self).one_dim_names(),
            final(self).connectors() == old(self).connectors(),
            final(self).extends(old(self)),
            match r {
                Ok(i) => {
                    &&& !old(self).names().contains(elem_name@)
                    &&& i == old(self).zero_dim_names().len()
                    &&& final(self).zero_dim_names() == old(self).zero_dim_names().push(elem_name@)
                    &&& final(self).entries() == old(self).entries().push(
                        (elem_name@, ObjectType::ZeroDim, i as int),
                    )
                    &&& final(self).header(old(self).entries().len() as int) == header_of(
                        SampledKind::Reservoir,
                    )
                    &&& final(self).width(old(self).entries().len() as int) == 3
                },
                Err(e) => {
                    &&& old(self).names().contains(elem_name@)
                    &&& e@ == BuildFault::DuplicateName(elem_name@)
                    &&& final(self).zero_dim_names() == old(self).zero_dim_names()
                    &&& final(self).entries() == old(self).entries()
                },
            },
    {
        self.add_zero_dim(elem_name, SampledKind::Reservoir)
    }

    /// Adds an orifice between the two named objects. The result is its place
    /// among the connectors. A name that is taken is refused, and so is any
    /// number of endpoints but two; the name is tested first.
    pub fn add_orifice(&mut self, elem_name: &str, conn: Vec<String>) -> (r: Result<
        usize,
        BuildError,
    >)
        requires
            old(self).wf(),
        ensures
            final(self).wf(),
            final(self).engine_view() == old(self).engine_view(),
            final(self).zero_dim_names() == old(self).zero_dim_names(),
            final(self).one_dim_names() == old(self).one_dim_names(),
            final(self).extends(old(self)),
            match r {
                Ok(i) => {
                    &&& !old(self).names().contains(elem_name@)
                    &&& conn.len() == 2
                    &&& i == old(self).connectors().len()
                    &&& final(self).connectors().len() == i + 1
                    &&& final(self).connectors().take(i as int) == old(self).connectors()
                    &&& final(self).connectors()[i as int].name_view() == elem_name@
                    &&& final(self).connectors()[i as int].kind_view() == ConnectorKind::Orifice
                    &&& final(self).connectors()[i as int].endpoints() == conn.deep_view()
                    &&& final(self).entries() == old(self).entries().push(
                        (elem_name@, ObjectType::Connector, i as int),
                    )
                    &&& final(self).header(old(self).entries().len() as int) == header_of(
                        SampledKind::Orifice,
                    )
                    &&& final(self).width(old(self).entries().len() as int) == 2
                },
                Err(e) => {
                    &&& final(self).connectors() == old(self).connectors()
                    &&& final(self).entries() == old(self).entries()
                    &&& if old(self).names().contains(elem_name@) {
                        e@ == BuildFault::DuplicateName(elem_name@)
                    } else {
                        conn.len() != 2 && e@ == BuildFault::Connector(
                            ConnectorFault::WrongArity(conn.len() as int),
                        )
                    }
                },
            },
    {
        if self.does_it_exist(elem_name) {
            return Err(BuildError::DuplicateName(elem_name.to_owned()));
        }
        let made = match Connector::orifice(elem_name, conn) {
            Ok(c) => c,
            Err(e) => {
                return Err(BuildError::Connector(e));
            },
        };
        let i: usize = self.connector.len();
        let kind = SampledKind::Orifice;
        let header = kind.get_headers();
        proof {
            lemma_fits_small(2);
        }
        let store = StoreData::new(header.as_str(), kind.num_storable_variables());
        let ghost before = self.entries();
        let ghost names = connector_names(self.connector@);
        self.objs_info.push(
            ObjectInfo::new(elem_name.to_owned(), ObjectType::Connector, i, store),
        );
        self.connector.push(made);
        proof {
            let added = (elem_name@, ObjectType::Connector, i as int);
            assert(self.entries() =~= before.push(added));
            assert(connector_names(self.connector@) =~= names.push(elem_name@));
            assert(self.connectors().take(i as int) =~= old(self).connectors());
            lemma_pushed_name_distinct(before, added);
            assert forall|k: int| 0 <= k < self.entries().len() implies registered(
                self.zero_dim_names(),
                self.one_dim_names(),
                engine_names(self.engine_view()),
                connector_names(self.connectors()),
                #[trigger] self.entries()[k],
            ) by {
                if k < before.len() {
                    assert(self.entries()[k] == before[k]);
                    assert(registered(
                        old(self).zero_dim_names(),
                        old(self).one_dim_names(),
                        engine_names(old(self).engine_view()),
                        names,
                        before[k],
                    ));
                }
            }
        }
        Ok(i)
    }

    /// Why the engine of a record is not added, if it is not: the builder
    /// has an engine already, the record gives no layout, or the engine
    /// brings a name that is taken.
    pub open spec fn engine_refusal(&self, config: EngineConfig, species: Seq<Seq<char>>) -> Option<
        BuildFault,
    > {
        let added = config_object_names(config);
        if self.engine_view() is Some {
            Some(BuildFault::EngineAlreadyAdded)
        } else {
            match crate::engine::engine_fault(config, species) {
                Some(fault) => Some(BuildFault::Engine(fault)),
                None => match first_duplicate(self.names(), added, added.len() as int) {
                    Some(name) => Some(BuildFault::DuplicateName(name)),
                    None => None,
                },
            }
        }
    }

    /// Adds the engine of a record, for a gas of the given species: its
    /// cylinders, and its valves as connectors, each joined to its cylinder.
    ///
    /// The engine is added whole or not at all. It is refused where the
    /// builder has an engine already, where the record gives no layout, and
    /// where a cylinder or a valve has a name that is taken.
    pub fn add_engine(&mut self, config: &EngineConfig, species: &SpeciesTable) -> (r: Result<
        (),
        BuildError,
    >)
        requires
            old(self).wf(),
            fits(species@.len() as int + 5),
        ensures
            final(self).wf(),
            final(self).zero_dim_names() == old(self).zero_dim_names(),
            final(self).one_dim_names() == old(self).one_dim_names(),
            final(self).extends(old(self)),
            match r {
                Ok(_) => {
                    let base = old(self).connectors().len() as int;
                    let first = old(self).entries().len() as int;
                    &&& old(self).engine_refusal(*config, species@) is None
                    &&& final(self).engine_view() matches Some(e) && {
                        &&& e.lays_out(*config)
                        &&& final(self).entries() == old(self).entries() + engine_entries(e, base)
                        &&& final(self).connectors().len() == base + e.valves_view().len()
                        &&& final(self).connectors().take(base) == old(self).connectors()
                        &&& forall|j: int|
                            0 <= j < e.valves_view().len() ==> is_valve_of(
                                #[trigger] final(self).connectors()[base + j],
                                e,
                                j,
                            )
                        &&& forall|i: int|
                            0 <= i < e.cylinders_view().len() ==> {
                                &&& #[trigger] final(self).header(first + i) == cylinder_header(
                                    species@,
                                    e.cylinders_view()[i].2,
                                )
                                &&& final(self).width(first + i) == cylinder_columns(
                                    species@.len(),
                                    e.cylinders_view()[i].2,
                                )
                            }
                        &&& forall|j: int|
                            0 <= j < e.valves_view().len() ==> {
                                &&& #[trigger] final(self).header(
                                    first + e.cylinders_view().len() + j,
                                ) == header_of(SampledKind::Valve)
                                &&& final(self).width(first + e.cylinders_view().len() + j) == 5
                            }
                    }
                },
                Err(x) => {
                    &&& old(self).engine_refusal(*config, species@) == Some(x@)
                    &&& final(self).engine_view() == old(self).engine_view()
                    &&& final(self).entries() == old(self).entries()
                    &&& final(self).connectors() == old(self).connectors()
                },
            },
    {
        if self.engine.is_some() {
            return Err(BuildError::EngineAlreadyAdded);
        }
        let engine = match Engine::new(config, species) {
            Ok(e) => e,
            Err(x) => {
                return Err(BuildError::Engine(x));
            },
        };
        let added = engine_names_list(&engine);
        proof {
            lemma_layout_names(engine, *config);
        }
        match find_duplicate(entry_names_list(&self.objs_info), &added) {
            Some(name) => {
                return Err(BuildError::DuplicateName(name));
            },
            None => {},
        }
        let ghost before = self.entries();
        let ghost zero = self.zero_dim_names();
        let ghost one = self.one_dim_names();
        let ghost links = self.connectors();
        let ghost base = links.len() as int;
        let ghost ncyl = engine.cylinders_view().len() as int;
        let ghost nval = engine.valves_view().len() as int;
        let ghost mid = self.objs_info@;
        let layout = engine.cylinders();
        register_cylinders(&mut self.objs_info, layout, species.species());
        let ghost half = self.objs_info@;
        register_valves(&mut self.objs_info, &mut self.connector, &engine);
        proof {
            let now = self.entries();
            let want = before + engine_entries(engine, base);
            assert(now.len() == want.len());
            assert forall|k: int| 0 <= k < now.len() implies now[k] == want[k] by {
                if k < before.len() {
                    assert(self.objs_info[k] == half[k]);
                    assert(half[k] == mid[k]);
                } else if k < before.len() + ncyl {
                    let i = k - before.len();
                    assert(self.objs_info[k] == half[before.len() + i]);
                    assert(engine.cylinders_view()[i] == layout[i].deep_view());
                } else {
                    let j = k - before.len() - ncyl;
                    assert(self.objs_info[k] == self.objs_info[half.len() + j]);
                }
            }
            assert(now =~= want);
            assert(self.connectors().take(base) =~= links);
            let names = entry_names(now);
            let old_names = entry_names(before);
            let object_names = engine_object_names(engine);
            assert(names =~= old_names + object_names.take(object_names.len() as int)) by {
                assert(object_names.take(object_names.len() as int) =~= object_names);
                assert(names.len() == old_names.len() + object_names.len());
                assert forall|k: int| 0 <= k < names.len() implies names[k] == (old_names
                    + object_names)[k] by {
                    assert(names[k] == now[k].0);
                }
            }
            lemma_no_duplicate(old_names, object_names, object_names.len() as int);
        }
        self.engine = Some(engine);
        proof {
            let now = self.entries();
            let cyl = engine_names(self.engine_view());
            let conn = connector_names(self.connectors());
            assert forall|k: int| 0 <= k < now.len() implies registered(
                zero,
                one,
                cyl,
                conn,
                #[trigger] now[k],
            ) by {
                if k < before.len() {
                    assert(now[k] == before[k]);
                    assert(registered(zero, one, None, connector_names(links), before[k]));
                    if before[k].1 == ObjectType::Connector {
                        assert(self.connectors()[before[k].2] == links[before[k].2]);
                    }
                } else if k < before.len() + ncyl {
                    let i = k - before.len();
                    assert(now[k] == engine_entries(engine, base)[i]);
                } else {
                    let j = k - before.len() - ncyl;
                    assert(now[k] == engine_entries(engine, base)[ncyl + j]);
                    assert(is_valve_of(self.connectors()[base + j], engine, j));
                }
            }
            assert forall|i: int| 0 <= i < ncyl implies {
                &&& #[trigger] self.header(before.len() + i) == cylinder_header(
                    species@,
                    engine.cylinders_view()[i].2,
                )
                &&& self.width(before.len() + i) == cylinder_columns(
                    species@.len(),
                    engine.cylinders_view()[i].2,
                )
            } by {
                assert(self.objs_info[before.len() + i] == half[before.len() + i]);
                assert(engine.cylinders_view()[i] == layout[i].deep_view());
            }
            assert forall|j: int| 0 <= j < nval implies {
                &&& #[trigger] self.header(before.len() + ncyl + j) == header_of(
                    SampledKind::Valve,
                )
                &&& self.width(before.len() + ncyl + j) == 5
            } by {
                assert(self.objs_info[before.len() + ncyl + j] == self.objs_info[half.len() + j]);
            }
            assert forall|k: int| 0 <= k < before.len() implies {
                &&& #[trigger] self.entries()[k] == old(self).entries()[k]
                &&& #[trigger] self.header(k) == old(self).header(k)
                &&& #[trigger] self.width(k) == old(self).width(k)
            } by {
                assert(self.objs_info[k] == half[k]);
                assert(half[k] == mid[k]);
            }
            assert forall|k: int| 0 <= k < self.objs_info.len() implies (
            #[trigger] self.objs_info[k]).stored_data.wf() by {
                if k < before.len() {
                    assert(self.objs_info[k] == half[k]);
                    assert(half[k] == mid[k]);
                } else if k < before.len() + ncyl {
                    assert(self.objs_info[k] == half[before.len() + (k - before.len())]);
                } else {
                    assert(self.objs_info[k] == self.objs_info[half.len() + (k - half.len())]);
                }
            }
        }
        Ok(())
    }

    /// The connector that a call of `connect_from_to` would join to the
    /// object: its place among the connectors. Both names must be names of
    /// objects, the object's name being tested first, and the first must be
    /// the name of a connector.
    pub open spec fn joint(&self, connector: Seq<char>, elem_name: Seq<char>) -> Result<
        int,
        BuildFault,
    > {
        if !self.names().contains(elem_name) {
            Err(BuildFault::UnknownObject(elem_name))
        } else {
            match position_of(self.names(), connector) {
                None => Err(BuildFault::UnknownObject(connector)),
                Some(k) => if self.entries()[k].1 == ObjectType::Connector {
                    Ok(self.entries()[k].2)
                } else {
                    Err(BuildFault::NotAConnector(connector))
                },
            }
        }
    }

    /// Joins the named connector to the named object: the object becomes one
    /// more endpoint of the connector.
    ///
    /// Nothing changes where a name is not known or the first is no
    /// connector. Else the endpoint is added, and the call fails where the
    /// connector then joins another number of objects than two.
    pub fn connect_from_to(&mut self, connector: &str, elem_name: &str) -> (r: Result<
        (),
        BuildError,
    >)
        requires
            old(self).wf(),
        ensures
            final(self).wf(),
            final(self).engine_view() == old(self).engine_view(),
            final(self).zero_dim_names() == old(self).zero_dim_names(),
            final(self).one_dim_names() == old(self).one_dim_names(),
            final(self).entries() == old(self).entries(),
            final(self).extends(old(self)),
            final(self).connectors().len() == old(self).connectors().len(),
            match old(self).joint(connector@, elem_name@) {
                Err(fault) => {
                    &&& r matches Err(e) && e@ == fault
                    &&& final(self).connectors() == old(self).connectors()
                },
                Ok(i) => {
                    &&& 0 <= i < old(self).connectors().len()
                    &&& forall|c: int|
                        0 <= c < old(self).connectors().len() && c != i ==> #[trigger] final(self).connectors()[c] == old(self).connectors()[c]
                    &&& final(self).connectors()[i].name_view() == old(self).connectors()[i].name_view()
                    &&& final(self).connectors()[i].kind_view() == old(self).connectors()[i].kind_view()
                    &&& final(self).connectors()[i].endpoints() == old(self).connectors()[i].endpoints().push(elem_name@)
                    &&& match r {
                        Ok(_) => final(self).connectors()[i].complete(),
                        Err(e) => !final(self).connectors()[i].complete() && e@
                            == BuildFault::Connector(
                            ConnectorFault::WrongArity(
                                final(self).connectors()[i].endpoints().len() as int,
                            ),
                        ),
                    }
                },
            },
    {
        if !self.does_it_exist(elem_name) {
            return Err(BuildError::UnknownObject(elem_name.to_owned()));
        }
        let k: usize = match find_entry(&self.objs_info, connector) {
            Some(k) => k,
            None => {
                return Err(BuildError::UnknownObject(connector.to_owned()));
            },
        };
        let i: usize = self.objs_info[k].index;
        match self.objs_info[k].obj_type {
            ObjectType::Connector => {},
            _ => {
                return Err(BuildError::NotAConnector(connector.to_owned()));
            },
        }
        proof {
            assert(self.entries()[k as int] == self.objs_info[k as int].entry());
            assert(registered(
                self.zero_dim_names(),
                self.one_dim_names(),
                engine_names(self.engine_view()),
                connector_names(self.connectors()),
                self.entries()[k as int],
            ));
        }
        let ghost names = connector_names(self.connector@);
        let r = self.connector[i].connect_to(elem_name);
        proof {
            assert(connector_names(self.connector@) =~= names);
        }
        match r {
            Ok(_) => Ok(()),
            Err(e) => Err(BuildError::Connector(e)),
        }
    }

    /// Makes the system of what was added.
    ///
    /// The names are resolved into index tables. The system is refused where
    /// no connector touches one of the control volumes, and where a connector
    /// names an endpoint that is no control volume: the error is the first
    /// such control volume or endpoint, control volumes of zero dimensions
    /// first, then endpoints, then cylinders.
    pub fn build_system(self) -> (r: Result<System, SystemError>)
        requires
            self.wf(),
        ensures
            match r {
                Ok(sys) => {
                    &&& sys.wf()
                    &&& sys.entries() == self.entries()
                    &&& sys.engine_view() == self.engine_view()
                    &&& sys.zero_dim_names() == self.zero_dim_names()
                    &&& sys.one_dim_names() == self.one_dim_names()
                    &&& sys.connectors() == self.connectors()
                    &&& sys.iterations() == 0
                    &&& sys.cycle_start_view() == 0
                    &&& sys.cycle_view() == 0
                    &&& sys.steps_view() == 0
                    &&& sys.times().len() == 0
                    &&& forall|k: int|
                        0 <= k < self.entries().len() ==> (#[trigger] sys.samples(k)).len() == 0
                    &&& forall|k: int|
                        0 <= k < self.entries().len() ==> #[trigger] sys.header(k) == self.header(
                            k,
                        )
                    &&& forall|k: int|
                        0 <= k < self.entries().len() ==> #[trigger] sys.width(k) == self.width(k)
                },
                Err(e) => {
                    &&& system_fault(
                        self.entries(),
                        engine_names(self.engine_view()),
                        self.zero_dim_names(),
                        self.one_dim_names(),
                        self.connectors(),
                    ) == Some(e@)
                    &&& e@ is NotConnected || e@ is UnknownEndpoint
                },
            },
    {
        proof {
            lemma_all_registered(
                self.zero_dim_names(),
                self.one_dim_names(),
                engine_names(self.engine_view()),
                connector_names(self.connectors()),
                self.entries(),
                self.entries().len() as int,
            );
        }
        System::new(self.objs_info, self.engine, self.zero_dim, self.one_dim, self.connector)
    }
}

proof fn lemma_fits_small(width: int)
    requires
        0 <= width <= 5,
    ensures
        fits(width),
{
    assert(width * MAX_ARRAY_LEN * 16 <= 5 * MAX_ARRAY_LEN * 16) by (nonlinear_arith)
        requires
            0 <= width <= 5,
            MAX_ARRAY_LEN >= 0,
    ;
}

proof fn lemma_fits_narrower(narrow: int, wide: int)
    requires
        0 <= narrow <= wide,
        fits(wide),
    ensures
        fits(narrow),
        wide <= usize::MAX,
{
    assert(narrow * MAX_ARRAY_LEN * 16 <= wide * MAX_ARRAY_LEN * 16) by (nonlinear_arith)
        requires
            0 <= narrow <= wide,
            MAX_ARRAY_LEN >= 0,
    ;
    assert(wide <= wide * MAX_ARRAY_LEN * 16) by (nonlinear_arith)
        requires
            0 <= wide,
            MAX_ARRAY_LEN >= 1,
    ;
}

proof fn lemma_pushed_name_distinct(
    before: Seq<(Seq<char>, ObjectType, int)>,
    added: (Seq<char>, ObjectType, int),
)
    requires
        all_distinct(entry_names(before)),
        !entry_names(before).contains(added.0),
    ensures
        all_distinct(entry_names(before.push(added))),
{
    let now = entry_names(before.push(added));
    assert forall|i: int, j: int| 0 <= i < j < now.len() implies now[i] != now[j] by {
        assert(now[i] == entry_names(before)[i]);
        if j < before.len() {
            assert(now[j] == entry_names(before)[j]);
        } else {
            assert(entry_names(before).contains(now[i]));
        }
    }
}

} // verus!
