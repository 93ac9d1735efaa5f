//! The system: the objects of a simulation, the tables that join them, and
//! the schedule by which they advance.
//!
//! A system owns the names of its control volumes, its connectors and the
//! layout of its engine, and one table of samples per object. When it is made
//! the names are resolved into index tables, once; afterwards nothing is
//! looked up by name while the system runs, and no lookup can fail.

use vstd::prelude::*;
use vstd::string::*;
use crate::connector::Connector;
use crate::engine::Engine;
use crate::names::same_text;
use crate::store::{fits, rows_view, StoreData, StoreError};
use crate::topology::{
    endpoints_of,
    get_connectors_index,
    get_dim_obj_index,
    names_of,
    resolve_all,
    touching,
};
use crate::ObjectType;

verus! {

/// What a system knows of one of its objects: its name, its kind, its place
/// among the objects of that kind, and the samples stored for it.
pub struct ObjectInfo {
    pub name: String,
    pub obj_type: ObjectType,
    pub index: usize,
    pub stored_data: StoreData,
}

impl ObjectInfo {
    /// Puts the four together.
    pub fn new(name: String, obj_type: ObjectType, index: usize, stored_data: StoreData) -> (r:
        ObjectInfo)
        ensures
            r.name == name,
            r.obj_type == obj_type,
            r.index == index,
            r.stored_data == stored_data,
    {
        ObjectInfo { name, obj_type, index, stored_data }
    }

    /// The entry as plain values: name, kind and place.
    pub open spec fn entry(&self) -> (Seq<char>, ObjectType, int) {
        (self.name@, self.obj_type, self.index as int)
    }
}

/// Why a system refused.
#[derive(Debug, Clone)]
pub enum SystemError {
    /// No connector touches the named object.
    NotConnected(String),
    /// A connector names an endpoint that is no object of the system.
    UnknownEndpoint(String),
    /// The named entry of the list of objects points at no object of its
    /// name, or no entry has the name that was asked for.
    UnknownObject(String),
    /// A step brought not one row of samples per object.
    SampleCount { expected: usize, found: usize },
    /// A table of samples refused.
    Store(StoreError),
}

/// The model of a `SystemError`.
pub enum SystemFault {
    NotConnected(Seq<char>),
    UnknownEndpoint(Seq<char>),
    UnknownObject(Seq<char>),
    SampleCount { expected: int, found: int },
    Store(StoreError),
}

impl View for SystemError {
    type V = SystemFault;

    open spec fn view(&self) -> SystemFault {
        match self {
            SystemError::NotConnected(name) => SystemFault::NotConnected(name@),
            SystemError::UnknownEndpoint(name) => SystemFault::UnknownEndpoint(name@),
            SystemError::UnknownObject(name) => SystemFault::UnknownObject(name@),
            SystemError::SampleCount { expected, found } => SystemFault::SampleCount {
                expected: *expected as int,
                found: *found as int,
            },
            SystemError::Store(e) => SystemFault::Store(*e),
        }
    }
}

impl SystemError {
    /// The error in words.
    pub fn message(&self) -> (r: String)
        ensures
            r@ == match self@ {
                SystemFault::NotConnected(name) => "Object '"@ + name
                    + "' is not connected to anything."@,
                SystemFault::UnknownEndpoint(name) => "Object '"@ + name
                    + "' was not found in the arrays"@,
                SystemFault::UnknownObject(name) => "Object '"@ + name + "' is not known"@,
                SystemFault::SampleCount { .. } =>
                    "a step must bring one row of samples for each object"@,
                SystemFault::Store(StoreError::Full) => "Maximum allowed array length exceeded"@,
                SystemFault::Store(_) => "the samples do not fit their table"@,
            },
    {
        match self {
            SystemError::NotConnected(name) => String::from_str("Object '").concat(
                name.as_str(),
            ).concat("' is not connected to anything."),
            SystemError::UnknownEndpoint(name) => String::from_str("Object '").concat(
                name.as_str(),
            ).concat("' was not found in the arrays"),
            SystemError::UnknownObject(name) => String::from_str("Object '").concat(
                name.as_str(),
            ).concat("' is not known"),
            SystemError::SampleCount { .. } => String::from_str(
                "a step must bring one row of samples for each object",
            ),
            SystemError::Store(StoreError::Full) => String::from_str(
                "Maximum allowed array length exceeded",
            ),
            SystemError::Store(_) => String::from_str("the samples do not fit their table"),
        }
    }
}

/// For each of the named objects, the connectors that touch it.
pub open spec fn links_of(names: Seq<Seq<char>>, endpoints: Seq<Seq<Seq<char>>>) -> Seq<
    Seq<(ObjectType, usize)>,
> {
    Seq::new(names.len(), |i: int| touching(endpoints, names[i], endpoints.len() as int))
}

/// The first of the first `n` names that no connector touches.
pub open spec fn first_unconnected(
    names: Seq<Seq<char>>,
    endpoints: Seq<Seq<Seq<char>>>,
    n: int,
) -> Option<Seq<char>>
    decreases n,
{
    if n <= 0 {
        None
    } else {
        match first_unconnected(names, endpoints, n - 1) {
            Some(name) => Some(name),
            None => if touching(endpoints, names[n - 1], endpoints.len() as int).len() == 0 {
                Some(names[n - 1])
            } else {
                None
            },
        }
    }
}

/// For each connector, the kind and place of each of its endpoints.
pub open spec fn objects_of(
    zero_dim: Seq<Seq<char>>,
    one_dim: Seq<Seq<char>>,
    cylinders: Option<Seq<Seq<char>>>,
    endpoints: Seq<Seq<Seq<char>>>,
) -> Seq<Seq<(ObjectType, usize)>> {
    Seq::new(
        endpoints.len(),
        |c: int|
            match resolve_all(zero_dim, one_dim, cylinders, endpoints[c]) {
                Ok(entries) => entries,
                Err(_) => Seq::empty(),
            },
    )
}

/// The first endpoint, among those of the first `n` connectors, that is no
/// object of the system.
pub open spec fn first_unresolved(
    zero_dim: Seq<Seq<char>>,
    one_dim: Seq<Seq<char>>,
    cylinders: Option<Seq<Seq<char>>>,
    endpoints: Seq<Seq<Seq<char>>>,
    n: int,
) -> Option<Seq<char>>
    decreases n,
{
    if n <= 0 {
        None
    } else {
        match first_unresolved(zero_dim, one_dim, cylinders, endpoints, n - 1) {
            Some(name) => Some(name),
            None => match resolve_all(zero_dim, one_dim, cylinders, endpoints[n - 1]) {
                Err(name) => Some(name),
                Ok(_) => None,
            },
        }
    }
}

/// The names of the connectors, in order.
pub open spec fn connector_names(connectors: Seq<Connector>) -> Seq<Seq<char>> {
    Seq::new(connectors.len(), |c: int| connectors[c].name_view())
}

/// An entry of the list of objects points at an object of its name.
pub open spec fn registered(
    zero_dim: Seq<Seq<char>>,
    one_dim: Seq<Seq<char>>,
    cylinders: Option<Seq<Seq<char>>>,
    connectors: Seq<Seq<char>>,
    entry: (Seq<char>, ObjectType, int),
) -> bool {
    let (name, kind, index) = entry;
    match kind {
        ObjectType::ZeroDim => 0 <= index < zero_dim.len() && zero_dim[index] == name,
        ObjectType::OneDim => 0 <= index < one_dim.len() && one_dim[index] == name,
        ObjectType::Cylinder => cylinders matches Some(names) && 0 <= index < names.len()
            && names[index] == name,
        ObjectType::Connector => 0 <= index < connectors.len() && connectors[index] == name,
    }
}

/// The name of the first of the first `n` entries that points at no object of
/// its name.
pub open spec fn first_unregistered(
    zero_dim: Seq<Seq<char>>,
    one_dim: Seq<Seq<char>>,
    cylinders: Option<Seq<Seq<char>>>,
    connectors: Seq<Seq<char>>,
    entries: Seq<(Seq<char>, ObjectType, int)>,
    n: int,
) -> Option<Seq<char>>
    decreases n,
{
    if n <= 0 {
        None
    } else {
        match first_unregistered(zero_dim, one_dim, cylinders, connectors, entries, n - 1) {
            Some(name) => Some(name),
            None => if registered(zero_dim, one_dim, cylinders, connectors, entries[n - 1]) {
                None
            } else {
                Some(entries[n - 1].0)
            },
        }
    }
}

/// The cylinders' names, or none where there is no engine.
pub open spec fn or_none(cylinders: Option<Seq<Seq<char>>>) -> Seq<Seq<char>> {
    match cylinders {
        Some(names) => names,
        None => Seq::empty(),
    }
}

/// Why the given objects make no system, if they make none. The tests run in
/// this order: a zero-dimensional object that nothing touches, a
/// one-dimensional one, an endpoint that is no object, a cylinder that
/// nothing touches, an entry that points at no object of its name.
pub open spec fn system_fault(
    entries: Seq<(Seq<char>, ObjectType, int)>,
    cylinders: Option<Seq<Seq<char>>>,
    zero_dim: Seq<Seq<char>>,
    one_dim: Seq<Seq<char>>,
    connectors: Seq<Connector>,
) -> Option<SystemFault> {
    let ends = endpoints_of(connectors);
    let cyl = or_none(cylinders);
    match first_unconnected(zero_dim, ends, zero_dim.len() as int) {
        Some(name) => Some(SystemFault::NotConnected(name)),
        None => match first_unconnected(one_dim, ends, one_dim.len() as int) {
            Some(name) => Some(SystemFault::NotConnected(name)),
            None => match first_unresolved(zero_dim, one_dim, cylinders, ends, ends.len() as int) {
                Some(name) => Some(SystemFault::UnknownEndpoint(name)),
                None => match first_unconnected(cyl, ends, cyl.len() as int) {
                    Some(name) => Some(SystemFault::NotConnected(name)),
                    None => match first_unregistered(
                        zero_dim,
                        one_dim,
                        cylinders,
                        connector_names(connectors),
                        entries,
                        entries.len() as int,
                    ) {
                        Some(name) => Some(SystemFault::UnknownObject(name)),
                        None => None,
                    },
                },
            },
        },
    }
}

/// The entries of a list of objects as plain values.
pub open spec fn entries_of(objs_info: Seq<ObjectInfo>) -> Seq<
    (Seq<char>, ObjectType, int),
> {
    Seq::new(objs_info.len(), |k: int| objs_info[k].entry())
}

/// The names of the cylinders of an engine, where there is one.
pub open spec fn engine_names(engine: Option<Engine>) -> Option<Seq<Seq<char>>> {
    match engine {
        Some(e) => Some(e.names_view()),
        None => None,
    }
}

/// Finds for each of the named objects the connectors that touch it. The
/// error is the first name that nothing touches.
pub fn link_all(names: &Vec<String>, connectors: &Vec<Connector>) -> (r: Result<
    Vec<Vec<(ObjectType, usize)>>,
    String,
>)
    ensures
        match r {
            Ok(table) => {
                &&& first_unconnected(
                    names.deep_view(),
                    endpoints_of(connectors@),
                    names.len() as int,
                ) is None
                &&& rows_view(table@) == links_of(names.deep_view(), endpoints_of(connectors@))
            },
            Err(name) => first_unconnected(
                names.deep_view(),
                endpoints_of(connectors@),
                names.len() as int,
            ) == Some(name@),
        },
{
    let ghost ends = endpoints_of(connectors@);
    let mut table: Vec<Vec<(ObjectType, usize)>> = Vec::new();
    let n: usize = names.len();
    let mut i: usize = 0;
    while i < n
        invariant
            n == names.len(),
            i <= n,
            ends == endpoints_of(connectors@),
            first_unconnected(names.deep_view(), ends, i as int) is None,
            table.len() == i,
            forall|k: int|
                0 <= k < i ==> (#[trigger] table[k])@ == touching(
                    ends,
                    names.deep_view()[k],
                    ends.len() as int,
                ),
        decreases n - i,
    {
        let found = get_connectors_index(connectors, names[i].as_str());
        if found.len() == 0 {
            proof {
                lemma_unconnected_stays(names.deep_view(), ends, i + 1, n as int);
            }
            return Err(names[i].clone());
        }
        table.push(found);
        i = i + 1;
    }
    assert(rows_view(table@) =~= links_of(names.deep_view(), ends));
    Ok(table)
}

proof fn lemma_unconnected_stays(
    names: Seq<Seq<char>>,
    endpoints: Seq<Seq<Seq<char>>>,
    k: int,
    n: int,
)
    requires
        0 <= k <= n,
        first_unconnected(names, endpoints, k) is Some,
    ensures
        first_unconnected(names, endpoints, n) == first_unconnected(names, endpoints, k),
    decreases n - k,
{
    if k < n {
        lemma_unconnected_stays(names, endpoints, k, n - 1);
    }
}

proof fn lemma_unresolved_stays(
    zero_dim: Seq<Seq<char>>,
    one_dim: Seq<Seq<char>>,
    cylinders: Option<Seq<Seq<char>>>,
    endpoints: Seq<Seq<Seq<char>>>,
    k: int,
    n: int,
)
    requires
        0 <= k <= n,
        first_unresolved(zero_dim, one_dim, cylinders, endpoints, k) is Some,
    ensures
        first_unresolved(zero_dim, one_dim, cylinders, endpoints, n) == first_unresolved(
            zero_dim,
            one_dim,
            cylinders,
            endpoints,
            k,
        ),
    decreases n - k,
{
    if k < n {
        lemma_unresolved_stays(zero_dim, one_dim, cylinders, endpoints, k, n - 1);
    }
}

proof fn lemma_unregistered_stays(
    zero_dim: Seq<Seq<char>>,
    one_dim: Seq<Seq<char>>,
    cylinders: Option<Seq<Seq<char>>>,
    connectors: Seq<Seq<char>>,
    entries: Seq<(Seq<char>, ObjectType, int)>,
    k: int,
    n: int,
)
    requires
        0 <= k <= n,
        first_unregistered(zero_dim, one_dim, cylinders, connectors, entries, k) is Some,
    ensures
        first_unregistered(zero_dim, one_dim, cylinders, connectors, entries, n)
            == first_unregistered(zero_dim, one_dim, cylinders, connectors, entries, k),
    decreases n - k,
{
    if k < n {
        lemma_unregistered_stays(zero_dim, one_dim, cylinders, connectors, entries, k, n - 1);
    }
}

/// Resolves the endpoints of every connector. The error is the first
/// endpoint, connector by connector, that is no object.
pub fn resolve_connectors(
    zero_dim: &Vec<String>,
    one_dim: &Vec<String>,
    cylinders: &Option<Vec<String>>,
    connectors: &Vec<Connector>,
) -> (r: Result<Vec<Vec<(ObjectType, usize)>>, String>)
    ensures
        match r {
            Ok(table) => {
                &&& first_unresolved(
                    zero_dim.deep_view(),
                    one_dim.deep_view(),
                    names_of(cylinders),
                    endpoints_of(connectors@),
                    connectors.len() as int,
                ) is None
                &&& rows_view(table@) == objects_of(
                    zero_dim.deep_view(),
                    one_dim.deep_view(),
                    names_of(cylinders),
                    endpoints_of(connectors@),
                )
            },
            Err(name) => first_unresolved(
                zero_dim.deep_view(),
                one_dim.deep_view(),
                names_of(cylinders),
                endpoints_of(connectors@),
                connectors.len() as int,
            ) == Some(name@),
        },
{
    let ghost zero = zero_dim.deep_view();
    let ghost one = one_dim.deep_view();
    let ghost cyl = names_of(cylinders);
    let ghost ends = endpoints_of(connectors@);
    let mut table: Vec<Vec<(ObjectType, usize)>> = Vec::new();
    let n: usize = connectors.len();
    let mut c: usize = 0;
    while c < n
        invariant
            n == connectors.len(),
            c <= n,
            zero == zero_dim.deep_view(),
            one == one_dim.deep_view(),
            cyl == names_of(cylinders),
            ends == endpoints_of(connectors@),
            first_unresolved(zero, one, cyl, ends, c as int) is None,
            table.len() == c,
            forall|k: int|
                0 <= k < c ==> resolve_all(zero, one, cyl, ends[k]) == Ok::<
                    Seq<(ObjectType, usize)>,
                    Seq<char>,
                >((#[trigger] table[k])@),
        decreases n - c,
    {
        match get_dim_obj_index(zero_dim, one_dim, cylinders, connectors[c].connecting()) {
            Ok(found) => {
                table.push(found);
            },
            Err(name) => {
                proof {
                    lemma_unresolved_stays(zero, one, cyl, ends, c + 1, n as int);
                }
                return Err(name);
            },
        }
        c = c + 1;
    }
    assert(rows_view(table@) =~= objects_of(zero, one, cyl, ends));
    Ok(table)
}

/// How many steps a cycle of 720 degrees takes: a step turns the crank by a
/// tenth of a degree.
pub const STEPS_PER_CYCLE: u32 = 7200;

/// After how many full cycles a run to steady state ends.
pub const MAX_CYCLES: u32 = 10;

/// One thing to do in a step of the system.
#[derive(Debug, Clone, Copy, PartialEq, Eq, Structural)]
pub enum StepAction {
    /// Integrate the zero-dimensional object at this place over the step,
    /// with the flows it was fed in the step before.
    AdvanceZeroDim(usize),
    /// Integrate the cylinder at this place over the step, likewise.
    AdvanceCylinder(usize),
    /// Compute the flows of the connector at this place from the new states
    /// of its endpoints.
    UpdateConnector(usize),
    /// Feed the zero-dimensional object at this place the flows of the
    /// connectors that touch it, for the next step.
    FeedZeroDim(usize),
    /// Feed the cylinder at this place the flows of its connectors, likewise.
    FeedCylinder(usize),
}

/// What a run to steady state does next.
#[derive(Debug, Clone, Copy, PartialEq, Eq, Structural)]
pub enum RunDecision {
    /// Take one more step.
    Advance,
    /// The run is over.
    Finished,
}

/// The schedule of a step for the given numbers of zero-dimensional objects,
/// cylinders and connectors: every control volume advances, then every
/// connector is updated, then every control volume is fed.
pub open spec fn plan_of(zero_dim: nat, cylinders: nat, connectors: nat) -> Seq<StepAction> {
    Seq::new(zero_dim, |i: int| StepAction::AdvanceZeroDim(i as usize)) + Seq::new(
        cylinders,
        |i: int| StepAction::AdvanceCylinder(i as usize),
    ) + Seq::new(connectors, |c: int| StepAction::UpdateConnector(c as usize)) + Seq::new(
        zero_dim,
        |i: int| StepAction::FeedZeroDim(i as usize),
    ) + Seq::new(cylinders, |i: int| StepAction::FeedCylinder(i as usize))
}

/// The rank of an action in a step: advancing comes first, updating the
/// connectors second, feeding last.
pub open spec fn stage_of(action: StepAction) -> int {
    match action {
        StepAction::AdvanceZeroDim(_) => 0,
        StepAction::AdvanceCylinder(_) => 0,
        StepAction::UpdateConnector(_) => 1,
        StepAction::FeedZeroDim(_) => 2,
        StepAction::FeedCylinder(_) => 2,
    }
}

/// In the schedule of a step no stage starts before the one before it is
/// done: every control volume advances on the flows of the step before, every
/// connector sees the new states, and what the connectors compute is fed to
/// the control volumes only for the next step.
pub proof fn lemma_plan_is_staggered(zero_dim: nat, cylinders: nat, connectors: nat)
    ensures
        forall|a: int, b: int|
            0 <= a <= b < plan_of(zero_dim, cylinders, connectors).len() ==> stage_of(
                plan_of(zero_dim, cylinders, connectors)[a],
            ) <= stage_of(plan_of(zero_dim, cylinders, connectors)[b]),
{
}

/// The first of the first `n` rows whose length is not the width of its
/// table, as the error that tells so.
pub open spec fn first_misfit(widths: Seq<int>, lens: Seq<nat>, n: int) -> Option<StoreError>
    decreases n,
{
    if n <= 0 {
        None
    } else {
        match first_misfit(widths, lens, n - 1) {
            Some(e) => Some(e),
            None => if lens[n - 1] != widths[n - 1] {
                Some(
                    StoreError::Width {
                        expected: widths[n - 1] as usize,
                        found: lens[n - 1] as usize,
                    },
                )
            } else {
                None
            },
        }
    }
}

proof fn lemma_misfit_stays(widths: Seq<int>, lens: Seq<nat>, k: int, n: int)
    requires
        0 <= k <= n,
        first_misfit(widths, lens, k) is Some,
    ensures
        first_misfit(widths, lens, n) == first_misfit(widths, lens, k),
    decreases n - k,
{
    if k < n {
        lemma_misfit_stays(widths, lens, k, n - 1);
    }
}

proof fn lemma_no_misfit(widths: Seq<int>, lens: Seq<nat>, n: int)
    requires
        first_misfit(widths, lens, n) is None,
    ensures
        forall|k: int| 0 <= k < n ==> lens[k] == widths[k],
    decreases n,
{
    if n > 0 {
        lemma_no_misfit(widths, lens, n - 1);
    }
}

/// The lengths of the given rows.
pub open spec fn lens_of<T>(rows: Seq<Vec<T>>) -> Seq<nat> {
    Seq::new(rows.len(), |k: int| rows[k]@.len())
}

/// The rows from `first` up to `end`, each with its time in front.
pub open spec fn timed<T>(times: Seq<Seq<T>>, rows: Seq<Seq<T>>, first: int, end: int) -> Seq<
    Seq<T>,
> {
    Seq::new((end - first) as nat, |i: int| seq![times[first + i][0]] + rows[first + i])
}

/// The places of the cylinders among the first `n` entries of a list of
/// objects, in rising order.
pub open spec fn cylinder_places(entries: Seq<(Seq<char>, ObjectType, int)>, n: int) -> Seq<usize>
    decreases n,
{
    if n <= 0 {
        Seq::empty()
    } else {
        let before = cylinder_places(entries, n - 1);
        if entries[n - 1].1 == ObjectType::Cylinder {
            before.push((n - 1) as usize)
        } else {
            before
        }
    }
}

/// The names in a list of objects, in order.
pub open spec fn entry_names(entries: Seq<(Seq<char>, ObjectType, int)>) -> Seq<Seq<char>> {
    Seq::new(entries.len(), |k: int| entries[k].0)
}

/// Finds the first entry of a list of objects that has the given name.
pub fn find_entry(objs: &Vec<ObjectInfo>, obj_name: &str) -> (r: Option<usize>)
    ensures
        match r {
            Some(k) => crate::names::position_of(entry_names(entries_of(objs@)), obj_name@)
                == Some(k as int) && k < objs.len(),
            None => crate::names::position_of(entry_names(entries_of(objs@)), obj_name@) is None,
        },
{
    let wanted = obj_name.to_owned();
    let n: usize = objs.len();
    let ghost names = entry_names(entries_of(objs@));
    let mut k: usize = 0;
    while k < n
        invariant
            n == objs.len(),
            k <= n,
            wanted@ == obj_name@,
            names == entry_names(entries_of(objs@)),
            names.len() == n,
            forall|j: int| 0 <= j < k ==> names[j] != obj_name@,
        decreases n - k,
    {
        if objs[k].name == wanted {
            proof {
                assert(names[k as int] == obj_name@);
                crate::names::lemma_position_of_is(names, obj_name@, k as int);
            }
            return Some(k);
        }
        k = k + 1;
    }
    proof {
        crate::names::lemma_position_of_none(names, obj_name@);
    }
    None
}

/// Appends to the table of each object its row of samples.
fn append_rows(objs: &mut Vec<ObjectInfo>, samples: Vec<Vec<u64>>)
    requires
        samples.len() == old(objs).len(),
        forall|k: int|
            0 <= k < old(objs).len() ==> {
                &&& (#[trigger] old(objs)[k]).stored_data.wf()
                &&& old(objs)[k].stored_data.admission(samples[k]@.len()) is Ok
            },
    ensures
        final(objs).len() == old(objs).len(),
        forall|k: int|
            0 <= k < old(objs).len() ==> {
                &&& (#[trigger] final(objs)[k]).entry() == old(objs)[k].entry()
                &&& final(objs)[k].stored_data.wf()
                &&& final(objs)[k].stored_data.header_view() == old(objs)[k].stored_data.header_view()
                &&& final(objs)[k].stored_data.width() == old(objs)[k].stored_data.width()
                &&& final(objs)[k].stored_data.rows() == old(objs)[k].stored_data.rows().push(
                    samples[k]@,
                )
            },
{
    let ghost given = samples@;
    let mut samples = samples;
    let n: usize = objs.len();
    let mut k: usize = n;
    while k > 0
        invariant
            n == objs.len(),
            n == old(objs).len(),
            n == given.len(),
            k <= n,
            samples@ == given.take(k as int),
            forall|j: int|
                0 <= j < k ==> {
                    &&& (#[trigger] objs[j]) == old(objs)[j]
                    &&& objs[j].stored_data.wf()
                    &&& objs[j].stored_data.admission(given[j]@.len()) is Ok
                },
            forall|j: int|
                k <= j < n ==> {
                    &&& (#[trigger] objs[j]).entry() == old(objs)[j].entry()
                    &&& objs[j].stored_data.wf()
                    &&& objs[j].stored_data.header_view() == old(objs)[j].stored_data.header_view()
                    &&& objs[j].stored_data.width() == old(objs)[j].stored_data.width()
                    &&& objs[j].stored_data.rows() == old(objs)[j].stored_data.rows().push(
                        given[j]@,
                    )
                },
        decreases k,
    {
        k = k - 1;
        let row = samples.pop().unwrap();
        assert(row == given[k as int]);
        assert(samples@ =~= given.take(k as int));
        let _ = objs[k].stored_data.add_data(row);
    }
}

/// Empties the table of every object.
fn reset_rows(objs: &mut Vec<ObjectInfo>)
    requires
        forall|k: int| 0 <= k < old(objs).len() ==> (#[trigger] old(objs)[k]).stored_data.wf(),
    ensures
        final(objs).len() == old(objs).len(),
        forall|k: int|
            0 <= k < old(objs).len() ==> {
                &&& (#[trigger] final(objs)[k]).entry() == old(objs)[k].entry()
                &&& final(objs)[k].stored_data.wf()
                &&& final(objs)[k].stored_data.header_view() == old(objs)[k].stored_data.header_view()
                &&& final(objs)[k].stored_data.width() == old(objs)[k].stored_data.width()
                &&& final(objs)[k].stored_data.rows().len() == 0
            },
{
    let n: usize = objs.len();
    let mut k: usize = 0;
    while k < n
        invariant
            n == objs.len(),
            n == old(objs).len(),
            k <= n,
            forall|j: int| 0 <= j < n ==> (#[trigger] old(objs)[j]).stored_data.wf(),
            forall|j: int| k <= j < n ==> (#[trigger] objs[j]) == old(objs)[j],
            forall|j: int|
                0 <= j < k ==> {
                    &&& (#[trigger] objs[j]).entry() == old(objs)[j].entry()
                    &&& objs[j].stored_data.wf()
                    &&& objs[j].stored_data.header_view() == old(objs)[j].stored_data.header_view()
                    &&& objs[j].stored_data.width() == old(objs)[j].stored_data.width()
                    &&& objs[j].stored_data.rows().len() == 0
                },
        decreases n - k,
    {
        objs[k].stored_data.reset_data();
        k = k + 1;
    }
}

/// A system of control volumes and connectors.
pub struct System {
    objs_info: Vec<ObjectInfo>,
    engine: Option<Engine>,
    zero_dim: Vec<String>,
    one_dim: Vec<String>,
    cylinders: Option<Vec<String>>,
    connector: Vec<Connector>,
    engine_connectors_index: Vec<Vec<(ObjectType, usize)>>,
    zero_dim_connectors_index: Vec<Vec<(ObjectType, usize)>>,
    one_dim_connectors_index: Vec<Vec<(ObjectType, usize)>>,
    connector_objects_index: Vec<Vec<(ObjectType, usize)>>,
    cycle_start: usize,
    iterations_counter: usize,
    time: StoreData,
    cycle: u32,
    steps: u32,
}

impl System {
    /// The list of objects as plain values: name, kind and place.
    pub closed spec fn entries(&self) -> Seq<(Seq<char>, ObjectType, int)> {
        entries_of(self.objs_info@)
    }

    /// The layout of the engine, where the system has one.
    pub closed spec fn engine_view(&self) -> Option<Engine> {
        self.engine
    }

    /// The names of the zero-dimensional objects.
    pub closed spec fn zero_dim_names(&self) -> Seq<Seq<char>> {
        self.zero_dim.deep_view()
    }

    /// The names of the one-dimensional objects.
    pub closed spec fn one_dim_names(&self) -> Seq<Seq<char>> {
        self.one_dim.deep_view()
    }

    /// The names of the cylinders, where the system has an engine.
    pub closed spec fn cylinder_names(&self) -> Option<Seq<Seq<char>>> {
        names_of(&self.cylinders)
    }

    /// The connectors.
    pub closed spec fn connectors(&self) -> Seq<Connector> {
        self.connector@
    }

    /// For each zero-dimensional object, the connectors that touch it.
    pub closed spec fn zero_dim_links(&self) -> Seq<Seq<(ObjectType, usize)>> {
        rows_view(self.zero_dim_connectors_index@)
    }

    /// For each one-dimensional object, the connectors that touch it.
    pub closed spec fn one_dim_links(&self) -> Seq<Seq<(ObjectType, usize)>> {
        rows_view(self.one_dim_connectors_index@)
    }

    /// For each cylinder, the connectors that touch it.
    pub closed spec fn cylinder_links(&self) -> Seq<Seq<(ObjectType, usize)>> {
        rows_view(self.engine_connectors_index@)
    }

    /// For each connector, the kind and place of each endpoint.
    pub closed spec fn connector_links(&self) -> Seq<Seq<(ObjectType, usize)>> {
        rows_view(self.connector_objects_index@)
    }

    /// How many steps have been recorded.
    pub closed spec fn iterations(&self) -> nat {
        self.iterations_counter as nat
    }

    /// The step at which the last cycle that was begun started.
    pub closed spec fn cycle_start_view(&self) -> nat {
        self.cycle_start as nat
    }

    /// How many full cycles the run to steady state has gone through.
    pub closed spec fn cycle_view(&self) -> nat {
        self.cycle as nat
    }

    /// How many steps the run has taken into the present cycle.
    pub closed spec fn steps_view(&self) -> nat {
        self.steps as nat
    }

    /// The samples stored for the object at place `k` of the list.
    pub closed spec fn samples(&self, k: int) -> Seq<Seq<u64>> {
        self.objs_info[k].stored_data.rows()
    }

    /// The header of the samples of the object at place `k` of the list.
    pub closed spec fn header(&self, k: int) -> Seq<char> {
        self.objs_info[k].stored_data.header_view()
    }

    /// How many values a sample of the object at place `k` has.
    pub closed spec fn width(&self, k: int) -> int {
        self.objs_info[k].stored_data.width()
    }

    /// The times of the recorded steps, one row of one value per step.
    pub closed spec fn times(&self) -> Seq<Seq<u64>> {
        self.time.rows()
    }

    /// The widths of the tables of samples, in the order of the list.
    pub open spec fn widths(&self) -> Seq<int> {
        Seq::new(self.entries().len(), |k: int| self.width(k))
    }

    /// Every table of samples holds one row per recorded step: the table of
    /// the times, with one value in each row, and the table of each object,
    /// with as many values in each row as the table is wide.
    pub open spec fn one_row_per_step(&self) -> bool {
        &&& self.times().len() == self.iterations()
        &&& forall|i: int| 0 <= i < self.times().len() ==> (#[trigger] self.times()[i]).len() == 1
        &&& forall|k: int|
            0 <= k < self.entries().len() ==> (#[trigger] self.samples(k)).len()
                == self.iterations()
        &&& forall|k: int, i: int|
            0 <= k < self.entries().len() && 0 <= i < self.samples(k).len() ==> (
            #[trigger] self.samples(k)[i]).len() == self.width(k)
    }

    /// The tables of samples are tables as they should be.
    pub closed spec fn stores_wf(&self) -> bool {
        &&& self.time.wf()
        &&& self.time.width() == 1
        &&& self.time.rows().len() == self.iterations_counter
        &&& forall|k: int|
            0 <= k < self.objs_info.len() ==> {
                &&& (#[trigger] self.objs_info[k]).stored_data.wf()
                &&& self.objs_info[k].stored_data.rows().len() == self.iterations_counter
            }
    }

    /// The index tables are those of the names, every object is touched,
    /// every endpoint and every entry of the list points at an object of its
    /// name, and every table of samples holds one row per recorded step.
    pub open spec fn wf(&self) -> bool {
        let ends = endpoints_of(self.connectors());
        &&& self.cylinder_names() == engine_names(self.engine_view())
        &&& system_fault(
            self.entries(),
            self.cylinder_names(),
            self.zero_dim_names(),
            self.one_dim_names(),
            self.connectors(),
        ) is None
        &&& self.zero_dim_links() == links_of(self.zero_dim_names(), ends)
        &&& self.one_dim_links() == links_of(self.one_dim_names(), ends)
        &&& self.cylinder_links() == links_of(or_none(self.cylinder_names()), ends)
        &&& self.connector_links() == objects_of(
            self.zero_dim_names(),
            self.one_dim_names(),
            self.cylinder_names(),
            ends,
        )
        &&& self.stores_wf()
        &&& self.one_row_per_step()
        &&& self.cycle_start_view() <= self.iterations()
        &&& self.steps_view() <= STEPS_PER_CYCLE
        &&& self.cycle_view() <= MAX_CYCLES
    }

    /// Makes a system of the given objects and resolves their names.
    ///
    /// The system is refused where no connector touches one of the control
    /// volumes, where a connector names an endpoint that is no control
    /// volume, and where an entry of the list of objects points at no object
    /// of its name. The tables of samples start empty, with the headers and
    /// widths of those given.
    pub fn new(
        objs_info: Vec<ObjectInfo>,
        engine: Option<Engine>,
        zero_dim: Vec<String>,
        one_dim: Vec<String>,
        connector: Vec<Connector>,
    ) -> (r: Result<System, SystemError>)
        requires
            forall|k: int|
                0 <= k < objs_info.len() ==> (#[trigger] objs_info[k]).stored_data.wf(),
        ensures
            match r {
                Ok(sys) => {
                    &&& sys.wf()
                    &&& sys.entries() == entries_of(objs_info@)
                    &&& sys.engine_view() == engine
                    &&& sys.zero_dim_names() == zero_dim.deep_view()
                    &&& sys.one_dim_names() == one_dim.deep_view()
                    &&& sys.connectors() == connector@
                    &&& sys.iterations() == 0
                    &&& sys.cycle_start_view() == 0
                    &&& sys.cycle_view() == 0
                    &&& sys.steps_view() == 0
                    &&& sys.times().len() == 0
                    &&& forall|k: int|
                        0 <= k < objs_info.len() ==> (#[trigger] sys.samples(k)).len() == 0
                    &&& forall|k: int|
                        0 <= k < objs_info.len() ==> #[trigger] sys.header(k)
                            == objs_info[k].stored_data.header_view()
                    &&& forall|k: int|
                        0 <= k < objs_info.len() ==> #[trigger] sys.width(k)
                            == objs_info[k].stored_data.width()
                },
                Err(e) => system_fault(
                    entries_of(objs_info@),
                    engine_names(engine),
                    zero_dim.deep_view(),
                    one_dim.deep_view(),
                    connector@,
                ) == Some(e@),
            },
    {
        let cylinders: Option<Vec<String>> = match &engine {
            Some(e) => {
                let layout = e.cylinders();
                let mut names: Vec<String> = Vec::new();
                let n: usize = layout.len();
                let mut i: usize = 0;
                while i < n
                    invariant
                        n == layout.len(),
                        i <= n,
                        names.len() == i,
                        forall|k: int| 0 <= k < i ==> (#[trigger] names[k])@ == layout[k].name@,
                    decreases n - i,
                {
                    names.push(layout[i].name.clone());
                    i = i + 1;
                }
                assert(names.deep_view() =~= e.names_view());
                Some(names)
            },
            None => None,
        };
        let zero_links = match link_all(&zero_dim, &connector) {
            Ok(table) => table,
            Err(name) => {
                return Err(SystemError::NotConnected(name));
            },
        };
        let one_links = match link_all(&one_dim, &connector) {
            Ok(table) => table,
            Err(name) => {
                return Err(SystemError::NotConnected(name));
            },
        };
        let objects = match resolve_connectors(&zero_dim, &one_dim, &cylinders, &connector) {
            Ok(table) => table,
            Err(name) => {
                return Err(SystemError::UnknownEndpoint(name));
            },
        };
        let cylinder_links = match &cylinders {
            Some(names) => match link_all(names, &connector) {
                Ok(table) => table,
                Err(name) => {
                    return Err(SystemError::NotConnected(name));
                },
            },
            None => Vec::new(),
        };
        assert(rows_view(cylinder_links@) =~= links_of(
            or_none(names_of(&cylinders)),
            endpoints_of(connector@),
        ));
        let ghost zero = zero_dim.deep_view();
        let ghost one = one_dim.deep_view();
        let ghost cyl = names_of(&cylinders);
        let ghost conn = connector_names(connector@);
        let ghost entries = entries_of(objs_info@);
        let ghost ends = endpoints_of(connector@);
        let mut fresh: Vec<ObjectInfo> = Vec::new();
        let n: usize = objs_info.len();
        let mut k: usize = 0;
        while k < n
            invariant
                n == objs_info.len(),
                k <= n,
                forall|j: int|
                    0 <= j < objs_info.len() ==> (#[trigger] objs_info[j]).stored_data.wf(),
                zero == zero_dim.deep_view(),
                one == one_dim.deep_view(),
                cyl == names_of(&cylinders),
                conn == connector_names(connector@),
                entries == entries_of(objs_info@),
                ends == endpoints_of(connector@),
                cyl == engine_names(engine),
                first_unconnected(zero, ends, zero.len() as int) is None,
                first_unconnected(one, ends, one.len() as int) is None,
                first_unresolved(zero, one, cyl, ends, ends.len() as int) is None,
                first_unconnected(or_none(cyl), ends, or_none(cyl).len() as int) is None,
                first_unregistered(zero, one, cyl, conn, entries, k as int) is None,
                fresh.len() == k,
                forall|j: int|
                    0 <= j < k ==> {
                        &&& (#[trigger] fresh[j]).entry() == objs_info[j].entry()
                        &&& fresh[j].stored_data.wf()
                        &&& fresh[j].stored_data.rows().len() == 0
                        &&& fresh[j].stored_data.header_view()
                            == objs_info[j].stored_data.header_view()
                        &&& fresh[j].stored_data.width() == objs_info[j].stored_data.width()
                    },
            decreases n - k,
        {
            let info = &objs_info[k];
            let found = match info.obj_type {
                ObjectType::ZeroDim => info.index < zero_dim.len() && zero_dim[info.index]
                    == info.name,
                ObjectType::OneDim => info.index < one_dim.len() && one_dim[info.index]
                    == info.name,
                ObjectType::Cylinder => match &cylinders {
                    Some(names) => info.index < names.len() && names[info.index] == info.name,
                    None => false,
                },
                ObjectType::Connector => info.index < connector.len() && same_text(
                    connector[info.index].name(),
                    info.name.as_str(),
                ),
            };
            assert(found == registered(zero, one, cyl, conn, entries[k as int]));
            if !found {
                proof {
                    lemma_unregistered_stays(zero, one, cyl, conn, entries, k + 1, n as int);
                }
                return Err(SystemError::UnknownObject(info.name.clone()));
            }
            fresh.push(
                ObjectInfo {
                    name: info.name.clone(),
                    obj_type: info.obj_type,
                    index: info.index,
                    stored_data: StoreData::new(
                        info.stored_data.header(),
                        info.stored_data.num_variables(),
                    ),
                },
            );
            k = k + 1;
        }
        let sys = System {
            objs_info: fresh,
            engine,
            zero_dim,
            one_dim,
            cylinders,
            connector,
            engine_connectors_index: cylinder_links,
            zero_dim_connectors_index: zero_links,
            one_dim_connectors_index: one_links,
            connector_objects_index: objects,
            cycle_start: 0,
            iterations_counter: 0,
            time: StoreData::new("time [s]\t", 1),
            cycle: 0,
            steps: 0,
        };
        assert(sys.entries() =~= entries);
        Ok(sys)
    }

    /// The two systems hold the same objects, joined in the same way, with
    /// tables of samples of the same headers and widths.
    pub open spec fn same_objects(&self, other: &Self) -> bool {
        &&& self.entries() == other.entries()
        &&& self.engine_view() == other.engine_view()
        &&& self.zero_dim_names() == other.zero_dim_names()
        &&& self.one_dim_names() == other.one_dim_names()
        &&& self.cylinder_names() == other.cylinder_names()
        &&& self.connectors() == other.connectors()
        &&& self.zero_dim_links() == other.zero_dim_links()
        &&& self.one_dim_links() == other.one_dim_links()
        &&& self.cylinder_links() == other.cylinder_links()
        &&& self.connector_links() == other.connector_links()
        &&& forall|k: int|
            0 <= k < self.entries().len() ==> #[trigger] self.header(k) == other.header(k)
        &&& forall|k: int|
            0 <= k < self.entries().len() ==> #[trigger] self.width(k) == other.width(k)
    }

    /// The list of objects.
    pub fn objs_info(&self) -> (r: &Vec<ObjectInfo>)
        ensures
            entries_of(r@) == self.entries(),
            forall|k: int|
                0 <= k < r.len() ==> {
                    &&& (#[trigger] r[k]).stored_data.rows() == self.samples(k)
                    &&& r[k].stored_data.header_view() == self.header(k)
                    &&& r[k].stored_data.width() == self.width(k)
                },
    {
        &self.objs_info
    }

    /// The layout of the engine, where the system has one.
    pub fn engine(&self) -> (r: Option<&Engine>)
        ensures
            match r {
                Some(e) => self.engine_view() == Some(*e),
                None => self.engine_view() is None,
            },
    {
        match &self.engine {
            Some(eng) => Some(eng),
            None => None,
        }
    }

    /// The connectors.
    pub fn connector(&self) -> (r: &Vec<Connector>)
        ensures
            r@ == self.connectors(),
    {
        &self.connector
    }

    /// For each zero-dimensional object, the connectors that touch it.
    pub fn zero_dim_connectors_index(&self) -> (r: &Vec<Vec<(ObjectType, usize)>>)
        ensures
            rows_view(r@) == self.zero_dim_links(),
    {
        &self.zero_dim_connectors_index
    }

    /// For each one-dimensional object, the connectors that touch it.
    pub fn one_dim_connectors_index(&self) -> (r: &Vec<Vec<(ObjectType, usize)>>)
        ensures
            rows_view(r@) == self.one_dim_links(),
    {
        &self.one_dim_connectors_index
    }

    /// For each cylinder, the connectors that touch it.
    pub fn engine_connectors_index(&self) -> (r: &Vec<Vec<(ObjectType, usize)>>)
        ensures
            rows_view(r@) == self.cylinder_links(),
    {
        &self.engine_connectors_index
    }

    /// For each connector, the kind and place of each endpoint.
    pub fn connector_objects_index(&self) -> (r: &Vec<Vec<(ObjectType, usize)>>)
        ensures
            rows_view(r@) == self.connector_links(),
    {
        &self.connector_objects_index
    }

    /// The step at which the last cycle that was begun started.
    pub fn cycle_start(&self) -> (r: usize)
        ensures
            r == self.cycle_start_view(),
    {
        self.cycle_start
    }

    /// How many steps have been recorded.
    pub fn iterations_counter(&self) -> (r: usize)
        ensures
            r == self.iterations(),
    {
        self.iterations_counter
    }

    /// The schedule of one step: what to do, in order.
    ///
    /// First every zero-dimensional object and then every cylinder
    /// advances, with the flows of the step before. Then every connector
    /// computes its flows from the new states. Last every control volume is
    /// fed the flows of its connectors, which it uses in the next step.
    pub fn step_plan(&self) -> (r: Vec<StepAction>)
        ensures
            r@ == plan_of(
                self.zero_dim_names().len(),
                or_none(self.cylinder_names()).len(),
                self.connectors().len(),
            ),
    {
        let nz: usize = self.zero_dim.len();
        let nc: usize = match &self.cylinders {
            Some(names) => names.len(),
            None => 0,
        };
        let nk: usize = self.connector.len();
        let mut plan: Vec<StepAction> = Vec::new();
        let mut i: usize = 0;
        while i < nz
            invariant
                i <= nz,
                plan@ == Seq::new(i as nat, |i: int| StepAction::AdvanceZeroDim(i as usize)),
            decreases nz - i,
        {
            plan.push(StepAction::AdvanceZeroDim(i));
            i = i + 1;
            assert(plan@ =~= Seq::new(i as nat, |i: int| StepAction::AdvanceZeroDim(i as usize)));
        }
        let ghost first = plan@;
        let mut i: usize = 0;
        while i < nc
            invariant
                i <= nc,
                plan@ == first + Seq::new(i as nat, |i: int| StepAction::AdvanceCylinder(i as usize)),
            decreases nc - i,
        {
            plan.push(StepAction::AdvanceCylinder(i));
            i = i + 1;
            assert(plan@ =~= first + Seq::new(
                i as nat,
                |i: int| StepAction::AdvanceCylinder(i as usize),
            ));
        }
        let ghost second = plan@;
        let mut c: usize = 0;
        while c < nk
            invariant
                c <= nk,
                plan@ == second + Seq::new(
                    c as nat,
                    |c: int| StepAction::UpdateConnector(c as usize),
                ),
            decreases nk - c,
        {
            plan.push(StepAction::UpdateConnector(c));
            c = c + 1;
            assert(plan@ =~= second + Seq::new(
                c as nat,
                |c: int| StepAction::UpdateConnector(c as usize),
            ));
        }
        let ghost third = plan@;
        let mut i: usize = 0;
        while i < nz
            invariant
                i <= nz,
                plan@ == third + Seq::new(i as nat, |i: int| StepAction::FeedZeroDim(i as usize)),
            decreases nz - i,
        {
            plan.push(StepAction::FeedZeroDim(i));
            i = i + 1;
            assert(plan@ =~= third + Seq::new(
                i as nat,
                |i: int| StepAction::FeedZeroDim(i as usize),
            ));
        }
        let ghost fourth = plan@;
        let mut i: usize = 0;
        while i < nc
            invariant
                i <= nc,
                plan@ == fourth + Seq::new(i as nat, |i: int| StepAction::FeedCylinder(i as usize)),
            decreases nc - i,
        {
            plan.push(StepAction::FeedCylinder(i));
            i = i + 1;
            assert(plan@ =~= fourth + Seq::new(
                i as nat,
                |i: int| StepAction::FeedCylinder(i as usize),
            ));
        }
        plan
    }

    /// Why a step with rows of the given lengths is not recorded, if it is
    /// not: it brings not one row per object, the tables are full, or a row
    /// has not the width of its table.
    pub open spec fn step_refusal(&self, lens: Seq<nat>) -> Option<SystemFault> {
        if lens.len() != self.entries().len() {
            Some(
                SystemFault::SampleCount {
                    expected: self.entries().len() as int,
                    found: lens.len() as int,
                },
            )
        } else if self.iterations() >= crate::store::MAX_ARRAY_LEN - 1 {
            Some(SystemFault::Store(StoreError::Full))
        } else {
            match first_misfit(self.widths(), lens, lens.len() as int) {
                Some(e) => Some(SystemFault::Store(e)),
                None => None,
            }
        }
    }

    /// Records one step: the time that the step reached, and for each object
    /// of the list, in its order, one row of samples.
    ///
    /// The step is recorded whole or not at all. It is refused where it
    /// brings not one row per object, where the tables are full, and where a
    /// row has not the width of its table; nothing is ever dropped in silence.
    pub fn record_step(&mut self, time: u64, samples: Vec<Vec<u64>>) -> (r: Result<(), SystemError>)
        requires
            old(self).wf(),
        ensures
            final(self).wf(),
            final(self).same_objects(old(self)),
            final(self).cycle_start_view() == old(self).cycle_start_view(),
            final(self).cycle_view() == old(self).cycle_view(),
            final(self).steps_view() == old(self).steps_view(),
            match r {
                Ok(_) => {
                    &&& old(self).step_refusal(lens_of(samples@)) is None
                    &&& final(self).iterations() == old(self).iterations() + 1
                    &&& final(self).times() == old(self).times().push(seq![time])
                    &&& forall|k: int|
                        0 <= k < samples.len() ==> #[trigger] final(self).samples(k) == old(self).samples(k).push(samples[k]@)
                },
                Err(e) => {
                    &&& old(self).step_refusal(lens_of(samples@)) == Some(e@)
                    &&& final(self).iterations() == old(self).iterations()
                    &&& final(self).times() == old(self).times()
                    &&& forall|k: int|
                        0 <= k < final(self).entries().len() ==> #[trigger] final(self).samples(k)
                            == old(self).samples(k)
                },
            },
    {
        let n: usize = self.objs_info.len();
        if samples.len() != n {
            return Err(SystemError::SampleCount { expected: n, found: samples.len() });
        }
        if self.iterations_counter >= crate::store::MAX_ARRAY_LEN - 1 {
            return Err(SystemError::Store(StoreError::Full));
        }
        let ghost widths = self.widths();
        let ghost lens = lens_of(samples@);
        let mut k: usize = 0;
        while k < n
            invariant
                n == self.objs_info.len(),
                n == samples.len(),
                k <= n,
                *self == *old(self),
                self.wf(),
                n == self.entries().len(),
                self.iterations_counter < crate::store::MAX_ARRAY_LEN - 1,
                widths == self.widths(),
                lens == lens_of(samples@),
                first_misfit(widths, lens, k as int) is None,
            decreases n - k,
        {
            let expected = self.objs_info[k].stored_data.num_variables();
            let found = samples[k].len();
            if found != expected {
                proof {
                    lemma_misfit_stays(widths, lens, k + 1, n as int);
                }
                return Err(SystemError::Store(StoreError::Width { expected, found }));
            }
            k = k + 1;
        }
        proof {
            lemma_no_misfit(widths, lens, n as int);
            assert forall|j: int| 0 <= j < n implies (#[trigger] self.objs_info[j]).stored_data.wf()
                && self.objs_info[j].stored_data.admission(samples[j]@.len()) is Ok by {
                assert(lens[j] == widths[j]);
            }
        }
        let mut row: Vec<u64> = Vec::new();
        row.push(time);
        assert(row@ =~= seq![time]);
        let _ = self.time.add_data(row);
        append_rows(&mut self.objs_info, samples);
        self.iterations_counter = self.iterations_counter + 1;
        proof {
            assert(self.entries() =~= old(self).entries());
        }
        Ok(())
    }

    /// Begins a run to steady state: every table of samples is emptied, and
    /// the count of steps and of cycles starts anew.
    pub fn begin_steady_state(&mut self)
        requires
            old(self).wf(),
        ensures
            final(self).wf(),
            final(self).same_objects(old(self)),
            final(self).iterations() == 0,
            final(self).cycle_start_view() == 0,
            final(self).cycle_view() == 0,
            final(self).steps_view() == 0,
            final(self).times().len() == 0,
            forall|k: int|
                0 <= k < final(self).entries().len() ==> (#[trigger] final(self).samples(k)).len()
                    == 0,
    {
        reset_rows(&mut self.objs_info);
        self.time.reset_data();
        self.cycle_start = 0;
        self.iterations_counter = 0;
        self.cycle = 0;
        self.steps = 0;
        proof {
            assert(self.entries() =~= old(self).entries());
        }
    }

    /// Decides whether a run to steady state takes one more step.
    ///
    /// Steady state is assumed, never detected: the run ends when the time
    /// limit is passed, which the caller tells, or, with an engine, when
    /// `MAX_CYCLES` full cycles of `STEPS_PER_CYCLE` steps are done,
    /// whichever comes first. Each time a cycle is full and the run goes on,
    /// the step at which the next cycle starts is noted, so that the last
    /// cycle can be told from those before it. Without an engine only the
    /// time limit ends the run.
    pub fn next_step(&mut self, time_exceeded: bool) -> (r: RunDecision)
        requires
            old(self).wf(),
        ensures
            final(self).wf(),
            final(self).same_objects(old(self)),
            final(self).iterations() == old(self).iterations(),
            final(self).times() == old(self).times(),
            forall|k: int|
                0 <= k < final(self).entries().len() ==> #[trigger] final(self).samples(k) == old(self).samples(k),
            (r, final(self).cycle_view(), final(self).steps_view(), final(self).cycle_start_view())
                == old(self).decision(time_exceeded),
    {
        if self.engine.is_some() {
            if self.cycle >= MAX_CYCLES {
                return RunDecision::Finished;
            }
            self.steps = self.steps + 1;
            if self.steps > STEPS_PER_CYCLE {
                self.steps = self.steps - STEPS_PER_CYCLE;
                self.cycle = self.cycle + 1;
                if self.cycle >= MAX_CYCLES {
                    return RunDecision::Finished;
                }
                self.cycle_start = self.iterations_counter;
            }
        }
        if time_exceeded {
            RunDecision::Finished
        } else {
            RunDecision::Advance
        }
    }

    /// What a run to steady state does next, and the counts it then holds:
    /// the decision, the full cycles done, the steps into the present cycle,
    /// and the step at which the present cycle started.
    pub open spec fn decision(&self, time_exceeded: bool) -> (RunDecision, nat, nat, nat) {
        let by_time = if time_exceeded {
            RunDecision::Finished
        } else {
            RunDecision::Advance
        };
        if self.engine_view() is None {
            (by_time, self.cycle_view(), self.steps_view(), self.cycle_start_view())
        } else if self.cycle_view() >= MAX_CYCLES {
            (RunDecision::Finished, self.cycle_view(), self.steps_view(), self.cycle_start_view())
        } else if self.steps_view() + 1 <= STEPS_PER_CYCLE {
            (by_time, self.cycle_view(), self.steps_view() + 1, self.cycle_start_view())
        } else if self.cycle_view() + 1 >= MAX_CYCLES {
            (RunDecision::Finished, self.cycle_view() + 1, 1, self.cycle_start_view())
        } else {
            (by_time, self.cycle_view() + 1, 1, self.iterations())
        }
    }

    /// Copies out the samples of the named object, each row with the time of
    /// its step in front, and their header with the header of the time in
    /// front.
    ///
    /// Without a range the rows are those of the last cycle that was begun:
    /// from the step at which it started to the last step recorded. A range
    /// must lie within the recorded steps.
    pub fn samples_of(&self, obj_name: &str, range: Option<(usize, usize)>) -> (r: Result<
        (String, Vec<Vec<u64>>),
        SystemError,
    >)
        requires
            self.wf(),
        ensures
            match r {
                Ok((header, rows)) => {
                    let (first, end) = self.range_of(range);
                    &&& crate::names::position_of(entry_names(self.entries()), obj_name@) matches Some(
                        k,
                    ) && {
                        &&& header@ == "time [s]\t"@ + self.header(k)
                        &&& rows_view(rows@) == timed(
                            self.times(),
                            self.samples(k),
                            first as int,
                            end as int,
                        )
                    }
                    &&& first <= end <= self.iterations()
                    &&& self.times().len() == self.iterations()
                    &&& crate::names::position_of(entry_names(self.entries()), obj_name@) matches Some(
                        k,
                    ) && self.samples(k).len() == self.iterations()
                },
                Err(e) => {
                    let (first, end) = self.range_of(range);
                    if crate::names::position_of(entry_names(self.entries()), obj_name@) is None {
                        e@ == SystemFault::UnknownObject(obj_name@)
                    } else {
                        !(first <= end <= self.iterations()) && e@ == SystemFault::Store(
                            StoreError::Range {
                                first: first,
                                end: end,
                                rows: self.iterations() as usize,
                            },
                        )
                    }
                },
            },
    {
        let (first, end) = match range {
            Some(r) => r,
            None => (self.cycle_start, self.iterations_counter),
        };
        let k: usize = match self.find(obj_name) {
            Some(k) => k,
            None => {
                return Err(SystemError::UnknownObject(obj_name.to_owned()));
            },
        };
        if first > end || end > self.iterations_counter {
            return Err(
                SystemError::Store(
                    StoreError::Range { first, end, rows: self.iterations_counter },
                ),
            );
        }
        let store = &self.objs_info[k].stored_data;
        let width: usize = store.num_variables();
        let mut columns: Vec<usize> = Vec::new();
        let mut c: usize = 0;
        while c < width
            invariant
                c <= width,
                columns.len() == c,
                forall|j: int| 0 <= j < c ==> columns[j] == j,
            decreases width - c,
        {
            columns.push(c);
            c = c + 1;
        }
        proof {
            lemma_all_columns(columns@, width as int);
        }
        let mut zero: Vec<usize> = Vec::new();
        zero.push(0);
        proof {
            lemma_all_columns(zero@, 1);
        }
        let data = match store.get_data((first, end), &columns) {
            Ok(data) => data,
            Err(e) => {
                return Err(SystemError::Store(e));
            },
        };
        let times = match self.time.get_data((first, end), &zero) {
            Ok(times) => times,
            Err(e) => {
                return Err(SystemError::Store(e));
            },
        };
        let mut rows: Vec<Vec<u64>> = Vec::new();
        let m: usize = end - first;
        let mut i: usize = 0;
        proof {
            let cut_data = crate::store::cut(store.rows(), first as int, end as int, columns@);
            let cut_time = crate::store::cut(self.time.rows(), first as int, end as int, zero@);
            assert(rows_view(data@).len() == m);
            assert(rows_view(times@).len() == m);
            assert forall|a: int| 0 <= a < m implies (#[trigger] data[a])@.len() == width by {
                assert(data[a]@ == rows_view(data@)[a]);
                assert(cut_data[a].len() == width);
            }
            assert forall|a: int| 0 <= a < m implies (#[trigger] times[a])@.len() == 1 by {
                assert(times[a]@ == rows_view(times@)[a]);
                assert(cut_time[a].len() == 1);
            }
        }
        while i < m
            invariant
                i <= m,
                m == end - first,
                m == data.len(),
                m == times.len(),
                width == columns.len(),
                forall|a: int| 0 <= a < m ==> (#[trigger] data[a])@.len() == width,
                forall|a: int| 0 <= a < m ==> (#[trigger] times[a])@.len() == 1,
                rows.len() == i,
                forall|a: int|
                    0 <= a < i ==> (#[trigger] rows[a])@ == seq![times[a]@[0]] + data[a]@,
            decreases m - i,
        {
            let mut row: Vec<u64> = Vec::new();
            row.push(times[i][0]);
            let source = &data[i];
            let mut j: usize = 0;
            while j < width
                invariant
                    j <= width,
                    source@.len() == width,
                    row@.len() == j + 1,
                    0 <= i < times.len(),
                    times[i as int]@.len() == 1,
                    row@[0] == times[i as int]@[0],
                    forall|b: int| 0 <= b < j ==> row@[b + 1] == source@[b],
                decreases width - j,
            {
                row.push(source[j]);
                j = j + 1;
            }
            assert(row@ =~= seq![times[i as int]@[0]] + source@);
            rows.push(row);
            i = i + 1;
        }
        let header = String::from_str("time [s]\t").concat(store.header());
        proof {
            let cut_data = crate::store::cut(store.rows(), first as int, end as int, columns@);
            let cut_time = crate::store::cut(self.time.rows(), first as int, end as int, zero@);
            assert forall|a: int| 0 <= a < m implies (#[trigger] rows[a])@ == timed(
                self.times(),
                self.samples(k as int),
                first as int,
                end as int,
            )[a] by {
                assert(data[a]@ == rows_view(data@)[a]);
                assert(times[a]@ == rows_view(times@)[a]);
                assert(cut_data[a] =~= store.rows()[first + a]);
                assert(cut_time[a][0] == self.time.rows()[first + a][0]);
            }
            assert(rows_view(rows@) =~= timed(
                self.times(),
                self.samples(k as int),
                first as int,
                end as int,
            ));
        }
        Ok((header, rows))
    }

    /// The places, in the list of objects, of the cylinders, in rising order.
    /// Their samples of the last cycle are what the performance of the engine
    /// is computed from.
    pub fn cylinder_entries(&self) -> (r: Vec<usize>)
        ensures
            r@ == cylinder_places(self.entries(), self.entries().len() as int),
    {
        let mut places: Vec<usize> = Vec::new();
        let n: usize = self.objs_info.len();
        let mut k: usize = 0;
        while k < n
            invariant
                n == self.objs_info.len(),
                n == self.entries().len(),
                k <= n,
                places@ == cylinder_places(self.entries(), k as int),
            decreases n - k,
        {
            assert(self.entries()[k as int].1 == self.objs_info[k as int].obj_type);
            match self.objs_info[k].obj_type {
                ObjectType::Cylinder => {
                    places.push(k);
                },
                _ => {},
            }
            k = k + 1;
        }
        places
    }

    /// Finds the first entry of the list of objects that has the given name.
    pub fn find(&self, obj_name: &str) -> (r: Option<usize>)
        ensures
            match r {
                Some(k) => crate::names::position_of(entry_names(self.entries()), obj_name@)
                    == Some(k as int) && k < self.entries().len(),
                None => crate::names::position_of(entry_names(self.entries()), obj_name@) is None,
            },
    {
        find_entry(&self.objs_info, obj_name)
    }

    /// The range of steps that is meant: the one given, or else the last
    /// cycle that was begun.
    pub open spec fn range_of(&self, range: Option<(usize, usize)>) -> (usize, usize) {
        match range {
            Some(r) => r,
            None => (self.cycle_start_view() as usize, self.iterations() as usize),
        }
    }
}

proof fn lemma_all_columns(columns: Seq<usize>, width: int)
    requires
        columns.len() == width,
        forall|j: int| 0 <= j < width ==> columns[j] == j,
    ensures
        crate::store::first_bad_column(columns, width) is None,
    decreases width,
{
    if width > 0 {
        lemma_all_columns(columns.drop_last(), width - 1);
        lemma_bad_column_grows(columns.drop_last(), width - 1, width);
    }
}

proof fn lemma_bad_column_grows(columns: Seq<usize>, narrow: int, wide: int)
    requires
        narrow <= wide,
        crate::store::first_bad_column(columns, narrow) is None,
    ensures
        crate::store::first_bad_column(columns, wide) is None,
    decreases columns.len(),
{
    if columns.len() > 0 {
        lemma_bad_column_grows(columns.drop_last(), narrow, wide);
    }
}


proof fn lemma_connected(names: Seq<Seq<char>>, endpoints: Seq<Seq<Seq<char>>>, n: int)
    requires
        first_unconnected(names, endpoints, n) is None,
    ensures
        forall|i: int|
            0 <= i < n ==> touching(endpoints, #[trigger] names[i], endpoints.len() as int).len()
                > 0,
    decreases n,
{
    if n > 0 {
        lemma_connected(names, endpoints, n - 1);
    }
}

proof fn lemma_resolved(
    zero_dim: Seq<Seq<char>>,
    one_dim: Seq<Seq<char>>,
    cylinders: Option<Seq<Seq<char>>>,
    endpoints: Seq<Seq<Seq<char>>>,
    n: int,
)
    requires
        first_unresolved(zero_dim, one_dim, cylinders, endpoints, n) is None,
    ensures
        forall|c: int|
            0 <= c < n ==> resolve_all(zero_dim, one_dim, cylinders, #[trigger] endpoints[c])
                is Ok,
    decreases n,
{
    if n > 0 {
        lemma_resolved(zero_dim, one_dim, cylinders, endpoints, n - 1);
    }
}

proof fn lemma_registered(
    zero_dim: Seq<Seq<char>>,
    one_dim: Seq<Seq<char>>,
    cylinders: Option<Seq<Seq<char>>>,
    connectors: Seq<Seq<char>>,
    entries: Seq<(Seq<char>, ObjectType, int)>,
    n: int,
)
    requires
        first_unregistered(zero_dim, one_dim, cylinders, connectors, entries, n) is None,
    ensures
        forall|k: int|
            0 <= k < n ==> registered(
                zero_dim,
                one_dim,
                cylinders,
                connectors,
                #[trigger] entries[k],
            ),
    decreases n,
{
    if n > 0 {
        lemma_registered(zero_dim, one_dim, cylinders, connectors, entries, n - 1);
    }
}

/// Every connector that is listed for a control volume is a connector of the
/// system and has the volume among its endpoints.
pub open spec fn links_hold(
    names: Seq<Seq<char>>,
    links: Seq<Seq<(ObjectType, usize)>>,
    connectors: Seq<Connector>,
) -> bool {
    &&& links.len() == names.len()
    &&& forall|i: int| 0 <= i < links.len() ==> (#[trigger] links[i]).len() > 0
    &&& forall|i: int, k: int|
        0 <= i < links.len() && 0 <= k < links[i].len() ==> {
            let entry = #[trigger] links[i][k];
            &&& entry.0 == ObjectType::Connector
            &&& entry.1 < connectors.len()
            &&& connectors[entry.1 as int].endpoints().contains(names[i])
        }
}

proof fn lemma_links_hold(names: Seq<Seq<char>>, connectors: Seq<Connector>)
    requires
        connectors.len() <= usize::MAX,
        first_unconnected(names, endpoints_of(connectors), names.len() as int) is None,
    ensures
        links_hold(names, links_of(names, endpoints_of(connectors)), connectors),
{
    let ends = endpoints_of(connectors);
    let links = links_of(names, ends);
    lemma_connected(names, ends, names.len() as int);
    assert forall|i: int, k: int| 0 <= i < links.len() && 0 <= k < links[i].len() implies {
        let entry = #[trigger] links[i][k];
        &&& entry.0 == ObjectType::Connector
        &&& entry.1 < connectors.len()
        &&& connectors[entry.1 as int].endpoints().contains(names[i])
    } by {
        crate::topology::lemma_touching(ends, names[i], ends.len() as int);
        let entry = touching(ends, names[i], ends.len() as int)[k];
        assert(entry.1 < ends.len());
    }
}

/// In a system no lookup fails while it runs: every connector that is listed
/// for a control volume exists and knows the volume by its name, every
/// endpoint of a connector is resolved to an object of that name, and every
/// entry of the list of objects points at an object of its name.
pub proof fn lemma_lookups_hold(sys: &System)
    requires
        sys.wf(),
        sys.connectors().len() <= usize::MAX,
        sys.zero_dim_names().len() <= usize::MAX,
        sys.one_dim_names().len() <= usize::MAX,
        or_none(sys.cylinder_names()).len() <= usize::MAX,
    ensures
        links_hold(sys.zero_dim_names(), sys.zero_dim_links(), sys.connectors()),
        links_hold(sys.one_dim_names(), sys.one_dim_links(), sys.connectors()),
        links_hold(or_none(sys.cylinder_names()), sys.cylinder_links(), sys.connectors()),
        sys.connector_links().len() == sys.connectors().len(),
        forall|c: int|
            0 <= c < sys.connectors().len() ==> (#[trigger] sys.connector_links()[c]).len()
                == sys.connectors()[c].endpoints().len(),
        forall|c: int, k: int|
            0 <= c < sys.connectors().len() && 0 <= k < sys.connector_links()[c].len()
                ==> crate::topology::points_at(
                sys.zero_dim_names(),
                sys.one_dim_names(),
                sys.cylinder_names(),
                #[trigger] sys.connector_links()[c][k],
                sys.connectors()[c].endpoints()[k],
            ),
        forall|k: int|
            0 <= k < sys.entries().len() ==> registered(
                sys.zero_dim_names(),
                sys.one_dim_names(),
                sys.cylinder_names(),
                connector_names(sys.connectors()),
                #[trigger] sys.entries()[k],
            ),
{
    let zero = sys.zero_dim_names();
    let one = sys.one_dim_names();
    let cyl = sys.cylinder_names();
    let connectors = sys.connectors();
    let ends = endpoints_of(connectors);
    lemma_links_hold(zero, connectors);
    lemma_links_hold(one, connectors);
    lemma_links_hold(or_none(cyl), connectors);
    lemma_resolved(zero, one, cyl, ends, ends.len() as int);
    lemma_registered(
        zero,
        one,
        cyl,
        connector_names(connectors),
        sys.entries(),
        sys.entries().len() as int,
    );
    assert forall|c: int| 0 <= c < connectors.len() implies {
        &&& (#[trigger] sys.connector_links()[c]).len() == connectors[c].endpoints().len()
        &&& forall|k: int|
            0 <= k < sys.connector_links()[c].len() ==> crate::topology::points_at(
                zero,
                one,
                cyl,
                #[trigger] sys.connector_links()[c][k],
                connectors[c].endpoints()[k],
            )
    } by {
        assert(resolve_all(zero, one, cyl, ends[c]) is Ok);
        crate::topology::lemma_resolve_all(zero, one, cyl, ends[c]);
    }
}

/// The cycles done and the steps into the present cycle, after the given
/// number of steps of a run with an engine.
pub open spec fn run_counts(taken: nat) -> (nat, nat)
    decreases taken,
{
    if taken == 0 {
        (0, 0)
    } else {
        let (cycle, steps) = run_counts((taken - 1) as nat);
        if steps + 1 <= STEPS_PER_CYCLE {
            (cycle, steps + 1)
        } else {
            (cycle + 1, 1)
        }
    }
}

/// After `taken` steps the run is in cycle `(taken - 1) / STEPS_PER_CYCLE`,
/// at step `(taken - 1) % STEPS_PER_CYCLE + 1` of it.
pub proof fn lemma_run_counts(taken: nat)
    requires
        taken >= 1,
    ensures
        run_counts(taken) == (
            ((taken - 1) / (STEPS_PER_CYCLE as int)) as nat,
            ((taken - 1) % (STEPS_PER_CYCLE as int) + 1) as nat,
        ),
    decreases taken,
{
    if taken == 1 {
        assert(run_counts(0) == (0nat, 0nat));
    } else {
        lemma_run_counts((taken - 1) as nat);
        let m: int = taken - 2;
        let q: int = m / 7200;
        let r: int = m % 7200;
        assert(m == 7200 * q + r && 0 <= r < 7200);
        if r < 7199 {
            assert((m + 1) / 7200 == q && (m + 1) % 7200 == r + 1);
        } else {
            assert((m + 1) / 7200 == q + 1 && (m + 1) % 7200 == 0);
        }
    }
}

/// A run to steady state with an engine, which the time limit does not end,
/// takes `MAX_CYCLES` times `STEPS_PER_CYCLE` steps and no more: as long as
/// fewer steps are taken the run goes on, and after that many it is over.
/// Before each step the counts are those of `run_counts`.
pub proof fn lemma_run_length(sys: &System, taken: nat)
    requires
        sys.engine_view() is Some,
        taken <= MAX_CYCLES * STEPS_PER_CYCLE,
        (sys.cycle_view(), sys.steps_view()) == run_counts(taken),
    ensures
        taken < MAX_CYCLES * STEPS_PER_CYCLE ==> {
            &&& sys.decision(false).0 == RunDecision::Advance
            &&& (sys.decision(false).1, sys.decision(false).2) == run_counts(taken + 1)
        },
        taken == MAX_CYCLES * STEPS_PER_CYCLE ==> {
            &&& sys.decision(false).0 == RunDecision::Finished
            &&& sys.decision(true).0 == RunDecision::Finished
        },
{
    if taken >= 1 {
        lemma_run_counts(taken);
    }
    lemma_run_counts(taken + 1);
}

} // verus!
