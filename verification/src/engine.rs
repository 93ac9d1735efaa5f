//! The layout of an engine: its cylinders in firing order, their valves, and
//! the models of injection and combustion that it runs with.
//!
//! An engine is described by a record: a firing order such as `1-3-2`, the
//! cylinders with the names of their valves, and, where the engine burns fuel,
//! an injector and a combustion model. The layout is what this record decides
//! before any number is computed: which cylinder fires when, which valve
//! belongs to which cylinder, and whether the gas holds the species that the
//! models need.

use vstd::prelude::*;
use vstd::string::*;
use crate::composition::SpeciesTable;
use crate::names::{lemma_position_of, position, position_of, same_text};
use crate::text::{decimal_value, fields, is_decimal, parse_decimal, split_fields};

verus! {

/// How fuel comes into a cylinder.
#[derive(Debug, Clone, Copy, PartialEq, Eq, Structural)]
pub enum InjectorKind {
    /// Into the intake port: a fixed share of the fresh charge is fuel.
    Port,
    /// Into the cylinder itself.
    Direct,
}

/// How heat is released in a cylinder.
#[derive(Debug, Clone, Copy, PartialEq, Eq, Structural)]
pub enum CombustionKind {
    /// No combustion: the engine is motored.
    NoCombustion,
    /// A burned and an unburned zone, with a Wiebe function for the burned share.
    TwoZone,
}

/// The fuels whose lower heating value is known.
#[derive(Debug, Clone, Copy, PartialEq, Eq, Structural)]
pub enum KnownFuel {
    /// `CH4`
    Methane,
    /// `C2H5OH`
    Ethanol,
    /// `C8H18`
    Octane,
}

/// On which side of a cylinder a valve sits.
#[derive(Debug, Clone, Copy, PartialEq, Eq, Structural)]
pub enum ValveRole {
    Intake,
    Exhaust,
}

/// The injector of an engine record.
#[derive(Debug, Clone)]
pub struct InjectorConfig {
    /// `port` or `direct`.
    pub inj_type: String,
    /// The name of the fuel, a species of the gas.
    pub fuel_name: String,
    /// Whether the record gives the lower heating value of the fuel. Where
    /// it gives none, the fuel must be one whose value is known.
    pub has_lhv: bool,
}

/// One cylinder of an engine record.
#[derive(Debug, Clone)]
pub struct CylinderConfig {
    pub name: String,
    /// Whether the species in the cylinder are stored with its samples; `None`
    /// stands for no.
    pub store_species: Option<bool>,
    /// The names of the intake valves.
    pub intake_valves: Vec<String>,
    /// The names of the exhaust valves.
    pub exhaust_valves: Vec<String>,
}

/// An engine record, as far as the layout depends on it.
#[derive(Debug, Clone)]
pub struct EngineConfig {
    /// The firing order: 1-based indices parted by hyphens, one per cylinder.
    pub firing_order: String,
    /// The name of the combustion model, where the engine has one.
    pub combustion: Option<String>,
    pub injector: Option<InjectorConfig>,
    pub cylinders: Vec<CylinderConfig>,
}

/// One cylinder of a layout.
#[derive(Debug, Clone)]
pub struct CylinderLayout {
    pub name: String,
    /// The cylinder's place in the firing order, counted from zero: the
    /// cylinder starts `firing_slot` divisions of the cycle after the first.
    pub firing_slot: u32,
    pub store_species: bool,
}

/// One valve of a layout.
#[derive(Debug, Clone)]
pub struct ValveLayout {
    pub name: String,
    /// The place of the valve's cylinder among the cylinders of the layout.
    pub cylinder: usize,
    pub role: ValveRole,
}

impl DeepView for CylinderLayout {
    type V = (Seq<char>, u32, bool);

    open spec fn deep_view(&self) -> (Seq<char>, u32, bool) {
        (self.name@, self.firing_slot, self.store_species)
    }
}

impl DeepView for ValveLayout {
    type V = (Seq<char>, int, ValveRole);

    open spec fn deep_view(&self) -> (Seq<char>, int, ValveRole) {
        (self.name@, self.cylinder as int, self.role)
    }
}

/// Why an engine record gives no layout.
#[derive(Debug, Clone)]
pub enum EngineError {
    /// A field of the firing order is no index: not a decimal numeral from 1 up.
    BadFiringOrder(String),
    /// The firing order has not one index per cylinder.
    LengthMismatch { firing_order: usize, cylinders: usize },
    /// A combustion model needs an injector, and the record has none.
    CombustionWithoutInjector,
    /// The gas does not hold a species that the engine needs.
    MissingSpecies(String),
    /// The injector is neither `port` nor `direct`.
    UnknownInjectorType(String),
    /// The record gives no lower heating value for the fuel, and none is
    /// known for it.
    NoHeatingValue(String),
}

/// The model of an `EngineError`.
pub enum EngineFault {
    BadFiringOrder(Seq<char>),
    LengthMismatch { firing_order: int, cylinders: int },
    CombustionWithoutInjector,
    MissingSpecies(Seq<char>),
    UnknownInjectorType(Seq<char>),
    NoHeatingValue(Seq<char>),
}

impl View for EngineError {
    type V = EngineFault;

    open spec fn view(&self) -> EngineFault {
        match self {
            EngineError::BadFiringOrder(field) => EngineFault::BadFiringOrder(field@),
            EngineError::LengthMismatch { firing_order, cylinders } => EngineFault::LengthMismatch {
                firing_order: *firing_order as int,
                cylinders: *cylinders as int,
            },
            EngineError::CombustionWithoutInjector => EngineFault::CombustionWithoutInjector,
            EngineError::MissingSpecies(name) => EngineFault::MissingSpecies(name@),
            EngineError::UnknownInjectorType(name) => EngineFault::UnknownInjectorType(name@),
            EngineError::NoHeatingValue(name) => EngineFault::NoHeatingValue(name@),
        }
    }
}

/// The index that a field of a firing order writes: a decimal numeral from 1
/// up that fits 32 bits.
pub open spec fn order_of(field: Seq<char>) -> Option<u32> {
    if is_decimal(field) && 1 <= decimal_value(field) <= u32::MAX {
        Some(decimal_value(field) as u32)
    } else {
        None
    }
}

/// The indices that the fields write, or the first field that writes none.
pub open spec fn orders_of(list: Seq<Seq<char>>) -> Result<Seq<u32>, Seq<char>>
    decreases list.len(),
{
    if list.len() == 0 {
        Ok(Seq::empty())
    } else {
        match orders_of(list.drop_last()) {
            Err(field) => Err(field),
            Ok(done) => match order_of(list.last()) {
                None => Err(list.last()),
                Some(v) => Ok(done.push(v)),
            },
        }
    }
}

/// The indices of a firing order such as `1-3-2`.
pub open spec fn firing_order_of(text: Seq<char>) -> Result<Seq<u32>, Seq<char>> {
    orders_of(fields(text, '-'))
}

/// The highest of the indices; 0 where there is none.
pub open spec fn highest(orders: Seq<u32>) -> u32
    decreases orders.len(),
{
    if orders.len() == 0 {
        0
    } else {
        let h = highest(orders.drop_last());
        if orders.last() > h {
            orders.last()
        } else {
            h
        }
    }
}

/// The kind that an injector's type names.
pub open spec fn injector_kind_of(name: Seq<char>) -> Option<InjectorKind> {
    if name == "port"@ {
        Some(InjectorKind::Port)
    } else if name == "direct"@ {
        Some(InjectorKind::Direct)
    } else {
        None
    }
}

/// The fuel of known heating value that a name stands for.
pub open spec fn known_fuel_of(name: Seq<char>) -> Option<KnownFuel> {
    if name == "CH4"@ {
        Some(KnownFuel::Methane)
    } else if name == "C2H5OH"@ {
        Some(KnownFuel::Ethanol)
    } else if name == "C8H18"@ {
        Some(KnownFuel::Octane)
    } else {
        None
    }
}

/// The kind of combustion that a record asks for: the two-zone model where it
/// names it, and none where it names no model or one that is not known.
pub open spec fn combustion_kind_of(model: Option<String>) -> CombustionKind {
    match model {
        Some(name) => if name@ == "Two-zone model"@ {
            CombustionKind::TwoZone
        } else {
            CombustionKind::NoCombustion
        },
        None => CombustionKind::NoCombustion,
    }
}

/// The names of the cylinders of a record, in its order.
pub open spec fn cylinder_names(cylinders: Seq<CylinderConfig>) -> Seq<Seq<char>> {
    Seq::new(cylinders.len(), |i: int| cylinders[i].name@)
}

/// The valves of one cylinder of a record: its intake valves, then its
/// exhaust valves. Each belongs to the first cylinder of that name.
pub open spec fn valves_of_cylinder(names: Seq<Seq<char>>, c: CylinderConfig) -> Seq<
    (Seq<char>, int, ValveRole),
> {
    let owner = match position_of(names, c.name@) {
        Some(i) => i,
        None => 0,
    };
    Seq::new(
        c.intake_valves@.len(),
        |j: int| (c.intake_valves@[j]@, owner, ValveRole::Intake),
    ) + Seq::new(
        c.exhaust_valves@.len(),
        |j: int| (c.exhaust_valves@[j]@, owner, ValveRole::Exhaust),
    )
}

/// The valves of the first `k` cylinders of a record, cylinder by cylinder.
pub open spec fn valves_of(cylinders: Seq<CylinderConfig>, k: int) -> Seq<
    (Seq<char>, int, ValveRole),
>
    decreases k,
{
    if k <= 0 {
        Seq::empty()
    } else {
        valves_of(cylinders, k - 1) + valves_of_cylinder(
            cylinder_names(cylinders),
            cylinders[k - 1],
        )
    }
}

/// The cylinders of a layout: each cylinder of the record with its place in
/// the firing order, counted from zero.
pub open spec fn cylinders_of(cylinders: Seq<CylinderConfig>, orders: Seq<u32>) -> Seq<
    (Seq<char>, u32, bool),
> {
    Seq::new(
        cylinders.len(),
        |i: int|
            (
                cylinders[i].name@,
                (orders[i] - 1) as u32,
                match cylinders[i].store_species {
                    Some(s) => s,
                    None => false,
                },
            ),
    )
}

/// Why a record gives no layout with a gas of the given species, if it gives
/// none. The tests run in this order: the firing order, its length, the
/// injector that a combustion model needs, the species of air, the fuel and
/// its heating value, the injector's type, and the products of the two-zone
/// model.
pub open spec fn engine_fault(config: EngineConfig, species: Seq<Seq<char>>) -> Option<
    EngineFault,
> {
    match firing_order_of(config.firing_order@) {
        Err(field) => Some(EngineFault::BadFiringOrder(field)),
        Ok(orders) => if orders.len() != config.cylinders@.len() {
            Some(
                EngineFault::LengthMismatch {
                    firing_order: orders.len() as int,
                    cylinders: config.cylinders@.len() as int,
                },
            )
        } else if config.combustion is Some && config.injector is None {
            Some(EngineFault::CombustionWithoutInjector)
        } else if !species.contains("O2"@) {
            Some(EngineFault::MissingSpecies("O2"@))
        } else if !species.contains("N2"@) {
            Some(EngineFault::MissingSpecies("N2"@))
        } else {
            match config.injector {
                None => None,
                Some(injector) => if !species.contains(injector.fuel_name@) {
                    Some(EngineFault::MissingSpecies(injector.fuel_name@))
                } else if !injector.has_lhv && known_fuel_of(injector.fuel_name@) is None {
                    Some(EngineFault::NoHeatingValue(injector.fuel_name@))
                } else if injector_kind_of(injector.inj_type@) is None {
                    Some(EngineFault::UnknownInjectorType(injector.inj_type@))
                } else if combustion_kind_of(config.combustion) == CombustionKind::TwoZone {
                    if !species.contains("CO2"@) {
                        Some(EngineFault::MissingSpecies("CO2"@))
                    } else if !species.contains("H2O"@) {
                        Some(EngineFault::MissingSpecies("H2O"@))
                    } else {
                        None
                    }
                } else {
                    None
                },
            }
        },
    }
}

proof fn lemma_bad_field_stays(list: Seq<Seq<char>>, k: int)
    requires
        0 <= k <= list.len(),
        orders_of(list.take(k)) is Err,
    ensures
        orders_of(list) == orders_of(list.take(k)),
    decreases list.len() - k,
{
    if k == list.len() {
        assert(list.take(k) =~= list);
    } else {
        assert(list.take(k + 1).drop_last() =~= list.take(k));
        lemma_bad_field_stays(list, k + 1);
    }
}

/// Every index of a firing order lies between 1 and the highest of them, and
/// a firing order has at least one index.
pub proof fn lemma_orders_bounded(list: Seq<Seq<char>>)
    ensures
        orders_of(list) matches Ok(orders) ==> {
            &&& orders.len() == list.len()
            &&& forall|i: int| 0 <= i < orders.len() ==> 1 <= #[trigger] orders[i] <= highest(orders)
        },
    decreases list.len(),
{
    if list.len() > 0 {
        lemma_orders_bounded(list.drop_last());
        match orders_of(list) {
            Ok(orders) => {
                let done = orders_of(list.drop_last())->Ok_0;
                assert(orders.drop_last() =~= done);
                assert forall|i: int| 0 <= i < orders.len() implies 1 <= #[trigger] orders[i]
                    <= highest(orders) by {
                    if i < done.len() {
                        assert(orders[i] == done[i]);
                    }
                }
            },
            Err(_) => {},
        }
    }
}

/// Reads a firing order such as `1-3-2`: indices from 1 up, parted by hyphens.
/// The error is the first field that is no such index.
pub fn parse_firing_order(text: &str) -> (r: Result<Vec<u32>, EngineError>)
    ensures
        match r {
            Ok(orders) => firing_order_of(text@) == Ok::<Seq<u32>, Seq<char>>(orders@),
            Err(e) => firing_order_of(text@) matches Err(field) && e@
                == EngineFault::BadFiringOrder(field),
        },
{
    let list = split_fields(text, '-');
    let mut out: Vec<u32> = Vec::new();
    let n: usize = list.len();
    let mut k: usize = 0;
    proof {
        assert(list.deep_view().take(0) =~= Seq::empty());
    }
    while k < n
        invariant
            n == list.len(),
            k <= n,
            list.deep_view() == fields(text@, '-'),
            orders_of(list.deep_view().take(k as int)) == Ok::<Seq<u32>, Seq<char>>(out@),
        decreases n - k,
    {
        proof {
            assert(list.deep_view().take(k + 1).drop_last() =~= list.deep_view().take(k as int));
            assert(list.deep_view().take(k + 1).last() == list[k as int]@);
        }
        match parse_decimal(list[k].as_str()) {
            Some(v) => {
                if v == 0 {
                    proof {
                        lemma_bad_field_stays(list.deep_view(), k + 1);
                    }
                    return Err(EngineError::BadFiringOrder(list[k].clone()));
                }
                out.push(v);
            },
            None => {
                proof {
                    lemma_bad_field_stays(list.deep_view(), k + 1);
                }
                return Err(EngineError::BadFiringOrder(list[k].clone()));
            },
        }
        k = k + 1;
    }
    assert(list.deep_view().take(n as int) =~= list.deep_view());
    Ok(out)
}

/// The highest index of a firing order.
pub fn highest_order(orders: &Vec<u32>) -> (r: u32)
    ensures
        r == highest(orders@),
{
    let mut h: u32 = 0;
    let n: usize = orders.len();
    let mut i: usize = 0;
    while i < n
        invariant
            n == orders.len(),
            i <= n,
            h == highest(orders@.take(i as int)),
        decreases n - i,
    {
        proof {
            assert(orders@.take(i + 1).drop_last() =~= orders@.take(i as int));
        }
        if orders[i] > h {
            h = orders[i];
        }
        i = i + 1;
    }
    assert(orders@.take(n as int) =~= orders@);
    h
}

/// Tells which fuel of known heating value a name stands for, if any.
pub fn known_fuel(name: &str) -> (r: Option<KnownFuel>)
    ensures
        r == known_fuel_of(name@),
{
    if same_text(name, "CH4") {
        Some(KnownFuel::Methane)
    } else if same_text(name, "C2H5OH") {
        Some(KnownFuel::Ethanol)
    } else if same_text(name, "C8H18") {
        Some(KnownFuel::Octane)
    } else {
        None
    }
}

/// Reads the type of an injector: `port` or `direct`.
pub fn parse_injector_kind(name: &str) -> (r: Option<InjectorKind>)
    ensures
        r == injector_kind_of(name@),
{
    if same_text(name, "port") {
        Some(InjectorKind::Port)
    } else if same_text(name, "direct") {
        Some(InjectorKind::Direct)
    } else {
        None
    }
}

/// The layout of an engine.
#[derive(Debug, Clone)]
pub struct Engine {
    firing_order: String,
    divisions: u32,
    cylinders: Vec<CylinderLayout>,
    valves: Vec<ValveLayout>,
    combustion: CombustionKind,
    model_known: bool,
    injector: Option<InjectorKind>,
}

impl Engine {
    /// The firing order as the record wrote it.
    pub closed spec fn firing_order_view(&self) -> Seq<char> {
        self.firing_order@
    }

    /// Into how many divisions the firing order parts the cycle of 720
    /// degrees: its highest index.
    pub closed spec fn divisions_view(&self) -> u32 {
        self.divisions
    }

    /// The cylinders: name, place in the firing order, and whether species
    /// are stored.
    pub closed spec fn cylinders_view(&self) -> Seq<(Seq<char>, u32, bool)> {
        self.cylinders.deep_view()
    }

    /// The valves: name, place of the cylinder, and side.
    pub closed spec fn valves_view(&self) -> Seq<(Seq<char>, int, ValveRole)> {
        self.valves.deep_view()
    }

    /// The kind of combustion.
    pub closed spec fn combustion_view(&self) -> CombustionKind {
        self.combustion
    }

    /// Whether the record named no combustion model or one that is known.
    pub closed spec fn model_known_view(&self) -> bool {
        self.model_known
    }

    /// The kind of injector, where the engine has one.
    pub closed spec fn injector_view(&self) -> Option<InjectorKind> {
        self.injector
    }

    /// The names of the cylinders, in order.
    pub open spec fn names_view(&self) -> Seq<Seq<char>> {
        Seq::new(self.cylinders_view().len(), |i: int| self.cylinders_view()[i].0)
    }

    /// A layout has a cylinder, every cylinder fires within the cycle, every
    /// valve belongs to a cylinder, and combustion has an injector.
    pub open spec fn wf(&self) -> bool {
        &&& self.cylinders_view().len() >= 1
        &&& self.divisions_view() >= 1
        &&& forall|i: int|
            0 <= i < self.cylinders_view().len() ==> (#[trigger] self.cylinders_view()[i]).1
                < self.divisions_view()
        &&& forall|j: int|
            0 <= j < self.valves_view().len() ==> 0 <= (#[trigger] self.valves_view()[j]).1
                < self.cylinders_view().len()
        &&& self.combustion_view() == CombustionKind::TwoZone ==> self.injector_view() is Some
    }

    /// The layout is that of the record: the cylinders of the record in its
    /// order, each at its place in the firing order; the valves cylinder by
    /// cylinder, intake before exhaust; the two-zone model where the record
    /// names it; and the injector of the record.
    pub open spec fn lays_out(&self, config: EngineConfig) -> bool {
        &&& self.wf()
        &&& self.firing_order_view() == config.firing_order@
        &&& firing_order_of(config.firing_order@) matches Ok(orders) && {
            &&& self.divisions_view() == highest(orders)
            &&& self.cylinders_view() == cylinders_of(config.cylinders@, orders)
        }
        &&& self.valves_view() == valves_of(config.cylinders@, config.cylinders@.len() as int)
        &&& self.combustion_view() == combustion_kind_of(config.combustion)
        &&& self.model_known_view() == (config.combustion matches Some(model) ==> model@
            == "Two-zone model"@)
        &&& self.injector_view() == match config.injector {
            Some(injector) => injector_kind_of(injector.inj_type@),
            None => None,
        }
    }

    /// Lays out the engine of a record, for a gas of the given species.
    ///
    /// The record is refused where its firing order is no list of indices
    /// from 1 up or has not one index per cylinder, where it names a
    /// combustion model without an injector, where the injector's type is not
    /// known, where the fuel has no heating value, and where the gas lacks
    /// oxygen or nitrogen, the fuel, or, for the two-zone model, carbon
    /// dioxide or water. A combustion model other
    /// than `Two-zone model` is not refused: the engine then runs without
    /// combustion, and `model_known` tells so.
    pub fn new(config: &EngineConfig, species: &SpeciesTable) -> (r: Result<Engine, EngineError>)
        ensures
            match r {
                Ok(e) => engine_fault(*config, species@) is None && e.lays_out(*config),
                Err(x) => engine_fault(*config, species@) == Some(x@),
            },
    {
        let orders = match parse_firing_order(config.firing_order.as_str()) {
            Ok(orders) => orders,
            Err(e) => {
                return Err(e);
            },
        };
        let n: usize = config.cylinders.len();
        if orders.len() != n {
            return Err(EngineError::LengthMismatch { firing_order: orders.len(), cylinders: n });
        }
        if config.combustion.is_some() && config.injector.is_none() {
            return Err(EngineError::CombustionWithoutInjector);
        }
        if !species.contains_specie("O2") {
            return Err(EngineError::MissingSpecies("O2".to_owned()));
        }
        if !species.contains_specie("N2") {
            return Err(EngineError::MissingSpecies("N2".to_owned()));
        }
        let known = match &config.combustion {
            Some(model) => same_text(model.as_str(), "Two-zone model"),
            None => true,
        };
        let combustion = if config.combustion.is_some() && known {
            CombustionKind::TwoZone
        } else {
            CombustionKind::NoCombustion
        };
        let injector = match &config.injector {
            None => None,
            Some(inj) => {
                if !species.contains_specie(inj.fuel_name.as_str()) {
                    return Err(EngineError::MissingSpecies(inj.fuel_name.clone()));
                }
                if !inj.has_lhv && known_fuel(inj.fuel_name.as_str()).is_none() {
                    return Err(EngineError::NoHeatingValue(inj.fuel_name.clone()));
                }
                let kind = match parse_injector_kind(inj.inj_type.as_str()) {
                    Some(kind) => kind,
                    None => {
                        return Err(EngineError::UnknownInjectorType(inj.inj_type.clone()));
                    },
                };
                if combustion == CombustionKind::TwoZone {
                    if !species.contains_specie("CO2") {
                        return Err(EngineError::MissingSpecies("CO2".to_owned()));
                    }
                    if !species.contains_specie("H2O") {
                        return Err(EngineError::MissingSpecies("H2O".to_owned()));
                    }
                }
                Some(kind)
            },
        };
        let divisions = highest_order(&orders);
        proof {
            crate::text::lemma_fields(config.firing_order@, '-');
            lemma_orders_bounded(fields(config.firing_order@, '-'));
        }
        let mut cylinders: Vec<CylinderLayout> = Vec::new();
        let mut names: Vec<String> = Vec::new();
        let mut i: usize = 0;
        while i < n
            invariant
                n == config.cylinders.len(),
                n == orders.len(),
                i <= n,
                forall|k: int| 0 <= k < orders.len() ==> 1 <= #[trigger] orders[k] <= divisions,
                cylinders.len() == i,
                names.len() == i,
                forall|k: int|
                    0 <= k < i ==> (#[trigger] cylinders[k]).deep_view() == cylinders_of(
                        config.cylinders@,
                        orders@,
                    )[k],
                forall|k: int| 0 <= k < i ==> (#[trigger] names[k])@ == config.cylinders[k].name@,
            decreases n - i,
        {
            let c = &config.cylinders[i];
            let store_species = match c.store_species {
                Some(s) => s,
                None => false,
            };
            cylinders.push(
                CylinderLayout { name: c.name.clone(), firing_slot: orders[i] - 1, store_species },
            );
            names.push(c.name.clone());
            i = i + 1;
        }
        assert(cylinders.deep_view() =~= cylinders_of(config.cylinders@, orders@));
        assert(names.deep_view() =~= cylinder_names(config.cylinders@));
        let mut valves: Vec<ValveLayout> = Vec::new();
        let mut k: usize = 0;
        assert(valves.deep_view() =~= valves_of(config.cylinders@, 0));
        while k < n
            invariant
                n == config.cylinders.len(),
                k <= n,
                names.deep_view() == cylinder_names(config.cylinders@),
                valves.deep_view() == valves_of(config.cylinders@, k as int),
                forall|j: int| 0 <= j < valves.len() ==> (#[trigger] valves[j]).cylinder < n,
            decreases n - k,
        {
            let c = &config.cylinders[k];
            proof {
                lemma_position_of(names.deep_view(), c.name@);
                assert(names.deep_view()[k as int] == c.name@);
            }
            let owner: usize = match position(&names, c.name.as_str()) {
                Some(p) => p,
                None => 0,
            };
            let ghost done = valves.deep_view();
            let ghost own = valves_of_cylinder(cylinder_names(config.cylinders@), *c);
            let a: usize = c.intake_valves.len();
            let mut j: usize = 0;
            while j < a
                invariant
                    a == c.intake_valves.len(),
                    j <= a,
                    owner < n,
                    valves.deep_view() == done + Seq::new(
                        j as nat,
                        |t: int| (c.intake_valves@[t]@, owner as int, ValveRole::Intake),
                    ),
                    forall|t: int| 0 <= t < valves.len() ==> (#[trigger] valves[t]).cylinder < n,
                decreases a - j,
            {
                let ghost was = valves.deep_view();
                valves.push(
                    ValveLayout {
                        name: c.intake_valves[j].clone(),
                        cylinder: owner,
                        role: ValveRole::Intake,
                    },
                );
                assert(valves.deep_view() =~= was.push(
                    (c.intake_valves@[j as int]@, owner as int, ValveRole::Intake),
                ));
                j = j + 1;
                assert(valves.deep_view() =~= done + Seq::new(
                    j as nat,
                    |t: int| (c.intake_valves@[t]@, owner as int, ValveRole::Intake),
                ));
            }
            let ghost half = valves.deep_view();
            let b: usize = c.exhaust_valves.len();
            let mut j: usize = 0;
            while j < b
                invariant
                    b == c.exhaust_valves.len(),
                    j <= b,
                    owner < n,
                    valves.deep_view() == half + Seq::new(
                        j as nat,
                        |t: int| (c.exhaust_valves@[t]@, owner as int, ValveRole::Exhaust),
                    ),
                    forall|t: int| 0 <= t < valves.len() ==> (#[trigger] valves[t]).cylinder < n,
                decreases b - j,
            {
                let ghost was = valves.deep_view();
                valves.push(
                    ValveLayout {
                        name: c.exhaust_valves[j].clone(),
                        cylinder: owner,
                        role: ValveRole::Exhaust,
                    },
                );
                assert(valves.deep_view() =~= was.push(
                    (c.exhaust_valves@[j as int]@, owner as int, ValveRole::Exhaust),
                ));
                j = j + 1;
                assert(valves.deep_view() =~= half + Seq::new(
                    j as nat,
                    |t: int| (c.exhaust_valves@[t]@, owner as int, ValveRole::Exhaust),
                ));
            }
            k = k + 1;
            assert(valves.deep_view() =~= done + own);
        }
        let e = Engine {
            firing_order: config.firing_order.clone(),
            divisions,
            cylinders,
            valves,
            combustion,
            model_known: known,
            injector,
        };
        proof {
            assert forall|j: int| 0 <= j < e.valves_view().len() implies 0 <= (
            #[trigger] e.valves_view()[j]).1 < e.cylinders_view().len() by {
                assert(e.valves_view()[j].1 == e.valves[j].cylinder);
            }
        }
        Ok(e)
    }

    /// The firing order as the record wrote it.
    pub fn firing_order(&self) -> (r: String)
        ensures
            r@ == self.firing_order_view(),
    {
        self.firing_order.clone()
    }

    /// Into how many divisions the firing order parts the cycle.
    pub fn divisions(&self) -> (r: u32)
        ensures
            r == self.divisions_view(),
    {
        self.divisions
    }

    /// The cylinders of the engine, in the order of the record.
    pub fn cylinders(&self) -> (r: &Vec<CylinderLayout>)
        ensures
            r.deep_view() == self.cylinders_view(),
    {
        &self.cylinders
    }

    /// The valves of the engine: cylinder by cylinder, intake before exhaust.
    pub fn valves(&self) -> (r: &Vec<ValveLayout>)
        ensures
            r.deep_view() == self.valves_view(),
    {
        &self.valves
    }

    /// The kind of combustion.
    pub fn combustion(&self) -> (r: CombustionKind)
        ensures
            r == self.combustion_view(),
    {
        self.combustion
    }

    /// The name of the combustion model that the engine runs with.
    pub fn combustion_model(&self) -> (r: String)
        ensures
            r@ == match self.combustion_view() {
                CombustionKind::TwoZone => "Two-zone model"@,
                CombustionKind::NoCombustion => "no combustion model"@,
            },
    {
        match self.combustion {
            CombustionKind::TwoZone => "Two-zone model".to_owned(),
            CombustionKind::NoCombustion => "no combustion model".to_owned(),
        }
    }

    /// Tells whether the record named no combustion model or one that is
    /// known. Where it tells no, the engine runs without combustion.
    pub fn model_known(&self) -> (r: bool)
        ensures
            r == self.model_known_view(),
    {
        self.model_known
    }

    /// The kind of injector, where the engine has one.
    pub fn injector(&self) -> (r: Option<InjectorKind>)
        ensures
            r == self.injector_view(),
    {
        self.injector
    }

    /// Sets for every cylinder whether its species are stored.
    pub fn store_species(&mut self, state: bool)
        ensures
            final(self).cylinders_view() == Seq::new(
                old(self).cylinders_view().len(),
                |i: int| (old(self).cylinders_view()[i].0, old(self).cylinders_view()[i].1, state),
            ),
            final(self).valves_view() == old(self).valves_view(),
            final(self).divisions_view() == old(self).divisions_view(),
            final(self).firing_order_view() == old(self).firing_order_view(),
            final(self).combustion_view() == old(self).combustion_view(),
            final(self).model_known_view() == old(self).model_known_view(),
            final(self).injector_view() == old(self).injector_view(),
    {
        let n: usize = self.cylinders.len();
        let mut out: Vec<CylinderLayout> = Vec::new();
        let mut i: usize = 0;
        while i < n
            invariant
                n == self.cylinders.len(),
                i <= n,
                out.len() == i,
                forall|k: int|
                    0 <= k < i ==> (#[trigger] out[k]).deep_view() == (
                        self.cylinders[k].name@,
                        self.cylinders[k].firing_slot,
                        state,
                    ),
            decreases n - i,
        {
            let c = &self.cylinders[i];
            out.push(
                CylinderLayout {
                    name: c.name.clone(),
                    firing_slot: c.firing_slot,
                    store_species: state,
                },
            );
            i = i + 1;
        }
        assert(out.deep_view() =~= Seq::new(
            self.cylinders_view().len(),
            |i: int| (self.cylinders_view()[i].0, self.cylinders_view()[i].1, state),
        ));
        self.cylinders = out;
    }
}

} // verus!
