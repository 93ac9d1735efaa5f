//! The phases of a cylinder.
//!
//! A cylinder is closed while nothing flows through its valves, and open
//! while gas flows through an intake or an exhaust valve. The phase is taken
//! anew at every step from the flows that the connectors reported last. When
//! a cylinder is found closed, what it has trapped is noted once per cycle.

use vstd::prelude::*;
use vstd::string::*;
use crate::engine::InjectorKind;
use crate::names::{lemma_position_of, position, position_of};

verus! {

/// The phase of a cylinder.
#[derive(Debug, Clone, Copy, PartialEq, Eq, Structural)]
pub enum Phase {
    /// No valve lets gas through: the mass is fixed, the pressure is the
    /// unknown.
    Closed,
    /// Gas flows through a valve: temperature and mass are the unknowns.
    Open,
}

/// What a cylinder notes when it is found closed.
#[derive(Debug, Clone, Copy, PartialEq, Eq, Structural)]
pub enum ClosedPhaseAction {
    /// The cylinder has just closed: it takes the fuel of the cycle from the
    /// injector, notes the trapped mass and the share of residual gas, and
    /// starts to count the fresh charge anew. `from_port` tells whether the
    /// fuel is what a port injector gathered while the cylinder was open.
    TakeCharge { from_port: bool },
    /// The cylinder has its fuel already: the injector starts anew.
    ClearInjector,
    /// There is no injector: the cylinder notes the trapped mass and starts
    /// to count the fresh charge anew.
    NoteMass,
}

/// How much of the fresh charge of a step is fuel.
#[derive(Debug, Clone, Copy, PartialEq, Eq, Structural)]
pub enum FuelShare {
    /// There is no injector: the fresh charge is the gas of the intake.
    NoFuel,
    /// A port injector: a fixed share of the fresh charge is fuel.
    PortShare,
    /// A direct injector: no fuel comes with the fresh charge.
    DirectNone,
}

/// The phase of a cylinder, from whether gas flows through its intake valves
/// and through its exhaust valves.
pub open spec fn phase(intake_flows: bool, exhaust_flows: bool) -> Phase {
    if !intake_flows && !exhaust_flows {
        Phase::Closed
    } else {
        Phase::Open
    }
}

/// What a closed cylinder notes, from its injector and from whether it is
/// still without fuel.
pub open spec fn closed_action(injector: Option<InjectorKind>, without_fuel: bool)
    -> ClosedPhaseAction {
    match injector {
        None => ClosedPhaseAction::NoteMass,
        Some(kind) => if without_fuel {
            ClosedPhaseAction::TakeCharge { from_port: kind == InjectorKind::Port }
        } else {
            ClosedPhaseAction::ClearInjector
        },
    }
}

/// Decides the phase of a cylinder for the next step.
pub fn phase_of(intake_flows: bool, exhaust_flows: bool) -> (r: Phase)
    ensures
        r == phase(intake_flows, exhaust_flows),
        r == Phase::Closed <==> !intake_flows && !exhaust_flows,
{
    if !intake_flows && !exhaust_flows {
        Phase::Closed
    } else {
        Phase::Open
    }
}

/// Decides what a closed cylinder notes in this step.
pub fn closed_phase_action(injector: Option<InjectorKind>, without_fuel: bool) -> (r:
    ClosedPhaseAction)
    ensures
        r == closed_action(injector, without_fuel),
{
    match injector {
        None => ClosedPhaseAction::NoteMass,
        Some(kind) => if without_fuel {
            ClosedPhaseAction::TakeCharge {
                from_port: match kind {
                    InjectorKind::Port => true,
                    InjectorKind::Direct => false,
                },
            }
        } else {
            ClosedPhaseAction::ClearInjector
        },
    }
}

/// Decides how much of the fresh charge of an open step is fuel.
pub fn fuel_share(injector: Option<InjectorKind>) -> (r: FuelShare)
    ensures
        r == match injector {
            None => FuelShare::NoFuel,
            Some(InjectorKind::Port) => FuelShare::PortShare,
            Some(InjectorKind::Direct) => FuelShare::DirectNone,
        },
{
    match injector {
        None => FuelShare::NoFuel,
        Some(InjectorKind::Port) => FuelShare::PortShare,
        Some(InjectorKind::Direct) => FuelShare::DirectNone,
    }
}

/// For each of the valves, the place of its flow among the flows that the
/// cylinder is fed, which come under the names of the connectors; or the
/// first valve that no flow is named after.
pub open spec fn feed_places(valves: Seq<Seq<char>>, feeders: Seq<Seq<char>>) -> Result<
    Seq<usize>,
    Seq<char>,
>
    decreases valves.len(),
{
    if valves.len() == 0 {
        Ok(Seq::empty())
    } else {
        match feed_places(valves.drop_last(), feeders) {
            Err(name) => Err(name),
            Ok(done) => match position_of(feeders, valves.last()) {
                Some(i) => Ok(done.push(i as usize)),
                None => Err(valves.last()),
            },
        }
    }
}

proof fn lemma_unfed_stays(valves: Seq<Seq<char>>, feeders: Seq<Seq<char>>, k: int)
    requires
        0 <= k <= valves.len(),
        feed_places(valves.take(k), feeders) is Err,
    ensures
        feed_places(valves, feeders) == feed_places(valves.take(k), feeders),
    decreases valves.len() - k,
{
    if k == valves.len() {
        assert(valves.take(k) =~= valves);
    } else {
        assert(valves.take(k + 1).drop_last() =~= valves.take(k));
        lemma_unfed_stays(valves, feeders, k + 1);
    }
}

/// Finds for each valve of a cylinder the flow that it is fed: `feeders`
/// holds the names of the connectors whose flows the cylinder is fed, in the
/// order of the flows. The error is the first valve that is not among them.
pub fn feed_slots(valves: &Vec<String>, feeders: &Vec<String>) -> (r: Result<Vec<usize>, String>)
    ensures
        match r {
            Ok(places) => feed_places(valves.deep_view(), feeders.deep_view()) == Ok::<
                Seq<usize>,
                Seq<char>,
            >(places@),
            Err(name) => feed_places(valves.deep_view(), feeders.deep_view()) == Err::<
                Seq<usize>,
                Seq<char>,
            >(name@),
        },
        r matches Ok(places) ==> places.len() == valves.len() && forall|k: int|
            0 <= k < places.len() ==> #[trigger] places[k] < feeders.len() && feeders[places[k] as int]@
                == valves[k]@,
{
    let mut out: Vec<usize> = Vec::new();
    let n: usize = valves.len();
    let mut k: usize = 0;
    assert(valves.deep_view().take(0) =~= Seq::empty());
    while k < n
        invariant
            n == valves.len(),
            k <= n,
            out.len() == k,
            feed_places(valves.deep_view().take(k as int), feeders.deep_view()) == Ok::<
                Seq<usize>,
                Seq<char>,
            >(out@),
            forall|j: int|
                0 <= j < k ==> #[trigger] out[j] < feeders.len() && feeders[out[j] as int]@
                    == valves[j]@,
        decreases n - k,
    {
        proof {
            assert(valves.deep_view().take(k + 1).drop_last() =~= valves.deep_view().take(
                k as int,
            ));
            assert(valves.deep_view().take(k + 1).last() == valves[k as int]@);
            lemma_position_of(feeders.deep_view(), valves[k as int]@);
        }
        match position(feeders, valves[k].as_str()) {
            Some(i) => {
                out.push(i);
            },
            None => {
                proof {
                    lemma_unfed_stays(valves.deep_view(), feeders.deep_view(), k + 1);
                }
                return Err(valves[k].clone());
            },
        }
        k = k + 1;
    }
    assert(valves.deep_view().take(n as int) =~= valves.deep_view());
    Ok(out)
}

} // verus!
