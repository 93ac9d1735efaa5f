//! Connectors: the elements through which two control volumes exchange mass
//! and energy.
//!
//! A connector joins exactly two objects, which it knows by name. For each of
//! them it keeps one flow, at the place at which the object stands in its list
//! of endpoints. This module keeps that list and decides, for a given state of
//! the two objects, at which place the flow leaves and at which it arrives.

use vstd::prelude::*;
use vstd::string::*;
use crate::names::{lemma_position_of, position, position_of};
use crate::window::CycleWindow;

verus! {

/// The kinds of connector.
#[derive(Debug, Clone, Copy, PartialEq, Eq, Structural)]
pub enum ConnectorKind {
    /// A hole of fixed area between two control volumes.
    Orifice,
    /// A valve of a cylinder, which opens and closes with the crank angle. Its
    /// first endpoint is its cylinder.
    Valve,
}

/// Which of the two objects at a connector has the higher pressure.
#[derive(Debug, Clone, Copy, PartialEq, Eq, Structural)]
pub enum PressureBalance {
    /// The first object's pressure is the higher one.
    FirstHigher,
    /// The second object's pressure is the higher one.
    SecondHigher,
    /// The two pressures are as good as equal: nothing flows.
    Balanced,
}

/// Where the flow through a connector goes.
#[derive(Debug, Clone, Copy, PartialEq, Eq, Structural)]
pub enum Route {
    /// Nothing flows: every flow of the connector is zero.
    Still,
    /// Gas flows from the object at `upstream_slot` to the one at
    /// `downstream_slot`. `upstream_state` tells which of the two given states
    /// is the upstream one: 0 for the first, 1 for the second.
    Flow { upstream_state: usize, upstream_slot: usize, downstream_slot: usize },
}

/// What a valve does in a step.
#[derive(Debug, Clone, Copy, PartialEq, Eq, Structural)]
pub enum ValveDecision {
    /// The valve is shut: nothing flows, the throat has no area, and the
    /// account of backflow is cleared.
    Shut,
    /// The valve is open, and the pressures on its two sides are as good as
    /// equal: nothing flows.
    Balanced,
    /// The valve is open and gas flows along `route`. `into_cylinder` tells
    /// whether it flows into the cylinder, which sets the discharge
    /// coefficient. `blended` tells whether gas that left the cylinder before
    /// now comes back: the upstream state is then taken half from each side.
    Flow { route: Route, into_cylinder: bool, blended: bool },
}

/// What a valve with the given endpoints and window does at the given angle.
pub open spec fn valve_decision_of(
    connecting: Seq<Seq<char>>,
    window: CycleWindow,
    angle: i64,
    balance: PressureBalance,
    first: Seq<char>,
    second: Seq<char>,
    backflow_pending: bool,
) -> Result<ValveDecision, ConnectorFault> {
    if !window.holds(angle) {
        Ok(ValveDecision::Shut)
    } else {
        match route_of(connecting, balance, first, second) {
            Err(fault) => Err(fault),
            Ok(Route::Still) => Ok(ValveDecision::Balanced),
            Ok(Route::Flow { upstream_state, upstream_slot, downstream_slot }) => Ok(
                ValveDecision::Flow {
                    route: Route::Flow { upstream_state, upstream_slot, downstream_slot },
                    into_cylinder: downstream_slot == 0,
                    blended: backflow_pending && downstream_slot == 0,
                },
            ),
        }
    }
}

/// Why a connector refused.
#[derive(Debug, Clone)]
pub enum ConnectorError {
    /// A connector joins exactly two objects; this one would have the given
    /// number of endpoints.
    WrongArity(usize),
    /// The named object is none of the connector's endpoints.
    NotConnected(String),
    /// A valve needs the crank angle, and no state gave one.
    NoCrankAngle,
}

/// The model of a `ConnectorError`.
pub enum ConnectorFault {
    WrongArity(int),
    NotConnected(Seq<char>),
    NoCrankAngle,
}

impl View for ConnectorError {
    type V = ConnectorFault;

    open spec fn view(&self) -> ConnectorFault {
        match self {
            ConnectorError::WrongArity(n) => ConnectorFault::WrongArity(*n as int),
            ConnectorError::NotConnected(name) => ConnectorFault::NotConnected(name@),
            ConnectorError::NoCrankAngle => ConnectorFault::NoCrankAngle,
        }
    }
}

/// Where the flow goes, for endpoints `connecting`, a balance, and the names
/// of the two objects whose states were given, in the order of the states.
pub open spec fn route_of(
    connecting: Seq<Seq<char>>,
    balance: PressureBalance,
    first: Seq<char>,
    second: Seq<char>,
) -> Result<Route, ConnectorFault> {
    let (state, up, down) = match balance {
        PressureBalance::FirstHigher => (0usize, first, second),
        _ => (1usize, second, first),
    };
    if balance == PressureBalance::Balanced {
        Ok(Route::Still)
    } else {
        match position_of(connecting, up) {
            None => Err(ConnectorFault::NotConnected(up)),
            Some(i) => match position_of(connecting, down) {
                None => Err(ConnectorFault::NotConnected(down)),
                Some(j) => Ok(
                    Route::Flow {
                        upstream_state: state,
                        upstream_slot: i as usize,
                        downstream_slot: j as usize,
                    },
                ),
            },
        }
    }
}

/// The last state that gives a crank angle, if any does.
pub open spec fn last_known(known: Seq<bool>) -> Option<int>
    decreases known.len(),
{
    if known.len() == 0 {
        None
    } else if known.last() {
        Some(known.len() - 1)
    } else {
        last_known(known.drop_last())
    }
}

/// Through a connector with two different endpoints, between these two
/// objects in either order, the flow leaves at one place and arrives at the
/// other: what one endpoint loses is what the other one gets.
pub proof fn lemma_route_joins_both(
    connecting: Seq<Seq<char>>,
    balance: PressureBalance,
    first: Seq<char>,
    second: Seq<char>,
)
    requires
        connecting.len() == 2,
        connecting[0] != connecting[1],
        (first == connecting[0] && second == connecting[1]) || (first == connecting[1] && second
            == connecting[0]),
        balance != PressureBalance::Balanced,
    ensures
        match route_of(connecting, balance, first, second) {
            Ok(Route::Flow { upstream_state, upstream_slot, downstream_slot }) => {
                &&& upstream_slot + downstream_slot == 1
                &&& connecting[upstream_slot as int] == if upstream_state == 0 {
                    first
                } else {
                    second
                }
                &&& connecting[downstream_slot as int] == if upstream_state == 0 {
                    second
                } else {
                    first
                }
                &&& (upstream_state == 0) == (balance == PressureBalance::FirstHigher)
            },
            _ => false,
        },
{
    lemma_position_of(connecting, first);
    lemma_position_of(connecting, second);
}

/// A connector: its name, its kind, and the names of the objects it joins.
#[derive(Debug, Clone)]
pub struct Connector {
    name: String,
    kind: ConnectorKind,
    connecting: Vec<String>,
}

impl Connector {
    /// The connector's name.
    pub closed spec fn name_view(&self) -> Seq<char> {
        self.name@
    }

    /// The connector's kind.
    pub closed spec fn kind_view(&self) -> ConnectorKind {
        self.kind
    }

    /// The names of the objects that the connector joins, in the order in
    /// which they were connected.
    pub closed spec fn endpoints(&self) -> Seq<Seq<char>> {
        self.connecting.deep_view()
    }

    /// A connector is complete when it joins exactly two objects.
    pub open spec fn complete(&self) -> bool {
        self.endpoints().len() == 2
    }

    /// Makes an orifice between the two named objects. Any other number of
    /// names is refused.
    pub fn orifice(name: &str, connecting: Vec<String>) -> (r: Result<Connector, ConnectorError>)
        ensures
            match r {
                Ok(c) => {
                    &&& connecting.len() == 2
                    &&& c.name_view() == name@
                    &&& c.kind_view() == ConnectorKind::Orifice
                    &&& c.endpoints() == connecting.deep_view()
                },
                Err(e) => connecting.len() != 2 && e@ == ConnectorFault::WrongArity(
                    connecting.len() as int,
                ),
            },
    {
        if connecting.len() != 2 {
            return Err(ConnectorError::WrongArity(connecting.len()));
        }
        Ok(Connector { name: name.to_owned(), kind: ConnectorKind::Orifice, connecting })
    }

    /// Makes a valve of the named cylinder. The cylinder is the valve's first
    /// endpoint; the second is connected later.
    pub fn valve(name: &str, cylinder: &str) -> (r: Connector)
        ensures
            r.name_view() == name@,
            r.kind_view() == ConnectorKind::Valve,
            r.endpoints() == seq![cylinder@],
    {
        let mut connecting: Vec<String> = Vec::new();
        connecting.push(cylinder.to_owned());
        let r = Connector { name: name.to_owned(), kind: ConnectorKind::Valve, connecting };
        assert(r.endpoints() =~= seq![cylinder@]);
        r
    }

    /// The connector's name.
    pub fn name(&self) -> (r: &str)
        ensures
            r@ == self.name_view(),
    {
        self.name.as_str()
    }

    /// The connector's kind.
    pub fn kind(&self) -> (r: ConnectorKind)
        ensures
            r == self.kind_view(),
    {
        self.kind
    }

    /// The names of the objects that the connector joins.
    pub fn connecting(&self) -> (r: &Vec<String>)
        ensures
            r.deep_view() == self.endpoints(),
    {
        &self.connecting
    }

    /// Tells whether the connector joins exactly two objects.
    pub fn is_complete(&self) -> (r: bool)
        ensures
            r == self.complete(),
    {
        self.connecting.len() == 2
    }

    /// Adds the named object to the connector's endpoints. The object is added
    /// in any case; the call fails unless the connector then joins exactly two.
    pub fn connect_to(&mut self, elem_name: &str) -> (r: Result<(), ConnectorError>)
        ensures
            final(self).endpoints() == old(self).endpoints().push(elem_name@),
            final(self).name_view() == old(self).name_view(),
            final(self).kind_view() == old(self).kind_view(),
            match r {
                Ok(_) => final(self).complete(),
                Err(e) => !final(self).complete() && e@ == ConnectorFault::WrongArity(
                    final(self).endpoints().len() as int,
                ),
            },
    {
        let ghost before = self.connecting.deep_view();
        self.connecting.push(elem_name.to_owned());
        assert(self.connecting.deep_view() =~= before.push(elem_name@));
        if self.connecting.len() != 2 {
            return Err(ConnectorError::WrongArity(self.connecting.len()));
        }
        Ok(())
    }

    /// The place at which the connector keeps the flow of the named object:
    /// the first place at which the name stands among the endpoints.
    pub fn flow_slot(&self, elem_name: &str) -> (r: Result<usize, ConnectorError>)
        ensures
            match r {
                Ok(i) => position_of(self.endpoints(), elem_name@) == Some(i as int) && i
                    < self.endpoints().len(),
                Err(e) => position_of(self.endpoints(), elem_name@) is None && e@
                    == ConnectorFault::NotConnected(elem_name@),
            },
    {
        proof {
            lemma_position_of(self.endpoints(), elem_name@);
        }
        match position(&self.connecting, elem_name) {
            Some(i) => Ok(i),
            None => Err(ConnectorError::NotConnected(elem_name.to_owned())),
        }
    }

    /// Decides where the flow goes, given which of two objects has the higher
    /// pressure and the names of the two, in the order of their states.
    ///
    /// With balanced pressures nothing flows, whatever the names are. Else the
    /// object with the higher pressure is upstream, and both objects must be
    /// endpoints of the connector: the upstream one is looked up first.
    pub fn route(&self, balance: PressureBalance, first: &str, second: &str) -> (r: Result<
        Route,
        ConnectorError,
    >)
        ensures
            match r {
                Ok(route) => route_of(self.endpoints(), balance, first@, second@) == Ok::<
                    Route,
                    ConnectorFault,
                >(route),
                Err(e) => route_of(self.endpoints(), balance, first@, second@) == Err::<
                    Route,
                    ConnectorFault,
                >(e@),
            },
            r matches Ok(Route::Flow { upstream_state, upstream_slot, downstream_slot }) ==> {
                &&& upstream_slot < self.endpoints().len()
                &&& downstream_slot < self.endpoints().len()
                &&& upstream_state <= 1
            },
    {
        let (state, up, down): (usize, &str, &str) = match balance {
            PressureBalance::Balanced => {
                return Ok(Route::Still);
            },
            PressureBalance::FirstHigher => (0, first, second),
            PressureBalance::SecondHigher => (1, second, first),
        };
        let i = self.flow_slot(up)?;
        let j = self.flow_slot(down)?;
        Ok(Route::Flow { upstream_state: state, upstream_slot: i, downstream_slot: j })
    }

    /// Decides what a valve does in a step: whether it is shut, and if not,
    /// where the flow goes.
    ///
    /// `window` is the span of crank angles in which the valve is open, and
    /// `angle` the crank angle. `balance` tells which of the two objects has
    /// the higher pressure, `first` and `second` are their names in the order
    /// of their states, and `backflow_pending` tells whether gas that left
    /// the cylinder through this valve has not come back yet. A shut valve
    /// looks up no name, so it cannot fail.
    pub fn valve_decision(
        &self,
        window: &CycleWindow,
        angle: i64,
        balance: PressureBalance,
        first: &str,
        second: &str,
        backflow_pending: bool,
    ) -> (r: Result<ValveDecision, ConnectorError>)
        ensures
            match r {
                Ok(decision) => valve_decision_of(
                    self.endpoints(),
                    *window,
                    angle,
                    balance,
                    first@,
                    second@,
                    backflow_pending,
                ) == Ok::<ValveDecision, ConnectorFault>(decision),
                Err(e) => valve_decision_of(
                    self.endpoints(),
                    *window,
                    angle,
                    balance,
                    first@,
                    second@,
                    backflow_pending,
                ) == Err::<ValveDecision, ConnectorFault>(e@),
            },
    {
        if !window.is_open(angle) {
            return Ok(ValveDecision::Shut);
        }
        let route = self.route(balance, first, second)?;
        match route {
            Route::Still => Ok(ValveDecision::Balanced),
            Route::Flow { downstream_slot, .. } => Ok(
                ValveDecision::Flow {
                    route,
                    into_cylinder: downstream_slot == 0,
                    blended: backflow_pending && downstream_slot == 0,
                },
            ),
        }
    }

    /// Picks the state from which a valve takes the crank angle: the last of
    /// the given states that knows one. `known[i]` tells whether state `i` does.
    pub fn crank_angle_source(known: &Vec<bool>) -> (r: Result<usize, ConnectorError>)
        ensures
            match r {
                Ok(i) => last_known(known@) == Some(i as int) && i < known.len() && known[i as int],
                Err(e) => last_known(known@) is None && e@ == ConnectorFault::NoCrankAngle,
            },
    {
        let mut i: usize = known.len();
        assert(known@.take(i as int) =~= known@);
        while i > 0
            invariant
                i <= known.len(),
                last_known(known@) == last_known(known@.take(i as int)),
            decreases i,
        {
            proof {
                assert(known@.take(i as int).drop_last() =~= known@.take(i - 1));
            }
            if known[i - 1] {
                return Ok(i - 1);
            }
            i = i - 1;
        }
        Err(ConnectorError::NoCrankAngle)
    }
}

impl Route {
    /// Tells whether the flow arrives at the connector's first endpoint. For a
    /// valve that is its cylinder.
    pub fn into_first(&self) -> (r: bool)
        ensures
            r == (*self matches Route::Flow { downstream_slot, .. } && downstream_slot == 0),
    {
        match self {
            Route::Still => false,
            Route::Flow { downstream_slot, .. } => *downstream_slot == 0,
        }
    }
}

} // verus!
