//! Aircraft state that the cockpit switches and the spawn logic act on.

pub mod buttons;
pub mod screens;

use vstd::prelude::*;

verus! {

/// The flyable aircraft.
#[derive(Clone, Copy, Debug, PartialEq, Eq, Structural)]
pub enum AircraftTypes {
    Helicopter,
    J3Cub,
    Breeze,
}

impl Default for AircraftTypes {
    fn default() -> (t: AircraftTypes)
        ensures
            t == AircraftTypes::Breeze,
    {
        AircraftTypes::Breeze
    }
}

/// Whether the engine runs.
#[derive(Clone, Copy, Debug, PartialEq, Eq, Structural)]
pub struct EngineState {
    pub on: bool,
}

/// The aircraft's exterior lights.
#[derive(Clone, Copy, Debug, PartialEq, Eq, Structural)]
pub struct LightState {
    pub pos: bool,
    pub strobe: bool,
    pub form: bool,
    pub landing: bool,
    pub anti_col: bool,
}

impl Default for LightState {
    fn default() -> (l: LightState)
        ensures
            l == (LightState {
                pos: false,
                strobe: false,
                form: false,
                landing: false,
                anti_col: false,
            }),
    {
        LightState { pos: false, strobe: false, form: false, landing: false, anti_col: false }
    }
}

/// The switchable state of the aircraft (its control-surface deflections,
/// which are continuous angles, are kept beside it by the flight model).
#[derive(Clone, Copy, Debug, PartialEq, Eq, Structural)]
pub struct AircraftState {
    pub lights: LightState,
    pub aircraft_type: AircraftTypes,
    pub landing_gear_deployed: bool,
    pub parking_brake: bool,
    pub on_ground: bool,
    pub engine: EngineState,
}

/// The state every spawn starts from: a helicopter with everything off.
pub open spec fn initial_state() -> AircraftState {
    AircraftState {
        lights: LightState { pos: false, strobe: false, form: false, landing: false, anti_col: false },
        aircraft_type: AircraftTypes::Helicopter,
        landing_gear_deployed: false,
        parking_brake: false,
        on_ground: false,
        engine: EngineState { on: false },
    }
}

impl Default for AircraftState {
    fn default() -> (s: AircraftState)
        ensures
            s == initial_state(),
    {
        AircraftState {
            lights: LightState::default(),
            aircraft_type: AircraftTypes::Helicopter,
            landing_gear_deployed: false,
            parking_brake: false,
            on_ground: false,
            engine: EngineState { on: false },
        }
    }
}

/// The state an aircraft of type `t` is spawned in: the reset state with
/// that type; the Breeze starts with its engine running and landing lights
/// on, the J-3 Cub with its engine running.
pub open spec fn spawn_state_of(t: AircraftTypes) -> AircraftState {
    let s = AircraftState { aircraft_type: t, ..initial_state() };
    match t {
        AircraftTypes::Breeze => AircraftState {
            engine: EngineState { on: true },
            lights: LightState { landing: true, ..s.lights },
            ..s
        },
        AircraftTypes::J3Cub => AircraftState { engine: EngineState { on: true }, ..s },
        AircraftTypes::Helicopter => s,
    }
}

/// A spawned aircraft is of the requested type, with everything off but the
/// engine of the two aeroplanes and the landing lights of the Breeze, and the
/// gear, parking brake and ground contact reset.
pub proof fn lemma_spawn_state_is_of_requested_type(t: AircraftTypes)
    ensures
        spawn_state_of(t).aircraft_type == t,
        spawn_state_of(t).engine.on <==> t != AircraftTypes::Helicopter,
        spawn_state_of(t).lights.landing <==> t == AircraftTypes::Breeze,
        !spawn_state_of(t).lights.pos && !spawn_state_of(t).lights.strobe
            && !spawn_state_of(t).lights.form && !spawn_state_of(t).lights.anti_col,
        !spawn_state_of(t).landing_gear_deployed && !spawn_state_of(t).parking_brake
            && !spawn_state_of(t).on_ground,
{
}

/// Resets the aircraft state for a freshly spawned aircraft of type `t`.
pub fn spawn_state(t: AircraftTypes) -> (s: AircraftState)
    ensures
        s == spawn_state_of(t),
{
    let mut state = AircraftState::default();
    state.aircraft_type = t;
    match t {
        AircraftTypes::Breeze => {
            state.engine.on = true;
            state.lights.landing = true;
        },
        AircraftTypes::J3Cub => {
            state.engine.on = true;
        },
        AircraftTypes::Helicopter => {},
    }
    state
}

/// The flight model run for an aircraft type each fixed step.
#[derive(Clone, Copy, Debug, PartialEq, Eq, Structural)]
pub enum FlightModel {
    /// Rotor mechanics.
    Helicopter,
    /// Fixed-wing mechanics.
    FixedWing,
    /// Fixed-wing mechanics plus the landing-gear springs.
    FixedWingWithGear,
}

/// Which flight model runs: none while the game is paused; the J-3 Cub
/// borrows the fixed-wing mechanics without the gear springs.
pub fn flight_model(running: bool, t: AircraftTypes) -> (m: Option<FlightModel>)
    ensures
        m == (if !running {
            None
        } else {
            Some(
                match t {
                    AircraftTypes::Helicopter => FlightModel::Helicopter,
                    AircraftTypes::J3Cub => FlightModel::FixedWing,
                    AircraftTypes::Breeze => FlightModel::FixedWingWithGear,
                },
            )
        }),
{
    if !running {
        return None;
    }
    match t {
        AircraftTypes::Helicopter => Some(FlightModel::Helicopter),
        AircraftTypes::J3Cub => Some(FlightModel::FixedWing),
        AircraftTypes::Breeze => Some(FlightModel::FixedWingWithGear),
    }
}

/// The body axis that points forward along the flight path.
#[derive(Clone, Copy, Debug, PartialEq, Eq, Structural)]
pub enum ForwardAxis {
    /// The local -Z axis.
    NegZ,
    /// The local +X axis.
    PosX,
}

/// The helicopter model points its nose along -Z, the aeroplanes along +X.
pub fn forward_axis(t: AircraftTypes) -> (a: ForwardAxis)
    ensures
        a == (if t == AircraftTypes::Helicopter {
            ForwardAxis::NegZ
        } else {
            ForwardAxis::PosX
        }),
{
    match t {
        AircraftTypes::Helicopter => ForwardAxis::NegZ,
        _ => ForwardAxis::PosX,
    }
}

} // verus!
