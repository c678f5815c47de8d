use vstd::prelude::*;

use super::AircraftState;

verus! {

/// What a cockpit control operates.
#[derive(Clone, Copy, Debug, PartialEq, Eq, Structural)]
pub enum InterfaceOperation {
    AntiColLt,
    Engine,
    PositionLt,
    StrobeLt,
    FormationLt,
    Apu,
    LdgGear,
    ParkBrk,
}

/// The kind of a cockpit control.
#[derive(Clone, Copy, Debug, PartialEq, Eq, Structural)]
pub enum InterfaceType {
    Switch,
    Button,
    Lever,
}

/// Where the landing gear is in its travel.
#[derive(Clone, Copy, Debug, PartialEq, Eq, Structural)]
pub enum LandingGearStatus {
    Deploying,
    Deployed,
    Retracting,
    Retracted,
}

/// A clickable cockpit control.
#[derive(Clone, Copy, Debug, PartialEq, Eq, Structural)]
pub struct Button {
    pub interface_type: InterfaceType,
    pub operation: Option<InterfaceOperation>,
    pub inverse: Option<bool>,
}

impl Default for Button {
    fn default() -> (b: Button)
        ensures
            b == (Button {
                interface_type: InterfaceType::Button,
                operation: None,
                inverse: Some(false),
            }),
    {
        Button { interface_type: InterfaceType::Button, operation: None, inverse: Some(false) }
    }
}

/// How far a control turns when `op` is operated with the setting at
/// `value` before (see `Button::switch_rotation`).
pub open spec fn switch_turn(b: Button, op: InterfaceOperation, value: Option<bool>) -> Option<i32> {
    match value {
        Some(v) => if b.interface_type == InterfaceType::Switch && b.operation == Some(op) {
            Some(
                if v != (b.inverse == Some(true)) {
                    (-SWITCH_ANGLE_LIMIT) as i32
                } else {
                    SWITCH_ANGLE_LIMIT
                },
            )
        } else {
            None
        },
        None => None,
    }
}

/// Only switches wired to the operated control turn, by 70 degrees: a plain
/// switch turns up (+70) when its setting is switched on and down (-70) when
/// switched off, an inverse switch the other way; so the two directions of one
/// switch, and a plain and an inverse switch, turn by opposite angles.
pub proof fn lemma_switch_turns_with_the_setting(
    b: Button,
    op: InterfaceOperation,
    v: bool,
    s: AircraftState,
    gear: LandingGearStatus,
)
    ensures
        switch_turn(b, op, None) is None,
        (b.interface_type != InterfaceType::Switch || b.operation != Some(op)) ==> switch_turn(
            b,
            op,
            Some(v),
        ) is None,
        b.interface_type == InterfaceType::Switch && b.operation == Some(op) ==> {
            &&& switch_turn(b, op, Some(v)) is Some
            &&& switch_turn(b, op, Some(v))->0 == -switch_turn(b, op, Some(!v))->0
            &&& switch_turn(b, op, Some(v))->0 == -switch_turn(
                Button { inverse: Some(b.inverse != Some(true)), ..b },
                op,
                Some(v),
            )->0
            &&& (b.inverse != Some(true) ==> (switch_turn(b, op, Some(false))->0 == 70
                && switch_turn(b, op, Some(true))->0 == -70))
        },
        b == (Button {
            interface_type: InterfaceType::Switch,
            operation: Some(InterfaceOperation::Engine),
            inverse: Some(false),
        }) && !s.engine.on ==> (operation_outcome(s, InterfaceOperation::Engine, gear) matches OperationOutcome::Done { previous, .. } && switch_turn(b, InterfaceOperation::Engine, previous)
            == Some(70i32)),
{
}

/// Degrees a switch rotates by when it is thrown.
pub const SWITCH_ANGLE_LIMIT: i32 = 70;

impl Button {
    /// The operation to announce when this control's picking interaction
    /// changes: its operation, if it has one and is now pressed.
    pub fn press_system(button: &Button, pressed: bool) -> (m: Option<InterfaceOperation>)
        ensures
            m == (if pressed {
                button.operation
            } else {
                None
            }),
    {
        if pressed {
            button.operation
        } else {
            None
        }
    }

    /// How far (in degrees, about its local x axis) this control turns when
    /// `op` is operated while the operated setting was `value`: only a switch
    /// wired to `op` turns, by -70 degrees for a setting that was on and +70
    /// for one that was off, the other way round for an inverse switch.
    pub fn switch_rotation(&self, op: InterfaceOperation, value: Option<bool>) -> (deg: Option<i32>)
        ensures
            deg == switch_turn(*self, op, value),
    {
        match self.interface_type {
            InterfaceType::Switch => {},
            _ => return None,
        }
        let mut on = match value {
            Some(v) => v,
            None => return None,
        };
        if let Some(inverse) = self.inverse {
            if inverse {
                on = !on;
            }
        }
        let angle = if on {
            -SWITCH_ANGLE_LIMIT
        } else {
            SWITCH_ANGLE_LIMIT
        };
        match self.operation {
            Some(o) => {
                if o == op {
                    Some(angle)
                } else {
                    None
                }
            },
            None => None,
        }
    }

    /// Operates `op` from the cockpit: toggles the setting it controls and
    /// reports the setting's previous value (which turns the switches) and
    /// whether a landing-gear toggle must be commanded. The gear lever is
    /// ignored while the gear is travelling.
    pub fn listener(state: &mut AircraftState, op: InterfaceOperation, gear: LandingGearStatus) -> (o:
        OperationOutcome)
        ensures
            *final(state) == operated(*old(state), op),
            o == operation_outcome(*old(state), op, gear),
    {
        match op {
            InterfaceOperation::Engine => {
                let previous = state.engine.on;
                state.engine.on = !state.engine.on;
                OperationOutcome::Done { previous: Some(previous), toggle_gear: false }
            },
            InterfaceOperation::AntiColLt => {
                let previous = state.lights.anti_col;
                state.lights.anti_col = !state.lights.anti_col;
                OperationOutcome::Done { previous: Some(previous), toggle_gear: false }
            },
            InterfaceOperation::PositionLt => {
                let previous = state.lights.pos;
                state.lights.pos = !state.lights.pos;
                OperationOutcome::Done { previous: Some(previous), toggle_gear: false }
            },
            InterfaceOperation::StrobeLt => {
                let previous = state.lights.strobe;
                state.lights.strobe = !state.lights.strobe;
                OperationOutcome::Done { previous: Some(previous), toggle_gear: false }
            },
            InterfaceOperation::FormationLt => {
                let previous = state.lights.form;
                state.lights.form = !state.lights.form;
                OperationOutcome::Done { previous: Some(previous), toggle_gear: false }
            },
            InterfaceOperation::LdgGear => {
                match gear {
                    LandingGearStatus::Deploying | LandingGearStatus::Retracting => {
                        OperationOutcome::Ignored
                    },
                    _ => OperationOutcome::Done {
                        previous: Some(state.landing_gear_deployed),
                        toggle_gear: true,
                    },
                }
            },
            InterfaceOperation::ParkBrk => {
                let previous = state.parking_brake;
                state.parking_brake = !state.parking_brake;
                OperationOutcome::Done { previous: Some(previous), toggle_gear: false }
            },
            InterfaceOperation::Apu => OperationOutcome::Done { previous: None, toggle_gear: false },
        }
    }
}

/// The mouse cursor shown over the cockpit.
#[derive(Clone, Copy, Debug, PartialEq, Eq, Structural)]
pub enum CursorKind {
    /// The system's default arrow.
    Default,
    /// A pointing hand: a control is under the cursor.
    Pointer,
    /// A grabbing hand: a control under the cursor is being held.
    Grab,
}

/// The cursor for the current frame: a grabbing hand while the left button
/// holds a control, a pointer over a control, the default arrow elsewhere.
pub fn update_cursor(hovering_control: bool, left_pressed: bool) -> (c: CursorKind)
    ensures
        c == (if !hovering_control {
            CursorKind::Default
        } else if left_pressed {
            CursorKind::Grab
        } else {
            CursorKind::Pointer
        }),
{
    if hovering_control {
        if left_pressed {
            CursorKind::Grab
        } else {
            CursorKind::Pointer
        }
    } else {
        CursorKind::Default
    }
}

/// What operating a control did.
#[derive(Clone, Copy, Debug, PartialEq, Eq, Structural)]
pub enum OperationOutcome {
    /// The control is ignored: the landing gear is still travelling.
    Ignored,
    /// The operation went through.
    Done {
        /// The operated setting before the operation, for the switches.
        previous: Option<bool>,
        /// A landing-gear toggle command must be sent.
        toggle_gear: bool,
    },
}

/// The state after operating `op`: the operated setting is toggled; the
/// landing gear lever and the APU leave the state alone.
pub open spec fn operated(s: AircraftState, op: InterfaceOperation) -> AircraftState {
    match op {
        InterfaceOperation::Engine => AircraftState { engine: super::EngineState { on: !s.engine.on }, ..s },
        InterfaceOperation::AntiColLt => AircraftState {
            lights: super::LightState { anti_col: !s.lights.anti_col, ..s.lights },
            ..s
        },
        InterfaceOperation::PositionLt => AircraftState {
            lights: super::LightState { pos: !s.lights.pos, ..s.lights },
            ..s
        },
        InterfaceOperation::StrobeLt => AircraftState {
            lights: super::LightState { strobe: !s.lights.strobe, ..s.lights },
            ..s
        },
        InterfaceOperation::FormationLt => AircraftState {
            lights: super::LightState { form: !s.lights.form, ..s.lights },
            ..s
        },
        InterfaceOperation::ParkBrk => AircraftState { parking_brake: !s.parking_brake, ..s },
        _ => s,
    }
}

/// The outcome of operating `op` on state `s` with the gear in `gear`.
pub open spec fn operation_outcome(
    s: AircraftState,
    op: InterfaceOperation,
    gear: LandingGearStatus,
) -> OperationOutcome {
    match op {
        InterfaceOperation::Engine => OperationOutcome::Done {
            previous: Some(s.engine.on),
            toggle_gear: false,
        },
        InterfaceOperation::AntiColLt => OperationOutcome::Done {
            previous: Some(s.lights.anti_col),
            toggle_gear: false,
        },
        InterfaceOperation::PositionLt => OperationOutcome::Done {
            previous: Some(s.lights.pos),
            toggle_gear: false,
        },
        InterfaceOperation::StrobeLt => OperationOutcome::Done {
            previous: Some(s.lights.strobe),
            toggle_gear: false,
        },
        InterfaceOperation::FormationLt => OperationOutcome::Done {
            previous: Some(s.lights.form),
            toggle_gear: false,
        },
        InterfaceOperation::LdgGear => match gear {
            LandingGearStatus::Deploying | LandingGearStatus::Retracting => OperationOutcome::Ignored,
            _ => OperationOutcome::Done {
                previous: Some(s.landing_gear_deployed),
                toggle_gear: true,
            },
        },
        InterfaceOperation::ParkBrk => OperationOutcome::Done {
            previous: Some(s.parking_brake),
            toggle_gear: false,
        },
        InterfaceOperation::Apu => OperationOutcome::Done { previous: None, toggle_gear: false },
    }
}

/// Operating the same control twice leaves the aircraft as it was.
pub proof fn lemma_operate_twice_restores(s: AircraftState, op: InterfaceOperation)
    ensures
        operated(operated(s, op), op) == s,
{
}

/// Operating a control changes at most the one setting it controls, and
/// never the aircraft type, the gear position or the ground contact.
pub proof fn lemma_operate_touches_one_setting(s: AircraftState, op: InterfaceOperation)
    ensures
        operated(s, op).aircraft_type == s.aircraft_type,
        operated(s, op).landing_gear_deployed == s.landing_gear_deployed,
        operated(s, op).on_ground == s.on_ground,
        op != InterfaceOperation::Engine ==> operated(s, op).engine == s.engine,
        op != InterfaceOperation::ParkBrk ==> operated(s, op).parking_brake == s.parking_brake,
        op != InterfaceOperation::AntiColLt ==> operated(s, op).lights.anti_col == s.lights.anti_col,
        op != InterfaceOperation::PositionLt ==> operated(s, op).lights.pos == s.lights.pos,
        op != InterfaceOperation::StrobeLt ==> operated(s, op).lights.strobe == s.lights.strobe,
        op != InterfaceOperation::FormationLt ==> operated(s, op).lights.form == s.lights.form,
        operated(s, op).lights.landing == s.lights.landing,
{
}

/// The on/off setting a control reads: the engine, one of the four lights,
/// the parking brake, or the landing gear; the APU has none.
pub open spec fn setting(s: AircraftState, op: InterfaceOperation) -> Option<bool> {
    match op {
        InterfaceOperation::Engine => Some(s.engine.on),
        InterfaceOperation::AntiColLt => Some(s.lights.anti_col),
        InterfaceOperation::PositionLt => Some(s.lights.pos),
        InterfaceOperation::StrobeLt => Some(s.lights.strobe),
        InterfaceOperation::FormationLt => Some(s.lights.form),
        InterfaceOperation::ParkBrk => Some(s.parking_brake),
        InterfaceOperation::LdgGear => Some(s.landing_gear_deployed),
        InterfaceOperation::Apu => None,
    }
}

/// The value an operation reports is the operated setting as it was before
/// the operation, and every control but the gear lever and the APU flips its
/// setting: so the reported value differs from the setting afterwards, and a
/// switch turns towards the new position. The gear lever leaves the gear
/// flag to the gear itself and is reported with its current position.
pub proof fn lemma_outcome_reports_setting_before(
    s: AircraftState,
    op: InterfaceOperation,
    gear: LandingGearStatus,
)
    ensures
        operation_outcome(s, op, gear) matches OperationOutcome::Done { previous, .. } ==> previous
            == setting(s, op),
        op != InterfaceOperation::LdgGear ==> operation_outcome(s, op, gear) is Done,
        op != InterfaceOperation::LdgGear && op != InterfaceOperation::Apu ==> ({
            &&& setting(s, op) is Some
            &&& setting(operated(s, op), op) == Some(!setting(s, op)->0)
        }),
        setting(operated(s, InterfaceOperation::LdgGear), InterfaceOperation::LdgGear) == setting(
            s,
            InterfaceOperation::LdgGear,
        ),
{
}

/// A landing-gear toggle is commanded exactly when the gear lever is
/// operated with the gear at rest.
pub proof fn lemma_gear_command_only_at_rest(
    s: AircraftState,
    op: InterfaceOperation,
    gear: LandingGearStatus,
)
    ensures
        (operation_outcome(s, op, gear) matches OperationOutcome::Done { toggle_gear: true, .. })
            <==> (op == InterfaceOperation::LdgGear && (gear == LandingGearStatus::Deployed || gear
            == LandingGearStatus::Retracted)),
{
}

} // verus!
