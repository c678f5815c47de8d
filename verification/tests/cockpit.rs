use kestrel::aircraft::buttons::{
    update_cursor, CursorKind, Button, InterfaceOperation, InterfaceType, LandingGearStatus, OperationOutcome,
};
use kestrel::aircraft::screens::{emissive_brightness, pitch_ladder, screen_label, ScreenUiElement, Screens};
use kestrel::aircraft::{
    flight_model, forward_axis, spawn_state, AircraftState, AircraftTypes, FlightModel, ForwardAxis,
    LightState,
};

#[test]
fn default_state_is_a_cold_helicopter() {
    let s = AircraftState::default();
    assert_eq!(s.aircraft_type, AircraftTypes::Helicopter);
    assert!(!s.engine.on && !s.parking_brake && !s.landing_gear_deployed && !s.on_ground);
    assert_eq!(s.lights, LightState::default());
    assert_eq!(AircraftTypes::default(), AircraftTypes::Breeze);
}

#[test]
fn spawn_states() {
    let b = spawn_state(AircraftTypes::Breeze);
    assert!(b.engine.on && b.lights.landing && !b.lights.pos);
    assert_eq!(b.aircraft_type, AircraftTypes::Breeze);
    let j = spawn_state(AircraftTypes::J3Cub);
    assert!(j.engine.on && !j.lights.landing);
    let h = spawn_state(AircraftTypes::Helicopter);
    assert_eq!(h, AircraftState::default());
}

#[test]
fn flight_models() {
    assert_eq!(flight_model(false, AircraftTypes::Breeze), None);
    assert_eq!(flight_model(true, AircraftTypes::Breeze), Some(FlightModel::FixedWingWithGear));
    assert_eq!(flight_model(true, AircraftTypes::J3Cub), Some(FlightModel::FixedWing));
    assert_eq!(flight_model(true, AircraftTypes::Helicopter), Some(FlightModel::Helicopter));
    assert_eq!(forward_axis(AircraftTypes::Helicopter), ForwardAxis::NegZ);
    assert_eq!(forward_axis(AircraftTypes::J3Cub), ForwardAxis::PosX);
}

#[test]
fn switches_toggle_and_report_previous_value() {
    let mut s = AircraftState::default();
    let o = Button::listener(&mut s, InterfaceOperation::StrobeLt, LandingGearStatus::Deployed);
    assert_eq!(o, OperationOutcome::Done { previous: Some(false), toggle_gear: false });
    assert!(s.lights.strobe);
    let o = Button::listener(&mut s, InterfaceOperation::StrobeLt, LandingGearStatus::Deployed);
    assert_eq!(o, OperationOutcome::Done { previous: Some(true), toggle_gear: false });
    assert_eq!(s, AircraftState::default());

    Button::listener(&mut s, InterfaceOperation::Engine, LandingGearStatus::Retracted);
    Button::listener(&mut s, InterfaceOperation::ParkBrk, LandingGearStatus::Retracted);
    Button::listener(&mut s, InterfaceOperation::AntiColLt, LandingGearStatus::Retracted);
    Button::listener(&mut s, InterfaceOperation::PositionLt, LandingGearStatus::Retracted);
    Button::listener(&mut s, InterfaceOperation::FormationLt, LandingGearStatus::Retracted);
    assert!(s.engine.on && s.parking_brake && s.lights.anti_col && s.lights.pos && s.lights.form);
    let o = Button::listener(&mut s, InterfaceOperation::Apu, LandingGearStatus::Retracted);
    assert_eq!(o, OperationOutcome::Done { previous: None, toggle_gear: false });
}

#[test]
fn gear_lever_waits_for_the_gear() {
    let mut s = AircraftState::default();
    assert_eq!(
        Button::listener(&mut s, InterfaceOperation::LdgGear, LandingGearStatus::Deploying),
        OperationOutcome::Ignored
    );
    assert_eq!(
        Button::listener(&mut s, InterfaceOperation::LdgGear, LandingGearStatus::Retracting),
        OperationOutcome::Ignored
    );
    s.landing_gear_deployed = true;
    assert_eq!(
        Button::listener(&mut s, InterfaceOperation::LdgGear, LandingGearStatus::Deployed),
        OperationOutcome::Done { previous: Some(true), toggle_gear: true }
    );
    assert!(s.landing_gear_deployed);
}

#[test]
fn switch_rotation() {
    let switch = Button {
        interface_type: InterfaceType::Switch,
        operation: Some(InterfaceOperation::Engine),
        inverse: Some(false),
    };
    assert_eq!(switch.switch_rotation(InterfaceOperation::Engine, Some(true)), Some(-70));
    assert_eq!(switch.switch_rotation(InterfaceOperation::Engine, Some(false)), Some(70));
    assert_eq!(switch.switch_rotation(InterfaceOperation::ParkBrk, Some(true)), None);
    assert_eq!(switch.switch_rotation(InterfaceOperation::Engine, None), None);
    let inverse = Button { inverse: Some(true), ..switch };
    assert_eq!(inverse.switch_rotation(InterfaceOperation::Engine, Some(true)), Some(70));
    let lever = Button { interface_type: InterfaceType::Lever, ..switch };
    assert_eq!(lever.switch_rotation(InterfaceOperation::Engine, Some(true)), None);
}

#[test]
fn buttons_announce_when_pressed() {
    let b = Button::default();
    assert_eq!(b.interface_type, InterfaceType::Button);
    assert_eq!(b.operation, None);
    assert_eq!(b.inverse, Some(false));
    assert_eq!(Button::press_system(&b, true), None);
    let gear = Button { operation: Some(InterfaceOperation::LdgGear), ..b };
    assert_eq!(Button::press_system(&gear, true), Some(InterfaceOperation::LdgGear));
    assert_eq!(Button::press_system(&gear, false), None);
}

#[test]
fn screens() {
    assert_eq!(screen_label(Screens::Left), ScreenUiElement::Throttle);
    assert_eq!(screen_label(Screens::Right), ScreenUiElement::AirspeedKts);
    assert_eq!(screen_label(Screens::Centre), ScreenUiElement::Altitude);
    assert_eq!(emissive_brightness(Screens::Hud), 200);
    assert_eq!(emissive_brightness(Screens::Centre), 5);
    let ladder = pitch_ladder();
    assert_eq!(ladder.len(), 19);
    assert_eq!((ladder[0].degrees, ladder[0].top_px), (100, -3600));
    assert_eq!((ladder[9].degrees, ladder[9].top_px), (10, -360));
    assert_eq!((ladder[10].degrees, ladder[10].top_px), (-10, 360));
    assert_eq!((ladder[18].degrees, ladder[18].top_px), (-90, 3240));
}

#[test]
fn cursor_over_controls() {
    assert_eq!(update_cursor(false, true), CursorKind::Default);
    assert_eq!(update_cursor(true, false), CursorKind::Pointer);
    assert_eq!(update_cursor(true, true), CursorKind::Grab);
}
