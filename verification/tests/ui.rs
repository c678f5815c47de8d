use kestrel::aircraft::AircraftTypes;
use kestrel::ui::{fly_button, fly_messages, run_once_system, toggled_display_mode, AircraftSelector, DisplayMode, UIMessage};

#[test]
fn fly_without_aircraft_does_nothing() {
    assert!(fly_messages(None).is_empty());
}

#[test]
fn fly_spawns_scenery_hud_and_aircraft() {
    assert_eq!(
        fly_messages(Some(AircraftSelector::J3Cub)),
        vec![
            UIMessage::SpawnScenery,
            UIMessage::DespawnMenu,
            UIMessage::SpawnUIHud,
            UIMessage::SpawnJ3Cub
        ]
    );
    assert_eq!(fly_messages(Some(AircraftSelector::Breeze))[3], UIMessage::SpawnBreeze);
    assert_eq!(fly_messages(Some(AircraftSelector::Helicopter))[3], UIMessage::SpawnHelicopter);
    assert_eq!(AircraftSelector::default(), AircraftSelector::Breeze);
    assert_eq!(AircraftSelector::J3Cub.aircraft(), AircraftTypes::J3Cub);
}

#[test]
fn messages_map_to_systems() {
    assert_eq!(run_once_system(UIMessage::DespawnMenu), None);
    assert_eq!(run_once_system(UIMessage::SpawnMenu), Some("spawn_menu"));
    assert_eq!(run_once_system(UIMessage::SpawnUIHud), Some("spawn_ui_hud"));
    assert_eq!(run_once_system(UIMessage::SpawnScenery), Some("setup_scene"));
    assert_eq!(run_once_system(UIMessage::SpawnHelicopter), Some("spawn_helicopter"));
    assert_eq!(run_once_system(UIMessage::SpawnBreeze), Some("setup_breeze"));
    assert_eq!(run_once_system(UIMessage::SpawnJ3Cub), Some("setup_j3cub"));
}

#[test]
fn fullscreen_toggle() {
    assert_eq!(toggled_display_mode(DisplayMode::Windowed), DisplayMode::BorderlessFullscreen);
    assert_eq!(toggled_display_mode(DisplayMode::BorderlessFullscreen), DisplayMode::Windowed);
    assert_eq!(toggled_display_mode(DisplayMode::Fullscreen), DisplayMode::Windowed);
}

#[test]
fn fly_button_prefers_the_menu_location() {
    let stored = (47.0_f32, 8.0_f32);
    let (messages, coord) = fly_button(Some(AircraftSelector::Breeze), Some((51.5_f32, -0.1_f32)), stored);
    assert_eq!(messages.len(), 4);
    assert_eq!(coord, (51.5, -0.1));

    // no location picked: the coordinate from the settings stays
    let (messages, coord) = fly_button(Some(AircraftSelector::J3Cub), None, stored);
    assert_eq!(messages[3], UIMessage::SpawnJ3Cub);
    assert_eq!(coord, stored);

    // no aircraft picked: nothing happens, not even the location change
    let (messages, coord) = fly_button(None, Some((51.5_f32, -0.1_f32)), stored);
    assert!(messages.is_empty());
    assert_eq!(coord, stored);
}
