//! Menu and head-up display decisions.

pub mod locations;

use vstd::prelude::*;

use crate::aircraft::AircraftTypes;

verus! {

/// Marks the menu's camera.
pub struct MenuCamera;

/// Marks the menu's root node.
pub struct Menu;

/// The user interface.
pub struct UI;

/// A text of the simple head-up display.
#[derive(Clone, Copy, Debug, PartialEq, Eq, Structural)]
pub enum UIHudComponent {
    Altitude,
    Throttle,
    Velocity,
}

/// A row of the aircraft list in the menu.
#[derive(Clone, Copy, Debug, PartialEq, Eq, Structural)]
pub enum AircraftSelector {
    Breeze,
    Helicopter,
    J3Cub,
}

impl Default for AircraftSelector {
    fn default() -> (s: AircraftSelector)
        ensures
            s == AircraftSelector::Breeze,
    {
        AircraftSelector::Breeze
    }
}

impl AircraftSelector {
    /// The aircraft this row spawns.
    pub fn aircraft(self) -> (t: AircraftTypes)
        ensures
            t == match self {
                AircraftSelector::Breeze => AircraftTypes::Breeze,
                AircraftSelector::Helicopter => AircraftTypes::Helicopter,
                AircraftSelector::J3Cub => AircraftTypes::J3Cub,
            },
    {
        match self {
            AircraftSelector::Breeze => AircraftTypes::Breeze,
            AircraftSelector::Helicopter => AircraftTypes::Helicopter,
            AircraftSelector::J3Cub => AircraftTypes::J3Cub,
        }
    }
}

/// The requests the user interface acts on.
#[derive(Clone, Copy, Debug, PartialEq, Eq, Structural)]
pub enum UIMessage {
    SpawnMenu,
    DespawnMenu,
    SpawnUIHud,
    SpawnScenery,
    SpawnHelicopter,
    SpawnBreeze,
    SpawnJ3Cub,
}

/// The message that spawns the aircraft of a menu row.
pub open spec fn spawn_message(s: AircraftSelector) -> UIMessage {
    match s {
        AircraftSelector::Breeze => UIMessage::SpawnBreeze,
        AircraftSelector::J3Cub => UIMessage::SpawnJ3Cub,
        AircraftSelector::Helicopter => UIMessage::SpawnHelicopter,
    }
}

/// What the "Fly" button sends for the selected aircraft row: nothing when
/// no aircraft is selected; otherwise the scenery is spawned, the menu
/// despawned, the head-up display spawned and then the selected aircraft.
pub open spec fn fly_sequence(selected: Option<AircraftSelector>) -> Seq<UIMessage> {
    match selected {
        None => Seq::<UIMessage>::empty(),
        Some(s) => seq![
            UIMessage::SpawnScenery,
            UIMessage::DespawnMenu,
            UIMessage::SpawnUIHud,
            spawn_message(s),
        ],
    }
}

/// With an aircraft selected, "Fly" sends exactly four messages: the
/// scenery, the menu's removal and the head-up display come first, and the
/// last spawns the selected aircraft; the menu is never spawned again. With
/// none selected nothing is sent.
pub proof fn lemma_fly_sends_four_messages(selected: Option<AircraftSelector>)
    ensures
        selected is None ==> fly_sequence(selected).len() == 0,
        selected matches Some(s) ==> {
            let m = fly_sequence(selected);
            &&& m.len() == 4
            &&& m[0] == UIMessage::SpawnScenery
            &&& m[1] == UIMessage::DespawnMenu
            &&& m[2] == UIMessage::SpawnUIHud
            &&& (s == AircraftSelector::Breeze ==> m[3] == UIMessage::SpawnBreeze)
            &&& (s == AircraftSelector::J3Cub ==> m[3] == UIMessage::SpawnJ3Cub)
            &&& (s == AircraftSelector::Helicopter ==> m[3] == UIMessage::SpawnHelicopter)
            &&& !m.contains(UIMessage::SpawnMenu)
        },
{
    if let Some(s) = selected {
        let m = fly_sequence(selected);
        assert(m.len() == 4);
        assert forall|i: int| 0 <= i < 4 implies m[i] != UIMessage::SpawnMenu by {
        }
    }
}

/// The messages the "Fly" button sends.
pub fn fly_messages(selected: Option<AircraftSelector>) -> (m: Vec<UIMessage>)
    ensures
        m@ == fly_sequence(selected),
{
    let mut messages: Vec<UIMessage> = Vec::new();
    let s = match selected {
        None => return messages,
        Some(s) => s,
    };
    messages.push(UIMessage::SpawnScenery);
    messages.push(UIMessage::DespawnMenu);
    messages.push(UIMessage::SpawnUIHud);
    match s {
        AircraftSelector::Breeze => messages.push(UIMessage::SpawnBreeze),
        AircraftSelector::J3Cub => messages.push(UIMessage::SpawnJ3Cub),
        AircraftSelector::Helicopter => messages.push(UIMessage::SpawnHelicopter),
    }
    assert(messages@ =~= seq![
        UIMessage::SpawnScenery,
        UIMessage::DespawnMenu,
        UIMessage::SpawnUIHud,
        spawn_message(s),
    ]);
    messages
}

/// Pressing "Fly": the messages to send and the terrain coordinate to fly
/// at. With no aircraft selected nothing is sent and the stored coordinate
/// stays; otherwise a location picked in the menu replaces the stored
/// coordinate, and without one the stored coordinate (from the settings
/// file) is kept.
pub fn fly_button<T>(aircraft: Option<AircraftSelector>, location: Option<T>, stored: T) -> (r: (
    Vec<UIMessage>,
    T,
))
    ensures
        r.0@ == fly_sequence(aircraft),
        r.1 == match (aircraft, location) {
            (Some(_), Some(c)) => c,
            _ => stored,
        },
{
    let messages = fly_messages(aircraft);
    if aircraft.is_none() {
        return (messages, stored);
    }
    match location {
        Some(c) => (messages, c),
        None => (messages, stored),
    }
}

/// The registered one-shot system that handles a message (the menu is
/// despawned directly, by no system).
pub open spec fn system_name(m: UIMessage) -> Option<Seq<char>> {
    match m {
        UIMessage::DespawnMenu => None,
        UIMessage::SpawnMenu => Some("spawn_menu"@),
        UIMessage::SpawnUIHud => Some("spawn_ui_hud"@),
        UIMessage::SpawnScenery => Some("setup_scene"@),
        UIMessage::SpawnHelicopter => Some("spawn_helicopter"@),
        UIMessage::SpawnBreeze => Some("setup_breeze"@),
        UIMessage::SpawnJ3Cub => Some("setup_j3cub"@),
    }
}

/// Every message but the menu's removal is handled by a system of its own:
/// no two messages share one.
pub proof fn lemma_each_message_has_its_own_system(a: UIMessage, b: UIMessage)
    ensures
        system_name(a) is None <==> a == UIMessage::DespawnMenu,
        a != b && system_name(a) is Some ==> system_name(a) != system_name(b),
{
    reveal_strlit("spawn_menu");
    reveal_strlit("spawn_ui_hud");
    reveal_strlit("setup_scene");
    reveal_strlit("spawn_helicopter");
    reveal_strlit("setup_breeze");
    reveal_strlit("setup_j3cub");
    if a != b && system_name(a) is Some && system_name(b) is Some {
        let x = system_name(a)->0;
        let y = system_name(b)->0;
        assert(x.len() != y.len() || exists|i: int| 0 <= i < x.len() && x[i] != y[i]) by {
            if x.len() == y.len() {
                assert(x[0] != y[0] || x[1] != y[1] || x[6] != y[6] || x[7] != y[7]);
            }
        }
    }
}

/// Names the registered one-shot system that handles `m`.
pub fn run_once_system(m: UIMessage) -> (name: Option<&'static str>)
    ensures
        match name {
            Some(n) => system_name(m) == Some(n@),
            None => system_name(m) is None,
        },
{
    match m {
        UIMessage::DespawnMenu => None,
        UIMessage::SpawnMenu => Some("spawn_menu"),
        UIMessage::SpawnUIHud => Some("spawn_ui_hud"),
        UIMessage::SpawnScenery => Some("setup_scene"),
        UIMessage::SpawnHelicopter => Some("spawn_helicopter"),
        UIMessage::SpawnBreeze => Some("setup_breeze"),
        UIMessage::SpawnJ3Cub => Some("setup_j3cub"),
    }
}

/// How the window is shown.
#[derive(Clone, Copy, Debug, PartialEq, Eq, Structural)]
pub enum DisplayMode {
    Windowed,
    BorderlessFullscreen,
    Fullscreen,
}

/// The mode F11 switches `m` to.
pub open spec fn toggled_mode(m: DisplayMode) -> DisplayMode {
    if m == DisplayMode::Windowed {
        DisplayMode::BorderlessFullscreen
    } else {
        DisplayMode::Windowed
    }
}

/// F11 switches a windowed window to borderless fullscreen and any
/// fullscreen window back to windowed.
pub fn toggled_display_mode(m: DisplayMode) -> (n: DisplayMode)
    ensures
        n == toggled_mode(m),
{
    match m {
        DisplayMode::Windowed => DisplayMode::BorderlessFullscreen,
        _ => DisplayMode::Windowed,
    }
}

/// F11 always changes the mode, never into exclusive fullscreen, and lands
/// on windowed exactly when the window was fullscreen in either way.
pub proof fn lemma_toggle_switches_windowing(m: DisplayMode)
    ensures
        toggled_mode(m) != m,
        toggled_mode(m) != DisplayMode::Fullscreen,
        toggled_mode(m) == DisplayMode::Windowed <==> m != DisplayMode::Windowed,
{
}

/// Pressing F11 twice returns a window to the mode it had, unless it was in
/// exclusive fullscreen (which comes back borderless).
pub proof fn lemma_fullscreen_toggle_round_trip(m: DisplayMode)
    requires
        m != DisplayMode::Fullscreen,
    ensures
        toggled_mode(toggled_mode(m)) == m,
{
}

} // verus!
