use vstd::prelude::*;

verus! {

/// The cockpit screens.
#[derive(Clone, Copy, Debug, PartialEq, Eq, Structural)]
pub enum Screens {
    Left,
    Right,
    Centre,
    Hud,
}

/// What a text or shape on a screen shows.
#[derive(Clone, Copy, Debug, PartialEq, Eq, Structural)]
pub enum ScreenUiElement {
    Throttle,
    Altitude,
    AirspeedKts,
    SpeedMach,
    Alpha,
    Horizon,
}

/// What a panel screen (every screen but the head-up display) shows.
pub fn screen_label(screen: Screens) -> (e: ScreenUiElement)
    requires
        screen != Screens::Hud,
    ensures
        e == match screen {
            Screens::Left => ScreenUiElement::Throttle,
            Screens::Right => ScreenUiElement::AirspeedKts,
            _ => ScreenUiElement::Altitude,
        },
{
    match screen {
        Screens::Left => ScreenUiElement::Throttle,
        Screens::Right => ScreenUiElement::AirspeedKts,
        _ => ScreenUiElement::Altitude,
    }
}

/// Emissive brightness of a screen's material: the head-up display glows
/// far brighter than the panel screens.
pub fn emissive_brightness(screen: Screens) -> (b: u32)
    ensures
        b == (if screen == Screens::Hud {
            200u32
        } else {
            5u32
        }),
{
    match screen {
        Screens::Hud => 200,
        _ => 5,
    }
}

/// One labelled rung of the head-up display's pitch ladder.
#[derive(Clone, Copy, Debug, PartialEq, Eq, Structural)]
pub struct PitchRung {
    /// The pitch the rung marks, in degrees (shown as its label).
    pub degrees: i32,
    /// Offset of the rung from the horizon line, in pixels (down is positive).
    pub top_px: i32,
}

/// The rung for step `i` of the ladder.
pub open spec fn rung(i: int) -> PitchRung {
    PitchRung { degrees: (-10 * i) as i32, top_px: (360 * i) as i32 }
}

/// Neighbouring rungs are 10 degrees and 360 pixels apart, a rung's offset
/// grows downwards as its pitch falls (36 pixels per degree), and step 0 is
/// the horizon.
pub proof fn lemma_rungs_evenly_spaced(i: int)
    requires
        -10 <= i < 10,
    ensures
        rung(i + 1).degrees == rung(i).degrees - 10,
        rung(i + 1).top_px == rung(i).top_px + 360,
        rung(i).top_px == -36 * rung(i).degrees,
        rung(0).degrees == 0 && rung(0).top_px == 0,
        rung(-10).degrees == 100,
{
}

/// The pitch ladder: a rung every 10 degrees from +100 down to -90, 360
/// pixels apart, without one on the horizon itself.
pub fn pitch_ladder() -> (rungs: Vec<PitchRung>)
    ensures
        rungs@.len() == 19,
        forall|k: int| 0 <= k < 10 ==> #[trigger] rungs@[k] == rung(k - 10),
        forall|k: int| 10 <= k < 19 ==> #[trigger] rungs@[k] == rung(k - 9),
{
    let mut rungs: Vec<PitchRung> = Vec::new();
    let mut i: i32 = -10;
    while i < 10
        invariant
            -10 <= i <= 10,
            rungs@.len() == (if i <= 0 {
                i + 10
            } else {
                i + 9
            }),
            forall|k: int| 0 <= k < 10 && k < rungs@.len() ==> #[trigger] rungs@[k] == rung(k - 10),
            forall|k: int| 10 <= k < rungs@.len() ==> #[trigger] rungs@[k] == rung(k - 9),
        decreases 10 - i,
    {
        if i != 0 {
            let ghost before = rungs@;
            let degrees = -(i * 10);
            let top_px = 360 * i;
            rungs.push(PitchRung { degrees, top_px });
            assert(rungs@[before.len() as int] == rung(i as int));
            assert(forall|k: int| 0 <= k < before.len() ==> rungs@[k] == before[k]);
        }
        i = i + 1;
    }
    rungs
}

} // verus!
