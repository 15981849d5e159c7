//! Copying, pasting and saving a region of the timeline.
use crate::rows::{LaserKeyframeInput, LightEditInput, ProjectorKeyframeInput, TurretKeyframeInput};
use crate::session::typed_name;
use crate::state::{
    laser_views, lasers_moved, lights_moved, projectors_moved, turrets_moved, Clipboard, GridSelection,
};
use crate::text::trimmed;
use vstd::prelude::*;

verus! {

broadcast use {vstd::seq::group_seq_axioms, vstd::string::group_string_axioms};

/// Nothing was copied.
pub open spec fn nothing(cb: Clipboard) -> bool {
    cb.lights@.len() == 0 && cb.lasers@.len() == 0 && cb.projectors@.len() == 0 && cb.turrets@.len() == 0
}

/// The rows that paste a region: lights first, then lasers, projectors and turrets.
/// A list that is empty is not sent.
#[derive(Debug)]
pub struct PastePlan {
    pub lights: Vec<LightEditInput>,
    pub lasers: Vec<LaserKeyframeInput>,
    pub projectors: Vec<ProjectorKeyframeInput>,
    pub turrets: Vec<TurretKeyframeInput>,
}

/// The plan pastes the region with its corner at a light and a frame.
pub open spec fn pastes(plan: PastePlan, cb: Clipboard, base_light: u32, base_frame: u32) -> bool {
    &&& plan.lights@ == lights_moved(cb.lights@, base_light, base_frame)
    &&& laser_views(plan.lasers@) == lasers_moved(laser_views(cb.lasers@), base_frame)
    &&& plan.projectors@ == projectors_moved(cb.projectors@, base_frame)
    &&& plan.turrets@ == turrets_moved(cb.turrets@, base_frame)
}

/// Pastes a region with its corner at a light and a frame.
pub fn apply_clipboard(cb: &Clipboard, base_light: u32, base_frame: u32) -> (r: PastePlan)
    ensures
        pastes(r, *cb, base_light, base_frame),
{
    PastePlan {
        lights: cb.light_rows(base_light, base_frame),
        lasers: cb.laser_rows(base_frame),
        projectors: cb.projector_rows(base_frame),
        turrets: cb.turret_rows(base_frame),
    }
}

/// Keeps a copied region, unless there is nothing in it.
pub fn do_copy(cb: Clipboard) -> (r: Result<Clipboard, String>)
    ensures
        if nothing(cb) {
            r matches Err(e) && e@ == "Nothing in the selection to copy"@
        } else {
            r == Ok::<Clipboard, String>(cb)
        },
{
    if cb.is_empty() {
        Err("Nothing in the selection to copy".to_owned())
    } else {
        Ok(cb)
    }
}

/// Pastes a region at the playhead, on the lights it was copied from.
pub fn do_paste(cb: &Clipboard, current_frame: u32) -> (r: PastePlan)
    ensures
        pastes(r, *cb, cb.src_light_min, current_frame),
{
    apply_clipboard(cb, cb.src_light_min, current_frame)
}

/// Repeats a copied selection right behind itself, on the same lights.
pub fn do_duplicate(cb: &Clipboard, sel: GridSelection) -> (r: Option<PastePlan>)
    requires
        sel.frame_max < u32::MAX,
    ensures
        r is None <==> nothing(*cb),
        r matches Some(plan) ==> pastes(plan, *cb, cb.src_light_min, (sel.frame_max + 1) as u32),
{
    if cb.is_empty() {
        return None;
    }
    Some(apply_clipboard(cb, cb.src_light_min, sel.frame_max + 1))
}

/// A region to be saved under a name.
#[derive(Debug)]
pub struct Blueprint {
    pub name: String,
    pub num_lights: u32,
    pub num_frames: u32,
    pub region: Clipboard,
}

/// Why a region cannot be saved under a name.
pub open spec fn blueprint_problem(cb: Clipboard, name: Seq<char>) -> Option<Seq<char>> {
    if nothing(cb) {
        Some("Nothing in the selection to save"@)
    } else if trimmed(name).len() == 0 {
        Some("Blueprint name cannot be empty"@)
    } else {
        None
    }
}

/// Saves a region under a name; it has at least one light.
pub fn do_save_blueprint(cb: Clipboard, name: &str) -> (r: Result<Blueprint, String>)
    ensures
        r is Err <==> blueprint_problem(cb, name@) is Some,
        r matches Err(e) ==> blueprint_problem(cb, name@) == Some(e@),
        r matches Ok(b) ==> b.name@ == trimmed(name@) && b.num_lights == (if cb.light_span < 1 {
            1
        } else {
            cb.light_span
        }) && b.num_frames == cb.frame_span && b.region == cb,
{
    if cb.is_empty() {
        return Err("Nothing in the selection to save".to_owned());
    }
    match typed_name(name) {
        None => Err("Blueprint name cannot be empty".to_owned()),
        Some(name) => Ok(
            Blueprint {
                name,
                num_lights: if cb.light_span < 1 {
                    1
                } else {
                    cb.light_span
                },
                num_frames: cb.frame_span,
                region: cb,
            },
        ),
    }
}

} // verus!
