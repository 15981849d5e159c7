//! The texts the editor shows.
use crate::logic::state_label;
use crate::rows::Edit;
use crate::state::GridSelection;
use crate::text::{decimal, digit_char, push_decimal, push_str, text_of};
use vstd::prelude::*;

verus! {

broadcast use {vstd::seq::group_seq_axioms, vstd::string::group_string_axioms};

/// The name of an auto-generate pattern.
pub fn pattern_label(p: u8) -> (r: &'static str)
    ensures
        r@ == (if p == 0 {
            "Strobe all"@
        } else if p == 1 {
            "Chase"@
        } else {
            "Alternate"@
        }),
{
    match p {
        0 => "Strobe all",
        1 => "Chase",
        _ => "Alternate",
    }
}

/// A frame in beats: the beat's number, and a half between beats.
pub open spec fn beat_text(frame: u32) -> Seq<char> {
    if frame % 2 == 0 {
        decimal((frame / 2) as nat)
    } else {
        decimal((frame / 2) as nat).push('½')
    }
}

fn push_beat(out: &mut Vec<char>, frame: u32)
    ensures
        final(out)@ == old(out)@ + beat_text(frame),
{
    push_decimal(out, (frame / 2) as u64);
    if frame % 2 != 0 {
        out.push('½');
    }
    assert(out@ =~= old(out)@ + beat_text(frame));
}

/// A frame in beats.
pub fn beat_label(frame: u32) -> (r: String)
    ensures
        r@ == beat_text(frame),
{
    let mut out: Vec<char> = Vec::new();
    push_beat(&mut out, frame);
    assert(out@ =~= beat_text(frame));
    text_of(&out)
}

/// Milliseconds as minutes and two digits of seconds.
pub open spec fn minutes_text(ms: u32) -> Seq<char> {
    let secs = ms / 1000;
    decimal((secs / 60) as nat) + seq![':', digit_char((secs % 60 / 10) as nat), digit_char((secs % 10) as nat)]
}

/// Milliseconds as `m:ss`.
pub fn fmt_ms(ms: u32) -> (r: String)
    ensures
        r@ == minutes_text(ms),
{
    let secs: u32 = ms / 1000;
    let mut out: Vec<char> = Vec::new();
    push_decimal(&mut out, (secs / 60) as u64);
    out.push(':');
    let rest: u32 = secs % 60;
    proof {
        assert(decimal((rest / 10) as nat) =~= seq![digit_char((rest / 10) as nat)]);
        assert(decimal((rest % 10) as nat) =~= seq![digit_char((rest % 10) as nat)]);
        assert(rest % 10 == secs % 10);
    }
    push_decimal(&mut out, (rest / 10) as u64);
    push_decimal(&mut out, (rest % 10) as u64);
    assert(out@ =~= minutes_text(ms));
    text_of(&out)
}

/// The size of a show, and how many edits it has where that is told.
pub open spec fn size_text(num_lights: u32, num_frames: u32, edits: Option<u64>) -> Seq<char> {
    let size = decimal(num_lights as nat) + " lights · "@ + decimal((num_frames / 2) as nat) + " beats"@;
    match edits {
        Some(n) => size + " · "@ + decimal(n as nat) + " edits"@,
        None => size,
    }
}

/// The size of a show in lights and beats.
pub fn size_label(num_lights: u32, num_frames: u32, edits: Option<u64>) -> (r: String)
    ensures
        r@ == size_text(num_lights, num_frames, edits),
{
    let mut out: Vec<char> = Vec::new();
    push_decimal(&mut out, num_lights as u64);
    push_str(&mut out, " lights · ");
    push_decimal(&mut out, (num_frames / 2) as u64);
    push_str(&mut out, " beats");
    match edits {
        Some(n) => {
            push_str(&mut out, " · ");
            push_decimal(&mut out, n);
            push_str(&mut out, " edits");
        },
        None => {},
    }
    assert(out@ =~= size_text(num_lights, num_frames, edits));
    text_of(&out)
}

/// Where the history cursor stands.
pub open spec fn history_text(cutoff: u64, head: u64) -> Seq<char> {
    if cutoff < head {
        "Viewing edit "@ + decimal(cutoff as nat) + "/"@ + decimal(head as nat) + " (read-only)"@
    } else {
        "At latest ("@ + decimal(head as nat) + " edits)"@
    }
}

/// Where the history cursor stands.
pub fn history_label(cutoff: u64, head: u64) -> (r: String)
    ensures
        r@ == history_text(cutoff, head),
{
    let mut out: Vec<char> = Vec::new();
    if cutoff < head {
        push_str(&mut out, "Viewing edit ");
        push_decimal(&mut out, cutoff);
        push_str(&mut out, "/");
        push_decimal(&mut out, head);
        push_str(&mut out, " (read-only)");
    } else {
        push_str(&mut out, "At latest (");
        push_decimal(&mut out, head);
        push_str(&mut out, " edits)");
    }
    assert(out@ =~= history_text(cutoff, head));
    text_of(&out)
}

/// The name of an edit's state.
pub open spec fn state_text(state: u8) -> Seq<char> {
    if state == 0 {
        "off"@
    } else if state == 1 {
        "ON"@
    } else {
        "clear"@
    }
}

/// A line of the history list; the edit at the cursor is marked.
pub open spec fn edit_text(e: Edit, cutoff: u64) -> Seq<char> {
    (if e.seq == cutoff {
        "▶ "@
    } else {
        "  "@
    }) + "#"@ + decimal(e.seq as nat) + "  L"@ + decimal(e.light as nat) + " F"@ + decimal(e.frame as nat) + "  "@ + state_text(e.state)
}

/// A line of the history list.
pub fn edit_label(e: &Edit, cutoff: u64) -> (r: String)
    ensures
        r@ == edit_text(*e, cutoff),
{
    let mut out: Vec<char> = Vec::new();
    if e.seq == cutoff {
        push_str(&mut out, "▶ ");
    } else {
        push_str(&mut out, "  ");
    }
    push_str(&mut out, "#");
    push_decimal(&mut out, e.seq);
    push_str(&mut out, "  L");
    push_decimal(&mut out, e.light as u64);
    push_str(&mut out, " F");
    push_decimal(&mut out, e.frame as u64);
    push_str(&mut out, "  ");
    push_str(&mut out, state_label(e.state));
    assert(out@ =~= edit_text(*e, cutoff));
    text_of(&out)
}

/// The size of a selection.
pub open spec fn selection_text(sel: GridSelection) -> Seq<char> {
    "selection: "@ + decimal((sel.row_max - sel.row_min + 1) as nat) + " rows × "@ + decimal(
        (sel.frame_max - sel.frame_min + 1) as nat,
    ) + " frames"@
}

/// The size of a selection.
pub fn selection_label(sel: GridSelection) -> (r: String)
    requires
        sel.wf(),
    ensures
        r@ == selection_text(sel),
{
    let mut out: Vec<char> = Vec::new();
    push_str(&mut out, "selection: ");
    push_decimal(&mut out, (sel.row_max - sel.row_min) as u64 + 1);
    push_str(&mut out, " rows × ");
    push_decimal(&mut out, (sel.frame_max - sel.frame_min) as u64 + 1);
    push_str(&mut out, " frames");
    assert(out@ =~= selection_text(sel));
    text_of(&out)
}

/// The size of the clipboard.
pub open spec fn clipboard_text(light_span: u32, frame_span: u32) -> Seq<char> {
    "clipboard: "@ + decimal(light_span as nat) + " lights × "@ + decimal(frame_span as nat) + " frames"@
}

/// The size of the clipboard.
pub fn clipboard_label(light_span: u32, frame_span: u32) -> (r: String)
    ensures
        r@ == clipboard_text(light_span, frame_span),
{
    let mut out: Vec<char> = Vec::new();
    push_str(&mut out, "clipboard: ");
    push_decimal(&mut out, light_span as u64);
    push_str(&mut out, " lights × ");
    push_decimal(&mut out, frame_span as u64);
    push_str(&mut out, " frames");
    assert(out@ =~= clipboard_text(light_span, frame_span));
    text_of(&out)
}

} // verus!
