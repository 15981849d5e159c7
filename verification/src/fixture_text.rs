//! Texts about fixtures: editor titles, hover texts and the pattern picker.
use crate::fixtures::{fixture_name, FixtureEditor};
use crate::labels::beat_text;
use crate::logic::{hex_char, hex_digits};
use crate::patterns::{get, Pattern};
use crate::projector_patterns::{name_for, name_in, ProjectorPattern};
use crate::rows::{LaserKeyframe, ProjectorKeyframe, TurretKeyframe};
use crate::state::{FixtureKind, FixtureTrack};
use crate::text::{chars_of, decimal, lower, lowered, push_decimal, push_str, text_of};
use vstd::prelude::*;

verus! {

broadcast use {vstd::seq::group_seq_axioms, vstd::string::group_string_axioms};

/// Appends a text that is a string's.
fn push_owned(out: &mut Vec<char>, s: &String)
    ensures
        final(out)@ == old(out)@ + s@,
{
    push_str(out, s.as_str());
}

/// The title of the keyframe editor.
pub fn editor_title(ed: &FixtureEditor) -> (r: String)
    ensures
        r@ == fixture_name(ed.kind, ed.channel) + " · beat "@ + beat_text(ed.frame),
{
    let mut out: Vec<char> = Vec::new();
    push_owned(&mut out, &crate::fixtures::fixture_label(ed.kind, ed.channel));
    push_str(&mut out, " · beat ");
    push_owned(&mut out, &crate::labels::beat_label(ed.frame));
    assert(out@ =~= fixture_name(ed.kind, ed.channel) + " · beat "@ + beat_text(ed.frame));
    text_of(&out)
}

/// The label of a grid row: a light, numbered from one, or a fixture's name.
pub fn row_label(c: u32, nl: u32, fixtures: &Vec<FixtureTrack>) -> (r: String)
    requires
        c >= nl ==> c - nl < fixtures@.len(),
    ensures
        r@ == (if c < nl {
            "Light "@ + decimal((c + 1) as nat)
        } else {
            fixtures@[c - nl].label@
        }),
{
    if c < nl {
        let mut out: Vec<char> = Vec::new();
        push_str(&mut out, "Light ");
        push_decimal(&mut out, c as u64 + 1);
        assert(out@ =~= "Light "@ + decimal((c + 1) as nat));
        text_of(&out)
    } else {
        fixtures[(c - nl) as usize].label.clone()
    }
}

/// What is said of a laser at a frame.
pub open spec fn laser_hover(channel: u8, k: Option<LaserKeyframe>, lib: Seq<Pattern>) -> Seq<char> {
    fixture_name(FixtureKind::Laser, channel) + " · "@ + match k {
        Some(k) => if k.enable {
            (if k.pattern < lib.len() {
                lib[k.pattern as int].name@
            } else {
                "?"@
            }) + " · rgb "@ + decimal(k.cr as nat) + " "@ + decimal(k.cg as nat) + " "@ + decimal(k.cb as nat)
        } else {
            "off"@
        },
        None => "—"@,
    }
}

/// What is said of a laser at a frame.
pub fn laser_text(channel: u8, k: Option<&LaserKeyframe>, lib: &Vec<Pattern>) -> (r: String)
    ensures
        r@ == laser_hover(
            channel,
            match k {
                Some(k) => Some(*k),
                None => None,
            },
            lib@,
        ),
{
    let mut out: Vec<char> = Vec::new();
    push_owned(&mut out, &crate::fixtures::fixture_label(FixtureKind::Laser, channel));
    push_str(&mut out, " · ");
    match k {
        Some(k) => {
            if k.enable {
                let p: Option<&Pattern> = get(lib, k.pattern);
                match p {
                    Some(p) => {
                        push_str(&mut out, p.name);
                    },
                    None => {
                        push_str(&mut out, "?");
                    },
                }
                push_str(&mut out, " · rgb ");
                push_decimal(&mut out, k.cr as u64);
                push_str(&mut out, " ");
                push_decimal(&mut out, k.cg as u64);
                push_str(&mut out, " ");
                push_decimal(&mut out, k.cb as u64);
            } else {
                push_str(&mut out, "off");
            }
        },
        None => {
            push_str(&mut out, "—");
        },
    }
    assert(out@ =~= laser_hover(
        channel,
        match k {
            Some(k) => Some(*k),
            None => None,
        },
        lib@,
    ));
    text_of(&out)
}

/// A whole number in decimal notation.
pub open spec fn signed(n: int) -> Seq<char> {
    if n < 0 {
        seq!['-'] + decimal((-n) as nat)
    } else {
        decimal(n as nat)
    }
}

/// A pan byte in whole degrees either side of the middle, half a turn in all.
pub open spec fn pan_degrees(pan: u8) -> int {
    (24 * pan + 17) / 34 - 90
}

/// A tilt byte in whole degrees, a quarter turn in all.
pub open spec fn tilt_degrees(tilt: u8) -> int {
    (12 * tilt + 17) / 34
}

/// On or off.
pub open spec fn on_text(state: u8) -> Seq<char> {
    if state > 0 {
        "on"@
    } else {
        "off"@
    }
}

/// What is said of a turret at a frame.
pub open spec fn turret_hover(channel: u8, k: Option<TurretKeyframe>) -> Seq<char> {
    fixture_name(FixtureKind::Turret, channel) + " · "@ + match k {
        Some(t) => "pan "@ + signed(pan_degrees(t.pan)) + "° tilt "@ + signed(tilt_degrees(t.tilt)) + "° · "@ + on_text(t.state),
        None => "—"@,
    }
}

/// What is said of a turret at a frame.
pub fn turret_text(channel: u8, k: Option<TurretKeyframe>) -> (r: String)
    ensures
        r@ == turret_hover(channel, k),
{
    let mut out: Vec<char> = Vec::new();
    push_owned(&mut out, &crate::fixtures::fixture_label(FixtureKind::Turret, channel));
    push_str(&mut out, " · ");
    match k {
        Some(t) => {
            push_str(&mut out, "pan ");
            let turned: u64 = (24 * t.pan as u64 + 17) / 34;
            if turned < 90 {
                out.push('-');
                push_decimal(&mut out, 90 - turned);
            } else {
                push_decimal(&mut out, turned - 90);
            }
            push_str(&mut out, "° tilt ");
            push_decimal(&mut out, (12 * t.tilt as u64 + 17) / 34);
            push_str(&mut out, "° · ");
            if t.state > 0 {
                push_str(&mut out, "on");
            } else {
                push_str(&mut out, "off");
            }
        },
        None => {
            push_str(&mut out, "—");
        },
    }
    assert(out@ =~= turret_hover(channel, k));
    text_of(&out)
}

/// The pattern name that a lookup found, or the number of the pattern.
pub open spec fn gobo_text(name: Option<Seq<char>>, pattern: u8) -> Seq<char> {
    match name {
        Some(n) => n,
        None => decimal(pattern as nat),
    }
}

/// What is said of the projector at a frame, given the name found for its bytes.
pub open spec fn projector_hover(k: Option<ProjectorKeyframe>, name: Option<Seq<char>>) -> Seq<char> {
    "Laser Projector · "@ + match k {
        Some(p) => gobo_text(name, p.pattern) + " · colour "@ + decimal(p.colour as nat) + " · "@ + on_text(p.state),
        None => "—"@,
    }
}

/// What a lookup found.
pub open spec fn found(name: Option<&str>) -> Option<Seq<char>> {
    match name {
        Some(n) => Some(n@),
        None => None,
    }
}

/// What is said of the projector at a frame, given the name found for its bytes.
pub fn projector_text(k: Option<ProjectorKeyframe>, name: Option<&str>) -> (r: String)
    ensures
        r@ == projector_hover(k, found(name)),
{
    let mut out: Vec<char> = Vec::new();
    push_str(&mut out, "Laser Projector · ");
    match k {
        Some(p) => {
            match name {
                Some(n) => {
                    push_str(&mut out, n);
                },
                None => {
                    push_decimal(&mut out, p.pattern as u64);
                },
            }
            push_str(&mut out, " · colour ");
            push_decimal(&mut out, p.colour as u64);
            push_str(&mut out, " · ");
            if p.state > 0 {
                push_str(&mut out, "on");
            } else {
                push_str(&mut out, "off");
            }
        },
        None => {
            push_str(&mut out, "—");
        },
    }
    assert(out@ =~= projector_hover(k, found(name)));
    text_of(&out)
}

/// A byte as `0x` and two hexadecimal digits.
pub open spec fn byte_text(b: u8) -> Seq<char> {
    "0x"@ + hex_digits(b as nat, 2)
}

fn push_byte(out: &mut Vec<char>, b: u8)
    ensures
        final(out)@ == old(out)@ + byte_text(b),
{
    push_str(out, "0x");
    proof {
        reveal_with_fuel(hex_digits, 3);
        assert((b / 16) % 16 == b / 16);
    }
    out.push(nibble(b / 16));
    out.push(nibble(b % 16));
    assert(out@ =~= old(out)@ + byte_text(b));
}

fn nibble(d: u8) -> (r: char)
    requires
        d < 16,
    ensures
        r == hex_char(d as int),
{
    if d < 10 {
        (d + 48) as char
    } else {
        (d + 87) as char
    }
}

/// The chosen projector pattern: its name, or its two bytes where it has none.
pub fn projector_choice(lib: &Vec<ProjectorPattern>, gallery: u8, pattern: u8) -> (r: String)
    ensures
        r@ == (match name_in(lib@, gallery, pattern) {
            Some(n) => n,
            None => byte_text(gallery) + ","@ + byte_text(pattern),
        }),
{
    let name: Option<&str> = name_for(lib, gallery, pattern);
    match name {
        Some(n) => n.to_owned(),
        None => {
            let mut out: Vec<char> = Vec::new();
            push_byte(&mut out, gallery);
            push_str(&mut out, ",");
            push_byte(&mut out, pattern);
            assert(out@ =~= byte_text(gallery) + ","@ + byte_text(pattern));
            text_of(&out)
        },
    }
}

/// `needle` stands somewhere in `s`.
pub open spec fn contains_text(s: Seq<char>, needle: Seq<char>) -> bool {
    exists|i: int| 0 <= i <= s.len() - needle.len() && #[trigger] s.subrange(i, i + needle.len()) == needle
}

/// Whether the picker shows a name: the filter is empty or stands in it, in
/// either case.
pub fn matches_filter(name: &str, filter: &str) -> (r: bool)
    ensures
        r == (filter@.len() == 0 || contains_text(lowered(name@), lowered(filter@))),
{
    let needle: Vec<char> = lower(&chars_of(filter));
    if needle.len() == 0 {
        return true;
    }
    let s: Vec<char> = lower(&chars_of(name));
    if s.len() < needle.len() {
        return false;
    }
    let mut i: usize = 0;
    while i <= s.len() - needle.len()
        invariant
            needle@.len() <= s@.len(),
            needle@.len() > 0,
            s@ == lowered(name@),
            needle@ == lowered(filter@),
            i <= s@.len() - needle@.len() + 1,
            forall|j: int| 0 <= j < i ==> #[trigger] s@.subrange(j, j + needle@.len()) != needle@,
        decreases s@.len() - i,
    {
        let part: Vec<char> = crate::text::slice_of(&s, i, i + needle.len());
        if crate::text::same(&part, &needle) {
            assert(s@.subrange(i as int, i + needle@.len()) == needle@);
            return true;
        }
        i = i + 1;
    }
    false
}

/// The heading of a gallery in the picker.
pub fn gallery_heading(gallery: u8) -> (r: &'static str)
    ensures
        r@ == (if gallery == 255 {
            "Scenes"@
        } else {
            "Gobos"@
        }),
{
    if gallery == 255 {
        "Scenes"
    } else {
        "Gobos"
    }
}

} // verus!
