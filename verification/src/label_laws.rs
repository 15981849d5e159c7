//! What labels, texts and pictures tell.
use crate::conn::{open_queries, rows_query};
use crate::cookies::{is_mask, COOKIE_SIZE};
use crate::fixture_text::{byte_text, contains_text, pan_degrees, signed, tilt_degrees};
use crate::fixtures::fixture_name;
use crate::labels::{beat_text, minutes_text};
use crate::logic::{hex_char, hex_digits};
use crate::state::FixtureKind;
use crate::text::{decimal, digit_char, digit_value, digits_value, law_decimal_is_unique, law_decimal_reads_back};
use vstd::prelude::*;

verus! {

broadcast use vstd::seq::group_seq_axioms;

/// A frame's label tells its beat, two frames to a beat: the digits are the beat, and a half
/// sign stands behind them on the frame between two beats.
pub proof fn law_beat_text(frame: u32)
    ensures
        ({
            let t = beat_text(frame);
            &&& t.len() > 0
            &&& t.last() == '½' ==> 2 * digits_value(t.drop_last(), 10) + 1 == frame
            &&& t.last() != '½' ==> 2 * digits_value(t, 10) == frame
        }),
{
    law_decimal_reads_back((frame / 2) as nat);
    let d = decimal((frame / 2) as nat);
    assert(d.push('½').drop_last() =~= d);
    assert(digit_value(d[d.len() - 1], 10) is Some);
}

/// A time's label tells its whole seconds: the minutes, a colon, and two digits of seconds
/// below sixty.
pub proof fn law_minutes_text(ms: u32)
    ensures
        ({
            let t = minutes_text(ms);
            let n = t.len() - 3;
            let minutes = digits_value(t.take(n), 10);
            let seconds = digits_value(t.skip(n + 1), 10);
            &&& n > 0
            &&& t[n] == ':'
            &&& seconds < 60
            &&& (60 * minutes + seconds) * 1000 <= ms < (60 * minutes + seconds + 1) * 1000
        }),
{
    let secs = ms / 1000;
    let m = (secs / 60) as nat;
    law_decimal_reads_back(m);
    let t = minutes_text(ms);
    let n = t.len() - 3;
    let a = digit_char((secs % 60 / 10) as nat);
    let b = digit_char((secs % 10) as nat);
    assert(t.take(n) =~= decimal(m));
    assert(t.skip(n + 1) =~= seq![a, b]);
    assert(seq![a, b].drop_last() =~= seq![a]);
    assert(seq![a].drop_last() =~= Seq::<char>::empty());
    assert(digits_value(Seq::<char>::empty(), 10) == 0);
    assert(digit_value(a, 10) == Some((secs % 60 / 10) as nat));
    assert(digit_value(b, 10) == Some((secs % 10) as nat));
    assert(digits_value(seq![a], 10) == secs % 60 / 10);
    assert(digits_value(seq![a, b], 10) == (secs % 60 / 10) * 10 + secs % 10);
    assert(secs % 60 % 10 == secs % 10);
}

/// A turret's angles are the nearest whole degrees: the pan byte spans half a turn about the
/// middle, the tilt byte a quarter turn.
pub proof fn law_degrees(b: u8)
    ensures
        -17 <= 2 * (17 * (pan_degrees(b) + 90) - 12 * b) <= 17,
        -17 <= 2 * (17 * tilt_degrees(b) - 6 * b) <= 17,
        pan_degrees(0) == -90,
        pan_degrees(255) == 90,
        tilt_degrees(0) == 0,
        tilt_degrees(255) == 90,
{
}

/// Numbers are told apart by their texts, and only those below zero have a sign.
pub proof fn law_signed(a: int, b: int)
    ensures
        signed(a) == signed(b) ==> a == b,
        signed(a)[0] == '-' <==> a < 0,
{
    law_decimal_reads_back(if a < 0 { (-a) as nat } else { a as nat });
    law_decimal_reads_back(if b < 0 { (-b) as nat } else { b as nat });
    let x = decimal(if a < 0 { (-a) as nat } else { a as nat });
    let y = decimal(if b < 0 { (-b) as nat } else { b as nat });
    assert(digit_value(x[0], 10) is Some && digit_value(y[0], 10) is Some);
    assert(signed(a)[0] == (if a < 0 { '-' } else { x[0] }));
    assert(signed(b)[0] == (if b < 0 { '-' } else { y[0] }));
    if signed(a) == signed(b) {
        if a < 0 {
            assert(signed(a).skip(1) =~= x);
            assert(signed(b).skip(1) =~= y);
            law_decimal_is_unique((-a) as nat, (-b) as nat);
        } else {
            law_decimal_is_unique(a as nat, b as nat);
        }
    }
}

/// A byte is spelled `0x` and two hexadecimal digits that have its value.
pub proof fn law_byte_text(b: u8)
    ensures
        byte_text(b).len() == 4,
        byte_text(b)[0] == '0' && byte_text(b)[1] == 'x',
        digit_value(byte_text(b)[2], 16) matches Some(hi) && digit_value(byte_text(b)[3], 16) matches Some(lo) && 16 * hi + lo == b,
{
    reveal_strlit("0x");
    let hi = (b / 16) as nat;
    let lo = (b % 16) as nat;
    reveal_with_fuel(hex_digits, 3);
    let h = hex_digits(b as nat, 2);
    assert(hi % 16 == hi);
    assert(h =~= seq![hex_char(hi as int), hex_char(lo as int)]);
    assert(byte_text(b)[2] == hex_char(hi as int) && byte_text(b)[3] == hex_char(lo as int));
    assert(digit_value(hex_char(hi as int), 16) == Some(hi));
    assert(digit_value(hex_char(lo as int), 16) == Some(lo));
}

/// The rows of fixtures are numbered from one, and no two of a kind share a name.
pub proof fn law_fixture_names(a: u8, b: u8)
    ensures
        fixture_name(FixtureKind::Laser, a) == "Laser "@ + decimal((a + 1) as nat),
        fixture_name(FixtureKind::Turret, a) == "Turret "@ + decimal((a + 1) as nat),
        a != b ==> fixture_name(FixtureKind::Laser, a) != fixture_name(FixtureKind::Laser, b),
        a != b ==> fixture_name(FixtureKind::Turret, a) != fixture_name(FixtureKind::Turret, b),
{
    let l = "Laser "@.len() as int;
    let t = "Turret "@.len() as int;
    assert(fixture_name(FixtureKind::Laser, a).skip(l) =~= decimal((a + 1) as nat));
    assert(fixture_name(FixtureKind::Laser, b).skip(l) =~= decimal((b + 1) as nat));
    assert(fixture_name(FixtureKind::Turret, a).skip(t) =~= decimal((a + 1) as nat));
    assert(fixture_name(FixtureKind::Turret, b).skip(t) =~= decimal((b + 1) as nat));
    if decimal((a + 1) as nat) == decimal((b + 1) as nat) {
        law_decimal_is_unique((a + 1) as nat, (b + 1) as nat);
    }
}

/// A text is found wherever it stands in another, and in itself.
pub proof fn law_contains_text(before: Seq<char>, needle: Seq<char>, after: Seq<char>, s: Seq<char>)
    ensures
        contains_text(before + needle + after, needle),
        contains_text(needle, needle),
        contains_text(s, needle) ==> needle.len() <= s.len(),
{
    let t = before + needle + after;
    let n = before.len() as int;
    assert(t.subrange(n, n + needle.len()) =~= needle);
    assert(needle.subrange(0, 0int + needle.len()) =~= needle);
}

/// The mask of points is white in the three by three pixels about each point, and black
/// everywhere else.
pub proof fn law_mask(data: Seq<u8>, points: Seq<(i32, i32)>, x: int, y: int)
    requires
        is_mask(data, points),
        0 <= x < COOKIE_SIZE,
        0 <= y < COOKIE_SIZE,
    ensures
        data[y * COOKIE_SIZE + x] == 255 <==> exists|i: int|
            0 <= i < points.len() && (#[trigger] points[i]).0 - 1 <= x <= points[i].0 + 1 && points[i].1 - 1 <= y <= points[i].1 + 1,
        data[y * COOKIE_SIZE + x] == 255 || data[y * COOKIE_SIZE + x] == 0,
{
}

/// What is asked for of a project names that project: the queries of two projects differ.
pub proof fn law_queries(a: u64, b: u64, i: int)
    requires
        a != b,
        0 <= i < 4,
    ensures
        open_queries(a).len() == 4,
        open_queries(a)[i] != open_queries(b)[i],
        rows_query("song_chunk"@, a) == "SELECT * FROM song_chunk WHERE project_id = "@ + decimal(a as nat),
        rows_query("laser_kf"@, a) == "SELECT * FROM laser_kf WHERE project_id = "@ + decimal(a as nat),
        rows_query("projector_kf"@, a) == "SELECT * FROM projector_kf WHERE project_id = "@ + decimal(a as nat),
        rows_query("turret_kf"@, a) == "SELECT * FROM turret_kf WHERE project_id = "@ + decimal(a as nat),
{
    reveal_strlit("SELECT * FROM ");
    reveal_strlit(" WHERE project_id = ");
    reveal_strlit("song_chunk");
    reveal_strlit("laser_kf");
    reveal_strlit("projector_kf");
    reveal_strlit("turret_kf");
    reveal_strlit("SELECT * FROM song_chunk WHERE project_id = ");
    reveal_strlit("SELECT * FROM laser_kf WHERE project_id = ");
    reveal_strlit("SELECT * FROM projector_kf WHERE project_id = ");
    reveal_strlit("SELECT * FROM turret_kf WHERE project_id = ");
    let d = " WHERE project_id = "@;
    let s = "SELECT * FROM "@;
    assert(s + "song_chunk"@ + d =~= "SELECT * FROM song_chunk WHERE project_id = "@);
    assert(s + "laser_kf"@ + d =~= "SELECT * FROM laser_kf WHERE project_id = "@);
    assert(s + "projector_kf"@ + d =~= "SELECT * FROM projector_kf WHERE project_id = "@);
    assert(s + "turret_kf"@ + d =~= "SELECT * FROM turret_kf WHERE project_id = "@);
    let tables = seq!["song_chunk"@, "laser_kf"@, "projector_kf"@, "turret_kf"@];
    let head = s + tables[i] + d;
    assert(open_queries(a)[i] == head + decimal(a as nat));
    assert(open_queries(b)[i] == head + decimal(b as nat));
    if open_queries(a)[i] == open_queries(b)[i] {
        assert((head + decimal(a as nat)).skip(head.len() as int) =~= decimal(a as nat));
        assert((head + decimal(b as nat)).skip(head.len() as int) =~= decimal(b as nat));
        law_decimal_is_unique(a as nat, b as nat);
    }
}

} // verus!
