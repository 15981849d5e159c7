//! What the rows, bars and labels of the timeline show.
use crate::editing::{is_bar, lists_bars};
use crate::logic::{answer, channel_keys, governing, hex_char, hex_digits, id_text, key_held, key_in_effect};
use crate::rows::Identity;
use crate::text::{digit_value, digits_value};
use vstd::arithmetic::div_mod::lemma_fundamental_div_mod;
use vstd::prelude::*;

verus! {

broadcast use vstd::seq::group_seq_axioms;

/// The row that governs a channel at a frame is the latest of that channel that is not
/// after the frame, and of several at one frame the first; there is none exactly where
/// every row of the channel is later.
pub proof fn law_governing<T, C: Fn(&T) -> u8, F: Fn(&T) -> u32>(rows: Seq<T>, channel_of: C, frame_of: F, c: int, at: u32)
    ensures
        match governing(rows, channel_of, frame_of, c, at) {
            Some(i) => {
                &&& 0 <= i < rows.len()
                &&& answer(channel_of, rows[i]) == c
                &&& answer(frame_of, rows[i]) <= at
                &&& forall|j: int|
                    0 <= j < rows.len() && answer(channel_of, #[trigger] rows[j]) == c && answer(frame_of, rows[j]) <= at ==> {
                        ||| answer(frame_of, rows[j]) < answer(frame_of, rows[i])
                        ||| answer(frame_of, rows[j]) == answer(frame_of, rows[i]) && i <= j
                    }
            },
            None => forall|j: int| 0 <= j < rows.len() && answer(channel_of, #[trigger] rows[j]) == c ==> answer(frame_of, rows[j]) > at,
        },
    decreases rows.len(),
{
    if rows.len() > 0 {
        let p = rows.drop_last();
        law_governing(p, channel_of, frame_of, c, at);
        let z = rows.len() - 1;
        let best = governing(p, channel_of, frame_of, c, at);
        if let Some(b) = best {
            assert(p[b] == rows[b]);
        }
        match governing(rows, channel_of, frame_of, c, at) {
            Some(i) => {
                assert forall|j: int|
                    0 <= j < rows.len() && answer(channel_of, #[trigger] rows[j]) == c && answer(frame_of, rows[j]) <= at implies {
                    ||| answer(frame_of, rows[j]) < answer(frame_of, rows[i])
                    ||| answer(frame_of, rows[j]) == answer(frame_of, rows[i]) && i <= j
                } by {
                    if j < z {
                        assert(p[j] == rows[j]);
                    }
                }
            },
            None => {
                assert forall|j: int| 0 <= j < rows.len() && answer(channel_of, #[trigger] rows[j]) == c implies answer(frame_of, rows[j])
                    > at by {
                    if j < z {
                        assert(p[j] == rows[j]);
                    }
                }
            },
        }
    }
}

/// A channel is held on at a frame exactly where the last of its latest keyframes not
/// after the frame is on; before its first keyframe it is off.
pub proof fn law_track_holds(keys: Seq<(u32, bool)>, f: int)
    ensures
        ({
            ||| exists|i: int|
                {
                    &&& 0 <= i < keys.len() && (#[trigger] keys[i]).0 <= f
                    &&& key_in_effect(keys, f) == Some(keys[i])
                    &&& key_held(keys, f) == keys[i].1
                    &&& forall|j: int| 0 <= j < keys.len() && (#[trigger] keys[j]).0 <= f ==> keys[j].0 < keys[i].0 || keys[j].0 == keys[i].0 && j <= i
                }
            ||| key_in_effect(keys, f) is None && !key_held(keys, f) && forall|j: int| 0 <= j < keys.len() ==> (#[trigger] keys[j]).0 > f
        }),
    decreases keys.len(),
{
    if keys.len() > 0 {
        let p = keys.drop_last();
        let z = keys.len() - 1;
        law_track_holds(p, f);
        assert forall|j: int| 0 <= j < p.len() implies #[trigger] p[j] == keys[j] by {}
        if key_in_effect(p, f) is Some {
            let i = choose|i: int|
                {
                    &&& 0 <= i < p.len() && (#[trigger] p[i]).0 <= f
                    &&& key_in_effect(p, f) == Some(p[i])
                    &&& key_held(p, f) == p[i].1
                    &&& forall|j: int| 0 <= j < p.len() && (#[trigger] p[j]).0 <= f ==> p[j].0 < p[i].0 || p[j].0 == p[i].0 && j <= i
                };
            assert(keys[i] == p[i]);
            let w = if keys[z].0 <= f && keys[i].0 <= keys[z].0 {
                z
            } else {
                i
            };
            assert(key_in_effect(keys, f) == Some(keys[w]));
            assert forall|j: int| 0 <= j < keys.len() && (#[trigger] keys[j]).0 <= f implies keys[j].0 < keys[w].0 || keys[j].0 == keys[w].0
                && j <= w by {
                if j < z {
                    assert(p[j] == keys[j]);
                }
            }
        } else {
            assert forall|j: int| 0 <= j < p.len() implies (#[trigger] keys[j]).0 > f by {
                assert(p[j] == keys[j]);
            }
            if keys[z].0 <= f {
                assert(key_in_effect(keys, f) == Some(keys[z]));
            }
        }
    }
}

/// The keyframes of a channel are those of its rows.
pub proof fn law_channel_keys<T, C: Fn(&T) -> u8, F: Fn(&T) -> u32, A: Fn(&T) -> bool>(
    rows: Seq<T>,
    channel_of: C,
    frame_of: F,
    active: A,
    c: int,
    k: (u32, bool),
)
    ensures
        channel_keys(rows, channel_of, frame_of, active, c).contains(k) <==> exists|i: int|
            0 <= i < rows.len() && answer(channel_of, #[trigger] rows[i]) == c && k.0 == answer(frame_of, rows[i]) && k.1 == answer(
                active,
                rows[i],
            ),
    decreases rows.len(),
{
    if rows.len() > 0 {
        let p = rows.drop_last();
        let z = rows.len() - 1;
        law_channel_keys(p, channel_of, frame_of, active, c, k);
        let a = channel_keys(p, channel_of, frame_of, active, c);
        let b = channel_keys(rows, channel_of, frame_of, active, c);
        if b.contains(k) {
            let i = choose|i: int| 0 <= i < b.len() && b[i] == k;
            if i < a.len() {
                assert(a[i] == k);
                let j = choose|j: int|
                    0 <= j < p.len() && answer(channel_of, #[trigger] p[j]) == c && k.0 == answer(frame_of, p[j]) && k.1 == answer(
                        active,
                        p[j],
                    );
                assert(rows[j] == p[j]);
            } else {
                assert(answer(channel_of, rows[z]) == c);
            }
        }
        if exists|i: int|
            0 <= i < rows.len() && answer(channel_of, #[trigger] rows[i]) == c && k.0 == answer(frame_of, rows[i]) && k.1 == answer(
                active,
                rows[i],
            ) {
            let j = choose|i: int|
                0 <= i < rows.len() && answer(channel_of, #[trigger] rows[i]) == c && k.0 == answer(frame_of, rows[i]) && k.1 == answer(
                    active,
                    rows[i],
                );
            if j < z {
                assert(p[j] == rows[j]);
                let i = choose|i: int| 0 <= i < a.len() && a[i] == k;
                assert(b[i] == k);
            } else {
                assert(b[b.len() - 1] == k);
            }
        }
    }
}

/// A bar is a whole run: all of it is on, and no longer run of frames that are on
/// contains it.
pub proof fn law_bar_is_whole_run(row: Seq<bool>, s: int, e: int, a: int, b: int)
    requires
        is_bar(row, s, e),
        0 <= a <= s,
        e <= b < row.len(),
        forall|f: int| a <= f <= b ==> #[trigger] row[f],
    ensures
        forall|f: int| s <= f <= e ==> #[trigger] row[f],
        a == s,
        b == e,
{
    if a < s {
        assert(row[s - 1]);
    }
    if b > e {
        assert(row[e + 1]);
    }
}

/// The bars of a row show the row: a frame is on exactly where a bar covers it, and
/// between two bars there is a frame that is off.
pub proof fn law_bars_show_row(row: Seq<bool>, bars: Seq<(u32, u32)>, f: int, i: int, j: int)
    requires
        lists_bars(row, bars, row.len() as int),
        0 <= f < row.len(),
    ensures
        row[f] <==> exists|k: int| 0 <= k < bars.len() && (#[trigger] bars[k]).0 <= f <= bars[k].1,
        0 <= i < j < bars.len() ==> bars[i].1 + 1 < bars[j].0 && !row[bars[i].1 + 1],
{
    if exists|k: int| 0 <= k < bars.len() && (#[trigger] bars[k]).0 <= f <= bars[k].1 {
        let k = choose|k: int| 0 <= k < bars.len() && (#[trigger] bars[k]).0 <= f <= bars[k].1;
        assert(is_bar(row, bars[k].0 as int, bars[k].1 as int));
    }
    if 0 <= i < j < bars.len() {
        assert(is_bar(row, bars[i].0 as int, bars[i].1 as int));
        assert(is_bar(row, bars[j].0 as int, bars[j].1 as int));
        assert(row[bars[j].0 as int]);
    }
}

/// Sixteen to the power of `n`.
pub open spec fn power_of_16(n: nat) -> nat
    decreases n,
{
    if n == 0 {
        1
    } else {
        16 * power_of_16((n - 1) as nat)
    }
}

proof fn lemma_hex_digits(v: nat, n: nat)
    requires
        v < power_of_16(n),
    ensures
        hex_digits(v, n).len() == n,
        digits_value(hex_digits(v, n), 16) == v,
        forall|i: int| 0 <= i < n ==> digit_value(#[trigger] hex_digits(v, n)[i], 16) is Some,
    decreases n,
{
    if n > 0 {
        let rest = hex_digits(v / 16, (n - 1) as nat);
        assert(v / 16 < power_of_16((n - 1) as nat));
        lemma_hex_digits(v / 16, (n - 1) as nat);
        let d = v % 16;
        let c = hex_char(d as int);
        assert(digit_value(c, 16) == Some(d));
        assert(rest.push(c).drop_last() =~= rest);
        assert(rest.push(c).last() == c);
        lemma_fundamental_div_mod(v as int, 16);
        assert(digits_value(rest.push(c), 16) == digits_value(rest, 16) * 16 + d);
    }
}

/// An identity is shown by eight hexadecimal digits that spell its top 32 bits, and an
/// ellipsis.
pub proof fn law_short_id(id: Identity)
    ensures
        id_text(Some(id)).len() == 9,
        digits_value(id_text(Some(id)).take(8), 16) == id.hi as nat / 0x1_0000_0000_0000_0000_0000_0000,
        id_text(Some(id))[8] == '…',
{
    let top = id.hi as nat / 0x1_0000_0000_0000_0000_0000_0000;
    assert(power_of_16(8) == 0x1_0000_0000) by {
        reveal_with_fuel(power_of_16, 9);
    }
    assert(top < 0x1_0000_0000);
    lemma_hex_digits(top, 8);
    assert(id_text(Some(id)).take(8) =~= hex_digits(top, 8));
}

} // verus!
