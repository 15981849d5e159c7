//! What a log of edits comes to, cell by cell.
use crate::logic::{folded, key_at, overlaid};
use crate::rows::{Edit, LightEditInput};
use vstd::prelude::*;

verus! {

broadcast use vstd::seq::group_seq_axioms;

/// The edit sets this cell: 0 puts an off keyframe there, 1 an on keyframe, and
/// anything else takes the keyframe away.
pub open spec fn leaves(state: u8, key: Option<bool>) -> bool {
    match key {
        Some(on) => if on { state == 1 } else { state == 0 },
        None => state >= 2,
    }
}

/// The last edit of a cell up to a point of the log decides its keyframe as of then;
/// a cell that no edit names has none.
pub proof fn law_last_edit_decides(log: Seq<Edit>, cutoff: u64, light: u32, frame: u32)
    ensures
        ({
            let key = key_at(folded(log, cutoff), (light, frame));
            ||| exists|i: int|
                {
                    &&& 0 <= i < log.len() && (#[trigger] log[i]).light == light && log[i].frame == frame && log[i].seq <= cutoff
                    &&& leaves(log[i].state, key)
                    &&& forall|j: int| i < j < log.len() && (#[trigger] log[j]).light == light && log[j].frame == frame ==> log[j].seq > cutoff
                }
            ||| key is None && forall|j: int|
                0 <= j < log.len() && (#[trigger] log[j]).light == light && log[j].frame == frame ==> log[j].seq > cutoff
        }),
    decreases log.len(),
{
    if log.len() > 0 {
        let p = log.drop_last();
        let z = log.len() - 1;
        let key = key_at(folded(p, cutoff), (light, frame));
        law_last_edit_decides(p, cutoff, light, frame);
        assert forall|j: int| 0 <= j < z implies #[trigger] p[j] == log[j] by {}
        let e = log[z];
        if e.light == light && e.frame == frame && e.seq <= cutoff {
            assert(leaves(e.state, key_at(folded(log, cutoff), (light, frame))));
        } else {
            assert(key_at(folded(log, cutoff), (light, frame)) == key);
            if exists|i: int|
                {
                    &&& 0 <= i < p.len() && (#[trigger] p[i]).light == light && p[i].frame == frame && p[i].seq <= cutoff
                    &&& leaves(p[i].state, key)
                    &&& forall|j: int| i < j < p.len() && (#[trigger] p[j]).light == light && p[j].frame == frame ==> p[j].seq > cutoff
                } {
                let i = choose|i: int|
                    {
                        &&& 0 <= i < p.len() && (#[trigger] p[i]).light == light && p[i].frame == frame && p[i].seq <= cutoff
                        &&& leaves(p[i].state, key)
                        &&& forall|j: int| i < j < p.len() && (#[trigger] p[j]).light == light && p[j].frame == frame ==> p[j].seq > cutoff
                    };
                assert(log[i] == p[i]);
                assert forall|j: int| i < j < log.len() && (#[trigger] log[j]).light == light && log[j].frame == frame implies log[j].seq
                    > cutoff by {
                    if j < z {
                        assert(p[j] == log[j]);
                    }
                }
            } else {
                assert forall|j: int| 0 <= j < log.len() && (#[trigger] log[j]).light == light && log[j].frame == frame implies log[j].seq
                    > cutoff by {
                    if j < z {
                        assert(p[j] == log[j]);
                    }
                }
            }
        }
    }
}

/// Of edits made on top of keyframes, the last of a cell decides its keyframe; a cell
/// that none names keeps the one it had.
pub proof fn law_last_change_decides(m: Map<(u32, u32), bool>, edits: Seq<LightEditInput>, light: u32, frame: u32)
    ensures
        ({
            let key = key_at(overlaid(m, edits), (light, frame));
            ||| exists|i: int|
                {
                    &&& 0 <= i < edits.len() && (#[trigger] edits[i]).light == light && edits[i].frame == frame
                    &&& leaves(edits[i].state, key)
                    &&& forall|j: int| i < j < edits.len() ==> (#[trigger] edits[j]).light != light || edits[j].frame != frame
                }
            ||| key == key_at(m, (light, frame)) && forall|j: int|
                0 <= j < edits.len() ==> (#[trigger] edits[j]).light != light || edits[j].frame != frame
        }),
    decreases edits.len(),
{
    if edits.len() > 0 {
        let p = edits.drop_last();
        let z = edits.len() - 1;
        let key = key_at(overlaid(m, p), (light, frame));
        law_last_change_decides(m, p, light, frame);
        assert forall|j: int| 0 <= j < z implies #[trigger] p[j] == edits[j] by {}
        let e = edits[z];
        if e.light == light && e.frame == frame {
            assert(leaves(e.state, key_at(overlaid(m, edits), (light, frame))));
        } else {
            assert(key_at(overlaid(m, edits), (light, frame)) == key);
            if exists|i: int|
                {
                    &&& 0 <= i < p.len() && (#[trigger] p[i]).light == light && p[i].frame == frame
                    &&& leaves(p[i].state, key)
                    &&& forall|j: int| i < j < p.len() ==> (#[trigger] p[j]).light != light || p[j].frame != frame
                } {
                let i = choose|i: int|
                    {
                        &&& 0 <= i < p.len() && (#[trigger] p[i]).light == light && p[i].frame == frame
                        &&& leaves(p[i].state, key)
                        &&& forall|j: int| i < j < p.len() ==> (#[trigger] p[j]).light != light || p[j].frame != frame
                    };
                assert(edits[i] == p[i]);
                assert forall|j: int| i < j < edits.len() implies (#[trigger] edits[j]).light != light || edits[j].frame != frame by {
                    if j < z {
                        assert(p[j] == edits[j]);
                    }
                }
            } else {
                assert forall|j: int| 0 <= j < edits.len() implies (#[trigger] edits[j]).light != light || edits[j].frame != frame by {
                    if j < z {
                        assert(p[j] == edits[j]);
                    }
                }
            }
        }
    }
}

} // verus!
