//! Audio travels in chunks: splitting the bytes of a song, and putting the chunks
//! together again.
use crate::rows::{SongChunk, SongChunkView};
use crate::songs::lemma_distinct_below;
use crate::store::{
    chunks_for, lemma_rows_of_push, row_views, rows_of, song_chunks_ok, total_bytes, StoreView, CHUNK_SIZE,
};
use vstd::prelude::*;

verus! {

broadcast use vstd::seq::group_seq_axioms;

// ---- splitting --------------------------------------------------------------

/// The chunk `k` of the bytes: the bytes from `k` full chunks on, as many as one
/// chunk holds.
pub open spec fn piece(bytes: Seq<u8>, k: int) -> Seq<u8> {
    let from = k * CHUNK_SIZE;
    let to = if from + CHUNK_SIZE <= bytes.len() {
        from + CHUNK_SIZE
    } else {
        bytes.len() as int
    };
    bytes.subrange(from, to)
}

/// The first `n` chunks of the bytes.
pub open spec fn pieces(bytes: Seq<u8>, n: nat) -> Seq<Seq<u8>> {
    Seq::new(n, |k: int| piece(bytes, k))
}

/// The bytes reach to the start of the last of `n` chunks.
pub open spec fn splits(bytes: Seq<u8>, n: int) -> bool {
    n > 0 ==> (n - 1) * CHUNK_SIZE <= bytes.len()
}

/// The contents of several buffers.
pub open spec fn buffers(v: Seq<Vec<u8>>) -> Seq<Seq<u8>> {
    v.map_values(|b: Vec<u8>| b@)
}

fn copy_bytes(bytes: &Vec<u8>, from: usize, to: usize) -> (r: Vec<u8>)
    requires
        from <= to <= bytes@.len(),
    ensures
        r@ == bytes@.subrange(from as int, to as int),
{
    let mut out: Vec<u8> = Vec::with_capacity(to - from);
    let mut i: usize = from;
    while i < to
        invariant
            from <= i <= to <= bytes@.len(),
            out@ == bytes@.subrange(from as int, i as int),
        decreases to - i,
    {
        out.push(bytes[i]);
        i = i + 1;
        assert(out@ =~= bytes@.subrange(from as int, i as int));
    }
    out
}

/// Splits the bytes into `n` chunks.
pub fn split_chunks(bytes: &Vec<u8>, n: u32) -> (r: Vec<Vec<u8>>)
    requires
        splits(bytes@, n as int),
    ensures
        buffers(r@) == pieces(bytes@, n as nat),
{
    let mut out: Vec<Vec<u8>> = Vec::new();
    let mut k: u32 = 0;
    let size: usize = CHUNK_SIZE as usize;
    let mut from: usize = 0;
    while k < n
        invariant
            k <= n,
            splits(bytes@, n as int),
            size == CHUNK_SIZE,
            k < n ==> from == k * CHUNK_SIZE && from <= bytes@.len(),
            buffers(out@) == pieces(bytes@, k as nat),
        decreases n - k,
    {
        let left: usize = bytes.len() - from;
        let to: usize = if left >= size {
            from + size
        } else {
            bytes.len()
        };
        let ghost before = out@;
        out.push(copy_bytes(bytes, from, to));
        assert(buffers(out@) =~= buffers(before).push(piece(bytes@, k as int)));
        assert(pieces(bytes@, (k + 1) as nat) =~= pieces(bytes@, k as nat).push(piece(bytes@, k as int)));
        k = k + 1;
        assert(k < n ==> k * CHUNK_SIZE <= (n - 1) * CHUNK_SIZE) by (nonlinear_arith)
            requires
                k <= n,
        ;
        from = to;
    }
    out
}

// ---- putting together -------------------------------------------------------

/// A chunk placed behind those of the same or a smaller index.
pub open spec fn placed(s: Seq<SongChunkView>, c: SongChunkView) -> Seq<SongChunkView>
    decreases s.len(),
{
    if s.len() == 0 || s.last().idx <= c.idx {
        s.push(c)
    } else {
        placed(s.drop_last(), c).push(s.last())
    }
}

/// The chunks in order of their index; those of the same index stay in the order
/// they had.
pub open spec fn arranged(cs: Seq<SongChunkView>) -> Seq<SongChunkView>
    decreases cs.len(),
{
    if cs.len() == 0 {
        cs
    } else {
        placed(arranged(cs.drop_last()), cs.last())
    }
}

/// The bytes of the chunks, one after the other.
pub open spec fn joined(cs: Seq<SongChunkView>) -> Seq<u8>
    decreases cs.len(),
{
    if cs.len() == 0 {
        Seq::empty()
    } else {
        joined(cs.drop_last()) + cs.last().data
    }
}

/// The audio of a song as its chunks hold it.
pub open spec fn audio_of(chunks: Seq<SongChunkView>, song: u64) -> Seq<u8> {
    joined(arranged(rows_of::<SongChunk>(chunks, song)))
}

/// No chunk is followed by one of a smaller index.
pub open spec fn by_idx(s: Seq<SongChunkView>) -> bool {
    forall|i: int, j: int| 0 <= i <= j < s.len() ==> (#[trigger] s[i]).idx <= (#[trigger] s[j]).idx
}

/// Where a chunk is placed.
proof fn lemma_placed(s: Seq<SongChunkView>, c: SongChunkView, k: int)
    requires
        0 <= k <= s.len(),
        k > 0 ==> s[k - 1].idx <= c.idx,
        forall|j: int| k <= j < s.len() ==> (#[trigger] s[j]).idx > c.idx,
    ensures
        placed(s, c) == s.insert(k, c),
    decreases s.len(),
{
    s.insert_ensures(k, c);
    if k == s.len() {
        assert(s.insert(k, c) =~= s.push(c));
    } else {
        let t = s.drop_last();
        lemma_placed(t, c, k);
        t.insert_ensures(k, c);
        assert(s.insert(k, c) =~= t.insert(k, c).push(s.last()));
    }
}

/// Finds where a chunk is placed.
proof fn lemma_place(s: Seq<SongChunkView>, c: SongChunkView) -> (k: int)
    requires
        by_idx(s),
    ensures
        0 <= k <= s.len(),
        placed(s, c) == s.insert(k, c),
        k > 0 ==> s[k - 1].idx <= c.idx,
        forall|j: int| k <= j < s.len() ==> (#[trigger] s[j]).idx > c.idx,
    decreases s.len(),
{
    if s.len() == 0 || s.last().idx <= c.idx {
        lemma_placed(s, c, s.len() as int);
        s.len() as int
    } else {
        let t = s.drop_last();
        let k = lemma_place(t, c);
        assert(k > 0 ==> s[k - 1] == t[k - 1]);
        assert forall|j: int| k <= j < s.len() implies (#[trigger] s[j]).idx > c.idx by {
            if j < t.len() {
                assert(s[j] == t[j]);
            }
        }
        lemma_placed(s, c, k);
        k
    }
}

/// Arranging keeps every chunk and puts none behind one of a larger index.
pub proof fn law_chunks_are_arranged(cs: Seq<SongChunkView>)
    ensures
        by_idx(arranged(cs)),
        arranged(cs).to_multiset() == cs.to_multiset(),
    decreases cs.len(),
{
    if cs.len() > 0 {
        let a = arranged(cs.drop_last());
        let c = cs.last();
        law_chunks_are_arranged(cs.drop_last());
        let k = lemma_place(a, c);
        a.insert_ensures(k, c);
        let now = a.insert(k, c);
        assert forall|i: int, j: int| 0 <= i <= j < now.len() implies (#[trigger] now[i]).idx <= (#[trigger] now[j]).idx by {
            let x = if i < k { i } else { i - 1 };
            let y = if j < k { j } else { j - 1 };
            if i < k && j == k {
                assert(a[x].idx <= a[k - 1].idx);
            } else if i != k && j != k {
                assert(a[x].idx <= a[y].idx);
            }
        }
        assert(cs =~= cs.drop_last().push(c));
        broadcast use vstd::seq_lib::group_to_multiset_ensures;
    } else {
        assert(arranged(cs) =~= cs);
    }
}

/// What a table's rows at the given places hold.
spec fn picked(all: Seq<SongChunkView>, order: Seq<usize>) -> Seq<SongChunkView> {
    order.map_values(|i: usize| all[i as int])
}

/// The places of a song's chunks, in order of their index.
fn arrange(chunks: &Vec<SongChunk>, song: u64) -> (r: Vec<usize>)
    ensures
        forall|i: int| 0 <= i < r@.len() ==> (#[trigger] r@[i]) < chunks@.len(),
        picked(row_views(chunks@), r@) == arranged(rows_of::<SongChunk>(row_views(chunks@), song)),
{
    let ghost all = row_views(chunks@);
    let mut order: Vec<usize> = Vec::new();
    let mut i: usize = 0;
    proof {
        reveal(Seq::filter);
        assert(picked(all, order@) =~= arranged(rows_of::<SongChunk>(all.take(0), song)));
    }
    while i < chunks.len()
        invariant
            i <= chunks@.len(),
            all == row_views(chunks@),
            forall|j: int| 0 <= j < order@.len() ==> (#[trigger] order@[j]) < i,
            picked(all, order@) == arranged(rows_of::<SongChunk>(all.take(i as int), song)),
        decreases chunks@.len() - i,
    {
        let ghost before = rows_of::<SongChunk>(all.take(i as int), song);
        let ghost c = all[i as int];
        proof {
            assert(all.take(i + 1) =~= all.take(i as int).push(c));
            lemma_rows_of_push::<SongChunk>(all.take(i as int), c, song);
        }
        if chunks[i].song_id == song {
            let idx: u32 = chunks[i].idx;
            let ghost s = picked(all, order@);
            let ghost was = order@;
            let mut k: usize = order.len();
            while k > 0 && chunks[order[k - 1]].idx > idx
                invariant
                    k <= order@.len(),
                    order@ == was,
                    i < chunks@.len(),
                    all == row_views(chunks@),
                    s == picked(all, was),
                    forall|j: int| 0 <= j < was.len() ==> (#[trigger] was[j]) < i,
                    forall|j: int| k <= j < s.len() ==> (#[trigger] s[j]).idx > idx,
                decreases k,
            {
                assert(s[k - 1] == all[was[k - 1] as int]);
                k = k - 1;
            }
            proof {
                assert(k > 0 ==> s[k - 1] == all[was[k - 1] as int]);
                lemma_placed(s, c, k as int);
                s.insert_ensures(k as int, c);
                was.insert_ensures(k as int, i);
                assert(before.push(c).drop_last() =~= before);
            }
            order.insert(k, i);
            assert(picked(all, order@) =~= s.insert(k as int, c));
        }
        i = i + 1;
    }
    assert(all.take(all.len() as int) =~= all);
    order
}

/// How many chunks of a song there are.
pub fn count_chunks(chunks: &Vec<SongChunk>, song: u64) -> (r: usize)
    ensures
        r == rows_of::<SongChunk>(row_views(chunks@), song).len(),
{
    let ghost all = row_views(chunks@);
    let mut n: usize = 0;
    let mut i: usize = 0;
    proof {
        reveal(Seq::filter);
    }
    assert(rows_of::<SongChunk>(all.take(0), song).len() == 0);
    while i < chunks.len()
        invariant
            n <= i <= chunks@.len(),
            all == row_views(chunks@),
            n == rows_of::<SongChunk>(all.take(i as int), song).len(),
        decreases chunks@.len() - i,
    {
        proof {
            assert(all.take(i + 1) =~= all.take(i as int).push(all[i as int]));
            lemma_rows_of_push::<SongChunk>(all.take(i as int), all[i as int], song);
        }
        if chunks[i].song_id == song {
            n = n + 1;
        }
        i = i + 1;
    }
    assert(all.take(all.len() as int) =~= all);
    n
}

/// Puts the chunks of a song together, in order of their index.
pub fn assemble(chunks: &Vec<SongChunk>, song: u64) -> (r: Vec<u8>)
    ensures
        r@ == audio_of(row_views(chunks@), song),
{
    let order: Vec<usize> = arrange(chunks, song);
    let ghost all = row_views(chunks@);
    let ghost s = picked(all, order@);
    let mut out: Vec<u8> = Vec::new();
    let mut k: usize = 0;
    assert(joined(s.take(0)) =~= Seq::<u8>::empty());
    while k < order.len()
        invariant
            k <= order@.len(),
            all == row_views(chunks@),
            s == picked(all, order@),
            forall|i: int| 0 <= i < order@.len() ==> (#[trigger] order@[i]) < chunks@.len(),
            out@ == joined(s.take(k as int)),
        decreases order@.len() - k,
    {
        let data: &Vec<u8> = &chunks[order[k]].data;
        let ghost base = out@;
        let mut j: usize = 0;
        while j < data.len()
            invariant
                j <= data@.len(),
                out@ == base + data@.take(j as int),
            decreases data@.len() - j,
        {
            out.push(data[j]);
            j = j + 1;
            assert(out@ =~= base + data@.take(j as int));
        }
        assert(data@.take(data@.len() as int) =~= data@);
        assert(s.take(k + 1).drop_last() =~= s.take(k as int));
        assert(s.take(k + 1).last().data == data@);
        k = k + 1;
    }
    assert(s.take(s.len() as int) =~= s);
    out
}

// ---- laws -------------------------------------------------------------------

/// The chunks have distinct indices.
pub open spec fn distinct_idx(cs: Seq<SongChunkView>) -> bool {
    forall|i: int, j: int| 0 <= i < j < cs.len() ==> (#[trigger] cs[i]).idx != (#[trigger] cs[j]).idx
}

/// Every chunk is the piece of the bytes that its index says.
pub open spec fn cut_from(cs: Seq<SongChunkView>, bytes: Seq<u8>) -> bool {
    forall|i: int| 0 <= i < cs.len() ==> (#[trigger] cs[i]).data == piece(bytes, cs[i].idx as int)
}

spec fn has_idx(cs: Seq<SongChunkView>, idx: u32) -> bool {
    exists|i: int| 0 <= i < cs.len() && (#[trigger] cs[i]).idx == idx
}

proof fn lemma_total_insert(s: Seq<SongChunkView>, k: int, c: SongChunkView)
    requires
        0 <= k <= s.len(),
    ensures
        total_bytes(s.insert(k, c)) == total_bytes(s) + c.data.len(),
    decreases s.len(),
{
    s.insert_ensures(k, c);
    if k == s.len() {
        assert(s.insert(k, c) =~= s.push(c));
        assert(s.push(c).drop_last() =~= s);
    } else {
        let t = s.drop_last();
        lemma_total_insert(t, k, c);
        t.insert_ensures(k, c);
        assert(s.insert(k, c).drop_last() =~= t.insert(k, c));
    }
}

proof fn lemma_idx_insert(s: Seq<SongChunkView>, k: int, c: SongChunkView, x: u32)
    requires
        0 <= k <= s.len(),
    ensures
        has_idx(s.insert(k, c), x) <==> has_idx(s, x) || c.idx == x,
{
    let t = s.insert(k, c);
    s.insert_ensures(k, c);
    if has_idx(t, x) {
        let i = choose|i: int| 0 <= i < t.len() && (#[trigger] t[i]).idx == x;
        if i != k {
            let m = if i < k { i } else { i - 1 };
            assert(s[m] == t[i]);
        }
    }
    if has_idx(s, x) {
        let m = choose|m: int| 0 <= m < s.len() && (#[trigger] s[m]).idx == x;
        let i = if m < k { m } else { m + 1 };
        assert(t[i] == s[m]);
    }
    assert(t[k] == c);
}

proof fn lemma_idx_push(s: Seq<SongChunkView>, c: SongChunkView, x: u32)
    ensures
        has_idx(s.push(c), x) <==> has_idx(s, x) || c.idx == x,
{
    s.insert_ensures(s.len() as int, c);
    assert(s.push(c) =~= s.insert(s.len() as int, c));
    lemma_idx_insert(s, s.len() as int, c, x);
}

/// Arranging keeps the chunks.
proof fn lemma_arranged(cs: Seq<SongChunkView>, bytes: Seq<u8>, n: int)
    requires
        distinct_idx(cs),
        cut_from(cs, bytes),
        forall|i: int| 0 <= i < cs.len() ==> (#[trigger] cs[i]).idx < n,
    ensures
        arranged(cs).len() == cs.len(),
        by_idx(arranged(cs)),
        distinct_idx(arranged(cs)),
        cut_from(arranged(cs), bytes),
        forall|i: int| 0 <= i < cs.len() ==> (#[trigger] arranged(cs)[i]).idx < n,
        forall|x: u32| #[trigger] has_idx(arranged(cs), x) <==> has_idx(cs, x),
        total_bytes(arranged(cs)) == total_bytes(cs),
    decreases cs.len(),
{
    if cs.len() > 0 {
        let rest = cs.drop_last();
        let c = cs.last();
        assert(c == cs[cs.len() - 1]);
        assert forall|i: int| 0 <= i < rest.len() implies (#[trigger] rest[i]).idx < n && rest[i].data == piece(bytes, rest[i].idx as int) by {
            assert(cs[i] == rest[i]);
        }
        assert forall|i: int, j: int| 0 <= i < j < rest.len() implies (#[trigger] rest[i]).idx != (#[trigger] rest[j]).idx by {
            assert(cs[i].idx != cs[j].idx);
        }
        lemma_arranged(rest, bytes, n);
        let s = arranged(rest);
        let k = lemma_place(s, c);
        let t = s.insert(k, c);
        s.insert_ensures(k, c);
        assert(arranged(cs) == t);
        lemma_total_insert(s, k, c);
        assert forall|i: int| 0 <= i < t.len() implies #[trigger] t[i] == (if i < k {
            s[i]
        } else if i == k {
            c
        } else {
            s[i - 1]
        }) by {}
        assert forall|i: int, j: int| 0 <= i <= j < t.len() implies (#[trigger] t[i]).idx <= (#[trigger] t[j]).idx by {
            if i < k && k > 0 {
                assert(s[i].idx <= s[k - 1].idx);
            }
        }
        assert(!has_idx(rest, c.idx)) by {
            if has_idx(rest, c.idx) {
                let i = choose|i: int| 0 <= i < rest.len() && (#[trigger] rest[i]).idx == c.idx;
                assert(cs[i].idx != cs[cs.len() - 1].idx);
            }
        }
        assert forall|i: int| 0 <= i < s.len() implies (#[trigger] s[i]).idx != c.idx by {
            assert(has_idx(s, s[i].idx));
        }
        assert forall|x: u32| #[trigger] has_idx(t, x) <==> has_idx(cs, x) by {
            lemma_idx_insert(s, k, c, x);
            lemma_idx_push(rest, c, x);
            assert(cs =~= rest.push(c));
            assert(has_idx(s, x) <==> has_idx(rest, x));
        }
    }
}

/// Ascending distinct indices below their number are all of them in order.
proof fn lemma_counts_up(s: Seq<SongChunkView>, k: int)
    requires
        by_idx(s),
        distinct_idx(s),
        forall|i: int| 0 <= i < s.len() ==> (#[trigger] s[i]).idx < s.len(),
        0 <= k < s.len(),
    ensures
        s[k].idx == k,
{
    lemma_at_least(s, k);
    lemma_at_most(s, k);
}

proof fn lemma_at_least(s: Seq<SongChunkView>, k: int)
    requires
        by_idx(s),
        distinct_idx(s),
        0 <= k < s.len(),
    ensures
        s[k].idx >= k,
    decreases k,
{
    if k > 0 {
        lemma_at_least(s, k - 1);
        assert(s[k - 1].idx <= s[k].idx && s[k - 1].idx != s[k].idx);
    }
}

proof fn lemma_at_most(s: Seq<SongChunkView>, k: int)
    requires
        by_idx(s),
        distinct_idx(s),
        forall|i: int| 0 <= i < s.len() ==> (#[trigger] s[i]).idx < s.len(),
        0 <= k < s.len(),
    ensures
        s[k].idx <= k,
    decreases s.len() - k,
{
    if k < s.len() - 1 {
        lemma_at_most(s, k + 1);
        assert(s[k].idx <= s[k + 1].idx && s[k].idx != s[k + 1].idx);
    }
}

/// The bytes of the first `k` chunks.
proof fn lemma_joined_prefix(s: Seq<SongChunkView>, bytes: Seq<u8>, k: int)
    requires
        s.len() == chunks_for(bytes.len() as int),
        forall|i: int| 0 <= i < s.len() ==> (#[trigger] s[i]).data == piece(bytes, i),
        0 <= k <= s.len(),
    ensures
        joined(s.take(k)) == bytes.take(
            if k * CHUNK_SIZE <= bytes.len() {
                k * CHUNK_SIZE
            } else {
                bytes.len() as int
            },
        ),
    decreases k,
{
    if k == 0 {
        assert(joined(s.take(0)) =~= bytes.take(0));
    } else {
        lemma_joined_prefix(s, bytes, k - 1);
        assert(s.take(k).drop_last() =~= s.take(k - 1));
        assert(s.take(k).last() == s[k - 1]);
        assert((k - 1) * CHUNK_SIZE <= bytes.len()) by {
            assert(k <= chunks_for(bytes.len() as int));
        }
        let from = (k - 1) * CHUNK_SIZE;
        let to = if k * CHUNK_SIZE <= bytes.len() {
            k * CHUNK_SIZE
        } else {
            bytes.len() as int
        };
        assert(bytes.take(from) + bytes.subrange(from, to) =~= bytes.take(to));
    }
}

proof fn lemma_joined_len(s: Seq<SongChunkView>)
    ensures
        joined(s).len() == total_bytes(s),
    decreases s.len(),
{
    if s.len() > 0 {
        lemma_joined_len(s.drop_last());
    }
}

/// A song split into chunks is put together as it was, in whatever order its
/// chunks arrive.
pub proof fn law_chunks_reassemble(bytes: Seq<u8>, cs: Seq<SongChunkView>)
    requires
        cs.len() == chunks_for(bytes.len() as int),
        distinct_idx(cs),
        forall|i: int| 0 <= i < cs.len() ==> (#[trigger] cs[i]).idx < cs.len(),
        cut_from(cs, bytes),
    ensures
        joined(arranged(cs)) == bytes,
        total_bytes(cs) == bytes.len(),
{
    lemma_arranged(cs, bytes, cs.len() as int);
    let s = arranged(cs);
    assert forall|i: int| 0 <= i < s.len() implies (#[trigger] s[i]).data == piece(bytes, i) by {
        lemma_counts_up(s, i);
    }
    lemma_joined_prefix(s, bytes, s.len() as int);
    assert(s.take(s.len() as int) =~= s);
    assert(s.len() * CHUNK_SIZE >= bytes.len());
    assert(bytes.take(bytes.len() as int) =~= bytes);
    lemma_joined_len(s);
}

/// An upload that sent every chunk of a file leaves a complete song whose chunks
/// hold the file.
pub proof fn law_upload_arrives(s: StoreView, j: int, bytes: Seq<u8>)
    requires
        s.wf(),
        0 <= j < s.songs.len(),
        s.songs[j].byte_len == bytes.len(),
        s.songs[j].chunks_received >= s.songs[j].num_chunks,
        cut_from(rows_of::<SongChunk>(s.chunks, s.songs[j].id), bytes),
    ensures
        s.songs[j].complete,
        audio_of(s.chunks, s.songs[j].id) == bytes,
{
    let song = s.songs[j];
    let cs = rows_of::<SongChunk>(s.chunks, song.id);
    assert(song_chunks_ok(song, cs));
    let ids = Seq::new(cs.len(), |i: int| cs[i].idx as int);
    assert forall|a: int, b: int| 0 <= a < b < ids.len() implies #[trigger] ids[a] != #[trigger] ids[b] by {
        assert(cs[a].idx != cs[b].idx);
    }
    lemma_distinct_below(ids, song.num_chunks as int);
    law_chunks_reassemble(bytes, cs);
}

} // verus!
