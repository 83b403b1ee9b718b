//! The draw compositor: merges the depth-sorted draw stream of the instance
//! store with that of the tile store into one stream, preserving
//! non-increasing depth globally. Equal depths always resolve in favor of
//! the instance stream; within one stream the incoming order is kept. This
//! is a two-way merge of two pre-sorted sequences, linear in the combined
//! length.

use vstd::prelude::*;

use crate::store::{entries_sorted, DrawCursor, Handle};

verus! {

/// One emitted draw call: which store the record lives in, its handle, and
/// the depth it was drawn at.
#[derive(Clone, Copy, Debug, PartialEq, Eq, Structural)]
pub enum DrawCmd {
    Instance(Handle, i32),
    Tile(Handle, i32),
}

/// The depth a command is drawn at.
pub open spec fn cmd_depth(c: DrawCmd) -> i32 {
    match c {
        DrawCmd::Instance(_, d) => d,
        DrawCmd::Tile(_, d) => d,
    }
}

/// Depths of a command sequence never increase.
pub open spec fn cmds_sorted(s: Seq<DrawCmd>) -> bool {
    forall|p: int, q: int|
        0 <= p < q < s.len() ==> cmd_depth(#[trigger] s[p]) >= cmd_depth(#[trigger] s[q])
}

/// The merge of an instance stream and a tile stream: while both have
/// entries, the instance is emitted when its depth is at least the tile's
/// (so ties go to the instance), otherwise the tile; a lone remaining
/// stream is drained in its own order.
pub open spec fn spec_merge(a: Seq<(Handle, i32)>, b: Seq<(Handle, i32)>) -> Seq<DrawCmd>
    decreases a.len() + b.len(),
{
    if a.len() == 0 && b.len() == 0 {
        Seq::empty()
    } else if b.len() == 0 || (a.len() > 0 && a[0].1 >= b[0].1) {
        seq![DrawCmd::Instance(a[0].0, a[0].1)].add(spec_merge(a.drop_first(), b))
    } else {
        seq![DrawCmd::Tile(b[0].0, b[0].1)].add(spec_merge(a, b.drop_first()))
    }
}

/// Merges the two draw cursors of one frame into the emitted draw stream.
pub struct RenderCompositor {}

impl RenderCompositor {
    /// Consume both cursors and produce the merged draw stream.
    #[verifier::loop_isolation(false)]
    pub fn merge(instances: &mut DrawCursor, tiles: &mut DrawCursor) -> (r: Vec<DrawCmd>)
        ensures
            r@ == spec_merge(old(instances).remaining(), old(tiles).remaining()),
            final(instances).remaining().len() == 0,
            final(tiles).remaining().len() == 0,
    {
        let mut out: Vec<DrawCmd> = Vec::new();
        proof {
            assert(out@ + spec_merge(instances.remaining(), tiles.remaining()) =~= spec_merge(
                old(instances).remaining(),
                old(tiles).remaining(),
            ));
        }
        loop
            invariant
                out@ + spec_merge(instances.remaining(), tiles.remaining()) == spec_merge(
                    old(instances).remaining(),
                    old(tiles).remaining(),
                ),
            decreases instances.remaining().len() + tiles.remaining().len(),
        {
            let ghost ra = instances.remaining();
            let ghost rb = tiles.remaining();
            match (instances.peek(), tiles.peek()) {
                (Some(x), Some(y)) => {
                    if x.1 >= y.1 {
                        let _ = instances.next();
                        out.push(DrawCmd::Instance(x.0, x.1));
                    } else {
                        let _ = tiles.next();
                        out.push(DrawCmd::Tile(y.0, y.1));
                    }
                },
                (Some(x), None) => {
                    let _ = instances.next();
                    out.push(DrawCmd::Instance(x.0, x.1));
                },
                (None, Some(y)) => {
                    let _ = tiles.next();
                    out.push(DrawCmd::Tile(y.0, y.1));
                },
                (None, None) => {
                    break ;
                },
            }
            proof {
                assert(out@ + spec_merge(instances.remaining(), tiles.remaining()) =~= out@.drop_last()
                    + (seq![out@.last()].add(
                    spec_merge(instances.remaining(), tiles.remaining()),
                )));
                assert(seq![out@.last()].add(spec_merge(instances.remaining(), tiles.remaining()))
                    == spec_merge(ra, rb));
                assert(out@.drop_last() + spec_merge(ra, rb) == spec_merge(
                    old(instances).remaining(),
                    old(tiles).remaining(),
                ));
            }
        }
        proof {
            assert(spec_merge(instances.remaining(), tiles.remaining()) =~= Seq::<
                DrawCmd,
            >::empty());
            assert(out@ =~= spec_merge(old(instances).remaining(), old(tiles).remaining()));
        }
        out
    }
}

/// Law: the merged stream is exactly as long as its two inputs together.
pub proof fn lemma_merge_len(a: Seq<(Handle, i32)>, b: Seq<(Handle, i32)>)
    ensures
        spec_merge(a, b).len() == a.len() + b.len(),
    decreases a.len() + b.len(),
{
    if a.len() == 0 && b.len() == 0 {
    } else if b.len() == 0 || (a.len() > 0 && a[0].1 >= b[0].1) {
        lemma_merge_len(a.drop_first(), b);
    } else {
        lemma_merge_len(a, b.drop_first());
    }
}

/// Law: when one stream is empty, the merge is the other stream unchanged
/// (wrapped as its kind of draw command).
pub proof fn lemma_merge_one_empty(a: Seq<(Handle, i32)>, b: Seq<(Handle, i32)>)
    ensures
        spec_merge(a, Seq::empty()) == a.map_values(
            |e: (Handle, i32)| DrawCmd::Instance(e.0, e.1),
        ),
        spec_merge(Seq::empty(), b) == b.map_values(|e: (Handle, i32)| DrawCmd::Tile(e.0, e.1)),
    decreases a.len() + b.len(),
{
    let e0 = Seq::<(Handle, i32)>::empty();
    if a.len() == 0 {
        assert(spec_merge(a, e0) =~= a.map_values(|e: (Handle, i32)| DrawCmd::Instance(e.0, e.1)));
    } else {
        lemma_merge_one_empty(a.drop_first(), b);
        assert(spec_merge(a, e0) =~= a.map_values(|e: (Handle, i32)| DrawCmd::Instance(e.0, e.1)));
    }
    if b.len() == 0 {
        assert(spec_merge(e0, b) =~= b.map_values(|e: (Handle, i32)| DrawCmd::Tile(e.0, e.1)));
    } else {
        lemma_merge_one_empty(a, b.drop_first());
        assert(spec_merge(e0, b) =~= b.map_values(|e: (Handle, i32)| DrawCmd::Tile(e.0, e.1)));
    }
}

/// Every depth in the merge of `a` and `b` is bounded by any bound on the
/// heads of `a` and `b`.
proof fn lemma_merge_bound(a: Seq<(Handle, i32)>, b: Seq<(Handle, i32)>, d: i32)
    requires
        entries_sorted(a),
        entries_sorted(b),
        a.len() > 0 ==> a[0].1 <= d,
        b.len() > 0 ==> b[0].1 <= d,
    ensures
        forall|k: int| 0 <= k < spec_merge(a, b).len() ==> cmd_depth(#[trigger] spec_merge(a, b)[k]) <= d,
    decreases a.len() + b.len(),
{
    let m = spec_merge(a, b);
    if a.len() == 0 && b.len() == 0 {
    } else if b.len() == 0 || (a.len() > 0 && a[0].1 >= b[0].1) {
        let at = a.drop_first();
        assert(entries_sorted(at) && (at.len() > 0 ==> at[0] == a[1] && at[0].1 <= d));
        lemma_merge_bound(at, b, d);
        assert forall|k: int| 0 <= k < m.len() implies cmd_depth(#[trigger] m[k]) <= d by {
            if k > 0 {
                assert(m[k] == spec_merge(at, b)[k - 1]);
            }
        };
    } else {
        let bt = b.drop_first();
        assert(entries_sorted(bt) && (bt.len() > 0 ==> bt[0] == b[1] && bt[0].1 <= d));
        lemma_merge_bound(a, bt, d);
        assert forall|k: int| 0 <= k < m.len() implies cmd_depth(#[trigger] m[k]) <= d by {
            if k > 0 {
                assert(m[k] == spec_merge(a, bt)[k - 1]);
            }
        };
    }
}

/// Law: merging two streams whose depths never increase yields a stream
/// whose depths never increase.
pub proof fn lemma_merge_sorted(a: Seq<(Handle, i32)>, b: Seq<(Handle, i32)>)
    requires
        entries_sorted(a),
        entries_sorted(b),
    ensures
        cmds_sorted(spec_merge(a, b)),
    decreases a.len() + b.len(),
{
    let m = spec_merge(a, b);
    if a.len() == 0 && b.len() == 0 {
    } else if b.len() == 0 || (a.len() > 0 && a[0].1 >= b[0].1) {
        let at = a.drop_first();
        assert(entries_sorted(at) && (at.len() > 0 ==> at[0] == a[1] && at[0].1 <= a[0].1));
        lemma_merge_sorted(at, b);
        lemma_merge_bound(at, b, a[0].1);
        assert forall|p: int, q: int| 0 <= p < q < m.len() implies cmd_depth(#[trigger] m[p])
            >= cmd_depth(#[trigger] m[q]) by {
            assert(m[q] == spec_merge(at, b)[q - 1]);
            if p > 0 {
                assert(m[p] == spec_merge(at, b)[p - 1]);
            }
        };
    } else {
        let bt = b.drop_first();
        assert(entries_sorted(bt) && (bt.len() > 0 ==> bt[0] == b[1] && bt[0].1 <= b[0].1));
        lemma_merge_sorted(a, bt);
        lemma_merge_bound(a, bt, b[0].1);
        assert forall|p: int, q: int| 0 <= p < q < m.len() implies cmd_depth(#[trigger] m[p])
            >= cmd_depth(#[trigger] m[q]) by {
            assert(m[q] == spec_merge(a, bt)[q - 1]);
            if p > 0 {
                assert(m[p] == spec_merge(a, bt)[p - 1]);
            }
        };
    }
}

} // verus!
