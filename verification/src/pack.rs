//! Trusted boundary around `rect_packer::DensePacker`, the skyline packer
//! that places rectangles inside one atlas page.
//!
//! A packer value is modelled by the history of operations that built it:
//! `packer_ops` maps a packer to a sequence of `(code, w, h)` entries, where
//! code `OP_NEW` records construction, `OP_RESIZE` records a resize and
//! `OP_PACK` records a successful placement. A failed `pack` call leaves the
//! packer unchanged and is not recorded. `pack_result` names the position
//! that `pack` returns for a given history and request; the packer is
//! deterministic, so that position is a function of the history alone.

use vstd::prelude::*;

verus! {

/// A rectangle in page-local pixel coordinates.
#[derive(Clone, Copy, Debug, PartialEq, Eq, Structural)]
pub struct RectPx {
    pub x: i32,
    pub y: i32,
    pub w: i32,
    pub h: i32,
}

/// The mathematical value of a rectangle: (x, y, w, h).
pub open spec fn rect_of(r: RectPx) -> (int, int, int, int) {
    (r.x as int, r.y as int, r.w as int, r.h as int)
}

/// Two rectangles share no pixel.
pub open spec fn rects_disjoint(a: (int, int, int, int), b: (int, int, int, int)) -> bool {
    a.0 + a.2 <= b.0 || b.0 + b.2 <= a.0 || a.1 + a.3 <= b.1 || b.1 + b.3 <= a.1
}

/// A rectangle lies within a page of the given size.
pub open spec fn rect_in_bounds(r: (int, int, int, int), w: int, h: int) -> bool {
    0 <= r.0 && 0 <= r.1 && 1 <= r.2 && 1 <= r.3 && r.0 + r.2 <= w && r.1 + r.3 <= h
}

#[verifier::external_type_specification]
#[verifier::external_body]
pub struct ExDensePacker(rect_packer::DensePacker);

pub uninterp spec fn packer_ops(p: rect_packer::DensePacker) -> Seq<(int, int, int)>;

pub uninterp spec fn pack_result(ops: Seq<(int, int, int)>, w: int, h: int) -> Option<(int, int)>;

/// The packer's current size: the size given by the last `new` or `resize`
/// entry of its history.
pub open spec fn ops_dims(ops: Seq<(int, int, int)>) -> (int, int)
    decreases ops.len(),
{
    if ops.len() == 0 {
        (0, 0)
    } else {
        let last = ops[ops.len() - 1];
        if last.0 == 0 || last.0 == 1 {
            (last.1, last.2)
        } else {
            ops_dims(ops.drop_last())
        }
    }
}

/// The rectangles placed so far, in placement order, reconstructed from the
/// history: one rectangle per code-2 entry, at the position `pack_result`
/// gives for the history before that entry.
pub open spec fn ops_placed(ops: Seq<(int, int, int)>) -> Seq<(int, int, int, int)>
    decreases ops.len(),
{
    if ops.len() == 0 {
        Seq::empty()
    } else {
        let pre = ops.drop_last();
        let last = ops[ops.len() - 1];
        if last.0 == 2 {
            match pack_result(pre, last.1, last.2) {
                Some(pos) => ops_placed(pre).push((pos.0, pos.1, last.1, last.2)),
                None => ops_placed(pre),
            }
        } else {
            ops_placed(pre)
        }
    }
}

/// Relies on `rect_packer::DensePacker::new`: a fresh packer has the given
/// size and no placed rectangles.
#[verifier::external_body]
pub fn packer_new(width: i32, height: i32) -> (r: rect_packer::DensePacker)
    requires
        1 <= width,
        1 <= height,
    ensures
        packer_ops(r) == seq![(0int, width as int, height as int)],
{
    rect_packer::DensePacker::new(width, height)
}

/// Relies on `rect_packer::DensePacker::size`: it returns the size the packer
/// was created with or last resized to.
#[verifier::external_body]
pub fn packer_size(p: &rect_packer::DensePacker) -> (r: (i32, i32))
    ensures
        r.0 as int == ops_dims(packer_ops(*p)).0,
        r.1 as int == ops_dims(packer_ops(*p)).1,
{
    p.size()
}

/// Relies on `rect_packer::DensePacker::resize`: it accepts any size at least
/// the current one (it asserts on a smaller one) and keeps every placed
/// rectangle where it is.
#[verifier::external_body]
pub fn packer_resize(p: &mut rect_packer::DensePacker, width: i32, height: i32)
    requires
        width as int >= ops_dims(packer_ops(*old(p))).0,
        height as int >= ops_dims(packer_ops(*old(p))).1,
    ensures
        packer_ops(*final(p)) == packer_ops(*old(p)).push((1int, width as int, height as int)),
{
    p.resize(width, height)
}

/// Relies on `rect_packer::DensePacker::pack` (without rotation): on success
/// it returns a rectangle of exactly the requested size, inside the packer's
/// current bounds, overlapping no previously placed rectangle; on failure it
/// leaves the packer unchanged. A packer with no placed rectangles (its
/// skylines are all at the floor) always finds room for a request no larger
/// than its current size, and one whose history is a single entry — a
/// freshly constructed packer, with one floor skyline starting at the left
/// edge — places such a request at the origin. The position returned
/// depends only on the packer's history and the request, which
/// `pack_result` names.
///
/// The packer's candidate walk adds a skyline's position to the requested
/// size in `i32` (a skyline's position can reach the packer's width after a
/// height-only resize), so each requested dimension plus the matching
/// packer dimension must stay within `i32`; larger requests could make that
/// arithmetic overflow and the walk panic.
#[verifier::external_body]
pub fn packer_pack(p: &mut rect_packer::DensePacker, width: i32, height: i32) -> (r: Option<
    RectPx,
>)
    requires
        1 <= width,
        1 <= height,
        ops_dims(packer_ops(*old(p))).0 + width <= i32::MAX,
        ops_dims(packer_ops(*old(p))).1 + height <= i32::MAX,
    ensures
        (match pack_result(packer_ops(*old(p)), width as int, height as int) {
            Some(pos) => r matches Some(rect) && rect.x as int == pos.0 && rect.y as int == pos.1
                && rect.w == width && rect.h == height && packer_ops(*final(p)) == packer_ops(
                *old(p),
            ).push((2int, width as int, height as int)),
            None => r is None && packer_ops(*final(p)) == packer_ops(*old(p)),
        }),
        (r matches Some(rect) ==> rect_in_bounds(
            rect_of(rect),
            ops_dims(packer_ops(*old(p))).0,
            ops_dims(packer_ops(*old(p))).1,
        )),
        (r matches Some(rect) ==> forall|i: int|
            0 <= i < ops_placed(packer_ops(*old(p))).len() ==> rects_disjoint(
                rect_of(rect),
                ops_placed(packer_ops(*old(p)))[i],
            )),
        (ops_placed(packer_ops(*old(p))).len() == 0 && width as int <= ops_dims(
            packer_ops(*old(p)),
        ).0 && height as int <= ops_dims(packer_ops(*old(p))).1 ==> r is Some),
        (packer_ops(*old(p)).len() == 1 && width as int <= ops_dims(packer_ops(*old(p))).0
            && height as int <= ops_dims(packer_ops(*old(p))).1 ==> (r matches Some(rect)
            && rect.x == 0 && rect.y == 0)),
{
    match p.pack(width, height, false) {
        Some(rect) => Some(RectPx { x: rect.x, y: rect.y, w: rect.width, h: rect.height }),
        None => None,
    }
}

} // verus!
