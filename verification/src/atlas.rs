//! Texture atlas construction: an ordered set of growable pages, each backed
//! by a skyline packer, and the placements handed out against them.
//!
//! A request is placed on the first existing page that can take it, growing
//! that page (doubling the smaller dimension first, never past the maximum)
//! before giving up on it; when every page is exhausted a fresh page is
//! appended and the request is placed there. Page dimensions are always
//! powers of two, never exceed the configured maximum, and only ever grow.

use vstd::prelude::*;

use crate::is_pow2;
use crate::pack::{
    ops_dims, ops_placed, pack_result, packer_new, packer_ops, packer_pack, packer_resize,
    rect_in_bounds, rect_of, rects_disjoint, RectPx,
};

verus! {

broadcast use vstd::seq::group_seq_axioms;

/// A placement: which page a sub-image lives on, its rectangle there, and
/// the pixel origin (the pivot used by transform math) within that
/// rectangle. The normalized origin consumed by a renderer is the fraction
/// `origin_x / w` by `origin_y / h`; it lies in [0, 1] exactly when the
/// pixel origin lies within the rectangle.
#[derive(Clone, Copy, Debug, PartialEq, Eq, Structural)]
pub struct AtlasRef {
    pub atlas_id: usize,
    pub x: i32,
    pub y: i32,
    pub w: i32,
    pub h: i32,
    pub origin_x: i32,
    pub origin_y: i32,
}

/// The rectangle of a placement as a mathematical value.
pub open spec fn ref_rect(ar: AtlasRef) -> (int, int, int, int) {
    (ar.x as int, ar.y as int, ar.w as int, ar.h as int)
}

/// One atlas page: a packer plus its current size and the rectangles placed
/// on it so far, in placement order.
pub struct AtlasPage {
    pub packer: rect_packer::DensePacker,
    pub width: i32,
    pub height: i32,
    pub placed: Vec<RectPx>,
}

/// The placed rectangles of a page as mathematical values.
pub open spec fn page_rects(p: AtlasPage) -> Seq<(int, int, int, int)> {
    p.placed@.map_values(|r: RectPx| rect_of(r))
}

/// Well-formedness of one page under a maximum size: the cached size agrees
/// with the packer, both dimensions are powers of two within bounds, the
/// cached placement list agrees with the packer's history, and the placed
/// rectangles lie within the page and are pairwise disjoint.
pub open spec fn page_wf(p: AtlasPage, max_size: int) -> bool {
    &&& ops_dims(packer_ops(p.packer)) == (p.width as int, p.height as int)
    &&& 1 <= p.width as int <= max_size
    &&& 1 <= p.height as int <= max_size
    &&& is_pow2(p.width as int)
    &&& is_pow2(p.height as int)
    &&& page_rects(p) == ops_placed(packer_ops(p.packer))
    &&& forall|i: int|
        0 <= i < p.placed@.len() ==> rect_in_bounds(
            #[trigger] rect_of(p.placed@[i]),
            p.width as int,
            p.height as int,
        )
    &&& forall|i: int, j: int|
        0 <= i < j < p.placed@.len() ==> rects_disjoint(
            #[trigger] rect_of(p.placed@[i]),
            #[trigger] rect_of(p.placed@[j]),
        )
}

/// Builds a set of atlas pages from placement requests, accumulating each
/// request's pixel payload beside the placement handed back for it.
pub struct AtlasBuilder {
    pub max_size: i32,
    pub pages: Vec<AtlasPage>,
    pub textures: Vec<(AtlasRef, Vec<u8>)>,
}

/// The packing history of each page, in page order: the model on which the
/// builder's behaviour is a mathematical function.
pub open spec fn pages_ops(b: AtlasBuilder) -> Seq<Seq<(int, int, int)>> {
    b.pages@.map_values(|p: AtlasPage| packer_ops(p.packer))
}

/// The side length a fresh page starts at: 4096, capped by the maximum.
pub open spec fn init_page_size(max: int) -> int {
    if max < 4096 {
        max
    } else {
        4096
    }
}

/// One growth step of a page of the given size: double the smaller
/// dimension, unless that would pass the maximum, then the other; nothing
/// once both would pass it.
pub open spec fn spec_grow(pw: int, ph: int, max: int) -> Option<(int, int)> {
    if pw <= ph && pw <= max / 2 {
        Some((2 * pw, ph))
    } else if ph <= max / 2 {
        Some((pw, 2 * ph))
    } else {
        None
    }
}

/// What trying one page does, as a function of the page's history: the
/// history left behind, and the position packed, if any. The page packs,
/// grows and packs again until the request fits or growth is exhausted.
pub open spec fn spec_page_attempt(
    ops: Seq<(int, int, int)>,
    w: int,
    h: int,
    max: int,
) -> (Seq<(int, int, int)>, Option<(int, int)>)
    decreases 2 * max - ops_dims(ops).0 - ops_dims(ops).1
        when 1 <= ops_dims(ops).0 <= max && 1 <= ops_dims(ops).1 <= max
{
    match pack_result(ops, w, h) {
        Some(pos) => (ops.push((2int, w, h)), Some(pos)),
        None => match spec_grow(ops_dims(ops).0, ops_dims(ops).1, max) {
            None => (ops, None),
            Some(d) => spec_page_attempt(ops.push((1int, d.0, d.1)), w, h, max),
        },
    }
}

/// What scanning the pages from index `i` does: each page is tried in turn
/// (its growth persisting even when it fails), and the first success ends
/// the scan.
pub open spec fn spec_scan(
    pages: Seq<Seq<(int, int, int)>>,
    i: int,
    w: int,
    h: int,
    max: int,
) -> (Seq<Seq<(int, int, int)>>, Option<(int, (int, int))>)
    decreases pages.len() - i,
{
    if i < 0 || i >= pages.len() {
        (pages, None)
    } else {
        let att = spec_page_attempt(pages[i], w, h, max);
        match att.1 {
            Some(pos) => (pages.update(i, att.0), Some((i, pos))),
            None => spec_scan(pages.update(i, att.0), i + 1, w, h, max),
        }
    }
}

/// What one placement request does to a builder with the given page
/// histories: scan the existing pages; if none takes the request, append a
/// fresh page (4096 a side, capped by the maximum) and try that. The
/// result names the page and position placed at; the placement a request
/// receives is a function of the histories and the request alone.
pub open spec fn spec_texture(
    pages: Seq<Seq<(int, int, int)>>,
    max: int,
    w: int,
    h: int,
) -> (Seq<Seq<(int, int, int)>>, Option<(int, (int, int))>) {
    let scan = spec_scan(pages, 0, w, h, max);
    if scan.1 is Some {
        scan
    } else {
        let size = init_page_size(max);
        let att = spec_page_attempt(seq![(0int, size, size)], w, h, max);
        (
            scan.0.push(att.0),
            match att.1 {
                Some(pos) => Some((pages.len() as int, pos)),
                None => None,
            },
        )
    }
}

impl AtlasBuilder {
    /// One recorded placement is well formed: it names an existing page, its
    /// rectangle is one of that page's placed rectangles, it lies within
    /// the page's bounds, and its payload holds four bytes per pixel of the
    /// rectangle.
    pub open spec fn tex_wf(self, j: int) -> bool {
        let ar = self.textures@[j].0;
        &&& ar.atlas_id < self.pages@.len()
        &&& page_rects(self.pages@[ar.atlas_id as int]).contains(ref_rect(ar))
        &&& rect_in_bounds(
            ref_rect(ar),
            self.pages@[ar.atlas_id as int].width as int,
            self.pages@[ar.atlas_id as int].height as int,
        )
        &&& self.textures@[j].1@.len() == 4 * ar.w * ar.h
    }

    /// Builder invariant: the maximum size is a power of two, every page is
    /// well formed, every recorded placement is well formed, and placements
    /// on one page never overlap.
    pub open spec fn wf(self) -> bool {
        &&& 1 <= self.max_size
        &&& self.max_size <= 0x2000_0000
        &&& is_pow2(self.max_size as int)
        &&& forall|i: int|
            0 <= i < self.pages@.len() ==> page_wf(#[trigger] self.pages@[i], self.max_size as int)
        &&& forall|j: int| 0 <= j < self.textures@.len() ==> self.tex_wf(j)
        &&& forall|j: int, k: int|
            0 <= j < k < self.textures@.len() && (#[trigger] self.textures@[j]).0.atlas_id == (
            #[trigger] self.textures@[k]).0.atlas_id ==> rects_disjoint(
                ref_rect(self.textures@[j].0),
                ref_rect(self.textures@[k].0),
            )
    }

    /// Create a builder for pages up to `max_size` pixels a side. The
    /// maximum must be a power of two, no larger than 2^29 so that the
    /// packer's pixel coordinate arithmetic stays within `i32`.
    pub fn new(max_size: i32) -> (r: Self)
        requires
            1 <= max_size,
            max_size <= 0x2000_0000,
            is_pow2(max_size as int),
        ensures
            r.wf(),
            r.max_size == max_size,
            r.pages@.len() == 0,
            r.textures@.len() == 0,
    {
        AtlasBuilder { max_size, pages: Vec::new(), textures: Vec::new() }
    }

    /// Place a `width` by `height` image with pixel origin `(origin_x,
    /// origin_y)` and payload `data`, which must hold four bytes (RGBA) per
    /// pixel. A request wider or taller than the maximum page size is
    /// refused with `None` and changes nothing; any other request is
    /// placed: within its page's bounds, overlapping no placement
    /// previously made on that page, with the requested size and origin
    /// recorded unchanged. A request that fits a freshly appended page
    /// without growing it lands at that page's origin. Pages never shrink.
    #[verifier::loop_isolation(false)]
    pub fn texture(
        &mut self,
        width: i32,
        height: i32,
        origin_x: i32,
        origin_y: i32,
        data: Vec<u8>,
    ) -> (r: Option<AtlasRef>)
        requires
            old(self).wf(),
            1 <= width,
            1 <= height,
            data@.len() == 4 * width * height,
        ensures
            final(self).wf(),
            final(self).max_size == old(self).max_size,
            r is Some <==> (width <= old(self).max_size && height <= old(self).max_size),
            r is None ==> *final(self) == *old(self),
            final(self).pages@.len() >= old(self).pages@.len(),
            forall|k: int|
                0 <= k < old(self).pages@.len() ==> ((#[trigger] old(self).pages@[k]).width
                    <= final(self).pages@[k].width && old(self).pages@[k].height
                    <= final(self).pages@[k].height),
            match r {
                Some(ar) => {
                    &&& ar.atlas_id < final(self).pages@.len()
                    &&& ar.w == width
                    &&& ar.h == height
                    &&& ar.origin_x == origin_x
                    &&& ar.origin_y == origin_y
                    &&& rect_in_bounds(
                        ref_rect(ar),
                        final(self).pages@[ar.atlas_id as int].width as int,
                        final(self).pages@[ar.atlas_id as int].height as int,
                    )
                    &&& forall|j: int|
                        0 <= j < old(self).textures@.len() && (#[trigger] old(self).textures@[j]).0.atlas_id == ar.atlas_id ==> rects_disjoint(
                            ref_rect(ar),
                            ref_rect(old(self).textures@[j].0),
                        )
                    &&& final(self).textures@ == old(self).textures@.push((ar, data))
                    &&& 0 <= origin_x <= width ==> 0 <= ar.origin_x <= ar.w
                    &&& 0 <= origin_y <= height ==> 0 <= ar.origin_y <= ar.h
                    &&& (ar.atlas_id == old(self).pages@.len() && width as int <= init_page_size(
                        old(self).max_size as int,
                    ) && height as int <= init_page_size(old(self).max_size as int) ==> ar.x == 0
                        && ar.y == 0)
                    &&& ({
                        let st = spec_texture(
                            pages_ops(*old(self)),
                            old(self).max_size as int,
                            width as int,
                            height as int,
                        );
                        pages_ops(*final(self)) == st.0 && st.1 == Some(
                            (ar.atlas_id as int, (ar.x as int, ar.y as int)),
                        )
                    })
                },
                None => true,
            },
    {
        if width > self.max_size || height > self.max_size {
            return None;
        }
        let ghost gw = width as int;
        let ghost gh = height as int;
        let ghost gm = self.max_size as int;
        let mut i: usize = 0;
        while i < self.pages.len()
            invariant
                self.wf(),
                self.max_size == old(self).max_size,
                self.textures@ == old(self).textures@,
                self.pages@.len() == old(self).pages@.len(),
                0 <= i <= self.pages@.len(),
                forall|k: int|
                    0 <= k < old(self).pages@.len() ==> ((#[trigger] old(self).pages@[k]).width
                        <= self.pages@[k].width && old(self).pages@[k].height
                        <= self.pages@[k].height),
                spec_scan(pages_ops(*old(self)), 0, gw, gh, gm) == spec_scan(
                    pages_ops(*self),
                    i as int,
                    gw,
                    gh,
                    gm,
                ),
            decreases self.pages@.len() - i,
        {
            let ghost prev = *self;
            let max_size = self.max_size;
            let r = page_attempt(&mut self.pages[i], width, height, max_size);
            proof {
                let cur = pages_ops(prev);
                assert(cur[i as int] == packer_ops(prev.pages@[i as int].packer));
                let att = spec_page_attempt(cur[i as int], gw, gh, gm);
                assert(pages_ops(*self) =~= cur.update(i as int, att.0));
            }
            if let Some(rect) = r {
                let ghost mid = *self;
                let ar = AtlasRef {
                    atlas_id: i,
                    x: rect.x,
                    y: rect.y,
                    w: rect.w,
                    h: rect.h,
                    origin_x,
                    origin_y,
                };
                self.textures.push((ar, data));
                proof {
                    lemma_place_and_record(prev, mid, *self, i as int, rect, ar, data);
                    let cur = pages_ops(prev);
                    let att = spec_page_attempt(cur[i as int], gw, gh, gm);
                    assert(spec_scan(cur, i as int, gw, gh, gm) == (
                        cur.update(i as int, att.0),
                        Some((i as int, (rect.x as int, rect.y as int))),
                    ));
                    assert(pages_ops(*self) =~= cur.update(i as int, att.0));
                }
                return Some(ar);
            }
            proof {
                lemma_pages_grown_wf(prev, *self, i as int);
                let cur = pages_ops(prev);
                let att = spec_page_attempt(cur[i as int], gw, gh, gm);
                assert(spec_scan(cur, i as int, gw, gh, gm) == spec_scan(
                    cur.update(i as int, att.0),
                    i as int + 1,
                    gw,
                    gh,
                    gm,
                ));
            }
            i += 1;
        }
        // No existing page could take the request, even after growth:
        // append a fresh page and place there.
        proof {
            reveal_with_fuel(is_pow2, 14);
        }
        let size: i32 = if self.max_size < 4096 {
            self.max_size
        } else {
            4096
        };
        proof {
            assert(spec_scan(pages_ops(*old(self)), 0, gw, gh, gm) == (pages_ops(*self), None::<
                (int, (int, int)),
            >));
        }
        let packer = packer_new(size, size);
        let page = AtlasPage { packer, width: size, height: size, placed: Vec::new() };
        proof {
            assert(packer_ops(page.packer).drop_last() =~= Seq::<(int, int, int)>::empty());
            assert(ops_placed(Seq::<(int, int, int)>::empty()) =~= Seq::<(
                int,
                int,
                int,
                int,
            )>::empty());
            assert(ops_placed(packer_ops(page.packer)) =~= Seq::<(int, int, int, int)>::empty());
            assert(page_rects(page) =~= Seq::<(int, int, int, int)>::empty());
        }
        let ghost before_push = *self;
        self.pages.push(page);
        proof {
            lemma_append_page_wf(before_push, *self);
        }
        let n = self.pages.len() - 1;
        let ghost prev = *self;
        let max_size = self.max_size;
        proof {
            assert(pages_ops(prev)[n as int] == seq![(0int, size as int, size as int)]);
        }
        let r = page_attempt(&mut self.pages[n], width, height, max_size);
        match r {
            Some(rect) => {
                let ghost mid = *self;
                let ar = AtlasRef {
                    atlas_id: n,
                    x: rect.x,
                    y: rect.y,
                    w: rect.w,
                    h: rect.h,
                    origin_x,
                    origin_y,
                };
                self.textures.push((ar, data));
                proof {
                    lemma_place_and_record(prev, mid, *self, n as int, rect, ar, data);
                    let fresh = seq![(0int, size as int, size as int)];
                    let att = spec_page_attempt(fresh, gw, gh, gm);
                    assert(packer_ops(self.pages@[n as int].packer) == att.0);
                    assert(att.1 == Some((rect.x as int, rect.y as int)));
                    let st = spec_texture(pages_ops(*old(self)), gm, gw, gh);
                    assert(pages_ops(prev) =~= spec_scan(pages_ops(*old(self)), 0, gw, gh, gm).0.push(fresh));
                    assert(pages_ops(*self) =~= spec_scan(pages_ops(*old(self)), 0, gw, gh, gm).0.push(att.0));
                    assert(pages_ops(*self) == st.0);
                    assert(st.1 == Some((n as int, (rect.x as int, rect.y as int))));
                }
                Some(ar)
            },
            None => {
                // A fresh page always takes a request within the maximum.
                proof {
                    assert(false);
                }
                None
            },
        }
    }

    /// Finish building: hand over the pages and the ordered placement and
    /// payload list, consuming the builder.
    pub fn into_inner(self) -> (r: (Vec<AtlasPage>, Vec<(AtlasRef, Vec<u8>)>))
        ensures
            r.0@ == self.pages@,
            r.1@ == self.textures@,
    {
        (self.pages, self.textures)
    }
}

/// Try to place a request on one page, growing the page as far as the
/// maximum allows. On success the returned rectangle has the requested
/// size, lies within the (possibly grown) page, overlaps none of the
/// rectangles already on the page, and is appended to the page's placement
/// list; on failure the page's placements are unchanged (though the page
/// may have grown) — and a page with no placements never fails. A request
/// that fits a freshly created page without growth lands at the origin.
#[verifier::loop_isolation(false)]
fn page_attempt(page: &mut AtlasPage, width: i32, height: i32, max_size: i32) -> (r: Option<
    RectPx,
>)
    requires
        page_wf(*old(page), max_size as int),
        1 <= width <= max_size,
        1 <= height <= max_size,
        max_size <= 0x2000_0000,
        is_pow2(max_size as int),
    ensures
        page_wf(*final(page), max_size as int),
        old(page).width <= final(page).width,
        old(page).height <= final(page).height,
        packer_ops(final(page).packer) == spec_page_attempt(
            packer_ops(old(page).packer),
            width as int,
            height as int,
            max_size as int,
        ).0,
        (packer_ops(old(page).packer).len() == 1 && width <= old(page).width && height <= old(
            page,
        ).height ==> (r matches Some(rect) && rect.x == 0 && rect.y == 0)),
        (match r {
            Some(rect) => spec_page_attempt(
                packer_ops(old(page).packer),
                width as int,
                height as int,
                max_size as int,
            ).1 == Some((rect.x as int, rect.y as int)),
            None => spec_page_attempt(
                packer_ops(old(page).packer),
                width as int,
                height as int,
                max_size as int,
            ).1 is None,
        }),
        match r {
            Some(rect) => {
                &&& final(page).placed@ == old(page).placed@.push(rect)
                &&& rect.w == width
                &&& rect.h == height
                &&& rect_in_bounds(
                    rect_of(rect),
                    final(page).width as int,
                    final(page).height as int,
                )
                &&& forall|i: int|
                    0 <= i < old(page).placed@.len() ==> rects_disjoint(
                        rect_of(rect),
                        #[trigger] rect_of(old(page).placed@[i]),
                    )
            },
            None => final(page).placed@ == old(page).placed@ && old(page).placed@.len() > 0,
        },
{
    let ghost pre_page = *page;
    let r0 = packer_pack(&mut page.packer, width, height);
    if let Some(rect) = r0 {
        page.placed.push(rect);
        proof {
            lemma_attempt_success(pre_page, *page, rect, width, height, max_size as int);
            assert(spec_page_attempt(
                packer_ops(pre_page.packer),
                width as int,
                height as int,
                max_size as int,
            ) == (packer_ops(page.packer), Some((rect.x as int, rect.y as int))));
        }
        return Some(rect);
    }
    loop
        invariant
            page_wf(*page, max_size as int),
            page.placed@ == old(page).placed@,
            old(page).width <= page.width,
            old(page).height <= page.height,
            page.placed@.len() == 0 ==> (page.width < width || page.height < height),
            !(packer_ops(old(page).packer).len() == 1 && width <= old(page).width && height <= old(
                page,
            ).height),
            pack_result(packer_ops(page.packer), width as int, height as int) is None,
            spec_page_attempt(
                packer_ops(page.packer),
                width as int,
                height as int,
                max_size as int,
            ) == spec_page_attempt(
                packer_ops(old(page).packer),
                width as int,
                height as int,
                max_size as int,
            ),
        decreases 2 * max_size - page.width - page.height,
    {
        let pw = page.width;
        let ph = page.height;
        let half = max_size / 2;
        let ghost ops1 = packer_ops(page.packer);
        if pw <= ph && pw <= half {
            proof {
                lemma_pow2_double(pw as int);
                lemma_pow2_halving(pw as int, max_size as int);
            }
            packer_resize(&mut page.packer, pw * 2, ph);
            page.width = pw * 2;
            proof {
                assert(spec_grow(pw as int, ph as int, max_size as int) == Some(
                    ((2 * pw) as int, ph as int),
                ));
                assert(spec_page_attempt(ops1, width as int, height as int, max_size as int)
                    == spec_page_attempt(
                    packer_ops(page.packer),
                    width as int,
                    height as int,
                    max_size as int,
                ));
            }
        } else if ph <= half {
            proof {
                lemma_pow2_double(ph as int);
                lemma_pow2_halving(ph as int, max_size as int);
            }
            packer_resize(&mut page.packer, pw, ph * 2);
            page.height = ph * 2;
            proof {
                assert(spec_grow(pw as int, ph as int, max_size as int) == Some(
                    (pw as int, (2 * ph) as int),
                ));
                assert(spec_page_attempt(ops1, width as int, height as int, max_size as int)
                    == spec_page_attempt(
                    packer_ops(page.packer),
                    width as int,
                    height as int,
                    max_size as int,
                ));
            }
        } else {
            // Growth is exhausted: both dimensions already equal the
            // maximum, so an empty page would have taken the request.
            proof {
                lemma_pow2_between(ph as int, max_size as int);
                if pw <= ph {
                    lemma_pow2_between(pw as int, max_size as int);
                }
                assert(spec_grow(pw as int, ph as int, max_size as int) is None);
                assert(spec_page_attempt(
                    packer_ops(page.packer),
                    width as int,
                    height as int,
                    max_size as int,
                ) == (packer_ops(page.packer), None::<(int, int)>));
            }
            return None;
        }
        proof {
            assert(packer_ops(page.packer).drop_last() =~= ops1);
            assert(ops_placed(packer_ops(page.packer)) == ops_placed(ops1));
            assert(page_wf(*page, max_size as int));
        }
        let ghost mid_page = *page;
        let r1 = packer_pack(&mut page.packer, width, height);
        if let Some(rect) = r1 {
            page.placed.push(rect);
            proof {
                lemma_attempt_success(mid_page, *page, rect, width, height, max_size as int);
                assert(spec_page_attempt(
                    packer_ops(mid_page.packer),
                    width as int,
                    height as int,
                    max_size as int,
                ) == (packer_ops(page.packer), Some((rect.x as int, rect.y as int))));
            }
            return Some(rect);
        }
    }
}

/// A successful `pack` call followed by recording its rectangle keeps a
/// page well formed, and the new rectangle avoids everything recorded
/// before it.
proof fn lemma_attempt_success(
    pre: AtlasPage,
    p: AtlasPage,
    rect: RectPx,
    width: i32,
    height: i32,
    max_size: int,
)
    requires
        page_wf(pre, max_size),
        p.width == pre.width,
        p.height == pre.height,
        p.placed@ == pre.placed@.push(rect),
        1 <= width,
        1 <= height,
        // what packer_pack ensured for this call
        pack_result(packer_ops(pre.packer), width as int, height as int) matches Some(pos)
            && rect.x as int == pos.0 && rect.y as int == pos.1 && rect.w == width && rect.h
            == height,
        packer_ops(p.packer) == packer_ops(pre.packer).push(
            (2int, width as int, height as int),
        ),
        rect_in_bounds(
            rect_of(rect),
            ops_dims(packer_ops(pre.packer)).0,
            ops_dims(packer_ops(pre.packer)).1,
        ),
        forall|i: int|
            0 <= i < ops_placed(packer_ops(pre.packer)).len() ==> rects_disjoint(
                rect_of(rect),
                ops_placed(packer_ops(pre.packer))[i],
            ),
    ensures
        page_wf(p, max_size),
        forall|i: int|
            0 <= i < pre.placed@.len() ==> rects_disjoint(
                rect_of(rect),
                #[trigger] rect_of(pre.placed@[i]),
            ),
{
    let ops = packer_ops(p.packer);
    let pre_ops = packer_ops(pre.packer);
    assert(ops.drop_last() =~= pre_ops);
    assert(ops_placed(ops) =~= ops_placed(pre_ops).push(rect_of(rect)));
    let n = pre.placed@.len() as int;
    assert forall|i: int| 0 <= i < n implies rects_disjoint(
        rect_of(rect),
        #[trigger] rect_of(pre.placed@[i]),
    ) by {
        assert(ops_placed(pre_ops)[i] == page_rects(pre)[i]);
        assert(page_rects(pre)[i] == rect_of(pre.placed@[i]));
    };
    assert(page_rects(p) =~= ops_placed(ops));
    assert forall|i: int| 0 <= i < p.placed@.len() implies rect_in_bounds(
        #[trigger] rect_of(p.placed@[i]),
        p.width as int,
        p.height as int,
    ) by {
        if i < n {
            assert(p.placed@[i] == pre.placed@[i]);
        } else {
            assert(p.placed@[i] == rect);
        }
    };
    assert forall|i: int, j: int| 0 <= i < j < p.placed@.len() implies rects_disjoint(
        #[trigger] rect_of(p.placed@[i]),
        #[trigger] rect_of(p.placed@[j]),
    ) by {
        if j < n {
            assert(p.placed@[i] == pre.placed@[i]);
            assert(p.placed@[j] == pre.placed@[j]);
        } else {
            assert(p.placed@[i] == pre.placed@[i]);
            assert(p.placed@[j] == rect);
        }
    };
}

/// After one page of a well-formed builder has been updated — keeping every
/// placement it had, within grown bounds — the builder is still well formed,
/// provided its placement records are unchanged.
proof fn lemma_pages_grown_wf(a: AtlasBuilder, b: AtlasBuilder, i: int)
    requires
        a.wf(),
        0 <= i < a.pages@.len(),
        b.max_size == a.max_size,
        b.textures@ == a.textures@,
        b.pages@.len() == a.pages@.len(),
        forall|k: int| 0 <= k < a.pages@.len() && k != i ==> a.pages@[k] == #[trigger] b.pages@[k],
        page_wf(b.pages@[i], a.max_size as int),
        a.pages@[i].width <= b.pages@[i].width,
        a.pages@[i].height <= b.pages@[i].height,
        b.pages@[i].placed@.len() >= a.pages@[i].placed@.len(),
        forall|k: int|
            0 <= k < a.pages@[i].placed@.len() ==> a.pages@[i].placed@[k] == #[trigger] b.pages@[
                i
            ].placed@[k],
    ensures
        b.wf(),
{
    assert forall|j: int| 0 <= j < b.textures@.len() implies b.tex_wf(j) by {
        assert(a.tex_wf(j));
        let ar = b.textures@[j].0;
        if ar.atlas_id == i {
            let k = choose|k: int|
                0 <= k < page_rects(a.pages@[i]).len() && page_rects(a.pages@[i])[k] == ref_rect(
                    ar,
                );
            assert(page_rects(b.pages@[i])[k] == ref_rect(ar));
            assert(page_rects(b.pages@[i]).contains(ref_rect(ar)));
        }
    };
}

/// Appending a fresh, well-formed, empty page keeps a builder well formed.
proof fn lemma_append_page_wf(a: AtlasBuilder, b: AtlasBuilder)
    requires
        a.wf(),
        b.max_size == a.max_size,
        b.textures@ == a.textures@,
        b.pages@.len() == a.pages@.len() + 1,
        forall|k: int| 0 <= k < a.pages@.len() ==> a.pages@[k] == #[trigger] b.pages@[k],
        page_wf(b.pages@[a.pages@.len() as int], a.max_size as int),
    ensures
        b.wf(),
{
    assert forall|j: int| 0 <= j < b.textures@.len() implies b.tex_wf(j) by {
        assert(a.tex_wf(j));
    };
}

/// Recording a successful placement keeps a builder well formed: the new
/// rectangle sits on its page, inside the page, and apart from everything
/// already recorded against that page.
proof fn lemma_place_and_record(
    a: AtlasBuilder,
    b: AtlasBuilder,
    c: AtlasBuilder,
    i: int,
    rect: RectPx,
    ar: AtlasRef,
    data: Vec<u8>,
)
    requires
        a.wf(),
        0 <= i < a.pages@.len(),
        b.max_size == a.max_size,
        b.textures@ == a.textures@,
        b.pages@.len() == a.pages@.len(),
        forall|k: int| 0 <= k < a.pages@.len() && k != i ==> a.pages@[k] == #[trigger] b.pages@[k],
        page_wf(b.pages@[i], a.max_size as int),
        a.pages@[i].width <= b.pages@[i].width,
        a.pages@[i].height <= b.pages@[i].height,
        b.pages@[i].placed@ == a.pages@[i].placed@.push(rect),
        rect_in_bounds(rect_of(rect), b.pages@[i].width as int, b.pages@[i].height as int),
        forall|k: int|
            0 <= k < a.pages@[i].placed@.len() ==> rects_disjoint(
                rect_of(rect),
                #[trigger] rect_of(a.pages@[i].placed@[k]),
            ),
        ar.atlas_id == i,
        ref_rect(ar) == rect_of(rect),
        data@.len() == 4 * rect.w * rect.h,
        c.max_size == b.max_size,
        c.pages@ == b.pages@,
        c.textures@ == b.textures@.push((ar, data)),
    ensures
        c.wf(),
        forall|j: int|
            0 <= j < a.textures@.len() && (#[trigger] a.textures@[j]).0.atlas_id == ar.atlas_id
                ==> rects_disjoint(ref_rect(ar), ref_rect(a.textures@[j].0)),
{
    let n = a.pages@[i].placed@.len() as int;
    assert forall|j: int|
        0 <= j < a.textures@.len() && (#[trigger] a.textures@[j]).0.atlas_id
            == ar.atlas_id implies rects_disjoint(ref_rect(ar), ref_rect(a.textures@[j].0)) by {
        assert(a.tex_wf(j));
        let k = choose|k: int|
            0 <= k < page_rects(a.pages@[i]).len() && page_rects(a.pages@[i])[k] == ref_rect(
                a.textures@[j].0,
            );
        assert(rect_of(a.pages@[i].placed@[k]) == ref_rect(a.textures@[j].0));
        assert(rects_disjoint(rect_of(rect), rect_of(a.pages@[i].placed@[k])));
    };
    assert forall|j: int| 0 <= j < c.textures@.len() implies c.tex_wf(j) by {
        if j < a.textures@.len() {
            assert(a.tex_wf(j));
            let ar2 = c.textures@[j].0;
            if ar2.atlas_id == i {
                let k = choose|k: int|
                    0 <= k < page_rects(a.pages@[i]).len() && page_rects(a.pages@[i])[k]
                        == ref_rect(ar2);
                assert(page_rects(c.pages@[i])[k] == ref_rect(ar2));
                assert(page_rects(c.pages@[i]).contains(ref_rect(ar2)));
            }
        } else {
            assert(c.textures@[j].0 == ar);
            assert(page_rects(c.pages@[i])[n] == ref_rect(ar));
            assert(page_rects(c.pages@[i]).contains(ref_rect(ar)));
        }
    };
}

/// The smallest power of two not below `n`.
#[verifier::loop_isolation(false)]
pub fn next_pow2(n: i32) -> (r: i32)
    requires
        1 <= n <= 0x4000_0000,
    ensures
        is_pow2(r as int),
        n <= r < 2 * n,
{
    let mut p: i32 = 1;
    while p < n
        invariant
            1 <= p,
            is_pow2(p as int),
            p < 2 * n,
        decreases 2 * n - p,
    {
        proof {
            lemma_pow2_double(p as int);
        }
        p = p * 2;
    }
    p
}

/// The RGBA expansion of an 8-bit alpha map: each source byte becomes one
/// opaque white pixel carrying that byte as its alpha channel.
pub open spec fn rgba_of(alpha: Seq<u8>) -> Seq<u8>
    decreases alpha.len(),
{
    if alpha.len() == 0 {
        Seq::empty()
    } else {
        rgba_of(alpha.drop_last()) + seq![0xFFu8, 0xFFu8, 0xFFu8, alpha.last()]
    }
}

/// Expand an 8-bit alpha map to RGBA. This is how a font's pixel map is
/// turned into uploadable texture data.
#[verifier::loop_isolation(false)]
pub fn expand_alpha_map(alpha: &Vec<u8>) -> (r: Vec<u8>)
    requires
        4 * alpha@.len() <= usize::MAX,
    ensures
        r@ == rgba_of(alpha@),
        r@.len() == 4 * alpha@.len(),
{
    let mut out: Vec<u8> = Vec::new();
    let mut i: usize = 0;
    proof {
        assert(alpha@.take(0) =~= Seq::<u8>::empty());
    }
    while i < alpha.len()
        invariant
            0 <= i <= alpha@.len(),
            out@ == rgba_of(alpha@.take(i as int)),
            out@.len() == 4 * i,
        decreases alpha@.len() - i,
    {
        let a = alpha[i];
        let ghost pre = out@;
        out.push(0xFF);
        out.push(0xFF);
        out.push(0xFF);
        out.push(a);
        proof {
            let t = alpha@.take(i as int + 1);
            assert(t.drop_last() =~= alpha@.take(i as int));
            assert(t.last() == a);
            assert(out@ =~= rgba_of(t.drop_last()) + seq![0xFFu8, 0xFFu8, 0xFFu8, t.last()]);
        }
        i += 1;
    }
    proof {
        assert(alpha@.take(alpha@.len() as int) =~= alpha@);
    }
    out
}

/// Law: packing is deterministic. What a request receives — its page and
/// position — and the page set it leaves behind are functions of the
/// builder's packing histories, its maximum size and the request alone
/// (`texture` ensures exactly that); so two builders with equal histories
/// place any fixed request sequence identically, page assignments and
/// coordinates included.
pub proof fn lemma_packing_deterministic(a: AtlasBuilder, b: AtlasBuilder, w: int, h: int)
    requires
        pages_ops(a) == pages_ops(b),
        a.max_size == b.max_size,
    ensures
        spec_texture(pages_ops(a), a.max_size as int, w, h) == spec_texture(
            pages_ops(b),
            b.max_size as int,
            w,
            h,
        ),
{
}

/// Doubling a power of two gives a power of two.
proof fn lemma_pow2_double(n: int)
    requires
        is_pow2(n),
    ensures
        is_pow2(2 * n),
{
    assert(2 * n != 1 && (2 * n) % 2 == 0 && (2 * n) / 2 == n);
}

/// Two powers of two with `a <= b < 2a` are equal.
proof fn lemma_pow2_between(a: int, b: int)
    requires
        is_pow2(a),
        is_pow2(b),
        a <= b < 2 * a,
    ensures
        a == b,
    decreases a,
{
    if a > 1 {
        if b == 1 {
            assert(false);
        } else {
            lemma_pow2_between(a / 2, b / 2);
        }
    }
}

/// For a power of two `max`, a positive `n` at most `max / 2` doubles to at
/// most `max`.
proof fn lemma_pow2_halving(n: int, max: int)
    requires
        is_pow2(max),
        1 <= n,
        n <= max / 2,
    ensures
        2 * n <= max,
{
}

} // verus!
