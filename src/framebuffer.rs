//! The framebuffer: a persistent background layer, this frame's colour
//! buffer and this frame's depth buffer, all `width * height` long and
//! row-major with the top-left pixel first.
//!
//! Depths are unsigned integers, smaller being nearer; `DEPTH_FAR` stands
//! for infinitely far, and no depth is nearer than it but a smaller one.
use crate::color::Color;
use crate::random::{pick_below, thread_rng};
use crate::raster::{before, covers, fragment_at, lemma_flat_depth, Fragment, ScreenVertex};
use vstd::prelude::*;

verus! {

/// The depth of an empty pixel: farther than any write can be.
pub const DEPTH_FAR: u32 = 0xFFFF_FFFF;

/// The colour the background layer starts with.
pub const DEFAULT_BACKGROUND: u32 = 0x151515;

/// The drawing colour a new framebuffer starts with.
pub const DEFAULT_CURRENT: u32 = 0xFFFFFF;

/// One pixel's stored colour and depth, after a depth-tested write of
/// `write` (colour, depth) onto `cur`: the write wins only when strictly nearer.
pub open spec fn depth_step(cur: (u32, u32), write: (u32, u32)) -> (u32, u32) {
    if write.1 < cur.1 {
        write
    } else {
        cur
    }
}

/// The pixel after a run of depth-tested writes, applied first to last.
pub open spec fn apply_writes(start: (u32, u32), writes: Seq<(u32, u32)>) -> (u32, u32)
    decreases writes.len(),
{
    if writes.len() == 0 {
        start
    } else {
        depth_step(apply_writes(start, writes.drop_last()), writes.last())
    }
}

/// Within one frame, a pixel ends with the colour and depth of the
/// earliest write of least depth, or keeps what it held when no write was
/// strictly nearer: its depth never exceeds the starting depth nor that of
/// any write.
pub proof fn lemma_nearest_write_wins(start: (u32, u32), writes: Seq<(u32, u32)>)
    ensures
        apply_writes(start, writes).1 <= start.1,
        forall|i: int| 0 <= i < writes.len() ==> apply_writes(start, writes).1 <= #[trigger] writes[i].1,
        apply_writes(start, writes) == start || exists|i: int|
            0 <= i < writes.len() && apply_writes(start, writes) == #[trigger] writes[i] && forall|j: int|
                0 <= j < i ==> writes[j].1 > writes[i].1,
    decreases writes.len(),
{
    if writes.len() > 0 {
        let prev = writes.drop_last();
        lemma_nearest_write_wins(start, prev);
        let r = apply_writes(start, writes);
        let n = writes.len() - 1;
        assert(writes.last() == writes[n]);
        assert forall|i: int| 0 <= i < n implies #[trigger] prev[i] == writes[i] by {}
        assert forall|i: int| 0 <= i < writes.len() implies r.1 <= #[trigger] writes[i].1 by {
            if i < n {
                assert(writes[i] == prev[i]);
            }
        }
        if r == writes[n] && r != apply_writes(start, prev) {
            assert forall|j: int| 0 <= j < n implies writes[j].1 > writes[n].1 by {
                assert(writes[j] == prev[j]);
            }
        } else if r != start {
            let i = choose|i: int|
                0 <= i < prev.len() && apply_writes(start, prev) == #[trigger] prev[i] && forall|j: int|
                    0 <= j < i ==> prev[j].1 > prev[i].1;
            assert(r == writes[i]);
            assert forall|j: int| 0 <= j < i implies writes[j].1 > writes[i].1 by {
                assert(writes[j] == prev[j]);
            }
        }
    }
}

/// A write whose depth is not below the stored one leaves the pixel as it was.
pub proof fn lemma_farther_write_ignored(cur: (u32, u32), write: (u32, u32))
    requires
        write.1 >= cur.1,
    ensures
        depth_step(cur, write) == cur,
{
}

proof fn lemma_slot_in_range(x: int, y: int, w: int, h: int)
    requires
        0 <= x < w,
        0 <= y < h,
    ensures
        0 <= y * w,
        y * w + x < w * h,
{
    assert(0 <= y * w && y * w + x < w * h) by (nonlinear_arith)
        requires
            0 <= x < w,
            0 <= y < h,
    ;
}

/// The depth-tested writes, as (packed colour, depth), that a run of
/// shaded fragments makes at pixel `(x, y)`, first to last.
pub open spec fn writes_at(shaded: Seq<(Fragment, Color)>, x: int, y: int) -> Seq<(u32, u32)>
    decreases shaded.len(),
{
    if shaded.len() == 0 {
        Seq::empty()
    } else {
        let prev = writes_at(shaded.drop_last(), x, y);
        let (f, c) = shaded.last();
        if f.x == x && f.y == y {
            prev.push((c.packed(), f.depth))
        } else {
            prev
        }
    }
}

proof fn lemma_distinct_slots(x1: int, y1: int, x2: int, y2: int, w: int, h: int)
    requires
        0 <= x1 < w,
        0 <= y1 < h,
        0 <= x2 < w,
        0 <= y2 < h,
        x1 != x2 || y1 != y2,
    ensures
        y1 * w + x1 != y2 * w + x2,
{
    if y1 == y2 {
    } else if y1 < y2 {
        assert(y1 * w + x1 < y2 * w + x2) by (nonlinear_arith)
            requires
                0 <= x1 < w,
                0 <= x2,
                y1 < y2,
        ;
    } else {
        assert(y2 * w + x2 < y1 * w + x1) by (nonlinear_arith)
            requires
                0 <= x2 < w,
                0 <= x1,
                y2 < y1,
        ;
    }
}

/// Fragments in strict row-major order, all shaded with one colour.
pub open spec fn one_colour_run(shaded: Seq<(Fragment, Color)>, c: Color) -> bool {
    &&& forall|k: int| 0 <= k < shaded.len() ==> (#[trigger] shaded[k]).1 == c
    &&& forall|j: int, k: int|
        0 <= j < k < shaded.len() ==> before(
            (#[trigger] shaded[j]).0.y as int,
            shaded[j].0.x as int,
            (#[trigger] shaded[k]).0.y as int,
            shaded[k].0.x as int,
        )
}

proof fn lemma_no_writes(shaded: Seq<(Fragment, Color)>, x: int, y: int)
    requires
        forall|k: int| 0 <= k < shaded.len() ==> !((#[trigger] shaded[k]).0.x == x && shaded[k].0.y == y),
    ensures
        writes_at(shaded, x, y) == Seq::<(u32, u32)>::empty(),
    decreases shaded.len(),
{
    if shaded.len() > 0 {
        let prev = shaded.drop_last();
        assert forall|k: int| 0 <= k < prev.len() implies !((#[trigger] prev[k]).0.x == x && prev[k].0.y == y) by {
            assert(prev[k] == shaded[k]);
        }
        lemma_no_writes(prev, x, y);
        assert(shaded.last() == shaded[shaded.len() - 1]);
    }
}

proof fn lemma_single_write(shaded: Seq<(Fragment, Color)>, c: Color, k: int)
    requires
        one_colour_run(shaded, c),
        0 <= k < shaded.len(),
    ensures
        writes_at(shaded, shaded[k].0.x as int, shaded[k].0.y as int) == seq![(c.packed(), shaded[k].0.depth)],
    decreases shaded.len(),
{
    let x = shaded[k].0.x as int;
    let y = shaded[k].0.y as int;
    let prev = shaded.drop_last();
    let n = shaded.len() - 1;
    assert(shaded.last() == shaded[n]);
    assert forall|j: int| 0 <= j < prev.len() implies #[trigger] prev[j] == shaded[j] by {}
    if k == n {
        assert forall|j: int| 0 <= j < prev.len() implies !((#[trigger] prev[j]).0.x == x && prev[j].0.y == y) by {
            assert(before(shaded[j].0.y as int, shaded[j].0.x as int, shaded[k].0.y as int, shaded[k].0.x as int));
        }
        lemma_no_writes(prev, x, y);
        assert(seq![(c.packed(), shaded[k].0.depth)] =~= Seq::<(u32, u32)>::empty().push(
            (c.packed(), shaded[k].0.depth),
        ));
    } else {
        assert(before(shaded[k].0.y as int, shaded[k].0.x as int, shaded[n].0.y as int, shaded[n].0.x as int));
        assert(one_colour_run(prev, c));
        lemma_single_write(prev, c, k);
    }
}

/// Drawing the fragments of one rasterized triangle whose vertices share
/// the depth `z`, all in one colour `c`, over a pixel cleared to `DEPTH_FAR`:
/// each covered pixel ends with colour `c` and depth `z`.
pub proof fn lemma_flat_triangle_draw(
    v0: ScreenVertex,
    v1: ScreenVertex,
    v2: ScreenVertex,
    shaded: Seq<(Fragment, Color)>,
    c: Color,
    x: int,
    y: int,
    start_colour: u32,
)
    requires
        v0.z == v1.z && v1.z == v2.z,
        v0.z < DEPTH_FAR,
        one_colour_run(shaded, c),
        forall|k: int|
            0 <= k < shaded.len() ==> {
                &&& covers(v0, v1, v2, (#[trigger] shaded[k]).0.x as int, shaded[k].0.y as int)
                &&& shaded[k].0 == fragment_at(v0, v1, v2, shaded[k].0.x as int, shaded[k].0.y as int)
            },
        exists|k: int| 0 <= k < shaded.len() && (#[trigger] shaded[k]).0.x == x && shaded[k].0.y == y,
    ensures
        apply_writes((start_colour, DEPTH_FAR), writes_at(shaded, x, y)) == (c.packed(), v0.z),
{
    let k = choose|k: int| 0 <= k < shaded.len() && (#[trigger] shaded[k]).0.x == x && shaded[k].0.y == y;
    lemma_single_write(shaded, c, k);
    lemma_flat_depth(v0, v1, v2, x, y);
    let w = seq![(c.packed(), shaded[k].0.depth)];
    assert(w.drop_last() =~= Seq::<(u32, u32)>::empty());
    assert(shaded[k].0.depth == v0.z);
    assert(w.last() == (c.packed(), v0.z));
    assert(apply_writes((start_colour, DEPTH_FAR), Seq::<(u32, u32)>::empty()) == (start_colour, DEPTH_FAR));
    assert(apply_writes((start_colour, DEPTH_FAR), w) == depth_step(
        (start_colour, DEPTH_FAR),
        (c.packed(), v0.z),
    ));
}

/// The colour of a star.
pub const STAR_COLOR: u32 = 0xFFFFFF;

/// The background layer after painting each in-range star position white,
/// first to last; positions outside `width * height` are skipped.
pub open spec fn paint_all(bg: Seq<u32>, width: int, height: int, stars: Seq<(usize, usize)>) -> Seq<u32>
    decreases stars.len(),
{
    if stars.len() == 0 {
        bg
    } else {
        let prev = paint_all(bg, width, height, stars.drop_last());
        let (x, y) = stars.last();
        if x < width && y < height {
            prev.update(y * width + x, STAR_COLOR)
        } else {
            prev
        }
    }
}

proof fn lemma_paint_all_len(bg: Seq<u32>, width: int, height: int, stars: Seq<(usize, usize)>)
    requires
        bg.len() == width * height,
    ensures
        paint_all(bg, width, height, stars).len() == bg.len(),
    decreases stars.len(),
{
    if stars.len() > 0 {
        lemma_paint_all_len(bg, width, height, stars.drop_last());
        let (x, y) = stars.last();
        if x < width && y < height {
            lemma_slot_in_range(x as int, y as int, width, height);
        }
    }
}

/// Seeds a starfield: draws `num_stars` pixel positions at random, each
/// inside the framebuffer, and paints them white on the background layer
/// with `paint_stars`. The colour and depth buffers are untouched.
pub fn render_background(framebuffer: &mut Framebuffer, num_stars: u32)
    requires
        old(framebuffer).wf(),
        num_stars > 0 ==> old(framebuffer).width > 0 && old(framebuffer).height > 0,
    ensures
        final(framebuffer).wf(),
        final(framebuffer).width == old(framebuffer).width,
        final(framebuffer).height == old(framebuffer).height,
        final(framebuffer).buffer@ == old(framebuffer).buffer@,
        final(framebuffer).zbuffer@ == old(framebuffer).zbuffer@,
        final(framebuffer).current() == old(framebuffer).current(),
        final(framebuffer).background_setting() == old(framebuffer).background_setting(),
        exists|stars: Seq<(usize, usize)>|
            {
                &&& stars.len() == num_stars
                &&& forall|k: int|
                    0 <= k < stars.len() ==> (#[trigger] stars[k]).0 < old(framebuffer).width && stars[k].1 < old(
                        framebuffer,
                    ).height
                &&& final(framebuffer).background() == paint_all(
                    old(framebuffer).background(),
                    old(framebuffer).width as int,
                    old(framebuffer).height as int,
                    stars,
                )
            },
        num_stars > 0 ==> exists|i: int|
            0 <= i < final(framebuffer).background().len() && #[trigger] final(framebuffer).background()[i]
                == STAR_COLOR,
{
    let mut stars: Vec<(usize, usize)> = Vec::new();
    if num_stars > 0 {
        let mut rng = thread_rng();
        let mut k: u32 = 0;
        while k < num_stars
            invariant
                k <= num_stars,
                stars@.len() == k,
                framebuffer.width > 0,
                framebuffer.height > 0,
                forall|j: int|
                    0 <= j < stars@.len() ==> (#[trigger] stars@[j]).0 < framebuffer.width && stars@[j].1
                        < framebuffer.height,
            decreases num_stars - k,
        {
            let x = pick_below(&mut rng, framebuffer.width);
            let y = pick_below(&mut rng, framebuffer.height);
            stars.push((x, y));
            k = k + 1;
        }
    }
    framebuffer.paint_stars(&stars);
    proof {
        if num_stars > 0 {
            let s = stars@;
            let (x, y) = s.last();
            assert(s[s.len() - 1] == s.last());
            lemma_slot_in_range(x as int, y as int, old(framebuffer).width as int, old(framebuffer).height as int);
            lemma_paint_all_len(
                old(framebuffer).background(),
                old(framebuffer).width as int,
                old(framebuffer).height as int,
                s.drop_last(),
            );
            let i = y * old(framebuffer).width + x;
            assert(framebuffer.background()[i] == STAR_COLOR);
        }
    }
}

/// The pixel layers of one window. Keep `wf` between calls.
pub struct Framebuffer {
    pub width: usize,
    pub height: usize,
    /// This frame's packed colours, ready for display.
    pub buffer: Vec<u32>,
    /// This frame's nearest depth per pixel.
    pub zbuffer: Vec<u32>,
    /// The background colour setting; painting goes through `set_background_star`.
    pub background_color: u32,
    /// The colour that `point` writes.
    pub current_color: u32,
    /// The persistent background layer, copied into `buffer` by `clear`.
    pub background_buffer: Vec<u32>,
}

impl Framebuffer {
    /// The persistent background layer.
    pub open spec fn background(&self) -> Seq<u32> {
        self.background_buffer@
    }

    /// The colour that `point` writes.
    pub open spec fn current(&self) -> u32 {
        self.current_color
    }

    /// The background colour setting.
    pub open spec fn background_setting(&self) -> u32 {
        self.background_color
    }

    /// The three layers have one slot per pixel.
    pub open spec fn wf(&self) -> bool {
        &&& self.width * self.height <= usize::MAX
        &&& self.buffer@.len() == self.width * self.height
        &&& self.zbuffer@.len() == self.width * self.height
        &&& self.background().len() == self.width * self.height
    }

    /// The slot of pixel `(x, y)`.
    pub open spec fn index_of(&self, x: int, y: int) -> int {
        y * self.width + x
    }

    /// Pixel `(x, y)` as (colour, depth).
    pub open spec fn pixel(&self, x: int, y: int) -> (u32, u32) {
        (self.buffer@[self.index_of(x, y)], self.zbuffer@[self.index_of(x, y)])
    }

    /// A framebuffer whose colour buffer is black, whose depth buffer is
    /// empty and whose background layer is `DEFAULT_BACKGROUND`.
    pub fn new(width: usize, height: usize) -> (fb: Framebuffer)
        requires
            width * height <= usize::MAX,
        ensures
            fb.wf(),
            fb.width == width,
            fb.height == height,
            forall|i: int| 0 <= i < width * height ==> #[trigger] fb.buffer@[i] == 0,
            forall|i: int| 0 <= i < width * height ==> #[trigger] fb.zbuffer@[i] == DEPTH_FAR,
            forall|i: int| 0 <= i < width * height ==> #[trigger] fb.background()[i] == DEFAULT_BACKGROUND,
            fb.current() == DEFAULT_CURRENT,
            fb.background_setting() == DEFAULT_BACKGROUND,
    {
        let n = width * height;
        let mut buffer: Vec<u32> = Vec::with_capacity(n);
        let mut zbuffer: Vec<u32> = Vec::with_capacity(n);
        let mut background_buffer: Vec<u32> = Vec::with_capacity(n);
        let mut i: usize = 0;
        while i < n
            invariant
                i <= n,
                buffer@.len() == i,
                zbuffer@.len() == i,
                background_buffer@.len() == i,
                forall|j: int| 0 <= j < i ==> #[trigger] buffer@[j] == 0,
                forall|j: int| 0 <= j < i ==> #[trigger] zbuffer@[j] == DEPTH_FAR,
                forall|j: int| 0 <= j < i ==> #[trigger] background_buffer@[j] == DEFAULT_BACKGROUND,
            decreases n - i,
        {
            buffer.push(0);
            zbuffer.push(DEPTH_FAR);
            background_buffer.push(DEFAULT_BACKGROUND);
            i = i + 1;
        }
        Framebuffer {
            width,
            height,
            buffer,
            zbuffer,
            background_color: DEFAULT_BACKGROUND,
            current_color: DEFAULT_CURRENT,
            background_buffer,
        }
    }

    /// Starts a frame: the colour buffer becomes a copy of the background
    /// layer and every depth slot becomes `DEPTH_FAR`.
    pub fn clear(&mut self)
        requires
            old(self).wf(),
        ensures
            final(self).wf(),
            final(self).buffer@ == old(self).background(),
            forall|i: int| 0 <= i < old(self).zbuffer@.len() ==> #[trigger] final(self).zbuffer@[i] == DEPTH_FAR,
            final(self).width == old(self).width,
            final(self).height == old(self).height,
            final(self).background() == old(self).background(),
            final(self).current() == old(self).current(),
            final(self).background_setting() == old(self).background_setting(),
    {
        let n = self.buffer.len();
        let mut i: usize = 0;
        while i < n
            invariant
                self.wf(),
                n == self.buffer@.len(),
                i <= n,
                self.width == old(self).width,
                self.height == old(self).height,
                self.background() == old(self).background(),
                self.current() == old(self).current(),
                self.background_setting() == old(self).background_setting(),
                forall|j: int| 0 <= j < i ==> #[trigger] self.buffer@[j] == self.background()[j],
                forall|j: int| 0 <= j < i ==> #[trigger] self.zbuffer@[j] == DEPTH_FAR,
            decreases n - i,
        {
            let c = self.background_buffer[i];
            self.buffer[i] = c;
            self.zbuffer[i] = DEPTH_FAR;
            i = i + 1;
        }
        assert(self.buffer@ =~= self.background());
    }

    /// A depth-tested write of the current colour: inside the framebuffer,
    /// pixel `(x, y)` takes the current colour and `depth` when `depth` is
    /// strictly below its stored depth; nothing else changes. Outside the
    /// framebuffer nothing changes.
    pub fn point(&mut self, x: usize, y: usize, depth: u32)
        requires
            old(self).wf(),
        ensures
            final(self).wf(),
            final(self).width == old(self).width,
            final(self).height == old(self).height,
            final(self).background() == old(self).background(),
            final(self).current() == old(self).current(),
            final(self).background_setting() == old(self).background_setting(),
            x < old(self).width && y < old(self).height ==> {
                &&& final(self).pixel(x as int, y as int) == depth_step(
                    old(self).pixel(x as int, y as int),
                    (old(self).current(), depth),
                )
                &&& forall|i: int|
                    0 <= i < old(self).buffer@.len() && i != old(self).index_of(x as int, y as int)
                        ==> #[trigger] final(self).buffer@[i] == old(self).buffer@[i]
                        && final(self).zbuffer@[i] == old(self).zbuffer@[i]
            },
            !(x < old(self).width && y < old(self).height) ==> final(self).buffer@ == old(self).buffer@
                && final(self).zbuffer@ == old(self).zbuffer@,
            !(x < old(self).width && y < old(self).height && depth < old(self).zbuffer@[old(self).index_of(
                x as int,
                y as int,
            )]) ==> final(self).buffer@ == old(self).buffer@ && final(self).zbuffer@ == old(self).zbuffer@,
            forall|j: int|
                0 <= j < old(self).zbuffer@.len() ==> #[trigger] final(self).zbuffer@[j] <= old(self).zbuffer@[j]
                    && (final(self).buffer@[j] != old(self).buffer@[j] ==> final(self).zbuffer@[j]
                    < old(self).zbuffer@[j]),
    {
        if x < self.width && y < self.height {
            proof {
                lemma_slot_in_range(x as int, y as int, self.width as int, self.height as int);
            }
            let index = y * self.width + x;
            if self.zbuffer[index] > depth {
                let c = self.current_color;
                self.buffer[index] = c;
                self.zbuffer[index] = depth;
            }
        }
    }

    /// Composites shaded fragments, first to last, each as a depth-tested
    /// write of its colour at its pixel: every pixel ends as the run of the
    /// writes made at it leaves it. Fragments outside the framebuffer are
    /// dropped. The current colour ends as the last fragment's colour.
    pub fn draw_fragments(&mut self, shaded: &Vec<(Fragment, Color)>)
        requires
            old(self).wf(),
        ensures
            final(self).wf(),
            final(self).width == old(self).width,
            final(self).height == old(self).height,
            final(self).background() == old(self).background(),
            final(self).background_setting() == old(self).background_setting(),
            forall|x: int, y: int|
                0 <= x < old(self).width && 0 <= y < old(self).height ==> #[trigger] final(self).pixel(x, y)
                    == apply_writes(old(self).pixel(x, y), writes_at(shaded@, x, y)),
            shaded@.len() == 0 ==> final(self).current() == old(self).current(),
            shaded@.len() > 0 ==> final(self).current() == shaded@.last().1.packed(),
    {
        let mut k: usize = 0;
        while k < shaded.len()
            invariant
                self.wf(),
                k <= shaded@.len(),
                self.width == old(self).width,
                self.height == old(self).height,
                self.background() == old(self).background(),
                self.background_setting() == old(self).background_setting(),
                forall|x: int, y: int|
                    0 <= x < self.width && 0 <= y < self.height ==> #[trigger] self.pixel(x, y) == apply_writes(
                        old(self).pixel(x, y),
                        writes_at(shaded@.take(k as int), x, y),
                    ),
                k == 0 ==> self.current() == old(self).current(),
                k > 0 ==> self.current() == shaded@[k - 1].1.packed(),
            decreases shaded@.len() - k,
        {
            let (f, c) = shaded[k];
            let ghost before = *self;
            self.set_current_color(c.to_hex());
            let ghost mid = *self;
            self.point(f.x, f.y, f.depth);
            proof {
                let t = shaded@.take(k as int + 1);
                assert(t.drop_last() =~= shaded@.take(k as int));
                assert(t.last() == (f, c));
                assert forall|x: int, y: int| 0 <= x < self.width && 0 <= y < self.height implies #[trigger] self.pixel(
                    x,
                    y,
                ) == apply_writes(old(self).pixel(x, y), writes_at(t, x, y)) by {
                    assert(mid.pixel(x, y) == before.pixel(x, y));
                    lemma_slot_in_range(x, y, self.width as int, self.height as int);
                    if x == f.x && y == f.y {
                        let w = writes_at(shaded@.take(k as int), x, y);
                        assert(writes_at(t, x, y) == w.push((c.packed(), f.depth)));
                        assert(writes_at(t, x, y).drop_last() =~= w);
                    } else {
                        assert(writes_at(t, x, y) == writes_at(shaded@.take(k as int), x, y));
                        if f.x < self.width && f.y < self.height {
                            lemma_distinct_slots(x, y, f.x as int, f.y as int, self.width as int, self.height as int);
                        }
                    }
                }
            }
            k = k + 1;
        }
        assert(shaded@.take(shaded@.len() as int) =~= shaded@);
    }

    /// Paints each in-range position of `stars` white on the background
    /// layer, first to last; positions outside the framebuffer are skipped.
    /// Nothing else changes.
    pub fn paint_stars(&mut self, stars: &Vec<(usize, usize)>)
        requires
            old(self).wf(),
        ensures
            final(self).wf(),
            final(self).width == old(self).width,
            final(self).height == old(self).height,
            final(self).buffer@ == old(self).buffer@,
            final(self).zbuffer@ == old(self).zbuffer@,
            final(self).current() == old(self).current(),
            final(self).background_setting() == old(self).background_setting(),
            final(self).background() == paint_all(
                old(self).background(),
                old(self).width as int,
                old(self).height as int,
                stars@,
            ),
    {
        let mut k: usize = 0;
        while k < stars.len()
            invariant
                self.wf(),
                k <= stars@.len(),
                self.width == old(self).width,
                self.height == old(self).height,
                self.buffer@ == old(self).buffer@,
                self.zbuffer@ == old(self).zbuffer@,
                self.current() == old(self).current(),
                self.background_setting() == old(self).background_setting(),
                self.background() == paint_all(
                    old(self).background(),
                    old(self).width as int,
                    old(self).height as int,
                    stars@.take(k as int),
                ),
            decreases stars@.len() - k,
        {
            let (x, y) = stars[k];
            self.set_background_star(x, y, STAR_COLOR);
            proof {
                let t = stars@.take(k as int + 1);
                assert(t.drop_last() =~= stars@.take(k as int));
                assert(t.last() == (x, y));
            }
            k = k + 1;
        }
        assert(stars@.take(stars@.len() as int) =~= stars@);
    }

    pub fn set_background_color(&mut self, color: u32)
        ensures
            final(self).background_setting() == color,
            final(self).width == old(self).width,
            final(self).height == old(self).height,
            final(self).buffer@ == old(self).buffer@,
            final(self).zbuffer@ == old(self).zbuffer@,
            final(self).background() == old(self).background(),
            final(self).current() == old(self).current(),
    {
        self.background_color = color;
    }

    pub fn set_current_color(&mut self, color: u32)
        ensures
            final(self).current() == color,
            final(self).width == old(self).width,
            final(self).height == old(self).height,
            final(self).buffer@ == old(self).buffer@,
            final(self).zbuffer@ == old(self).zbuffer@,
            final(self).background() == old(self).background(),
            final(self).background_setting() == old(self).background_setting(),
    {
        self.current_color = color;
    }

    /// Paints pixel `(x, y)` of the background layer; outside the
    /// framebuffer nothing changes. The colour and depth buffers are untouched.
    pub fn set_background_star(&mut self, x: usize, y: usize, color: u32)
        requires
            old(self).wf(),
        ensures
            final(self).wf(),
            final(self).width == old(self).width,
            final(self).height == old(self).height,
            final(self).buffer@ == old(self).buffer@,
            final(self).zbuffer@ == old(self).zbuffer@,
            final(self).current() == old(self).current(),
            final(self).background_setting() == old(self).background_setting(),
            x < old(self).width && y < old(self).height ==> final(self).background() == old(
                self,
            ).background().update(old(self).index_of(x as int, y as int), color),
            !(x < old(self).width && y < old(self).height) ==> final(self).background() == old(
                self,
            ).background(),
    {
        if x < self.width && y < self.height {
            proof {
                lemma_slot_in_range(x as int, y as int, self.width as int, self.height as int);
            }
            let index = y * self.width + x;
            self.background_buffer[index] = color;
        }
    }
}

} // verus!
