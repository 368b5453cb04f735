use vstd::prelude::*;
use crate::display::Framebuffer;

verus! {

/// Most dirty rectangles kept before falling back to a full redraw.
pub const MAX_DIRTY_RECTS: usize = 24;
/// The dirty area never has to stay below this many pixels.
pub const MIN_DIRTY_AREA_THRESHOLD: usize = 8 * 1024;
pub const DIRTY_RATIO_DIVISOR: usize = 5;
pub const LOW_MEM_DIRTY_RATIO_DIVISOR: usize = 8;
/// Rectangles this close are merged.
pub const NEARBY_MERGE_GAP: usize = 3;
pub const LOW_MEMORY_SKIP_DIV: usize = 2;
/// Full redraws in a row (net) that switch on low-memory mode.
pub const MAX_FULL_REDRAW_STREAK: usize = 360;
/// Frames without a full redraw after which low-memory mode ends.
pub const LOW_MEM_RECOVERY_FRAMES: usize = 600;

/// A screen rectangle that needs redrawing.
#[derive(Debug, Clone, Copy, PartialEq, Eq, Structural)]
pub struct DirtyRect {
    pub x: usize,
    pub y: usize,
    pub w: usize,
    pub h: usize,
}

/// `a + b`, saturating at `usize::MAX`.
pub open spec fn sadd(a: int, b: int) -> int {
    if a + b > usize::MAX {
        usize::MAX as int
    } else {
        a + b
    }
}

/// `a * b`, saturating at `usize::MAX`.
pub open spec fn smul(a: int, b: int) -> int {
    if a * b > usize::MAX {
        usize::MAX as int
    } else {
        a * b
    }
}

/// `x + 1`, wrapping to zero past `usize::MAX`.
pub open spec fn wrap_inc(x: usize) -> usize {
    if x == usize::MAX {
        0
    } else {
        (x + 1) as usize
    }
}

/// `a - b`, stopping at zero.
pub open spec fn ssub(a: int, b: int) -> int {
    if a >= b {
        a - b
    } else {
        0
    }
}

/// Whether `a` and `b` overlap or lie within `NEARBY_MERGE_GAP` pixels of
/// each other (edges computed with saturating sums).
pub open spec fn near(a: DirtyRect, b: DirtyRect) -> bool {
    let a_right = sadd(sadd(a.x as int, a.w as int), NEARBY_MERGE_GAP as int);
    let b_right = sadd(sadd(b.x as int, b.w as int), NEARBY_MERGE_GAP as int);
    let a_bottom = sadd(sadd(a.y as int, a.h as int), NEARBY_MERGE_GAP as int);
    let b_bottom = sadd(sadd(b.y as int, b.h as int), NEARBY_MERGE_GAP as int);
    !(a_right <= b.x || b_right <= a.x || a_bottom <= b.y || b_bottom <= a.y)
}

/// The bounding box of `a` and `b` (far edges computed with saturating sums).
pub open spec fn merged(a: DirtyRect, b: DirtyRect) -> DirtyRect {
    let x1 = if a.x < b.x { a.x } else { b.x };
    let y1 = if a.y < b.y { a.y } else { b.y };
    let ar = sadd(a.x as int, a.w as int);
    let br = sadd(b.x as int, b.w as int);
    let ab = sadd(a.y as int, a.h as int);
    let bb = sadd(b.y as int, b.h as int);
    let x2 = if ar > br { ar } else { br };
    let y2 = if ab > bb { ab } else { bb };
    DirtyRect { x: x1, y: y1, w: ssub(x2, x1 as int) as usize, h: ssub(y2, y1 as int) as usize }
}

/// Whether `a` comes after `b` in the order rectangles are merged in: by
/// `x`, then by `y`.
pub open spec fn after(a: DirtyRect, b: DirtyRect) -> bool {
    a.x > b.x || (a.x == b.x && a.y > b.y)
}

/// One inner pass of the sort: for each `j` from `j` on, `s[i]` and `s[j]`
/// are swapped when `s[i]` comes after `s[j]`.
pub open spec fn sort_inner(s: Seq<DirtyRect>, i: int, j: int) -> Seq<DirtyRect>
    decreases s.len() - j,
{
    if j < 0 || j >= s.len() {
        s
    } else {
        let s2 = if 0 <= i < s.len() && after(s[i], s[j]) {
            s.update(i, s[j]).update(j, s[i])
        } else {
            s
        };
        proof {
            assert(s2.len() == s.len());
        }
        sort_inner(s2, i, j + 1)
    }
}

/// The sort: for each `i` from `i` on, an inner pass from `i + 1`.
pub open spec fn sort_outer(s: Seq<DirtyRect>, i: int) -> Seq<DirtyRect>
    decreases s.len() - i,
{
    if i < 0 || i >= s.len() {
        s
    } else {
        proof {
            lemma_sort_inner_len(s, i, i + 1);
        }
        sort_outer(sort_inner(s, i, i + 1), i + 1)
    }
}

/// The first `n` rectangles of a sorted list, each merged into the one
/// before it when they are near.
pub open spec fn merge_run(s: Seq<DirtyRect>, n: int) -> Seq<DirtyRect>
    decreases n,
{
    if n <= 0 {
        Seq::empty()
    } else {
        let g = merge_run(s, n - 1);
        let r = s[n - 1];
        if g.len() == 0 {
            seq![r]
        } else if near(g.last(), r) {
            g.update(g.len() - 1, merged(g.last(), r))
        } else {
            g.push(r)
        }
    }
}

/// The rectangles sorted by position and merged where near; a single
/// rectangle is left as it is.
pub open spec fn coalesced(s: Seq<DirtyRect>) -> Seq<DirtyRect> {
    if s.len() <= 1 {
        s
    } else {
        let t = sort_outer(s, 0);
        merge_run(t, t.len() as int)
    }
}

/// The total area of `s`, each area and the sum saturating.
pub open spec fn area_of(s: Seq<DirtyRect>) -> int
    decreases s.len(),
{
    if s.len() == 0 {
        0
    } else {
        sadd(area_of(s.drop_last()), smul(s.last().w as int, s.last().h as int))
    }
}

/// The first rectangle of `s` near `r`, or `s.len()`.
pub open spec fn first_near(s: Seq<DirtyRect>, r: DirtyRect, i: int) -> int
    decreases s.len() - i,
{
    if i < 0 || i >= s.len() {
        s.len() as int
    } else if near(s[i], r) {
        i
    } else {
        first_near(s, r, i + 1)
    }
}

pub proof fn lemma_sort_inner_len(s: Seq<DirtyRect>, i: int, j: int)
    ensures
        sort_inner(s, i, j).len() == s.len(),
    decreases s.len() - j,
{
    if !(j < 0 || j >= s.len()) {
        let s2 = if 0 <= i < s.len() && after(s[i], s[j]) {
            s.update(i, s[j]).update(j, s[i])
        } else {
            s
        };
        lemma_sort_inner_len(s2, i, j + 1);
    }
}

pub proof fn lemma_sort_outer_len(s: Seq<DirtyRect>, i: int)
    ensures
        sort_outer(s, i).len() == s.len(),
    decreases s.len() - i,
{
    if !(i < 0 || i >= s.len()) {
        lemma_sort_inner_len(s, i, i + 1);
        lemma_sort_outer_len(sort_inner(s, i, i + 1), i + 1);
    }
}

pub proof fn lemma_merge_run_len(s: Seq<DirtyRect>, n: int)
    requires
        0 <= n,
    ensures
        merge_run(s, n).len() <= n,
        n > 0 ==> merge_run(s, n).len() >= 1,
    decreases n,
{
    if n > 0 {
        lemma_merge_run_len(s, n - 1);
    }
}

impl DirtyRect {
    /// A rectangle.
    pub fn new(x: usize, y: usize, w: usize, h: usize) -> (r: DirtyRect)
        ensures
            r == (DirtyRect { x, y, w, h }),
    {
        DirtyRect { x, y, w, h }
    }

    /// Width times height, saturating.
    fn area(&self) -> (r: usize)
        ensures
            r == smul(self.w as int, self.h as int),
    {
        match self.w.checked_mul(self.h) {
            Some(a) => a,
            None => usize::MAX,
        }
    }

    /// Whether `other` overlaps or is near (see `near`).
    fn intersects_or_nearby(&self, other: &DirtyRect) -> (r: bool)
        ensures
            r == near(*self, *other),
    {
        let self_right = self.x.saturating_add(self.w).saturating_add(NEARBY_MERGE_GAP);
        let other_right = other.x.saturating_add(other.w).saturating_add(NEARBY_MERGE_GAP);
        let self_bottom = self.y.saturating_add(self.h).saturating_add(NEARBY_MERGE_GAP);
        let other_bottom = other.y.saturating_add(other.h).saturating_add(NEARBY_MERGE_GAP);
        !(self_right <= other.x || other_right <= self.x || self_bottom <= other.y || other_bottom <= self.y)
    }

    /// Grows to the bounding box with `other` (see `merged`).
    fn merge(&mut self, other: &DirtyRect)
        ensures
            *final(self) == merged(*old(self), *other),
    {
        let x1 = if self.x < other.x { self.x } else { other.x };
        let y1 = if self.y < other.y { self.y } else { other.y };
        let ar = self.x.saturating_add(self.w);
        let br = other.x.saturating_add(other.w);
        let ab = self.y.saturating_add(self.h);
        let bb = other.y.saturating_add(other.h);
        let x2 = if ar > br { ar } else { br };
        let y2 = if ab > bb { ab } else { bb };
        self.x = x1;
        self.y = y1;
        self.w = x2.saturating_sub(x1);
        self.h = y2.saturating_sub(y1);
    }
}

/// Keeps track of what changed on screen between frames, so that only the
/// dirty parts are redrawn, falling back to full redraws when too much
/// changed, and backing off when full redraws keep coming.
pub struct Optimizer {
    dirty_rects: Vec<DirtyRect>,
    dirty_area: usize,
    full_redraw_needed: bool,
    frame_counter: usize,
    optimization_enabled: bool,
    low_memory_mode: bool,
    low_mem_skip_counter: usize,
    full_redraw_streak: usize,
    frames_since_last_full_redraw: usize,
    screen_w: usize,
    screen_h: usize,
    screen_area: usize,
}

/// An optimizer's state as plain values.
pub struct OptView {
    pub rects: Seq<DirtyRect>,
    pub dirty_area: usize,
    pub full_redraw_needed: bool,
    pub frame_counter: usize,
    pub optimization_enabled: bool,
    pub low_memory_mode: bool,
    pub low_mem_skip_counter: usize,
    pub full_redraw_streak: usize,
    pub frames_since_last_full_redraw: usize,
    pub screen_w: usize,
    pub screen_h: usize,
    pub screen_area: usize,
}

impl View for Optimizer {
    type V = OptView;

    closed spec fn view(&self) -> OptView {
        OptView {
            rects: self.dirty_rects@,
            dirty_area: self.dirty_area,
            full_redraw_needed: self.full_redraw_needed,
            frame_counter: self.frame_counter,
            optimization_enabled: self.optimization_enabled,
            low_memory_mode: self.low_memory_mode,
            low_mem_skip_counter: self.low_mem_skip_counter,
            full_redraw_streak: self.full_redraw_streak,
            frames_since_last_full_redraw: self.frames_since_last_full_redraw,
            screen_w: self.screen_w,
            screen_h: self.screen_h,
            screen_area: self.screen_area,
        }
    }
}

impl OptView {
    /// At most `MAX_DIRTY_RECTS` rectangles are kept.
    pub open spec fn wf(self) -> bool {
        self.rects.len() <= MAX_DIRTY_RECTS
    }

    /// No dirty rectangles.
    pub open spec fn cleared(self) -> OptView {
        OptView { rects: Seq::empty(), dirty_area: 0, ..self }
    }

    /// Everything is to be redrawn; the dirty rectangles are dropped.
    pub open spec fn full(self) -> OptView {
        OptView { full_redraw_needed: true, ..self.cleared() }
    }

    /// A rectangle cut to the screen: kept as it is before the screen size
    /// is known, `None` when nothing of it is on screen.
    pub open spec fn clamp(self, x: usize, y: usize, w: usize, h: usize) -> Option<DirtyRect> {
        if self.screen_w == 0 || self.screen_h == 0 {
            Some(DirtyRect { x, y, w, h })
        } else if x >= self.screen_w || y >= self.screen_h {
            None
        } else {
            let ex = sadd(x as int, w as int);
            let ey = sadd(y as int, h as int);
            let end_x = if ex < self.screen_w { ex } else { self.screen_w as int };
            let end_y = if ey < self.screen_h { ey } else { self.screen_h as int };
            if end_x <= x || end_y <= y {
                None
            } else {
                Some(DirtyRect { x, y, w: (end_x - x) as usize, h: (end_y - y) as usize })
            }
        }
    }

    /// The dirty area above which a full redraw is cheaper: a fifth of the
    /// screen (an eighth in low-memory mode), at least 8 KiB of pixels.
    pub open spec fn threshold(self) -> int {
        let divisor = if self.low_memory_mode {
            LOW_MEM_DIRTY_RATIO_DIVISOR
        } else {
            DIRTY_RATIO_DIVISOR
        };
        let by_ratio = self.screen_area as int / divisor as int;
        let capped = if by_ratio < self.screen_area { by_ratio } else { self.screen_area as int };
        if capped > MIN_DIRTY_AREA_THRESHOLD { capped } else { MIN_DIRTY_AREA_THRESHOLD as int }
    }

    /// Too many rectangles, or too much area, asks for a full redraw.
    pub open spec fn budgeted(self) -> OptView {
        if self.rects.len() >= MAX_DIRTY_RECTS || self.dirty_area > self.threshold() {
            self.full()
        } else {
            self
        }
    }

    /// The state after marking `(x, y, w, h)` dirty: ignored while
    /// optimisation is off, for an empty or off-screen rectangle, or while a
    /// full redraw is pending; otherwise merged into the first rectangle
    /// near it (or added), all rectangles coalesced, and the budget checked.
    pub open spec fn added(self, x: usize, y: usize, w: usize, h: usize) -> OptView {
        if !self.optimization_enabled || w == 0 || h == 0 || self.full_redraw_needed {
            self
        } else {
            match self.clamp(x, y, w, h) {
                None => self,
                Some(r) => if self.rects.len() >= MAX_DIRTY_RECTS {
                    self.full()
                } else {
                    let i = first_near(self.rects, r, 0);
                    let rs = if i < self.rects.len() {
                        self.rects.update(i, merged(self.rects[i], r))
                    } else {
                        self.rects.push(r)
                    };
                    let c = coalesced(rs);
                    (OptView { rects: c, dirty_area: area_of(c) as usize, ..self }).budgeted()
                },
            }
        }
    }
}

impl Optimizer {
    /// An optimizer that asks for a full first frame and does not know the
    /// screen yet.
    pub fn new() -> (o: Optimizer)
        ensures
            o@ == (OptView {
                rects: Seq::empty(),
                dirty_area: 0,
                full_redraw_needed: true,
                frame_counter: 0,
                optimization_enabled: true,
                low_memory_mode: false,
                low_mem_skip_counter: 0,
                full_redraw_streak: 0,
                frames_since_last_full_redraw: 0,
                screen_w: 0,
                screen_h: 0,
                screen_area: 1,
            }),
    {
        let o = Optimizer {
            dirty_rects: Vec::new(),
            dirty_area: 0,
            full_redraw_needed: true,
            frame_counter: 0,
            optimization_enabled: true,
            low_memory_mode: false,
            low_mem_skip_counter: 0,
            full_redraw_streak: 0,
            frames_since_last_full_redraw: 0,
            screen_w: 0,
            screen_h: 0,
            screen_area: 1,
        };
        proof {
            assert(o@.rects =~= Seq::<DirtyRect>::empty());
        }
        o
    }

    /// Takes the screen's size and starts over with a full redraw.
    pub fn init(&mut self, fb: &Framebuffer)
        ensures
            final(self)@ == (OptView {
                screen_w: fb.width,
                screen_h: fb.height,
                screen_area: {
                    let a = smul(fb.width as int, fb.height as int);
                    if a > 1 { a as usize } else { 1 }
                },
                full_redraw_needed: true,
                frame_counter: 0,
                low_mem_skip_counter: 0,
                full_redraw_streak: 0,
                frames_since_last_full_redraw: 0,
                ..old(self)@.cleared()
            }),
    {
        self.screen_w = fb.width;
        self.screen_h = fb.height;
        let a = match fb.width.checked_mul(fb.height) {
            Some(v) => v,
            None => usize::MAX,
        };
        self.screen_area = if a > 1 { a } else { 1 };
        self.full_redraw_needed = true;
        self.frame_counter = 0;
        self.low_mem_skip_counter = 0;
        self.full_redraw_streak = 0;
        self.frames_since_last_full_redraw = 0;
        self.clear_dirty_rects();
    }

    /// Starts a frame; returns whether to draw it. A frame is always drawn
    /// while optimisation is off or a full redraw is pending. Otherwise the
    /// frame counters advance, low-memory mode ends after
    /// `LOW_MEM_RECOVERY_FRAMES` frames without a full redraw, and in
    /// low-memory mode every other frame with nothing dirty is skipped.
    pub fn begin_frame(&mut self) -> (draw: bool)
        ensures
            !old(self)@.optimization_enabled || old(self)@.full_redraw_needed ==> draw && final(self)@
                == old(self)@,
            old(self)@.optimization_enabled && !old(self)@.full_redraw_needed ==> {
                let since = sadd(old(self)@.frames_since_last_full_redraw as int, 1);
                let low = old(self)@.low_memory_mode && since <= LOW_MEM_RECOVERY_FRAMES;
                let skip0 = if old(self)@.low_memory_mode && !low {
                    0
                } else {
                    old(self)@.low_mem_skip_counter as int
                };
                let skip = if low && old(self)@.rects.len() == 0 {
                    wrap_inc(skip0 as usize) as int
                } else {
                    0
                };
                &&& final(self)@ == (OptView {
                    frame_counter: wrap_inc(old(self)@.frame_counter),
                    frames_since_last_full_redraw: since as usize,
                    low_memory_mode: low,
                    low_mem_skip_counter: skip as usize,
                    ..old(self)@
                })
                &&& draw == !(low && old(self)@.rects.len() == 0 && skip % LOW_MEMORY_SKIP_DIV as int != 0)
            },
    {
        if !self.optimization_enabled {
            return true;
        }
        if self.full_redraw_needed {
            return true;
        }
        self.frame_counter = self.frame_counter.wrapping_add(1);
        self.frames_since_last_full_redraw = self.frames_since_last_full_redraw.saturating_add(1);
        if self.low_memory_mode && self.frames_since_last_full_redraw > LOW_MEM_RECOVERY_FRAMES {
            self.low_memory_mode = false;
            self.low_mem_skip_counter = 0;
        }
        if self.low_memory_mode && self.dirty_rects.len() == 0 {
            self.low_mem_skip_counter = self.low_mem_skip_counter.wrapping_add(1);
            if self.low_mem_skip_counter % LOW_MEMORY_SKIP_DIV != 0 {
                return false;
            }
        } else {
            self.low_mem_skip_counter = 0;
        }
        true
    }

    /// Ends a frame: the dirty rectangles are done with, unless a full
    /// redraw is pending (or optimisation is off).
    pub fn end_frame(&mut self)
        ensures
            final(self)@ == if old(self)@.optimization_enabled && !old(self)@.full_redraw_needed {
                old(self)@.cleared()
            } else {
                old(self)@
            },
    {
        if !self.optimization_enabled {
            return;
        }
        if !self.full_redraw_needed {
            self.clear_dirty_rects();
        }
    }

    /// Marks `(x, y, w, h)` as needing a redraw (see `added`).
    pub fn add_dirty_rect(&mut self, x: usize, y: usize, w: usize, h: usize)
        requires
            old(self)@.wf(),
        ensures
            final(self)@.wf(),
            final(self)@ == old(self)@.added(x, y, w, h),
    {
        if !self.optimization_enabled || w == 0 || h == 0 || self.full_redraw_needed {
            return;
        }
        let rect = match self.clamp_to_screen(x, y, w, h) {
            Some(r) => r,
            None => return,
        };
        if self.dirty_rects.len() >= MAX_DIRTY_RECTS {
            self.request_full_redraw();
            return;
        }
        let ghost rs0 = self.dirty_rects@;
        let mut i: usize = 0;
        while i < self.dirty_rects.len()
            invariant
                self@ == old(self)@,
                rs0 == self.dirty_rects@,
                rs0.len() < MAX_DIRTY_RECTS,
                i <= rs0.len(),
                first_near(rs0, rect, 0) == first_near(rs0, rect, i as int),
                old(self)@.optimization_enabled,
                w != 0 && h != 0,
                !old(self)@.full_redraw_needed,
                old(self)@.clamp(x, y, w, h) == Some(rect),
            decreases rs0.len() - i,
        {
            let mut existing = self.dirty_rects[i];
            if existing.intersects_or_nearby(&rect) {
                assert(first_near(rs0, rect, i as int) == i);
                existing.merge(&rect);
                self.dirty_rects.set(i, existing);
                self.coalesce_dirty_rects();
                self.recalc_dirty_area();
                self.check_dirty_budget();
                return;
            }
            i = i + 1;
        }
        self.dirty_rects.push(rect);
        self.coalesce_dirty_rects();
        self.recalc_dirty_area();
        self.check_dirty_budget();
    }

    /// Whether the next frame must be drawn in full.
    pub fn should_redraw_full(&self) -> (r: bool)
        ensures
            r == (self@.full_redraw_needed || !self@.optimization_enabled),
    {
        self.full_redraw_needed || !self.optimization_enabled
    }

    /// Records that the screen was drawn in full.
    pub fn mark_clean(&mut self)
        ensures
            final(self)@ == (OptView {
                full_redraw_needed: false,
                full_redraw_streak: 0,
                frames_since_last_full_redraw: 0,
                ..old(self)@.cleared()
            }),
    {
        self.full_redraw_needed = false;
        self.full_redraw_streak = 0;
        self.frames_since_last_full_redraw = 0;
        self.clear_dirty_rects();
    }

    /// Counts full redraws in a row (a frame without one counts one back);
    /// past `MAX_FULL_REDRAW_STREAK` it switches to low-memory mode, asks
    /// for a full redraw, starts counting again and returns `true`.
    pub fn prevent_hang(&mut self) -> (r: bool)
        ensures
            !old(self)@.optimization_enabled ==> !r && final(self)@ == old(self)@,
            old(self)@.optimization_enabled ==> {
                let streak = if old(self)@.full_redraw_needed {
                    sadd(old(self)@.full_redraw_streak as int, 1)
                } else {
                    ssub(old(self)@.full_redraw_streak as int, 1)
                };
                &&& r == (streak > MAX_FULL_REDRAW_STREAK)
                &&& final(self)@ == if r {
                    OptView { low_memory_mode: true, full_redraw_streak: 0, ..old(self)@.full() }
                } else {
                    OptView { full_redraw_streak: streak as usize, ..old(self)@ }
                }
            },
    {
        if !self.optimization_enabled {
            return false;
        }
        if self.full_redraw_needed {
            self.full_redraw_streak = self.full_redraw_streak.saturating_add(1);
        } else if self.full_redraw_streak > 0 {
            self.full_redraw_streak = self.full_redraw_streak - 1;
        }
        if self.full_redraw_streak > MAX_FULL_REDRAW_STREAK {
            self.low_memory_mode = true;
            self.request_full_redraw();
            self.full_redraw_streak = 0;
            return true;
        }
        false
    }

    /// Leaves low-memory mode and forgets the streak.
    pub fn reset_hang_protection(&mut self)
        ensures
            final(self)@ == (OptView {
                low_memory_mode: false,
                low_mem_skip_counter: 0,
                full_redraw_streak: 0,
                ..old(self)@
            }),
    {
        self.low_memory_mode = false;
        self.low_mem_skip_counter = 0;
        self.full_redraw_streak = 0;
    }

    /// Switches optimisation off (asking for full redraws) or on again
    /// (starting with a full redraw).
    pub fn toggle_optimization(&mut self)
        ensures
            final(self)@ == if old(self)@.optimization_enabled {
                OptView { optimization_enabled: false, ..old(self)@.full() }
            } else {
                OptView { optimization_enabled: true, full_redraw_needed: true, ..old(self)@ }
            },
    {
        self.optimization_enabled = !self.optimization_enabled;
        if !self.optimization_enabled {
            self.request_full_redraw();
        } else {
            self.full_redraw_needed = true;
        }
    }

    fn request_full_redraw(&mut self)
        ensures
            final(self)@ == old(self)@.full(),
    {
        self.full_redraw_needed = true;
        self.clear_dirty_rects();
    }

    fn clamp_to_screen(&self, x: usize, y: usize, w: usize, h: usize) -> (r: Option<DirtyRect>)
        ensures
            r == self@.clamp(x, y, w, h),
    {
        if self.screen_w == 0 || self.screen_h == 0 {
            return Some(DirtyRect::new(x, y, w, h));
        }
        if x >= self.screen_w || y >= self.screen_h {
            return None;
        }
        let ex = x.saturating_add(w);
        let ey = y.saturating_add(h);
        let end_x = if ex < self.screen_w { ex } else { self.screen_w };
        let end_y = if ey < self.screen_h { ey } else { self.screen_h };
        if end_x <= x || end_y <= y {
            return None;
        }
        Some(DirtyRect::new(x, y, end_x - x, end_y - y))
    }

    fn dirty_area_threshold(&self) -> (r: usize)
        ensures
            r == self@.threshold(),
    {
        let divisor = if self.low_memory_mode { LOW_MEM_DIRTY_RATIO_DIVISOR } else { DIRTY_RATIO_DIVISOR };
        let by_ratio = self.screen_area / divisor;
        let capped = if by_ratio < self.screen_area { by_ratio } else { self.screen_area };
        if capped > MIN_DIRTY_AREA_THRESHOLD { capped } else { MIN_DIRTY_AREA_THRESHOLD }
    }

    fn check_dirty_budget(&mut self)
        ensures
            final(self)@ == old(self)@.budgeted(),
    {
        if self.dirty_rects.len() >= MAX_DIRTY_RECTS {
            self.request_full_redraw();
            return;
        }
        if self.dirty_area > self.dirty_area_threshold() {
            self.request_full_redraw();
        }
    }

    fn coalesce_dirty_rects(&mut self)
        requires
            old(self)@.rects.len() <= MAX_DIRTY_RECTS,
        ensures
            final(self)@ == (OptView { rects: coalesced(old(self)@.rects), ..old(self)@ }),
            final(self)@.rects.len() <= old(self)@.rects.len(),
    {
        let n = self.dirty_rects.len();
        if n <= 1 {
            return;
        }
        let ghost s0 = self.dirty_rects@;
        let mut tmp: Vec<DirtyRect> = Vec::new();
        let mut k: usize = 0;
        while k < n
            invariant
                n == s0.len(),
                s0 == self.dirty_rects@,
                k <= n,
                tmp@ == s0.take(k as int),
            decreases n - k,
        {
            tmp.push(self.dirty_rects[k]);
            k = k + 1;
            proof {
                assert(tmp@ =~= s0.take(k as int));
            }
        }
        proof {
            assert(tmp@ =~= s0);
        }
        let mut i: usize = 0;
        while i < n
            invariant
                n == s0.len(),
                tmp@.len() == n,
                i <= n,
                sort_outer(s0, 0) == sort_outer(tmp@, i as int),
            decreases n - i,
        {
            let ghost before = tmp@;
            let mut j: usize = i + 1;
            while j < n
                invariant
                    n == s0.len(),
                    tmp@.len() == n,
                    i < n,
                    i + 1 <= j <= n,
                    sort_inner(before, i as int, i + 1) == sort_inner(tmp@, i as int, j as int),
                decreases n - j,
            {
                let a = tmp[i];
                let b = tmp[j];
                if a.x > b.x || (a.x == b.x && a.y > b.y) {
                    tmp.set(i, b);
                    tmp.set(j, a);
                }
                proof {
                    let s = if after(a, b) {
                        before
                    } else {
                        before
                    };
                }
                j = j + 1;
            }
            proof {
                assert(sort_inner(tmp@, i as int, n as int) == tmp@);
            }
            i = i + 1;
        }
        proof {
            assert(sort_outer(tmp@, n as int) == tmp@);
        }
        let ghost t = tmp@;
        let mut merged_rects: Vec<DirtyRect> = Vec::new();
        let mut m: usize = 0;
        while m < n
            invariant
                n == t.len(),
                t == tmp@,
                m <= n,
                merged_rects@ == merge_run(t, m as int),
            decreases n - m,
        {
            proof {
                lemma_merge_run_len(t, m as int);
            }
            let rect = tmp[m];
            let len = merged_rects.len();
            if len == 0 {
                merged_rects.push(rect);
            } else {
                let mut last = merged_rects[len - 1];
                if last.intersects_or_nearby(&rect) {
                    last.merge(&rect);
                    merged_rects.set(len - 1, last);
                } else {
                    merged_rects.push(rect);
                }
            }
            m = m + 1;
            proof {
                assert(merged_rects@ =~= merge_run(t, m as int));
            }
        }
        proof {
            lemma_merge_run_len(t, n as int);
            lemma_sort_outer_len(s0, 0);
        }
        self.dirty_rects = merged_rects;
    }

    fn recalc_dirty_area(&mut self)
        ensures
            final(self)@ == (OptView { dirty_area: area_of(old(self)@.rects) as usize, ..old(self)@ }),
    {
        let mut area: usize = 0;
        let mut i: usize = 0;
        while i < self.dirty_rects.len()
            invariant
                self@ == old(self)@,
                i <= self.dirty_rects@.len(),
                area == area_of(self.dirty_rects@.take(i as int)),
            decreases self.dirty_rects@.len() - i,
        {
            proof {
                assert(self.dirty_rects@.take(i + 1).drop_last() =~= self.dirty_rects@.take(i as int));
            }
            area = area.saturating_add(self.dirty_rects[i].area());
            i = i + 1;
        }
        proof {
            assert(self.dirty_rects@.take(self.dirty_rects@.len() as int) =~= self.dirty_rects@);
        }
        self.dirty_area = area;
    }

    fn clear_dirty_rects(&mut self)
        ensures
            final(self)@ == old(self)@.cleared(),
    {
        self.dirty_rects = Vec::new();
        self.dirty_area = 0;
        proof {
            assert(self@.rects =~= Seq::<DirtyRect>::empty());
        }
    }
}

/// `big` covers every pixel of `small` (far edges saturating).
pub open spec fn covers(big: DirtyRect, small: DirtyRect) -> bool {
    &&& big.x <= small.x
    &&& big.y <= small.y
    &&& sadd(small.x as int, small.w as int) <= sadd(big.x as int, big.w as int)
    &&& sadd(small.y as int, small.h as int) <= sadd(big.y as int, big.h as int)
}

/// Some rectangle of `s` covers `r`.
pub open spec fn covered(s: Seq<DirtyRect>, r: DirtyRect) -> bool {
    exists|i: int| 0 <= i < s.len() && covers(#[trigger] s[i], r)
}

proof fn lemma_first_near(s: Seq<DirtyRect>, r: DirtyRect, i: int)
    requires
        0 <= i <= s.len(),
    ensures
        i <= first_near(s, r, i) <= s.len(),
    decreases s.len() - i,
{
    if i < s.len() && !near(s[i], r) {
        lemma_first_near(s, r, i + 1);
    }
}

proof fn lemma_merged_covers(a: DirtyRect, b: DirtyRect)
    ensures
        covers(merged(a, b), a),
        covers(merged(a, b), b),
{
}

proof fn lemma_covers_trans(a: DirtyRect, b: DirtyRect, c: DirtyRect)
    requires
        covers(a, b),
        covers(b, c),
    ensures
        covers(a, c),
{
}

proof fn lemma_covers_self(a: DirtyRect)
    ensures
        covers(a, a),
{
}

proof fn lemma_sort_inner_keeps(s: Seq<DirtyRect>, i: int, j: int, r: DirtyRect)
    requires
        0 <= i < s.len(),
        s.contains(r),
    ensures
        sort_inner(s, i, j).contains(r),
    decreases s.len() - j,
{
    if !(j < 0 || j >= s.len()) {
        let s2 = if 0 <= i < s.len() && after(s[i], s[j]) {
            s.update(i, s[j]).update(j, s[i])
        } else {
            s
        };
        let k = choose|k: int| 0 <= k < s.len() && s[k] == r;
        if after(s[i], s[j]) {
            if k == i {
                assert(s2[j] == r);
            } else if k == j {
                assert(s2[i] == r);
            } else {
                assert(s2[k] == r);
            }
        }
        lemma_sort_inner_keeps(s2, i, j + 1, r);
    }
}

proof fn lemma_sort_outer_keeps(s: Seq<DirtyRect>, i: int, r: DirtyRect)
    requires
        s.contains(r),
    ensures
        sort_outer(s, i).contains(r),
    decreases s.len() - i,
{
    if !(i < 0 || i >= s.len()) {
        lemma_sort_inner_keeps(s, i, i + 1, r);
        lemma_sort_inner_len(s, i, i + 1);
        lemma_sort_outer_keeps(sort_inner(s, i, i + 1), i + 1, r);
    }
}

proof fn lemma_merge_run_covers(s: Seq<DirtyRect>, n: int, k: int)
    requires
        0 <= k < n <= s.len(),
    ensures
        covered(merge_run(s, n), s[k]),
    decreases n,
{
    let g = merge_run(s, n - 1);
    let r = s[n - 1];
    let out = merge_run(s, n);
    lemma_merge_run_len(s, n - 1);
    if k == n - 1 {
        if g.len() == 0 {
            lemma_covers_self(r);
            assert(covers(out[0], r));
        } else if near(g.last(), r) {
            lemma_merged_covers(g.last(), r);
            assert(covers(out[g.len() - 1], r));
        } else {
            lemma_covers_self(r);
            assert(covers(out[g.len() as int], r));
        }
    } else {
        lemma_merge_run_covers(s, n - 1, k);
        let p = choose|p: int| 0 <= p < g.len() && covers(#[trigger] g[p], s[k]);
        if g.len() > 0 && near(g.last(), r) && p == g.len() - 1 {
            lemma_merged_covers(g.last(), r);
            lemma_covers_trans(merged(g.last(), r), g.last(), s[k]);
            assert(covers(out[p], s[k]));
        } else {
            assert(out[p] == g[p]);
        }
    }
}

/// Coalescing loses nothing: every rectangle is covered by the result.
pub proof fn lemma_coalesced_covers(s: Seq<DirtyRect>, r: DirtyRect)
    requires
        s.contains(r),
    ensures
        covered(coalesced(s), r),
{
    if s.len() <= 1 {
        lemma_covers_self(r);
        let k = choose|k: int| 0 <= k < s.len() && s[k] == r;
        assert(covers(coalesced(s)[k], r));
    } else {
        let t = sort_outer(s, 0);
        lemma_sort_outer_keeps(s, 0, r);
        lemma_sort_outer_len(s, 0);
        let k = choose|k: int| 0 <= k < t.len() && t[k] == r;
        lemma_merge_run_covers(t, t.len() as int, k);
    }
}

/// Marking a rectangle dirty never loses a dirty pixel: afterwards either a
/// full redraw is pending, or every rectangle that was dirty and the new
/// one (cut to the screen) are covered by the dirty rectangles.
pub proof fn lemma_add_keeps_dirty(v: OptView, x: usize, y: usize, w: usize, h: usize)
    requires
        v.wf(),
    ensures
        v.added(x, y, w, h).full_redraw_needed || (forall|k: int|
            0 <= k < v.rects.len() ==> covered(v.added(x, y, w, h).rects, #[trigger] v.rects[k])),
        v.optimization_enabled && w != 0 && h != 0 && !v.added(x, y, w, h).full_redraw_needed ==> (v.clamp(
            x,
            y,
            w,
            h,
        ) matches Some(r) ==> covered(v.added(x, y, w, h).rects, r)),
{
    if v.optimization_enabled && w != 0 && h != 0 && !v.full_redraw_needed {
        match v.clamp(x, y, w, h) {
            None => {
                assert forall|k: int| 0 <= k < v.rects.len() implies covered(
                    v.added(x, y, w, h).rects,
                    #[trigger] v.rects[k],
                ) by {
                    lemma_covers_self(v.rects[k]);
                    assert(covers(v.rects[k], v.rects[k]));
                }
            },
            Some(r) => {
                if v.rects.len() < MAX_DIRTY_RECTS {
                    lemma_first_near(v.rects, r, 0);
                    let i = first_near(v.rects, r, 0);
                    let rs = if i < v.rects.len() {
                        v.rects.update(i, merged(v.rects[i], r))
                    } else {
                        v.rects.push(r)
                    };
                    let c = coalesced(rs);
                    let a = v.added(x, y, w, h);
                    if !a.full_redraw_needed {
                        assert(a.rects == c);
                        assert forall|k: int| 0 <= k < v.rects.len() implies covered(
                            a.rects,
                            #[trigger] v.rects[k],
                        ) by {
                            if i < v.rects.len() && k == i {
                                lemma_merged_covers(v.rects[i], r);
                                assert(rs[i] == merged(v.rects[i], r));
                                assert(rs.contains(rs[i]));
                                lemma_coalesced_covers(rs, rs[i]);
                                let p = choose|p: int| 0 <= p < c.len() && covers(#[trigger] c[p], rs[i]);
                                lemma_covers_trans(c[p], rs[i], v.rects[k]);
                            } else {
                                assert(rs[k] == v.rects[k]);
                                assert(rs.contains(rs[k]));
                                lemma_coalesced_covers(rs, v.rects[k]);
                            }
                        }
                        if i < v.rects.len() {
                            lemma_merged_covers(v.rects[i], r);
                            assert(rs.contains(rs[i]));
                            lemma_coalesced_covers(rs, rs[i]);
                            let p = choose|p: int| 0 <= p < c.len() && covers(#[trigger] c[p], rs[i]);
                            lemma_covers_trans(c[p], rs[i], r);
                        } else {
                            assert(rs[rs.len() - 1] == r);
                            assert(rs.contains(r));
                            lemma_coalesced_covers(rs, r);
                        }
                    }
                }
            },
        }
    } else {
        assert forall|k: int| 0 <= k < v.rects.len() implies covered(
            v.added(x, y, w, h).rects,
            #[trigger] v.rects[k],
        ) by {
            lemma_covers_self(v.rects[k]);
            assert(covers(v.rects[k], v.rects[k]));
        }
    }
}

/// Every rectangle of `s` lies on a `w * h` screen.
pub open spec fn all_on_screen(s: Seq<DirtyRect>, w: int, h: int) -> bool {
    forall|i: int| 0 <= i < s.len() ==> #[trigger] s[i].x + s[i].w <= w && s[i].y + s[i].h <= h
}

impl OptView {
    /// The bookkeeping agrees with the rectangles: once the screen is known
    /// every rectangle lies on it, the dirty area is the sum of their areas,
    /// and while optimising without a full redraw pending the area is within
    /// the budget.
    pub open spec fn consistent(self) -> bool {
        &&& self.screen_w > 0 && self.screen_h > 0 ==> all_on_screen(
            self.rects,
            self.screen_w as int,
            self.screen_h as int,
        )
        &&& self.dirty_area == area_of(self.rects)
        &&& self.optimization_enabled && !self.full_redraw_needed ==> self.dirty_area <= self.threshold()
    }
}

proof fn lemma_area_range(s: Seq<DirtyRect>)
    ensures
        0 <= area_of(s) <= usize::MAX,
    decreases s.len(),
{
    if s.len() > 0 {
        lemma_area_range(s.drop_last());
        let a = s.last().w as int;
        let b = s.last().h as int;
        assert(0 <= a * b) by (nonlinear_arith)
            requires
                0 <= a,
                0 <= b,
        ;
    }
}

proof fn lemma_sort_inner_on_screen(s: Seq<DirtyRect>, i: int, j: int, w: int, h: int)
    requires
        all_on_screen(s, w, h),
    ensures
        all_on_screen(sort_inner(s, i, j), w, h),
    decreases s.len() - j,
{
    if !(j < 0 || j >= s.len()) {
        let s2 = if 0 <= i < s.len() && after(s[i], s[j]) {
            s.update(i, s[j]).update(j, s[i])
        } else {
            s
        };
        assert(all_on_screen(s2, w, h)) by {
            assert forall|k: int| 0 <= k < s2.len() implies #[trigger] s2[k].x + s2[k].w <= w && s2[k].y
                + s2[k].h <= h by {
                if 0 <= i < s.len() && after(s[i], s[j]) {
                    if k == j {
                        assert(s2[k] == s[i]);
                    } else if k == i {
                        assert(s2[k] == s[j]);
                    } else {
                        assert(s2[k] == s[k]);
                    }
                }
            }
        }
        lemma_sort_inner_on_screen(s2, i, j + 1, w, h);
    }
}

proof fn lemma_sort_outer_on_screen(s: Seq<DirtyRect>, i: int, w: int, h: int)
    requires
        all_on_screen(s, w, h),
    ensures
        all_on_screen(sort_outer(s, i), w, h),
    decreases s.len() - i,
{
    if !(i < 0 || i >= s.len()) {
        lemma_sort_inner_on_screen(s, i, i + 1, w, h);
        lemma_sort_inner_len(s, i, i + 1);
        lemma_sort_outer_on_screen(sort_inner(s, i, i + 1), i + 1, w, h);
    }
}

proof fn lemma_merged_on_screen(a: DirtyRect, b: DirtyRect, w: int, h: int)
    requires
        w <= usize::MAX,
        h <= usize::MAX,
        a.x + a.w <= w && a.y + a.h <= h,
        b.x + b.w <= w && b.y + b.h <= h,
    ensures
        merged(a, b).x + merged(a, b).w <= w,
        merged(a, b).y + merged(a, b).h <= h,
{
}

proof fn lemma_merge_run_on_screen(s: Seq<DirtyRect>, n: int, w: int, h: int)
    requires
        0 <= n <= s.len(),
        w <= usize::MAX,
        h <= usize::MAX,
        all_on_screen(s, w, h),
    ensures
        all_on_screen(merge_run(s, n), w, h),
    decreases n,
{
    if n > 0 {
        lemma_merge_run_on_screen(s, n - 1, w, h);
        let g = merge_run(s, n - 1);
        let r = s[n - 1];
        let out = merge_run(s, n);
        assert(r.x + r.w <= w && r.y + r.h <= h);
        if g.len() > 0 {
            assert(g.last().x + g.last().w <= w && g.last().y + g.last().h <= h);
        }
        if g.len() > 0 && near(g.last(), r) {
            lemma_merged_on_screen(g.last(), r, w, h);
        }
        assert forall|k: int| 0 <= k < out.len() implies #[trigger] out[k].x + out[k].w <= w && out[k].y
            + out[k].h <= h by {
            if g.len() == 0 {
                assert(out[k] == r);
            } else if near(g.last(), r) {
                if k == g.len() - 1 {
                    assert(out[k] == merged(g.last(), r));
                } else {
                    assert(out[k] == g[k]);
                }
            } else if k < g.len() {
                assert(out[k] == g[k]);
            } else {
                assert(out[k] == r);
            }
        }
    }
}

/// The dirty-rectangle bookkeeping survives marking a rectangle dirty:
/// starting from a known screen and consistent state (see `consistent`),
/// the state afterwards is consistent again; so either a full redraw is
/// due (or optimising is off), or the dirty area is within the budget; and
/// no dirty pixel is lost (see `lemma_add_keeps_dirty`).
pub proof fn lemma_add_keeps_consistent(v: OptView, x: usize, y: usize, w: usize, h: usize)
    requires
        v.wf(),
        v.screen_w > 0,
        v.screen_h > 0,
        v.consistent(),
    ensures
        v.added(x, y, w, h).consistent(),
        v.added(x, y, w, h).wf(),
        v.added(x, y, w, h).full_redraw_needed || !v.added(x, y, w, h).optimization_enabled
            || v.added(x, y, w, h).dirty_area <= v.added(x, y, w, h).threshold(),
{
    let a = v.added(x, y, w, h);
    if v.optimization_enabled && w != 0 && h != 0 && !v.full_redraw_needed {
        if let Some(r) = v.clamp(x, y, w, h) {
            if v.rects.len() < MAX_DIRTY_RECTS {
                let sw = v.screen_w as int;
                let sh = v.screen_h as int;
                lemma_first_near(v.rects, r, 0);
                let i = first_near(v.rects, r, 0);
                let rs = if i < v.rects.len() {
                    v.rects.update(i, merged(v.rects[i], r))
                } else {
                    v.rects.push(r)
                };
                assert(r.x + r.w <= sw && r.y + r.h <= sh);
                if i < v.rects.len() {
                    lemma_merged_on_screen(v.rects[i], r, sw, sh);
                }
                assert(all_on_screen(rs, sw, sh)) by {
                    assert forall|k: int| 0 <= k < rs.len() implies #[trigger] rs[k].x + rs[k].w <= sw
                        && rs[k].y + rs[k].h <= sh by {
                        if i < v.rects.len() && k == i {
                        } else if k < v.rects.len() {
                            assert(rs[k] == v.rects[k]);
                        }
                    }
                }
                let c = coalesced(rs);
                if rs.len() > 1 {
                    let t = sort_outer(rs, 0);
                    lemma_sort_outer_on_screen(rs, 0, sw, sh);
                    lemma_sort_outer_len(rs, 0);
                    lemma_merge_run_on_screen(t, t.len() as int, sw, sh);
                    lemma_merge_run_len(t, t.len() as int);
                }
                assert(all_on_screen(c, sw, sh));
                lemma_area_range(c);
                assert(area_of(Seq::<DirtyRect>::empty()) == 0);
            }
        }
    }
    assert(area_of(Seq::<DirtyRect>::empty()) == 0);
}

/// Whether pixel `(px, py)` lies in `r`.
pub open spec fn holds_pixel(r: DirtyRect, px: int, py: int) -> bool {
    r.x <= px < r.x + r.w && r.y <= py < r.y + r.h
}

proof fn lemma_covers_pixel(big: DirtyRect, small: DirtyRect, px: int, py: int, w: int, h: int)
    requires
        covers(big, small),
        holds_pixel(small, px, py),
        w <= usize::MAX,
        h <= usize::MAX,
        small.x + small.w <= w && small.y + small.h <= h,
        big.x + big.w <= w && big.y + big.h <= h,
    ensures
        holds_pixel(big, px, py),
{
}

/// Marking a rectangle dirty, on a screen of known size with consistent
/// bookkeeping, keeps the bookkeeping consistent; and unless a full redraw
/// is due (or optimising is off), every pixel of the rectangles that were
/// dirty and of the new one cut to the screen lies in some dirty rectangle,
/// and the dirty area is within the budget.
pub proof fn lemma_add_dirty_law(v: OptView, x: usize, y: usize, w: usize, h: usize)
    requires
        v.wf(),
        v.screen_w > 0,
        v.screen_h > 0,
        v.consistent(),
    ensures
        v.added(x, y, w, h).consistent(),
        v.added(x, y, w, h).full_redraw_needed || !v.added(x, y, w, h).optimization_enabled || {
            let a = v.added(x, y, w, h);
            &&& a.dirty_area <= a.threshold()
            &&& forall|k: int, px: int, py: int|
                0 <= k < v.rects.len() && #[trigger] holds_pixel(v.rects[k], px, py) ==> exists|j: int|
                    0 <= j < a.rects.len() && #[trigger] holds_pixel(a.rects[j], px, py)
            &&& v.clamp(x, y, w, h) matches Some(r) ==> forall|px: int, py: int|
                #[trigger] holds_pixel(r, px, py) ==> exists|j: int|
                    0 <= j < a.rects.len() && #[trigger] holds_pixel(a.rects[j], px, py)
        },
{
    lemma_add_keeps_consistent(v, x, y, w, h);
    lemma_add_keeps_dirty(v, x, y, w, h);
    let a = v.added(x, y, w, h);
    let sw = v.screen_w as int;
    let sh = v.screen_h as int;
    if !a.full_redraw_needed && a.optimization_enabled {
        assert(a.screen_w == v.screen_w && a.screen_h == v.screen_h);
        assert forall|k: int, px: int, py: int|
            0 <= k < v.rects.len() && #[trigger] holds_pixel(v.rects[k], px, py) implies exists|j: int|
                0 <= j < a.rects.len() && #[trigger] holds_pixel(a.rects[j], px, py) by {
            let j = choose|j: int| 0 <= j < a.rects.len() && covers(#[trigger] a.rects[j], v.rects[k]);
            assert(v.rects[k].x + v.rects[k].w <= sw && v.rects[k].y + v.rects[k].h <= sh);
            assert(a.rects[j].x + a.rects[j].w <= sw && a.rects[j].y + a.rects[j].h <= sh);
            lemma_covers_pixel(a.rects[j], v.rects[k], px, py, sw, sh);
        }
        if let Some(r) = v.clamp(x, y, w, h) {
            assert forall|px: int, py: int| #[trigger] holds_pixel(r, px, py) implies exists|j: int|
                0 <= j < a.rects.len() && #[trigger] holds_pixel(a.rects[j], px, py) by {
                assert(w != 0 && h != 0);
                let j = choose|j: int| 0 <= j < a.rects.len() && covers(#[trigger] a.rects[j], r);
                assert(r.x + r.w <= sw && r.y + r.h <= sh);
                assert(a.rects[j].x + a.rects[j].w <= sw && a.rects[j].y + a.rects[j].h <= sh);
                lemma_covers_pixel(a.rects[j], r, px, py, sw, sh);
            }
        }
    }
}

} // verus!
