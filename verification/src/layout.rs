use vstd::prelude::*;
use crate::vec2::Vec2;

verus! {

/// Coordinates, extents and child counts all stay within this bound, so
/// every sum the engine forms fits comfortably in an `i32`. Occupied
/// extents and positions saturate here instead of growing past it.
pub const GRID_LIMIT: i32 = 0x2000_0000;

/// The direction in which a region stacks its contents.
#[derive(Clone, Copy, Debug, PartialEq, Eq, Structural)]
pub enum LayoutKind {
    Vert,
    Horz,
}

/// One rectangular region: where it starts, how much of it is already
/// occupied, how much space it may use in total, and the closed child
/// regions attached so far, in screen order.
pub struct Layout {
    pub kind: LayoutKind,
    pub pos: Vec2,
    pub size: Vec2,
    pub max_size: Vec2,
    pub children: Vec<Layout>,
}

/// What a frame asks the terminal to paint; the engine only computes
/// these, a thin outer loop replays them.
pub enum DrawCmd {
    /// Write `text` starting at cell `pos`.
    Text { pos: Vec2, text: Vec<char> },
    /// Like `Text`, under a colour pair and an optional attribute.
    TextStyled { pos: Vec2, text: Vec<char>, color_pair: i16, style: Option<u32> },
    /// A single reverse-video cell at `pos` showing `ch`.
    Cursor { pos: Vec2, ch: char },
}

/// The builder: the stack of currently open regions, innermost last, and
/// the draw commands of the frame so far.
pub struct UI {
    pub stack: Vec<Layout>,
    pub cmds: Vec<DrawCmd>,
}

pub open spec fn min_i(a: int, b: int) -> int {
    if a < b {
        a
    } else {
        b
    }
}

pub open spec fn max_i(a: int, b: int) -> int {
    if a > b {
        a
    } else {
        b
    }
}

pub open spec fn sat_limit(v: int) -> int {
    if v > GRID_LIMIT {
        GRID_LIMIT as int
    } else {
        v
    }
}

/// The component of `v` along the stacking axis of `k`.
pub open spec fn axis_val(k: LayoutKind, v: Vec2) -> int {
    match k {
        LayoutKind::Horz => v.x as int,
        LayoutKind::Vert => v.y as int,
    }
}

/// The even-split share along x: remaining width divided among the
/// current children and the one about to be added.
pub open spec fn share_x(n: Layout) -> int {
    match n.kind {
        LayoutKind::Horz => n.max_size.x as int / (n.children@.len() + 1) as int,
        LayoutKind::Vert => n.max_size.x as int,
    }
}

/// The even-split share along y.
pub open spec fn share_y(n: Layout) -> int {
    match n.kind {
        LayoutKind::Horz => n.max_size.y as int,
        LayoutKind::Vert => n.max_size.y as int / (n.children@.len() + 1) as int,
    }
}

/// The division remainder along x, folded into the next child's share.
pub open spec fn rem_x(n: Layout) -> int {
    match n.kind {
        LayoutKind::Horz => n.max_size.x as int % (n.children@.len() + 1) as int,
        LayoutKind::Vert => 0,
    }
}

/// The division remainder along y.
pub open spec fn rem_y(n: Layout) -> int {
    match n.kind {
        LayoutKind::Horz => 0,
        LayoutKind::Vert => n.max_size.y as int % (n.children@.len() + 1) as int,
    }
}

/// The capacity a child opened now would receive: its share plus the
/// remainder, so splits are never lossy in total.
pub open spec fn open_cap_x(n: Layout) -> int {
    share_x(n) + rem_x(n)
}

pub open spec fn open_cap_y(n: Layout) -> int {
    share_y(n) + rem_y(n)
}

/// Where the next widget or child of `n` goes: horizontal regions pack
/// side by side, clamped to the share; vertical regions stack rows.
pub open spec fn avail_x(n: Layout) -> int {
    match n.kind {
        LayoutKind::Horz => sat_limit(n.pos.x + min_i(n.size.x as int, share_x(n))),
        LayoutKind::Vert => n.pos.x as int,
    }
}

pub open spec fn avail_y(n: Layout) -> int {
    match n.kind {
        LayoutKind::Horz => n.pos.y as int,
        LayoutKind::Vert => sat_limit(n.pos.y + n.size.y),
    }
}

/// Occupied extent along x after a widget of width `wx`: sum on the main
/// axis, running maximum on the cross axis.
pub open spec fn occ_x_after(k: LayoutKind, sx: int, wx: int) -> int {
    match k {
        LayoutKind::Horz => sat_limit(sx + wx),
        LayoutKind::Vert => max_i(sx, wx),
    }
}

pub open spec fn occ_y_after(k: LayoutKind, sy: int, wy: int) -> int {
    match k {
        LayoutKind::Horz => max_i(sy, wy),
        LayoutKind::Vert => sat_limit(sy + wy),
    }
}

/// `t` cut or right-padded with spaces to exactly `w` cells.
pub open spec fn padded(t: Seq<char>, w: nat) -> Seq<char> {
    Seq::new(
        w,
        |i: int|
            if i < t.len() {
                t[i]
            } else {
                ' '
            },
    )
}

pub open spec fn spaces(w: nat) -> Seq<char> {
    Seq::new(w, |i: int| ' ')
}

pub open spec fn rule_line(w: nat) -> Seq<char> {
    Seq::new(w, |i: int| '-')
}

/// Sum of the children's allocated capacity along the axis of `k`.
pub open spec fn caps_sum(k: LayoutKind, cs: Seq<Layout>) -> int
    decreases cs.len(),
{
    if cs.len() == 0 {
        0
    } else {
        caps_sum(k, cs.drop_last()) + axis_val(k, cs.last().max_size)
    }
}

impl Layout {
    pub open spec fn bounds_ok(self) -> bool {
        &&& 0 <= self.pos.x <= GRID_LIMIT
        &&& 0 <= self.pos.y <= GRID_LIMIT
        &&& 0 <= self.size.x <= GRID_LIMIT
        &&& 0 <= self.size.y <= GRID_LIMIT
        &&& 0 <= self.max_size.x <= GRID_LIMIT
        &&& 0 <= self.max_size.y <= GRID_LIMIT
        &&& self.children@.len() <= GRID_LIMIT
    }

    /// Every region of the tree keeps its numbers within the grid bound.
    pub open spec fn wf(self) -> bool
        decreases self,
    {
        &&& self.bounds_ok()
        &&& forall|i: int|
            0 <= i < self.children@.len() ==> (#[trigger] self.children@[i]).wf()
    }

    /// The even-split guarantee: what the children have been allocated
    /// along this region's axis never exceeds its own capacity.
    pub open spec fn even_split_ok(self) -> bool {
        caps_sum(self.kind, self.children@) <= axis_val(self.kind, self.max_size)
    }

    pub fn new(kind: LayoutKind, pos: Vec2, max_size: Vec2) -> (r: Self)
        requires
            0 <= pos.x <= GRID_LIMIT,
            0 <= pos.y <= GRID_LIMIT,
            0 <= max_size.x <= GRID_LIMIT,
            0 <= max_size.y <= GRID_LIMIT,
        ensures
            r.kind == kind,
            r.pos == pos,
            r.max_size == max_size,
            r.size.x == 0,
            r.size.y == 0,
            r.children@.len() == 0,
            r.wf(),
            r.even_split_ok(),
    {
        Self { kind, pos, max_size, size: Vec2::new(0, 0), children: Vec::new() }
    }

    /// The share and remainder the next child would receive.
    pub fn available_size(&self) -> (r: (Vec2, Vec2))
        requires
            self.bounds_ok(),
        ensures
            r.0.x == share_x(*self),
            r.0.y == share_y(*self),
            r.1.x == rem_x(*self),
            r.1.y == rem_y(*self),
    {
        let div = self.children.len() as i32 + 1;
        proof {
            crate::vec2::lemma_trunc_matches_euclid(self.max_size.x as int, div as int);
            crate::vec2::lemma_trunc_matches_euclid(self.max_size.y as int, div as int);
            crate::vec2::lemma_trunc_matches_euclid(self.max_size.x as int, 1);
            crate::vec2::lemma_trunc_matches_euclid(self.max_size.y as int, 1);
        }
        match self.kind {
            LayoutKind::Horz => self.max_size.div_rem(Vec2::new(div, 1)),
            LayoutKind::Vert => self.max_size.div_rem(Vec2::new(1, div)),
        }
    }

    /// The next free position of this region.
    pub fn available_pos(&self) -> (r: Vec2)
        requires
            self.bounds_ok(),
        ensures
            r.x == avail_x(*self),
            r.y == avail_y(*self),
    {
        let (share, _rem) = self.available_size();
        match self.kind {
            LayoutKind::Horz => {
                let m = if self.size.x < share.x {
                    self.size.x
                } else {
                    share.x
                };
                let x = self.pos.x + m;
                let x = if x > GRID_LIMIT {
                    GRID_LIMIT
                } else {
                    x
                };
                Vec2::new(x, self.pos.y)
            },
            LayoutKind::Vert => {
                let y = self.pos.y + self.size.y;
                let y = if y > GRID_LIMIT {
                    GRID_LIMIT
                } else {
                    y
                };
                Vec2::new(self.pos.x, y)
            },
        }
    }

    /// Advance the occupied extent by one widget of the given size.
    fn add_widget(&mut self, size: Vec2)
        requires
            old(self).bounds_ok(),
            0 <= size.x <= GRID_LIMIT,
            0 <= size.y <= GRID_LIMIT,
        ensures
            final(self).kind == old(self).kind,
            final(self).pos == old(self).pos,
            final(self).max_size == old(self).max_size,
            final(self).children == old(self).children,
            final(self).size.x == occ_x_after(old(self).kind, old(self).size.x as int, size.x as int),
            final(self).size.y == occ_y_after(old(self).kind, old(self).size.y as int, size.y as int),
            final(self).bounds_ok(),
    {
        match self.kind {
            LayoutKind::Horz => {
                let s = self.size.x + size.x;
                self.size.x = if s > GRID_LIMIT {
                    GRID_LIMIT
                } else {
                    s
                };
                if size.y > self.size.y {
                    self.size.y = size.y;
                }
            },
            LayoutKind::Vert => {
                let s = self.size.y + size.y;
                self.size.y = if s > GRID_LIMIT {
                    GRID_LIMIT
                } else {
                    s
                };
                if size.x > self.size.x {
                    self.size.x = size.x;
                }
            },
        }
    }
}

/// A region resized to capacity `size`: the occupied main-axis extent is
/// clamped to the old child share, and every child is rebuilt with that
/// share, recursively, so all descendants reflect the latest division.
/// The quotient and remainder of an even split are non-negative and
/// together never exceed what was divided.
proof fn lemma_share_bounds(m: int, d: int)
    requires
        0 <= m,
        1 <= d,
    ensures
        0 <= m / d,
        0 <= m % d,
        m / d + m % d <= m,
{
    vstd::arithmetic::div_mod::lemma_fundamental_div_mod(m, d);
    vstd::arithmetic::div_mod::lemma_mod_bound(m, d);
    assert(0 <= m / d && m / d + m % d <= m) by (nonlinear_arith)
        requires
            m == d * (m / d) + (m % d),
            0 <= m % d < d,
            1 <= d,
            0 <= m,
    ;
}

/// What the occupied x extent of `n` becomes when it is re-sized to a
/// capacity of `cx` columns: the main axis is clamped to the old child
/// share, and both axes are clamped to the new capacity, so occupied
/// never exceeds capacity after a resize.
pub open spec fn resized_occ_x(n: Layout, cx: int) -> int {
    let clamped = match n.kind {
        LayoutKind::Horz => min_i(n.size.x as int, share_x(n)),
        LayoutKind::Vert => n.size.x as int,
    };
    min_i(clamped, cx)
}

pub open spec fn resized_occ_y(n: Layout, cy: int) -> int {
    let clamped = match n.kind {
        LayoutKind::Horz => n.size.y as int,
        LayoutKind::Vert => min_i(n.size.y as int, share_y(n)),
    };
    min_i(clamped, cy)
}

/// `r` is `n` re-sized to the capacity `(cx, cy)`: same kind and origin,
/// the occupied extents clamped as `resized_occ_*` say, and every child
/// re-sized in turn to `n`'s recomputed even share — the new division
/// propagates through the whole subtree.
pub open spec fn is_resized(n: Layout, cx: int, cy: int, r: Layout) -> bool
    decreases n,
{
    &&& r.kind == n.kind
    &&& r.pos == n.pos
    &&& r.max_size.x == cx
    &&& r.max_size.y == cy
    &&& r.size.x == resized_occ_x(n, cx)
    &&& r.size.y == resized_occ_y(n, cy)
    &&& r.children@.len() == n.children@.len()
    &&& forall|i: int|
        0 <= i < n.children@.len() ==> is_resized(
            n.children@[i],
            share_x(n),
            share_y(n),
            #[trigger] r.children@[i],
        )
}

/// How many rows `end_layout` blanks when it attaches `c` to `p`: the
/// previous sibling's re-sized occupied rows that `c` does not cover.
/// Nothing is blanked when `c` is the first child or nothing shrank.
pub open spec fn blank_rows(p: Layout, c: Layout) -> int {
    if p.children@.len() == 0 {
        0
    } else {
        let prev_y = resized_occ_y(p.children@.last(), share_y(p));
        if prev_y > c.size.y {
            prev_y - c.size.y
        } else {
            0
        }
    }
}

fn resized(node: &Layout, size: Vec2) -> (r: Layout)
    requires
        node.wf(),
        0 <= size.x <= GRID_LIMIT,
        0 <= size.y <= GRID_LIMIT,
    ensures
        r.wf(),
        is_resized(*node, size.x as int, size.y as int, r),
        r.size.x <= r.max_size.x,
        r.size.y <= r.max_size.y,
    decreases *node,
{
    let (share, _rem) = node.available_size();
    proof {
        lemma_share_bounds(node.max_size.x as int, node.children@.len() as int + 1);
        lemma_share_bounds(node.max_size.y as int, node.children@.len() as int + 1);
    }
    let mut occ = node.size;
    match node.kind {
        LayoutKind::Horz => {
            if occ.x > share.x {
                occ.x = share.x;
            }
        },
        LayoutKind::Vert => {
            if occ.y > share.y {
                occ.y = share.y;
            }
        },
    }
    if occ.x > size.x {
        occ.x = size.x;
    }
    if occ.y > size.y {
        occ.y = size.y;
    }
    let mut done: Vec<Layout> = Vec::new();
    let n = node.children.len();
    let mut k: usize = 0;
    while k < n
        invariant
            node.wf(),
            n == node.children@.len(),
            0 <= share.x <= GRID_LIMIT,
            0 <= share.y <= GRID_LIMIT,
            share.x == share_x(*node),
            share.y == share_y(*node),
            k <= n,
            done@.len() == k,
            forall|i: int|
                0 <= i < k ==> (#[trigger] done@[i]).wf() && is_resized(
                    node.children@[i],
                    share_x(*node),
                    share_y(*node),
                    done@[i],
                ),
        decreases n - k,
    {
        let c = &node.children[k];
        proof {
            assert(node.children@[k as int].wf());
            assert(decreases_to!(*node => node.children));
            assert(decreases_to!(node.children => node.children@[k as int]));
        }
        let c2 = resized(c, share);
        done.push(c2);
        k = k + 1;
    }
    Layout { kind: node.kind, pos: node.pos, size: occ, max_size: size, children: done }
}

proof fn lemma_caps_sum_uniform(k: LayoutKind, cs: Seq<Layout>, v: int)
    requires
        forall|i: int| 0 <= i < cs.len() ==> axis_val(k, (#[trigger] cs[i]).max_size) == v,
    ensures
        caps_sum(k, cs) == cs.len() * v,
    decreases cs.len(),
{
    if cs.len() > 0 {
        lemma_caps_sum_uniform(k, cs.drop_last(), v);
        assert(axis_val(k, cs.last().max_size) == v);
        assert((cs.len() - 1) * v + v == cs.len() * v) by (nonlinear_arith);
    }
}

impl UI {
    pub open spec fn top(self) -> Layout {
        self.stack@.last()
    }

    /// Every open region is well formed and keeps the even-split
    /// guarantee, and each one sits inside its parent with exactly the
    /// capacity the parent's split granted when it was opened.
    pub open spec fn wf(self) -> bool {
        &&& forall|i: int| 0 <= i < self.stack@.len() ==> (#[trigger] self.stack@[i]).wf()
        &&& forall|i: int|
            0 <= i < self.stack@.len() ==> (#[trigger] self.stack@[i]).even_split_ok()
        &&& forall|i: int|
            1 <= i < self.stack@.len() ==> (#[trigger] self.stack@[i]).max_size.x == open_cap_x(
                self.stack@[i - 1],
            ) && self.stack@[i].max_size.y == open_cap_y(self.stack@[i - 1])
    }

    /// Open regions other than the innermost are untouched.
    pub open spec fn below_top_same(a: UI, b: UI) -> bool {
        &&& b.stack@.len() == a.stack@.len()
        &&& forall|i: int| 0 <= i < a.stack@.len() - 1 ==> b.stack@[i] == a.stack@[i]
    }

    /// The innermost region advanced by one widget of the given size and
    /// changed in no other way.
    pub open spec fn top_after_widget(a: UI, b: UI, wx: int, wy: int) -> bool {
        &&& Self::below_top_same(a, b)
        &&& b.top().kind == a.top().kind
        &&& b.top().pos == a.top().pos
        &&& b.top().max_size == a.top().max_size
        &&& b.top().children == a.top().children
        &&& b.top().size.x == occ_x_after(a.top().kind, a.top().size.x as int, wx)
        &&& b.top().size.y == occ_y_after(a.top().kind, a.top().size.y as int, wy)
    }

    pub fn new() -> (r: Self)
        ensures
            r.wf(),
            r.stack@.len() == 0,
            r.cmds@.len() == 0,
    {
        Self { stack: Vec::new(), cmds: Vec::new() }
    }

    /// Open the root region. Calling this with a region still open is a
    /// caller bug, ruled out up front.
    pub fn begin(&mut self, pos: Vec2, kind: LayoutKind, max_size: Vec2)
        requires
            old(self).stack@.len() == 0,
            0 <= pos.x <= GRID_LIMIT,
            0 <= pos.y <= GRID_LIMIT,
            0 <= max_size.x <= GRID_LIMIT,
            0 <= max_size.y <= GRID_LIMIT,
        ensures
            final(self).wf(),
            final(self).stack@.len() == 1,
            final(self).cmds == old(self).cmds,
            final(self).top().kind == kind,
            final(self).top().pos == pos,
            final(self).top().max_size == max_size,
            final(self).top().size.x == 0,
            final(self).top().size.y == 0,
            final(self).top().children@.len() == 0,
    {
        let root = Layout::new(kind, pos, max_size);
        self.stack.push(root);
    }

    /// Open a child region inside the innermost one; it receives the
    /// even-split capacity, remainder folded in, and starts at the
    /// parent's next free position.
    pub fn begin_layout(&mut self, kind: LayoutKind)
        requires
            old(self).wf(),
            old(self).stack@.len() >= 1,
        ensures
            final(self).wf(),
            final(self).stack@.len() == old(self).stack@.len() + 1,
            forall|i: int|
                0 <= i < old(self).stack@.len() ==> final(self).stack@[i] == old(self).stack@[i],
            final(self).cmds == old(self).cmds,
            final(self).top().kind == kind,
            final(self).top().pos.x == avail_x(old(self).top()),
            final(self).top().pos.y == avail_y(old(self).top()),
            final(self).top().max_size.x == open_cap_x(old(self).top()),
            final(self).top().max_size.y == open_cap_y(old(self).top()),
            final(self).top().size.x == 0,
            final(self).top().size.y == 0,
            final(self).top().children@.len() == 0,
    {
        let n = self.stack.len();
        let parent = &self.stack[n - 1];
        let (share, rem) = parent.available_size();
        proof {
            lemma_share_bounds(parent.max_size.x as int, parent.children@.len() as int + 1);
            lemma_share_bounds(parent.max_size.y as int, parent.children@.len() as int + 1);
        }
        let cap = share.add(rem);
        let pos = parent.available_pos();
        let child = Layout::new(kind, pos, cap);
        self.stack.push(child);
    }

    /// Reserve one blank row.
    pub fn br(&mut self)
        requires
            old(self).wf(),
            old(self).stack@.len() >= 1,
        ensures
            final(self).wf(),
            final(self).cmds == old(self).cmds,
            UI::top_after_widget(*old(self), *final(self), 0, 1),
    {
        let mut top = self.stack.pop().unwrap();
        top.add_widget(Vec2::new(0, 1));
        self.stack.push(top);
        proof {
            assert(final(self).stack@ =~= old(self).stack@.update(
                old(self).stack@.len() - 1,
                final(self).top(),
            ));
        }
    }

    /// Place one line of text at the next free position, cut or padded
    /// with spaces to the region's full width.
    pub fn label(&mut self, text: &Vec<char>)
        requires
            old(self).wf(),
            old(self).stack@.len() >= 1,
        ensures
            final(self).wf(),
            UI::top_after_widget(
                *old(self),
                *final(self),
                min_i(text@.len() as int, old(self).top().max_size.x as int),
                1,
            ),
            final(self).cmds@.len() == old(self).cmds@.len() + 1,
            forall|i: int|
                0 <= i < old(self).cmds@.len() ==> final(self).cmds@[i] == old(self).cmds@[i],
            (match final(self).cmds@.last() {
                DrawCmd::Text { pos, text: t } => {
                    &&& pos.x == avail_x(old(self).top())
                    &&& pos.y == avail_y(old(self).top())
                    &&& t@ == padded(text@, old(self).top().max_size.x as nat)
                },
                _ => false,
            }),
    {
        let mut top = self.stack.pop().unwrap();
        let pos = top.available_pos();
        let line = pad_to(text, top.max_size.x);
        let wx = if text.len() < top.max_size.x as usize {
            text.len() as i32
        } else {
            top.max_size.x
        };
        self.cmds.push(DrawCmd::Text { pos, text: line });
        top.add_widget(Vec2::new(wx, 1));
        self.stack.push(top);
        proof {
            assert(final(self).stack@ =~= old(self).stack@.update(
                old(self).stack@.len() - 1,
                final(self).top(),
            ));
        }
    }

    /// Like `label`, painted under a colour pair and an optional
    /// attribute for this one line only.
    pub fn label_styled(&mut self, text: &Vec<char>, color_pair: i16, style: Option<u32>)
        requires
            old(self).wf(),
            old(self).stack@.len() >= 1,
        ensures
            final(self).wf(),
            UI::top_after_widget(
                *old(self),
                *final(self),
                min_i(text@.len() as int, old(self).top().max_size.x as int),
                1,
            ),
            final(self).cmds@.len() == old(self).cmds@.len() + 1,
            forall|i: int|
                0 <= i < old(self).cmds@.len() ==> final(self).cmds@[i] == old(self).cmds@[i],
            (match final(self).cmds@.last() {
                DrawCmd::TextStyled { pos, text: t, color_pair: cp, style: st } => {
                    &&& pos.x == avail_x(old(self).top())
                    &&& pos.y == avail_y(old(self).top())
                    &&& t@ == padded(text@, old(self).top().max_size.x as nat)
                    &&& cp == color_pair
                    &&& st == style
                },
                _ => false,
            }),
    {
        let mut top = self.stack.pop().unwrap();
        let pos = top.available_pos();
        let line = pad_to(text, top.max_size.x);
        let wx = if text.len() < top.max_size.x as usize {
            text.len() as i32
        } else {
            top.max_size.x
        };
        self.cmds.push(DrawCmd::TextStyled { pos, text: line, color_pair, style });
        top.add_widget(Vec2::new(wx, 1));
        self.stack.push(top);
        proof {
            assert(final(self).stack@ =~= old(self).stack@.update(
                old(self).stack@.len() - 1,
                final(self).top(),
            ));
        }
    }

    /// Fill the region's full width with a rule, consuming one row.
    pub fn hl(&mut self)
        requires
            old(self).wf(),
            old(self).stack@.len() >= 1,
        ensures
            final(self).wf(),
            UI::top_after_widget(
                *old(self),
                *final(self),
                old(self).top().max_size.x as int,
                1,
            ),
            final(self).cmds@.len() == old(self).cmds@.len() + 1,
            forall|i: int|
                0 <= i < old(self).cmds@.len() ==> final(self).cmds@[i] == old(self).cmds@[i],
            (match final(self).cmds@.last() {
                DrawCmd::Text { pos, text: t } => {
                    &&& pos.x == avail_x(old(self).top())
                    &&& pos.y == avail_y(old(self).top())
                    &&& t@ == rule_line(old(self).top().max_size.x as nat)
                },
                _ => false,
            }),
    {
        let n = self.stack.len();
        let w = self.stack[n - 1].max_size.x;
        let mut line: Vec<char> = Vec::new();
        let mut i: i32 = 0;
        while i < w
            invariant
                0 <= i <= w,
                line@.len() == i,
                forall|k: int| 0 <= k < i ==> line@[k] == '-',
            decreases w - i,
        {
            line.push('-');
            i = i + 1;
        }
        proof {
            assert(line@ =~= rule_line(w as nat));
            assert(padded(rule_line(w as nat), w as nat) =~= rule_line(w as nat));
            assert(min_i(rule_line(w as nat).len() as int, w as int) == w as int);
        }
        self.label(&line);
    }

    /// Render `prefix + text` like a label, then overlay a reverse-video
    /// cell at the edit offset; an offset beyond the text highlights a
    /// blank cell instead.
    pub fn edit_label(&mut self, text: &Vec<char>, cur: usize, prefix: &Vec<char>)
        requires
            old(self).wf(),
            old(self).stack@.len() >= 1,
            text@.len() <= GRID_LIMIT,
            prefix@.len() <= GRID_LIMIT,
            cur <= GRID_LIMIT,
        ensures
            final(self).wf(),
            UI::top_after_widget(
                *old(self),
                *final(self),
                min_i(
                    prefix@.len() as int + text@.len() as int,
                    old(self).top().max_size.x as int,
                ),
                1,
            ),
            final(self).cmds@.len() == old(self).cmds@.len() + 2,
            forall|i: int|
                0 <= i < old(self).cmds@.len() ==> final(self).cmds@[i] == old(self).cmds@[i],
            (match final(self).cmds@[final(self).cmds@.len() - 2] {
                DrawCmd::Text { pos, text: t } => {
                    &&& pos.x == avail_x(old(self).top())
                    &&& pos.y == avail_y(old(self).top())
                    &&& t@ == padded(prefix@ + text@, old(self).top().max_size.x as nat)
                },
                _ => false,
            }),
            (match final(self).cmds@.last() {
                DrawCmd::Cursor { pos, ch } => {
                    &&& pos.x == avail_x(old(self).top()) + prefix@.len() + cur
                    &&& pos.y == avail_y(old(self).top())
                    &&& ch == (if cur < text@.len() {
                        text@[cur as int]
                    } else {
                        ' '
                    })
                },
                _ => false,
            }),
    {
        let mut top = self.stack.pop().unwrap();
        let pos = top.available_pos();
        let mut full: Vec<char> = Vec::new();
        append_chars(&mut full, prefix);
        append_chars(&mut full, text);
        proof {
            assert(full@ =~= prefix@ + text@);
        }
        let line = pad_to(&full, top.max_size.x);
        let wx = if full.len() < top.max_size.x as usize {
            full.len() as i32
        } else {
            top.max_size.x
        };
        self.cmds.push(DrawCmd::Text { pos, text: line });
        let ch = if cur < text.len() {
            char_at(text, cur)
        } else {
            ' '
        };
        let pl = prefix.len() as i32;
        let cu = cur as i32;
        let cx = pos.x + pl + cu;
        let cpos = Vec2::new(cx, pos.y);
        let cmd = DrawCmd::Cursor { pos: cpos, ch: ch };
        self.cmds.push(cmd);
        top.add_widget(Vec2::new(wx, 1));
        self.stack.push(top);
        proof {
            assert(final(self).stack@ =~= old(self).stack@.update(
                old(self).stack@.len() - 1,
                final(self).top(),
            ));
        }
    }

    /// Close the innermost region and attach it to its parent. The parent
    /// re-splits: every earlier sibling, subtree and all, is re-sized to
    /// the new even share, the parent's occupied extent advances by the
    /// child's allocation, and exactly the rows the previous sibling gave
    /// up are blanked at the closed child's position, so no stale cells
    /// survive. Needs an open child region below the root.
    pub fn end_layout(&mut self)
        requires
            old(self).wf(),
            old(self).stack@.len() >= 2,
            old(self).stack@[old(self).stack@.len() - 2].children@.len() < GRID_LIMIT,
        ensures
            final(self).wf(),
            final(self).stack@.len() == old(self).stack@.len() - 1,
            forall|i: int|
                0 <= i < old(self).stack@.len() - 2 ==> final(self).stack@[i] == old(
                    self,
                ).stack@[i],
            ({
                let p = old(self).stack@[old(self).stack@.len() - 2];
                let c = old(self).top();
                let t = final(self).top();
                &&& t.kind == p.kind
                &&& t.pos == p.pos
                &&& t.max_size == p.max_size
                &&& t.children@.len() == p.children@.len() + 1
                &&& t.children@.last() == c
                &&& (forall|i: int|
                    0 <= i < p.children@.len() ==> is_resized(
                        p.children@[i],
                        share_x(p),
                        share_y(p),
                        #[trigger] t.children@[i],
                    ))
                &&& t.size.x == occ_x_after(
                    p.kind,
                    resized_occ_x(p, p.max_size.x as int),
                    c.max_size.x as int,
                )
                &&& t.size.y == occ_y_after(
                    p.kind,
                    resized_occ_y(p, p.max_size.y as int),
                    c.size.y as int,
                )
                &&& final(self).cmds@.len() == old(self).cmds@.len() + blank_rows(p, c)
                &&& (forall|j: int|
                    0 <= j < blank_rows(p, c) ==> (match #[trigger] (final(self).cmds@[old(
                        self,
                    ).cmds@.len() + j]) {
                        DrawCmd::Text { pos, text: t2 } => {
                            &&& pos.x == avail_x(c)
                            &&& pos.y == avail_y(c) + j
                            &&& t2@ == spaces(c.max_size.x as nat)
                        },
                        _ => false,
                    }))
            }),
            forall|i: int|
                0 <= i < old(self).cmds@.len() ==> final(self).cmds@[i] == old(self).cmds@[i],
    {
        let ghost a = *old(self);
        let child = self.stack.pop().unwrap();
        let old_parent = self.stack.pop().unwrap();
        proof {
            assert(a.stack@[a.stack@.len() - 1].wf());
            assert(a.stack@[a.stack@.len() - 2].wf());
            assert(a.stack@[a.stack@.len() - 2].even_split_ok());
        }
        let ghost p = old_parent;
        let ghost c = child;
        let target = old_parent.max_size;
        let mut parent = resized(&old_parent, target);
        // Blank what the previous sibling no longer covers along the main
        // axis, as its share shrank just now.
        let ghost cmds0 = self.cmds@;
        if parent.children.len() > 0 {
            let pn = parent.children.len();
            proof {
                assert(parent.wf());
                assert(parent.children@[pn - 1].wf());
                assert(c.bounds_ok());
                assert(is_resized(
                    p.children@[pn - 1],
                    share_x(p),
                    share_y(p),
                    parent.children@[pn - 1],
                ));
                assert(parent.children@[pn - 1].size.y == resized_occ_y(
                    p.children@.last(),
                    share_y(p),
                ));
            }
            let prev_y = parent.children[pn - 1].size.y;
            if prev_y > child.size.y {
                let diff = prev_y - child.size.y;
                proof {
                    assert(blank_rows(p, c) == diff);
                }
                let bpos = child.available_pos();
                let mut row: Vec<char> = Vec::new();
                let mut i: i32 = 0;
                let w = child.max_size.x;
                while i < w
                    invariant
                        0 <= i <= w,
                        row@.len() == i,
                        forall|k: int| 0 <= k < i ==> row@[k] == ' ',
                    decreases w - i,
                {
                    row.push(' ');
                    i = i + 1;
                }
                proof {
                    assert(row@ =~= spaces(w as nat));
                }
                let ghost stack0 = self.stack@;
                let mut j: i32 = 0;
                while j < diff
                    invariant
                        0 <= j <= diff,
                        row@ == spaces(w as nat),
                        0 <= bpos.y,
                        diff <= GRID_LIMIT,
                        w == c.max_size.x,
                        bpos.x == avail_x(c),
                        bpos.y == avail_y(c),
                        0 <= bpos.y + diff <= i32::MAX,
                        self.stack@ == stack0,
                        self.cmds@.len() == cmds0.len() + j,
                        forall|i2: int| 0 <= i2 < cmds0.len() ==> self.cmds@[i2] == cmds0[i2],
                        forall|j2: int|
                            0 <= j2 < j ==> (match #[trigger] (self.cmds@[cmds0.len() + j2]) {
                                DrawCmd::Text { pos, text: t2 } => {
                                    &&& pos.x == bpos.x
                                    &&& pos.y == bpos.y + j2
                                    &&& t2@ == spaces(w as nat)
                                },
                                _ => false,
                            }),
                    decreases diff - j,
                {
                    let line = clone_row(&row);
                    self.cmds.push(
                        DrawCmd::Text { pos: Vec2::new(bpos.x, bpos.y + j), text: line },
                    );
                    j = j + 1;
                }
            } else {
                proof {
                    assert(blank_rows(p, c) == 0);
                }
            }
        } else {
            proof {
                assert(blank_rows(p, c) == 0);
            }
        }
        let wx = child.max_size.x;
        let wy = child.size.y;
        let ghost q: int = match p.kind {
            LayoutKind::Horz => share_x(p),
            LayoutKind::Vert => share_y(p),
        };
        let ghost m: int = axis_val(p.kind, p.max_size);
        let ghost n: int = p.children@.len() as int;
        proof {
            assert forall|i: int| 0 <= i < parent.children@.len() implies axis_val(
                p.kind,
                (#[trigger] parent.children@[i]).max_size,
            ) == q by {
                assert(is_resized(p.children@[i], share_x(p), share_y(p), parent.children@[i]));
            }
            lemma_caps_sum_uniform(p.kind, parent.children@, q);
            vstd::arithmetic::div_mod::lemma_fundamental_div_mod(m, n + 1);
            assert(n * q + q == (n + 1) * q) by (nonlinear_arith);
        }
        let ghost resized_p = parent;
        parent.children.push(child);
        proof {
            assert(parent.children@.drop_last() =~= resized_p.children@);
            assert(parent.children@.last() == c);
            assert(caps_sum(p.kind, parent.children@) == caps_sum(p.kind, resized_p.children@)
                + axis_val(p.kind, c.max_size));
            // the open child's capacity was the share plus the remainder
            assert(axis_val(p.kind, c.max_size) == q + m % (n + 1));
            assert(caps_sum(p.kind, parent.children@) == m);
            assert(parent.children@.len() == p.children@.len() + 1);
            assert(parent.children@.len() <= GRID_LIMIT);
        }
        parent.add_widget(Vec2::new(wx, wy));
        proof {
            assert forall|i: int|
                0 <= i < parent.children@.len() implies (#[trigger] parent.children@[i]).wf() by {
                if i < parent.children@.len() - 1 {
                    assert(parent.children@[i] == resized_p.children@[i]);
                } else {
                    assert(parent.children@[i] == c);
                }
            }
            assert(parent.wf());
            assert(parent.even_split_ok());
        }
        let ghost ftop = parent;
        self.stack.push(parent);
        proof {
            assert(self.stack@.len() == a.stack@.len() - 1);
            assert(self.stack@[self.stack@.len() - 1] == ftop);
            assert forall|i: int| 0 <= i < a.stack@.len() - 2 implies self.stack@[i]
                == a.stack@[i] by {}
            assert forall|i: int|
                0 <= i < self.stack@.len() implies (#[trigger] self.stack@[i]).wf()
                    && self.stack@[i].even_split_ok() by {
                if i < self.stack@.len() - 1 {
                    assert(self.stack@[i] == a.stack@[i]);
                    assert(a.stack@[i].wf() && a.stack@[i].even_split_ok());
                }
            }
            assert forall|i: int|
                1 <= i < self.stack@.len() implies (#[trigger] self.stack@[i]).max_size.x
                    == open_cap_x(self.stack@[i - 1]) && self.stack@[i].max_size.y == open_cap_y(
                self.stack@[i - 1]) by {
                assert(a.stack@[i].max_size.x == open_cap_x(a.stack@[i - 1]));
                assert(a.stack@[i].max_size.y == open_cap_y(a.stack@[i - 1]));
                if i < self.stack@.len() - 1 {
                    assert(self.stack@[i] == a.stack@[i]);
                    assert(self.stack@[i - 1] == a.stack@[i - 1]);
                } else {
                    assert(ftop.max_size == p.max_size);
                    assert(self.stack@[i - 1] == a.stack@[i - 1]);
                }
            }
        }
    }

    /// Close the root region; every child region must have been closed
    /// before.
    pub fn end(&mut self)
        requires
            old(self).wf(),
            old(self).stack@.len() == 1,
        ensures
            final(self).wf(),
            final(self).stack@.len() == 0,
            final(self).cmds == old(self).cmds,
    {
        let _ = self.stack.pop();
    }

    /// Hand over the commands of the frame drawn so far and start afresh.
    pub fn take_commands(&mut self) -> (r: Vec<DrawCmd>)
        ensures
            r@ == old(self).cmds@,
            final(self).cmds@.len() == 0,
            final(self).stack == old(self).stack,
    {
        let mut v: Vec<DrawCmd> = Vec::new();
        core::mem::swap(&mut self.cmds, &mut v);
        v
    }
}

/// Law (even split): in a well-formed builder every open region, the root
/// included, has handed its children no more of its main axis than its
/// own capacity holds.
pub proof fn lemma_even_split(u: UI, i: int)
    requires
        u.wf(),
        0 <= i < u.stack@.len(),
    ensures
        caps_sum(u.stack@[i].kind, u.stack@[i].children@) <= axis_val(
            u.stack@[i].kind,
            u.stack@[i].max_size,
        ),
{
}

fn char_at(v: &Vec<char>, i: usize) -> (r: char)
    requires
        i < v@.len(),
    ensures
        r == v@[i as int],
{
    v[i]
}

fn clone_row(v: &Vec<char>) -> (r: Vec<char>)
    ensures
        r@ == v@,
{
    let mut r: Vec<char> = Vec::new();
    let mut i: usize = 0;
    while i < v.len()
        invariant
            i <= v@.len(),
            r@.len() == i,
            forall|k: int| 0 <= k < i ==> r@[k] == v@[k],
        decreases v@.len() - i,
    {
        r.push(v[i]);
        i = i + 1;
    }
    proof {
        assert(r@ =~= v@);
    }
    r
}

fn append_chars(dst: &mut Vec<char>, src: &Vec<char>)
    ensures
        final(dst)@ == old(dst)@ + src@,
{
    let mut i: usize = 0;
    while i < src.len()
        invariant
            i <= src@.len(),
            dst@ == old(dst)@ + src@.take(i as int),
        decreases src@.len() - i,
    {
        dst.push(src[i]);
        proof {
            assert(old(dst)@ + src@.take(i as int + 1) =~= (old(dst)@ + src@.take(i as int)).push(
                src@[i as int],
            ));
        }
        i = i + 1;
    }
    proof {
        assert(src@.take(src@.len() as int) =~= src@);
    }
}

/// `text` cut or right-padded with spaces to exactly `w` cells.
fn pad_to(text: &Vec<char>, w: i32) -> (r: Vec<char>)
    requires
        0 <= w,
    ensures
        r@ == padded(text@, w as nat),
{
    let mut r: Vec<char> = Vec::new();
    let mut i: usize = 0;
    let wu = w as usize;
    while i < wu
        invariant
            i <= wu,
            wu == w,
            r@.len() == i,
            forall|k: int|
                0 <= k < i ==> r@[k] == (if k < text@.len() {
                    text@[k]
                } else {
                    ' '
                }),
        decreases wu - i,
    {
        if i < text.len() {
            r.push(text[i]);
        } else {
            r.push(' ');
        }
        i = i + 1;
    }
    proof {
        assert(r@ =~= padded(text@, w as nat));
    }
    r
}

} // verus!
