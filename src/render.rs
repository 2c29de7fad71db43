//! Turning droplet motion into the cell writes of one frame.

use crate::chance::{char_of, random_below};
use crate::droplet::{color_gradient, gradient, Droplet, DropletView, Rgb, ROW_STEP};
use vstd::prelude::*;

verus! {

/// First code point of the glyph block (half-width katakana `ｦ`).
pub const GLYPH_FIRST: u32 = 0xFF66;

/// Code point just past the glyph block (half-width katakana `ﾝ`).
pub const GLYPH_END: u32 = 0xFF9D;

/// Whether `c` lies in the glyph block.
pub open spec fn is_glyph(c: char) -> bool {
    GLYPH_FIRST <= c as u32 && (c as u32) < GLYPH_END
}

/// What a single cell write puts on the screen.
#[derive(Clone, Copy, Debug, PartialEq, Eq, Structural)]
pub enum Ink {
    /// A glyph in the given colour.
    Glyph { glyph: char, color: Rgb },
    /// A blank in the terminal's default colour.
    Blank,
}

/// A write of one cell at column `col`, row `row`.
#[derive(Clone, Copy, Debug, PartialEq, Eq, Structural)]
pub struct Paint {
    pub col: u16,
    pub row: u16,
    pub ink: Ink,
}

/// Whether the glyph that `p` writes, if any, lies in the glyph block.
pub open spec fn glyph_ok(p: Paint) -> bool {
    match p.ink {
        Ink::Glyph { glyph, .. } => is_glyph(glyph),
        Ink::Blank => true,
    }
}

/// Whether every glyph written by `ps` lies in the glyph block.
pub open spec fn glyphs_in_block(ps: Seq<Paint>) -> bool {
    forall|k: int| 0 <= k < ps.len() ==> glyph_ok(#[trigger] ps[k])
}

proof fn lemma_push_keeps_glyphs(ps: Seq<Paint>, p: Paint)
    requires
        glyphs_in_block(ps),
        glyph_ok(p),
    ensures
        glyphs_in_block(ps.push(p)),
{
    assert forall|k: int| 0 <= k < ps.push(p).len() implies glyph_ok(#[trigger] ps.push(p)[k]) by {
        if k < ps.len() {
            assert(ps.push(p)[k] == ps[k]);
        }
    }
}

/// Whether the cell `dist` rows above a head at `row` is on a screen of `rows` rows.
pub open spec fn on_screen(row: int, dist: int, rows: int) -> bool {
    row >= dist && row - dist < rows
}

/// Writes for the trail cells at distances `0 .. k` from a head at `row` of a trail of
/// `len` cells; the cell at distance `dist` shows `glyphs[dist]`.
pub open spec fn trail_upto(row: int, len: int, col: u16, rows: int, glyphs: Seq<char>, k: nat) -> Seq<Paint>
    decreases k,
{
    if k == 0 {
        seq![]
    } else {
        let prev = trail_upto(row, len, col, rows, glyphs, (k - 1) as nat);
        let dist = k - 1;
        if on_screen(row, dist, rows) {
            prev.push(Paint {
                col,
                row: (row - dist) as u16,
                ink: Ink::Glyph { glyph: glyphs[dist], color: gradient(len, dist) },
            })
        } else {
            prev
        }
    }
}

/// Writes that draw a trail of `len` cells with its head at `row`: every on-screen cell
/// at distance `0 ..= len`, then, once the head is `len` rows down, a blank just past the
/// tail.
pub open spec fn trail_paints(row: int, len: int, col: u16, rows: int, glyphs: Seq<char>) -> Seq<Paint> {
    trail_upto(row, len, col, rows, glyphs, (len + 1) as nat) + if row >= len {
        seq![Paint { col, row: (row - len) as u16, ink: Ink::Blank }]
    } else {
        seq![]
    }
}

/// Whether a tick replaces the droplet: it moves a row and its trail then lies past
/// the bottom of a screen of `rows` rows.
pub open spec fn respawns(d: DropletView, rows: int) -> bool {
    d.ready() && d.advanced().exhausted(rows)
}

/// The state of a column after one tick, `fresh` standing in for a replaced droplet.
pub open spec fn column_next(d: DropletView, rows: int, fresh: DropletView) -> DropletView {
    if respawns(d, rows) {
        fresh
    } else {
        d.advanced()
    }
}

/// Writes of one column in a tick: where the droplet moves and is not replaced, its
/// trail from the new head row and length.
pub open spec fn column_paints(d: DropletView, col: u16, rows: int, glyphs: Seq<char>) -> Seq<Paint> {
    if d.ready() && !respawns(d, rows) {
        trail_paints(d.advanced().row, d.advanced().len, col, rows, glyphs)
    } else {
        seq![]
    }
}

/// Writes of the first `n` columns in a frame, column `c` drawing with `glyphs[c]`.
pub open spec fn frame_paints(ds: Seq<DropletView>, rows: int, glyphs: Seq<Seq<char>>, n: nat) -> Seq<Paint>
    decreases n,
{
    if n == 0 {
        seq![]
    } else {
        frame_paints(ds, rows, glyphs, (n - 1) as nat) + column_paints(
            ds[n - 1],
            (n - 1) as u16,
            rows,
            glyphs[n - 1],
        )
    }
}

/// The state of a column after a frame: a fresh droplet where the old one moved past
/// the bottom, else the old one advanced by one tick.
pub open spec fn next_state(old: DropletView, new: DropletView, rows: int) -> bool {
    if respawns(old, rows) {
        new.fresh(rows)
    } else {
        new == old.advanced()
    }
}

/// The mathematical states of a sequence of droplets.
pub open spec fn views(ds: Seq<Droplet>) -> Seq<DropletView> {
    ds.map_values(|d: Droplet| d@)
}

/// The writes of the first `n` columns depend only on the first `n` glyph draws.
pub proof fn lemma_frame_uses_drawn_glyphs(
    ds: Seq<DropletView>,
    rows: int,
    g1: Seq<Seq<char>>,
    g2: Seq<Seq<char>>,
    n: nat,
)
    requires
        n <= g1.len(),
        n <= g2.len(),
        forall|c: int| 0 <= c < n ==> g1[c] == g2[c],
    ensures
        frame_paints(ds, rows, g1, n) == frame_paints(ds, rows, g2, n),
    decreases n,
{
    if n > 0 {
        lemma_frame_uses_drawn_glyphs(ds, rows, g1, g2, (n - 1) as nat);
    }
}

/// The glyph `k` places into the block.
pub fn glyph_at(k: u32) -> (c: char)
    requires
        k < GLYPH_END - GLYPH_FIRST,
    ensures
        c as u32 == GLYPH_FIRST + k,
        is_glyph(c),
{
    char_of(GLYPH_FIRST + k)
}

/// The states of all columns after one tick, column `c` replaced by `fresh[c]` where
/// it is replaced.
pub open spec fn frame_next(ds: Seq<DropletView>, rows: int, fresh: Seq<DropletView>) -> Seq<DropletView> {
    Seq::new(ds.len(), |c: int| column_next(ds[c], rows, fresh[c]))
}

/// A frame is a function of its random draws: the same droplets with the same drawn
/// replacements and glyphs give the same next states and the same cell writes.
pub proof fn lemma_same_draws_same_frame(
    ds: Seq<DropletView>,
    rows: int,
    f1: Seq<DropletView>,
    f2: Seq<DropletView>,
    g1: Seq<Seq<char>>,
    g2: Seq<Seq<char>>,
)
    requires
        f1.len() == ds.len(),
        f2.len() == ds.len(),
        g1.len() == ds.len(),
        g2.len() == ds.len(),
        forall|c: int| 0 <= c < ds.len() ==> f1[c] == f2[c] && g1[c] == g2[c],
    ensures
        frame_next(ds, rows, f1) == frame_next(ds, rows, f2),
        frame_paints(ds, rows, g1, ds.len()) == frame_paints(ds, rows, g2, ds.len()),
{
    assert(frame_next(ds, rows, f1) =~= frame_next(ds, rows, f2));
    lemma_frame_uses_drawn_glyphs(ds, rows, g1, g2, ds.len());
}

/// Generate a random glyph.
pub fn random_char() -> (c: char)
    ensures
        is_glyph(c),
{
    glyph_at(random_below(0, GLYPH_END - GLYPH_FIRST))
}

/// `n` random glyphs.
pub fn random_glyphs(n: usize) -> (gs: Vec<char>)
    ensures
        gs@.len() == n,
        forall|j: int| 0 <= j < n ==> is_glyph(#[trigger] gs@[j]),
{
    let mut gs: Vec<char> = Vec::new();
    let mut i: usize = 0;
    while i < n
        invariant
            i <= n,
            gs@.len() == i,
            forall|j: int| 0 <= j < i ==> is_glyph(#[trigger] gs@[j]),
        decreases n - i,
    {
        gs.push(random_char());
        i = i + 1;
    }
    gs
}

impl Droplet {
    /// Writes that draw this droplet's trail in column `col` of a screen of `rows` rows,
    /// the cell at distance `d` from the head showing `glyphs[d]`.
    pub fn paint_trail(&self, col: u16, rows: u16, glyphs: &Vec<char>) -> (ps: Vec<Paint>)
        requires
            1 <= self.len,
            !self@.exhausted(rows as int),
            glyphs@.len() > self.len,
        ensures
            ps@ == trail_paints(self.row as int, self.len as int, col, rows as int, glyphs@),
            (forall|j: int| 0 <= j < glyphs@.len() ==> is_glyph(#[trigger] glyphs@[j]))
                ==> glyphs_in_block(ps@),
    {
        let ghost all_glyphs = forall|j: int| 0 <= j < glyphs@.len() ==> is_glyph(#[trigger] glyphs@[j]);
        let mut out: Vec<Paint> = Vec::new();
        let mut dist: u16 = 0;
        let mut done = false;
        while !done
            invariant
                1 <= self.len,
                !self@.exhausted(rows as int),
                glyphs@.len() > self.len,
                dist <= self.len,
                all_glyphs == forall|j: int| 0 <= j < glyphs@.len() ==> is_glyph(#[trigger] glyphs@[j]),
                out@ == trail_upto(self.row as int, self.len as int, col, rows as int, glyphs@, (dist + if done { 1int } else { 0int }) as nat),
                done ==> dist == self.len,
                all_glyphs ==> glyphs_in_block(out@),
            decreases self.len - dist + if done { 0int } else { 1int },
        {
            if self.row >= dist as u32 && self.row - (dist as u32) < rows as u32 {
                let p = Paint {
                    col,
                    row: (self.row - dist as u32) as u16,
                    ink: Ink::Glyph { glyph: glyphs[dist as usize], color: color_gradient(self, dist) },
                };
                proof {
                    if all_glyphs {
                        assert(is_glyph(glyphs@[dist as int]));
                        lemma_push_keeps_glyphs(out@, p);
                    }
                }
                out.push(p);
            }
            if dist == self.len {
                done = true;
            } else {
                dist = dist + 1;
            }
        }
        if self.row >= self.len as u32 {
            out.push(Paint { col, row: (self.row - self.len as u32) as u16, ink: Ink::Blank });
        }
        out
    }
}

impl Droplet {
    /// One tick of this droplet in column `col` of a screen of `rows` rows: adds the
    /// speed; once a whole row is due, falls one row and grows its trail, and then is
    /// either replaced by `replacement`, where its trail now lies past the bottom, or
    /// redrawn from its new head, the cell at distance `d` showing `glyphs[d]`. Returns
    /// the cell writes.
    pub fn tick(&mut self, col: u16, rows: u16, replacement: Droplet, glyphs: &Vec<char>) -> (ps: Vec<Paint>)
        requires
            old(self)@.wf(),
            old(self)@.ready() && !respawns(old(self)@, rows as int) ==> glyphs@.len() > old(self).max_len,
        ensures
            final(self)@ == column_next(old(self)@, rows as int, replacement@),
            ps@ == column_paints(old(self)@, col, rows as int, glyphs@),
            (forall|j: int| 0 <= j < glyphs@.len() ==> is_glyph(#[trigger] glyphs@[j]))
                ==> glyphs_in_block(ps@),
    {
        if !self.charge() {
            return Vec::new();
        }
        if self.is_exhausted(rows) {
            // Already past the bottom before the step, so past it after the step too.
            *self = replacement;
            return Vec::new();
        }
        self.step();
        if self.is_exhausted(rows) {
            *self = replacement;
            return Vec::new();
        }
        self.paint_trail(col, rows, glyphs)
    }

    /// Whether the next tick replaces this droplet on a screen of `rows` rows.
    pub fn will_respawn(&self, rows: u16) -> (r: bool)
        requires
            self@.wf(),
        ensures
            r == respawns(self@, rows as int),
    {
        if self.frame + self.speed < ROW_STEP {
            false
        } else if self.row >= rows as u32 + self.len as u32 {
            true
        } else {
            let len: u32 = if self.len < self.max_len { self.len as u32 + 1 } else { self.max_len as u32 };
            self.row + 1 >= rows as u32 + len
        }
    }
}

/// Draw and advance to the next frame: each column's droplet takes one tick; one that
/// moved is redrawn with fresh random glyphs, or replaced by a fresh droplet where its
/// trail had scrolled past the bottom. Returns the cell writes in column order.
pub fn draw_next_frame(cols: u16, rows: u16, droplets: &mut Vec<Droplet>) -> (ps: Vec<Paint>)
    requires
        old(droplets)@.len() == cols,
        forall|c: int| 0 <= c < cols ==> (#[trigger] old(droplets)@[c])@.wf(),
        rows >= 4,
    ensures
        final(droplets)@.len() == cols,
        forall|c: int|
            0 <= c < cols ==> {
                &&& (#[trigger] final(droplets)@[c])@.wf()
                &&& next_state(old(droplets)@[c]@, final(droplets)@[c]@, rows as int)
            },
        forall|c: int|
            0 <= c < cols && !respawns(old(droplets)@[c]@, rows as int) ==> #[trigger] final(droplets)@[c].row
                == old(droplets)@[c].row + if old(droplets)@[c]@.ready() { 1int } else { 0int },
        exists|f: Seq<DropletView>|
            {
                &&& f.len() == cols
                &&& forall|c: int| 0 <= c < cols && respawns(old(droplets)@[c]@, rows as int) ==> (#[trigger] f[c]).fresh(rows as int)
                &&& #[trigger] frame_next(views(old(droplets)@), rows as int, f) == views(final(droplets)@)
            },
        exists|g: Seq<Seq<char>>|
            #[trigger] frame_paints(views(old(droplets)@), rows as int, g, cols as nat) == ps@,
        glyphs_in_block(ps@),
{
    let ghost mut spawned: Seq<DropletView> = seq![];
    let ghost before = views(droplets@);
    let ghost mut drawn: Seq<Seq<char>> = seq![];
    let mut out: Vec<Paint> = Vec::new();
    let mut col: u16 = 0;
    while col < cols
        invariant
            droplets@.len() == cols,
            rows >= 4,
            col <= cols,
            before == views(old(droplets)@),
            before.len() == cols,
            forall|c: int| 0 <= c < cols ==> (#[trigger] old(droplets)@[c])@.wf(),
            forall|c: int|
                0 <= c < col ==> {
                    &&& (#[trigger] droplets@[c])@.wf()
                    &&& next_state(old(droplets)@[c]@, droplets@[c]@, rows as int)
                },
            forall|c: int| col <= c < cols ==> #[trigger] droplets@[c] == old(droplets)@[c],
            drawn.len() == col,
            spawned.len() == col,
            forall|c: int| 0 <= c < col ==> #[trigger] droplets@[c]@ == column_next(before[c], rows as int, spawned[c]),
            forall|c: int| 0 <= c < col && respawns(before[c], rows as int) ==> (#[trigger] spawned[c]).fresh(rows as int),
            out@ == frame_paints(before, rows as int, drawn, col as nat),
            glyphs_in_block(out@),
        decreases cols - col,
    {
        let mut d: Droplet = droplets[col as usize];
        let ghost start = d@;
        assert(start == before[col as int]);
        let respawn = d.will_respawn(rows);
        let replacement = if respawn {
            Droplet::spawn(rows)
        } else {
            d
        };
        let glyphs = if !respawn && d.frame + d.speed >= ROW_STEP {
            random_glyphs(d.max_len as usize + 1)
        } else {
            Vec::new()
        };
        let ghost used: Seq<char> = glyphs@;
        let strip = d.tick(col, rows, replacement, &glyphs);
        proof {
            assert forall|k: int| 0 <= k < out@.len() + strip@.len() implies glyph_ok(
                #[trigger] (out@ + strip@)[k],
            ) by {
                if k < out@.len() {
                    assert((out@ + strip@)[k] == out@[k]);
                } else {
                    assert((out@ + strip@)[k] == strip@[k - out@.len()]);
                }
            }
        }
        let mut strip = strip;
        out.append(&mut strip);
        proof {
            let next = drawn.push(used);
            lemma_frame_uses_drawn_glyphs(before, rows as int, drawn, next, col as nat);
            drawn = next;
            spawned = spawned.push(replacement@);
        }
        droplets.set(col as usize, d);
        col = col + 1;
    }
    proof {
        assert(frame_next(before, rows as int, spawned) =~= views(droplets@));
    }
    out
}

} // verus!
