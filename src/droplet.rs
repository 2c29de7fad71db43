//! One falling column stream: its state, its per-tick transition and its colours.
//!
//! Fractional progress is kept in fixed point: `ROW_STEP` frame units make one row.

use crate::chance::random_below;
use vstd::prelude::*;

verus! {

/// Frame units that make up one row of fall.
pub const ROW_STEP: u32 = 1000;

/// Minimum length of a droplet.
pub const DROPLET_MIN_LENGTH: u16 = 2;

/// Maximum length of a droplet.
pub const DROPLET_MAX_LENGTH: u16 = 20;

/// Minimum speed of a droplet, in frame units per tick.
pub const DROPLET_MIN_SPEED: u32 = 200;

/// Maximum speed of a droplet, in frame units per tick.
pub const DROPLET_MAX_SPEED: u32 = 1000;

/// Red channel of the head colour.
pub const BASE_RED: u8 = 170;

/// Green channel of the head colour.
pub const BASE_GREEN: u8 = 255;

/// Blue channel of the head colour.
pub const BASE_BLUE: u8 = 170;

/// A colour given by its red, green and blue channels.
#[derive(Clone, Copy, Debug, PartialEq, Eq, Structural)]
pub struct Rgb {
    pub r: u8,
    pub g: u8,
    pub b: u8,
}

/// Mathematical state of a droplet.
pub struct DropletView {
    pub row: int,
    pub len: int,
    pub max_len: int,
    pub frame: int,
    pub speed: int,
}

impl DropletView {
    /// The droplet's invariant: a trail of at least one cell that never outgrows its
    /// target, a positive speed of at most one row per tick, and at most one row of
    /// pending progress.
    pub open spec fn wf(self) -> bool {
        &&& 1 <= self.len <= self.max_len
        &&& 0 < self.speed <= ROW_STEP
        &&& 0 <= self.frame <= ROW_STEP
        &&& 0 <= self.row
    }

    /// The accumulator once this tick's speed is added.
    pub open spec fn charged(self) -> int {
        self.frame + self.speed
    }

    /// Whether this tick's progress reaches a whole row.
    pub open spec fn ready(self) -> bool {
        self.charged() >= ROW_STEP
    }

    /// The droplet one row further down, its trail grown by one cell up to `max_len`.
    pub open spec fn stepped(self) -> DropletView {
        DropletView {
            row: self.row + 1,
            len: if self.len + 1 <= self.max_len { self.len + 1 } else { self.max_len },
            max_len: self.max_len,
            frame: self.charged() - ROW_STEP,
            speed: self.speed,
        }
    }

    /// The state after one tick.
    pub open spec fn advanced(self) -> DropletView {
        if self.ready() {
            self.stepped()
        } else {
            DropletView { frame: self.charged(), ..self }
        }
    }

    /// The state after `n` ticks.
    pub open spec fn advanced_by(self, n: nat) -> DropletView
        decreases n,
    {
        if n == 0 {
            self
        } else {
            self.advanced_by((n - 1) as nat).advanced()
        }
    }

    /// The whole trail, head and tail, lies below the last of `rows` rows.
    pub open spec fn exhausted(self, rows: int) -> bool {
        self.row >= rows + self.len
    }

    /// What a fresh droplet looks like right after a respawn on a screen of `rows` rows.
    pub open spec fn fresh(self, rows: int) -> bool {
        &&& 0 <= self.row < rows / 4
        &&& self.len == 1
        &&& DROPLET_MIN_LENGTH <= self.max_len <= DROPLET_MAX_LENGTH
        &&& self.frame == ROW_STEP
        &&& DROPLET_MIN_SPEED <= self.speed <= DROPLET_MAX_SPEED
    }

    /// What a droplet of the first frame looks like on a screen of `rows` rows: already
    /// at its full length.
    pub open spec fn settled(self, rows: int) -> bool {
        &&& 0 <= self.row < rows
        &&& self.len == self.max_len
        &&& DROPLET_MIN_LENGTH <= self.max_len <= DROPLET_MAX_LENGTH
        &&& self.frame == ROW_STEP
        &&& DROPLET_MIN_SPEED <= self.speed <= DROPLET_MAX_SPEED
    }
}

/// One channel of `base` scaled by `(len - d) / len`, truncated.
pub open spec fn fade(base: int, len: int, d: int) -> int {
    base * (len - d) / len
}

/// Colour of the cell at distance `d` from the head of a trail of `len` cells.
pub open spec fn gradient(len: int, d: int) -> Rgb {
    Rgb {
        r: fade(BASE_RED as int, len, d) as u8,
        g: fade(BASE_GREEN as int, len, d) as u8,
        b: fade(BASE_BLUE as int, len, d) as u8,
    }
}

/// Holds information about a single droplet.
#[derive(Clone, Copy, Debug, PartialEq, Eq, Structural)]
pub struct Droplet {
    /// Head row; may lie below the screen while the tail is still on it.
    pub row: u32,
    /// Current trail length.
    pub len: u16,
    /// Trail length the droplet grows to.
    pub max_len: u16,
    /// Pending progress toward the next row, in frame units.
    pub frame: u32,
    /// Progress per tick, in frame units.
    pub speed: u32,
}

impl View for Droplet {
    type V = DropletView;

    open spec fn view(&self) -> DropletView {
        DropletView {
            row: self.row as int,
            len: self.len as int,
            max_len: self.max_len as int,
            frame: self.frame as int,
            speed: self.speed as int,
        }
    }
}

impl Droplet {
    /// A droplet with the given fields, or `None` where they break the invariant.
    pub fn new(row: u32, len: u16, max_len: u16, frame: u32, speed: u32) -> (r: Option<Droplet>)
        ensures
            r.is_some() <==> (DropletView { row: row as int, len: len as int, max_len: max_len as int, frame: frame as int, speed: speed as int }).wf(),
            r.is_some() ==> r.unwrap()@ == (DropletView { row: row as int, len: len as int, max_len: max_len as int, frame: frame as int, speed: speed as int }),
    {
        if 1 <= len && len <= max_len && 0 < speed && speed <= ROW_STEP && frame <= ROW_STEP {
            Some(Droplet { row, len, max_len, frame, speed })
        } else {
            None
        }
    }

    /// A droplet entering at `row` with a trail of one cell, primed to move on its
    /// next tick.
    pub fn fresh_at(row: u32, max_len: u16, speed: u32) -> (r: Droplet)
        ensures
            r@ == (DropletView { row: row as int, len: 1, max_len: max_len as int, frame: ROW_STEP as int, speed: speed as int }),
    {
        Droplet { row, len: 1, max_len, frame: ROW_STEP, speed }
    }

    /// A droplet at `row` already at its full length `len`, primed to move on its next
    /// tick.
    pub fn settled_at(row: u32, len: u16, speed: u32) -> (r: Droplet)
        ensures
            r@ == (DropletView { row: row as int, len: len as int, max_len: len as int, frame: ROW_STEP as int, speed: speed as int }),
    {
        Droplet { row, len, max_len: len, frame: ROW_STEP, speed }
    }

    /// A new droplet in the top quarter of a screen of `rows` rows, with a random
    /// target length and speed.
    pub fn spawn(rows: u16) -> (r: Droplet)
        requires
            rows >= 4,
        ensures
            r@.fresh(rows as int),
            r@.wf(),
    {
        let row = random_below(0, rows as u32 / 4);
        let max_len = random_below(DROPLET_MIN_LENGTH as u32, DROPLET_MAX_LENGTH as u32 + 1) as u16;
        let speed = random_below(DROPLET_MIN_SPEED, DROPLET_MAX_SPEED + 1);
        Droplet::fresh_at(row, max_len, speed)
    }

    /// A droplet for the first frame: anywhere on a screen of `rows` rows, already at
    /// a random full length, with a random speed.
    pub fn initial(rows: u16) -> (r: Droplet)
        requires
            rows >= 1,
        ensures
            r@.settled(rows as int),
            r@.wf(),
    {
        let len = random_below(DROPLET_MIN_LENGTH as u32, DROPLET_MAX_LENGTH as u32 + 1) as u16;
        let row = random_below(0, rows as u32);
        let speed = random_below(DROPLET_MIN_SPEED, DROPLET_MAX_SPEED + 1);
        Droplet::settled_at(row, len, speed)
    }

    /// Adds this tick's speed to the accumulator; returns whether a whole row is due.
    pub fn charge(&mut self) -> (ready: bool)
        requires
            old(self)@.wf(),
        ensures
            ready == old(self)@.ready(),
            final(self)@ == (DropletView { frame: old(self)@.charged(), ..old(self)@ }),
    {
        self.frame = self.frame + self.speed;
        self.frame >= ROW_STEP
    }

    /// Moves a charged droplet one row down and grows its trail.
    pub fn step(&mut self)
        requires
            1 <= old(self).len <= old(self).max_len,
            old(self)@.frame >= ROW_STEP,
            old(self).row < u32::MAX,
        ensures
            final(self)@ == (DropletView {
                row: old(self)@.row + 1,
                len: if old(self)@.len + 1 <= old(self)@.max_len { old(self)@.len + 1 } else { old(self)@.max_len },
                max_len: old(self)@.max_len,
                frame: old(self)@.frame - ROW_STEP,
                speed: old(self)@.speed,
            }),
    {
        self.frame = self.frame - ROW_STEP;
        self.row = self.row + 1;
        if self.len < self.max_len {
            self.len = self.len + 1;
        } else {
            self.len = self.max_len;
        }
    }

    /// One tick: adds the speed and, once a whole row is due, falls one row and grows
    /// the trail up to `max_len`. Returns whether the droplet moved.
    pub fn advance(&mut self) -> (moved: bool)
        requires
            old(self)@.wf(),
            old(self).row < u32::MAX,
        ensures
            moved == old(self)@.ready(),
            final(self)@ == old(self)@.advanced(),
            final(self)@.wf(),
            final(self).row >= old(self).row,
    {
        let moved = self.charge();
        if moved {
            self.step();
        }
        moved
    }

    /// Whether the whole trail has scrolled past the bottom of `rows` rows.
    pub fn is_exhausted(&self, rows: u16) -> (r: bool)
        ensures
            r == self@.exhausted(rows as int),
    {
        self.row >= rows as u32 + self.len as u32
    }
}

/// One channel of `base` scaled by `(len - d) / len`, truncated.
fn fade_channel(base: u8, len: u16, d: u16) -> (r: u8)
    requires
        1 <= len,
        d <= len,
    ensures
        r as int == fade(base as int, len as int, d as int),
{
    proof {
        assert(base as int * (len - d) as int <= 255 * 65535) by (nonlinear_arith)
            requires base <= 255, 0 <= (len - d) as int <= 65535;
    }
    let num: u32 = base as u32 * (len - d) as u32;
    proof {
        let b = base as int;
        let l = len as int;
        let k = (len - d) as int;
        assert(0 <= b * k <= b * l) by (nonlinear_arith)
            requires 0 <= b, 0 <= k <= l;
        assert(b * l / l == b) by (nonlinear_arith)
            requires 1 <= l;
        assert(b * k / l <= b * l / l) by (nonlinear_arith)
            requires 0 <= b * k <= b * l, 1 <= l;
        assert(b * k / l >= 0) by (nonlinear_arith)
            requires 0 <= b * k, 1 <= l;
    }
    (num / len as u32) as u8
}

/// Linear gradient of the droplet's colour by distance from the head (`0`, full
/// brightness) to the end of the trail (`len`, dark).
pub fn color_gradient(droplet: &Droplet, distance: u16) -> (c: Rgb)
    requires
        1 <= droplet.len,
        distance <= droplet.len,
    ensures
        c == gradient(droplet.len as int, distance as int),
{
    Rgb {
        r: fade_channel(BASE_RED, droplet.len, distance),
        g: fade_channel(BASE_GREEN, droplet.len, distance),
        b: fade_channel(BASE_BLUE, droplet.len, distance),
    }
}

/// One droplet per column of a screen of `cols` by `rows`, each placed for the first
/// frame.
pub fn initial_droplets(cols: u16, rows: u16) -> (ds: Vec<Droplet>)
    requires
        rows >= 1,
    ensures
        ds@.len() == cols,
        forall|c: int| 0 <= c < cols ==> (#[trigger] ds@[c])@.settled(rows as int) && ds@[c]@.wf(),
{
    let mut ds: Vec<Droplet> = Vec::new();
    let mut col: u16 = 0;
    while col < cols
        invariant
            rows >= 1,
            col <= cols,
            ds@.len() == col,
            forall|c: int| 0 <= c < col ==> (#[trigger] ds@[c])@.settled(rows as int) && ds@[c]@.wf(),
        decreases cols - col,
    {
        ds.push(Droplet::initial(rows));
        col = col + 1;
    }
    ds
}

/// One tick keeps the invariant.
pub proof fn lemma_advance_keeps_wf(d: DropletView)
    requires
        d.wf(),
    ensures
        d.advanced().wf(),
        d.advanced().row >= d.row,
{
}

/// However many ticks pass, the trail stays between one cell and `max_len` cells, the
/// accumulator stays at or below one row, and the target length and speed stay fixed.
pub proof fn lemma_advance_keeps_bounds(d: DropletView, n: nat)
    requires
        d.wf(),
    ensures
        d.advanced_by(n).wf(),
        1 <= d.advanced_by(n).len <= d.advanced_by(n).max_len,
        d.advanced_by(n).frame <= ROW_STEP,
        d.advanced_by(n).max_len == d.max_len,
        d.advanced_by(n).speed == d.speed,
    decreases n,
{
    if n > 0 {
        lemma_advance_keeps_bounds(d, (n - 1) as nat);
        lemma_advance_keeps_wf(d.advanced_by((n - 1) as nat));
    }
}

/// A droplet only falls: after `n` ticks its head is no higher than after `m <= n`.
pub proof fn lemma_advance_never_rises(d: DropletView, m: nat, n: nat)
    requires
        d.wf(),
        m <= n,
    ensures
        d.advanced_by(m).row <= d.advanced_by(n).row,
    decreases n,
{
    if m < n {
        lemma_advance_never_rises(d, m, (n - 1) as nat);
        lemma_advance_keeps_bounds(d, (n - 1) as nat);
        lemma_advance_keeps_wf(d.advanced_by((n - 1) as nat));
    }
}

} // verus!
