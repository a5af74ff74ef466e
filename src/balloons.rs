//! Balloons and the state machine that moves them along the route.
use vstd::prelude::*;
use crate::Tint;
use rand::Rng;
use crate::path::{BalloonPath, RectangleInPath, path_wf, lower, upper, SPAN, MAX_SEGMENTS};

verus! {

/// The fastest a balloon may travel per tick.
pub const MAX_SPEED: i64 = 1_000_000;

/// The largest radius of a balloon.
pub const MAX_RADIUS: i64 = 100_000_000;

/// A mobile entity travelling along the route.
///
/// `move_x` and `move_y` hold the movement committed on the current segment;
/// both are zero until the balloon has moved on it. `total_x` is the distance
/// travelled so far, which orders balloons front to back.
#[derive(Debug, Clone, Copy)]
pub struct Balloon {
    pub id: u64,
    pub x: i64,
    pub y: i64,
    pub radius: i64,
    pub color: Tint,
    pub reward: (u16, u64),
    pub damage: u16,
    pub total_x: u64,
    pub hitpoints: u64,
    pub current_segment: usize,
    pub move_x: i64,
    pub move_y: i64,
    pub speed: i64,
}

/// `a + b`, or `u64::MAX` where the sum would not fit.
pub open spec fn saturating_sum(a: int, b: int) -> u64 {
    if a + b <= u64::MAX {
        (a + b) as u64
    } else {
        u64::MAX
    }
}

/// Whether the balloon goes the positive way along its current segment when
/// it first moves on it: always on the first segment, and otherwise when the
/// segment's corner lies at or beyond the previous segment's.
pub open spec fn heads_forward(b: Balloon, p: Seq<RectangleInPath>) -> bool {
    let i = b.current_segment as int;
    if i == 0 {
        true
    } else if p[i].is_horizontal {
        p[i].x >= p[i - 1].x
    } else {
        p[i].y >= p[i - 1].y
    }
}

/// The move the balloon makes along its current segment: the committed one,
/// or, when none is committed yet, its speed in the segment's direction.
pub open spec fn heading(b: Balloon, p: Seq<RectangleInPath>) -> int {
    let committed = if p[b.current_segment as int].is_horizontal {
        b.move_x
    } else {
        b.move_y
    };
    if committed != 0 {
        committed as int
    } else if heads_forward(b, p) {
        b.speed as int
    } else {
        -b.speed
    }
}

/// Whether the balloon's move would take it off the extent of its current
/// segment along the segment's own axis.
pub open spec fn leaves_segment(b: Balloon, p: Seq<RectangleInPath>) -> bool {
    let s = p[b.current_segment as int];
    if s.is_horizontal {
        let next = b.x + heading(b, p);
        next < lower(s.x as int, s.x + s.width) || next > upper(s.x as int, s.x + s.width)
    } else {
        let next = b.y + heading(b, p);
        next < lower(s.y as int, s.y + s.height) || next > upper(s.y as int, s.y + s.height)
    }
}

/// The balloon after one committed movement on its current segment.
pub open spec fn commit(b: Balloon, p: Seq<RectangleInPath>) -> Balloon {
    let total = saturating_sum(b.total_x as int, b.speed as int);
    let d = heading(b, p);
    if p[b.current_segment as int].is_horizontal {
        Balloon { x: (b.x + d) as i64, move_x: d as i64, total_x: total, ..b }
    } else {
        Balloon { y: (b.y + d) as i64, move_y: d as i64, total_x: total, ..b }
    }
}

/// The balloon after moving on to the next segment, with no movement
/// committed there yet.
pub open spec fn next_segment(b: Balloon) -> Balloon {
    Balloon { current_segment: (b.current_segment + 1) as usize, move_x: 0, move_y: 0, ..b }
}

/// One tick of movement: the balloon afterwards, and whether it is still on
/// the route.
///
/// A move that would leave the current segment is not made; the balloon moves
/// on to the next segment and decides again there at once, the leftover
/// distance being dropped. Moving on past the last segment is an escape.
pub open spec fn step(b: Balloon, p: Seq<RectangleInPath>) -> (Balloon, bool)
    decreases p.len() - b.current_segment,
{
    if b.current_segment >= p.len() {
        (b, false)
    } else if leaves_segment(b, p) {
        let b2 = next_segment(b);
        if b.current_segment + 1 >= p.len() || b.current_segment == usize::MAX {
            (b2, false)
        } else {
            step(b2, p)
        }
    } else {
        (commit(b, p), true)
    }
}

/// The balloon after `n` ticks of movement.
pub open spec fn advance(b: Balloon, p: Seq<RectangleInPath>, n: nat) -> Balloon
    decreases n,
{
    if n == 0 {
        b
    } else {
        step(advance(b, p, (n - 1) as nat), p).0
    }
}

impl Balloon {
    /// The balloon's invariant on the route `p`.
    pub open spec fn wf(&self, p: Seq<RectangleInPath>) -> bool {
        &&& self.current_segment <= p.len()
        &&& 0 <= self.speed <= MAX_SPEED
        &&& 0 <= self.radius <= MAX_RADIUS
        &&& (self.move_x == 0 || self.move_x == self.speed || self.move_x == -self.speed)
        &&& (self.move_y == 0 || self.move_y == self.speed || self.move_y == -self.speed)
        &&& -2 * SPAN <= self.x <= 2 * SPAN
        &&& -2 * SPAN <= self.y <= 2 * SPAN
    }

    /// The centre the game aims at: the corner shifted by the radius on both axes.
    pub open spec fn center_x(&self) -> int {
        self.x + self.radius
    }

    /// See `center_x`.
    pub open spec fn center_y(&self) -> int {
        self.y + self.radius
    }

    /// Whether the balloon has no hitpoints left.
    pub open spec fn dead(&self) -> bool {
        self.hitpoints == 0
    }

    /// Takes `damage` off the hitpoints, which stop at zero.
    pub fn reduce_hitpoints(&mut self, damage: u64)
        ensures
            *final(self) == (Balloon {
                hitpoints: if old(self).hitpoints > damage {
                    (old(self).hitpoints - damage) as u64
                } else {
                    0
                },
                ..*old(self)
            }),
    {
        self.hitpoints = if self.hitpoints > damage {
            self.hitpoints - damage
        } else {
            0
        };
    }

    /// A copy of the balloon, to simulate ahead without moving the original.
    pub fn generate_clone(&self) -> (r: Balloon)
        ensures
            r == *self,
    {
        *self
    }

    /// Whether the balloon has no hitpoints left.
    pub fn is_dead(&self) -> (r: bool)
        ensures
            r == self.dead(),
    {
        self.hitpoints == 0
    }

    /// Moves the balloon by one tick along `path`; returns whether it is still
    /// on the route (`false` once it has escaped).
    pub fn move_balloon(&mut self, path: &BalloonPath) -> (r: bool)
        requires
            path.wf(),
            old(self).wf(path.elements@),
        ensures
            (*final(self), r) == step(*old(self), path.elements@),
            final(self).wf(path.elements@),
    {
        let n = path.elements.len();
        if self.current_segment >= n {
            return false;
        }
        let ghost p = path.elements@;
        let ghost start = *self;
        loop
            invariant
                path.wf(),
                p == path.elements@,
                n == p.len(),
                start == *old(self),
                self.wf(p),
                self.current_segment < n,
                step(start, p) == step(*self, p),
            decreases n - self.current_segment,
        {
            let seg = self.current_segment;
            let s = path.elements[seg];
            let ghost cur = *self;
            assert(s.wf());
            let committed = if s.is_horizontal {
                self.move_x
            } else {
                self.move_y
            };
            let forward = if seg == 0 {
                true
            } else if s.is_horizontal {
                s.x >= path.elements[seg - 1].x
            } else {
                s.y >= path.elements[seg - 1].y
            };
            let dir = if committed != 0 {
                committed
            } else if forward {
                self.speed
            } else {
                -self.speed
            };
            assert(dir == heading(cur, p));
            let (from, len) = if s.is_horizontal {
                (self.x, s.width)
            } else {
                (self.y, s.height)
            };
            let start_edge = if s.is_horizontal {
                s.x
            } else {
                s.y
            };
            let lo = if len >= 0 {
                start_edge
            } else {
                start_edge + len
            };
            let hi = if len >= 0 {
                start_edge + len
            } else {
                start_edge
            };
            let next = from + dir;
            if next < lo || next > hi {
                assert(leaves_segment(cur, p));
                self.current_segment = seg + 1;
                self.move_x = 0;
                self.move_y = 0;
                if self.current_segment == n {
                    return false;
                }
            } else {
                assert(!leaves_segment(cur, p));
                self.total_x = if self.total_x <= u64::MAX - self.speed as u64 {
                    self.total_x + self.speed as u64
                } else {
                    u64::MAX
                };
                if s.is_horizontal {
                    self.x = next;
                    self.move_x = dir;
                } else {
                    self.y = next;
                    self.move_y = dir;
                }
                assert(*self == commit(cur, p));
                return true;
            }
        }
    }
}

/// Neither the segment index nor the distance travelled ever goes down in
/// one tick of movement.
pub proof fn lemma_step_monotone(b: Balloon, p: Seq<RectangleInPath>)
    requires
        b.speed >= 0,
        p.len() <= MAX_SEGMENTS,
    ensures
        step(b, p).0.current_segment >= b.current_segment,
        step(b, p).0.total_x >= b.total_x,
    decreases p.len() - b.current_segment,
{
    if b.current_segment < p.len() && leaves_segment(b, p) {
        let b2 = next_segment(b);
        if !(b.current_segment + 1 >= p.len() || b.current_segment == usize::MAX) {
            lemma_step_monotone(b2, p);
        }
    }
}

/// Over any number of ticks, a balloon's segment index and distance travelled
/// never go down: at a later tick both are at least what they were before.
pub proof fn lemma_advance_monotone(b: Balloon, p: Seq<RectangleInPath>, m: nat, n: nat)
    requires
        b.speed >= 0,
        p.len() <= MAX_SEGMENTS,
        m <= n,
    ensures
        advance(b, p, m).current_segment <= advance(b, p, n).current_segment,
        advance(b, p, m).total_x <= advance(b, p, n).total_x,
        advance(b, p, n).speed == b.speed,
    decreases n,
{
    if n > 0 {
        let k: nat = if m < n { m } else { (n - 1) as nat };
        lemma_advance_monotone(b, p, k, (n - 1) as nat);
        lemma_step_keeps_speed(advance(b, p, (n - 1) as nat), p);
        lemma_step_monotone(advance(b, p, (n - 1) as nat), p);
    }
}

/// Movement never changes a balloon's speed, hitpoints, identifier or size.
pub proof fn lemma_step_keeps_speed(b: Balloon, p: Seq<RectangleInPath>)
    ensures
        step(b, p).0.speed == b.speed,
        step(b, p).0.hitpoints == b.hitpoints,
        step(b, p).0.id == b.id,
        step(b, p).0.radius == b.radius,
    decreases p.len() - b.current_segment,
{
    if b.current_segment < p.len() && leaves_segment(b, p) {
        let b2 = next_segment(b);
        if !(b.current_segment + 1 >= p.len() || b.current_segment == usize::MAX) {
            lemma_step_keeps_speed(b2, p);
        }
    }
}

/// The resolution of the random draws that mix a procedural wave.
pub const DRAW_RANGE: u32 = 1_000_000;

/// A draw `d` of a procedural wave for round `r` gives a red balloon when
/// `d * r < RED_SHARE`, that is with probability about `1.8 / r`.
pub const RED_SHARE: u128 = 1_800_000;

/// The balloon a template makes at `(x, y)`.
pub open spec fn template(
    x: i64,
    y: i64,
    radius: i64,
    color: Tint,
    hitpoints: u64,
    speed: i64,
    reward: u64,
    damage: u16,
) -> Balloon {
    Balloon {
        id: 0,
        x,
        y,
        radius,
        color,
        reward: (reward as u16, reward),
        damage,
        total_x: 0,
        hitpoints,
        current_segment: 0,
        move_x: 0,
        move_y: 0,
        speed,
    }
}

/// The weakest balloon.
pub open spec fn red_spec(x: i64, y: i64) -> Balloon {
    template(x, y, 5_000, Tint::Red, 1_000, 20, 1, 1)
}

/// A tougher, faster balloon.
pub open spec fn blue_spec(x: i64, y: i64) -> Balloon {
    template(x, y, 5_000, Tint::Blue, 2_000, 30, 2, 2)
}

/// The large balloon of late rounds.
pub open spec fn blimp_spec(x: i64, y: i64) -> Balloon {
    template(x, y, 15_000, Tint::Blue, 100_000, 20, 50, 50)
}

/// The balloon that a draw gives in a procedural wave of round `round`.
pub open spec fn drawn_spec(round: int, draw: int, x: i64, y: i64) -> Balloon {
    if draw * round < RED_SHARE {
        red_spec(x, y)
    } else if round > 4 {
        blimp_spec(x, y)
    } else {
        blue_spec(x, y)
    }
}

/// Whether some draw gives `b` in a procedural wave of round `round`.
pub open spec fn drawable(round: int, b: Balloon, x: i64, y: i64) -> bool {
    exists|d: int| 0 <= d < DRAW_RANGE && b == drawn_spec(round, d, x, y)
}

/// Relies on rand's thread_rng and Rng::gen_range: a number below `bound`,
/// which must be positive (gen_range panics on an empty range).
#[verifier::external_body]
fn random_below(bound: u32) -> (r: u32)
    requires
        bound > 0,
    ensures
        r < bound,
{
    rand::thread_rng().gen_range(0..bound)
}

/// Whether `w` is a fresh wave of round `round` starting at `(x, y)`.
pub open spec fn wave_for(round: int, x: i64, y: i64, w: BalloonWave) -> bool {
    &&& w.ticks_since_last == 0
    &&& w.current == 0
    &&& round == 1 ==> w.ticks_till_balloon == 500 && w.balloons@ == Seq::new(20, |i: int| red_spec(x, y))
    &&& round == 2 ==> w.ticks_till_balloon == 150 && w.balloons@ == Seq::new(40, |i: int| red_spec(x, y))
    &&& round == 3 ==> w.ticks_till_balloon == 300 && w.balloons@ == Seq::new(
        60,
        |i: int| if i % 2 != 0 { red_spec(x, y) } else { blue_spec(x, y) },
    )
    &&& round != 1 && round != 2 && round != 3 ==> {
        &&& w.ticks_till_balloon == 300
        &&& w.balloons@.len() == 20 * round
        &&& forall|i: int| 0 <= i < w.balloons@.len() ==> drawable(round, #[trigger] w.balloons@[i], x, y)
    }
}

/// Makes the balloons of each round.
#[derive(Debug, Default, Clone, Copy)]
pub struct BalloonFactory {}

impl BalloonFactory {
    /// The wave of round `round`, its balloons starting at `(x, y)`.
    ///
    /// The first three rounds are fixed; later ones hold `20 * round`
    /// balloons, each red or, with a chance that falls as rounds go on, blue
    /// (blimps after round four).
    pub fn generate_wave(&self, round: usize, x: i64, y: i64) -> (r: BalloonWave)
        requires
            round <= usize::MAX / 20,
        ensures
            wave_for(round as int, x, y, r),
    {
        if round == 1 {
            self.wave_1(x, y)
        } else if round == 2 {
            self.wave_2(x, y)
        } else if round == 3 {
            self.wave_3(x, y)
        } else {
            let n = round * 20;
            let mut balloons: Vec<Balloon> = Vec::new();
            let mut i: usize = 0;
            while i < n
                invariant
                    i <= n,
                    n == 20 * round,
                    balloons@.len() == i,
                    forall|j: int| 0 <= j < i ==> drawable(round as int, #[trigger] balloons@[j], x, y),
                decreases n - i,
            {
                let draw = random_below(DRAW_RANGE);
                let b = self.drawn_balloon(round, draw, x, y);
                balloons.push(b);
                i += 1;
                assert(balloons@[i - 1] == drawn_spec(round as int, draw as int, x, y));
            }
            BalloonWave { ticks_since_last: 0, ticks_till_balloon: 300, balloons, current: 0 }
        }
    }

    /// The balloon that the random draw `draw`, out of `DRAW_RANGE`, gives in
    /// a procedural wave of round `round`.
    pub fn drawn_balloon(&self, round: usize, draw: u32, x: i64, y: i64) -> (r: Balloon)
        ensures
            r == drawn_spec(round as int, draw as int, x, y),
    {
        assert((draw as u128) * (round as u128) <= 0xffff_ffffu128 * 0xffff_ffff_ffff_ffffu128)
            by (nonlinear_arith)
            requires draw <= 0xffff_ffffu128, round <= 0xffff_ffff_ffff_ffffu128;
        if (draw as u128) * (round as u128) < RED_SHARE {
            self.red_balloon(x, y)
        } else if round > 4 {
            self.blimp(x, y)
        } else {
            self.blue_balloon(x, y)
        }
    }

    fn wave_1(&self, x: i64, y: i64) -> (r: BalloonWave)
        ensures
            r.ticks_since_last == 0,
            r.current == 0,
            r.ticks_till_balloon == 500,
            r.balloons@ == Seq::new(20, |i: int| red_spec(x, y)),
    {
        let balloons = self.repeated_red(20, x, y);
        BalloonWave { ticks_since_last: 0, ticks_till_balloon: 500, balloons, current: 0 }
    }

    fn wave_2(&self, x: i64, y: i64) -> (r: BalloonWave)
        ensures
            r.ticks_since_last == 0,
            r.current == 0,
            r.ticks_till_balloon == 150,
            r.balloons@ == Seq::new(40, |i: int| red_spec(x, y)),
    {
        let balloons = self.repeated_red(40, x, y);
        BalloonWave { ticks_since_last: 0, ticks_till_balloon: 150, balloons, current: 0 }
    }

    fn wave_3(&self, x: i64, y: i64) -> (r: BalloonWave)
        ensures
            r.ticks_since_last == 0,
            r.current == 0,
            r.ticks_till_balloon == 300,
            r.balloons@ == Seq::new(
                60,
                |i: int| if i % 2 != 0 { red_spec(x, y) } else { blue_spec(x, y) },
            ),
    {
        let mut balloons: Vec<Balloon> = Vec::new();
        let mut i: usize = 0;
        while i < 60
            invariant
                i <= 60,
                balloons@ == Seq::new(
                    i as nat,
                    |j: int| if j % 2 != 0 { red_spec(x, y) } else { blue_spec(x, y) },
                ),
            decreases 60 - i,
        {
            if i % 2 != 0 {
                balloons.push(self.red_balloon(x, y));
            } else {
                balloons.push(self.blue_balloon(x, y));
            }
            i += 1;
            assert(balloons@ =~= Seq::new(
                i as nat,
                |j: int| if j % 2 != 0 { red_spec(x, y) } else { blue_spec(x, y) },
            ));
        }
        BalloonWave { ticks_since_last: 0, ticks_till_balloon: 300, balloons, current: 0 }
    }

    fn repeated_red(&self, n: usize, x: i64, y: i64) -> (r: Vec<Balloon>)
        ensures
            r@ == Seq::new(n as nat, |i: int| red_spec(x, y)),
    {
        let mut balloons: Vec<Balloon> = Vec::new();
        let mut i: usize = 0;
        while i < n
            invariant
                i <= n,
                balloons@ == Seq::new(i as nat, |j: int| red_spec(x, y)),
            decreases n - i,
        {
            balloons.push(self.red_balloon(x, y));
            i += 1;
            assert(balloons@ =~= Seq::new(i as nat, |j: int| red_spec(x, y)));
        }
        balloons
    }

    fn red_balloon(&self, x: i64, y: i64) -> (r: Balloon)
        ensures
            r == red_spec(x, y),
    {
        Balloon {
            id: 0,
            x,
            y,
            radius: 5_000,
            color: Tint::Red,
            reward: (1, 1),
            damage: 1,
            total_x: 0,
            hitpoints: 1_000,
            current_segment: 0,
            move_x: 0,
            move_y: 0,
            speed: 20,
        }
    }

    fn blue_balloon(&self, x: i64, y: i64) -> (r: Balloon)
        ensures
            r == blue_spec(x, y),
    {
        Balloon {
            id: 0,
            x,
            y,
            radius: 5_000,
            color: Tint::Blue,
            reward: (2, 2),
            damage: 2,
            total_x: 0,
            hitpoints: 2_000,
            current_segment: 0,
            move_x: 0,
            move_y: 0,
            speed: 30,
        }
    }

    fn blimp(&self, x: i64, y: i64) -> (r: Balloon)
        ensures
            r == blimp_spec(x, y),
    {
        Balloon {
            id: 0,
            x,
            y,
            radius: 15_000,
            color: Tint::Blue,
            reward: (50, 50),
            damage: 50,
            total_x: 0,
            hitpoints: 100_000,
            current_segment: 0,
            move_x: 0,
            move_y: 0,
            speed: 20,
        }
    }
}

/// The roster of one round and the timer that releases it.
#[derive(Debug, Clone)]
pub struct BalloonWave {
    pub ticks_since_last: u16,
    pub ticks_till_balloon: u16,
    pub balloons: Vec<Balloon>,
    pub current: usize,
}

impl BalloonWave {
    /// Whether the cursor lies within the roster.
    pub open spec fn wf(&self) -> bool {
        self.current <= self.balloons@.len()
    }

    /// One tick of the spawn timer: nothing while the interval has not
    /// elapsed; after that the timer restarts and the next balloon of the
    /// roster comes out, or nothing once the roster is exhausted.
    pub fn next(&mut self) -> (r: Option<Balloon>)
        requires
            old(self).wf(),
        ensures
            final(self).wf(),
            final(self).balloons == old(self).balloons,
            final(self).ticks_till_balloon == old(self).ticks_till_balloon,
            old(self).ticks_since_last < old(self).ticks_till_balloon ==> {
                &&& r is None
                &&& final(self).ticks_since_last == old(self).ticks_since_last + 1
                &&& final(self).current == old(self).current
            },
            old(self).ticks_since_last >= old(self).ticks_till_balloon ==> {
                &&& final(self).ticks_since_last == 0
                &&& if old(self).current == old(self).balloons@.len() {
                    r is None && final(self).current == old(self).current
                } else {
                    r == Some(old(self).balloons@[old(self).current as int]) && final(self).current
                        == old(self).current + 1
                }
            },
    {
        if self.ticks_since_last < self.ticks_till_balloon {
            self.ticks_since_last += 1;
            return None;
        }
        self.ticks_since_last = 0;
        if self.current == self.balloons.len() {
            None
        } else {
            let b = self.balloons[self.current];
            self.current += 1;
            Some(b)
        }
    }
}

} // verus!
