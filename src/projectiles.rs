//! Projectiles in flight: a fixed per-tick displacement and a countdown to
//! the tick on which they land on their target.
use vstd::prelude::*;
use crate::Tint;

verus! {

/// Bound on `|x| + |dx| * (flying_time + 1)` and its `y` counterpart: the
/// farthest a projectile can get from the origin before it is removed.
pub const PROJECTILE_BOUND: i64 = 10_000_000_000;

/// The state of one projectile. `target_balloon` names the balloon it was
/// fired at by that balloon's identifier, and is cleared once that balloon
/// is gone.
#[derive(Debug, Clone, Copy, PartialEq, Eq, Structural)]
pub struct Projectile {
    pub x: i64,
    pub y: i64,
    pub dx: i64,
    pub dy: i64,
    pub flying_time: i64,
    pub target_balloon: Option<u64>,
}

/// `|v|` on integers.
pub open spec fn abs(v: int) -> int {
    if v < 0 {
        -v
    } else {
        v
    }
}

impl Projectile {
    /// The projectile stays within reach of the origin until it is removed.
    pub open spec fn wf(&self) -> bool {
        &&& self.flying_time >= -1
        &&& abs(self.x as int) + abs(self.dx as int) * (self.flying_time + 1) <= PROJECTILE_BOUND
        &&& abs(self.y as int) + abs(self.dy as int) * (self.flying_time + 1) <= PROJECTILE_BOUND
    }

    /// The projectile one tick later.
    pub open spec fn moved(self) -> Projectile {
        Projectile {
            x: (self.x + self.dx) as i64,
            y: (self.y + self.dy) as i64,
            flying_time: (self.flying_time - 1) as i64,
            ..self
        }
    }

    /// Whether the projectile lands on the balloon `id` on this tick.
    pub open spec fn lands_on(self, id: u64) -> bool {
        self.flying_time == 0 && self.target_balloon == Some(id)
    }

    /// Moves the projectile by its displacement and counts its flight down by one.
    pub fn move_(&mut self)
        requires
            old(self).wf(),
            old(self).flying_time >= 0,
        ensures
            *final(self) == old(self).moved(),
            final(self).wf(),
    {
        let ghost ft = self.flying_time as int;
        proof {
            let (ax, adx) = (abs(self.x as int), abs(self.dx as int));
            assert(ax + adx <= PROJECTILE_BOUND) by (nonlinear_arith)
                requires ax + adx * (ft + 1) <= PROJECTILE_BOUND, ft >= 0, adx >= 0;
            assert(abs(self.x + self.dx) + adx * ft <= PROJECTILE_BOUND) by (nonlinear_arith)
                requires ax + adx * (ft + 1) <= PROJECTILE_BOUND, abs(self.x + self.dx) <= ax + adx;
            let (ay, ady) = (abs(self.y as int), abs(self.dy as int));
            assert(ay + ady <= PROJECTILE_BOUND) by (nonlinear_arith)
                requires ay + ady * (ft + 1) <= PROJECTILE_BOUND, ft >= 0, ady >= 0;
            assert(abs(self.y + self.dy) + ady * ft <= PROJECTILE_BOUND) by (nonlinear_arith)
                requires ay + ady * (ft + 1) <= PROJECTILE_BOUND, abs(self.y + self.dy) <= ay + ady;
        }
        self.x = self.x + self.dx;
        self.y = self.y + self.dy;
        self.flying_time = self.flying_time - 1;
    }
}

/// A projectile by the kind of tower that fired it, which decides how it looks.
#[derive(Debug, Clone, Copy, PartialEq, Eq, Structural)]
pub enum Projectiles {
    Dart(Projectile),
    Flame(Projectile),
}

impl Projectiles {
    /// The projectile's state, whatever its kind.
    pub open spec fn state(self) -> Projectile {
        match self {
            Projectiles::Dart(p) => p,
            Projectiles::Flame(p) => p,
        }
    }

    /// The same kind of projectile, in state `p`.
    pub open spec fn with_state(self, p: Projectile) -> Projectiles {
        match self {
            Projectiles::Dart(_) => Projectiles::Dart(p),
            Projectiles::Flame(_) => Projectiles::Flame(p),
        }
    }

    /// The projectile's state.
    pub fn projectile(&self) -> (r: Projectile)
        ensures
            r == self.state(),
    {
        match self {
            Projectiles::Dart(p) => *p,
            Projectiles::Flame(p) => *p,
        }
    }

    /// Advances the projectile by one tick.
    pub fn move_(&mut self)
        requires
            old(self).state().wf(),
            old(self).state().flying_time >= 0,
        ensures
            *final(self) == old(self).with_state(old(self).state().moved()),
            final(self).state().wf(),
    {
        match self {
            Projectiles::Dart(p) => p.move_(),
            Projectiles::Flame(p) => p.move_(),
        }
    }

    /// Drops the reference to balloon `id`, if the projectile holds one.
    pub fn clear_target(&mut self, id: u64)
        ensures
            *final(self) == old(self).with_state(untargeted(old(self).state(), id)),
    {
        match self {
            Projectiles::Dart(p) => {
                if p.target_balloon == Some(id) {
                    p.target_balloon = None;
                }
            },
            Projectiles::Flame(p) => {
                if p.target_balloon == Some(id) {
                    p.target_balloon = None;
                }
            },
        }
    }

    /// The radius with which the projectile is drawn.
    pub fn radius(&self) -> (r: i64)
        ensures
            r == (if self is Dart { 1_000i64 } else { 1_500i64 }),
    {
        match self {
            Projectiles::Dart(_) => 1_000,
            Projectiles::Flame(_) => 1_500,
        }
    }

    /// The colour in which the projectile is drawn.
    pub fn tint(&self) -> (r: Tint)
        ensures
            r == (if self is Dart { Tint::Gray } else { Tint::Yellow }),
    {
        match self {
            Projectiles::Dart(_) => Tint::Gray,
            Projectiles::Flame(_) => Tint::Yellow,
        }
    }
}

/// The projectile with its reference to balloon `id` dropped.
pub open spec fn untargeted(p: Projectile, id: u64) -> Projectile {
    if p.target_balloon == Some(id) {
        Projectile { target_balloon: None, ..p }
    } else {
        p
    }
}

/// Hit test: whether the projectile lands on the balloon `id` on this tick.
pub fn test(p: &Projectiles, id: u64) -> (r: bool)
    ensures
        r == p.state().lands_on(id),
{
    let s = p.projectile();
    s.flying_time == 0 && s.target_balloon == Some(id)
}

/// A projectile lands at most once: its countdown falls by one each tick, so
/// it is zero on one tick only.
pub proof fn lemma_lands_once(p: Projectile, id: u64, i: nat, j: nat)
    requires
        i < j,
        p.flying_time - j >= -1,
    ensures
        !(moved_times(p, i).lands_on(id) && moved_times(p, j).lands_on(id)),
{
    lemma_moved_times_countdown(p, i);
    lemma_moved_times_countdown(p, j);
}

/// The projectile after `n` ticks of flight.
pub open spec fn moved_times(p: Projectile, n: nat) -> Projectile
    decreases n,
{
    if n == 0 {
        p
    } else {
        moved_times(p, (n - 1) as nat).moved()
    }
}

/// After `n` ticks the countdown is down by exactly `n`.
pub proof fn lemma_moved_times_countdown(p: Projectile, n: nat)
    requires
        p.flying_time - n >= -1,
    ensures
        moved_times(p, n).flying_time == p.flying_time - n,
        moved_times(p, n).target_balloon == p.target_balloon,
    decreases n,
{
    if n > 0 {
        lemma_moved_times_countdown(p, (n - 1) as nat);
    }
}

} // verus!
