//! The game: economy, the fixed per-tick order of the simulation, and the
//! pointer and key actions of the player.
use vstd::prelude::*;
use vstd::seq_lib::{to_multiset_build, to_multiset_insert};
use crate::path::{BalloonPath, RectangleInPath, path_wf, on_path, standard_route, SPAN};
use crate::geometry::{div_trunc, divide_toward_zero};
use crate::projectiles::{Projectile, untargeted};
use crate::balloons::{Balloon, BalloonFactory, BalloonWave, step, wave_for, lemma_step_keeps_speed};
use crate::towers::{
    Tower, TowerShop, TowerView, volley, advance_all, count_hits, capped,
    cooldown_step, covers, footprints_overlap, shop_pick, lemma_volley_cooldown, Upgrade, upgraded,
};

verus! {

/// Gold at the start of a game.
pub const START_GOLD: u16 = 30;

/// Base hitpoints at the start of a game.
pub const START_HITPOINTS: u16 = 100;

/// Balloons after one tick of movement: those still on the route, in order.
pub open spec fn march(bs: Seq<Balloon>, p: Seq<RectangleInPath>) -> Seq<Balloon>
    decreases bs.len(),
{
    if bs.len() == 0 {
        bs
    } else {
        let rest = march(bs.drop_last(), p);
        let (b, on) = step(bs.last(), p);
        if on {
            rest.push(b)
        } else {
            rest
        }
    }
}

/// The base damage of the balloons that escape in one tick of movement.
pub open spec fn escape_damage(bs: Seq<Balloon>, p: Seq<RectangleInPath>) -> int
    decreases bs.len(),
{
    if bs.len() == 0 {
        0
    } else {
        escape_damage(bs.drop_last(), p) + if step(bs.last(), p).1 {
            0
        } else {
            bs.last().damage as int
        }
    }
}

/// `a - b`, or zero where that would be negative.
pub open spec fn saturating_diff(a: int, b: int) -> int {
    if a > b {
        a - b
    } else {
        0
    }
}

/// Whether the balloons are ordered front first: by distance travelled, descending.
pub open spec fn front_first(bs: Seq<Balloon>) -> bool {
    forall|i: int, j: int| 0 <= i < j < bs.len() ==> bs[i].total_x >= bs[j].total_x
}

/// Whether the balloon is on route `p` with hitpoints left.
pub open spec fn in_play(b: Balloon, p: Seq<RectangleInPath>) -> bool {
    b.wf(p) && b.hitpoints > 0
}

/// Whether every balloon is on route `p` with hitpoints left.
pub open spec fn all_in_play(bs: Seq<Balloon>, p: Seq<RectangleInPath>) -> bool {
    forall|i: int| 0 <= i < bs.len() ==> in_play(#[trigger] bs[i], p)
}

/// Whether every tower is well formed.
pub open spec fn all_wf(ts: Seq<Tower>) -> bool {
    forall|i: int| 0 <= i < ts.len() ==> (#[trigger] ts[i]).wf()
}

/// The first position from `j` on whose balloon travelled less than `b`.
pub open spec fn slot_for(r: Seq<Balloon>, b: Balloon, j: int) -> int
    decreases r.len() - j,
{
    if j < 0 || j >= r.len() {
        r.len() as int
    } else if r[j].total_x < b.total_x {
        j
    } else {
        slot_for(r, b, j + 1)
    }
}

/// The balloons ordered front first by insertion: each balloon goes after
/// every earlier one that travelled at least as far, so that balloons that
/// travelled equally far keep their order.
pub open spec fn by_progress(s: Seq<Balloon>) -> Seq<Balloon>
    decreases s.len(),
{
    if s.len() == 0 {
        s
    } else {
        let r = by_progress(s.drop_last());
        r.insert(slot_for(r, s.last(), 0), s.last())
    }
}

/// The balloons, ordered front first; balloons that travelled equally far
/// keep their order.
fn sort_by_progress(v: Vec<Balloon>, Ghost(p): Ghost<Seq<RectangleInPath>>) -> (r: Vec<Balloon>)
    ensures
        r@ == by_progress(v@),
        front_first(r@),
        r@.to_multiset() == v@.to_multiset(),
        r@.len() == v@.len(),
        all_in_play(v@, p) ==> all_in_play(r@, p),
{
    let mut r: Vec<Balloon> = Vec::new();
    let mut i: usize = 0;
    assert(r@ =~= v@.subrange(0, 0));
    while i < v.len()
        invariant
            i <= v@.len(),
            front_first(r@),
            r@ == by_progress(v@.subrange(0, i as int)),
            r@.to_multiset() == v@.subrange(0, i as int).to_multiset(),
            r@.len() == i,
            all_in_play(v@, p) ==> all_in_play(r@, p),
        decreases v@.len() - i,
    {
        let b = v[i];
        let mut j: usize = 0;
        while j < r.len() && r[j].total_x >= b.total_x
            invariant
                j <= r@.len(),
                forall|k: int| 0 <= k < j ==> r@[k].total_x >= b.total_x,
                slot_for(r@, b, 0) == slot_for(r@, b, j as int),
            decreases r@.len() - j,
        {
            j += 1;
        }
        let ghost before = r@;
        proof {
            assert(slot_for(before, b, j as int) == j);
            assert(v@.subrange(0, i as int + 1).drop_last() =~= v@.subrange(0, i as int));
            to_multiset_insert(before, j as int, b);
            to_multiset_build(v@.subrange(0, i as int), b);
            assert(v@.subrange(0, i as int + 1) =~= v@.subrange(0, i as int).push(b));
        }
        r.insert(j, b);
        assert forall|a: int, c: int| 0 <= a < c < r@.len() implies r@[a].total_x >= r@[c].total_x by {
            if c < j {
            } else if c == j {
            } else if a < j {
                assert(r@[c] == before[c - 1]);
            } else if a == j {
                assert(r@[c] == before[c - 1]);
                if j < before.len() {
                    assert(before[j as int].total_x < b.total_x);
                }
            } else {
                assert(r@[c] == before[c - 1]);
                assert(r@[a] == before[a - 1]);
            }
        }
        assert(all_in_play(v@, p) ==> all_in_play(r@, p)) by {
            if all_in_play(v@, p) {
                assert forall|k: int| 0 <= k < r@.len() implies in_play(#[trigger] r@[k], p) by {
                    if k < j {
                        assert(r@[k] == before[k]);
                    } else if k > j {
                        assert(r@[k] == before[k - 1]);
                    }
                }
            }
        }
        i += 1;
    }
    assert(v@.subrange(0, v@.len() as int) =~= v@);
    r
}

/// The state of one game.
#[derive(Debug)]
pub struct App {
    pub score: u64,
    pub highscore: u64,
    pub exit: bool,
    pub on_pause: bool,
    pub dead: bool,
    pub path: BalloonPath,
    pub balloons: Vec<Balloon>,
    pub towers: Vec<Tower>,
    pub balloon_factory: BalloonFactory,
    pub round: usize,
    pub max_cols: u16,
    pub max_rows: u16,
    pub gold: u16,
    pub hitpoints: u16,
    pub new_tower: Option<Tower>,
    pub tower_shop: TowerShop,
    pub upgrade_shop_open: Option<usize>,
    pub tower_shop_open: bool,
    pub restart: bool,
    pub next_id: u64,
}

/// The largest round a game can reach.
pub const MAX_ROUND: usize = 1_000_000;

/// Whether every balloon of a roster is well formed on route `p`.
pub open spec fn wave_fits(w: BalloonWave, p: Seq<RectangleInPath>) -> bool {
    w.wf() && all_in_play(w.balloons@, p)
}

impl App {
    /// The game's invariant.
    pub open spec fn wf(&self) -> bool {
        &&& self.path.wf()
        &&& all_in_play(self.balloons@, self.path.elements@)
        &&& all_wf(self.towers@)
        &&& self.tower_shop.wf()
        &&& (self.new_tower matches Some(t) ==> t.wf())
        &&& (self.upgrade_shop_open matches Some(i) ==> i < self.towers@.len())
        &&& self.round <= MAX_ROUND
        &&& self.max_cols > 0
        &&& self.max_rows > 0
    }

    /// A new game on a terminal of `cols` columns and `rows` rows.
    pub fn new(cols: u16, rows: u16) -> (r: Self)
        requires
            cols > 0,
            rows > 0,
        ensures
            r.wf(),
            r.score == 0 && r.highscore == 0,
            !r.exit && !r.on_pause && !r.dead && !r.restart,
            r.path.elements@ == standard_route(),
            r.balloons@.len() == 0,
            r.towers@.len() == 0,
            r.round == 0,
            r.max_cols == cols && r.max_rows == rows,
            r.gold == START_GOLD,
            r.hitpoints == START_HITPOINTS,
            r.new_tower is None,
            r.upgrade_shop_open is None,
            !r.tower_shop_open,
    {
        let mut path = BalloonPath::new();
        path.generate_path();
        assert(path.elements@ =~= standard_route());
        App {
            score: 0,
            highscore: 0,
            exit: false,
            on_pause: false,
            dead: false,
            path,
            balloons: Vec::new(),
            towers: Vec::new(),
            balloon_factory: BalloonFactory {},
            round: 0,
            max_cols: cols,
            max_rows: rows,
            gold: START_GOLD,
            hitpoints: START_HITPOINTS,
            new_tower: None,
            tower_shop: TowerShop::new(),
            upgrade_shop_open: None,
            tower_shop_open: false,
            restart: false,
            next_id: 0,
        }
    }

    /// Raises the high score to the score where the score is higher.
    pub fn highscore(&mut self)
        requires
            old(self).wf(),
        ensures
            final(self).wf(),
            record_step(*old(self), *final(self)),
    {
        if self.score > self.highscore {
            self.highscore = self.score;
        }
    }

    /// Asks for a restart.
    pub fn restart(&mut self)
        ensures
            final(self).restart,
            final(self).balloons == old(self).balloons,
    {
        self.restart = true;
    }

    /// Asks to leave the game.
    pub fn exit(&mut self)
        ensures
            final(self).exit,
    {
        self.exit = true;
    }

    /// Pauses the game, or resumes it when paused.
    pub fn pause(&mut self)
        ensures
            final(self).on_pause == !old(self).on_pause,
    {
        if self.on_pause {
            self.on_pause = false;
        } else {
            self.on_pause = true;
        }
    }

    /// Ends the game once the base has no hitpoints left.
    pub fn is_dead(&mut self)
        requires
            old(self).wf(),
        ensures
            final(self).wf(),
            dead_step(*old(self), *final(self)),
    {
        if !self.dead {
            if self.hitpoints == 0 {
                self.dead = true;
            }
        }
    }

    /// Whether the simulation stands still: paused, or the game is lost.
    pub fn is_frozen(&self) -> (r: bool)
        ensures
            r == (self.on_pause || self.dead),
    {
        self.on_pause || self.dead
    }

    /// Records the terminal's new size.
    pub fn handle_resize_event(&mut self, cols: u16, rows: u16)
        requires
            cols > 0,
            rows > 0,
        ensures
            final(self).max_cols == cols && final(self).max_rows == rows,
    {
        self.max_cols = cols;
        self.max_rows = rows;
    }

    /// The world ordinate of terminal row `row`: the top row is near `90`,
    /// the bottom one near `-90`.
    pub fn row_to_y(&self, row: u16) -> (r: i64)
        requires
            self.max_rows > 0,
        ensures
            r as int == div_trunc((self.max_rows as int - 1 - row as int) * 180_000, self.max_rows as int) - 90_000,
    {
        let max = self.max_rows as i64;
        let num = (max - 1 - row as i64) * 180_000;
        divide_toward_zero(num, max) - 90_000
    }

    /// The world abscissa of terminal column `col`.
    pub fn col_to_x(&self, col: u16) -> (r: i64)
        requires
            self.max_cols > 0,
        ensures
            r as int == (col as int + 1) * 180_000 / (self.max_cols as int) - 90_000,
    {
        let max = self.max_cols as i64;
        ((col as i64 + 1) * 180_000) / max - 90_000
    }

    /// Starts the next round and hands out its wave, which starts at the
    /// route's entry point.
    pub fn next_wave(&mut self) -> (r: BalloonWave)
        requires
            old(self).wf(),
        ensures
            final(self).wf(),
            final(self).round == if old(self).round < MAX_ROUND {
                old(self).round + 1
            } else {
                old(self).round as int
            },
            wave_fits(r, final(self).path.elements@),
            wave_for(final(self).round as int, final(self).path.elements@[0].x, final(self).path.elements@[0].y, r),
            *final(self) == (App { round: final(self).round, ..*old(self) }),
    {
        if self.round < MAX_ROUND {
            self.round += 1;
        }
        let start = self.path.elements[0];
        assert(self.path.elements@[0].wf());
        let wave = self.balloon_factory.generate_wave(self.round, start.x, start.y);
        assert forall|i: int| 0 <= i < wave.balloons@.len() implies (#[trigger] wave.balloons@[i]).wf(self.path.elements@) by {
            if self.round != 1 && self.round != 2 && self.round != 3 {
                assert(crate::balloons::drawable(self.round as int, wave.balloons@[i], start.x, start.y));
            }
        }
        wave
    }

    /// The spawn step: one tick of the wave's timer; a balloon that comes out
    /// joins the field with a fresh identifier. Returns whether the wave is
    /// exhausted.
    pub fn handle_wave(&mut self, wave: &mut BalloonWave) -> (r: bool)
        requires
            old(self).wf(),
            wave_fits(*old(wave), old(self).path.elements@),
        ensures
            final(self).wf(),
            wave_fits(*final(wave), final(self).path.elements@),
            spawn_step(*old(self), *old(wave), *final(self), *final(wave), r),
    {
        if wave.ticks_since_last < wave.ticks_till_balloon {
            let _ = wave.next();
            return false;
        }
        let next_balloon = wave.next();
        match next_balloon {
            None => true,
            Some(b) => {
                assert(b.wf(self.path.elements@));
                let mut b = b;
                b.id = self.next_id;
                if self.next_id < u64::MAX {
                    self.next_id = self.next_id + 1;
                }
                self.balloons.push(b);
                assert forall|i: int| 0 <= i < self.balloons@.len() implies in_play(#[trigger] self.balloons@[i], self.path.elements@) by {
                    if i < self.balloons@.len() - 1 {
                        assert(self.balloons@[i] == old(self).balloons@[i]);
                    }
                }
                false
            },
        }
    }

    /// The movement step: every balloon moves one tick; those that escape
    /// cost the base their damage and leave the field. The rest are then
    /// ordered front first.
    pub fn move_wave(&mut self)
        requires
            old(self).wf(),
        ensures
            final(self).wf(),
            march_step(*old(self), *final(self)),
            front_first(final(self).balloons@),
            final(self).balloons@.to_multiset() == march(old(self).balloons@, old(self).path.elements@).to_multiset(),
    {
        let ghost p = self.path.elements@;
        let ghost bs = self.balloons@;
        let mut kept: Vec<Balloon> = Vec::new();
        let mut i: usize = 0;
        assert(bs.subrange(0, 0) =~= Seq::<Balloon>::empty());
        while i < self.balloons.len()
            invariant
                self.wf(),
                self.highscore == old(self).highscore,
                self.dead == old(self).dead,
                p == self.path.elements@,
                bs == self.balloons@,
                self.towers == old(self).towers,
                self.path == old(self).path,
                self.gold == old(self).gold,
                self.score == old(self).score,
                i <= bs.len(),
                kept@ == march(bs.subrange(0, i as int), p),
                all_in_play(kept@, p),
                self.hitpoints == saturating_diff(old(self).hitpoints as int, escape_damage(bs.subrange(0, i as int), p)),
                *self == (App { hitpoints: self.hitpoints, ..*old(self) }),
            decreases bs.len() - i,
        {
            assert(bs.subrange(0, i as int + 1).drop_last() =~= bs.subrange(0, i as int));
            let mut b = self.balloons[i];
            let damage = b.damage;
            proof {
                lemma_step_keeps_speed(b, p);
            }
            if b.move_balloon(&self.path) {
                let ghost before = kept@;
                kept.push(b);
                assert forall|k: int| 0 <= k < kept@.len() implies in_play(#[trigger] kept@[k], p) by {
                    if k < before.len() {
                        assert(kept@[k] == before[k]);
                    }
                }
            } else {
                self.hitpoints = if self.hitpoints > damage {
                    self.hitpoints - damage
                } else {
                    0
                };
            }
            i += 1;
        }
        assert(bs.subrange(0, bs.len() as int) =~= bs);
        self.balloons = sort_by_progress(kept, Ghost(p));
    }

    /// The firing step: each tower, in placement order, advances its
    /// projectiles and then takes its turn against the balloons, front first.
    pub fn generate_projectiles(&mut self)
        requires
            old(self).wf(),
        ensures
            final(self).wf(),
            fire_step(*old(self), *final(self)),
            forall|k: int|
                0 <= k < old(self).towers@.len() ==> cooldown_step(
                    advanced(old(self).towers@[k]@),
                    #[trigger] final(self).towers@[k]@,
                ),
    {
        let ghost p = self.path.elements@;
        let ghost bs = self.balloons@;
        let ghost ts = self.towers@;
        let n = self.towers.len();
        let mut k: usize = 0;
        while k < n
            invariant
                self.wf(),
                self.highscore == old(self).highscore,
                self.dead == old(self).dead,
                p == self.path.elements@,
                bs == self.balloons@,
                n == ts.len(),
                self.towers@.len() == n,
                k <= n,
                self.balloons == old(self).balloons,
                self.path == old(self).path,
                self.gold == old(self).gold,
                self.score == old(self).score,
                self.hitpoints == old(self).hitpoints,
                ts == old(self).towers@,
                forall|j: int| 0 <= j < k ==> #[trigger] self.towers@[j]@ == volley(advanced(ts[j]@), bs, p, 0),
                *self == (App { towers: self.towers, ..*old(self) }),
                forall|j: int| k <= j < n ==> #[trigger] self.towers@[j] == ts[j],
            decreases n - k,
        {
            let mut t = self.towers.remove(k);
            assert(t == ts[k as int]);
            assert(t.wf());
            t.handle_projectile();
            let mut i: usize = 0;
            let mut done = false;
            while i < self.balloons.len() && !done
                invariant
                    path_wf(p),
                    p == self.path.elements@,
                    bs == self.balloons@,
                    all_in_play(bs, p),
                    i <= bs.len(),
                    t.wf(),
                    done ==> t@ == volley(advanced(ts[k as int]@), bs, p, 0),
                    !done ==> volley(advanced(ts[k as int]@), bs, p, 0) == volley(t@, bs, p, i as int),
                decreases bs.len() - i,
            {
                assert(bs[i as int].wf(p));
                if t.shoot(&self.balloons[i], &self.path) {
                    done = true;
                }
                i += 1;
            }
            let ghost before = self.towers@;
            self.towers.insert(k, t);
            assert forall|j: int| 0 <= j < self.towers@.len() implies (#[trigger] self.towers@[j]).wf() by {
                if j < k {
                    assert(self.towers@[j] == before[j]);
                } else if j > k {
                    assert(self.towers@[j] == before[j - 1]);
                }
            }
            assert forall|j: int| 0 <= j < k + 1 implies #[trigger] self.towers@[j]@ == volley(advanced(ts[j]@), bs, p, 0) by {
                if j < k {
                    assert(self.towers@[j] == before[j]);
                }
            }
            assert forall|j: int| k + 1 <= j < n implies #[trigger] self.towers@[j] == ts[j] by {
                assert(self.towers@[j] == before[j - 1]);
            }
            k += 1;
        }
        assert forall|j: int| 0 <= j < n implies cooldown_step(advanced(ts[j]@), #[trigger] self.towers@[j]@) by {
            lemma_volley_cooldown(advanced(ts[j]@), bs, p, 0);
        }
    }

    /// The damage that all towers' projectiles deal to balloon `id` on this tick.
    pub fn damage_balloon(&self, id: u64) -> (r: u64)
        ensures
            r == capped(hits_on(self.towers@, id)),
    {
        let ghost ts = self.towers@;
        let mut dmg: u64 = 0;
        let mut k: usize = 0;
        assert(ts.subrange(0, 0) =~= Seq::<Tower>::empty());
        while k < self.towers.len()
            invariant
                ts == self.towers@,
                k <= ts.len(),
                dmg == capped(hits_on(ts.subrange(0, k as int), id)),
            decreases ts.len() - k,
        {
            assert(ts.subrange(0, k as int + 1).drop_last() =~= ts.subrange(0, k as int));
            proof {
                lemma_hits_on_nonneg(ts.subrange(0, k as int), id);
            }
            let d = self.towers[k].calculate_damage(id);
            dmg = if dmg <= u64::MAX - d {
                dmg + d
            } else {
                u64::MAX
            };
            k += 1;
        }
        assert(ts.subrange(0, ts.len() as int) =~= ts);
        dmg
    }
}

/// A tower whose projectiles have advanced by one tick.
pub open spec fn advanced(t: TowerView) -> TowerView {
    TowerView { projectiles: advance_all(t.projectiles), ..t }
}

/// The damage that tower `t` deals to balloon `id` on this tick.
pub open spec fn tower_hits(t: Tower, id: u64) -> int {
    capped(count_hits(t.projectiles@, id) * t.damage_per_projectile) as int
}

/// The damage that the towers deal to balloon `id` on this tick.
pub open spec fn hits_on(ts: Seq<Tower>, id: u64) -> int
    decreases ts.len(),
{
    if ts.len() == 0 {
        0
    } else {
        hits_on(ts.drop_last(), id) + tower_hits(ts.last(), id)
    }
}

/// Damage is never negative.
pub proof fn lemma_hits_on_nonneg(ts: Seq<Tower>, id: u64)
    ensures
        hits_on(ts, id) >= 0,
    decreases ts.len(),
{
    if ts.len() > 0 {
        lemma_hits_on_nonneg(ts.drop_last(), id);
    }
}

/// The balloon after taking `dmg` damage; its hitpoints stop at zero.
pub open spec fn after_hits(b: Balloon, dmg: int) -> Balloon {
    Balloon { hitpoints: saturating_diff(b.hitpoints as int, dmg) as u64, ..b }
}

/// The balloons after this tick's projectiles have landed.
pub open spec fn struck(bs: Seq<Balloon>, ts: Seq<Tower>) -> Seq<Balloon> {
    Seq::new(bs.len(), |i: int| after_hits(bs[i], capped(hits_on(ts, bs[i].id)) as int))
}

/// The balloons that still have hitpoints, in order.
pub open spec fn survivors(bs: Seq<Balloon>) -> Seq<Balloon>
    decreases bs.len(),
{
    if bs.len() == 0 {
        bs
    } else if bs.last().dead() {
        survivors(bs.drop_last())
    } else {
        survivors(bs.drop_last()).push(bs.last())
    }
}

/// The gold that the dead balloons among `bs` are worth.
pub open spec fn gold_of_dead(bs: Seq<Balloon>) -> int
    decreases bs.len(),
{
    if bs.len() == 0 {
        0
    } else {
        gold_of_dead(bs.drop_last()) + if bs.last().dead() {
            bs.last().reward.0 as int
        } else {
            0
        }
    }
}

/// The score that the dead balloons among `bs` are worth.
pub open spec fn score_of_dead(bs: Seq<Balloon>) -> int
    decreases bs.len(),
{
    if bs.len() == 0 {
        0
    } else {
        score_of_dead(bs.drop_last()) + if bs.last().dead() {
            bs.last().reward.1 as int
        } else {
            0
        }
    }
}

/// `v`, or `u16::MAX` where it is larger.
pub open spec fn capped16(v: int) -> u16 {
    if v <= u16::MAX {
        v as u16
    } else {
        u16::MAX
    }
}

/// The projectile with every reference to a dead balloon among `bs` dropped.
pub open spec fn clear_all(p: Projectile, bs: Seq<Balloon>) -> Projectile
    decreases bs.len(),
{
    if bs.len() == 0 {
        p
    } else if bs.last().dead() {
        untargeted(clear_all(p, bs.drop_last()), bs.last().id)
    } else {
        clear_all(p, bs.drop_last())
    }
}

/// A tower's projectiles with every reference to a dead balloon among `bs` dropped.
pub open spec fn cleared(t: TowerView, bs: Seq<Balloon>) -> TowerView {
    TowerView {
        projectiles: Seq::new(
            t.projectiles.len(),
            |j: int| t.projectiles[j].with_state(clear_all(t.projectiles[j].state(), bs)),
        ),
        ..t
    }
}

impl App {
    /// The damage step: every balloon takes the damage of the projectiles
    /// that land on it this tick, summed over all towers. Then the dead leave
    /// the field, each crediting its reward once, and the projectiles aimed
    /// at them lose their target.
    pub fn handle_balloon_projectile_interaction(&mut self)
        requires
            old(self).wf(),
        ensures
            final(self).wf(),
            resolve_step(*old(self), *final(self)),
    {
        let ghost p = self.path.elements@;
        let ghost bs = self.balloons@;
        let ghost ts = self.towers@;
        let ghost hit = struck(bs, ts);
        let mut hit_v: Vec<Balloon> = Vec::new();
        let mut i: usize = 0;
        while i < self.balloons.len()
            invariant
                self.wf(),
                *self == *old(self),
                p == self.path.elements@,
                ts == self.towers@,
                bs == self.balloons@,
                i <= bs.len(),
                hit == struck(bs, ts),
                hit_v@ == hit.subrange(0, i as int),
                forall|j: int| 0 <= j < i ==> (#[trigger] hit_v@[j]).wf(p),
            decreases bs.len() - i,
        {
            let mut b = self.balloons[i];
            let dmg = self.damage_balloon(b.id);
            b.reduce_hitpoints(dmg);
            let ghost before = hit_v@;
            hit_v.push(b);
            assert(hit_v@ =~= hit.subrange(0, i as int + 1));
            assert forall|j: int| 0 <= j < i + 1 implies (#[trigger] hit_v@[j]).wf(p) by {
                if j < i {
                    assert(hit_v@[j] == before[j]);
                }
            }
            i += 1;
        }
        assert(hit_v@ =~= hit);
        let n = hit_v.len();
        let mut kept: Vec<Balloon> = Vec::new();
        let mut i: usize = 0;
        assert(hit.subrange(0, 0) =~= Seq::<Balloon>::empty());
        assert forall|k: int| 0 <= k < ts.len() implies #[trigger] self.towers@[k]@ == cleared(ts[k]@, hit.subrange(0, 0)) by {
            assert(ts[k]@.projectiles =~= cleared(ts[k]@, hit.subrange(0, 0)).projectiles);
        }
        while i < n
            invariant
                self.wf(),
                self.highscore == old(self).highscore,
                self.dead == old(self).dead,
                p == self.path.elements@,
                hit_v@ == hit,
                forall|j: int| 0 <= j < n ==> (#[trigger] hit_v@[j]).wf(p),
                n == hit.len(),
                i <= n,
                self.towers@.len() == ts.len(),
                self.path == old(self).path,
                self.hitpoints == old(self).hitpoints,
                kept@ == survivors(hit.subrange(0, i as int)),
                all_in_play(kept@, p),
                self.gold == capped16(old(self).gold + gold_of_dead(hit.subrange(0, i as int))),
                self.score == capped(old(self).score + score_of_dead(hit.subrange(0, i as int))),
                forall|k: int| 0 <= k < ts.len() ==> #[trigger] self.towers@[k]@ == cleared(ts[k]@, hit.subrange(0, i as int)),
                *self == (App { balloons: self.balloons, towers: self.towers, gold: self.gold, score: self.score, ..*old(self) }),
            decreases n - i,
        {
            let b = hit_v[i];
            let ghost pre = hit.subrange(0, i as int);
            assert(hit.subrange(0, i as int + 1).drop_last() =~= pre);
            assert(hit.subrange(0, i as int + 1).last() == b);
            proof {
                lemma_rewards_nonneg(pre);
            }
            if b.is_dead() {
                self.gold = if self.gold <= u16::MAX - b.reward.0 {
                    self.gold + b.reward.0
                } else {
                    u16::MAX
                };
                self.score = if self.score <= u64::MAX - b.reward.1 {
                    self.score + b.reward.1
                } else {
                    u64::MAX
                };
                let ghost g1 = self.gold;
                let ghost s1 = self.score;
                let mut k: usize = 0;
                while k < self.towers.len()
                    invariant
                        self.wf(),
                        self.highscore == old(self).highscore,
                        self.dead == old(self).dead,
                        self.gold == g1,
                        self.score == s1,
                        self.hitpoints == old(self).hitpoints,
                        p == self.path.elements@,
                        hit_v@ == hit,
                forall|j: int| 0 <= j < n ==> (#[trigger] hit_v@[j]).wf(p),
                        self.path == old(self).path,
                        self.towers@.len() == ts.len(),
                        k <= ts.len(),
                        b == hit[i as int],
                        b.hitpoints == 0,
                        hit.subrange(0, i as int + 1) == pre.push(b),
                        forall|j: int| 0 <= j < k ==> #[trigger] self.towers@[j]@ == cleared(ts[j]@, hit.subrange(0, i as int + 1)),
                        forall|j: int| k <= j < ts.len() ==> #[trigger] self.towers@[j]@ == cleared(ts[j]@, pre),
                        *self == (App { balloons: self.balloons, towers: self.towers, gold: self.gold, score: self.score, ..*old(self) }),
                    decreases ts.len() - k,
                {
                    let ghost before = self.towers@;
                    let mut t = self.towers.remove(k);
                    assert(t == before[k as int]);
                    t.remove_target_of_projectile(b.id);
                    assert(t@ == cleared(ts[k as int]@, hit.subrange(0, i as int + 1))) by {
                        let tv = ts[k as int]@;
                        let full = hit.subrange(0, i as int + 1);
                        assert forall|j: int| 0 <= j < tv.projectiles.len() implies clear_all(tv.projectiles[j].state(), full)
                            == untargeted(clear_all(tv.projectiles[j].state(), pre), b.id) by {
                            assert(full.drop_last() =~= pre);
                        }
                        assert(t@.projectiles =~= cleared(tv, full).projectiles);
                    }
                    self.towers.insert(k, t);
                    assert forall|j: int| 0 <= j < self.towers@.len() implies (#[trigger] self.towers@[j]).wf() by {
                        if j < k {
                            assert(self.towers@[j] == before[j]);
                        } else if j > k {
                            assert(self.towers@[j] == before[j]);
                        }
                    }
                    assert forall|j: int| 0 <= j < k + 1 implies #[trigger] self.towers@[j]@ == cleared(ts[j]@, hit.subrange(0, i as int + 1)) by {
                        if j < k {
                            assert(self.towers@[j] == before[j]);
                        }
                    }
                    assert forall|j: int| k + 1 <= j < ts.len() implies #[trigger] self.towers@[j]@ == cleared(ts[j]@, pre) by {
                        assert(self.towers@[j] == before[j]);
                    }
                    k += 1;
                }
            } else {
                assert(b.wf(p));
                let ghost before = kept@;
                kept.push(b);
                assert forall|k: int| 0 <= k < kept@.len() implies in_play(#[trigger] kept@[k], p) by {
                    if k < before.len() {
                        assert(kept@[k] == before[k]);
                    }
                }
                assert forall|k: int| 0 <= k < ts.len() implies #[trigger] self.towers@[k]@ == cleared(ts[k]@, hit.subrange(0, i as int + 1)) by {
                    let tv = ts[k]@;
                    let full = hit.subrange(0, i as int + 1);
                    assert forall|j: int| 0 <= j < tv.projectiles.len() implies clear_all(tv.projectiles[j].state(), full)
                        == clear_all(tv.projectiles[j].state(), pre) by {
                        assert(full.drop_last() =~= pre);
                    }
                    assert(cleared(tv, full).projectiles =~= cleared(tv, pre).projectiles);
                }
            }
            i += 1;
        }
        assert(hit.subrange(0, n as int) =~= hit);
        self.balloons = kept;
    }
}

/// Rewards are never negative.
pub proof fn lemma_rewards_nonneg(bs: Seq<Balloon>)
    ensures
        gold_of_dead(bs) >= 0,
        score_of_dead(bs) >= 0,
    decreases bs.len(),
{
    if bs.len() > 0 {
        lemma_rewards_nonneg(bs.drop_last());
    }
}

/// Whether tower `t` overlaps one of the towers `ts`.
pub open spec fn collision(ts: Seq<Tower>, t: TowerView) -> bool {
    exists|i: int| 0 <= i < ts.len() && #[trigger] footprints_overlap(ts[i]@, t)
}

/// Whether tower `t` may be built: off the route, clear of the towers `ts`,
/// and paid for by `gold`.
pub open spec fn placeable(p: Seq<RectangleInPath>, ts: Seq<Tower>, t: TowerView, gold: u16) -> bool {
    &&& !on_path(p, t.x as int, t.y as int, t.width as int, t.height as int)
    &&& !collision(ts, t)
    &&& gold >= t.cost
}

/// The first tower whose footprint holds `(x, y)`, from index `i` on.
pub open spec fn tower_at(ts: Seq<Tower>, x: int, y: int, i: int) -> Option<int>
    decreases ts.len() - i,
{
    if i < 0 || i >= ts.len() {
        None
    } else if covers(ts[i]@, x, y) {
        Some(i)
    } else {
        tower_at(ts, x, y, i + 1)
    }
}

/// The price of an upgrade.
pub open spec fn upgrade_price(u: Upgrade) -> u16 {
    match u {
        Upgrade::DamageUpgrade(c, _) => c,
        Upgrade::FireRateUpgrade(c, _) => c,
        Upgrade::RangeUpgrade(c, _) => c,
    }
}

/// Whether `v` lies within the world's square.
pub open spec fn in_world(v: int) -> bool {
    -SPAN <= v <= SPAN
}

impl App {
    /// One tick of the simulation, in its fixed order: spawning, movement,
    /// the check for a lost game, firing, damage, and the high score.
    /// Returns whether the wave is exhausted.
    pub fn tick(&mut self, wave: &mut BalloonWave) -> (r: bool)
        requires
            old(self).wf(),
            wave_fits(*old(wave), old(self).path.elements@),
        ensures
            final(self).wf(),
            wave_fits(*final(wave), final(self).path.elements@),
            exists|a1: App, a2: App, a3: App, a4: App, a5: App|
                #[trigger] tick_step(*old(self), *old(wave), a1, a2, a3, a4, a5, *final(self), *final(wave), r),
            final(self).highscore >= old(self).highscore,
            final(self).highscore >= final(self).score,
            final(self).hitpoints <= old(self).hitpoints,
            final(self).dead == (old(self).dead || final(self).hitpoints == 0),
            final(self).gold >= old(self).gold,
            final(self).score >= old(self).score,
            final(self).towers@.len() == old(self).towers@.len(),
    {
        let complete = self.handle_wave(wave);
        let ghost a1 = *self;
        proof {
            lemma_escape_damage_nonneg(self.balloons@, self.path.elements@);
        }
        self.move_wave();
        let ghost a2 = *self;
        self.is_dead();
        let ghost a3 = *self;
        self.generate_projectiles();
        let ghost a4 = *self;
        proof {
            lemma_rewards_nonneg(struck(self.balloons@, self.towers@));
        }
        self.handle_balloon_projectile_interaction();
        let ghost a5 = *self;
        self.highscore();
        assert(tick_step(*old(self), *old(wave), a1, a2, a3, a4, a5, *self, *wave, complete));
        complete
    }

    /// Whether the next round should start: the wave is exhausted and the
    /// field is empty.
    pub fn wants_next_wave(&self, wave_complete: bool) -> (r: bool)
        ensures
            r == (wave_complete && self.balloons@.len() == 0),
    {
        self.balloons.len() == 0 && wave_complete
    }

    /// Whether tower `tower` would stand on the route.
    pub fn tower_on_path(&self, tower: &Tower) -> (r: bool)
        requires
            self.wf(),
            tower.wf(),
        ensures
            r == on_path(self.path.elements@, tower.x as int, tower.y as int, tower.width as int, tower.height as int),
    {
        self.path.point_on_path(tower.x, tower.y, tower.width, tower.height)
    }

    /// Whether tower `tower` would overlap a placed tower.
    pub fn tower_collision(&self, tower: &Tower) -> (r: bool)
        requires
            self.wf(),
            tower.wf(),
        ensures
            r == collision(self.towers@, tower@),
    {
        let mut i: usize = 0;
        while i < self.towers.len()
            invariant
                self.wf(),
                tower.wf(),
                i <= self.towers@.len(),
                forall|j: int| 0 <= j < i ==> !#[trigger] footprints_overlap(self.towers@[j]@, tower@),
            decreases self.towers@.len() - i,
        {
            assert(self.towers@[i as int].wf());
            if self.towers[i].collides(tower) {
                assert(footprints_overlap(self.towers@[i as int]@, tower@));
                return true;
            }
            i += 1;
        }
        false
    }

    /// The first placed tower under the pointer at `(x, y)`.
    pub fn mouse_over_tower(&self, x: i64, y: i64) -> (r: Option<usize>)
        requires
            self.wf(),
        ensures
            match tower_at(self.towers@, x as int, y as int, 0) {
                Some(i) => r == Some(i as usize),
                None => r is None,
            },
    {
        let mut i: usize = 0;
        while i < self.towers.len()
            invariant
                self.wf(),
                i <= self.towers@.len(),
                tower_at(self.towers@, x as int, y as int, 0) == tower_at(self.towers@, x as int, y as int, i as int),
            decreases self.towers@.len() - i,
        {
            assert(self.towers@[i as int].wf());
            if self.towers[i].contains(x, y) {
                return Some(i);
            }
            i += 1;
        }
        None
    }

    /// Dragging with the button held moves the tower being placed.
    pub fn handle_mouse_drag(&mut self, x: i64, y: i64)
        requires
            old(self).wf(),
            in_world(x as int),
            in_world(y as int),
        ensures
            final(self).wf(),
            final(self).towers == old(self).towers,
            final(self).gold == old(self).gold,
            match old(self).new_tower {
                Some(t) => final(self).new_tower matches Some(u) && u@ == (TowerView { x, y, ..t@ }),
                None => final(self).new_tower is None,
            },
    {
        match self.new_tower.take() {
            Some(t) => {
                let mut t = t;
                t.x = x;
                t.y = y;
                self.new_tower = Some(t);
            },
            None => {},
        }
    }

    /// Releasing the button builds the tower being placed where the rules
    /// allow it (off the route, clear of other towers, paid for), or drops it
    /// when released over the open shop.
    pub fn handle_mouse_up(&mut self, x: i64, y: i64)
        requires
            old(self).wf(),
        ensures
            final(self).wf(),
            final(self).balloons == old(self).balloons,
            final(self).path == old(self).path,
            y > -70_000 || !old(self).tower_shop_open ==> match old(self).new_tower {
                Some(t) => if placeable(old(self).path.elements@, old(self).towers@, t@, old(self).gold) {
                    &&& final(self).towers@.len() == old(self).towers@.len() + 1
                    &&& final(self).towers@.last()@ == t@
                    &&& forall|i: int| 0 <= i < old(self).towers@.len() ==> #[trigger] final(self).towers@[i] == old(self).towers@[i]
                    &&& final(self).gold == old(self).gold - t.cost
                    &&& final(self).new_tower is None
                } else {
                    &&& final(self).towers == old(self).towers
                    &&& final(self).gold == old(self).gold
                    &&& final(self).new_tower == old(self).new_tower
                },
                None => final(self).towers == old(self).towers && final(self).gold == old(self).gold
                    && final(self).new_tower is None,
            },
            !(y > -70_000 || !old(self).tower_shop_open) ==> {
                &&& final(self).towers == old(self).towers
                &&& final(self).gold == old(self).gold
                &&& final(self).new_tower is None
            },
    {
        if y > -70_000 || !self.tower_shop_open {
            match self.new_tower.take() {
                Some(t) => {
                    if !self.tower_on_path(&t) && !self.tower_collision(&t) && self.gold >= t.cost {
                        self.gold = self.gold - t.cost;
                        let ghost before = self.towers@;
                        self.towers.push(t);
                        assert forall|i: int| 0 <= i < self.towers@.len() implies (#[trigger] self.towers@[i]).wf() by {
                            if i < before.len() {
                                assert(self.towers@[i] == before[i]);
                            }
                        }
                    } else {
                        self.new_tower = Some(t);
                    }
                },
                None => {},
            }
        } else {
            self.new_tower = None;
        }
    }

    /// Pressing the button: picks a tower in the open shop, opens or closes
    /// the shop, buys an upgrade from the open upgrade column or closes it,
    /// or opens the upgrade column of the tower under the pointer.
    pub fn handle_mouse_down(&mut self, x: i64, y: i64)
        requires
            old(self).wf(),
        ensures
            final(self).wf(),
            final(self).balloons == old(self).balloons,
            final(self).path == old(self).path,
            final(self).towers@.len() == old(self).towers@.len(),
            final(self).gold <= old(self).gold,
            y <= -70_000 && old(self).tower_shop_open ==> match shop_pick(
                x as int,
                old(self).gold as int,
                old(self).tower_shop.towers@,
                old(self).tower_shop.n_towers as int,
                0,
            ) {
                Some(i) => final(self).new_tower matches Some(t) && t@ == old(self).tower_shop.towers@[i]@,
                None => final(self).new_tower is None,
            },
            y <= -70_000 && !old(self).tower_shop_open ==> final(self).tower_shop_open == (y <= -83_000
                && x <= -85_000),
            y > -70_000 && y <= -65_000 && x <= -85_000 && old(self).tower_shop_open ==> !final(self).tower_shop_open,
            y <= -70_000 || (y <= -65_000 && x <= -85_000 && old(self).tower_shop_open) ==> {
                &&& final(self).towers == old(self).towers
                &&& final(self).gold == old(self).gold
                &&& final(self).upgrade_shop_open == old(self).upgrade_shop_open
            },
            !(y <= -70_000 || (y <= -65_000 && x <= -85_000 && old(self).tower_shop_open)) ==> {
                &&& final(self).tower_shop_open == old(self).tower_shop_open
                &&& final(self).new_tower == old(self).new_tower
                &&& match old(self).upgrade_shop_open {
                    Some(idx) => {
                        &&& forall|j: int| 0 <= j < old(self).towers@.len() && j != idx ==> #[trigger] final(self).towers@[j]
                            == old(self).towers@[j]
                        &&& if x >= 70_000 && (y >= -70_000 || !old(self).tower_shop_open) {
                            &&& final(self).upgrade_shop_open == old(self).upgrade_shop_open
                            &&& match old(self).towers@[idx as int].upgrades.pick(y as int) {
                                Some(u) => match upgraded(old(self).towers@[idx as int]@, u, old(self).gold) {
                                    Some(v) => final(self).towers@[idx as int]@ == v && final(self).gold == old(self).gold
                                        - upgrade_price(u),
                                    None => final(self).towers@ == old(self).towers@ && final(self).gold == old(self).gold,
                                },
                                None => final(self).towers@ == old(self).towers@ && final(self).gold == old(self).gold,
                            }
                        } else {
                            &&& final(self).upgrade_shop_open is None
                            &&& final(self).gold == old(self).gold
                            &&& final(self).towers@[idx as int]@ == (TowerView {
                                show_upgrades: !old(self).towers@[idx as int].upgrades.show_upgrades,
                                ..old(self).towers@[idx as int]@
                            })
                        }
                    },
                    None => {
                        &&& final(self).gold == old(self).gold
                        &&& match tower_at(old(self).towers@, x as int, y as int, 0) {
                            Some(idx) => {
                                &&& forall|j: int| 0 <= j < old(self).towers@.len() && j != idx ==> #[trigger] final(self).towers@[j]
                                    == old(self).towers@[j]
                                &&& final(self).towers@[idx]@ == (TowerView {
                                    show_upgrades: !old(self).towers@[idx].upgrades.show_upgrades,
                                    ..old(self).towers@[idx]@
                                })
                                &&& final(self).upgrade_shop_open == if final(self).towers@[idx].upgrades.show_upgrades {
                                    Some(idx as usize)
                                } else {
                                    None
                                }
                            },
                            None => final(self).towers == old(self).towers && final(self).upgrade_shop_open is None,
                        }
                    },
                }
            },
    {
        if y <= -70_000 {
            if self.tower_shop_open {
                self.new_tower = self.tower_shop.get_tower(x, &self.gold);
            } else {
                if y <= -83_000 && x <= -85_000 {
                    self.tower_shop_open = true;
                }
            }
        } else if y <= -65_000 && y >= -70_000 && x <= -85_000 && self.tower_shop_open {
            self.tower_shop_open = false;
        } else if let Some(idx) = self.upgrade_shop_open {
            let ghost before = self.towers@;
            let mut t = self.towers.remove(idx);
            assert(t == before[idx as int]);
            assert(t.wf());
            if x >= 70_000 && (y >= -70_000 || !self.tower_shop_open) {
                if let Some(cost) = t.buy_upgrade(y, &self.gold) {
                    self.gold = self.gold - cost;
                }
            } else {
                t.show_upgrades();
                self.upgrade_shop_open = None;
            }
            let ghost same = t == before[idx as int];
            self.towers.insert(idx, t);
            assert forall|i: int| 0 <= i < self.towers@.len() implies (#[trigger] self.towers@[i]).wf() by {
                if i != idx {
                    assert(self.towers@[i] == before[i]);
                }
            }
            proof {
                if same {
                    assert(self.towers@ =~= before);
                }
            }
        } else if let Some(idx) = self.mouse_over_tower(x, y) {
            proof {
                lemma_tower_at_range(self.towers@, x as int, y as int, 0);
                assert(self.towers@.len() == self.towers.len());
                assert(tower_at(self.towers@, x as int, y as int, 0) == Some(idx as int));
            }
            let ghost before = self.towers@;
            let mut t = self.towers.remove(idx);
            assert(t == before[idx as int]);
            t.show_upgrades();
            let shown = t.upgrades.show_upgrades;
            self.towers.insert(idx, t);
            assert forall|i: int| 0 <= i < self.towers@.len() implies (#[trigger] self.towers@[i]).wf() by {
                if i != idx {
                    assert(self.towers@[i] == before[i]);
                }
            }
            assert forall|j: int| 0 <= j < before.len() && j != idx implies #[trigger] self.towers@[j] == before[j] by {
            }
            if shown {
                self.upgrade_shop_open = Some(idx);
            } else {
                self.upgrade_shop_open = None;
            }
        }
    }
}

/// A tower found by `tower_at` exists.
pub proof fn lemma_tower_at_range(ts: Seq<Tower>, x: int, y: int, i: int)
    requires
        0 <= i,
    ensures
        tower_at(ts, x, y, i) is Some ==> i <= tower_at(ts, x, y, i).unwrap() < ts.len(),
    decreases ts.len() - i,
{
    if i < ts.len() && !covers(ts[i]@, x, y) {
        lemma_tower_at_range(ts, x, y, i + 1);
    }
}

/// Escapes never add hitpoints.
pub proof fn lemma_escape_damage_nonneg(bs: Seq<Balloon>, p: Seq<RectangleInPath>)
    ensures
        escape_damage(bs, p) >= 0,
    decreases bs.len(),
{
    if bs.len() > 0 {
        lemma_escape_damage_nonneg(bs.drop_last(), p);
    }
}

/// A dead balloon leaves the field once and is credited once, however many
/// projectiles struck it: the survivors and the rewards are those of the
/// field without it, plus its reward exactly one time.
pub proof fn lemma_killed_once(bs: Seq<Balloon>, i: int)
    requires
        0 <= i < bs.len(),
        bs[i].dead(),
    ensures
        survivors(bs) == survivors(bs.remove(i)),
        gold_of_dead(bs) == gold_of_dead(bs.remove(i)) + bs[i].reward.0,
        score_of_dead(bs) == score_of_dead(bs.remove(i)) + bs[i].reward.1,
    decreases bs.len(),
{
    if i == bs.len() - 1 {
        assert(bs.remove(i) =~= bs.drop_last());
    } else {
        lemma_killed_once(bs.drop_last(), i);
        assert(bs.remove(i).drop_last() =~= bs.drop_last().remove(i));
        assert(bs.remove(i).last() == bs.last());
    }
}

/// The identifier that follows `id`; the last one is handed out again.
pub open spec fn id_after(id: u64) -> u64 {
    if id < u64::MAX {
        (id + 1) as u64
    } else {
        id
    }
}

/// The spawn step: from game `a` and wave `w` to game `b` and wave `w2`,
/// with `done` telling whether the wave is exhausted.
pub open spec fn spawn_step(a: App, w: BalloonWave, b: App, w2: BalloonWave, done: bool) -> bool {
    &&& w2.ticks_till_balloon == w.ticks_till_balloon
    &&& w2.balloons == w.balloons
    &&& if w.ticks_since_last < w.ticks_till_balloon {
        &&& !done
        &&& b == a
        &&& w2.ticks_since_last == w.ticks_since_last + 1
        &&& w2.current == w.current
    } else if w.current == w.balloons@.len() {
        &&& done
        &&& b == a
        &&& w2.ticks_since_last == 0
        &&& w2.current == w.current
    } else {
        &&& !done
        &&& w2.ticks_since_last == 0
        &&& w2.current == w.current + 1
        &&& b == (App { balloons: b.balloons, next_id: id_after(a.next_id), ..a })
        &&& b.balloons@ == a.balloons@.push(Balloon { id: a.next_id, ..w.balloons@[w.current as int] })
    }
}

/// The movement step: every balloon moves; the escaped ones leave and cost
/// the base their damage; the rest are ordered front first.
pub open spec fn march_step(a: App, b: App) -> bool {
    &&& b == (App { balloons: b.balloons, hitpoints: b.hitpoints, ..a })
    &&& b.balloons@ == by_progress(march(a.balloons@, a.path.elements@))
    &&& b.hitpoints == saturating_diff(a.hitpoints as int, escape_damage(a.balloons@, a.path.elements@))
}

/// The check for a lost game.
pub open spec fn dead_step(a: App, b: App) -> bool {
    b == (App { dead: a.dead || a.hitpoints == 0, ..a })
}

/// The firing step: each tower advances its projectiles and takes its turn.
pub open spec fn fire_step(a: App, b: App) -> bool {
    &&& b == (App { towers: b.towers, ..a })
    &&& b.towers@.len() == a.towers@.len()
    &&& forall|k: int|
        0 <= k < a.towers@.len() ==> #[trigger] b.towers@[k]@ == volley(
            advanced(a.towers@[k]@),
            a.balloons@,
            a.path.elements@,
            0,
        )
}

/// The damage step: damage lands, the dead leave and are credited once, and
/// references to them are dropped.
pub open spec fn resolve_step(a: App, b: App) -> bool {
    let hit = struck(a.balloons@, a.towers@);
    &&& b == (App { balloons: b.balloons, towers: b.towers, gold: b.gold, score: b.score, ..a })
    &&& b.balloons@ == survivors(hit)
    &&& b.gold == capped16(a.gold + gold_of_dead(hit))
    &&& b.score == capped(a.score + score_of_dead(hit))
    &&& b.towers@.len() == a.towers@.len()
    &&& forall|k: int| 0 <= k < a.towers@.len() ==> #[trigger] b.towers@[k]@ == cleared(a.towers@[k]@, hit)
}

/// The high-score step.
pub open spec fn record_step(a: App, b: App) -> bool {
    b == (App { highscore: if a.score > a.highscore { a.score } else { a.highscore }, ..a })
}

/// One whole tick through the intermediate games `a1` to `a5`.
pub open spec fn tick_step(
    a0: App,
    w0: BalloonWave,
    a1: App,
    a2: App,
    a3: App,
    a4: App,
    a5: App,
    a6: App,
    w1: BalloonWave,
    done: bool,
) -> bool {
    &&& spawn_step(a0, w0, a1, w1, done)
    &&& march_step(a1, a2)
    &&& dead_step(a2, a3)
    &&& fire_step(a3, a4)
    &&& resolve_step(a4, a5)
    &&& record_step(a5, a6)
}

/// The damage step removes a balloon killed this tick once and, while gold
/// and score do not reach their limits, credits its reward exactly once,
/// however many towers' projectiles struck it.
pub proof fn lemma_kill_credited_once(a: App, b: App, i: int)
    requires
        resolve_step(a, b),
        0 <= i < a.balloons@.len(),
        struck(a.balloons@, a.towers@)[i].dead(),
        a.gold + gold_of_dead(struck(a.balloons@, a.towers@)) <= u16::MAX,
        a.score + score_of_dead(struck(a.balloons@, a.towers@)) <= u64::MAX,
    ensures
        b.balloons@ == survivors(struck(a.balloons@, a.towers@).remove(i)),
        b.gold == a.gold + gold_of_dead(struck(a.balloons@, a.towers@).remove(i)) + a.balloons@[i].reward.0,
        b.score == a.score + score_of_dead(struck(a.balloons@, a.towers@).remove(i)) + a.balloons@[i].reward.1,
{
    let hit = struck(a.balloons@, a.towers@);
    lemma_killed_once(hit, i);
    lemma_rewards_nonneg(hit);
}

} // verus!
