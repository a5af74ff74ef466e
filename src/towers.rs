//! Towers: placement footprints, cooldown-gated firing with lead prediction,
//! damage tallies and upgrades.
use vstd::prelude::*;
use crate::Tint;
use crate::geometry::{
    dist2, floor_sqrt, div_trunc, distance_in_2d, distance_squared, divide_toward_zero,
};
use crate::path::{BalloonPath, RectangleInPath, SPAN, spans_meet, ranges_overlap};
use crate::balloons::{Balloon, advance, MAX_RADIUS};
use crate::projectiles::{Projectile, Projectiles, abs, untargeted};

verus! {

/// How many refinements lead prediction makes before it gives up.
pub const LEAD_DEPTH: u64 = 10;

/// The largest projectile speed.
pub const MAX_PROJECTILE_SPEED: u64 = 1_000_000_000;

/// The largest range a tower may have.
pub const MAX_RANGE: u64 = 1_000_000_000;

/// Range upgrades are sold while the range is below this.
pub const RANGE_CAP: u64 = 180_000;

/// The kinds of tower.
#[derive(Debug, Clone, Copy, PartialEq, Eq, Structural)]
pub enum TowerKind {
    DartThrower,
    FlameThrower,
}

/// An upgrade on sale for a tower: its price, then how much it adds to the
/// range or the damage, or takes off the ticks between shots.
#[derive(Debug, Clone, Copy, PartialEq, Eq, Structural)]
pub enum Upgrade {
    RangeUpgrade(u16, u64),
    DamageUpgrade(u16, u64),
    FireRateUpgrade(u16, u16),
}

impl Upgrade {
    /// The amounts stay small enough to add without overflow.
    pub open spec fn wf(self) -> bool {
        match self {
            Upgrade::RangeUpgrade(_, v) => v <= SPAN,
            _ => true,
        }
    }
}

/// The upper edge of slot `i` of `n` in the upgrade column.
pub open spec fn upgrade_slot_edge(i: int, n: int) -> int {
    (i + 1) * 160_000 / n - 70_000
}

/// The first slot from `i` on whose upper edge lies at or above `y`, if any.
pub open spec fn upgrade_slot(y: int, n: int, i: int) -> Option<int>
    decreases n - i,
{
    if i >= n {
        None
    } else if y <= upgrade_slot_edge(i, n) {
        Some(i)
    } else {
        upgrade_slot(y, n, i + 1)
    }
}

/// The upgrades on sale for one tower, and whether they are shown.
#[derive(Debug, Clone)]
pub struct TowerUpgradeShop {
    pub show_upgrades: bool,
    pub possible_upgrades: Vec<Upgrade>,
}

impl TowerUpgradeShop {
    /// Every upgrade on sale is well formed.
    pub open spec fn wf(&self) -> bool {
        forall|i: int| 0 <= i < self.possible_upgrades@.len() ==> (#[trigger] self.possible_upgrades@[i]).wf()
    }

    /// The upgrade that a click at height `y` picks in the upgrade column.
    pub open spec fn pick(&self, y: int) -> Option<Upgrade> {
        match upgrade_slot(y, self.possible_upgrades@.len() as int, 0) {
            Some(i) => Some(self.possible_upgrades@[i]),
            None => None,
        }
    }

    fn new(upgrades: Vec<Upgrade>) -> (r: Self)
        ensures
            !r.show_upgrades,
            r.possible_upgrades@ == upgrades@,
    {
        TowerUpgradeShop { show_upgrades: false, possible_upgrades: upgrades }
    }

    /// The upgrade that a click at height `y` picks: the column is split into
    /// equal slots, the first one at the bottom.
    pub fn upgrade(&self, y: i64) -> (r: Option<Upgrade>)
        ensures
            r == self.pick(y as int),
    {
        let n = self.possible_upgrades.len();
        let mut i: usize = 0;
        while i < n
            invariant
                n == self.possible_upgrades@.len(),
                i <= n,
                upgrade_slot(y as int, n as int, 0) == upgrade_slot(y as int, n as int, i as int),
            decreases n - i,
        {
            let edge = ((i as u128 + 1) * 160_000) / (n as u128);
            if (y as i128) <= (edge as i128) - 70_000 {
                return Some(self.possible_upgrades[i]);
            }
            i += 1;
        }
        None
    }

    /// A copy of this shop.
    pub fn duplicate(&self) -> (r: Self)
        ensures
            r.show_upgrades == self.show_upgrades,
            r.possible_upgrades@ == self.possible_upgrades@,
    {
        let mut v: Vec<Upgrade> = Vec::new();
        let mut i: usize = 0;
        while i < self.possible_upgrades.len()
            invariant
                i <= self.possible_upgrades@.len(),
                v@ == self.possible_upgrades@.subrange(0, i as int),
            decreases self.possible_upgrades@.len() - i,
        {
            v.push(self.possible_upgrades[i]);
            i += 1;
            assert(v@ =~= self.possible_upgrades@.subrange(0, i as int));
        }
        assert(v@ =~= self.possible_upgrades@);
        TowerUpgradeShop { show_upgrades: self.show_upgrades, possible_upgrades: v }
    }
}

/// A tower, placed on the field or on show in the shop.
///
/// It fires from the middle of its left edge, once every
/// `ticks_per_projectile + 1` ticks at most; `ticks_since_last_projectile`
/// counts the ticks of the current wait.
#[derive(Debug)]
pub struct Tower {
    pub x: i64,
    pub y: i64,
    pub height: i64,
    pub width: i64,
    pub color: Tint,
    pub kind: TowerKind,
    pub projectiles: Vec<Projectiles>,
    pub cost: u16,
    pub upgrades: TowerUpgradeShop,
    pub damage_per_projectile: u64,
    pub projectile_speed: u64,
    pub ticks_per_projectile: u16,
    pub ticks_since_last_projectile: u16,
    pub range: u64,
}

/// What a tower is, with its collections as sequences.
pub struct TowerView {
    pub x: i64,
    pub y: i64,
    pub height: i64,
    pub width: i64,
    pub color: Tint,
    pub kind: TowerKind,
    pub projectiles: Seq<Projectiles>,
    pub cost: u16,
    pub show_upgrades: bool,
    pub upgrades: Seq<Upgrade>,
    pub damage_per_projectile: u64,
    pub projectile_speed: u64,
    pub ticks_per_projectile: u16,
    pub ticks_since_last_projectile: u16,
    pub range: u64,
}

impl View for Tower {
    type V = TowerView;

    open spec fn view(&self) -> TowerView {
        TowerView {
            x: self.x,
            y: self.y,
            height: self.height,
            width: self.width,
            color: self.color,
            kind: self.kind,
            projectiles: self.projectiles@,
            cost: self.cost,
            show_upgrades: self.upgrades.show_upgrades,
            upgrades: self.upgrades.possible_upgrades@,
            damage_per_projectile: self.damage_per_projectile,
            projectile_speed: self.projectile_speed,
            ticks_per_projectile: self.ticks_per_projectile,
            ticks_since_last_projectile: self.ticks_since_last_projectile,
            range: self.range,
        }
    }
}

/// Flight time in whole ticks: `dist / speed`, rounded half up.
pub open spec fn flight_ticks(dist: int, speed: int) -> int {
    (2 * dist + speed) / (2 * speed)
}

/// Whether two points lie within `3 * radius` of each other.
pub open spec fn within_tolerance(x0: int, y0: int, x1: int, y1: int, radius: int) -> bool {
    dist2(x0, y0, x1, y1) <= 9 * radius * radius
}

/// Lead prediction against balloon `b`, fired from `(fx, fy)` at `speed`,
/// aiming first at `(ax, ay)` with `depth` refinements left.
///
/// The flight time to the aim point gives where the balloon will be after
/// that many ticks of movement; when that lies within tolerance of the aim
/// point, the result is the flight time and that predicted centre.
/// Otherwise the predicted centre becomes the next aim point.
pub open spec fn lead(
    b: Balloon,
    p: Seq<RectangleInPath>,
    fx: int,
    fy: int,
    speed: int,
    ax: int,
    ay: int,
    depth: nat,
) -> Option<(int, int, int)>
    decreases depth,
{
    if depth == 0 {
        None
    } else {
        let t = flight_ticks(floor_sqrt(dist2(fx, fy, ax, ay)), speed);
        let q = advance(b, p, t as nat);
        let qx = q.x + b.radius;
        let qy = q.y + b.radius;
        if within_tolerance(ax, ay, qx, qy, b.radius as int) {
            Some((t, qx, qy))
        } else {
            lead(b, p, fx, fy, speed, qx, qy, (depth - 1) as nat)
        }
    }
}

/// Firing from `(fx, fy)` at `(aim_x, aim_y)` takes `t` ticks, after which
/// the balloon's centre is `(qx, qy)`, within tolerance of the aim point.
pub open spec fn intercepts(
    b: Balloon,
    p: Seq<RectangleInPath>,
    fx: int,
    fy: int,
    speed: int,
    aim_x: int,
    aim_y: int,
    t: int,
    qx: int,
    qy: int,
) -> bool {
    &&& t == flight_ticks(floor_sqrt(dist2(fx, fy, aim_x, aim_y)), speed)
    &&& qx == advance(b, p, t as nat).x + b.radius
    &&& qy == advance(b, p, t as nat).y + b.radius
    &&& within_tolerance(aim_x, aim_y, qx, qy, b.radius as int)
}

/// The aim point at which lead prediction stops refining.
pub open spec fn lead_aim(
    b: Balloon,
    p: Seq<RectangleInPath>,
    fx: int,
    fy: int,
    speed: int,
    ax: int,
    ay: int,
    depth: nat,
) -> (int, int)
    decreases depth,
{
    if depth == 0 {
        (ax, ay)
    } else {
        let t = flight_ticks(floor_sqrt(dist2(fx, fy, ax, ay)), speed);
        let q = advance(b, p, t as nat);
        let qx = q.x + b.radius;
        let qy = q.y + b.radius;
        if within_tolerance(ax, ay, qx, qy, b.radius as int) {
            (ax, ay)
        } else {
            lead_aim(b, p, fx, fy, speed, qx, qy, (depth - 1) as nat)
        }
    }
}

/// Lead prediction never hands back a shot whose intercept misses: the
/// predicted centre is where the balloon is after the flight time, and it
/// lies within tolerance of the point the flight time was measured to.
pub proof fn lemma_lead_within_tolerance(
    b: Balloon,
    p: Seq<RectangleInPath>,
    fx: int,
    fy: int,
    speed: int,
    ax: int,
    ay: int,
    depth: nat,
)
    ensures
        lead(b, p, fx, fy, speed, ax, ay, depth) matches Some((t, qx, qy)) ==> intercepts(
            b,
            p,
            fx,
            fy,
            speed,
            lead_aim(b, p, fx, fy, speed, ax, ay, depth).0,
            lead_aim(b, p, fx, fy, speed, ax, ay, depth).1,
            t,
            qx,
            qy,
        ),
    decreases depth,
{
    if depth > 0 {
        let t = flight_ticks(floor_sqrt(dist2(fx, fy, ax, ay)), speed);
        let q = advance(b, p, t as nat);
        let qx = q.x + b.radius;
        let qy = q.y + b.radius;
        if !within_tolerance(ax, ay, qx, qy, b.radius as int) {
            lemma_lead_within_tolerance(b, p, fx, fy, speed, qx, qy, (depth - 1) as nat);
        } else {
            assert(intercepts(b, p, fx, fy, speed, ax, ay, t, qx, qy));
        }
    }
}

/// The projectile that a shot with flight time `t` towards `(px, py)` gives.
pub open spec fn shot(fx: int, fy: int, t: int, px: int, py: int, id: u64) -> Projectile {
    let d = if t > 0 { t } else { 1 };
    Projectile {
        x: fx as i64,
        y: fy as i64,
        dx: div_trunc(px - fx, d) as i64,
        dy: div_trunc(py - fy, d) as i64,
        flying_time: t as i64,
        target_balloon: Some(id),
    }
}

/// The projectiles after one tick: those whose countdown went below zero
/// are gone, and the others move.
pub open spec fn advance_all(s: Seq<Projectiles>) -> Seq<Projectiles>
    decreases s.len(),
{
    if s.len() == 0 {
        s
    } else {
        let rest = advance_all(s.drop_last());
        let last = s.last();
        if last.state().flying_time < 0 {
            rest
        } else {
            rest.push(last.with_state(last.state().moved()))
        }
    }
}

/// How many of the projectiles land on balloon `id` on this tick.
pub open spec fn count_hits(s: Seq<Projectiles>, id: u64) -> nat
    decreases s.len(),
{
    if s.len() == 0 {
        0
    } else {
        count_hits(s.drop_last(), id) + if s.last().state().lands_on(id) {
            1nat
        } else {
            0nat
        }
    }
}

/// `v`, or `u64::MAX` where it is larger.
pub open spec fn capped(v: int) -> u64 {
    if v <= u64::MAX {
        v as u64
    } else {
        u64::MAX
    }
}

/// What a tower becomes when it gets the upgrade `u` bought with `gold`,
/// if the purchase goes through.
pub open spec fn upgraded(t: TowerView, u: Upgrade, gold: u16) -> Option<TowerView> {
    match u {
        Upgrade::DamageUpgrade(cost, dmg) => if gold >= cost {
            Some(TowerView { damage_per_projectile: capped(t.damage_per_projectile + dmg), ..t })
        } else {
            None
        },
        Upgrade::FireRateUpgrade(cost, rate) => if gold >= cost && t.ticks_per_projectile >= rate {
            Some(TowerView { ticks_per_projectile: (t.ticks_per_projectile - rate) as u16, ..t })
        } else {
            None
        },
        Upgrade::RangeUpgrade(cost, range) => if gold >= cost && t.range < RANGE_CAP {
            Some(TowerView { range: (t.range + range) as u64, ..t })
        } else {
            None
        },
    }
}

/// Whether the closed footprints of towers `a` and `b` meet.
pub open spec fn footprints_overlap(a: TowerView, b: TowerView) -> bool {
    spans_meet(a.x as int, a.x + a.width, b.x as int, b.x + b.width) && spans_meet(
        a.y as int,
        a.y + a.height,
        b.y as int,
        b.y + b.height,
    )
}

/// Whether `(x, y)` lies within the footprint of tower `t`.
pub open spec fn covers(t: TowerView, x: int, y: int) -> bool {
    (x >= t.x && x <= t.x + t.width) && (y >= t.y && y <= t.y + t.height)
}

/// The point a tower fires from: the middle of its left edge.
pub open spec fn fire_x(t: TowerView) -> int {
    t.x as int
}

/// See `fire_x`.
pub open spec fn fire_y(t: TowerView) -> int {
    t.y + t.height / 2
}

/// Whether balloon `b` lies out of the tower's range.
pub open spec fn out_of_range(t: TowerView, b: Balloon) -> bool {
    dist2(fire_x(t), fire_y(t), b.center_x(), b.center_y()) > t.range * t.range
}

/// The lead prediction of tower `t` against balloon `b` on route `p`.
pub open spec fn prediction(t: TowerView, b: Balloon, p: Seq<RectangleInPath>) -> Option<(int, int, int)> {
    lead(b, p, fire_x(t), fire_y(t), t.projectile_speed as int, b.center_x(), b.center_y(), LEAD_DEPTH as nat)
}

/// The projectile of tower `t`'s kind in state `s`.
pub open spec fn of_kind(t: TowerView, s: Projectile) -> Projectiles {
    match t.kind {
        TowerKind::DartThrower => Projectiles::Dart(s),
        TowerKind::FlameThrower => Projectiles::Flame(s),
    }
}

/// The projectiles after a shot at `b`: one more when lead prediction
/// succeeds.
pub open spec fn after_shot(t: TowerView, b: Balloon, p: Seq<RectangleInPath>) -> Seq<Projectiles> {
    match prediction(t, b, p) {
        Some((n, px, py)) => t.projectiles.push(of_kind(t, shot(fire_x(t), fire_y(t), n, px, py, b.id))),
        None => t.projectiles,
    }
}

/// Lead prediction of tower `t` against `b` succeeded, and the balloon's
/// predicted centre lies within tolerance of the aim point whose flight
/// time the shot uses.
pub open spec fn shot_within_tolerance(t: TowerView, b: Balloon, p: Seq<RectangleInPath>) -> bool {
    let (fx, fy, speed) = (fire_x(t), fire_y(t), t.projectile_speed as int);
    let aim = lead_aim(b, p, fx, fy, speed, b.center_x(), b.center_y(), LEAD_DEPTH as nat);
    let found = prediction(t, b, p);
    &&& found is Some
    &&& intercepts(b, p, fx, fy, speed, aim.0, aim.1, found.unwrap().0, found.unwrap().1, found.unwrap().2)
}

/// One firing decision of tower `t` against balloon `b`: the tower
/// afterwards, and whether the decision used up the tower's turn.
pub open spec fn shoot_spec(t: TowerView, b: Balloon, p: Seq<RectangleInPath>) -> (TowerView, bool) {
    if t.ticks_since_last_projectile < t.ticks_per_projectile {
        (TowerView { ticks_since_last_projectile: (t.ticks_since_last_projectile + 1) as u16, ..t }, true)
    } else if out_of_range(t, b) {
        (TowerView { ticks_since_last_projectile: 0, ..t }, false)
    } else {
        (TowerView { ticks_since_last_projectile: 0, projectiles: after_shot(t, b, p), ..t }, true)
    }
}

/// A tower's turn: it tries the balloons from index `i` on, front first,
/// until one decision uses up its turn.
pub open spec fn volley(t: TowerView, bs: Seq<Balloon>, p: Seq<RectangleInPath>, i: int) -> TowerView
    decreases bs.len() - i,
{
    if i < 0 || i >= bs.len() {
        t
    } else {
        let (t2, done) = shoot_spec(t, bs[i], p);
        if done {
            t2
        } else {
            volley(t2, bs, p, i + 1)
        }
    }
}

/// A fresh dart thrower at `(x, y)`.
pub open spec fn dart_thrower_view(x: i64, y: i64) -> TowerView {
    TowerView {
        x,
        y,
        height: 5_000,
        width: 5_000,
        color: Tint::Blue,
        kind: TowerKind::DartThrower,
        projectiles: Seq::empty(),
        cost: 10,
        show_upgrades: false,
        upgrades: seq![
            Upgrade::RangeUpgrade(50, 20_000),
            Upgrade::DamageUpgrade(40, 5_000),
            Upgrade::FireRateUpgrade(30, 20),
        ],
        damage_per_projectile: 10_000,
        projectile_speed: 500,
        ticks_per_projectile: 800,
        ticks_since_last_projectile: 0,
        range: 90_000,
    }
}

/// A fresh flame thrower at `(x, y)`.
pub open spec fn flame_thrower_view(x: i64, y: i64) -> TowerView {
    TowerView {
        x,
        y,
        height: 5_000,
        width: 5_000,
        color: Tint::LightRed,
        kind: TowerKind::FlameThrower,
        projectiles: Seq::empty(),
        cost: 30,
        show_upgrades: false,
        upgrades: seq![Upgrade::RangeUpgrade(50, 20_000), Upgrade::DamageUpgrade(40, 5_000)],
        damage_per_projectile: 10,
        projectile_speed: 300,
        ticks_per_projectile: 0,
        ticks_since_last_projectile: 0,
        range: 45_000,
    }
}

impl Tower {
    /// The tower's invariant.
    pub open spec fn wf(&self) -> bool {
        &&& -SPAN <= self.x <= SPAN
        &&& -SPAN <= self.y <= SPAN
        &&& 0 <= self.height <= SPAN
        &&& 0 <= self.width <= SPAN
        &&& 1 <= self.projectile_speed <= MAX_PROJECTILE_SPEED
        &&& self.range <= MAX_RANGE
        &&& self.upgrades.wf()
        &&& forall|i: int| 0 <= i < self.projectiles@.len() ==> (#[trigger] self.projectiles@[i]).state().wf()
    }

    /// The dart thrower: slow, strong shots at long range.
    pub fn dart_thrower(x: i64, y: i64) -> (r: Self)
        ensures
            r@ == dart_thrower_view(x, y),
    {
        let ups = vec![
            Upgrade::RangeUpgrade(50, 20_000),
            Upgrade::DamageUpgrade(40, 5_000),
            Upgrade::FireRateUpgrade(30, 20),
        ];
        Tower {
            x,
            y,
            height: 5_000,
            width: 5_000,
            color: Tint::Blue,
            kind: TowerKind::DartThrower,
            projectiles: Vec::new(),
            cost: 10,
            upgrades: TowerUpgradeShop::new(ups),
            damage_per_projectile: 10_000,
            projectile_speed: 500,
            ticks_per_projectile: 800,
            ticks_since_last_projectile: 0,
            range: 90_000,
        }
    }

    /// The flame thrower: a stream of weak shots at short range.
    pub fn flame_thrower(x: i64, y: i64) -> (r: Self)
        ensures
            r@ == flame_thrower_view(x, y),
    {
        let ups = vec![Upgrade::RangeUpgrade(50, 20_000), Upgrade::DamageUpgrade(40, 5_000)];
        Tower {
            x,
            y,
            height: 5_000,
            width: 5_000,
            color: Tint::LightRed,
            kind: TowerKind::FlameThrower,
            projectiles: Vec::new(),
            cost: 30,
            upgrades: TowerUpgradeShop::new(ups),
            damage_per_projectile: 10,
            projectile_speed: 300,
            ticks_per_projectile: 0,
            ticks_since_last_projectile: 0,
            range: 45_000,
        }
    }

    /// Whether the footprints of this tower and `tower` overlap.
    pub fn collides(&self, tower: &Tower) -> (r: bool)
        requires
            self.wf(),
            tower.wf(),
        ensures
            r == footprints_overlap(self@, tower@),
    {
        ranges_overlap(self.x, self.x + self.width, tower.x, tower.x + tower.width) && ranges_overlap(
            self.y,
            self.y + self.height,
            tower.y,
            tower.y + tower.height,
        )
    }

    /// Whether `(x, y)` lies within this tower's footprint.
    pub fn contains(&self, x: i64, y: i64) -> (r: bool)
        requires
            self.wf(),
        ensures
            r == covers(self@, x as int, y as int),
    {
        (x as i128 >= self.x as i128 && x as i128 <= self.x as i128 + self.width as i128) && (
        y as i128 >= self.y as i128 && y as i128 <= self.y as i128 + self.height as i128)
    }

    /// One firing decision against balloon `balloon`.
    ///
    /// While the cooldown runs, the wait is counted and `true` comes back: the
    /// tick is spent. Otherwise the cooldown restarts; a balloon out of range
    /// gives `false`, so that the caller may try the next one; else lead
    /// prediction runs and, when it succeeds, a projectile is added.
    pub fn shoot(&mut self, balloon: &Balloon, path: &BalloonPath) -> (r: bool)
        requires
            old(self).wf(),
            path.wf(),
            balloon.wf(path.elements@),
        ensures
            final(self).wf(),
            (final(self)@, r) == shoot_spec(old(self)@, *balloon, path.elements@),
            fired(old(self)@, final(self)@) ==> shot_within_tolerance(old(self)@, *balloon, path.elements@),
    {
        if self.ticks_since_last_projectile < self.ticks_per_projectile {
            self.ticks_since_last_projectile += 1;
            return true;
        }
        self.ticks_since_last_projectile = 0;
        proof {
            lemma_lead_within_tolerance(
                *balloon,
                path.elements@,
                fire_x(old(self)@),
                fire_y(old(self)@),
                old(self).projectile_speed as int,
                balloon.center_x(),
                balloon.center_y(),
                LEAD_DEPTH as nat,
            );
        }
        let fx = self.x;
        let fy = self.y + self.height / 2;
        let d2 = distance_squared(fx, fy, balloon.x + balloon.radius, balloon.y + balloon.radius);
        assert((self.range as u128) * (self.range as u128) <= MAX_RANGE * MAX_RANGE) by (nonlinear_arith)
            requires self.range <= MAX_RANGE;
        if d2 as u128 > (self.range as u128) * (self.range as u128) {
            return false;
        }
        match self.get_trajectory(balloon, path) {
            Some((t, px, py)) => {
                let p = self.aimed(t, px, py, balloon.id);
                let ghost old_projectiles = self.projectiles@;
                self.projectiles.push(p);
                assert forall|i: int| 0 <= i < self.projectiles@.len() implies (
                #[trigger] self.projectiles@[i]).state().wf() by {
                    if i < old_projectiles.len() {
                        assert(self.projectiles@[i] == old_projectiles[i]);
                    }
                }
            },
            None => {},
        }
        true
    }

    /// The projectile of this tower's kind that flies from the firing point
    /// for `t` ticks towards `(px, py)`, aimed at balloon `id`.
    fn aimed(&self, t: u64, px: i64, py: i64, id: u64) -> (r: Projectiles)
        requires
            self.wf(),
            t <= 4_000_000_000,
            -400_000_000 <= px <= 400_000_000,
            -400_000_000 <= py <= 400_000_000,
        ensures
            r == of_kind(self@, shot(fire_x(self@), fire_y(self@), t as int, px as int, py as int, id)),
            r.state().wf(),
    {
        let fx = self.x;
        let fy = self.y + self.height / 2;
        let d: i64 = if t > 0 { t as i64 } else { 1 };
        let dx = divide_toward_zero(px - fx, d);
        let dy = divide_toward_zero(py - fy, d);
        proof {
            lemma_step_bound(px - fx, d as int, t as int);
            lemma_step_bound(py - fy, d as int, t as int);
        }
        let s = Projectile { x: fx, y: fy, dx, dy, flying_time: t as i64, target_balloon: Some(id) };
        match self.kind {
            TowerKind::DartThrower => Projectiles::Dart(s),
            TowerKind::FlameThrower => Projectiles::Flame(s),
        }
    }

    /// Lead prediction against `balloon`: the flight time and the predicted
    /// centre to fire at, or nothing when it does not converge.
    fn get_trajectory(&self, balloon: &Balloon, path: &BalloonPath) -> (r: Option<(u64, i64, i64)>)
        requires
            self.wf(),
            path.wf(),
            balloon.wf(path.elements@),
        ensures
            match prediction(self@, *balloon, path.elements@) {
                Some((t, px, py)) => r == Some((t as u64, px as i64, py as i64)) && 0 <= t <= 4_000_000_000
                    && -400_000_000 <= px <= 400_000_000 && -400_000_000 <= py <= 400_000_000,
                None => r is None,
            },
    {
        let ghost p = path.elements@;
        let ghost b = *balloon;
        let fx = self.x;
        let fy = self.y + self.height / 2;
        let speed = self.projectile_speed;
        let radius = balloon.radius;
        assert(9 * radius * radius <= 9 * MAX_RADIUS * MAX_RADIUS) by (nonlinear_arith)
            requires 0 <= radius <= MAX_RADIUS;
        let tolerance: u64 = 9 * (radius as u64) * (radius as u64);
        let mut ax = balloon.x + radius;
        let mut ay = balloon.y + radius;
        let mut depth: u64 = LEAD_DEPTH;
        while depth > 0
            invariant
                self.wf(),
                path.wf(),
                p == path.elements@,
                b == *balloon,
                b.wf(p),
                fx == fire_x(self@),
                fy == fire_y(self@),
                speed == self.projectile_speed,
                radius == b.radius,
                0 <= radius <= MAX_RADIUS,
                tolerance == 9 * radius * radius,
                -400_000_000 <= ax <= 400_000_000,
                -400_000_000 <= ay <= 400_000_000,
                prediction(self@, b, p) == lead(b, p, fx as int, fy as int, speed as int, ax as int, ay as int, depth as nat),
            decreases depth,
        {
            let dist = distance_in_2d(fx, fy, ax, ay);
            proof {
                assert(dist2(fx as int, fy as int, ax as int, ay as int) <= 8_000_000_000_000_000_000) by (nonlinear_arith)
                    requires -1_000_000_000 <= fx <= 1_000_000_000, -1_000_000_000 <= fy <= 1_000_000_000,
                        -1_000_000_000 <= ax <= 1_000_000_000, -1_000_000_000 <= ay <= 1_000_000_000;
                crate::geometry::lemma_sqrt_bound(dist2(fx as int, fy as int, ax as int, ay as int), dist as int);
            }
            let t: u64 = (2 * dist + speed) / (2 * speed);
            proof {
                let n = (2 * dist + speed) as int;
                let d = (2 * speed) as int;
                vstd::arithmetic::div_mod::lemma_fundamental_div_mod(n, d);
                vstd::arithmetic::div_mod::lemma_mod_bound(n, d);
                vstd::arithmetic::div_mod::lemma_div_pos_is_pos(n, d);
                assert(t <= 4_000_000_000) by (nonlinear_arith)
                    requires n == d * t + n % d, n % d >= 0, t >= 0, d >= 2, n == 2 * dist + speed,
                        d == 2 * speed, dist <= 3_000_000_000, speed >= 1;
            }
            let mut q = balloon.generate_clone();
            let mut k: u64 = 0;
            while k < t
                invariant
                    path.wf(),
                    p == path.elements@,
                    k <= t,
                    q.wf(p),
                    q == advance(b, p, k as nat),
                decreases t - k,
            {
                q.move_balloon(path);
                k += 1;
            }
            proof {
                crate::balloons::lemma_advance_monotone(b, p, 0, t as nat);
            }
            let qx = q.x + radius;
            let qy = q.y + radius;
            let err = distance_squared(ax, ay, qx, qy);
            if err <= tolerance {
                return Some((t, qx, qy));
            }
            ax = qx;
            ay = qy;
            depth -= 1;
        }
        None
    }

    /// Removes the projectiles whose countdown went below zero and moves the others.
    pub fn handle_projectile(&mut self)
        requires
            old(self).wf(),
        ensures
            final(self).wf(),
            final(self)@ == (TowerView { projectiles: advance_all(old(self).projectiles@), ..old(self)@ }),
    {
        let ghost old_s = self.projectiles@;
        let mut kept: Vec<Projectiles> = Vec::new();
        let mut i: usize = 0;
        while i < self.projectiles.len()
            invariant
                self.wf(),
                self.projectiles@ == old_s,
                i <= old_s.len(),
                kept@ == advance_all(old_s.subrange(0, i as int)),
                forall|j: int| 0 <= j < kept@.len() ==> (#[trigger] kept@[j]).state().wf(),
            decreases old_s.len() - i,
        {
            let mut p = self.projectiles[i];
            assert(old_s.subrange(0, i as int + 1).drop_last() =~= old_s.subrange(0, i as int));
            assert(p.state().wf());
            if p.projectile().flying_time >= 0 {
                p.move_();
                let ghost before = kept@;
                kept.push(p);
                assert forall|j: int| 0 <= j < kept@.len() implies (#[trigger] kept@[j]).state().wf() by {
                    if j < before.len() {
                        assert(kept@[j] == before[j]);
                    }
                }
            }
            i += 1;
        }
        assert(old_s.subrange(0, old_s.len() as int) =~= old_s);
        self.projectiles = kept;
    }

    /// The damage that this tower's projectiles deal to balloon `id` on this
    /// tick: one shot's damage for each projectile that lands on it.
    pub fn calculate_damage(&self, id: u64) -> (r: u64)
        ensures
            r == capped(count_hits(self.projectiles@, id) * self.damage_per_projectile),
    {
        let ghost s = self.projectiles@;
        assert(count_hits(s.subrange(0, 0), id) == 0);
        assert(0 * self.damage_per_projectile == 0);
        let mut dmg: u64 = 0;
        let mut i: usize = 0;
        while i < self.projectiles.len()
            invariant
                s == self.projectiles@,
                i <= s.len(),
                dmg == capped(count_hits(s.subrange(0, i as int), id) * self.damage_per_projectile),
            decreases s.len() - i,
        {
            assert(s.subrange(0, i as int + 1).drop_last() =~= s.subrange(0, i as int));
            let ghost c = count_hits(s.subrange(0, i as int), id);
            if crate::projectiles::test(&self.projectiles[i], id) {
                assert((c + 1) * self.damage_per_projectile == c * self.damage_per_projectile + self.damage_per_projectile) by (nonlinear_arith);
                dmg = if dmg <= u64::MAX - self.damage_per_projectile {
                    dmg + self.damage_per_projectile
                } else {
                    u64::MAX
                };
            }
            i += 1;
        }
        assert(s.subrange(0, s.len() as int) =~= s);
        dmg
    }

    /// Clears every reference to balloon `id` among this tower's projectiles.
    pub fn remove_target_of_projectile(&mut self, id: u64)
        requires
            old(self).wf(),
        ensures
            final(self).wf(),
            final(self)@ == (TowerView {
                projectiles: Seq::new(
                    old(self).projectiles@.len(),
                    |i: int| old(self).projectiles@[i].with_state(untargeted(old(self).projectiles@[i].state(), id)),
                ),
                ..old(self)@
            }),
    {
        let ghost old_s = self.projectiles@;
        let mut i: usize = 0;
        while i < self.projectiles.len()
            invariant
                self.projectiles@.len() == old_s.len(),
                i <= old_s.len(),
                forall|j: int| 0 <= j < i ==> #[trigger] self.projectiles@[j] == old_s[j].with_state(untargeted(old_s[j].state(), id)),
                forall|j: int| i <= j < old_s.len() ==> #[trigger] self.projectiles@[j] == old_s[j],
                forall|j: int| 0 <= j < old_s.len() ==> (#[trigger] old_s[j]).state().wf(),
                self@ == (TowerView { projectiles: self.projectiles@, ..old(self)@ }),
                self.upgrades.possible_upgrades == old(self).upgrades.possible_upgrades,
                old(self).wf(),
            decreases old_s.len() - i,
        {
            let mut p = self.projectiles[i];
            p.clear_target(id);
            self.projectiles.set(i, p);
            i += 1;
        }
        assert(self.projectiles@ =~= Seq::new(
            old_s.len(),
            |i: int| old_s[i].with_state(untargeted(old_s[i].state(), id)),
        ));
        assert forall|j: int| 0 <= j < self.projectiles@.len() implies (#[trigger] self.projectiles@[j]).state().wf() by {
            assert(old_s[j].state().wf());
        }
    }

    /// Shows the upgrade column if hidden, hides it if shown.
    pub fn show_upgrades(&mut self)
        ensures
            final(self)@ == (TowerView { show_upgrades: !old(self).upgrades.show_upgrades, ..old(self)@ }),
            final(self).upgrades.possible_upgrades == old(self).upgrades.possible_upgrades,
            final(self).projectiles == old(self).projectiles,
    {
        self.upgrades.show_upgrades = !self.upgrades.show_upgrades;
    }

    /// Buys the upgrade that a click at height `y` picks, if `gold` covers
    /// it and it still applies; returns its price when bought.
    pub fn buy_upgrade(&mut self, y: i64, gold: &u16) -> (r: Option<u16>)
        requires
            old(self).wf(),
        ensures
            final(self).wf(),
            final(self).upgrades.possible_upgrades == old(self).upgrades.possible_upgrades,
            final(self).projectiles == old(self).projectiles,
            match old(self).upgrades.pick(y as int) {
                Some(u) => match upgraded(old(self)@, u, *gold) {
                    Some(v) => final(self)@ == v && r == Some(
                        match u {
                            Upgrade::DamageUpgrade(c, _) => c,
                            Upgrade::FireRateUpgrade(c, _) => c,
                            Upgrade::RangeUpgrade(c, _) => c,
                        },
                    ),
                    None => final(self)@ == old(self)@ && r is None,
                },
                None => final(self)@ == old(self)@ && r is None,
            },
    {
        if let Some(upgrade) = self.upgrades.upgrade(y) {
            proof {
                let i = upgrade_slot(y as int, self.upgrades.possible_upgrades@.len() as int, 0);
                lemma_upgrade_slot_range(y as int, self.upgrades.possible_upgrades@.len() as int, 0);
                assert(self.upgrades.possible_upgrades@[i.unwrap()].wf());
            }
            match upgrade {
                Upgrade::DamageUpgrade(cost, dmg) => {
                    if *gold >= cost {
                        self.damage_per_projectile = if self.damage_per_projectile <= u64::MAX - dmg {
                            self.damage_per_projectile + dmg
                        } else {
                            u64::MAX
                        };
                        return Some(cost);
                    }
                },
                Upgrade::FireRateUpgrade(cost, rate) => {
                    if *gold >= cost {
                        if self.ticks_per_projectile >= rate {
                            self.ticks_per_projectile -= rate;
                            return Some(cost);
                        }
                    }
                },
                Upgrade::RangeUpgrade(cost, range) => {
                    if *gold >= cost {
                        if self.range < RANGE_CAP {
                            self.range += range;
                            return Some(cost);
                        }
                    }
                },
            }
        }
        None
    }

    /// A copy of this tower, projectiles and upgrades included.
    pub fn duplicate(&self) -> (r: Tower)
        ensures
            r@ == self@,
            self.wf() ==> r.wf(),
    {
        let mut ps: Vec<Projectiles> = Vec::new();
        let mut i: usize = 0;
        while i < self.projectiles.len()
            invariant
                i <= self.projectiles@.len(),
                ps@ == self.projectiles@.subrange(0, i as int),
            decreases self.projectiles@.len() - i,
        {
            ps.push(self.projectiles[i]);
            i += 1;
            assert(ps@ =~= self.projectiles@.subrange(0, i as int));
        }
        assert(ps@ =~= self.projectiles@);
        Tower {
            x: self.x,
            y: self.y,
            height: self.height,
            width: self.width,
            color: self.color,
            kind: self.kind,
            projectiles: ps,
            cost: self.cost,
            upgrades: self.upgrades.duplicate(),
            damage_per_projectile: self.damage_per_projectile,
            projectile_speed: self.projectile_speed,
            ticks_per_projectile: self.ticks_per_projectile,
            ticks_since_last_projectile: self.ticks_since_last_projectile,
            range: self.range,
        }
    }
}

/// A slot found by `upgrade_slot` lies within the column.
pub proof fn lemma_upgrade_slot_range(y: int, n: int, i: int)
    requires
        0 <= i,
    ensures
        upgrade_slot(y, n, i) matches Some(k) ==> i <= k < n,
    decreases n - i,
{
    if i < n && !(y <= upgrade_slot_edge(i, n)) {
        lemma_upgrade_slot_range(y, n, i + 1);
    }
}

/// A shot's per-tick displacement keeps the projectile within
/// `PROJECTILE_BOUND` until it is removed.
proof fn lemma_step_bound(off: int, d: int, t: int)
    requires
        -1_000_000_000 <= off <= 1_000_000_000,
        0 <= t,
        d == if t > 0 { t } else { 1 },
    ensures
        abs(div_trunc(off, d)) * (t + 1) <= 2_000_000_000,
        abs(div_trunc(off, d)) <= 1_000_000_000,
{
    let a = abs(off);
    let q = a / d;
    vstd::arithmetic::div_mod::lemma_fundamental_div_mod(a, d);
    vstd::arithmetic::div_mod::lemma_mod_bound(a, d);
    vstd::arithmetic::div_mod::lemma_div_pos_is_pos(a, d);
    assert(abs(div_trunc(off, d)) == q);
    assert(q * d <= a) by (nonlinear_arith)
        requires a == d * q + a % d, a % d >= 0;
    assert(q <= a) by (nonlinear_arith)
        requires q * d <= a, d >= 1, q >= 0;
    assert(q * (t + 1) <= 2 * a) by (nonlinear_arith)
        requires q * d <= a, d == if t > 0 { t } else { 1 }, q <= a, q >= 0, t >= 0;
}

/// Whether a turn fired: it added a projectile.
pub open spec fn fired(before: TowerView, after: TowerView) -> bool {
    after.projectiles.len() > before.projectiles.len()
}

/// The cooldown rules that a tower's turn keeps: its wait grows by one tick
/// at most, and it fires only once the wait has reached the firing period,
/// which starts the wait over.
pub open spec fn cooldown_step(before: TowerView, after: TowerView) -> bool {
    &&& after.ticks_per_projectile == before.ticks_per_projectile
    &&& after.ticks_since_last_projectile <= before.ticks_since_last_projectile + 1
    &&& after.projectiles.len() <= before.projectiles.len() + 1
    &&& fired(before, after) ==> before.ticks_since_last_projectile >= before.ticks_per_projectile
        && after.ticks_since_last_projectile == 0
}

/// Every turn of a tower keeps the cooldown rules.
pub proof fn lemma_volley_cooldown(t: TowerView, bs: Seq<Balloon>, p: Seq<RectangleInPath>, i: int)
    ensures
        cooldown_step(t, volley(t, bs, p, i)),
    decreases bs.len() - i,
{
    if 0 <= i < bs.len() {
        let (t2, done) = shoot_spec(t, bs[i], p);
        if !done {
            lemma_volley_cooldown(t2, bs, p, i + 1);
        }
    }
}

/// Tick `k` keeps the cooldown rules: the wait grows by one at most, and a
/// shot needs a full wait and starts it over.
pub open spec fn tick_keeps_cooldown(since: Seq<int>, fired: Seq<bool>, per: int, k: int) -> bool {
    since[k + 1] <= since[k] + 1 && (fired[k] ==> since[k] >= per && since[k + 1] == 0)
}

/// A tower never fires twice with fewer than `per` ticks between the shots.
///
/// `since[k]` is the tower's wait at the start of tick `k` and `fired[k]`
/// whether it fired during tick `k`; each tick keeps the cooldown rules.
pub proof fn lemma_shots_spaced(since: Seq<int>, fired: Seq<bool>, per: int, i: int, j: int)
    requires
        since.len() == fired.len() + 1,
        0 <= i < j < fired.len(),
        fired[i],
        fired[j],
        forall|k: int| 0 <= k < fired.len() ==> #[trigger] tick_keeps_cooldown(since, fired, per, k),
    ensures
        j - i > per,
{
    lemma_wait_grows_slowly(since, fired, per, i, j);
    assert(tick_keeps_cooldown(since, fired, per, j));
}

/// Over a run of calls to `shoot`, a tower never fires twice with fewer than
/// `ticks_per_projectile` calls between the shots.
///
/// `ts[k]` is the tower before call `k`, made against balloon `bs[k]`.
pub proof fn lemma_shoot_calls_spaced(
    ts: Seq<TowerView>,
    bs: Seq<Balloon>,
    p: Seq<RectangleInPath>,
    i: int,
    j: int,
)
    requires
        ts.len() == bs.len() + 1,
        forall|k: int| 0 <= k < bs.len() ==> ts[k + 1] == shoot_spec(ts[k], #[trigger] bs[k], p).0,
        0 <= i < j < bs.len(),
        fired(ts[i], ts[i + 1]),
        fired(ts[j], ts[j + 1]),
    ensures
        j - i > ts[0].ticks_per_projectile,
{
    let since = Seq::new(ts.len(), |k: int| ts[k].ticks_since_last_projectile as int);
    let fs = Seq::new(bs.len(), |k: int| fired(ts[k], ts[k + 1]));
    let per = ts[0].ticks_per_projectile as int;
    assert forall|k: int| 0 <= k < fs.len() implies #[trigger] tick_keeps_cooldown(since, fs, per, k) by {
        lemma_period_kept(ts, bs, p, k);
        assert(ts[k + 1] == shoot_spec(ts[k], bs[k], p).0);
    }
    lemma_shots_spaced(since, fs, per, i, j);
}

/// Calls to `shoot` never change the firing period.
proof fn lemma_period_kept(ts: Seq<TowerView>, bs: Seq<Balloon>, p: Seq<RectangleInPath>, k: int)
    requires
        ts.len() == bs.len() + 1,
        forall|m: int| 0 <= m < bs.len() ==> ts[m + 1] == shoot_spec(ts[m], #[trigger] bs[m], p).0,
        0 <= k <= bs.len(),
    ensures
        ts[k].ticks_per_projectile == ts[0].ticks_per_projectile,
    decreases k,
{
    if k > 0 {
        lemma_period_kept(ts, bs, p, k - 1);
        assert(ts[k - 1 + 1] == shoot_spec(ts[k - 1], bs[k - 1], p).0);
    }
}

/// After a shot at tick `i`, the wait at the start of tick `m` is at most
/// `m - i - 1`.
proof fn lemma_wait_grows_slowly(since: Seq<int>, fired: Seq<bool>, per: int, i: int, m: int)
    requires
        since.len() == fired.len() + 1,
        0 <= i < m <= fired.len(),
        fired[i],
        forall|k: int| 0 <= k < fired.len() ==> #[trigger] tick_keeps_cooldown(since, fired, per, k),
    ensures
        since[m] <= m - i - 1,
    decreases m - i,
{
    if m > i + 1 {
        lemma_wait_grows_slowly(since, fired, per, i, m - 1);
        assert(tick_keeps_cooldown(since, fired, per, m - 1));
    } else {
        assert(tick_keeps_cooldown(since, fired, per, i));
    }
}

/// The right edge of slot `i` of `n` in the shop row.
pub open spec fn shop_slot_edge(i: int, n: int) -> int {
    (i + 1) * 180_000 / n - 90_000
}

/// The first tower from `i` on whose slot's right edge lies at or beyond
/// `x` and whose price `gold` covers, if any.
pub open spec fn shop_pick(x: int, gold: int, ts: Seq<Tower>, n: int, i: int) -> Option<int>
    decreases ts.len() - i,
{
    if i < 0 || i >= ts.len() {
        None
    } else if x <= shop_slot_edge(i, n) && gold >= ts[i].cost {
        Some(i)
    } else {
        shop_pick(x, gold, ts, n, i + 1)
    }
}

/// The towers on sale, shown in a row of equal slots along the bottom edge.
#[derive(Debug)]
pub struct TowerShop {
    pub n_towers: usize,
    pub towers: Vec<Tower>,
}

impl TowerShop {
    /// The shop's invariant.
    pub open spec fn wf(&self) -> bool {
        &&& self.n_towers >= 1
        &&& forall|i: int| 0 <= i < self.towers@.len() ==> (#[trigger] self.towers@[i]).wf()
    }

    /// The shop with a dart thrower and a flame thrower.
    pub fn new() -> (r: Self)
        ensures
            r.wf(),
            r.n_towers == 2,
            r.towers@.len() == 2,
            r.towers@[0]@ == dart_thrower_view((-45_000) as i64, (-80_000) as i64),
            r.towers@[1]@ == flame_thrower_view(45_000, (-80_000) as i64),
    {
        let dart = Tower::dart_thrower(-45_000, -80_000);
        let flame = Tower::flame_thrower(45_000, -80_000);
        let towers = vec![dart, flame];
        TowerShop { n_towers: 2, towers }
    }

    /// The tower that a click at `x` in the shop row buys with `gold`: the
    /// first one whose slot reaches `x` and whose price `gold` covers.
    pub fn get_tower(&self, x: i64, gold: &u16) -> (r: Option<Tower>)
        requires
            self.wf(),
        ensures
            match shop_pick(x as int, *gold as int, self.towers@, self.n_towers as int, 0) {
                Some(i) => r matches Some(t) && t@ == self.towers@[i]@ && t.wf(),
                None => r is None,
            },
    {
        let mut i: usize = 0;
        while i < self.towers.len()
            invariant
                self.wf(),
                i <= self.towers@.len(),
                shop_pick(x as int, *gold as int, self.towers@, self.n_towers as int, 0) == shop_pick(
                    x as int,
                    *gold as int,
                    self.towers@,
                    self.n_towers as int,
                    i as int,
                ),
            decreases self.towers@.len() - i,
        {
            let edge = ((i as i128 + 1) * 180_000) / (self.n_towers as i128) - 90_000;
            if (x as i128) <= edge {
                if *gold >= self.towers[i].cost {
                    assert(self.towers@[i as int].wf());
                    return Some(self.towers[i].duplicate());
                }
            }
            i += 1;
        }
        None
    }
}

} // verus!
