use vstd::prelude::*;
use crate::proto::{ClientMessage, Position, ServerMessage, MAX_ANGLE, MAX_COORD, UNIT};

verus! {

/// Distance a player moves per tick, in pixels.
pub const PLAYER_SPEED: i64 = 4;

/// Degrees a player turns per tick.
pub const TURN_SPEED: i64 = 4;

/// Distance a shot moves per tick, in pixels.
pub const SHOT_SPEED: i64 = 8;

/// Bounces a shot survives before it is removed.
pub const SHOT_TTL: u8 = 2;

/// Health of a freshly spawned player.
pub const FULL_HEALTH: u8 = 100;

/// Largest magnitude of a shot coordinate.
pub const SHOT_REACH: i64 = 2_251_799_813_685_248;

#[derive(Clone, Copy, Debug, PartialEq, Eq, Structural)]
pub enum Moving {
    Up,
    Down,
    Idle,
}

#[derive(Clone, Copy, Debug, PartialEq, Eq, Structural)]
pub enum Rotating {
    Left,
    Right,
    Idle,
}

#[derive(Clone, Copy, Debug, PartialEq, Eq, Structural)]
pub struct Shot {
    pub ttl: u8,
    pub position: Position,
}

/// Sprite sizes in pixels; they set the spawn offset and the hit box.
#[derive(Clone, Copy, Debug, PartialEq, Eq, Structural)]
pub struct Sprites {
    pub player_width: u32,
    pub player_height: u32,
    pub shot_width: u32,
    pub shot_height: u32,
}

/// Sine and cosine of each whole degree `0..360`, scaled by `UNIT`.
pub struct Headings {
    table: Vec<(i64, i64)>,
}

/// The degree `a` stands for, in `0..360`.
pub open spec fn deg(a: int) -> int {
    a % 360
}

/// Remainder of `a / 360` with the sign of `a`, as Rust's `%` computes it.
pub open spec fn rem360(a: int) -> int {
    if a >= 0 {
        a % 360
    } else {
        -((-a) % 360)
    }
}

pub open spec fn clamp(v: int, lo: int, hi: int) -> int {
    if v < lo {
        lo
    } else if v > hi {
        hi
    } else {
        v
    }
}

pub open spec fn dec(t: u8) -> u8 {
    if t == 0 {
        0
    } else {
        (t - 1) as u8
    }
}

impl Headings {
    pub closed spec fn table(&self) -> Seq<(i64, i64)> {
        self.table@
    }

    pub open spec fn wf(&self) -> bool {
        &&& self.table().len() == 360
        &&& forall|i: int|
            0 <= i < 360 ==> -UNIT <= #[trigger] self.table()[i].0 <= UNIT && -UNIT <= self.table()[i].1 <= UNIT
    }

    /// `(sin, cos)` of the heading `angle`, scaled by `UNIT`.
    pub open spec fn of(&self, angle: int) -> (i64, i64) {
        self.table()[deg(angle)]
    }

    /// Takes a table of 360 `(sin, cos)` pairs; `None` unless each lies in `-UNIT..=UNIT`.
    pub fn new(table: Vec<(i64, i64)>) -> (r: Option<Headings>)
        ensures
            match r {
                Some(h) => h.wf() && h.table() == table@,
                None => !(table@.len() == 360 && forall|i: int|
                    0 <= i < 360 ==> -UNIT <= #[trigger] table@[i].0 <= UNIT && -UNIT <= table@[i].1 <= UNIT),
            },
    {
        if table.len() != 360 {
            return None;
        }
        let mut i: usize = 0;
        while i < 360
            invariant
                table@.len() == 360,
                i <= 360,
                forall|j: int| 0 <= j < i ==> -UNIT <= #[trigger] table@[j].0 <= UNIT && -UNIT <= table@[j].1 <= UNIT,
            decreases 360 - i,
        {
            let (s, c) = table[i];
            if s < -UNIT || s > UNIT || c < -UNIT || c > UNIT {
                return None;
            }
            i = i + 1;
        }
        Some(Headings { table })
    }

    fn get(&self, angle: i64) -> (r: (i64, i64))
        requires
            self.wf(),
            -MAX_ANGLE - 720 <= angle <= MAX_ANGLE + 720,
        ensures
            r == self.of(angle as int),
            -UNIT <= r.0 <= UNIT,
            -UNIT <= r.1 <= UNIT,
    {
        let d: usize = if angle >= 0 {
            ((angle as u64) % 360) as usize
        } else {
            let m = ((-angle) as u64) % 360;
            assert(deg(angle as int) == if m == 0 { 0 } else { 360 - m }) by (nonlinear_arith)
                requires m == (-angle) % 360, angle < 0;
            if m == 0 { 0 } else { (360 - m) as usize }
        };
        assert(0 <= d < 360);
        assert(-UNIT <= self.table()[d as int].0 <= UNIT);
        self.table[d]
    }
}

fn rem360_exec(a: i64) -> (r: i64)
    requires
        -MAX_ANGLE - 1000 <= a <= MAX_ANGLE + 1000,
    ensures
        r == rem360(a as int),
        -360 < r < 360,
{
    if a >= 0 {
        ((a as u64) % 360) as i64
    } else {
        -((((-a) as u64) % 360) as i64)
    }
}

fn clamp_exec(v: i64, lo: i64, hi: i64) -> (r: i64)
    requires
        lo <= hi,
    ensures
        r == clamp(v as int, lo as int, hi as int),
{
    if v < lo {
        lo
    } else if v > hi {
        hi
    } else {
        v
    }
}

impl Shot {
    pub open spec fn valid(self) -> bool {
        &&& -SHOT_REACH <= self.position.x <= SHOT_REACH
        &&& -SHOT_REACH <= self.position.y <= SHOT_REACH
        &&& -MAX_ANGLE <= self.position.angle <= MAX_ANGLE + 360
        &&& self.ttl <= SHOT_TTL
    }

    /// A charged shot has bounced at least once and can deal damage.
    pub open spec fn charged(self) -> bool {
        self.ttl != SHOT_TTL
    }
}

/// The shot after one tick of flight in a `width` by `height` arena: moved along
/// its heading, then, per axis, clamped into the arena and reflected, losing one
/// bounce, where it left it.
pub open spec fn flown(s: Shot, h: Headings, width: int, height: int) -> Shot {
    let (sn, cs) = h.of(s.position.angle as int);
    let x1 = s.position.x + SHOT_SPEED * sn;
    let y1 = s.position.y - SHOT_SPEED * cs;
    let bx = x1 < 0 || x1 > width * UNIT;
    let a1 = if bx { 360 - s.position.angle } else { s.position.angle as int };
    let t1 = if bx { dec(s.ttl) } else { s.ttl };
    let by = y1 < 0 || y1 > height * UNIT;
    let a2 = if by { rem360(180 - a1) } else { a1 };
    let t2 = if by { dec(t1) } else { t1 };
    Shot {
        ttl: t2,
        position: Position {
            x: clamp(x1, 0, width * UNIT) as i64,
            y: clamp(y1, 0, height * UNIT) as i64,
            angle: a2 as i64,
        },
    }
}

/// The point `(x, y)` lies in the hit box of a player standing at `p`.
pub open spec fn covers(p: Position, x: int, y: int, spr: Sprites) -> bool {
    &&& p.x <= x <= p.x + spr.player_width * UNIT
    &&& p.y <= y <= p.y + spr.player_height * UNIT
}

/// Some player of `players` is hit by the shot `s`.
pub open spec fn strikes(players: Seq<(u32, Position)>, s: Shot, spr: Sprites) -> bool {
    exists|i: int| 0 <= i < players.len() && covers(#[trigger] players[i].1, s.position.x as int, s.position.y as int, spr)
}

/// The player `id` of `players` is hit by the shot `s`.
pub open spec fn strikes_id(players: Seq<(u32, Position)>, id: u32, s: Shot, spr: Sprites) -> bool {
    exists|i: int| 0 <= i < players.len() && #[trigger] players[i].0 == id
        && covers(players[i].1, s.position.x as int, s.position.y as int, spr)
}

/// The shot after collision: a charged shot that hits anyone is spent.
pub open spec fn landed(players: Seq<(u32, Position)>, s: Shot, spr: Sprites) -> Shot {
    if s.charged() && strikes(players, s, spr) {
        Shot { ttl: 0, ..s }
    } else {
        s
    }
}

/// `players` maps `id` to `p`.
pub open spec fn holds(players: Seq<(u32, Position)>, id: u32, p: Position) -> bool {
    exists|i: int| 0 <= i < players.len() && #[trigger] players[i] == (id, p)
}

pub open spec fn keys_unique(players: Seq<(u32, Position)>) -> bool {
    forall|i: int, j: int|
        0 <= i < players.len() && 0 <= j < players.len() && #[trigger] players[i].0 == #[trigger] players[j].0 ==> i == j
}

/// The client's mirror of the game.
pub struct World {
    pub id: u32,
    pub health: u8,
    pub moving: Moving,
    pub rotating: Rotating,
    pub position: Position,
    pub width: u32,
    pub height: u32,
    /// Last reported position of each player, at most one entry per id.
    pub players: Vec<(u32, Position)>,
    pub shots: Vec<Shot>,
}

impl World {
    pub open spec fn wf(&self) -> bool {
        &&& self.health <= FULL_HEALTH
        &&& self.position.valid()
        &&& keys_unique(self.players@)
        &&& forall|i: int| 0 <= i < self.players@.len() ==> (#[trigger] self.players@[i]).1.valid()
        &&& forall|i: int| 0 <= i < self.shots@.len() ==> (#[trigger] self.shots@[i]).valid()
    }

    /// A fresh world: full health, idle, centred in a `width` by `height` arena, nobody else known.
    pub fn new(id: u32, width: u32, height: u32) -> (r: World)
        ensures
            r.wf(),
            r.id == id,
            r.width == width,
            r.height == height,
            r.health == FULL_HEALTH,
            r.moving == Moving::Idle,
            r.rotating == Rotating::Idle,
            r.position.x == width * UNIT / 2,
            r.position.y == height * UNIT / 2,
            r.position.angle == 0,
            r.players@.len() == 0,
            r.shots@.len() == 0,
    {
        World {
            id,
            health: FULL_HEALTH,
            moving: Moving::Idle,
            rotating: Rotating::Idle,
            position: Position { x: width as i64 * UNIT / 2, y: height as i64 * UNIT / 2, angle: 0 },
            width,
            height,
            players: Vec::new(),
            shots: Vec::new(),
        }
    }
}


/// Flies one shot for one tick.
fn fly(s: Shot, h: &Headings, width: u32, height: u32) -> (r: Shot)
    requires
        h.wf(),
        s.valid(),
    ensures
        r == flown(s, *h, width as int, height as int),
        r.valid(),
        0 <= r.position.x <= width * UNIT,
        0 <= r.position.y <= height * UNIT,
{
    let (sn, cs) = h.get(s.position.angle);
    let w = width as i64 * UNIT;
    let ht = height as i64 * UNIT;
    let x1 = s.position.x + SHOT_SPEED * sn;
    let y1 = s.position.y - SHOT_SPEED * cs;
    let mut angle = s.position.angle;
    let mut ttl = s.ttl;
    if x1 < 0 || x1 > w {
        angle = 360 - angle;
        ttl = if ttl == 0 { 0 } else { ttl - 1 };
    }
    if y1 < 0 || y1 > ht {
        angle = rem360_exec(180 - angle);
        ttl = if ttl == 0 { 0 } else { ttl - 1 };
    }
    Shot { ttl, position: Position { x: clamp_exec(x1, 0, w), y: clamp_exec(y1, 0, ht), angle } }
}

/// Whether any player, and whether the player `id`, is hit by `s`.
fn strike(players: &Vec<(u32, Position)>, id: u32, s: &Shot, spr: Sprites) -> (r: (bool, bool))
    requires
        forall|i: int| 0 <= i < players@.len() ==> (#[trigger] players@[i]).1.valid(),
        0 <= s.position.x <= SHOT_REACH,
        0 <= s.position.y <= SHOT_REACH,
    ensures
        r.0 == strikes(players@, *s, spr),
        r.1 == strikes_id(players@, id, *s, spr),
{
    let mut any = false;
    let mut mine = false;
    let mut i: usize = 0;
    while i < players.len()
        invariant
            i <= players@.len(),
            forall|k: int| 0 <= k < players@.len() ==> (#[trigger] players@[k]).1.valid(),
            any == exists|k: int| 0 <= k < i && covers(#[trigger] players@[k].1, s.position.x as int, s.position.y as int, spr),
            mine == exists|k: int| 0 <= k < i && #[trigger] players@[k].0 == id
                && covers(players@[k].1, s.position.x as int, s.position.y as int, spr),
        decreases players@.len() - i,
    {
        let (pid, p) = players[i];
        assert(players@[i as int].1.valid());
        let hit = s.position.x >= p.x && s.position.x <= p.x + spr.player_width as i64 * UNIT
            && s.position.y >= p.y && s.position.y <= p.y + spr.player_height as i64 * UNIT;
        assert(hit == covers(players@[i as int].1, s.position.x as int, s.position.y as int, spr));
        if hit {
            any = true;
            if pid == id {
                mine = true;
            }
        }
        i = i + 1;
    }
    (any, mine)
}

/// Where a player at `p` fires from: centred on its sprite, just past its facing edge.
pub open spec fn muzzle(p: Position, h: Headings, spr: Sprites) -> Position {
    let (sn, cs) = h.of(p.angle as int);
    Position {
        x: (p.x + (spr.player_width / 2 - spr.shot_width / 2) * UNIT + sn * spr.player_width) as i64,
        y: (p.y + spr.shot_height * UNIT / 2 - cs * spr.player_height) as i64,
        angle: p.angle,
    }
}

impl World {
    /// The last reported position of player `id`.
    pub fn find(&self, id: u32) -> (r: Option<Position>)
        ensures
            match r {
                Some(p) => holds(self.players@, id, p),
                None => forall|p: Position| !holds(self.players@, id, p),
            },
    {
        let mut i: usize = 0;
        while i < self.players.len()
            invariant
                i <= self.players@.len(),
                forall|k: int| 0 <= k < i ==> (#[trigger] self.players@[k]).0 != id,
            decreases self.players@.len() - i,
        {
            if self.players[i].0 == id {
                assert(self.players@[i as int] == (id, self.players@[i as int].1));
                return Some(self.players[i].1);
            }
            i = i + 1;
        }
        assert forall|p: Position| !holds(self.players@, id, p) by {
            if holds(self.players@, id, p) {
                let k = choose|k: int| 0 <= k < self.players@.len() && #[trigger] self.players@[k] == (id, p);
                assert(self.players@[k].0 == id);
            }
        }
        None
    }

    /// Records that player `id` now stands at `p`.
    pub fn place(&mut self, id: u32, p: Position)
        requires
            old(self).wf(),
            p.valid(),
        ensures
            final(self).wf(),
            holds(final(self).players@, id, p),
            forall|k: u32, q: Position| k != id ==> (holds(final(self).players@, k, q) <==> holds(old(self).players@, k, q)),
            final(self).shots == old(self).shots,
            final(self).position == old(self).position,
            final(self).health == old(self).health,
            final(self).id == old(self).id,
            final(self).width == old(self).width,
            final(self).height == old(self).height,
            final(self).moving == old(self).moving,
            final(self).rotating == old(self).rotating,
    {
        let mut i: usize = 0;
        while i < self.players.len()
            invariant
                i <= self.players@.len(),
                forall|k: int| 0 <= k < i ==> (#[trigger] self.players@[k]).0 != id,
                *self == *old(self),
                self.wf(),
                p.valid(),
            decreases self.players@.len() - i,
        {
            if self.players[i].0 == id {
                let ghost before = self.players@;
                self.players.set(i, (id, p));
                assert(self.players@[i as int] == (id, p));
                assert forall|a: int, b: int|
                    0 <= a < self.players@.len() && 0 <= b < self.players@.len() && #[trigger] self.players@[a].0 == #[trigger] self.players@[b].0 implies a == b by {
                    assert(before[a].0 == self.players@[a].0 || a == i);
                    assert(before[b].0 == self.players@[b].0 || b == i);
                    assert(before[i as int].0 == id);
                }
                assert forall|k: int| 0 <= k < self.players@.len() implies (#[trigger] self.players@[k]).1.valid() by {
                    if k != i {
                        assert(self.players@[k] == before[k]);
                        assert(before == old(self).players@);
                        assert(old(self).players@[k].1.valid());
                    } else {
                        assert(self.players@[k].1 == p);
                    }
                }
                assert forall|k: u32, q: Position| k != id implies (holds(self.players@, k, q) <==> holds(before, k, q)) by {
                    if holds(before, k, q) {
                        let j = choose|j: int| 0 <= j < before.len() && #[trigger] before[j] == (k, q);
                        assert(self.players@[j] == (k, q));
                    }
                    if holds(self.players@, k, q) {
                        let j = choose|j: int| 0 <= j < self.players@.len() && #[trigger] self.players@[j] == (k, q);
                        assert(before[j] == (k, q));
                    }
                }
                return;
            }
            i = i + 1;
        }
        let ghost before = self.players@;
        self.players.push((id, p));
        assert(self.players@[before.len() as int] == (id, p));
        assert forall|a: int, b: int|
            0 <= a < self.players@.len() && 0 <= b < self.players@.len() && #[trigger] self.players@[a].0 == #[trigger] self.players@[b].0 implies a == b by {
            if a < before.len() {
                assert(self.players@[a] == before[a]);
            }
            if b < before.len() {
                assert(self.players@[b] == before[b]);
            }
        }
        assert forall|k: int| 0 <= k < self.players@.len() implies (#[trigger] self.players@[k]).1.valid() by {
            if k < before.len() {
                assert(self.players@[k] == before[k]);
            }
        }
        assert forall|k: u32, q: Position| k != id implies (holds(self.players@, k, q) <==> holds(before, k, q)) by {
            if holds(before, k, q) {
                let j = choose|j: int| 0 <= j < before.len() && #[trigger] before[j] == (k, q);
                assert(self.players@[j] == (k, q));
            }
            if holds(self.players@, k, q) {
                let j = choose|j: int| 0 <= j < self.players@.len() && #[trigger] self.players@[j] == (k, q);
                assert(before[j] == (k, q));
            }
        }
    }

    /// Forgets player `id`; nothing happens if it is unknown.
    pub fn forget(&mut self, id: u32)
        requires
            old(self).wf(),
        ensures
            final(self).wf(),
            forall|q: Position| !holds(final(self).players@, id, q),
            forall|k: u32, q: Position| k != id ==> (holds(final(self).players@, k, q) <==> holds(old(self).players@, k, q)),
            final(self).shots == old(self).shots,
            final(self).position == old(self).position,
            final(self).health == old(self).health,
            final(self).id == old(self).id,
            final(self).width == old(self).width,
            final(self).height == old(self).height,
            final(self).moving == old(self).moving,
            final(self).rotating == old(self).rotating,
    {
        let mut i: usize = 0;
        while i < self.players.len()
            invariant
                i <= self.players@.len(),
                forall|k: int| 0 <= k < i ==> (#[trigger] self.players@[k]).0 != id,
                *self == *old(self),
                self.wf(),
            decreases self.players@.len() - i,
        {
            if self.players[i].0 == id {
                let ghost before = self.players@;
                self.players.remove(i);
                assert forall|k: u32, q: Position| (holds(self.players@, k, q) <==> (k != id && holds(before, k, q))) by {
                    if holds(before, k, q) && k != id {
                        let j = choose|j: int| 0 <= j < before.len() && #[trigger] before[j] == (k, q);
                        if j < i {
                            assert(self.players@[j] == (k, q));
                        } else {
                            assert(j != i);
                            assert(self.players@[j - 1] == (k, q));
                        }
                    }
                    if holds(self.players@, k, q) {
                        let j = choose|j: int| 0 <= j < self.players@.len() && #[trigger] self.players@[j] == (k, q);
                        if j < i {
                            assert(before[j] == (k, q));
                        } else {
                            assert(before[j + 1] == (k, q));
                        }
                    }
                }
                assert forall|a: int, b: int|
                    0 <= a < self.players@.len() && 0 <= b < self.players@.len() && #[trigger] self.players@[a].0 == #[trigger] self.players@[b].0 implies a == b by {
                    let a2 = if a < i { a } else { a + 1 };
                    let b2 = if b < i { b } else { b + 1 };
                    assert(before[a2].0 == before[b2].0);
                }
                assert forall|k: int| 0 <= k < self.players@.len() implies (#[trigger] self.players@[k]).1.valid() by {
                    let k2 = if k < i { k } else { k + 1 };
                    assert(self.players@[k] == before[k2]);
                }
                assert forall|q: Position| !holds(self.players@, id, q) by {
                    if holds(self.players@, id, q) {
                        let j = choose|j: int| 0 <= j < self.players@.len() && #[trigger] self.players@[j] == (id, q);
                        if j < i {
                            assert(before[j].0 == id);
                        } else {
                            assert(before[j + 1].0 == id);
                            assert(before[i as int].0 == id);
                        }
                    }
                }
                return;
            }
            i = i + 1;
        }
        assert forall|q: Position| !holds(self.players@, id, q) by {
            if holds(self.players@, id, q) {
                let k = choose|k: int| 0 <= k < self.players@.len() && #[trigger] self.players@[k] == (id, q);
                assert(self.players@[k].0 == id);
            }
        }
    }
}


/// One shot after a tick: flown, then spent if it struck anyone while charged.
pub open spec fn after_tick(w: World, s: Shot, h: Headings, spr: Sprites) -> Shot {
    landed(w.players@, flown(s, h, w.width as int, w.height as int), spr)
}

/// The shot `s` hits the local player this tick.
pub open spec fn hurts(w: World, s: Shot, h: Headings, spr: Sprites) -> bool {
    let f = flown(s, h, w.width as int, w.height as int);
    f.charged() && strikes_id(w.players@, w.id, f, spr)
}

/// The shots of `shots` that are still alive after a tick, in their order.
pub open spec fn survivors(w: World, shots: Seq<Shot>, h: Headings, spr: Sprites) -> Seq<Shot>
    decreases shots.len(),
{
    if shots.len() == 0 {
        seq![]
    } else {
        let rest = survivors(w, shots.drop_last(), h, spr);
        let t = after_tick(w, shots.last(), h, spr);
        if t.ttl != 0 {
            rest.push(t)
        } else {
            rest
        }
    }
}

/// How many of `shots` hit the local player this tick.
pub open spec fn wounds(w: World, shots: Seq<Shot>, h: Headings, spr: Sprites) -> nat
    decreases shots.len(),
{
    if shots.len() == 0 {
        0
    } else {
        wounds(w, shots.drop_last(), h, spr) + if hurts(w, shots.last(), h, spr) { 1nat } else { 0nat }
    }
}

/// How many `Die` messages `hits` hits send from `health`: one for each hit that leaves health at zero.
pub open spec fn deaths(health: int, hits: int) -> int {
    if hits < health {
        0
    } else if health == 0 {
        hits
    } else {
        hits - health + 1
    }
}

pub open spec fn sat_sub(a: int, b: int) -> int {
    if a > b {
        a - b
    } else {
        0
    }
}

/// The local position after a tick of movement and turning, with `(sn, cs)` the heading of `p.angle`.
pub open spec fn stepped(p: Position, moving: Moving, rotating: Rotating, sn: int, cs: int) -> Position {
    let dx = match moving {
        Moving::Up => PLAYER_SPEED * sn,
        Moving::Down => -PLAYER_SPEED * sn,
        Moving::Idle => 0,
    };
    let dy = match moving {
        Moving::Up => -PLAYER_SPEED * cs,
        Moving::Down => PLAYER_SPEED * cs,
        Moving::Idle => 0,
    };
    let angle = match rotating {
        Rotating::Left => rem360(p.angle - TURN_SPEED),
        Rotating::Right => rem360(p.angle + TURN_SPEED),
        Rotating::Idle => p.angle as int,
    };
    Position {
        x: clamp(p.x + dx, -MAX_COORD as int, MAX_COORD as int) as i64,
        y: clamp(p.y + dy, -MAX_COORD as int, MAX_COORD as int) as i64,
        angle: angle as i64,
    }
}

impl World {
    /// Player `id` fired: a fresh shot leaves its last known position; unknown ids are ignored.
    pub fn shoot(&mut self, id: u32, h: &Headings, spr: Sprites)
        requires
            old(self).wf(),
            h.wf(),
        ensures
            final(self).wf(),
            match old(self).find_spec(id) {
                Some(p) => final(self).shots@ == old(self).shots@.push(Shot { ttl: SHOT_TTL, position: muzzle(p, *h, spr) }),
                None => final(self).shots@ == old(self).shots@,
            },
            final(self).players == old(self).players,
            final(self).position == old(self).position,
            final(self).health == old(self).health,
            final(self).id == old(self).id,
            final(self).width == old(self).width,
            final(self).height == old(self).height,
            final(self).moving == old(self).moving,
            final(self).rotating == old(self).rotating,
    {
        match self.find(id) {
            None => {
                assert(old(self).find_spec(id) is None) by {
                    if exists|p: Position| holds(self.players@, id, p) {
                        let p = choose|p: Position| holds(self.players@, id, p);
                        assert(!holds(self.players@, id, p));
                    }
                }
            }
            Some(p) => {
                proof {
                    let k = choose|k: int| 0 <= k < self.players@.len() && #[trigger] self.players@[k] == (id, p);
                    assert(self.players@[k].1.valid());
                    self.lemma_find_spec(id, p);
                }
                let (sn, cs) = h.get(p.angle);
                let pw = spr.player_width as i64;
                let ph = spr.player_height as i64;
                assert(-1000 * 0xFFFF_FFFF <= sn * pw <= 1000 * 0xFFFF_FFFF) by (nonlinear_arith)
                    requires -1000 <= sn <= 1000, 0 <= pw <= 0xFFFF_FFFF;
                assert(-1000 * 0xFFFF_FFFF <= cs * ph <= 1000 * 0xFFFF_FFFF) by (nonlinear_arith)
                    requires -1000 <= cs <= 1000, 0 <= ph <= 0xFFFF_FFFF;
                let x = p.x + ((spr.player_width / 2) as i64 - (spr.shot_width / 2) as i64) * UNIT + sn * spr.player_width as i64;
                let y = p.y + spr.shot_height as i64 * UNIT / 2 - cs * spr.player_height as i64;
                let shot = Shot { ttl: SHOT_TTL, position: Position { x, y, angle: p.angle } };
                let ghost before = self.shots@;
                self.shots.push(shot);
                assert forall|i: int| 0 <= i < self.shots@.len() implies (#[trigger] self.shots@[i]).valid() by {
                    if i < before.len() {
                        assert(self.shots@[i] == before[i]);
                    }
                }
            }
        }
    }

    /// The last reported position of player `id`, if any.
    pub open spec fn find_spec(&self, id: u32) -> Option<Position> {
        if exists|p: Position| holds(self.players@, id, p) {
            Some(choose|p: Position| holds(self.players@, id, p))
        } else {
            None
        }
    }

    proof fn lemma_find_spec(&self, id: u32, p: Position)
        requires
            self.wf(),
            holds(self.players@, id, p),
        ensures
            self.find_spec(id) == Some(p),
    {
        let q = choose|q: Position| holds(self.players@, id, q);
        let i = choose|i: int| 0 <= i < self.players@.len() && #[trigger] self.players@[i] == (id, p);
        let j = choose|j: int| 0 <= j < self.players@.len() && #[trigger] self.players@[j] == (id, q);
        assert(self.players@[i].0 == self.players@[j].0);
    }
}


/// Flies every shot of `w` for one tick and checks it against the players.
/// Returns the surviving shots, the local player's health after the hits, and
/// how many hits left that health at zero.
fn advance_shots(w: &World, h: &Headings, spr: Sprites) -> (r: (Vec<Shot>, u8, usize))
    requires
        w.wf(),
        h.wf(),
    ensures
        r.0@ == survivors(*w, w.shots@, *h, spr),
        r.1 == sat_sub(w.health as int, wounds(*w, w.shots@, *h, spr) as int),
        r.2 == deaths(w.health as int, wounds(*w, w.shots@, *h, spr) as int),
        forall|k: int| 0 <= k < r.0@.len() ==> (#[trigger] r.0@[k]).valid(),
{
    let n = w.shots.len();
    let mut kept: Vec<Shot> = Vec::new();
    let mut health: u8 = w.health;
    let mut dies: usize = 0;
    let mut i: usize = 0;
    while i < n
        invariant
            n == w.shots@.len(),
            i <= n,
            w.wf(),
            h.wf(),
            health <= FULL_HEALTH,
            dies <= i,
            kept@ == survivors(*w, w.shots@.subrange(0, i as int), *h, spr),
            health == sat_sub(w.health as int, wounds(*w, w.shots@.subrange(0, i as int), *h, spr) as int),
            dies == deaths(w.health as int, wounds(*w, w.shots@.subrange(0, i as int), *h, spr) as int),
            forall|k: int| 0 <= k < kept@.len() ==> (#[trigger] kept@[k]).valid(),
        decreases n - i,
    {
        let ghost pre = w.shots@.subrange(0, i as int);
        let ghost post = w.shots@.subrange(0, i as int + 1);
        assert(post.drop_last() =~= pre);
        assert(post.last() == w.shots@[i as int]);
        assert(w.shots@[i as int].valid());
        let mut t = fly(w.shots[i], h, w.width, w.height);
        let (any, mine) = strike(&w.players, w.id, &t, spr);
        if t.ttl != SHOT_TTL {
            if any {
                t.ttl = 0;
            }
            if mine {
                health = if health == 0 { 0 } else { health - 1 };
                if health == 0 {
                    dies = dies + 1;
                }
            }
        }
        if t.ttl != 0 {
            kept.push(t);
        }
        i = i + 1;
    }
    assert(w.shots@.subrange(0, n as int) =~= w.shots@);
    (kept, health, dies)
}

impl World {
    /// One simulation tick. Returns the messages for the server: first a `Move`
    /// with the position held before the tick, then one `Die` for each hit that
    /// leaves the local player's health at zero.
    pub fn tick(&mut self, h: &Headings, spr: Sprites) -> (r: Vec<ClientMessage>)
        requires
            old(self).wf(),
            h.wf(),
        ensures
            final(self).wf(),
            final(self).position == ({
                let (sn, cs) = h.of(old(self).position.angle as int);
                stepped(old(self).position, old(self).moving, old(self).rotating, sn as int, cs as int)
            }),
            final(self).shots@ == survivors(*old(self), old(self).shots@, *h, spr),
            final(self).health == sat_sub(old(self).health as int, wounds(*old(self), old(self).shots@, *h, spr) as int),
            r@.len() == 1 + deaths(old(self).health as int, wounds(*old(self), old(self).shots@, *h, spr) as int),
            r@[0] == (ClientMessage::Move { position: old(self).position }),
            forall|i: int| 1 <= i < r@.len() ==> r@[i] == ClientMessage::Die,
            final(self).players == old(self).players,
            final(self).id == old(self).id,
            final(self).width == old(self).width,
            final(self).height == old(self).height,
            final(self).moving == old(self).moving,
            final(self).rotating == old(self).rotating,
    {
        let ghost w0 = *self;
        let mut out: Vec<ClientMessage> = Vec::new();
        out.push(ClientMessage::Move { position: self.position });
        let (kept, health, dies) = advance_shots(&*self, h, spr);

        let (sn, cs) = h.get(self.position.angle);
        let (dx, dy): (i64, i64) = match self.moving {
            Moving::Up => (PLAYER_SPEED * sn, 0 - PLAYER_SPEED * cs),
            Moving::Down => (0 - PLAYER_SPEED * sn, PLAYER_SPEED * cs),
            Moving::Idle => (0, 0),
        };
        let angle = match self.rotating {
            Rotating::Left => rem360_exec(self.position.angle - TURN_SPEED),
            Rotating::Right => rem360_exec(self.position.angle + TURN_SPEED),
            Rotating::Idle => self.position.angle,
        };
        self.position = Position {
            x: clamp_exec(self.position.x + dx, -MAX_COORD, MAX_COORD),
            y: clamp_exec(self.position.y + dy, -MAX_COORD, MAX_COORD),
            angle,
        };

        let mut k: usize = 0;
        while k < dies
            invariant
                k <= dies,
                out@.len() == 1 + k,
                out@[0] == (ClientMessage::Move { position: w0.position }),
                forall|j: int| 1 <= j < out@.len() ==> out@[j] == ClientMessage::Die,
            decreases dies - k,
        {
            out.push(ClientMessage::Die);
            k = k + 1;
        }
        self.health = health;
        self.shots = kept;
        out
    }
}


/// Why a client could not take in a server message.
#[derive(Clone, Copy, Debug, PartialEq, Eq, Structural)]
pub enum ClientError {
    /// A `Move`, `Shoot` or `Leave` arrived before any `Init`.
    Unexpected,
    /// A `Move` carried a position outside the accepted range.
    OutOfRange,
}

impl ClientError {
    pub fn message(&self) -> (r: String)
        ensures
            r@.len() > 0,
    {
        match self {
            ClientError::Unexpected => {
                let r = String::from_str("message before initialisation");
                proof { reveal_strlit("message before initialisation"); }
                r
            }
            ClientError::OutOfRange => {
                let r = String::from_str("position out of range");
                proof { reveal_strlit("position out of range"); }
                r
            }
        }
    }
}

/// Takes in one server message. `Init` (re)creates the world; any other message
/// before it is `Unexpected`, and a `Move` with an invalid position is `OutOfRange`.
/// On an error the state is left as it was.
pub fn receive(state: &mut Option<World>, message: ServerMessage, h: &Headings, spr: Sprites) -> (r: Result<(), ClientError>)
    requires
        h.wf(),
        *old(state) matches Some(w) ==> w.wf(),
    ensures
        *final(state) matches Some(w) ==> w.wf(),
        match message {
            ServerMessage::Init { id, width, height } => r is Ok && (*final(state) matches Some(w) && w.id == id
                && w.width == width && w.height == height && w.health == FULL_HEALTH
                && w.moving == Moving::Idle && w.rotating == Rotating::Idle
                && w.position.x == width * UNIT / 2 && w.position.y == height * UNIT / 2 && w.position.angle == 0
                && w.players@.len() == 0 && w.shots@.len() == 0),
            _ => match *old(state) {
                None => r == Err::<(), ClientError>(ClientError::Unexpected) && *final(state) == *old(state),
                Some(w0) => match message {
                    ServerMessage::Move { id, position } => if position.valid() {
                        r is Ok && (*final(state) matches Some(w) && holds(w.players@, id, position)
                            && (forall|k: u32, q: Position| k != id ==> (holds(w.players@, k, q) <==> holds(w0.players@, k, q)))
                            && w.shots == w0.shots && w.position == w0.position && w.health == w0.health && w.id == w0.id)
                    } else {
                        r == Err::<(), ClientError>(ClientError::OutOfRange) && *final(state) == *old(state)
                    },
                    ServerMessage::Shoot { id } => r is Ok && (*final(state) matches Some(w)
                        && w.players == w0.players && w.position == w0.position && w.health == w0.health
                        && match w0.find_spec(id) {
                            Some(p) => w.shots@ == w0.shots@.push(Shot { ttl: SHOT_TTL, position: muzzle(p, *h, spr) }),
                            None => w.shots@ == w0.shots@,
                        }),
                    ServerMessage::Leave { id } => r is Ok && (*final(state) matches Some(w)
                        && (forall|q: Position| !holds(w.players@, id, q))
                        && (forall|k: u32, q: Position| k != id ==> (holds(w.players@, k, q) <==> holds(w0.players@, k, q)))
                        && w.shots == w0.shots && w.position == w0.position && w.health == w0.health),
                    _ => true,
                },
            },
        },
{
    match message {
        ServerMessage::Init { id, width, height } => {
            *state = Some(World::new(id, width, height));
            Ok(())
        }
        ServerMessage::Move { id, position } => {
            if state.is_none() {
                return Err(ClientError::Unexpected);
            }
            if !position.is_valid() {
                return Err(ClientError::OutOfRange);
            }
            let mut w = state.take().unwrap();
            w.place(id, position);
            *state = Some(w);
            Ok(())
        }
        ServerMessage::Shoot { id } => {
            if state.is_none() {
                return Err(ClientError::Unexpected);
            }
            let mut w = state.take().unwrap();
            w.shoot(id, h, spr);
            *state = Some(w);
            Ok(())
        }
        ServerMessage::Leave { id } => {
            if state.is_none() {
                return Err(ClientError::Unexpected);
            }
            let mut w = state.take().unwrap();
            w.forget(id);
            *state = Some(w);
            Ok(())
        }
    }
}

/// A key the player presses or releases.
#[derive(Clone, Copy, Debug, PartialEq, Eq, Structural)]
pub enum Key {
    Left,
    Right,
    Up,
    Down,
    Fire,
    Respawn,
}

impl World {
    /// A key went down: arrows set turning and moving; fire and respawn ask the server.
    pub fn press(&mut self, key: Key) -> (r: Option<ClientMessage>)
        ensures
            final(self).position == old(self).position,
            final(self).shots == old(self).shots,
            final(self).players == old(self).players,
            final(self).health == old(self).health,
            final(self).id == old(self).id,
            final(self).width == old(self).width,
            final(self).height == old(self).height,
            match key {
                Key::Left => r is None && final(self).rotating == Rotating::Left && final(self).moving == old(self).moving,
                Key::Right => r is None && final(self).rotating == Rotating::Right && final(self).moving == old(self).moving,
                Key::Up => r is None && final(self).moving == Moving::Up && final(self).rotating == old(self).rotating,
                Key::Down => r is None && final(self).moving == Moving::Down && final(self).rotating == old(self).rotating,
                Key::Fire => r == Some(ClientMessage::Shoot) && final(self).moving == old(self).moving && final(self).rotating == old(self).rotating,
                Key::Respawn => r == Some(ClientMessage::Die) && final(self).moving == old(self).moving && final(self).rotating == old(self).rotating,
            },
    {
        match key {
            Key::Left => { self.rotating = Rotating::Left; None }
            Key::Right => { self.rotating = Rotating::Right; None }
            Key::Up => { self.moving = Moving::Up; None }
            Key::Down => { self.moving = Moving::Down; None }
            Key::Fire => Some(ClientMessage::Shoot),
            Key::Respawn => Some(ClientMessage::Die),
        }
    }

    /// A key went up: releasing an arrow stops turning or moving.
    pub fn release(&mut self, key: Key)
        ensures
            final(self).position == old(self).position,
            final(self).shots == old(self).shots,
            final(self).players == old(self).players,
            final(self).health == old(self).health,
            final(self).id == old(self).id,
            final(self).width == old(self).width,
            final(self).height == old(self).height,
            final(self).rotating == (if key == Key::Left || key == Key::Right { Rotating::Idle } else { old(self).rotating }),
            final(self).moving == (if key == Key::Up || key == Key::Down { Moving::Idle } else { old(self).moving }),
    {
        match key {
            Key::Left | Key::Right => self.rotating = Rotating::Idle,
            Key::Up | Key::Down => self.moving = Moving::Idle,
            _ => {}
        }
    }
}


/// A shot never gains bounces: its `ttl` after a tick is at most what it was.
pub proof fn lemma_ttl_never_grows(w: World, s: Shot, h: Headings, spr: Sprites)
    ensures
        after_tick(w, s, h, spr).ttl <= s.ttl,
{
}

/// No shot that a tick keeps has a `ttl` of zero: spent shots are gone by the tick's end.
pub proof fn lemma_survivors_alive(w: World, shots: Seq<Shot>, h: Headings, spr: Sprites)
    ensures
        forall|i: int| 0 <= i < survivors(w, shots, h, spr).len() ==> #[trigger] survivors(w, shots, h, spr)[i].ttl != 0,
    decreases shots.len(),
{
    if shots.len() > 0 {
        lemma_survivors_alive(w, shots.drop_last(), h, spr);
        let rest = survivors(w, shots.drop_last(), h, spr);
        let t = after_tick(w, shots.last(), h, spr);
        if t.ttl != 0 {
            assert forall|i: int| 0 <= i < rest.push(t).len() implies #[trigger] rest.push(t)[i].ttl != 0 by {
                if i < rest.len() {
                    assert(rest.push(t)[i] == rest[i]);
                }
            }
        }
    }
}

/// A shot that has not bounced yet deals no damage and is not spent by a hit.
pub proof fn lemma_discharged_harmless(w: World, s: Shot, h: Headings, spr: Sprites)
    requires
        flown(s, h, w.width as int, w.height as int).ttl == SHOT_TTL,
    ensures
        !hurts(w, s, h, spr),
        after_tick(w, s, h, spr) == flown(s, h, w.width as int, w.height as int),
{
}

/// A shot that leaves the arena on the left, and only there, lands at `x == 0`
/// with one bounce fewer and its heading mirrored.
pub proof fn lemma_left_wall_bounce(s: Shot, h: Headings, width: int, height: int)
    requires
        s.valid(),
        s.ttl >= 1,
        width >= 0,
        height >= 0,
        s.position.x + SHOT_SPEED * h.of(s.position.angle as int).0 < 0,
        0 <= s.position.y - SHOT_SPEED * h.of(s.position.angle as int).1 <= height * UNIT,
    ensures
        flown(s, h, width, height).position.x == 0,
        flown(s, h, width, height).ttl == s.ttl - 1,
        flown(s, h, width, height).position.angle == 360 - s.position.angle,
{
}

/// A shot that leaves the arena across both axes in one tick loses two bounces.
pub proof fn lemma_corner_bounce(s: Shot, h: Headings, width: int, height: int)
    requires
        s.ttl >= 2,
        width >= 0,
        height >= 0,
        ({
            let x1 = s.position.x + SHOT_SPEED * h.of(s.position.angle as int).0;
            x1 < 0 || x1 > width * UNIT
        }),
        ({
            let y1 = s.position.y - SHOT_SPEED * h.of(s.position.angle as int).1;
            y1 < 0 || y1 > height * UNIT
        }),
    ensures
        flown(s, h, width, height).ttl == s.ttl - 2,
{
}

/// A charged shot inside some player's hit box is spent in the same tick.
pub proof fn lemma_charged_hit_spends(w: World, s: Shot, h: Headings, spr: Sprites, i: int)
    requires
        0 <= i < w.players@.len(),
        flown(s, h, w.width as int, w.height as int).charged(),
        covers(w.players@[i].1, flown(s, h, w.width as int, w.height as int).position.x as int,
            flown(s, h, w.width as int, w.height as int).position.y as int, spr),
    ensures
        after_tick(w, s, h, spr).ttl == 0,
{
    let f = flown(s, h, w.width as int, w.height as int);
    assert(covers(w.players@[i].1, f.position.x as int, f.position.y as int, spr));
    assert(strikes(w.players@, f, spr));
}

} // verus!
