//! Fireworks after a won match.
//!
//! Sparks fly in floating point outside this library.  Here is what does not
//! depend on that: when a burst starts, which sparks it takes and how they are
//! thrown, how a spark ages and fades, how all of them are drawn, and which
//! part of the screen they touched.

use vstd::prelude::*;

use crate::arena::RAW_BG;
use crate::canvas;
use crate::canvas::fill_circle;
use crate::color;
use crate::color::pack;
use crate::geometry;
use crate::geometry::{max_i32, min_i32, Rect, FRAME_LEN, H, W};
use crate::rng;
use crate::rng::Rng;

verus! {

/// How many sparks there can be at a time.
pub const SPARKS: usize = 80;

/// How many sparks a burst throws, at most.
pub const BURST: usize = 18;

/// How many frames there are from burst to burst.
pub const BURST_EVERY: u8 = 25;

/// Radius of a spark.
pub const PARTICLE_R: i32 = 3;

/// How many frames a spark shines before it fades.
pub const PARTICLE_HOLD: u8 = 15;

/// A spark: the frames it has left and had at first, its colour, and whether it
/// is there at all.
#[derive(Clone, Copy, PartialEq, Eq, Structural, Debug)]
pub struct Spark {
    pub life: u8,
    pub max_life: u8,
    pub color: u16,
    pub active: bool,
}

impl Spark {
    /// A spark that is there has some of its frames left, and few enough for
    /// the frames it shines to be added in a byte.
    pub open spec fn wf(self) -> bool {
        self.active ==> 1 <= self.life <= self.max_life <= 240
    }
}

/// A channel of a colour after a spark has faded: full while it shines, then in
/// proportion to the frames it has left.
pub open spec fn faded_channel(channel: int, life: int, max_life: int) -> int {
    if life + PARTICLE_HOLD >= max_life {
        channel
    } else {
        channel * life / (max_life - PARTICLE_HOLD)
    }
}

/// The colour of a spark that has `life` of `max_life` frames left.
pub open spec fn faded(raw: u16, life: int, max_life: int) -> int {
    faded_channel(color::red(raw), life, max_life) * 2048 + faded_channel(
        color::green(raw),
        life,
        max_life,
    ) * 32 + faded_channel(color::blue(raw), life, max_life)
}

/// A faded channel is no brighter than it was.
proof fn fading_is_bounded(channel: int, life: int, max_life: int)
    requires
        0 <= channel,
        0 <= life,
    ensures
        0 <= faded_channel(channel, life, max_life) <= channel,
{
    if life + PARTICLE_HOLD < max_life {
        let m = max_life - PARTICLE_HOLD;
        assert(0 <= channel * life <= channel * m) by (nonlinear_arith)
            requires
                0 <= channel,
                0 <= life < m,
        ;
        vstd::arithmetic::div_mod::lemma_div_is_ordered(0, channel * life, m);
        vstd::arithmetic::div_mod::lemma_div_is_ordered(channel * life, channel * m, m);
        vstd::arithmetic::div_mod::lemma_div_multiples_vanish(channel, m);
        assert(channel * m == m * channel) by (nonlinear_arith);
    }
}

/// The colour to draw a spark in.
pub fn fade_color(raw: u16, life: u8, max_life: u8) -> (c: u16)
    requires
        life + PARTICLE_HOLD <= u8::MAX,
    ensures
        c == faded(raw, life as int, max_life as int),
{
    let v: u32 = raw as u32;
    assert((v >> 11) & 0x1F == v / 2048) by (bit_vector)
        requires
            v < 0x1_0000,
    ;
    assert((v >> 5) & 0x3F == (v / 32) % 64) by (bit_vector)
        requires
            v < 0x1_0000,
    ;
    assert(v & 0x1F == v % 32) by (bit_vector);
    if life + PARTICLE_HOLD >= max_life {
        raw
    } else {
        let fade: u32 = life as u32;
        let fade_max: u32 = (max_life - PARTICLE_HOLD) as u32;
        let red: u32 = (v >> 11) & 0x1F;
        let green: u32 = (v >> 5) & 0x3F;
        let blue: u32 = v & 0x1F;
        proof {
            fading_is_bounded(red as int, life as int, max_life as int);
            fading_is_bounded(green as int, life as int, max_life as int);
            fading_is_bounded(blue as int, life as int, max_life as int);
            assert(red * fade <= 64 * 256) by (nonlinear_arith)
                requires
                    0 <= red < 64,
                    0 <= fade < 256,
            ;
            assert(green * fade <= 64 * 256) by (nonlinear_arith)
                requires
                    0 <= green < 64,
                    0 <= fade < 256,
            ;
            assert(blue * fade <= 64 * 256) by (nonlinear_arith)
                requires
                    0 <= blue < 64,
                    0 <= fade < 256,
            ;
        }
        let r: u16 = (red * fade / fade_max) as u16;
        let g: u16 = (green * fade / fade_max) as u16;
        let b: u16 = (blue * fade / fade_max) as u16;
        pack(r, g, b)
    }
}

/// A spark never gets brighter as it ages, in no channel.
pub proof fn sparks_only_fade(raw: u16, younger: int, older: int, max_life: int)
    requires
        0 <= older <= younger,
    ensures
        faded_channel(color::red(raw), older, max_life) <= faded_channel(
            color::red(raw),
            younger,
            max_life,
        ),
        faded_channel(color::green(raw), older, max_life) <= faded_channel(
            color::green(raw),
            younger,
            max_life,
        ),
        faded_channel(color::blue(raw), older, max_life) <= faded_channel(
            color::blue(raw),
            younger,
            max_life,
        ),
{
    channel_only_fades(color::red(raw), younger, older, max_life);
    channel_only_fades(color::green(raw), younger, older, max_life);
    channel_only_fades(color::blue(raw), younger, older, max_life);
}

proof fn channel_only_fades(channel: int, younger: int, older: int, max_life: int)
    requires
        0 <= channel,
        0 <= older <= younger,
    ensures
        faded_channel(channel, older, max_life) <= faded_channel(channel, younger, max_life),
{
    fading_is_bounded(channel, older, max_life);
    if younger + PARTICLE_HOLD < max_life {
        assert(channel * older <= channel * younger) by (nonlinear_arith)
            requires
                0 <= channel,
                older <= younger,
        ;
        vstd::arithmetic::div_mod::lemma_div_is_ordered(
            channel * older,
            channel * younger,
            max_life - PARTICLE_HOLD,
        );
    }
}

/// A spark a frame later.
pub open spec fn aged(p: Spark) -> Spark {
    if p.active {
        Spark { life: (p.life - 1) as u8, active: p.life != 1, ..p }
    } else {
        p
    }
}

/// A spark `n` frames later.
pub open spec fn aged_by(p: Spark, n: nat) -> Spark
    decreases n,
{
    if n == 0 {
        p
    } else {
        aged(aged_by(p, (n - 1) as nat))
    }
}

/// A spark is there for as many frames as it has left, and gone after them.
pub proof fn a_spark_burns_out(p: Spark, n: nat)
    requires
        p.wf(),
        p.active,
    ensures
        aged_by(p, n).active <==> n < p.life,
        n <= p.life ==> aged_by(p, n).life == p.life - n,
        aged_by(p, n).wf(),
    decreases n,
{
    if n > 0 {
        a_spark_burns_out(p, (n - 1) as nat);
    }
}

/// The part of the screen that was drawn on: from the pixel `(x0, y0)` to the
/// pixel `(x1, y1)`, both included.
pub struct Dirty {
    x0: i32,
    y0: i32,
    x1: i32,
    y1: i32,
}

/// First column and row, last column and row of a part of the screen.
pub struct Extent {
    pub x0: int,
    pub y0: int,
    pub x1: int,
    pub y1: int,
}

impl Extent {
    /// Where nothing has been drawn yet.
    pub open spec fn nothing() -> Extent {
        Extent { x0: W as int, y0: H as int, x1: 0, y1: 0 }
    }

    /// With the square round a spark at `(x, y)`.
    pub open spec fn with(self, x: int, y: int) -> Extent {
        Extent {
            x0: geometry::min_of(self.x0, x - PARTICLE_R),
            y0: geometry::min_of(self.y0, y - PARTICLE_R),
            x1: geometry::max_of(self.x1, x + PARTICLE_R),
            y1: geometry::max_of(self.y1, y + PARTICLE_R),
        }
    }

    /// Its width and height can be computed in 32 bits, if it has any.
    pub open spec fn size_fits(self) -> bool {
        self.x0 <= self.x1 && self.y0 <= self.y1 ==> self.x1 - self.x0 + 1 <= i32::MAX && self.y1
            - self.y0 + 1 <= i32::MAX
    }

    /// Its rectangle, if it has any pixel.
    pub open spec fn rect_of(self) -> Option<Rect> {
        if self.x0 <= self.x1 && self.y0 <= self.y1 {
            Some(
                Rect {
                    x: self.x0 as i32,
                    y: self.y0 as i32,
                    w: (self.x1 - self.x0 + 1) as u32,
                    h: (self.y1 - self.y0 + 1) as u32,
                },
            )
        } else {
            None
        }
    }

    /// The pixel `(x, y)` belongs to it.
    pub open spec fn has_pixel(self, x: int, y: int) -> bool {
        self.x0 <= x <= self.x1 && self.y0 <= y <= self.y1
    }
}

impl View for Dirty {
    type V = Extent;

    closed spec fn view(&self) -> Extent {
        Extent { x0: self.x0 as int, y0: self.y0 as int, x1: self.x1 as int, y1: self.y1 as int }
    }
}

/// A spark can be drawn at `(x, y)`.
pub open spec fn drawable(x: int, y: int) -> bool {
    &&& i32::MIN + PARTICLE_R <= x <= i32::MAX - PARTICLE_R
    &&& i32::MIN + PARTICLE_R <= y <= i32::MAX - PARTICLE_R
}

impl Dirty {
    /// Nothing has been drawn yet.
    pub fn new() -> (d: Dirty)
        ensures
            d@ == Extent::nothing(),
    {
        Dirty { x0: W as i32, y0: H as i32, x1: 0, y1: 0 }
    }

    /// A spark was drawn at `(x, y)`.
    pub fn cover(&mut self, x: i32, y: i32)
        requires
            drawable(x as int, y as int),
        ensures
            final(self)@ == old(self)@.with(x as int, y as int),
    {
        self.x0 = min_i32(self.x0, x - PARTICLE_R);
        self.y0 = min_i32(self.y0, y - PARTICLE_R);
        self.x1 = max_i32(self.x1, x + PARTICLE_R);
        self.y1 = max_i32(self.y1, y + PARTICLE_R);
    }

    /// Whether the size of the rectangle that was drawn on can be computed.
    pub fn fits(&self) -> (b: bool)
        ensures
            b == self@.size_fits(),
    {
        let w: i64 = self.x1 as i64 - self.x0 as i64 + 1;
        let h: i64 = self.y1 as i64 - self.y0 as i64 + 1;
        w <= 0 || h <= 0 || (w <= i32::MAX as i64 && h <= i32::MAX as i64)
    }

    /// The rectangle that was drawn on, if anything was.
    pub fn rect(&self) -> (r: Option<Rect>)
        requires
            self@.size_fits(),
        ensures
            match r {
                Some(r) => {
                    &&& self@.x0 <= self@.x1 && self@.y0 <= self@.y1
                    &&& r.x == self@.x0
                    &&& r.y == self@.y0
                    &&& r.w == self@.x1 - self@.x0 + 1
                    &&& r.h == self@.y1 - self@.y0 + 1
                },
                None => self@.x0 > self@.x1 || self@.y0 > self@.y1,
            },
            r == self@.rect_of(),
    {
        if self.x1 >= self.x0 && self.y1 >= self.y0 {
            Some(
                Rect {
                    x: self.x0,
                    y: self.y0,
                    w: (self.x1 - self.x0 + 1) as u32,
                    h: (self.y1 - self.y0 + 1) as u32,
                },
            )
        } else {
            None
        }
    }
}

/// How a spark of a burst is thrown: which one it is, its direction in
/// hundredths of a radian and its speed in tenths of a pixel per frame.
#[derive(Clone, Copy, PartialEq, Eq, Structural, Debug)]
pub struct Launch {
    pub slot: usize,
    pub dir: u32,
    pub speed: u32,
}

/// A burst: where it starts, as an angle in hundredths of a radian and a
/// distance from the centre of the screen, and its sparks.
pub struct Burst {
    pub angle: u32,
    pub radius: u32,
    pub launches: Vec<Launch>,
}

/// The colours of bursts.
pub open spec fn burst_color(k: u32) -> u16 {
    if k == 0 {
        0xFFFF
    } else if k == 1 {
        0x07FF
    } else if k == 2 {
        0xFFE0
    } else if k == 3 {
        0xF81F
    } else if k == 4 {
        0x07E0
    } else {
        0xFD20
    }
}

/// The colour number `k` of bursts.
fn fw_color(k: u32) -> (c: u16)
    ensures
        c == burst_color(k),
{
    match k {
        0 => 0xFFFF,
        1 => 0x07FF,
        2 => 0xFFE0,
        3 => 0xF81F,
        4 => 0x07E0,
        _ => 0xFD20,
    }
}

/// Those of the first `n` sparks that are not there, in their order.
pub open spec fn free_slots(sparks: Seq<Spark>, n: int) -> Seq<int>
    decreases n,
{
    if n <= 0 {
        seq![]
    } else if sparks[n - 1].active {
        free_slots(sparks, n - 1)
    } else {
        free_slots(sparks, n - 1).push(n - 1)
    }
}

/// How many of the sparks before `n` a burst takes.
pub open spec fn taken(sparks: Seq<Spark>, n: int) -> nat {
    geometry::min_of(free_slots(sparks, n).len() as int, BURST as int) as nat
}

/// The spark number `j` of a burst that starts from the random state `s`.
pub open spec fn launch_of(s: u32, slot: int, j: nat) -> Launch {
    Launch {
        slot: slot as usize,
        dir: rng::scaled(rng::steps(s, 4 + 3 * j), 0, 628),
        speed: rng::scaled(rng::steps(s, 5 + 3 * j), 15, 40),
    }
}

/// What the spark number `j` of such a burst looks like.
pub open spec fn fresh_spark(s: u32, j: nat) -> Spark {
    let life = (35 + rng::scaled(rng::steps(s, 6 + 3 * j), 0, 20)) as u8;
    Spark {
        life,
        max_life: life,
        color: burst_color(rng::scaled(rng::steps(s, 3), 0, 6)),
        active: true,
    }
}

/// `after` is what a burst from the random state `s` makes of the first `n`
/// sparks of `before`: those it takes are fresh, all others as they were.
pub open spec fn burst_into(before: Seq<Spark>, after: Seq<Spark>, s: u32, n: int) -> bool {
    &&& after.len() == before.len()
    &&& forall|j: int|
        0 <= j < taken(before, n) ==> after[#[trigger] free_slots(before, n)[j]] == fresh_spark(
            s,
            j as nat,
        )
    &&& forall|i: int|
        0 <= i < before.len() && !(free_slots(before, n).take(
            taken(before, n) as int,
        ).contains(i)) ==> #[trigger] after[i] == before[i]
}

/// `launches` are those of the sparks that a burst takes.
pub open spec fn launched(before: Seq<Spark>, launches: Seq<Launch>, s: u32, n: int) -> bool {
    &&& launches.len() == taken(before, n)
    &&& forall|j: int|
        0 <= j < launches.len() ==> #[trigger] launches[j] == launch_of(
            s,
            free_slots(before, n)[j],
            j as nat,
        )
}

/// The sparks, and how long ago the last burst was.
pub struct Fireworks {
    sparks: Vec<Spark>,
    spawn_cd: u8,
}

/// The sparks, and the frames since the last burst.
pub struct FireworksState {
    pub sparks: Seq<Spark>,
    pub since: int,
}

impl FireworksState {
    /// All sparks are well formed, and a burst is due in some frames.
    pub open spec fn wf(self) -> bool {
        &&& self.sparks.len() == SPARKS
        &&& 0 <= self.since < BURST_EVERY
        &&& forall|i: int| 0 <= i < SPARKS ==> (#[trigger] self.sparks[i]).wf()
    }
}

/// All sparks a frame later.
pub open spec fn a_frame_later(f: FireworksState) -> FireworksState {
    FireworksState { sparks: Seq::new(f.sparks.len(), |i: int| aged(f.sparks[i])), since: f.since }
}

/// From `before` and the random state `s` a frame of the bursts leads to `after`
/// and the random state `t`; a burst, if there is one, has an angle, a radius
/// and sparks.
pub open spec fn spawned(
    before: FireworksState,
    s: u32,
    after: FireworksState,
    t: u32,
    burst: Option<(u32, u32, Seq<Launch>)>,
) -> bool {
    match burst {
        None => {
            &&& before.since + 1 < BURST_EVERY
            &&& after.since == before.since + 1
            &&& after.sparks == before.sparks
            &&& t == s
        },
        Some((angle, radius, launches)) => {
            &&& before.since + 1 == BURST_EVERY
            &&& after.since == 0
            &&& angle == rng::scaled(rng::steps(s, 1), 0, 628)
            &&& radius == rng::scaled(rng::steps(s, 2), 20, 170)
            &&& launched(before.sparks, launches, s, SPARKS as int)
            &&& burst_into(before.sparks, after.sparks, s, SPARKS as int)
            &&& t == rng::steps(s, 3 + 3 * taken(before.sparks, SPARKS as int))
        },
    }
}

impl View for Fireworks {
    type V = FireworksState;

    closed spec fn view(&self) -> FireworksState {
        FireworksState { sparks: self.sparks@, since: self.spawn_cd as int }
    }
}

impl Fireworks {
    /// No spark is there yet.
    pub fn new() -> (f: Fireworks)
        ensures
            f@.wf(),
            f@.since == 0,
            forall|i: int|
                0 <= i < SPARKS ==> #[trigger] f@.sparks[i] == (Spark {
                    life: 0,
                    max_life: 1,
                    color: 0,
                    active: false,
                }),
    {
        let mut sparks: Vec<Spark> = Vec::new();
        let mut i: usize = 0;
        while i < SPARKS
            invariant
                i <= SPARKS,
                sparks@.len() == i,
                forall|j: int|
                    0 <= j < i ==> #[trigger] sparks@[j] == (Spark {
                        life: 0,
                        max_life: 1,
                        color: 0,
                        active: false,
                    }),
            decreases SPARKS - i,
        {
            sparks.push(Spark { life: 0, max_life: 1, color: 0, active: false });
            i += 1;
        }
        Fireworks { sparks, spawn_cd: 0 }
    }

    /// The spark number `i`.
    pub fn spark(&self, i: usize) -> (p: Spark)
        requires
            i < self@.sparks.len(),
        ensures
            p == self@.sparks[i as int],
    {
        self.sparks[i]
    }

    /// A frame passes for the bursts.  Where one is due, it takes the first
    /// sparks that are not there.
    pub fn spawn(&mut self, rng: &mut Rng) -> (burst: Option<Burst>)
        requires
            old(self)@.wf(),
        ensures
            final(self)@.wf(),
            match burst {
                None => {
                    &&& old(self)@.since + 1 < BURST_EVERY
                    &&& final(self)@.since == old(self)@.since + 1
                    &&& final(self)@.sparks == old(self)@.sparks
                    &&& final(rng)@ == old(rng)@
                },
                Some(b) => {
                    &&& old(self)@.since + 1 == BURST_EVERY
                    &&& final(self)@.since == 0
                    &&& b.angle == rng::scaled(rng::steps(old(rng)@, 1), 0, 628)
                    &&& b.radius == rng::scaled(rng::steps(old(rng)@, 2), 20, 170)
                    &&& launched(old(self)@.sparks, b.launches@, old(rng)@, SPARKS as int)
                    &&& burst_into(
                        old(self)@.sparks,
                        final(self)@.sparks,
                        old(rng)@,
                        SPARKS as int,
                    )
                    &&& final(rng)@ == rng::steps(
                        old(rng)@,
                        3 + 3 * taken(old(self)@.sparks, SPARKS as int),
                    )
                },
            },
            spawned(
                old(self)@,
                old(rng)@,
                final(self)@,
                final(rng)@,
                match burst {
                    None => None,
                    Some(b) => Some((b.angle, b.radius, b.launches@)),
                },
            ),
    {
        self.spawn_cd = self.spawn_cd.wrapping_add(1);
        if self.spawn_cd < BURST_EVERY {
            return None;
        }
        self.spawn_cd = 0;
        let ghost s = rng@;
        let ghost before = self.sparks@;
        proof {
            reveal_with_fuel(rng::steps, 4);
        }
        let angle: u32 = rng.range(0, 628);
        let radius: u32 = rng.range(20, 170);
        let color: u16 = fw_color(rng.range(0, 6));
        let mut launches: Vec<Launch> = Vec::new();
        let mut i: usize = 0;
        while i < SPARKS
            invariant
                i <= SPARKS,
                before.len() == SPARKS,
                self.sparks@.len() == SPARKS,
                self.spawn_cd == 0,
                color == burst_color(rng::scaled(rng::steps(s, 3), 0, 6)),
                forall|k: int| 0 <= k < SPARKS ==> (#[trigger] self.sparks@[k]).wf(),
                rng@ == rng::steps(s, 3 + 3 * taken(before, i as int)),
                launched(before, launches@, s, i as int),
                burst_into(before, self.sparks@, s, i as int),
            decreases SPARKS - i,
        {
            proof {
                free_slots_ordered(before, i as int);
                assert(!free_slots(before, i as int).contains(i as int));
                assert(self.sparks@[i as int] == before[i as int]);
            }
            let ghost after = self.sparks@;
            let ghost free = free_slots(before, i as int);
            let ghost j = launches@.len();
            if !self.sparks[i].active && launches.len() < BURST {
                proof {
                    assert(j == free.len());
                    reveal_with_fuel(rng::steps, 4);
                }
                let dir: u32 = rng.range(0, 628);
                let speed: u32 = rng.range(15, 40);
                let life: u8 = (35 + rng.range(0, 20)) as u8;
                self.sparks[i] = Spark { life, max_life: life, color, active: true };
                launches.push(Launch { slot: i, dir, speed });
                proof {
                    assert(self.sparks@[i as int] == fresh_spark(s, j));
                    assert(launches@[j as int] == launch_of(s, i as int, j));
                    burst_grows(before, after, self.sparks@, s, i as int);
                }
            } else {
                proof {
                    burst_keeps(before, after, s, i as int);
                }
            }
            i += 1;
        }
        Some(Burst { angle, radius, launches })
    }
}

/// A burst takes only sparks that are not there, in their order and each of
/// them once.
pub proof fn free_slots_ordered(sparks: Seq<Spark>, n: int)
    ensures
        forall|j: int|
            0 <= j < free_slots(sparks, n).len() ==> 0 <= #[trigger] free_slots(sparks, n)[j] < n
                && !sparks[free_slots(sparks, n)[j]].active,
        forall|j: int, k: int|
            0 <= j < k < free_slots(sparks, n).len() ==> #[trigger] free_slots(sparks, n)[j]
                < #[trigger] free_slots(sparks, n)[k],
    decreases n,
{
    if n > 0 {
        free_slots_ordered(sparks, n - 1);
        let init = free_slots(sparks, n - 1);
        let all = free_slots(sparks, n);
        assert(all == init || all == init.push(n - 1));
        assert forall|j: int| 0 <= j < init.len() implies #[trigger] all[j] == init[j] by {}
        assert forall|j: int| 0 <= j < all.len() implies 0 <= #[trigger] all[j] < n
            && !sparks[all[j]].active by {
            if j < init.len() {
                assert(all[j] == init[j]);
            }
        }
        assert forall|j: int, k: int| 0 <= j < k < all.len() implies #[trigger] all[j]
            < #[trigger] all[k] by {
            assert(all[j] == init[j]);
            if k < init.len() {
                assert(all[k] == init[k]);
            }
        }
    }
}

/// A burst that takes the slot `n`.
proof fn burst_grows(before: Seq<Spark>, after: Seq<Spark>, next: Seq<Spark>, s: u32, n: int)
    requires
        0 <= n < before.len(),
        burst_into(before, after, s, n),
        !before[n].active,
        free_slots(before, n).len() < BURST,
        next == after.update(n, fresh_spark(s, free_slots(before, n).len())),
    ensures
        burst_into(before, next, s, n + 1),
        taken(before, n + 1) == taken(before, n) + 1,
{
    let free = free_slots(before, n);
    let more = free_slots(before, n + 1);
    free_slots_ordered(before, n);
    assert(more =~= free.push(n));
    assert(free.take(taken(before, n) as int) =~= free);
    assert(more.take(taken(before, n + 1) as int) =~= more);
    assert forall|j: int| 0 <= j < taken(before, n + 1) implies next[#[trigger] more[j]]
        == fresh_spark(s, j as nat) by {
        if j < free.len() {
            assert(more[j] == free[j]);
        }
    }
    assert forall|i: int|
        0 <= i < before.len() && !more.contains(i) implies #[trigger] next[i] == before[i] by {
        assert(more[free.len() as int] == n);
        if free.contains(i) {
            let j = choose|j: int| 0 <= j < free.len() && free[j] == i;
            assert(more[j] == i);
        }
        assert(after[i] == before[i]);
    }
}

/// A burst that does not take the slot `n`.
proof fn burst_keeps(before: Seq<Spark>, after: Seq<Spark>, s: u32, n: int)
    requires
        0 <= n < before.len(),
        burst_into(before, after, s, n),
        before[n].active || free_slots(before, n).len() >= BURST,
    ensures
        burst_into(before, after, s, n + 1),
        taken(before, n + 1) == taken(before, n),
        forall|j: int|
            0 <= j < taken(before, n) ==> #[trigger] free_slots(before, n + 1)[j] == free_slots(
                before,
                n,
            )[j],
{
    let free = free_slots(before, n);
    let more = free_slots(before, n + 1);
    if !before[n].active {
        assert(more =~= free.push(n));
    }
    assert(more.take(taken(before, n + 1) as int) =~= free.take(taken(before, n) as int));
    assert forall|j: int| 0 <= j < taken(before, n + 1) implies after[#[trigger] more[j]]
        == fresh_spark(s, j as nat) by {
        assert(more[j] == free[j]);
    }
}

/// The pixels of the sparks before `n` that are there.
pub open spec fn sparks_shape(
    sparks: Seq<Spark>,
    at: Seq<(i32, i32)>,
    n: int,
) -> spec_fn(int, int) -> bool {
    |x: int, y: int|
        exists|i: int|
            0 <= i < n && (#[trigger] sparks[i]).active && canvas::disc(
                at[i].0 as int,
                at[i].1 as int,
                PARTICLE_R as int,
            )(x, y)
}

/// The frame `s` with the sparks before `n` that are there drawn in their
/// colours, in their order.
pub open spec fn sparks_drawn(
    s: Seq<u16>,
    sparks: Seq<Spark>,
    at: Seq<(i32, i32)>,
    n: int,
) -> Seq<u16>
    decreases n,
{
    if n <= 0 {
        s
    } else {
        let p = sparks[n - 1];
        let rest = sparks_drawn(s, sparks, at, n - 1);
        if p.active {
            canvas::painted(
                rest,
                canvas::disc(at[n - 1].0 as int, at[n - 1].1 as int, PARTICLE_R as int),
                faded(p.color, p.life as int, p.max_life as int) as u16,
            )
        } else {
            rest
        }
    }
}

/// The extent `d` with the squares round the sparks before `n` that are there.
pub open spec fn extended(
    d: Extent,
    sparks: Seq<Spark>,
    at: Seq<(i32, i32)>,
    n: int,
) -> Extent
    decreases n,
{
    if n <= 0 {
        d
    } else if sparks[n - 1].active {
        extended(d, sparks, at, n - 1).with(at[n - 1].0 as int, at[n - 1].1 as int)
    } else {
        extended(d, sparks, at, n - 1)
    }
}

/// Every spark has a place where it can be drawn.
pub open spec fn all_drawable(sparks: Seq<Spark>, at: Seq<(i32, i32)>) -> bool {
    &&& at.len() == SPARKS
    &&& forall|i: int|
        0 <= i < SPARKS && (#[trigger] sparks[i]).active ==> drawable(
            at[i].0 as int,
            at[i].1 as int,
        )
}

impl Fireworks {
    /// Paints the background over the sparks that are there, at the places
    /// `at`, and notes what was painted.
    pub fn erase(&self, buf: &mut [u16], at: &[(i32, i32)], dirty: &mut Dirty)
        requires
            self@.wf(),
            old(buf)@.len() >= FRAME_LEN,
            all_drawable(self@.sparks, at@),
        ensures
            final(buf)@ == canvas::painted(
                old(buf)@,
                sparks_shape(self@.sparks, at@, SPARKS as int),
                RAW_BG,
            ),
            final(dirty)@ == extended(old(dirty)@, self@.sparks, at@, SPARKS as int),
    {
        let ghost before = buf@;
        let ghost start = dirty@;
        let ghost sparks = self.sparks@;
        let mut i: usize = 0;
        assert(buf@ =~= canvas::painted(before, sparks_shape(sparks, at@, 0), RAW_BG));
        while i < SPARKS
            invariant
                self@.wf(),
                sparks == self.sparks@,
                sparks == self@.sparks,
                i <= SPARKS,
                before.len() >= FRAME_LEN,
                all_drawable(sparks, at@),
                buf@ == canvas::painted(before, sparks_shape(sparks, at@, i as int), RAW_BG),
                dirty@ == extended(start, sparks, at@, i as int),
            decreases SPARKS - i,
        {
            let ghost seen = sparks_shape(sparks, at@, i as int);
            let ghost next = sparks_shape(sparks, at@, i + 1);
            if self.sparks[i].active {
                let (x, y): (i32, i32) = at[i];
                fill_circle(buf, x, y, PARTICLE_R, RAW_BG);
                dirty.cover(x, y);
                proof {
                    let more = canvas::disc(x as int, y as int, PARTICLE_R as int);
                    canvas::painted_twice(before, seen, more, RAW_BG);
                    assert forall|px: int, py: int| #[trigger]
                        next(px, py) == canvas::either(seen, more)(px, py) by {
                        assert(sparks[i as int].active);
                    }
                    canvas::painted_same(before, next, canvas::either(seen, more), RAW_BG);
                }
            } else {
                proof {
                    assert forall|px: int, py: int| #[trigger]
                        next(px, py) == seen(px, py) by {}
                    canvas::painted_same(before, next, seen, RAW_BG);
                }
            }
            i += 1;
        }
    }

    /// A frame passes for the sparks: those that are there get older.
    pub fn age(&mut self)
        requires
            old(self)@.wf(),
        ensures
            final(self)@.wf(),
            final(self)@.since == old(self)@.since,
            forall|i: int|
                0 <= i < SPARKS ==> #[trigger] final(self)@.sparks[i] == aged(
                    old(self)@.sparks[i],
                ),
            final(self)@ == a_frame_later(old(self)@),
    {
        let ghost before = self@;
        let mut i: usize = 0;
        while i < SPARKS
            invariant
                i <= SPARKS,
                before.wf(),
                self.sparks@.len() == SPARKS,
                self.spawn_cd == before.since,
                forall|j: int|
                    0 <= j < SPARKS ==> #[trigger] self.sparks@[j] == if j < i {
                        aged(before.sparks[j])
                    } else {
                        before.sparks[j]
                    },
            decreases SPARKS - i,
        {
            let p: Spark = self.sparks[i];
            assert(before.sparks[i as int].wf());
            if p.active {
                let life: u8 = p.life - 1;
                self.sparks[i] = Spark { life, active: life != 0, ..p };
            }
            i += 1;
        }
        assert forall|i: int| 0 <= i < SPARKS implies (#[trigger] self@.sparks[i]).wf() by {
            assert(before.sparks[i].wf());
        }
        assert(self@.sparks =~= a_frame_later(before).sparks);
    }

    /// Draws the sparks that are there in their colours, at the places `at`,
    /// and notes what was drawn on.
    pub fn draw(&self, buf: &mut [u16], at: &[(i32, i32)], dirty: &mut Dirty)
        requires
            self@.wf(),
            old(buf)@.len() >= FRAME_LEN,
            all_drawable(self@.sparks, at@),
        ensures
            final(buf)@ == sparks_drawn(old(buf)@, self@.sparks, at@, SPARKS as int),
            final(dirty)@ == extended(old(dirty)@, self@.sparks, at@, SPARKS as int),
    {
        let ghost before = buf@;
        let ghost start = dirty@;
        let ghost sparks = self.sparks@;
        let mut i: usize = 0;
        while i < SPARKS
            invariant
                self@.wf(),
                sparks == self.sparks@,
                sparks == self@.sparks,
                i <= SPARKS,
                buf@.len() >= FRAME_LEN,
                all_drawable(sparks, at@),
                buf@ == sparks_drawn(before, sparks, at@, i as int),
                dirty@ == extended(start, sparks, at@, i as int),
            decreases SPARKS - i,
        {
            let p: Spark = self.sparks[i];
            if p.active {
                let (x, y): (i32, i32) = at[i];
                assert(self@.sparks[i as int].wf());
                fill_circle(buf, x, y, PARTICLE_R, fade_color(p.color, p.life, p.max_life));
                dirty.cover(x, y);
            }
            i += 1;
        }
    }
}

/// What erasing or drawing sparks notes holds every pixel that it touches and
/// everything that was noted before.
pub proof fn noted_extent_is_enough(
    d: Extent,
    sparks: Seq<Spark>,
    at: Seq<(i32, i32)>,
    n: int,
    x: int,
    y: int,
)
    requires
        d.has_pixel(x, y) || sparks_shape(sparks, at, n)(x, y),
    ensures
        extended(d, sparks, at, n).has_pixel(x, y),
    decreases n,
{
    if n > 0 {
        let at_last = sparks[n - 1].active && canvas::disc(
            at[n - 1].0 as int,
            at[n - 1].1 as int,
            PARTICLE_R as int,
        )(x, y);
        if at_last {
            canvas::disc_is_bounded(x - at[n - 1].0, y - at[n - 1].1, PARTICLE_R as int);
        } else {
            noted_extent_is_enough(d, sparks, at, n - 1, x, y);
        }
    }
}

/// Drawing sparks changes no pixel outside of them.
pub proof fn sparks_change_nothing_else(
    s: Seq<u16>,
    sparks: Seq<Spark>,
    at: Seq<(i32, i32)>,
    n: int,
    x: int,
    y: int,
)
    requires
        s.len() >= FRAME_LEN,
        geometry::on_screen(x, y),
        !sparks_shape(sparks, at, n)(x, y),
    ensures
        sparks_drawn(s, sparks, at, n).len() == s.len(),
        sparks_drawn(s, sparks, at, n)[canvas::index_of(x, y)] == s[canvas::index_of(x, y)],
    decreases n,
{
    canvas::index_of_splits(x, y);
    if n > 0 {
        assert(!sparks_shape(sparks, at, n - 1)(x, y)) by {
            if sparks_shape(sparks, at, n - 1)(x, y) {
                let i = choose|i: int|
                    0 <= i < n - 1 && (#[trigger] sparks[i]).active && canvas::disc(
                        at[i].0 as int,
                        at[i].1 as int,
                        PARTICLE_R as int,
                    )(x, y);
                assert(sparks[i].active);
            }
        }
        sparks_change_nothing_else(s, sparks, at, n - 1, x, y);
    }
}

/// Erasing sparks where they were drawn leaves nothing of them: the frame is as
/// if they had been erased without having been drawn.
pub proof fn erasing_undoes_drawing(
    s: Seq<u16>,
    sparks: Seq<Spark>,
    at: Seq<(i32, i32)>,
    n: int,
)
    requires
        s.len() >= FRAME_LEN,
    ensures
        canvas::painted(sparks_drawn(s, sparks, at, n), sparks_shape(sparks, at, n), RAW_BG)
            == canvas::painted(s, sparks_shape(sparks, at, n), RAW_BG),
{
    let shape = sparks_shape(sparks, at, n);
    let drawn = sparks_drawn(s, sparks, at, n);
    sparks_drawn_len(s, sparks, at, n);
    assert forall|i: int| 0 <= i < s.len() implies canvas::painted(drawn, shape, RAW_BG)[i]
        == canvas::painted(s, shape, RAW_BG)[i] by {
        if i < FRAME_LEN {
            let (x, y) = (i % W as int, i / W as int);
            assert(canvas::index_of(x, y) == i);
            if !shape(x, y) {
                sparks_change_nothing_else(s, sparks, at, n, x, y);
            }
        } else {
            sparks_drawn_beyond(s, sparks, at, n, i);
        }
    }
    assert(canvas::painted(drawn, shape, RAW_BG) =~= canvas::painted(s, shape, RAW_BG));
}

proof fn sparks_drawn_len(s: Seq<u16>, sparks: Seq<Spark>, at: Seq<(i32, i32)>, n: int)
    ensures
        sparks_drawn(s, sparks, at, n).len() == s.len(),
    decreases n,
{
    if n > 0 {
        sparks_drawn_len(s, sparks, at, n - 1);
    }
}

proof fn sparks_drawn_beyond(s: Seq<u16>, sparks: Seq<Spark>, at: Seq<(i32, i32)>, n: int, i: int)
    requires
        FRAME_LEN <= i < s.len(),
    ensures
        sparks_drawn(s, sparks, at, n)[i] == s[i],
    decreases n,
{
    if n > 0 {
        sparks_drawn_len(s, sparks, at, n - 1);
        sparks_drawn_beyond(s, sparks, at, n - 1, i);
    }
}

/// Every pixel of the screen that a frame of the fireworks changes, by erasing
/// the sparks `was` at the places `from` and drawing the sparks `now` at the
/// places `to`, lies in the rectangle that is sent after it.
pub proof fn what_changed_is_sent(
    s: Seq<u16>,
    was: Seq<Spark>,
    from: Seq<(i32, i32)>,
    now: Seq<Spark>,
    to: Seq<(i32, i32)>,
    x: int,
    y: int,
)
    requires
        s.len() >= FRAME_LEN,
        geometry::on_screen(x, y),
        ({
            let erased = canvas::painted(s, sparks_shape(was, from, SPARKS as int), RAW_BG);
            let drawn = sparks_drawn(erased, now, to, SPARKS as int);
            drawn[canvas::index_of(x, y)] != s[canvas::index_of(x, y)]
        }),
    ensures
        extended(
            extended(Extent::nothing(), was, from, SPARKS as int),
            now,
            to,
            SPARKS as int,
        ).has_pixel(x, y),
{
    let n = SPARKS as int;
    let shape = sparks_shape(was, from, n);
    let erased = canvas::painted(s, shape, RAW_BG);
    let d = extended(Extent::nothing(), was, from, n);
    canvas::painted_at(s, shape, RAW_BG, x, y);
    if !sparks_shape(now, to, n)(x, y) {
        sparks_change_nothing_else(erased, now, to, n, x, y);
        noted_extent_is_enough(Extent::nothing(), was, from, n, x, y);
    }
    noted_extent_is_enough(d, now, to, n, x, y);
}

/// The share of a channel that a spark with `life` of `max_life` frames left
/// shows: all of it in its first 15 frames, and after them the part of it that
/// its remaining frames are of all frames but those, rounded down.
pub open spec fn shows_share(shown: int, channel: int, life: int, max_life: int) -> bool {
    if max_life - life <= 15 {
        shown == channel
    } else {
        shown * (max_life - 15) <= channel * life < (shown + 1) * (max_life - 15)
    }
}

/// A spark fades in each of its channels alike.
pub proof fn a_spark_fades_in_each_channel(raw: u16, life: int, max_life: int)
    requires
        0 <= life,
    ensures
        ({
            let c = faded(raw, life, max_life);
            &&& 0 <= c <= 0xFFFF
            &&& shows_share(c / 2048, raw as int / 2048, life, max_life)
            &&& shows_share(c / 32 % 64, raw as int / 32 % 64, life, max_life)
            &&& shows_share(c % 32, raw as int % 32, life, max_life)
            &&& max_life - life <= 15 ==> c == raw
        }),
{
    let (r, g, b) = (raw as int / 2048, raw as int / 32 % 64, raw as int % 32);
    a_channel_shows_its_share(r, life, max_life);
    a_channel_shows_its_share(g, life, max_life);
    a_channel_shows_its_share(b, life, max_life);
    fading_is_bounded(r, life, max_life);
    fading_is_bounded(g, life, max_life);
    fading_is_bounded(b, life, max_life);
    let c = faded(raw, life, max_life);
    let (fr, fg, fb) = (
        faded_channel(r, life, max_life),
        faded_channel(g, life, max_life),
        faded_channel(b, life, max_life),
    );
    assert(c == fr * 2048 + fg * 32 + fb);
    assert(c / 2048 == fr);
    assert(c / 32 == fr * 64 + fg);
    assert(c / 32 % 64 == fg);
    assert(c % 32 == fb);
}

proof fn a_channel_shows_its_share(channel: int, life: int, max_life: int)
    requires
        0 <= channel,
        0 <= life,
    ensures
        shows_share(faded_channel(channel, life, max_life), channel, life, max_life),
{
    if max_life - life > 15 {
        let m = max_life - 15;
        let q = channel * life / m;
        vstd::arithmetic::div_mod::lemma_fundamental_div_mod(channel * life, m);
        vstd::arithmetic::div_mod::lemma_mod_bound(channel * life, m);
        assert(q * m <= channel * life < (q + 1) * m) by (nonlinear_arith)
            requires
                channel * life == m * q + (channel * life) % m,
                0 <= (channel * life) % m < m,
        ;
    }
}

/// Getting older changes neither the colour of a spark nor the frames it had at
/// first, and a spark that is not there does not change at all.
pub proof fn age_changes_only_the_frames_left(p: Spark)
    requires
        p.wf(),
    ensures
        aged(p).color == p.color,
        aged(p).max_life == p.max_life,
        !p.active ==> aged(p) == p,
        p.active ==> aged(p).life + 1 == p.life && (aged(p).active <==> p.life > 1),
{
}

/// The colours of bursts, by their channels: white, cyan, yellow, magenta, green
/// and orange.
pub proof fn the_colours_of_bursts(k: u32)
    requires
        k < 6,
    ensures
        ({
            let c = burst_color(k) as int;
            &&& c / 2048 == if k == 1 || k == 4 {
                0int
            } else {
                31
            }
            &&& c / 32 % 64 == if k == 3 {
                0int
            } else if k == 5 {
                41
            } else {
                63
            }
            &&& c % 32 == if k == 2 || k == 4 || k == 5 {
                0int
            } else {
                31
            }
        }),
{
}

/// Every spark that is not there is among the free ones.
pub proof fn free_slots_are_all(sparks: Seq<Spark>, n: int, i: int)
    requires
        0 <= i < n,
        !sparks[i].active,
    ensures
        free_slots(sparks, n).contains(i),
    decreases n,
{
    let all = free_slots(sparks, n);
    if i == n - 1 {
        assert(all[all.len() - 1] == i);
    } else {
        let init = free_slots(sparks, n - 1);
        free_slots_are_all(sparks, n - 1, i);
        let j = choose|j: int| 0 <= j < init.len() && init[j] == i;
        assert(all[j] == i);
    }
}

/// A burst comes with every 25th frame and with no other, and without one nothing
/// changes but the frames since the last.
pub proof fn a_burst_comes_every_25_frames(
    before: FireworksState,
    s: u32,
    after: FireworksState,
    t: u32,
    burst: Option<(u32, u32, Seq<Launch>)>,
)
    requires
        before.wf(),
        spawned(before, s, after, t, burst),
    ensures
        burst is Some <==> before.since == 24,
        burst is Some ==> after.since == 0,
        burst is None ==> after.since == before.since + 1 && after.sparks == before.sparks && t
            == s,
{
}

/// Where a burst starts is drawn first: an angle of less than 628 hundredths of a
/// radian and a distance of 20 to 169 pixels, each the remainder of a random
/// number.  The third one gives its colour, and every spark takes three more.
pub proof fn a_burst_is_drawn_by_lot(
    before: FireworksState,
    s: u32,
    after: FireworksState,
    t: u32,
    angle: u32,
    radius: u32,
    launches: Seq<Launch>,
)
    requires
        before.wf(),
        spawned(before, s, after, t, Some((angle, radius, launches))),
    ensures
        angle < 628 && (rng::steps(s, 1) - angle) % 628 == 0,
        20 <= radius < 170 && (rng::steps(s, 2) + 20 - radius) % 150 == 0,
        t == rng::steps(s, 3 + 3 * launches.len()),
        forall|j: int|
            0 <= j < launches.len() ==> {
                let l = #[trigger] launches[j];
                let p = after.sparks[l.slot as int];
                &&& l.dir < 628 && (rng::steps(s, (4 + 3 * j) as nat) - l.dir) % 628 == 0
                &&& 15 <= l.speed < 40 && (rng::steps(s, (5 + 3 * j) as nat) + 15 - l.speed) % 25
                    == 0
                &&& 35 <= p.life < 55 && (rng::steps(s, (6 + 3 * j) as nat) + 35 - p.life) % 20 == 0
                &&& p.max_life == p.life
                &&& p.active
                &&& p.color == burst_color((rng::steps(s, 3) % 6) as u32)
            },
{
    let sparks = before.sparks;
    let free = free_slots(sparks, SPARKS as int);
    free_slots_ordered(sparks, SPARKS as int);
    rng::a_drawn_number_is_the_remainder(rng::steps(s, 1), 0, 628);
    rng::a_drawn_number_is_the_remainder(rng::steps(s, 2), 20, 170);
    assert forall|j: int| 0 <= j < launches.len() implies {
        let l = #[trigger] launches[j];
        let p = after.sparks[l.slot as int];
        &&& l.dir < 628 && (rng::steps(s, (4 + 3 * j) as nat) - l.dir) % 628 == 0
        &&& 15 <= l.speed < 40 && (rng::steps(s, (5 + 3 * j) as nat) + 15 - l.speed) % 25 == 0
        &&& 35 <= p.life < 55 && (rng::steps(s, (6 + 3 * j) as nat) + 35 - p.life) % 20 == 0
        &&& p.max_life == p.life
        &&& p.active
        &&& p.color == burst_color((rng::steps(s, 3) % 6) as u32)
    } by {
        let n = j as nat;
        let l = launches[j];
        assert(l == launch_of(s, free[j], n));
        assert(0 <= free[j] < SPARKS);
        assert(l.slot as int == free[j]);
        assert(after.sparks[free[j]] == fresh_spark(s, n));
        assert((4 + 3 * j) as nat == 4 + 3 * n && (5 + 3 * j) as nat == 5 + 3 * n && (6 + 3
            * j) as nat == 6 + 3 * n);
        rng::a_drawn_number_is_the_remainder(rng::steps(s, 4 + 3 * n), 0, 628);
        rng::a_drawn_number_is_the_remainder(rng::steps(s, 5 + 3 * n), 15, 40);
        rng::a_drawn_number_is_the_remainder(rng::steps(s, 6 + 3 * n), 0, 20);
    }
}

/// A burst takes up to 18 sparks that are not there, the first of them and each
/// once, and it takes fewer only where there are no more.  It leaves all others
/// alone.
pub proof fn a_burst_takes_the_first_free_sparks(
    before: FireworksState,
    s: u32,
    after: FireworksState,
    t: u32,
    angle: u32,
    radius: u32,
    launches: Seq<Launch>,
    i: int,
)
    requires
        before.wf(),
        spawned(before, s, after, t, Some((angle, radius, launches))),
        0 <= i < 80,
    ensures
        after.sparks.len() == 80,
        launches.len() <= 18,
        forall|j: int|
            0 <= j < launches.len() ==> (#[trigger] launches[j]).slot < 80
                && !before.sparks[launches[j].slot as int].active,
        forall|j: int, k: int|
            0 <= j < k < launches.len() ==> (#[trigger] launches[j]).slot
                < (#[trigger] launches[k]).slot,
        before.sparks[i].active ==> after.sparks[i] == before.sparks[i],
        !after.sparks[i].active ==> {
            &&& after.sparks[i] == before.sparks[i]
            &&& launches.len() == 18
            &&& forall|j: int| 0 <= j < 18 ==> (#[trigger] launches[j]).slot < i
        },
        after.sparks[i] != before.sparks[i] ==> exists|j: int|
            0 <= j < launches.len() && (#[trigger] launches[j]).slot == i,
{
    let sparks = before.sparks;
    let n = SPARKS as int;
    let free = free_slots(sparks, n);
    let m = taken(sparks, n) as int;
    free_slots_ordered(sparks, n);
    assert forall|j: int| 0 <= j < launches.len() implies (#[trigger] launches[j]).slot as int
        == free[j] && 0 <= free[j] < 80 by {
        assert(launches[j] == launch_of(s, free[j], j as nat));
    }
    assert forall|j: int, k: int| 0 <= j < k < launches.len() implies (#[trigger] launches[j]).slot
        < (#[trigger] launches[k]).slot by {
        assert(free[j] < free[k]);
    }
    let first = free.take(m);
    if first.contains(i) {
        let j = choose|j: int| 0 <= j < first.len() && first[j] == i;
        assert(free[j] == i);
        assert(launches[j].slot as int == i);
        assert(!sparks[i].active);
        assert(after.sparks[free[j]] == fresh_spark(s, j as nat));
        assert(after.sparks[i].active);
    } else {
        assert(after.sparks[i] == sparks[i]);
        if !sparks[i].active {
            free_slots_are_all(sparks, n, i);
            let q = choose|q: int| 0 <= q < free.len() && free[q] == i;
            if q < m {
                assert(first[q] == i);
            }
            assert forall|j: int| 0 <= j < 18 implies (#[trigger] launches[j]).slot < i by {
                assert(launches[j].slot as int == free[j]);
                assert(free[j] < free[q]);
            }
        }
    }
}

/// The pixel `(x, y)` belongs to a spark at the place `at`: it is at most 3
/// pixels away from it.
pub open spec fn on_spark(at: (i32, i32), x: int, y: int) -> bool {
    (x - at.0) * (x - at.0) + (y - at.1) * (y - at.1) <= 9
}

/// Of the sparks that are there the last one at a pixel gives it its colour.
pub proof fn the_last_spark_is_on_top(
    s: Seq<u16>,
    sparks: Seq<Spark>,
    at: Seq<(i32, i32)>,
    n: int,
    i: int,
    x: int,
    y: int,
)
    requires
        s.len() >= FRAME_LEN,
        0 <= x < 466,
        0 <= y < 466,
        0 <= i < n,
        sparks[i].active,
        on_spark(at[i], x, y),
        forall|k: int|
            i < k < n && (#[trigger] sparks[k]).active ==> !on_spark(at[k], x, y),
    ensures
        sparks_drawn(s, sparks, at, n)[466 * y + x] == faded(
            sparks[i].color,
            sparks[i].life as int,
            sparks[i].max_life as int,
        ),
    decreases n,
{
    let p = sparks[n - 1];
    let rest = sparks_drawn(s, sparks, at, n - 1);
    sparks_drawn_len(s, sparks, at, n - 1);
    assert(3int * 3 == 9);
    a_spark_fades_in_each_channel(p.color, p.life as int, p.max_life as int);
    if p.active {
        canvas::painted_at(
            rest,
            canvas::disc(at[n - 1].0 as int, at[n - 1].1 as int, PARTICLE_R as int),
            faded(p.color, p.life as int, p.max_life as int) as u16,
            x,
            y,
        );
    }
    if i < n - 1 {
        the_last_spark_is_on_top(s, sparks, at, n - 1, i, x, y);
    }
}

/// A pixel that no spark is at keeps its colour when the sparks are drawn and
/// when they are erased, and one that a spark is at is black when they are
/// erased.
pub proof fn sparks_are_erased_where_they_are(
    s: Seq<u16>,
    sparks: Seq<Spark>,
    at: Seq<(i32, i32)>,
    n: int,
    x: int,
    y: int,
)
    requires
        s.len() >= FRAME_LEN,
        0 <= x < 466,
        0 <= y < 466,
    ensures
        ({
            let hit = exists|i: int|
                0 <= i < n && (#[trigger] sparks[i]).active && on_spark(at[i], x, y);
            &&& canvas::painted(s, sparks_shape(sparks, at, n), RAW_BG)[466 * y + x] == if hit {
                0u16
            } else {
                s[466 * y + x]
            }
            &&& !hit ==> sparks_drawn(s, sparks, at, n)[466 * y + x] == s[466 * y + x]
        }),
{
    let shape = sparks_shape(sparks, at, n);
    assert(3int * 3 == 9);
    canvas::painted_at(s, shape, RAW_BG, x, y);
    if exists|i: int| 0 <= i < n && (#[trigger] sparks[i]).active && on_spark(at[i], x, y) {
        let i = choose|i: int|
            0 <= i < n && (#[trigger] sparks[i]).active && on_spark(at[i], x, y);
        assert(sparks[i].active);
        assert(shape(x, y));
    } else {
        if shape(x, y) {
            let i = choose|i: int|
                0 <= i < n && (#[trigger] sparks[i]).active && canvas::disc(
                    at[i].0 as int,
                    at[i].1 as int,
                    PARTICLE_R as int,
                )(x, y);
            assert(on_spark(at[i], x, y));
        }
        sparks_change_nothing_else(s, sparks, at, n, x, y);
    }
}

/// What is noted is no larger than needed: each of its edges is one that was
/// noted before, or 3 pixels away from a spark that is there.
pub proof fn noted_extent_is_no_larger(
    d: Extent,
    sparks: Seq<Spark>,
    at: Seq<(i32, i32)>,
    n: int,
)
    ensures
        ({
            let e = extended(d, sparks, at, n);
            &&& e.x0 <= d.x0 && e.y0 <= d.y0 && d.x1 <= e.x1 && d.y1 <= e.y1
            &&& forall|i: int|
                0 <= i < n && (#[trigger] sparks[i]).active ==> e.x0 <= at[i].0 - 3 && e.y0
                    <= at[i].1 - 3 && at[i].0 + 3 <= e.x1 && at[i].1 + 3 <= e.y1
            &&& e.x0 == d.x0 || exists|i: int|
                0 <= i < n && (#[trigger] sparks[i]).active && e.x0 == at[i].0 - 3
            &&& e.y0 == d.y0 || exists|i: int|
                0 <= i < n && (#[trigger] sparks[i]).active && e.y0 == at[i].1 - 3
            &&& e.x1 == d.x1 || exists|i: int|
                0 <= i < n && (#[trigger] sparks[i]).active && e.x1 == at[i].0 + 3
            &&& e.y1 == d.y1 || exists|i: int|
                0 <= i < n && (#[trigger] sparks[i]).active && e.y1 == at[i].1 + 3
        }),
    decreases n,
{
    if n > 0 {
        noted_extent_is_no_larger(d, sparks, at, n - 1);
        assert(sparks[n - 1].active || !sparks[n - 1].active);
    }
}

/// Before any spark is noted no pixel is, and a spark that is noted then is there
/// in what was noted.
pub proof fn nothing_is_noted_at_first(x: int, y: int)
    ensures
        ({
            let none = Extent::nothing();
            &&& none.x0 == 466 && none.y0 == 466 && none.x1 == 0 && none.y1 == 0
            &&& !none.has_pixel(x, y)
            &&& none.with(x, y).has_pixel(x, y)
        }),
{
}

/// With a frame every spark that is there has one frame less left, and is gone
/// when none is left; nothing else changes.
pub proof fn all_sparks_age_alike(f: FireworksState, i: int)
    requires
        f.wf(),
        0 <= i < 80,
    ensures
        ({
            let p = f.sparks[i];
            let q = a_frame_later(f).sparks[i];
            &&& a_frame_later(f).since == f.since
            &&& a_frame_later(f).sparks.len() == 80
            &&& q.color == p.color && q.max_life == p.max_life
            &&& p.active ==> q.life == p.life - 1 && q.active == (q.life > 0)
            &&& !p.active ==> q == p
        }),
{
    assert(f.sparks[i].wf());
    age_changes_only_the_frames_left(f.sparks[i]);
}

/// The rectangle of what was drawn on has exactly its pixels, and there is none
/// exactly where there are no pixels.
pub proof fn the_rectangle_has_what_was_drawn_on(d: Extent, x: int, y: int)
    requires
        i32::MIN <= d.x0 <= i32::MAX,
        i32::MIN <= d.y0 <= i32::MAX,
        d.size_fits(),
    ensures
        match d.rect_of() {
            Some(r) => r.covers(x, y) <==> d.x0 <= x <= d.x1 && d.y0 <= y <= d.y1,
            None => !(d.x0 <= x <= d.x1 && d.y0 <= y <= d.y1),
        },
{
}

} // verus!
