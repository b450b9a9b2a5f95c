//! The rules: scoring, the speed of the ball, serving, and what touches and the
//! passing of time do on each screen.
//!
//! Where the ball crosses a line or leaves the field is computed in floating
//! point outside this library; the rules take the answers.

use vstd::prelude::*;

use crate::arena::{CX, CY};
use crate::canvas;
use crate::rng;
use crate::rng::Rng;
use crate::screens;
use crate::screens::{button_top, Difficulty, FACE_R};

verus! {

/// Points that win a match.
pub const WIN_SCORE: u8 = 9;

/// Speed of a served ball, in half pixels per frame.
pub const SPEED_INIT: u8 = 28;

/// Highest speed of the ball, in half pixels per frame.
pub const SPEED_MAX: u8 = 52;

/// Time without a touch after which the board goes to sleep, in milliseconds.
pub const SLEEP_MS: u32 = 30_000;

/// The two sides of the field.
#[derive(Clone, Copy, PartialEq, Eq, Structural, Debug)]
pub enum Side {
    Player,
    Computer,
}

/// What follows from an event of a match.
#[derive(Clone, Copy, PartialEq, Eq, Structural, Debug)]
pub enum Play {
    /// The ball plays on.
    On,
    /// The ball is served anew.
    Serve { toward_player: bool },
    /// The match is over.
    Over { won: bool },
}

/// A match.
pub struct Match {
    player_score: u8,
    computer_score: u8,
    speed: u8,
    over: Option<bool>,
}

/// The state of a match: the points of both sides, the speed of the ball in half
/// pixels per frame, and, once it is over, whether the player won.
pub struct MatchState {
    pub player: int,
    pub computer: int,
    pub speed: int,
    pub over: Option<bool>,
}

impl MatchState {
    /// Points of a side.
    pub open spec fn points(self, side: Side) -> int {
        match side {
            Side::Player => self.player,
            Side::Computer => self.computer,
        }
    }

    /// No side has more points than win the match, none of them wins it unless
    /// it is over, who won it has the points for it, and the ball is neither
    /// slower nor faster than it may be.
    pub open spec fn wf(self) -> bool {
        &&& 0 <= self.player <= WIN_SCORE
        &&& 0 <= self.computer <= WIN_SCORE
        &&& SPEED_INIT <= self.speed <= SPEED_MAX
        &&& match self.over {
            None => self.player < WIN_SCORE && self.computer < WIN_SCORE,
            Some(true) => self.player == WIN_SCORE,
            Some(false) => self.computer == WIN_SCORE,
        }
    }

    /// After the ball bounced off a paddle.
    pub open spec fn faster(self) -> MatchState {
        MatchState {
            speed: if self.speed < SPEED_MAX {
                self.speed + 1
            } else {
                self.speed
            },
            ..self
        }
    }

    /// After the ball got past `side`: the other side has a point more, and
    /// either wins or the ball starts again at its first speed.
    pub open spec fn point_against(self, side: Side) -> MatchState {
        let more = match side {
            Side::Player => MatchState { computer: self.computer + 1, ..self },
            Side::Computer => MatchState { player: self.player + 1, ..self },
        };
        if more.points(other(side)) >= WIN_SCORE {
            MatchState { over: Some(side is Computer), ..more }
        } else {
            MatchState { speed: SPEED_INIT as int, ..more }
        }
    }
}

/// The opponent of a side.
pub open spec fn other(side: Side) -> Side {
    match side {
        Side::Player => Side::Computer,
        Side::Computer => Side::Player,
    }
}

/// What follows after the ball got past `side` in a match that was in state
/// `s`: the match is over, or the ball is served toward the side that scored.
pub open spec fn play_after_point(s: MatchState, side: Side) -> Play {
    if s.points(other(side)) + 1 >= WIN_SCORE {
        Play::Over { won: side is Computer }
    } else {
        Play::Serve { toward_player: side is Computer }
    }
}

/// A match in state `s` after a frame at the goal line of `side`, and what
/// follows.
pub open spec fn line_played(s: MatchState, side: Side, bounced: bool, missed: bool) -> (
    MatchState,
    Play,
) {
    if bounced {
        (s.faster(), Play::On)
    } else if missed {
        (s.point_against(side), play_after_point(s, side))
    } else {
        (s, Play::On)
    }
}

/// A match in state `s` after the ball has left the field, and what follows.
pub open spec fn escape_played(s: MatchState, gone: Option<Side>) -> (MatchState, Play) {
    if s.over is Some {
        (s, Play::On)
    } else {
        match gone {
            Some(side) => (s.point_against(side), play_after_point(s, side)),
            None => (s, Play::Serve { toward_player: true }),
        }
    }
}

impl View for Match {
    type V = MatchState;

    closed spec fn view(&self) -> MatchState {
        MatchState {
            player: self.player_score as int,
            computer: self.computer_score as int,
            speed: self.speed as int,
            over: self.over,
        }
    }
}

impl Match {
    /// A match that starts.
    pub fn new() -> (m: Match)
        ensures
            m@.wf(),
            m@ == (MatchState { player: 0, computer: 0, speed: SPEED_INIT as int, over: None }),
    {
        Match { player_score: 0, computer_score: 0, speed: SPEED_INIT, over: None }
    }

    /// Points of the player.
    pub fn player_score(&self) -> (n: u8)
        ensures
            n == self@.player,
    {
        self.player_score
    }

    /// Points of the computer.
    pub fn computer_score(&self) -> (n: u8)
        ensures
            n == self@.computer,
    {
        self.computer_score
    }

    /// Speed of the ball in half pixels per frame.
    pub fn speed(&self) -> (n: u8)
        ensures
            n == self@.speed,
    {
        self.speed
    }

    /// Whether the player won, once the match is over.
    pub fn result(&self) -> (r: Option<bool>)
        ensures
            r == self@.over,
    {
        self.over
    }

    /// The ball got past `side`.
    fn point(&mut self, side: Side) -> (play: Play)
        requires
            old(self)@.wf(),
            old(self)@.points(other(side)) < WIN_SCORE,
        ensures
            final(self)@.wf(),
            final(self)@ == old(self)@.point_against(side),
            play == play_after_point(old(self)@, side),
    {
        match side {
            Side::Player => {
                self.computer_score += 1;
                if self.computer_score >= WIN_SCORE {
                    self.over = Some(false);
                    return Play::Over { won: false };
                }
                self.speed = SPEED_INIT;
                Play::Serve { toward_player: false }
            },
            Side::Computer => {
                self.player_score += 1;
                if self.player_score >= WIN_SCORE {
                    self.over = Some(true);
                    return Play::Over { won: true };
                }
                self.speed = SPEED_INIT;
                Play::Serve { toward_player: true }
            },
        }
    }

    /// A frame at the goal line of `side`: whether the ball bounced off the
    /// paddle there, and whether it crossed the line clear of the paddle.
    /// A ball that bounced counts as saved.
    pub fn goal_line(&mut self, side: Side, bounced: bool, missed: bool) -> (play: Play)
        requires
            old(self)@.wf(),
            old(self)@.points(other(side)) < WIN_SCORE,
        ensures
            final(self)@.wf(),
            if bounced {
                final(self)@ == old(self)@.faster() && play == Play::On
            } else if missed {
                final(self)@ == old(self)@.point_against(side) && play == play_after_point(
                    old(self)@,
                    side,
                )
            } else {
                final(self)@ == old(self)@ && play == Play::On
            },
            (final(self)@, play) == line_played(old(self)@, side, bounced, missed),
    {
        if bounced {
            if self.speed < SPEED_MAX {
                self.speed += 1;
            }
            Play::On
        } else if missed {
            self.point(side)
        } else {
            Play::On
        }
    }

    /// The ball has left the field altogether, through the goal of `gone` or
    /// through none.  Nothing follows once the match is over.
    pub fn escaped(&mut self, gone: Option<Side>) -> (play: Play)
        requires
            old(self)@.wf(),
        ensures
            final(self)@.wf(),
            if old(self)@.over is Some {
                final(self)@ == old(self)@ && play == Play::On
            } else {
                match gone {
                    Some(side) => final(self)@ == old(self)@.point_against(side) && play
                        == play_after_point(old(self)@, side),
                    None => final(self)@ == old(self)@ && play == (Play::Serve {
                        toward_player: true,
                    }),
                }
            },
            (final(self)@, play) == escape_played(old(self)@, gone),
    {
        if self.over.is_some() {
            return Play::On;
        }
        match gone {
            Some(side) => self.point(side),
            None => Play::Serve { toward_player: true },
        }
    }
}

/// The state of a match after the ball bounced off paddles `n` times.
pub open spec fn after_bounces(s: MatchState, n: nat) -> MatchState
    decreases n,
{
    if n == 0 {
        s
    } else {
        after_bounces(s, (n - 1) as nat).faster()
    }
}

/// From a serve on, every bounce off a paddle makes the ball half a pixel per
/// frame faster, up to its highest speed, and changes nothing else.
pub proof fn bounces_speed_up(s: MatchState, n: nat)
    requires
        s.speed == SPEED_INIT,
    ensures
        after_bounces(s, n) == (MatchState {
            speed: if SPEED_INIT + n <= SPEED_MAX {
                SPEED_INIT + n
            } else {
                SPEED_MAX as int
            },
            ..s
        }),
    decreases n,
{
    if n > 0 {
        bounces_speed_up(s, (n - 1) as nat);
    }
}

/// A point goes to exactly one side, and it ends a match that was not over
/// exactly where that side had one point less than it takes to win.
pub proof fn a_point_counts_once(s: MatchState, side: Side)
    requires
        s.wf(),
        s.over is None,
    ensures
        s.point_against(side).points(other(side)) == s.points(other(side)) + 1,
        s.point_against(side).points(side) == s.points(side),
        s.point_against(side).over is Some <==> s.points(other(side)) == WIN_SCORE - 1,
        s.point_against(side).over is Some ==> s.point_against(side).over == Some(
            side is Computer,
        ),
        s.point_against(side).over is Some <==> play_after_point(s, side) is Over,
{
}

/// How a ball is served: its angle to the vertical in degrees, and whether it
/// goes to the right and toward the player.
#[derive(Clone, Copy, PartialEq, Eq, Structural, Debug)]
pub struct Serve {
    pub degrees: u32,
    pub right: bool,
    pub toward_player: bool,
}

/// How the ball is served from the random state `s`, and the random state after
/// that.
pub open spec fn served(s: u32, toward_player: bool) -> (Serve, u32) {
    (
        Serve {
            degrees: rng::scaled(rng::steps(s, 1), 5, 40),
            right: rng::scaled(rng::steps(s, 2), 0, 2) == 0,
            toward_player,
        },
        rng::steps(s, 2),
    )
}

/// Draws how the ball is served.
pub fn serve(rng: &mut Rng, toward_player: bool) -> (s: Serve)
    ensures
        s == (Serve {
            degrees: rng::scaled(rng::steps(old(rng)@, 1), 5, 40),
            right: rng::scaled(rng::steps(old(rng)@, 2), 0, 2) == 0,
            toward_player,
        }),
        5 <= s.degrees < 40,
        final(rng)@ == rng::steps(old(rng)@, 2),
        (s, final(rng)@) == served(old(rng)@, toward_player),
{
    proof {
        reveal_with_fuel(rng::steps, 3);
    }
    let degrees: u32 = rng.range(5, 40);
    let right: bool = rng.range(0, 2) == 0;
    Serve { degrees, right, toward_player }
}

/// A touch at the row `y` moves the player's paddle.
pub open spec fn moves_paddle(y: int) -> bool {
    y > CY
}

/// A touch at the row `y` moves the player's paddle: it is in the lower half of
/// the field.
pub fn steers(y: i32) -> (b: bool)
    ensures
        b == (y > CY),
        b == moves_paddle(y as int),
{
    y > CY
}

/// A touch at `(x, y)` hits the face on the end screen.
pub fn face_hit(x: i32, y: i32) -> (b: bool)
    ensures
        b == canvas::disc(CX as int, CY as int, FACE_R as int)(x as int, y as int),
        b == hits_face(Some((x, y))),
{
    let dx: i64 = x as i64 - CX as i64;
    let dy: i64 = y as i64 - CY as i64;
    let far: i64 = FACE_R as i64;
    if dx < -far || dx > far || dy < -far || dy > far {
        proof {
            if canvas::disc(CX as int, CY as int, FACE_R as int)(x as int, y as int) {
                canvas::disc_is_bounded(x - CX, y - CY, FACE_R as int);
            }
        }
        return false;
    }
    proof {
        canvas::square_is_bounded(dx as int, 90);
        canvas::square_is_bounded(dy as int, 90);
    }
    dx * dx + dy * dy <= far * far
}

impl Difficulty {
    /// How far the computer's paddle moves in a frame, in half pixels.
    pub fn computer_speed(self) -> (n: u8)
        ensures
            n == match self {
                Difficulty::Easy => 5u8,
                Difficulty::Medium => 9u8,
                Difficulty::Hard => 13u8,
            },
    {
        match self {
            Difficulty::Easy => 5,
            Difficulty::Medium => 9,
            Difficulty::Hard => 13,
        }
    }

    /// Half the length of the computer's paddle.
    pub fn computer_half_len(self) -> (n: u32)
        ensures
            n == match self {
                Difficulty::Easy => 35u32,
                Difficulty::Medium => 50u32,
                Difficulty::Hard => 62u32,
            },
    {
        match self {
            Difficulty::Easy => 35,
            Difficulty::Medium => 50,
            Difficulty::Hard => 62,
        }
    }
}

/// The row `y` is one of the rows of the button of a difficulty.
pub open spec fn beside_button(d: Difficulty, y: int) -> bool {
    screens::top_of(d) <= y < screens::top_of(d) + screens::BUTTON_H
}

/// The difficulty whose button has the row `y`, if any.
pub open spec fn picked(y: int) -> Option<Difficulty> {
    if beside_button(Difficulty::Easy, y) {
        Some(Difficulty::Easy)
    } else if beside_button(Difficulty::Medium, y) {
        Some(Difficulty::Medium)
    } else if beside_button(Difficulty::Hard, y) {
        Some(Difficulty::Hard)
    } else {
        None
    }
}

/// The difficulty whose button has the row `y`.
pub fn pick_difficulty(y: i32) -> (d: Option<Difficulty>)
    ensures
        d == picked(y as int),
{
    let easy: i32 = button_top(Difficulty::Easy);
    let medium: i32 = button_top(Difficulty::Medium);
    let hard: i32 = button_top(Difficulty::Hard);
    if y >= easy && y < easy + screens::BUTTON_H {
        return Some(Difficulty::Easy);
    }
    if y >= medium && y < medium + screens::BUTTON_H {
        return Some(Difficulty::Medium);
    }
    if y >= hard && y < hard + screens::BUTTON_H {
        return Some(Difficulty::Hard);
    }
    None
}

/// A touch on the button of a difficulty picks that difficulty, and what is
/// picked is the one difficulty whose button has the row of the touch.
pub proof fn a_touch_picks_its_button(d: Difficulty, x: int, y: int)
    ensures
        screens::button(d)(x, y) ==> picked(y) == Some(d),
        picked(y) == Some(d) <==> beside_button(d, y),
{
}

/// What a poll of the difficulty menu leads to.
#[derive(Clone, Copy, PartialEq, Eq, Structural, Debug)]
pub enum MenuStep {
    /// A difficulty was picked.
    Chosen(Difficulty),
    /// Wait a millisecond and poll again.
    Wait,
    /// Wait a millisecond and go to sleep.
    Sleep,
}

/// The difficulty menu, by the time since the last touch.
pub struct Menu {
    idle_ms: u32,
}

impl View for Menu {
    type V = int;

    /// Milliseconds since the last touch.
    closed spec fn view(&self) -> int {
        self.idle_ms as int
    }
}

/// The time since the last touch after a poll of the menu that comes `idle`
/// milliseconds after the last touch, and what the poll leads to.
pub open spec fn menu_polled(idle: int, touch: Option<(i32, i32)>) -> (int, MenuStep) {
    let since = if touch is Some {
        0
    } else {
        idle
    };
    let choice = match touch {
        Some((x, y)) => picked(y as int),
        None => None,
    };
    match choice {
        Some(d) => (since, MenuStep::Chosen(d)),
        None => if since + 1 < SLEEP_MS {
            (since + 1, MenuStep::Wait)
        } else {
            (since + 1, MenuStep::Sleep)
        },
    }
}

impl Menu {
    /// A menu that has just appeared.
    pub fn new() -> (m: Menu)
        ensures
            m@ == 0,
    {
        Menu { idle_ms: 0 }
    }

    /// One poll, with the touch that was read.
    pub fn poll(&mut self, touch: Option<(i32, i32)>) -> (step: MenuStep)
        requires
            0 <= old(self)@ < SLEEP_MS,
        ensures
            (final(self)@, step) == menu_polled(old(self)@, touch),
    {
        if let Some((_x, y)) = touch {
            self.idle_ms = 0;
            if let Some(d) = pick_difficulty(y) {
                return MenuStep::Chosen(d);
            }
        }
        self.idle_ms += 1;
        if self.idle_ms >= SLEEP_MS {
            MenuStep::Sleep
        } else {
            MenuStep::Wait
        }
    }
}

/// What a poll of the screen after a lost match leads to.
#[derive(Clone, Copy, PartialEq, Eq, Structural, Debug)]
pub enum LostStep {
    /// The face was touched.
    Done,
    /// Wait a millisecond and poll again.
    Wait,
    /// Wait a millisecond and go to sleep.
    Sleep,
}

/// The screen after a lost match, by the time it has been shown.
pub struct Lost {
    idle_ms: u32,
}

impl View for Lost {
    type V = int;

    /// Milliseconds that the screen has been shown.
    closed spec fn view(&self) -> int {
        self.idle_ms as int
    }
}

/// A touch hits the face on the end screen.
pub open spec fn hits_face(touch: Option<(i32, i32)>) -> bool {
    match touch {
        Some((x, y)) => canvas::disc(CX as int, CY as int, FACE_R as int)(x as int, y as int),
        None => false,
    }
}

/// How long the screen after a lost match has been shown after a poll, and what
/// the poll leads to.
pub open spec fn lost_polled(shown: int, touch: Option<(i32, i32)>) -> (int, LostStep) {
    if hits_face(touch) {
        (shown, LostStep::Done)
    } else if shown + 1 < SLEEP_MS {
        (shown + 1, LostStep::Wait)
    } else {
        (shown + 1, LostStep::Sleep)
    }
}

impl Lost {
    /// A screen that has just appeared.
    pub fn new() -> (m: Lost)
        ensures
            m@ == 0,
    {
        Lost { idle_ms: 0 }
    }

    /// One poll, with the touch that was read.  Touches beside the face do not
    /// keep the board awake.
    pub fn poll(&mut self, touch: Option<(i32, i32)>) -> (step: LostStep)
        requires
            0 <= old(self)@ < SLEEP_MS,
        ensures
            (final(self)@, step) == lost_polled(old(self)@, touch),
    {
        if let Some((x, y)) = touch {
            if face_hit(x, y) {
                return LostStep::Done;
            }
        }
        self.idle_ms += 1;
        if self.idle_ms >= SLEEP_MS {
            LostStep::Sleep
        } else {
            LostStep::Wait
        }
    }
}

/// The splash screen, by the time since the battery gauge was drawn and since
/// the screen appeared.
pub struct Splash {
    ms: u32,
    idle_ms: u32,
}

/// What ten milliseconds of the splash screen lead to: whether the gauge is due
/// to be drawn again, and whether the board goes to sleep.
#[derive(Clone, Copy, PartialEq, Eq, Structural, Debug)]
pub struct SplashStep {
    pub refresh: bool,
    pub sleep: bool,
}

impl View for Splash {
    type V = (int, int);

    /// Milliseconds since the gauge was drawn, and since the screen appeared.
    closed spec fn view(&self) -> (int, int) {
        (self.ms as int, self.idle_ms as int)
    }
}

/// Both times of the splash screen ten milliseconds later, and what that leads
/// to.
pub open spec fn splash_ticked(t: (int, int)) -> ((int, int), SplashStep) {
    let refresh = t.0 + 10 >= 1000;
    let gauge = if refresh {
        0
    } else {
        t.0 + 10
    };
    ((gauge, t.1 + 10), SplashStep { refresh, sleep: t.1 + 10 >= SLEEP_MS })
}

impl Splash {
    /// A splash screen that has just appeared.
    pub fn new() -> (s: Splash)
        ensures
            s@ == (0int, 0int),
    {
        Splash { ms: 0, idle_ms: 0 }
    }

    /// Ten more milliseconds have passed.
    pub fn tick(&mut self) -> (step: SplashStep)
        requires
            0 <= old(self)@.0 < 1000,
            0 <= old(self)@.1 < SLEEP_MS,
        ensures
            (final(self)@, step) == splash_ticked(old(self)@),
    {
        self.ms += 10;
        self.idle_ms += 10;
        let refresh: bool = self.ms >= 1000;
        if refresh {
            self.ms = 0;
        }
        SplashStep { refresh, sleep: self.idle_ms >= SLEEP_MS }
    }
}

/// The menu after `n` polls without a touch.
pub open spec fn menu_left_alone(n: nat) -> (int, MenuStep)
    decreases n,
{
    if n == 0 {
        (0, MenuStep::Wait)
    } else {
        menu_polled(menu_left_alone((n - 1) as nat).0, None)
    }
}

/// Without a touch the menu waits for 30 seconds, a millisecond per poll, and
/// goes to sleep at the end of them.
pub proof fn a_menu_left_alone_sleeps(n: nat)
    ensures
        n < SLEEP_MS ==> menu_left_alone(n) == (n as int, MenuStep::Wait),
        n == SLEEP_MS ==> menu_left_alone(n) == (n as int, MenuStep::Sleep),
    decreases n,
{
    if 0 < n <= SLEEP_MS {
        a_menu_left_alone_sleeps((n - 1) as nat);
    }
}

/// A touch of the menu that picks nothing starts its 30 seconds anew.
pub proof fn a_touch_keeps_the_menu_awake(idle: int, x: i32, y: i32)
    requires
        picked(y as int) is None,
    ensures
        menu_polled(idle, Some((x, y))) == (1int, MenuStep::Wait),
{
}

/// The screen after a lost match after polls with these touches.
pub open spec fn lost_after(touches: Seq<Option<(i32, i32)>>) -> (int, LostStep)
    decreases touches.len(),
{
    if touches.len() == 0 {
        (0, LostStep::Wait)
    } else {
        lost_polled(lost_after(touches.drop_last()).0, touches.last())
    }
}

/// After a lost match the board goes to sleep after 30 seconds, a millisecond
/// per poll, whatever else is touched but the face.
pub proof fn a_lost_match_sleeps(touches: Seq<Option<(i32, i32)>>)
    requires
        forall|i: int| 0 <= i < touches.len() ==> !hits_face(#[trigger] touches[i]),
    ensures
        touches.len() < SLEEP_MS ==> lost_after(touches) == (
            touches.len() as int,
            LostStep::Wait,
        ),
        touches.len() == SLEEP_MS ==> lost_after(touches) == (
            touches.len() as int,
            LostStep::Sleep,
        ),
    decreases touches.len(),
{
    if 0 < touches.len() <= SLEEP_MS {
        let init = touches.drop_last();
        assert forall|i: int| 0 <= i < init.len() implies !hits_face(#[trigger] init[i]) by {
            assert(init[i] == touches[i]);
        }
        a_lost_match_sleeps(init);
        assert(!hits_face(touches[touches.len() - 1]));
    }
}

/// The splash screen after `n` ticks.
pub open spec fn splash_after(n: nat) -> ((int, int), SplashStep)
    decreases n,
{
    if n == 0 {
        ((0, 0), SplashStep { refresh: false, sleep: false })
    } else {
        splash_ticked(splash_after((n - 1) as nat).0)
    }
}

/// The gauge on the splash screen is drawn again every second, and the board
/// goes to sleep after 30 of them.
pub proof fn the_splash_screen_keeps_time(n: nat)
    requires
        n <= 3000,
    ensures
        splash_after(n).0 == ((n as int % 100) * 10, n as int * 10),
        n > 0 ==> splash_after(n).1 == (SplashStep { refresh: n % 100 == 0, sleep: n == 3000 }),
    decreases n,
{
    if n > 0 {
        the_splash_screen_keeps_time((n - 1) as nat);
    }
}

/// A ball that bounced off a paddle never costs a point, whatever else is said
/// of it: it only gets faster, by half a pixel per frame up to 26 pixels per
/// frame, and it plays on.
pub proof fn a_bounce_saves_the_ball(s: MatchState, side: Side, missed: bool)
    requires
        s.wf(),
    ensures
        ({
            let (t, play) = line_played(s, side, true, missed);
            &&& play == Play::On
            &&& t.player == s.player && t.computer == s.computer && t.over == s.over
            &&& 28 <= s.speed <= t.speed <= 52
            &&& s.speed < 52 ==> t.speed == s.speed + 1
        }),
{
}

/// Where the ball neither bounces nor gets past a side, nothing happens.
pub proof fn nothing_happens_away_from_the_line(s: MatchState, side: Side)
    ensures
        line_played(s, side, false, false) == (s, Play::On),
{
}

/// What a point does, in a state `t` and a play that follow a state `s` in which
/// the ball got past `side`: the other side, and it alone, has one point more.
/// With 9 points it has won and the match is over; with fewer nothing is decided
/// that was not, and the ball is served at 14 pixels per frame, whatever its
/// speed was, toward the side that scored.
pub open spec fn point_scored(s: MatchState, side: Side, t: MatchState, play: Play) -> bool {
    &&& side is Player ==> t.player == s.player && t.computer == s.computer + 1
    &&& side is Computer ==> t.computer == s.computer && t.player == s.player + 1
    &&& side is Player && t.computer == 9 ==> {
        t.over == Some(false) && play == Play::Over { won: false } && t.speed == s.speed
    }
    &&& side is Computer && t.player == 9 ==> {
        t.over == Some(true) && play == Play::Over { won: true } && t.speed == s.speed
    }
    &&& side is Player && t.computer != 9 ==> {
        t.over == s.over && play == Play::Serve { toward_player: false } && t.speed == 28
    }
    &&& side is Computer && t.player != 9 ==> {
        t.over == s.over && play == Play::Serve { toward_player: true } && t.speed == 28
    }
}

/// A ball that got past a side at its goal line is a point for the other side.
pub proof fn a_missed_ball_is_a_point(s: MatchState, side: Side)
    requires
        s.wf(),
        side is Player ==> s.computer < 9,
        side is Computer ==> s.player < 9,
    ensures
        ({
            let (t, play) = line_played(s, side, false, true);
            point_scored(s, side, t, play)
        }),
{
}

/// A ball that left the field through a goal is a point as well, unless the match
/// is over.  One that left it elsewhere is served toward the player and changes
/// nothing else.
pub proof fn an_escaped_ball_is_a_point(s: MatchState, side: Side)
    requires
        s.wf(),
    ensures
        s.over is None ==> ({
            let (t, play) = escape_played(s, Some(side));
            point_scored(s, side, t, play)
        }),
        s.over is None ==> escape_played(s, None) == (s, Play::Serve { toward_player: true }),
        s.over is Some ==> escape_played(s, None) == (s, Play::On) && escape_played(s, Some(side))
            == (s, Play::On),
{
}

/// After a point that does not end the match the speed of the ball is that of a
/// serve, whatever it was before and whoever scored: what is left of the rally
/// is the point.
pub proof fn every_rally_starts_at_the_same_speed(a: MatchState, b: MatchState, side: Side)
    requires
        a.wf() && a.over is None,
        b.wf() && b.over is None,
        a.player == b.player && a.computer == b.computer,
        a.point_against(side).over is None,
    ensures
        a.point_against(side) == b.point_against(side),
        a.point_against(side).speed == SPEED_INIT,
        SPEED_INIT == 28,
{
}

/// In a match both sides have at most 9 points, it is over exactly where one of
/// them has 9, who won has them, and the speed is from 28 to 52 half pixels per
/// frame.
pub proof fn a_match_ends_at_nine(s: MatchState)
    requires
        s.wf(),
    ensures
        0 <= s.player <= 9 && 0 <= s.computer <= 9,
        28 <= s.speed <= 52,
        s.over is None <==> s.player < 9 && s.computer < 9,
        s.over == Some(true) ==> s.player == 9,
        s.over == Some(false) ==> s.computer == 9,
{
}

/// A serve takes two random numbers, and goes on from the second.  The first
/// gives the angle, from 5 to 39 degrees: it differs from it by a multiple of
/// 35.  Where the second is even the ball goes to the right.
pub proof fn a_serve_takes_two_numbers(s: u32, toward_player: bool)
    ensures
        ({
            let (serve, t) = served(s, toward_player);
            let first = rng::step(s);
            let second = rng::step(first);
            &&& t == second
            &&& 5 <= serve.degrees <= 39
            &&& (first + 5 - serve.degrees) % 35 == 0
            &&& serve.right <==> second % 2 == 0
            &&& serve.toward_player == toward_player
        }),
{
    reveal_with_fuel(rng::steps, 3);
    rng::a_drawn_number_is_the_remainder(rng::step(s), 5, 40);
}

/// The rows below the middle of the screen move the paddle, the others do not.
pub proof fn the_lower_half_moves_the_paddle(y: int)
    ensures
        moves_paddle(y) <==> y >= 234,
{
}

/// A touch hits the face exactly where it is at most 90 pixels away from the
/// middle of the screen.
pub proof fn the_face_is_in_the_middle(x: i32, y: i32)
    ensures
        hits_face(Some((x, y))) <==> (x - 233) * (x - 233) + (y - 233) * (y - 233) <= 8100,
        !hits_face(None),
{
    assert(90int * 90 == 8100);
}

/// The rows of the three buttons.
pub proof fn the_rows_of_the_buttons(y: int)
    ensures
        picked(y) == Some(Difficulty::Easy) <==> 60 <= y <= 124,
        picked(y) == Some(Difficulty::Medium) <==> 200 <= y <= 264,
        picked(y) == Some(Difficulty::Hard) <==> 340 <= y <= 404,
{
}

/// A touch of the menu on the row of a button chooses its difficulty at once,
/// however long nothing was touched.
pub proof fn a_touch_on_a_button_chooses(idle: int, x: i32, y: i32)
    ensures
        60 <= y <= 124 ==> menu_polled(idle, Some((x, y))) == (
            0int,
            MenuStep::Chosen(Difficulty::Easy),
        ),
        200 <= y <= 264 ==> menu_polled(idle, Some((x, y))) == (
            0int,
            MenuStep::Chosen(Difficulty::Medium),
        ),
        340 <= y <= 404 ==> menu_polled(idle, Some((x, y))) == (
            0int,
            MenuStep::Chosen(Difficulty::Hard),
        ),
{
}

/// A touch of the face ends the screen after a lost match at once, however long
/// it has been shown.
pub proof fn a_touch_of_the_face_ends_the_screen(shown: int, x: i32, y: i32)
    requires
        (x - 233) * (x - 233) + (y - 233) * (y - 233) <= 8100,
    ensures
        lost_polled(shown, Some((x, y))) == (shown, LostStep::Done),
{
    the_face_is_in_the_middle(x, y);
}

} // verus!
