//! Levels: the static boxes, the start position and the goal.

use crate::geometry::{BoundingBox, Vec3};
use crate::player::Player;
use crate::scalar::{plus, saturate};
use vstd::prelude::*;

verus! {

/// How far the goal's volume reaches from its center to either side.
pub const GOAL_HALF_WIDTH: i32 = 500;

/// How far the goal's volume reaches from its center up and down.
pub const GOAL_HALF_HEIGHT: i32 = 1000;

/// How far the goal's volume reaches from its center to the front and back.
pub const GOAL_HALF_DEPTH: i32 = 500;

/// The number of ticks after which the goal's bobbing repeats.
pub const GOAL_PERIOD: u16 = 200;

/// The number of ticks for which the goal sinks before it rises.
pub const GOAL_TURN: u16 = 100;

/// How far the goal moves in one tick.
pub const GOAL_BOB: i32 = 5;

/// The animation counter of a goal that has just been placed.
pub const GOAL_START_COUNT: u16 = 50;

/// The goal of a level: a gem that bobs up and down.
#[derive(Clone, Copy, Debug, PartialEq, Eq, Structural)]
pub struct Goal {
    pub position: Vec3,
    /// Ticks since the goal last began to sink.
    pub anim_counter: u16,
}

impl Goal {
    /// The animation counter is at most `GOAL_PERIOD`.
    pub open spec fn wf(&self) -> bool {
        self.anim_counter <= GOAL_PERIOD
    }

    /// The volume that the player has to reach: a box around the goal's
    /// position, half a unit wide and deep to either side and one unit
    /// high up and down.
    pub open spec fn volume(&self) -> BoundingBox {
        BoundingBox {
            min_x: saturate(self.position.x - GOAL_HALF_WIDTH) as i32,
            max_x: saturate(self.position.x + GOAL_HALF_WIDTH) as i32,
            min_y: saturate(self.position.y - GOAL_HALF_HEIGHT) as i32,
            max_y: saturate(self.position.y + GOAL_HALF_HEIGHT) as i32,
            min_z: saturate(self.position.z - GOAL_HALF_DEPTH) as i32,
            max_z: saturate(self.position.z + GOAL_HALF_DEPTH) as i32,
        }
    }

    /// The counter from which a tick counts on: a full period starts anew.
    pub open spec fn phase(&self) -> u16 {
        if self.anim_counter >= GOAL_PERIOD {
            0
        } else {
            self.anim_counter
        }
    }

    /// The goal one tick later: it sinks for the first half of the period
    /// and rises for the second.
    pub open spec fn animated(&self) -> Goal {
        Goal {
            position: Vec3 {
                y: if self.phase() < GOAL_TURN {
                    saturate(self.position.y - GOAL_BOB) as i32
                } else {
                    saturate(self.position.y + GOAL_BOB) as i32
                },
                ..self.position
            },
            anim_counter: (self.phase() + 1) as u16,
        }
    }

    /// A goal that has just been placed at `position`.
    pub fn new(position: Vec3) -> (g: Goal)
        ensures
            g == (Goal { position, anim_counter: GOAL_START_COUNT }),
            g.wf(),
    {
        Goal { position, anim_counter: GOAL_START_COUNT }
    }

    /// The volume that the player has to reach.
    pub fn bounds(&self) -> (b: BoundingBox)
        ensures
            b == self.volume(),
            b.ordered(),
    {
        BoundingBox {
            min_x: plus(self.position.x, -GOAL_HALF_WIDTH),
            max_x: plus(self.position.x, GOAL_HALF_WIDTH),
            min_y: plus(self.position.y, -GOAL_HALF_HEIGHT),
            max_y: plus(self.position.y, GOAL_HALF_HEIGHT),
            min_z: plus(self.position.z, -GOAL_HALF_DEPTH),
            max_z: plus(self.position.z, GOAL_HALF_DEPTH),
        }
    }

    /// Moves the goal by one tick of its bobbing.
    pub fn animate(&mut self)
        ensures
            *final(self) == old(self).animated(),
            final(self).wf(),
    {
        if self.anim_counter >= GOAL_PERIOD {
            self.anim_counter = 0;
        }
        let dy: i32 = if self.anim_counter < GOAL_TURN {
            -GOAL_BOB
        } else {
            GOAL_BOB
        };
        self.anim_counter = self.anim_counter + 1;
        self.position.y = plus(self.position.y, dy);
    }
}

/// How far below its highest place a goal hangs when its counter stands
/// at `counter`: a triangle wave that falls by `GOAL_BOB` a tick for the
/// first half of the period and climbs back in the second.
pub open spec fn wave(counter: u16) -> int {
    if counter <= GOAL_TURN {
        -(GOAL_BOB * counter)
    } else {
        -(GOAL_BOB * GOAL_TURN) + GOAL_BOB * (counter - GOAL_TURN)
    }
}

/// The goal rides a triangle wave: from tick to tick its height differs
/// from the wave of its counter by the same amount, so that it never
/// strays, and is back where it was when the counter is. This holds as
/// long as the goal stays within the range of a scalar.
pub proof fn lemma_goal_rides_the_wave(g: Goal)
    requires
        g.wf(),
        i32::MIN + GOAL_BOB <= g.position.y <= i32::MAX - GOAL_BOB,
    ensures
        g.animated().wf(),
        g.animated().position.y - wave(g.animated().anim_counter) == g.position.y - wave(
            g.anim_counter,
        ),
        g.animated().position.x == g.position.x,
        g.animated().position.z == g.position.z,
        -(GOAL_BOB * GOAL_TURN) <= wave(g.anim_counter) <= 0,
{
}

/// Whether the player's ball reaches the goal's volume. The player is not
/// changed.
pub fn player_touching_end(p: &Player, g: &Goal) -> (r: bool)
    ensures
        r == p.shape().touches(g.volume()),
{
    let s = p.sphere();
    let b = g.bounds();
    s.is_touching(&b)
}

/// One level of the game.
#[derive(Clone, Debug, PartialEq, Eq)]
pub struct Level {
    /// The level's geometry, in the order in which collisions are
    /// resolved.
    pub bounding_boxes: Vec<BoundingBox>,
    /// Where the player enters the level.
    pub start: Vec3,
    pub goal: Goal,
}

/// What a level holds.
pub struct LevelView {
    pub boxes: Seq<BoundingBox>,
    pub start: Vec3,
    pub goal: Goal,
}

impl LevelView {
    /// Every box may stand in level geometry and the goal is well formed.
    pub open spec fn wf(&self) -> bool {
        &&& forall|i: int| 0 <= i < self.boxes.len() ==> (#[trigger] self.boxes[i]).wf()
        &&& self.goal.wf()
    }
}

impl View for Level {
    type V = LevelView;

    open spec fn view(&self) -> LevelView {
        LevelView { boxes: self.bounding_boxes@, start: self.start, goal: self.goal }
    }
}

impl Level {
    /// Whether every box of the level may stand in level geometry and the
    /// goal is well formed.
    pub fn is_valid(&self) -> (r: bool)
        ensures
            r == self@.wf(),
    {
        if self.goal.anim_counter > GOAL_PERIOD {
            return false;
        }
        let mut i: usize = 0;
        while i < self.bounding_boxes.len()
            invariant
                i <= self.bounding_boxes.len(),
                forall|j: int| 0 <= j < i ==> (#[trigger] self.bounding_boxes@[j]).wf(),
            decreases self.bounding_boxes.len() - i,
        {
            if !self.bounding_boxes[i].is_valid() {
                assert(!self@.boxes[i as int].wf());
                return false;
            }
            i = i + 1;
        }
        true
    }
}

/// Puts a level together from its geometry, its start and the place of its
/// goal, or gives nothing where one of the boxes may not stand in level
/// geometry.
pub fn new_level(bounding_boxes: Vec<BoundingBox>, start: Vec3, end: Vec3) -> (r: Option<Level>)
    ensures
        r.is_some() <==> forall|i: int|
            0 <= i < bounding_boxes@.len() ==> (#[trigger] bounding_boxes@[i]).wf(),
        r.is_some() ==> r.unwrap()@ == (LevelView {
            boxes: bounding_boxes@,
            start,
            goal: Goal { position: end, anim_counter: GOAL_START_COUNT },
        }),
        r.is_some() ==> r.unwrap()@.wf(),
{
    let level = Level { bounding_boxes, start, goal: Goal::new(end) };
    assert(level@.boxes == bounding_boxes@);
    if level.is_valid() {
        Some(level)
    } else {
        None
    }
}

} // verus!
