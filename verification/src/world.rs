//! The world: the player, the camera, the active level and the levels
//! still to come, advanced by one tick at a time.

use crate::camera::{
    lemma_steered_keeps_wf, pose_of, steered, CameraPose, OrbitCamera, Orientation,
};
use crate::collision::{handle_collision, resolved};
use crate::geometry::{BoundingBox, Vec3};
use crate::level::{player_touching_end, Level, LevelView};
use crate::player::{
    grounded, jump_fires, jumped, moved, rolled, Input, Player, Settings, Spin, MAX_JUMPS,
};
use vstd::prelude::*;

verus! {

/// The whole state of a game in progress.
#[derive(Clone, Debug, PartialEq, Eq)]
pub struct World {
    pub camera_control: OrbitCamera,
    pub player: Player,
    /// The levels still to come. The last one is entered next.
    pub levels: Vec<Level>,
    /// The active level.
    pub level: Level,
    pub settings: Settings,
    /// Whether the jump key was down in the tick before.
    pub jump_held: bool,
}

/// What a world holds.
pub struct WorldView {
    pub camera_control: OrbitCamera,
    pub player: Player,
    pub levels: Seq<LevelView>,
    pub level: LevelView,
    pub settings: Settings,
    pub jump_held: bool,
}

impl View for World {
    type V = WorldView;

    open spec fn view(&self) -> WorldView {
        WorldView {
            camera_control: self.camera_control,
            player: self.player,
            levels: Seq::new(self.levels@.len(), |i: int| self.levels@[i]@),
            level: self.level@,
            settings: self.settings,
            jump_held: self.jump_held,
        }
    }
}

impl WorldView {
    /// Every part of the world is well formed.
    pub open spec fn wf(&self) -> bool {
        &&& self.camera_control.wf()
        &&& self.player.wf()
        &&& self.settings.wf()
        &&& self.level.wf()
        &&& forall|i: int| 0 <= i < self.levels.len() ==> (#[trigger] self.levels[i]).wf()
    }
}

/// What the host draws after a tick.
#[derive(Clone, Copy, Debug, PartialEq, Eq, Structural)]
pub struct RenderFrame {
    pub camera: CameraPose,
    pub player_position: Vec3,
    pub player_radius: i32,
    /// How the ball has rolled in this tick.
    pub player_spin: Spin,
    pub goal_position: Vec3,
}

/// The player after collision with each box in turn has been resolved,
/// first box first. No box is left out, whatever the boxes before it did.
pub open spec fn resolved_all(p: Player, boxes: Seq<BoundingBox>) -> Player
    decreases boxes.len(),
{
    if boxes.len() == 0 {
        p
    } else {
        resolved(resolved_all(p, boxes.drop_last()), boxes.last())
    }
}

/// The player after one tick in a level: a jump if one starts, motion, the
/// floor check, the spin, and then the level's boxes.
pub open spec fn stepped(p: Player, held: bool, input: Input, s: Settings, level: LevelView)
    -> Player {
    let launched = if jump_fires(held, input.jump_down, p) {
        jumped(p, s)
    } else {
        p
    };
    resolved_all(rolled(grounded(moved(launched, input, s), s, level.start), s), level.boxes)
}

/// The world after the next level has been entered: the level that was
/// queued last becomes the active one and the player stands still at its
/// start. With no level left, nothing changes.
pub open spec fn entered(w: WorldView) -> WorldView {
    if w.levels.len() == 0 {
        w
    } else {
        WorldView {
            level: w.levels.last(),
            levels: w.levels.drop_last(),
            player: Player {
                position: w.levels.last().start,
                velocity: Vec3 { y: 0, ..w.player.velocity },
                ..w.player
            },
            ..w
        }
    }
}

/// The world one tick later.
pub open spec fn updated(w: WorldView, input: Input) -> WorldView {
    let p = stepped(w.player, w.jump_held, input, w.settings, w.level);
    let played = WorldView { player: p, jump_held: input.jump_down, ..w };
    let arrived = if p.shape().touches(w.level.goal.volume()) {
        entered(played)
    } else {
        played
    };
    WorldView {
        camera_control: steered(arrived.camera_control, input, arrived.player),
        level: LevelView { goal: arrived.level.goal.animated(), ..arrived.level },
        ..arrived
    }
}

/// Resolving against a row of boxes keeps the player well formed and its
/// radius and spin as they were, and leaves the jump count as it was or
/// clears it.
pub proof fn lemma_resolved_all_keeps(p: Player, boxes: Seq<BoundingBox>)
    requires
        p.wf(),
        forall|i: int| 0 <= i < boxes.len() ==> (#[trigger] boxes[i]).wf(),
    ensures
        resolved_all(p, boxes).wf(),
        resolved_all(p, boxes).radius == p.radius,
        resolved_all(p, boxes).spin == p.spin,
        resolved_all(p, boxes).jump_count == p.jump_count || resolved_all(p, boxes).jump_count
            == 0,
    decreases boxes.len(),
{
    if boxes.len() > 0 {
        let front = boxes.drop_last();
        assert forall|i: int| 0 <= i < front.len() implies (#[trigger] front[i]).wf() by {
            assert(front[i] == boxes[i]);
        }
        lemma_resolved_all_keeps(p, front);
        assert(boxes.last() == boxes[boxes.len() - 1]);
    }
}

/// Resolves the player's collisions with every box of a level, in the
/// order of the list.
pub fn resolve_all(p: &mut Player, boxes: &Vec<BoundingBox>)
    requires
        old(p).wf(),
        forall|i: int| 0 <= i < boxes@.len() ==> (#[trigger] boxes@[i]).wf(),
    ensures
        *final(p) == resolved_all(*old(p), boxes@),
        final(p).wf(),
{
    let mut i: usize = 0;
    assert(boxes@.take(0) =~= Seq::<BoundingBox>::empty());
    while i < boxes.len()
        invariant
            i <= boxes.len(),
            p.wf(),
            *p == resolved_all(*old(p), boxes@.take(i as int)),
            forall|j: int| 0 <= j < boxes@.len() ==> (#[trigger] boxes@[j]).wf(),
        decreases boxes.len() - i,
    {
        proof {
            let upto = boxes@.take(i + 1);
            assert(upto.drop_last() =~= boxes@.take(i as int));
            assert(upto.last() == boxes@[i as int]);
        }
        handle_collision(p, &boxes[i]);
        i = i + 1;
    }
    assert(boxes@.take(i as int) =~= boxes@);
}

/// Enters the next level, if there is one: the level that was queued last
/// becomes the active one, and the player is put at its start with no
/// vertical velocity.
pub fn next_level(world: &mut World)
    ensures
        final(world)@ == entered(old(world)@),
        old(world)@.wf() ==> final(world)@.wf(),
{
    let ghost before = world@;
    match world.levels.pop() {
        Some(level) => {
            world.player.position = level.start;
            world.player.velocity.y = 0;
            world.level = level;
            proof {
                assert(world@.levels =~= before.levels.drop_last());
                assert(world@.level == before.levels.last());
                if before.wf() {
                    assert(before.levels[before.levels.len() - 1].wf());
                    assert forall|i: int| 0 <= i < world@.levels.len() implies (
                    #[trigger] world@.levels[i]).wf() by {
                        assert(world@.levels[i] == before.levels[i]);
                    }
                }
            }
        },
        None => {
            assert(world@.levels =~= before.levels);
        },
    }
}

impl World {
    /// A world about to start: the player at rest at the start of `level`,
    /// with the radius of the settings, and the jump key up. Gives nothing
    /// where the settings, the camera or one of the levels is not well
    /// formed.
    pub fn new(
        settings: Settings,
        camera_control: OrbitCamera,
        level: Level,
        levels: Vec<Level>,
    ) -> (r: Option<World>)
        ensures
            r.is_some() <==> {
                &&& settings.wf()
                &&& camera_control.wf()
                &&& level@.wf()
                &&& forall|i: int| 0 <= i < levels@.len() ==> (#[trigger] levels@[i])@.wf()
            },
            r.is_some() ==> r.unwrap()@.wf(),
            r.is_some() ==> r.unwrap()@ == (WorldView {
                camera_control,
                player: Player {
                    position: level.start,
                    velocity: Vec3 { x: 0, y: 0, z: 0 },
                    radius: settings.radius,
                    jump_count: 0,
                    spin: Spin { xy: 0, yz: 0 },
                },
                levels: Seq::new(levels@.len(), |i: int| levels@[i]@),
                level: level@,
                settings,
                jump_held: false,
            }),
    {
        if !settings.is_valid() || !camera_control.is_valid() || !level.is_valid() {
            return None;
        }
        let mut i: usize = 0;
        while i < levels.len()
            invariant
                i <= levels.len(),
                forall|j: int| 0 <= j < i ==> (#[trigger] levels@[j])@.wf(),
            decreases levels.len() - i,
        {
            if !levels[i].is_valid() {
                assert(!levels@[i as int]@.wf());
                return None;
            }
            i = i + 1;
        }
        let player = Player {
            position: level.start,
            velocity: Vec3::zero(),
            radius: settings.radius,
            jump_count: 0,
            spin: Spin { xy: 0, yz: 0 },
        };
        let world = World { camera_control, player, levels, level, settings, jump_held: false };
        assert(world@.levels =~= Seq::new(levels@.len(), |i: int| levels@[i]@));
        Some(world)
    }

    /// Whether every part of the world is well formed.
    pub fn is_valid(&self) -> (r: bool)
        ensures
            r == self@.wf(),
    {
        if !self.settings.is_valid() || !self.camera_control.is_valid() || !self.player.is_valid()
            || !self.level.is_valid() {
            return false;
        }
        let mut i: usize = 0;
        while i < self.levels.len()
            invariant
                i <= self.levels.len(),
                forall|j: int| 0 <= j < i ==> (#[trigger] self@.levels[j]).wf(),
            decreases self.levels.len() - i,
        {
            if !self.levels[i].is_valid() {
                assert(!self@.levels[i as int].wf());
                return false;
            }
            i = i + 1;
        }
        true
    }

    /// Advances the world by one tick: the player jumps if the jump key has
    /// just gone down and a jump is left, moves, is caught by the floor and
    /// pushed out of every box of the level in turn; if it then reaches the
    /// goal, the next level is entered; the camera follows the mouse and
    /// the player; and the goal of the active level bobs on.
    pub fn update(&mut self, input: &Input)
        requires
            old(self)@.wf(),
        ensures
            final(self)@ == updated(old(self)@, *input),
            final(self)@.wf(),
    {
        let ghost before = self@;
        let settings = self.settings;
        let start = self.level.start;
        if input.jump_down && !self.jump_held && self.player.jump_count < MAX_JUMPS {
            self.player.jump(&settings);
        }
        self.jump_held = input.jump_down;
        self.player.advance(input, &settings);
        self.player.ground_check(&settings, &start);
        self.player.roll(&settings);
        resolve_all(&mut self.player, &self.level.bounding_boxes);
        assert(self.player == stepped(
            before.player,
            before.jump_held,
            *input,
            before.settings,
            before.level,
        ));
        assert(self@.levels =~= before.levels);
        if player_touching_end(&self.player, &self.level.goal) {
            next_level(self);
        }
        let ghost arrived = self@;
        let player = self.player;
        self.camera_control.update(input, &player);
        self.level.goal.animate();
        assert(self@.levels =~= arrived.levels);
    }

    /// What the host has to draw: the player, the goal, and the camera
    /// with the orientation that the host has computed from the camera's
    /// angles.
    pub fn render(&self, o: &Orientation) -> (frame: RenderFrame)
        ensures
            frame == (RenderFrame {
                camera: pose_of(self.camera_control, *o),
                player_position: self.player.position,
                player_radius: self.player.radius,
                player_spin: self.player.spin,
                goal_position: self.level.goal.position,
            }),
    {
        RenderFrame {
            camera: self.camera_control.update_camera(o),
            player_position: self.player.position,
            player_radius: self.player.radius,
            player_spin: self.player.spin,
            goal_position: self.level.goal.position,
        }
    }
}

/// The world after a run of ticks, one for each input in turn.
pub open spec fn played(w: WorldView, inputs: Seq<Input>) -> WorldView
    decreases inputs.len(),
{
    if inputs.len() == 0 {
        w
    } else {
        updated(played(w, inputs.drop_last()), inputs.last())
    }
}

/// One tick in a level keeps the player well formed and its radius as it
/// was. The jump count is cleared, or goes up by one where a jump starts,
/// or stays.
pub proof fn lemma_stepped_keeps(p: Player, held: bool, input: Input, s: Settings, level: LevelView)
    requires
        p.wf(),
        level.wf(),
    ensures
        stepped(p, held, input, s, level).wf(),
        stepped(p, held, input, s, level).radius == p.radius,
        stepped(p, held, input, s, level).jump_count == 0 || stepped(
            p,
            held,
            input,
            s,
            level,
        ).jump_count == p.jump_count + (if jump_fires(held, input.jump_down, p) {
            1int
        } else {
            0int
        }),
{
    let launched = if jump_fires(held, input.jump_down, p) {
        jumped(p, s)
    } else {
        p
    };
    lemma_resolved_all_keeps(rolled(grounded(moved(launched, input, s), s, level.start), s), level.boxes);
}

/// A tick changes the jump count by one step at most: it is cleared, or it
/// goes up by one where a jump starts, or it stays. It never passes
/// `MAX_JUMPS`.
pub proof fn lemma_jump_count_step(w: WorldView, input: Input)
    requires
        w.wf(),
    ensures
        updated(w, input).player.jump_count <= MAX_JUMPS,
        updated(w, input).player.jump_count == 0 || updated(w, input).player.jump_count
            == w.player.jump_count + (if jump_fires(w.jump_held, input.jump_down, w.player) {
            1int
        } else {
            0int
        }),
{
    lemma_stepped_keeps(w.player, w.jump_held, input, w.settings, w.level);
}

/// A tick takes a well-formed world to a well-formed world.
pub proof fn lemma_update_keeps_wf(w: WorldView, input: Input)
    requires
        w.wf(),
    ensures
        updated(w, input).wf(),
{
    lemma_stepped_keeps(w.player, w.jump_held, input, w.settings, w.level);
    let p = stepped(w.player, w.jump_held, input, w.settings, w.level);
    let played = WorldView { player: p, jump_held: input.jump_down, ..w };
    let arrived = if p.shape().touches(w.level.goal.volume()) {
        entered(played)
    } else {
        played
    };
    if played.levels.len() > 0 {
        assert(played.levels[played.levels.len() - 1].wf());
        assert forall|i: int| 0 <= i < entered(played).levels.len() implies (
        #[trigger] entered(played).levels[i]).wf() by {
            assert(entered(played).levels[i] == played.levels[i]);
        }
    }
    lemma_steered_keeps_wf(arrived.camera_control, input, arrived.player);
}

/// However the controls are worked, and for however long, the world stays
/// well formed; in particular the jump count never passes `MAX_JUMPS`.
pub proof fn lemma_jump_count_never_exceeds_two(w: WorldView, inputs: Seq<Input>)
    requires
        w.wf(),
    ensures
        played(w, inputs).wf(),
        played(w, inputs).player.jump_count <= MAX_JUMPS,
    decreases inputs.len(),
{
    if inputs.len() > 0 {
        lemma_jump_count_never_exceeds_two(w, inputs.drop_last());
        lemma_update_keeps_wf(played(w, inputs.drop_last()), inputs.last());
    }
}

/// One press of the jump key starts one jump at most: in the tick after
/// one in which the key was down, no jump starts, whether the key is
/// still down or not.
pub proof fn lemma_held_key_jumps_once(w: WorldView, first: Input, second: Input)
    requires
        w.wf(),
        first.jump_down,
    ensures
        !jump_fires(updated(w, first).jump_held, second.jump_down, updated(w, first).player),
        updated(updated(w, first), second).player.jump_count == 0 || updated(
            updated(w, first),
            second,
        ).player.jump_count == updated(w, first).player.jump_count,
{
    lemma_update_keeps_wf(w, first);
    lemma_jump_count_step(updated(w, first), second);
}

/// A jump starts only on a tick in which the key is down after a tick in
/// which it was up, and only while a jump is left.
pub proof fn lemma_jump_needs_fresh_press(w: WorldView, input: Input)
    requires
        w.wf(),
        !input.jump_down || w.jump_held || w.player.jump_count >= MAX_JUMPS,
    ensures
        updated(w, input).player.jump_count == 0 || updated(w, input).player.jump_count
            == w.player.jump_count,
{
    lemma_jump_count_step(w, input);
}

} // verus!
