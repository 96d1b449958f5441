//! Collectible entities: billboard sprites with an animation cycle, a
//! monotonic collected flag, and the pickup collision test.

use vstd::prelude::*;
use crate::fixed::Vec2;
use crate::maze::SpritePosition;
use crate::player::Player;
use crate::taylor_ai::displacement_sq;
use crate::texture::ImageTexture;
use crate::texture::tex_view_eq;

verus! {

/// What a sprite stands for.
#[derive(Clone, Copy, Debug, PartialEq, Eq, Structural)]
pub enum SpriteType {
    GasolineCan,
    Car,
}

/// A billboard entity: world position, animation frames with a timer, and
/// the (monotonic) collected flag.
#[derive(Debug)]
pub struct Sprite {
    pub x: i64,
    pub y: i64,
    pub texture_frames: Vec<ImageTexture>,
    pub scale: i64,
    pub animation_frame: usize,
    pub animation_timer: i64,
    pub collected: bool,
    pub sprite_type: SpriteType,
}

/// A sprite after one animation tick: the timer accumulates until the frame
/// duration elapses, then resets and advances the frame cyclically;
/// collected sprites stop animating.
pub open spec fn spec_sprite_updated(s: Sprite, delta: int, duration: int) -> Sprite {
    if s.collected {
        s
    } else {
        let t = s.animation_timer + delta;
        if t >= duration {
            Sprite {
                animation_timer: 0,
                animation_frame: ((s.animation_frame + 1)
                    % (s.texture_frames@.len() as int)) as usize,
                ..s
            }
        } else {
            Sprite { animation_timer: t as i64, ..s }
        }
    }
}

/// Two frame sets hold the same pictures.
pub open spec fn frames_view_eq(a: Seq<ImageTexture>, b: Seq<ImageTexture>) -> bool {
    a.len() == b.len() && forall|i: int| 0 <= i < a.len()
        ==> tex_view_eq(#[trigger] a[i], b[i])
}

/// Owns every collectible of the level plus the shared animation art.
pub struct SpriteManager {
    pub sprites: Vec<Sprite>,
    pub animation_frame_duration: i64,
    pub gasoline_can_textures: Vec<ImageTexture>,
}

impl SpriteManager {
    /// A manager with no sprites yet, holding the collectible animation
    /// frames (loaded by the caller) and the default frame duration.
    pub fn new(gasoline_can_textures: Vec<ImageTexture>) -> (r: Self)
        ensures
            r.sprites@.len() == 0,
            r.animation_frame_duration == 819,
            r.gasoline_can_textures == gasoline_can_textures,
    {
        Self {
            sprites: Vec::new(),
            animation_frame_duration: 819,  // 0.8 seconds, fixed-point
            gasoline_can_textures,
        }
    }

    /// Populate the level's collectibles: one uncollected can per extracted
    /// spawn position, all sharing the manager's animation frames.
    pub fn initialize_gasoline_cans(&mut self, positions: &Vec<SpritePosition>)
        ensures
            final(self).animation_frame_duration == old(self).animation_frame_duration,
            final(self).gasoline_can_textures == old(self).gasoline_can_textures,
            final(self).sprites@.len() == positions@.len(),
            forall|i: int| 0 <= i < positions@.len() ==> {
                let s = #[trigger] final(self).sprites@[i];
                &&& s.x == positions@[i].x
                &&& s.y == positions@[i].y
                &&& frames_view_eq(s.texture_frames@,
                    old(self).gasoline_can_textures@)
                &&& s.scale == 717
                &&& s.animation_frame == 0
                &&& s.animation_timer == 0
                &&& !s.collected
                &&& s.sprite_type == SpriteType::GasolineCan
            },
    {
        self.sprites.clear();
        let mut i: usize = 0;
        while i < positions.len()
            invariant
                i <= positions@.len(),
                self.animation_frame_duration == old(self).animation_frame_duration,
                self.gasoline_can_textures == old(self).gasoline_can_textures,
                self.sprites@.len() == i,
                forall|k: int| 0 <= k < i ==> {
                    let s = #[trigger] self.sprites@[k];
                    &&& s.x == positions@[k].x
                    &&& s.y == positions@[k].y
                    &&& frames_view_eq(s.texture_frames@,
                        old(self).gasoline_can_textures@)
                    &&& s.scale == 717
                    &&& s.animation_frame == 0
                    &&& s.animation_timer == 0
                    &&& !s.collected
                    &&& s.sprite_type == SpriteType::GasolineCan
                },
            decreases positions@.len() - i,
        {
            let position = positions[i];
            let frames = self.gasoline_can_textures.clone();
            proof {
                assert(frames_view_eq(frames@, old(self).gasoline_can_textures@));
            }
            let sprite = Sprite {
                x: position.x,
                y: position.y,
                texture_frames: frames,
                scale: 717,  // 0.7, fixed-point
                animation_frame: 0,
                animation_timer: 0,
                collected: false,
                sprite_type: SpriteType::GasolineCan,
            };
            self.sprites.push(sprite);
            i = i + 1;
        }
    }

    /// Advance every uncollected sprite's animation by the elapsed time.
    pub fn update(&mut self, delta_time: i64)
        requires
            0 <= delta_time <= 0x10000,
            forall|i: int| 0 <= i < old(self).sprites@.len() ==> {
                let s = #[trigger] old(self).sprites@[i];
                0 <= s.animation_timer <= 0x10000000000 && s.texture_frames@.len() > 0
                    && s.animation_frame <= 0xfffffff
            },
        ensures
            final(self).animation_frame_duration == old(self).animation_frame_duration,
            final(self).gasoline_can_textures == old(self).gasoline_can_textures,
            final(self).sprites@.len() == old(self).sprites@.len(),
            forall|i: int| 0 <= i < old(self).sprites@.len()
                ==> #[trigger] final(self).sprites@[i] == spec_sprite_updated(
                    old(self).sprites@[i], delta_time as int,
                    old(self).animation_frame_duration as int),
    {
        let n: usize = self.sprites.len();
        let duration: i64 = self.animation_frame_duration;
        let mut i: usize = 0;
        while i < n
            invariant
                i <= n,
                n == old(self).sprites@.len(),
                duration == old(self).animation_frame_duration,
                self.animation_frame_duration == old(self).animation_frame_duration,
                self.gasoline_can_textures == old(self).gasoline_can_textures,
                self.sprites@.len() == n,
                0 <= delta_time <= 0x10000,
                forall|k: int| 0 <= k < n ==> {
                    let s = #[trigger] old(self).sprites@[k];
                    0 <= s.animation_timer <= 0x10000000000
                        && s.texture_frames@.len() > 0
                        && s.animation_frame <= 0xfffffff
                },
                forall|k: int| 0 <= k < i
                    ==> #[trigger] self.sprites@[k] == spec_sprite_updated(
                        old(self).sprites@[k], delta_time as int, duration as int),
                forall|k: int| i <= k < n
                    ==> #[trigger] self.sprites@[k] == old(self).sprites@[k],
            decreases n - i,
        {
            if !self.sprites[i].collected {
                let t: i64 = self.sprites[i].animation_timer + delta_time;
                if t >= duration {
                    let frames: usize = self.sprites[i].texture_frames.len();
                    let next: usize = (self.sprites[i].animation_frame + 1) % frames;
                    let s = &mut self.sprites[i];
                    s.animation_timer = 0;
                    s.animation_frame = next;
                } else {
                    let s = &mut self.sprites[i];
                    s.animation_timer = t;
                }
            }
            i = i + 1;
        }
    }

    /// The pickup test: the first uncollected sprite strictly within the
    /// collision distance of the player is marked collected and its index
    /// returned; earlier sprites are provably out of range. `None` means no
    /// uncollected sprite was in range, and nothing changed.
    pub fn check_collision(&mut self, player: &Player, collision_distance: i64)
        -> (r: Option<usize>)
        requires
            0 <= collision_distance <= 0x2000000,
            -0x10000000 <= player.pos.x <= 0x10000000,
            -0x10000000 <= player.pos.y <= 0x10000000,
            forall|i: int| 0 <= i < old(self).sprites@.len()
                ==> -0x10000000 <= (#[trigger] old(self).sprites@[i]).x <= 0x10000000
                    && -0x10000000 <= old(self).sprites@[i].y <= 0x10000000,
        ensures
            final(self).animation_frame_duration == old(self).animation_frame_duration,
            final(self).gasoline_can_textures == old(self).gasoline_can_textures,
            match r {
                Some(i) => {
                    let s = old(self).sprites@[i as int];
                    &&& 0 <= i < old(self).sprites@.len()
                    &&& !s.collected
                    &&& displacement_sq(Vec2 { x: s.x, y: s.y }, player.pos)
                        < collision_distance * collision_distance
                    &&& forall|j: int| 0 <= j < i ==> {
                        let t = #[trigger] old(self).sprites@[j];
                        t.collected || displacement_sq(Vec2 { x: t.x, y: t.y },
                            player.pos) >= collision_distance * collision_distance
                    }
                    &&& final(self).sprites@ == old(self).sprites@.update(i as int,
                        Sprite { collected: true, ..old(self).sprites@[i as int] })
                }
                None => {
                    &&& final(self).sprites@ == old(self).sprites@
                    &&& forall|j: int| 0 <= j < old(self).sprites@.len() ==> {
                        let t = #[trigger] old(self).sprites@[j];
                        t.collected || displacement_sq(Vec2 { x: t.x, y: t.y },
                            player.pos) >= collision_distance * collision_distance
                    }
                }
            },
    {
        let n: usize = self.sprites.len();
        let mut i: usize = 0;
        while i < n
            invariant
                i <= n,
                n == old(self).sprites@.len(),
                self.sprites@ == old(self).sprites@,
                self.animation_frame_duration == old(self).animation_frame_duration,
                self.gasoline_can_textures == old(self).gasoline_can_textures,
                0 <= collision_distance <= 0x2000000,
                -0x10000000 <= player.pos.x <= 0x10000000,
                -0x10000000 <= player.pos.y <= 0x10000000,
                forall|k: int| 0 <= k < n
                    ==> -0x10000000 <= (#[trigger] old(self).sprites@[k]).x
                        <= 0x10000000
                        && -0x10000000 <= old(self).sprites@[k].y <= 0x10000000,
                forall|j: int| 0 <= j < i ==> {
                    let t = #[trigger] old(self).sprites@[j];
                    t.collected || displacement_sq(Vec2 { x: t.x, y: t.y }, player.pos)
                        >= collision_distance * collision_distance
                },
            decreases n - i,
        {
            if !self.sprites[i].collected {
                let dx: i64 = self.sprites[i].x - player.pos.x;
                let dy: i64 = self.sprites[i].y - player.pos.y;
                proof {
                    assert(0 <= dx * dx <= 0x20000000 * 0x20000000) by (nonlinear_arith)
                        requires -0x20000000 <= dx <= 0x20000000;
                    assert(0 <= dy * dy <= 0x20000000 * 0x20000000) by (nonlinear_arith)
                        requires -0x20000000 <= dy <= 0x20000000;
                    assert(0 <= collision_distance * collision_distance
                        <= 0x2000000 * 0x2000000) by (nonlinear_arith)
                        requires 0 <= collision_distance <= 0x2000000;
                }
                let dsq: i64 = dx * dx + dy * dy;
                if dsq < collision_distance * collision_distance {
                    let s = &mut self.sprites[i];
                    s.collected = true;
                    return Some(i);
                }
            }
            i = i + 1;
        }
        None
    }
}

} // verus!
