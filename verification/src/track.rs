//! The track: platforms, the obstacles on them, and the generator that
//! extends the track from its furthest platform.

use vstd::prelude::*;
use rand::rngs::StdRng;
use crate::config::{Branching, Config};
use crate::random::draw_between;
use crate::vector::{within, Vec3, COORD_LIMIT};

verus! {

/// A tilted slab the ball rolls on.
#[derive(Clone, Copy, Debug, PartialEq, Eq, Structural)]
pub struct Platform {
    /// The centre of the slab.
    pub position: Vec3,
    /// Roll about the track axis on top of the fixed downhill tilt, in
    /// thousandths of a degree.
    pub roll: i64,
    /// Whether the platform has been credited to the score.
    pub scored: bool,
}

/// A ball-shaped obstacle resting on a platform. Its place is given in the
/// frame of its platform, whose tilt turns it into a place in the world.
#[derive(Clone, Copy, Debug, PartialEq, Eq, Structural)]
pub struct Obstacle {
    /// The index of the platform that carries the obstacle.
    pub platform: usize,
    /// Offset from the platform's centre along its length.
    pub along: i64,
    /// Offset from the platform's centre across its width.
    pub across: i64,
    /// Height of the obstacle's centre above the platform's centre.
    pub lift: i64,
}

impl Platform {
    /// Whether the platform lies within the world and rolls no further than
    /// the configuration allows.
    pub open spec fn wf(self, cfg: Config) -> bool {
        self.position.in_bounds() && within(self.roll as int, cfg.roll_range as int)
    }
}

impl Obstacle {
    /// Whether the obstacle lies within the footprint of a platform and sits
    /// on top of it, so that the two do not intersect.
    pub open spec fn on_platform(self, cfg: Config) -> bool {
        &&& within(self.along as int, cfg.platform_size.z / 2)
        &&& within(self.across as int, cfg.platform_size.x / 2)
        &&& self.lift == cfg.obstacle_lift
        &&& 2 * (self.lift - cfg.obstacle_radius) >= cfg.platform_size.y
    }
}

/// Whether `i` is the index of the anchor: the platform that has advanced
/// furthest along the track, and the earliest of them where several have
/// advanced equally far.
pub open spec fn is_anchor(platforms: Seq<Platform>, i: int) -> bool {
    &&& 0 <= i < platforms.len()
    &&& forall|j: int|
        0 <= j < platforms.len() ==> platforms[i].position.z <= (#[trigger] platforms[j]).position.z
    &&& forall|j: int| 0 <= j < i ==> platforms[i].position.z < (#[trigger] platforms[j]).position.z
}

/// The index of the anchor platform.
pub open spec fn anchor_index(platforms: Seq<Platform>) -> int {
    choose|i: int| is_anchor(platforms, i)
}

/// A track has one anchor only.
pub proof fn lemma_anchor_unique(platforms: Seq<Platform>, i: int)
    requires
        is_anchor(platforms, i),
    ensures
        anchor_index(platforms) == i,
{
    let k = anchor_index(platforms);
    assert(is_anchor(platforms, k));
    if k < i {
        assert(platforms[i].position.z < platforms[k].position.z);
        assert(platforms[k].position.z <= platforms[i].position.z);
    } else if i < k {
        assert(platforms[k].position.z < platforms[i].position.z);
        assert(platforms[i].position.z <= platforms[k].position.z);
    }
}

/// Every track that holds a platform has an anchor.
pub proof fn lemma_anchor_exists(platforms: Seq<Platform>)
    requires
        platforms.len() > 0,
    ensures
        is_anchor(platforms, anchor_index(platforms)),
    decreases platforms.len(),
{
    if platforms.len() == 1 {
        assert(is_anchor(platforms, 0));
    } else {
        let rest = platforms.drop_last();
        lemma_anchor_exists(rest);
        let i = anchor_index(rest);
        let n = platforms.len() - 1;
        if platforms[n].position.z < rest[i].position.z {
            assert forall|j: int| 0 <= j < platforms.len() implies platforms[n].position.z <= (
            #[trigger] platforms[j]).position.z by {
                if j < n {
                    assert(rest[j] == platforms[j]);
                }
            }
            assert forall|j: int| 0 <= j < n implies platforms[n].position.z < (
            #[trigger] platforms[j]).position.z by {
                assert(rest[j] == platforms[j]);
            }
            assert(is_anchor(platforms, n));
        } else {
            assert forall|j: int| 0 <= j < platforms.len() implies platforms[i].position.z <= (
            #[trigger] platforms[j]).position.z by {
                if j < n {
                    assert(rest[j] == platforms[j]);
                }
            }
            assert forall|j: int| 0 <= j < i implies platforms[i].position.z < (
            #[trigger] platforms[j]).position.z by {
                assert(rest[j] == platforms[j]);
            }
            assert(is_anchor(platforms, i));
        }
    }
}

/// Finds the anchor platform of a track.
pub fn find_anchor(platforms: &Vec<Platform>) -> (i: usize)
    requires
        platforms@.len() > 0,
    ensures
        is_anchor(platforms@, i as int),
        i as int == anchor_index(platforms@),
{
    let mut best: usize = 0;
    let mut k: usize = 1;
    while k < platforms.len()
        invariant
            0 <= best < k <= platforms@.len(),
            forall|j: int|
                0 <= j < k ==> platforms@[best as int].position.z <= (
                #[trigger] platforms@[j]).position.z,
            forall|j: int|
                0 <= j < best ==> platforms@[best as int].position.z < (
                #[trigger] platforms@[j]).position.z,
        decreases platforms@.len() - k,
    {
        if platforms[k].position.z < platforms[best].position.z {
            best = k;
        }
        k = k + 1;
    }
    proof {
        lemma_anchor_unique(platforms@, best as int);
    }
    best
}

/// Finds the anchor platform of a track, if the track holds a platform.
pub fn anchor_of(platforms: &Vec<Platform>) -> (found: Option<usize>)
    ensures
        found is None <==> platforms@.len() == 0,
        found matches Some(i) ==> is_anchor(platforms@, i as int) && i as int == anchor_index(
            platforms@,
        ),
{
    if platforms.len() == 0 {
        None
    } else {
        Some(find_anchor(platforms))
    }
}

/// Whether `h` is the height of the lowest platform of a track.
pub open spec fn is_lowest_height(platforms: Seq<Platform>, h: int) -> bool {
    &&& exists|i: int| 0 <= i < platforms.len() && (#[trigger] platforms[i]).position.y == h
    &&& forall|j: int| 0 <= j < platforms.len() ==> h <= (#[trigger] platforms[j]).position.y
}

/// The height of the lowest platform of a track.
pub open spec fn lowest_height(platforms: Seq<Platform>) -> int {
    choose|h: int| is_lowest_height(platforms, h)
}

/// A track has one lowest height only.
pub proof fn lemma_lowest_height_unique(platforms: Seq<Platform>, h: int)
    requires
        is_lowest_height(platforms, h),
    ensures
        lowest_height(platforms) == h,
{
    let g = lowest_height(platforms);
    assert(is_lowest_height(platforms, g));
    let i = choose|i: int| 0 <= i < platforms.len() && (#[trigger] platforms[i]).position.y == h;
    let j = choose|j: int| 0 <= j < platforms.len() && (#[trigger] platforms[j]).position.y == g;
    assert(g <= platforms[i].position.y);
    assert(h <= platforms[j].position.y);
}

/// Finds the height of the lowest platform of a track.
pub fn find_lowest_height(platforms: &Vec<Platform>) -> (h: i64)
    requires
        platforms@.len() > 0,
    ensures
        is_lowest_height(platforms@, h as int),
        h as int == lowest_height(platforms@),
{
    let mut lowest: i64 = platforms[0].position.y;
    let mut k: usize = 1;
    while k < platforms.len()
        invariant
            1 <= k <= platforms@.len(),
            exists|i: int| 0 <= i < k && (#[trigger] platforms@[i]).position.y == lowest,
            forall|j: int| 0 <= j < k ==> lowest <= (#[trigger] platforms@[j]).position.y,
        decreases platforms@.len() - k,
    {
        if platforms[k].position.y < lowest {
            lowest = platforms[k].position.y;
        }
        k = k + 1;
    }
    proof {
        lemma_lowest_height_unique(platforms@, lowest as int);
    }
    lowest
}

/// How far lane `lane` is shifted sideways: not at all on a single track; on
/// a double track the first lane to the left and the second to the right.
pub open spec fn lane_shift(cfg: Config, lane: int) -> int {
    match cfg.branching {
        Branching::Single => 0,
        Branching::Double => if lane == 0 {
            -cfg.lateral_range
        } else {
            cfg.lateral_range as int
        },
    }
}

/// The lateral position that new platforms are centred on.
pub open spec fn centre(cfg: Config, anchor: Platform, ball_x: int) -> int {
    if cfg.follow_ball {
        ball_x
    } else {
        anchor.position.x as int
    }
}

/// Whether the world has room for the platforms that follow `anchor`,
/// whatever is drawn for them.
pub open spec fn has_room(cfg: Config, anchor: Platform, base_x: int) -> bool {
    &&& -COORD_LIMIT <= base_x - cfg.reach()
    &&& base_x + cfg.reach() <= COORD_LIMIT
    &&& -COORD_LIMIT <= anchor.position.y - cfg.drop
    &&& -COORD_LIMIT <= anchor.position.z - cfg.platform_size.z
}

/// The platform that follows `anchor` in lane `lane` when `lateral` and
/// `roll` are drawn for it: one platform length further along the track, one
/// drop lower, and `lateral` to the side of the lane's centre.
pub open spec fn placed(
    cfg: Config,
    anchor: Platform,
    base_x: int,
    lane: int,
    lateral: int,
    roll: int,
) -> Platform {
    Platform {
        position: Vec3 {
            x: (base_x + lane_shift(cfg, lane) + lateral) as i64,
            y: (anchor.position.y - cfg.drop) as i64,
            z: (anchor.position.z - cfg.platform_size.z) as i64,
        },
        roll: roll as i64,
        scored: false,
    }
}

/// Whether `p` may follow `anchor` in lane `lane`, for some draw.
pub open spec fn follows(cfg: Config, anchor: Platform, base_x: int, lane: int, p: Platform) -> bool {
    &&& p.position.z == anchor.position.z - cfg.platform_size.z
    &&& p.position.y == anchor.position.y - cfg.drop
    &&& within(p.position.x - base_x - lane_shift(cfg, lane), cfg.lateral_range as int)
    &&& within(p.roll as int, cfg.roll_range as int)
    &&& !p.scored
}

/// A platform that follows the anchor lies exactly one platform length
/// further along the track and one drop lower, and no further to the side of
/// the point it is centred on than the lateral range on a single track, or
/// twice the range on a double track.
pub proof fn lemma_next_platform_in_range(
    cfg: Config,
    anchor: Platform,
    base_x: int,
    lane: int,
    p: Platform,
)
    requires
        cfg.wf(),
        0 <= lane < cfg.lanes(),
        follows(cfg, anchor, base_x, lane, p),
    ensures
        anchor.position.z - p.position.z == cfg.platform_size.z,
        anchor.position.y - p.position.y == cfg.drop,
        within(p.position.x - base_x, cfg.reach()),
        cfg.branching == Branching::Single ==> within(
            p.position.x - base_x,
            cfg.lateral_range as int,
        ),
{
}

/// The obstacle on platform `platform` when `along` and `across` are drawn
/// for it.
pub open spec fn obstacle_placed(cfg: Config, platform: usize, along: int, across: int) -> Obstacle {
    Obstacle { platform, along: along as i64, across: across as i64, lift: cfg.obstacle_lift }
}

/// How many of the obstacles rest on platform `platform`.
pub open spec fn count_on(obstacles: Seq<Obstacle>, platform: int) -> nat
    decreases obstacles.len(),
{
    if obstacles.len() == 0 {
        0
    } else {
        count_on(obstacles.drop_last(), platform) + if obstacles.last().platform == platform {
            1nat
        } else {
            0nat
        }
    }
}

/// One more obstacle adds one to the count of its platform, and nothing to
/// the count of any other.
pub proof fn lemma_count_on_push(obstacles: Seq<Obstacle>, o: Obstacle, platform: int)
    ensures
        count_on(obstacles.push(o), platform) == count_on(obstacles, platform) + if o.platform
            == platform {
            1nat
        } else {
            0nat
        },
{
    assert(obstacles.push(o).drop_last() =~= obstacles);
}

/// No obstacle rests on a platform that none of them names.
pub proof fn lemma_count_on_absent(obstacles: Seq<Obstacle>, platform: int)
    requires
        forall|k: int| 0 <= k < obstacles.len() ==> (#[trigger] obstacles[k]).platform != platform,
    ensures
        count_on(obstacles, platform) == 0,
    decreases obstacles.len(),
{
    if obstacles.len() > 0 {
        let rest = obstacles.drop_last();
        assert forall|k: int| 0 <= k < rest.len() implies (#[trigger] rest[k]).platform
            != platform by {
            assert(rest[k] == obstacles[k]);
        }
        lemma_count_on_absent(rest, platform);
        assert(obstacles.last() == obstacles[obstacles.len() - 1]);
    }
}

/// Tests at run time what `has_room` states.
pub fn room_to_extend(cfg: &Config, anchor: Platform, base_x: i64) -> (b: bool)
    requires
        cfg.wf(),
        anchor.position.in_bounds(),
        within(base_x as int, COORD_LIMIT as int),
    ensures
        b == has_room(*cfg, anchor, base_x as int),
{
    let reach: i64 = match cfg.branching {
        Branching::Single => cfg.lateral_range,
        Branching::Double => 2 * cfg.lateral_range,
    };
    -COORD_LIMIT <= base_x - reach && base_x + reach <= COORD_LIMIT && -COORD_LIMIT
        <= anchor.position.y - cfg.drop && -COORD_LIMIT <= anchor.position.z
        - cfg.platform_size.z
}

/// Places the platform that follows `anchor` in lane `lane`, given the
/// lateral perturbation and the roll that were drawn for it.
pub fn place_platform(
    cfg: &Config,
    anchor: Platform,
    base_x: i64,
    lane: usize,
    lateral: i64,
    roll: i64,
) -> (p: Platform)
    requires
        cfg.wf(),
        anchor.position.in_bounds(),
        within(base_x as int, COORD_LIMIT as int),
        lane < cfg.lanes(),
        within(lateral as int, cfg.lateral_range as int),
    ensures
        p == placed(*cfg, anchor, base_x as int, lane as int, lateral as int, roll as int),
        follows(*cfg, anchor, base_x as int, lane as int, p) <==> within(
            roll as int,
            cfg.roll_range as int,
        ),
        has_room(*cfg, anchor, base_x as int) ==> p.position.in_bounds(),
{
    let shift: i64 = match cfg.branching {
        Branching::Single => 0,
        Branching::Double => if lane == 0 {
            -cfg.lateral_range
        } else {
            cfg.lateral_range
        },
    };
    Platform {
        position: Vec3 {
            x: base_x + shift + lateral,
            y: anchor.position.y - cfg.drop,
            z: anchor.position.z - cfg.platform_size.z,
        },
        roll,
        scored: false,
    }
}

/// Places an obstacle on platform `platform`, given the offsets along and
/// across the platform that were drawn for it.
pub fn place_obstacle(cfg: &Config, platform: usize, along: i64, across: i64) -> (o: Obstacle)
    requires
        cfg.wf(),
    ensures
        o == obstacle_placed(*cfg, platform, along as int, across as int),
        o.on_platform(*cfg) <==> within(along as int, cfg.platform_size.z / 2) && within(
            across as int,
            cfg.platform_size.x / 2,
        ),
{
    Obstacle { platform, along, across, lift: cfg.obstacle_lift }
}

/// Whether `platforms` and `obstacles` are what the generator may leave when
/// it extends the track `platforms_before` with its obstacles
/// `obstacles_before` behind `anchor`: what was there is kept, one platform
/// per lane follows the anchor, and each new platform carries a number of
/// new obstacles that the configuration allows.
pub open spec fn extended(
    cfg: Config,
    anchor: Platform,
    base_x: int,
    platforms_before: Seq<Platform>,
    obstacles_before: Seq<Obstacle>,
    platforms: Seq<Platform>,
    obstacles: Seq<Obstacle>,
) -> bool {
    let first = platforms_before.len() as int;
    &&& platforms.len() == first + cfg.lanes()
    &&& forall|i: int| 0 <= i < first ==> #[trigger] platforms[i] == platforms_before[i]
    &&& forall|k: int|
        first <= k < platforms.len() ==> {
            &&& follows(cfg, anchor, base_x, k - first, #[trigger] platforms[k])
            &&& platforms[k].wf(cfg)
            &&& cfg.min_obstacles <= count_on(obstacles, k) - count_on(obstacles_before, k)
                <= cfg.max_obstacles
        }
    &&& obstacles_before.len() <= obstacles.len()
    &&& forall|k: int| 0 <= k < obstacles_before.len() ==> #[trigger] obstacles[k] == obstacles_before[k]
    &&& cfg.lanes() * cfg.min_obstacles <= obstacles.len() - obstacles_before.len() <= cfg.lanes()
        * cfg.max_obstacles
    &&& forall|k: int|
        obstacles_before.len() <= k < obstacles.len() ==> {
            &&& first <= (#[trigger] obstacles[k]).platform < platforms.len()
            &&& obstacles[k].on_platform(cfg)
        }
}

/// Adds the platform of lane `lane` behind the track, and its obstacles
/// behind the obstacles.
fn add_lane(
    platforms: &mut Vec<Platform>,
    obstacles: &mut Vec<Obstacle>,
    cfg: &Config,
    anchor: Platform,
    base_x: i64,
    lane: usize,
    rng: &mut StdRng,
)
    requires
        cfg.wf(),
        anchor.position.in_bounds(),
        within(base_x as int, COORD_LIMIT as int),
        lane < cfg.lanes(),
        has_room(*cfg, anchor, base_x as int),
    ensures
        final(platforms)@.len() == old(platforms)@.len() + 1,
        final(platforms)@.drop_last() == old(platforms)@,
        follows(*cfg, anchor, base_x as int, lane as int, final(platforms)@.last()),
        final(platforms)@.last().wf(*cfg),
        old(obstacles)@.is_prefix_of(final(obstacles)@),
        cfg.min_obstacles <= final(obstacles)@.len() - old(obstacles)@.len() <= cfg.max_obstacles,
        forall|k: int|
            old(obstacles)@.len() <= k < final(obstacles)@.len() ==> {
                &&& (#[trigger] final(obstacles)@[k]).platform == old(platforms)@.len()
                &&& final(obstacles)@[k].on_platform(*cfg)
            },
        forall|q: int|
            #[trigger] count_on(final(obstacles)@, q) == count_on(old(obstacles)@, q) + if q == old(
                platforms,
            )@.len() {
                final(obstacles)@.len() - old(obstacles)@.len()
            } else {
                0
            },
{
    let lateral: i64 = draw_between(rng, -cfg.lateral_range, cfg.lateral_range);
    let roll: i64 = draw_between(rng, -cfg.roll_range, cfg.roll_range);
    let index: usize = platforms.len();
    let platform: Platform = place_platform(cfg, anchor, base_x, lane, lateral, roll);
    platforms.push(platform);
    assert(platforms@.drop_last() =~= old(platforms)@);
    let count: i64 = draw_between(rng, cfg.min_obstacles, cfg.max_obstacles);
    let half_length: i64 = cfg.platform_size.z / 2;
    let half_width: i64 = cfg.platform_size.x / 2;
    let mut made: i64 = 0;
    while made < count
        invariant
            cfg.wf(),
            0 <= made <= count,
            half_length == cfg.platform_size.z / 2,
            half_width == cfg.platform_size.x / 2,
            obstacles@.len() == old(obstacles)@.len() + made,
            old(obstacles)@.is_prefix_of(obstacles@),
            forall|k: int|
                old(obstacles)@.len() <= k < obstacles@.len() ==> {
                    &&& (#[trigger] obstacles@[k]).platform == index
                    &&& obstacles@[k].on_platform(*cfg)
                },
            forall|q: int|
                #[trigger] count_on(obstacles@, q) == count_on(old(obstacles)@, q) + if q == index {
                    made as int
                } else {
                    0
                },
        decreases count - made,
    {
        let along: i64 = draw_between(rng, -half_length, half_length);
        let across: i64 = draw_between(rng, -half_width, half_width);
        let obstacle: Obstacle = place_obstacle(cfg, index, along, across);
        let ghost before = obstacles@;
        obstacles.push(obstacle);
        proof {
            assert forall|q: int|
                #[trigger] count_on(obstacles@, q) == count_on(old(obstacles)@, q) + if q
                    == index {
                    made + 1
                } else {
                    0
                } by {
                lemma_count_on_push(before, obstacle, q);
                assert(count_on(before, q) == count_on(old(obstacles)@, q) + if q == index {
                    made as int
                } else {
                    0
                });
            }
        }
        made = made + 1;
    }
}

/// Extends the track behind `anchor`: one platform on a single track, two
/// side by side on a double track, each with its obstacles. The platforms
/// and obstacles that exist stay as they are; the new ones come after them,
/// lane by lane. Where each new platform lies and how it rolls is drawn from
/// `rng` within the ranges of the configuration, and so are the number of
/// its obstacles and their places on it.
pub fn extend_track(
    platforms: &mut Vec<Platform>,
    obstacles: &mut Vec<Obstacle>,
    cfg: &Config,
    anchor: Platform,
    base_x: i64,
    rng: &mut StdRng,
)
    requires
        cfg.wf(),
        anchor.position.in_bounds(),
        within(base_x as int, COORD_LIMIT as int),
        has_room(*cfg, anchor, base_x as int),
    ensures
        extended(
            *cfg,
            anchor,
            base_x as int,
            old(platforms)@,
            old(obstacles)@,
            final(platforms)@,
            final(obstacles)@,
        ),
{
    add_lane(platforms, obstacles, cfg, anchor, base_x, 0, rng);
    let ghost mid_platforms = platforms@;
    let ghost mid_obstacles = obstacles@;
    match cfg.branching {
        Branching::Single => {},
        Branching::Double => {
            add_lane(platforms, obstacles, cfg, anchor, base_x, 1, rng);
            assert(platforms@.drop_last() == mid_platforms);
            assert(platforms@.drop_last().drop_last() == old(platforms)@);
            assert(platforms@[old(platforms)@.len() as int] == mid_platforms.last());
            assert forall|k: int| old(obstacles)@.len() <= k < obstacles@.len() implies {
                &&& old(platforms)@.len() <= (#[trigger] obstacles@[k]).platform < platforms@.len()
                &&& obstacles@[k].on_platform(*cfg)
            } by {
                if k < mid_obstacles.len() {
                    assert(obstacles@[k] == mid_obstacles[k]);
                }
            }
        },
    }
    assert forall|i: int| 0 <= i < old(platforms)@.len() implies #[trigger] platforms@[i] == old(
        platforms,
    )@[i] by {
        assert(mid_platforms.drop_last()[i] == mid_platforms[i]);
        if platforms@.len() > mid_platforms.len() {
            assert(platforms@.drop_last()[i] == platforms@[i]);
        }
    }
}

} // verus!
