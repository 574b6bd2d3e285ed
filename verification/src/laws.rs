//! What holds of every run of the game, however it is played.

use vstd::prelude::*;
use crate::camera::{between, follow_rate, lemma_stride_within_gap};
use crate::config::Config;
use crate::motion::adjusted;
use crate::track::{
    anchor_index, count_on, lemma_anchor_exists, lemma_count_on_absent, lowest_height, Platform,
};
use crate::world::{
    flagged, lemma_scored_count_extended, lemma_scored_count_flag, scored_count, starts_over,
    steps, Advance, Event, Phase, State, TickInput, TickReport,
};

verus! {

/// Whether `states` is a run of the game under `events`: each event leads
/// from one state to the next.
pub open spec fn is_run(states: Seq<State>, events: Seq<Event>) -> bool {
    &&& states.len() == events.len() + 1
    &&& forall|k: int| 0 <= k < events.len() ==> steps(#[trigger] states[k], events[k], states[k + 1])
}

/// Whether the run does not start over in any of the steps from `from` up
/// to, but not including, `to`.
pub open spec fn reset_free(states: Seq<State>, events: Seq<Event>, from: int, to: int) -> bool {
    forall|k: int| from <= k < to ==> !starts_over(#[trigger] states[k], events[k])
}

/// Whether the step from `pre` to `post` credits platform `i`.
pub open spec fn credited_in(pre: State, post: State, i: int) -> bool {
    &&& 0 <= i < pre.platforms.len()
    &&& i < post.platforms.len()
    &&& !pre.platforms[i].scored
    &&& post.platforms[i].scored
}

/// Whether the step from `pre` to `post` leaves the track as it is, or
/// credits one platform that was not credited, raises the score by one and
/// extends the track by one platform for each lane.
pub open spec fn advances(pre: State, post: State) -> bool {
    &&& post.config == pre.config
    &&& post.phase == pre.phase || post.phase == Phase::ResetPending
    &&& pre.platforms.len() <= post.platforms.len()
    &&& {
        ||| {
            &&& post.ball.score == pre.ball.score
            &&& post.platforms == pre.platforms
            &&& post.obstacles == pre.obstacles
        }
        ||| exists|i: int|
            {
                &&& credited_in(pre, post, i)
                &&& post.ball.score == pre.ball.score + 1
                &&& post.platforms.len() == pre.platforms.len() + pre.config.lanes()
                &&& forall|j: int|
                    0 <= j < pre.platforms.len() && j != i ==> #[trigger] post.platforms[j]
                        == pre.platforms[j]
                &&& post.platforms[i] == flagged(pre.platforms[i])
                &&& forall|j: int|
                    pre.platforms.len() <= j < post.platforms.len() ==> !(
                    #[trigger] post.platforms[j]).scored
            }
    }
}

/// What crediting a platform does to the track.
proof fn lemma_credit_advances(pre: State, i: int, post: State, out: Advance)
    requires
        0 <= i < pre.platforms.len(),
        !pre.platforms[i].scored,
        pre.credit_step(i, post, out),
    ensures
        advances(pre, post),
{
    if pre.can_extend() {
        let marked = pre.platforms.update(i, flagged(pre.platforms[i]));
        assert(post.platforms[i] == marked[i]);
        assert forall|j: int| 0 <= j < pre.platforms.len() && j != i implies #[trigger] post.platforms[j]
            == pre.platforms[j] by {
            assert(post.platforms[j] == marked[j]);
        }
        assert(credited_in(pre, post, i));
    }
}

/// A step that does not start the run over either leaves the score and the
/// track as they are, or credits exactly one platform that was not credited
/// before, raises the score by exactly one and extends the track once.
pub proof fn lemma_step_advances(pre: State, event: Event, post: State)
    requires
        pre.platforms.len() >= 1,
        steps(pre, event, post),
        !starts_over(pre, event),
    ensures
        advances(pre, post),
{
    match event {
        Event::Tick(input) => {
            let report = choose|report: TickReport| pre.tick_step(input, post, report);
            let seen = pre.seen(input);
            if seen.crossing_due() {
                lemma_anchor_exists(seen.platforms);
                lemma_credit_advances(seen, anchor_index(seen.platforms), post, report.advance);
                if seen.can_extend() {
                    let i = choose|i: int|
                        {
                            &&& credited_in(seen, post, i)
                            &&& post.ball.score == seen.ball.score + 1
                            &&& post.platforms.len() == seen.platforms.len() + seen.config.lanes()
                            &&& forall|j: int|
                                0 <= j < seen.platforms.len() && j != i
                                    ==> #[trigger] post.platforms[j] == seen.platforms[j]
                            &&& post.platforms[i] == flagged(seen.platforms[i])
                            &&& forall|j: int|
                                seen.platforms.len() <= j < post.platforms.len() ==> !(
                                #[trigger] post.platforms[j]).scored
                        };
                    assert(credited_in(pre, post, i));
                }
            }
        },
        Event::Collision(first, second) => {
            let out = choose|out: Advance| pre.collision_step(first, second, post, out);
            if pre.hits_obstacle(first, second) {
            } else if pre.config.trigger == crate::config::Trigger::Collision
                && pre.touched_platform(first, second) is Some && !pre.platforms[pre.touched_platform(
                first,
                second,
            )->Some_0].scored {
                lemma_credit_advances(pre, pre.touched_platform(first, second)->Some_0, post, out);
            }
        },
    }
}

/// A step that starts the run over leaves the state that `reset` describes:
/// a score of zero, the first platform alone and not credited, no obstacle,
/// the ball at rest at the origin and the camera where it began.
pub proof fn lemma_reset_step(pre: State, event: Event, post: State)
    requires
        steps(pre, event, post),
        starts_over(pre, event),
    ensures
        post == pre.reset(),
        post.ball.score == 0,
        post.platforms.len() == 1,
        post.obstacles.len() == 0,
{
    match event {
        Event::Tick(input) => {
            assert(pre.seen(input).reset() == pre.reset());
        },
        Event::Collision(first, second) => {},
    }
}

/// While the run does not start over, the track never shrinks.
pub proof fn lemma_track_never_shrinks(states: Seq<State>, events: Seq<Event>, from: int, to: int)
    requires
        is_run(states, events),
        0 <= from <= to <= events.len(),
        reset_free(states, events, from, to),
        states[from].platforms.len() >= 1,
    ensures
        states[from].platforms.len() <= states[to].platforms.len(),
        states[to].config == states[from].config,
    decreases to - from,
{
    if from < to {
        lemma_track_never_shrinks(states, events, from, to - 1);
        assert(steps(states[to - 1], events[to - 1], states[to - 1 + 1]));
        lemma_step_advances(states[to - 1], events[to - 1], states[to]);
    }
}

/// In every run, the score never falls from one state to a later one while
/// the run does not start over in between.
pub proof fn lemma_score_never_falls(states: Seq<State>, events: Seq<Event>, from: int, to: int)
    requires
        is_run(states, events),
        0 <= from <= to <= events.len(),
        reset_free(states, events, from, to),
        states[from].platforms.len() >= 1,
    ensures
        states[from].ball.score <= states[to].ball.score,
    decreases to - from,
{
    if from < to {
        lemma_score_never_falls(states, events, from, to - 1);
        lemma_track_never_shrinks(states, events, from, to - 1);
        assert(steps(states[to - 1], events[to - 1], states[to - 1 + 1]));
        lemma_step_advances(states[to - 1], events[to - 1], states[to]);
    }
}

/// In every run, the score is exactly zero after every step that starts the
/// run over.
pub proof fn lemma_score_zero_after_reset(states: Seq<State>, events: Seq<Event>, k: int)
    requires
        is_run(states, events),
        0 <= k < events.len(),
        starts_over(states[k], events[k]),
    ensures
        states[k + 1].ball.score == 0,
        states[k + 1] == states[k].reset(),
{
    assert(steps(states[k], events[k], states[k + 1]));
    lemma_reset_step(states[k], events[k], states[k + 1]);
}

/// While the run does not start over, a platform that has been credited
/// stays on the track and stays credited.
pub proof fn lemma_credit_stays(
    states: Seq<State>,
    events: Seq<Event>,
    from: int,
    to: int,
    platform: int,
)
    requires
        is_run(states, events),
        0 <= from <= to <= events.len(),
        reset_free(states, events, from, to),
        0 <= platform < states[from].platforms.len(),
        states[from].platforms[platform].scored,
    ensures
        platform < states[to].platforms.len(),
        states[to].platforms[platform].scored,
        states[to].platforms[platform] == states[from].platforms[platform],
    decreases to - from,
{
    if from < to {
        lemma_credit_stays(states, events, from, to - 1, platform);
        assert(steps(states[to - 1], events[to - 1], states[to - 1 + 1]));
        lemma_step_advances(states[to - 1], events[to - 1], states[to]);
    }
}

/// No platform is credited twice: while the run does not start over, a
/// platform that one step has credited is not credited by any later step.
pub proof fn lemma_credited_once(
    states: Seq<State>,
    events: Seq<Event>,
    earlier: int,
    later: int,
    platform: int,
)
    requires
        is_run(states, events),
        0 <= earlier < later < events.len(),
        reset_free(states, events, earlier, later),
        credited_in(states[earlier], states[earlier + 1], platform),
    ensures
        !credited_in(states[later], states[later + 1], platform),
{
    lemma_credit_stays(states, events, earlier + 1, later, platform);
}

/// No step credits two platforms, and a step that does not start the run
/// over raises the score by one exactly when it credits a platform. The
/// track is extended exactly then, by one platform for each lane.
pub proof fn lemma_one_credit_per_step(pre: State, event: Event, post: State, first: int, second: int)
    requires
        pre.platforms.len() >= 1,
        steps(pre, event, post),
        !starts_over(pre, event),
    ensures
        credited_in(pre, post, first) && credited_in(pre, post, second) ==> first == second,
        credited_in(pre, post, first) ==> post.ball.score == pre.ball.score + 1,
        post.ball.score == pre.ball.score || post.ball.score == pre.ball.score + 1,
        post.platforms.len() == pre.platforms.len() + pre.config.lanes() * (post.ball.score
            - pre.ball.score),
{
    lemma_step_advances(pre, event, post);
    assert(pre.config.lanes() * 0 == 0);
    assert(pre.config.lanes() * 1 == pre.config.lanes());
}

/// Following the ball keeps the camera between where it was and where it
/// wants to be, whatever the smoothing.
pub proof fn lemma_camera_stays_between(s: State)
    requires
        s.config.wf(),
        s.camera.wf(s.config),
        s.ball.position.in_bounds(),
    ensures
        follow_rate(s.config, s.camera, s.ball.position).wf(),
        between(
            s.camera.position.x as int,
            s.camera_followed().camera.position.x as int,
            s.ball.position.x + s.camera.offset.x,
        ),
        between(
            s.camera.position.y as int,
            s.camera_followed().camera.position.y as int,
            s.ball.position.y + s.camera.offset.y,
        ),
        between(
            s.camera.position.z as int,
            s.camera_followed().camera.position.z as int,
            s.ball.position.z + s.camera.offset.z,
        ),
        s.camera_followed().camera.wf(s.config),
{
    let rate = follow_rate(s.config, s.camera, s.ball.position);
    let num = rate.num as int;
    let den = rate.den as int;
    lemma_stride_within_gap(s.ball.position.x + s.camera.offset.x - s.camera.position.x, num, den);
    lemma_stride_within_gap(s.ball.position.y + s.camera.offset.y - s.camera.position.y, num, den);
    lemma_stride_within_gap(s.ball.position.z + s.camera.offset.z - s.camera.position.z, num, den);
}

/// Starting over leaves a state a game can be in.
pub proof fn lemma_reset_keeps_wf(s: State)
    requires
        s.resettable(),
    ensures
        s.reset().wf(),
{
    let after = s.reset();
    assert(after.platforms.drop_last() =~= Seq::<Platform>::empty());
    assert(scored_count(after.platforms.drop_last()) == 0);
}

/// Crediting a platform that was not credited leaves a state a game can be
/// in.
proof fn lemma_credit_keeps_wf(pre: State, i: int, post: State, out: Advance)
    requires
        pre.wf(),
        0 <= i < pre.platforms.len(),
        !pre.platforms[i].scored,
        pre.credit_step(i, post, out),
    ensures
        post.wf(),
{
    if pre.can_extend() {
        let marked = pre.platforms.update(i, flagged(pre.platforms[i]));
        lemma_scored_count_flag(pre.platforms, i);
        lemma_scored_count_extended(marked, post.platforms);
        assert forall|j: int| 0 <= j < post.platforms.len() implies (#[trigger] post.platforms[j]).wf(
            post.config,
        ) by {
            if j < marked.len() {
                assert(post.platforms[j] == marked[j]);
                assert(pre.platforms[j].wf(pre.config));
            }
        }
        assert forall|k: int| 0 <= k < post.obstacles.len() implies {
            &&& (#[trigger] post.obstacles[k]).platform < post.platforms.len()
            &&& post.obstacles[k].on_platform(post.config)
        } by {
            if k < pre.obstacles.len() {
                assert(post.obstacles[k] == pre.obstacles[k]);
            }
        }
    }
}

/// Every platform that the generator adds to a track carries a number of
/// obstacles that the configuration allows, each within the platform's
/// footprint and on top of it.
pub proof fn lemma_new_platforms_carry_obstacles(pre: State, i: int, post: State, platform: int)
    requires
        pre.wf(),
        0 <= i < pre.platforms.len(),
        pre.credits(i, post),
        pre.platforms.len() <= platform < post.platforms.len(),
    ensures
        pre.config.min_obstacles <= count_on(post.obstacles, platform) <= pre.config.max_obstacles,
        forall|k: int|
            0 <= k < post.obstacles.len() && (#[trigger] post.obstacles[k]).platform == platform
                ==> post.obstacles[k].on_platform(pre.config) && k >= pre.obstacles.len(),
{
    lemma_count_on_absent(pre.obstacles, platform);
    assert(post.platforms[platform].wf(pre.config));
    assert forall|k: int|
        0 <= k < post.obstacles.len() && (#[trigger] post.obstacles[k]).platform
            == platform implies post.obstacles[k].on_platform(pre.config) && k
        >= pre.obstacles.len() by {
        if k < pre.obstacles.len() {
            assert(post.obstacles[k] == pre.obstacles[k]);
        }
    }
}

/// Every step leads from a state a game can be in to another: there is a
/// platform, all platforms and the ball lie within the world, every obstacle
/// rests on a platform of the track, and the score is the number of
/// platforms that are credited.
pub proof fn lemma_step_keeps_wf(pre: State, event: Event, post: State)
    requires
        pre.wf(),
        steps(pre, event, post),
    ensures
        post.wf(),
{
    match event {
        Event::Tick(input) => {
            let report = choose|report: TickReport| pre.tick_step(input, post, report);
            let noted = pre.observed(
                input.ball_position.nearest_in_world(),
                adjusted(
                    pre.config,
                    input.ball_velocity.nearest_in_world(),
                    input.steer_left,
                    input.steer_right,
                    pre.ball.score as int,
                ),
            );
            lemma_camera_stays_between(noted);
            let seen = pre.seen(input);
            assert(seen == noted.camera_followed());
            assert(seen.wf());
            if pre.reset_due(input) {
                lemma_reset_keeps_wf(seen);
            } else if seen.crossing_due() {
                lemma_anchor_exists(seen.platforms);
                lemma_credit_keeps_wf(seen, anchor_index(seen.platforms), post, report.advance);
            }
        },
        Event::Collision(first, second) => {
            let out = choose|out: Advance| pre.collision_step(first, second, post, out);
            if pre.hits_obstacle(first, second) {
            } else if pre.config.trigger == crate::config::Trigger::Collision
                && pre.touched_platform(first, second) is Some && !pre.platforms[pre.touched_platform(
                first,
                second,
            )->Some_0].scored {
                lemma_credit_keeps_wf(pre, pre.touched_platform(first, second)->Some_0, post, out);
            }
        },
    }
}

/// Every state of a run that begins in a state a game can be in is one.
pub proof fn lemma_run_keeps_wf(states: Seq<State>, events: Seq<Event>, k: int)
    requires
        is_run(states, events),
        states[0].wf(),
        0 <= k <= events.len(),
    ensures
        states[k].wf(),
    decreases k,
{
    if k > 0 {
        lemma_run_keeps_wf(states, events, k - 1);
        assert(steps(states[k - 1], events[k - 1], states[k - 1 + 1]));
        lemma_step_keeps_wf(states[k - 1], events[k - 1], states[k]);
    }
}

/// The run ends where the ball falls further below the lowest platform than
/// the configuration tolerates, and not where it falls less far: a tick that
/// finds the ball within the world, with no reset pending or asked for,
/// starts the run over if and only if the ball is lower than the lowest
/// platform by more than the tolerance.
pub proof fn lemma_fall_threshold(pre: State, input: TickInput)
    requires
        pre.phase == Phase::Running,
        !input.reset_requested,
        input.ball_position.in_bounds(),
    ensures
        pre.reset_due(input) <==> input.ball_position.y < lowest_height(pre.platforms)
            - pre.config.fall_tolerance,
{
}

/// Starting over brings back the state the game began in, for every state
/// whose first platform is the one the game began on.
pub proof fn lemma_reset_restores_initial(s: State)
    requires
        s.platforms.len() >= 1,
        s.platforms[0].position == s.config.origin_platform,
        s.platforms[0].roll == 0,
    ensures
        s.reset() == State::initial(s.config),
{
    assert(s.reset().platforms =~= State::initial(s.config).platforms);
}

/// In a run from the state a game begins in, the first platform stays where
/// it is.
pub proof fn lemma_first_platform_stays(states: Seq<State>, events: Seq<Event>, cfg: Config, k: int)
    requires
        is_run(states, events),
        states[0] == State::initial(cfg),
        0 <= k <= events.len(),
    ensures
        states[k].config == cfg,
        states[k].platforms.len() >= 1,
        states[k].platforms[0].position == cfg.origin_platform,
        states[k].platforms[0].roll == 0,
    decreases k,
{
    if k > 0 {
        lemma_first_platform_stays(states, events, cfg, k - 1);
        assert(steps(states[k - 1], events[k - 1], states[k - 1 + 1]));
        if starts_over(states[k - 1], events[k - 1]) {
            lemma_reset_step(states[k - 1], events[k - 1], states[k]);
        } else {
            lemma_step_advances(states[k - 1], events[k - 1], states[k]);
        }
    }
}

/// In a run from the state a game begins in, every step that starts the run
/// over leads back to exactly that state.
pub proof fn lemma_reset_returns_to_start(states: Seq<State>, events: Seq<Event>, cfg: Config, k: int)
    requires
        is_run(states, events),
        states[0] == State::initial(cfg),
        0 <= k < events.len(),
        starts_over(states[k], events[k]),
    ensures
        states[k + 1] == State::initial(cfg),
{
    lemma_first_platform_stays(states, events, cfg, k);
    assert(steps(states[k], events[k], states[k + 1]));
    lemma_reset_step(states[k], events[k], states[k + 1]);
    lemma_reset_restores_initial(states[k]);
}

/// In a run from the state a game begins in, the generator has been called
/// once for every point of the score and never else: the track holds the
/// first platform and, for every point, one platform for each lane. On a
/// single track that leaves exactly one platform that is not credited.
pub proof fn lemma_track_length(states: Seq<State>, events: Seq<Event>, cfg: Config, k: int)
    requires
        is_run(states, events),
        states[0] == State::initial(cfg),
        0 <= k <= events.len(),
    ensures
        states[k].config == cfg,
        states[k].platforms.len() == 1 + cfg.lanes() * states[k].ball.score,
    decreases k,
{
    if k == 0 {
        assert(cfg.lanes() * 0 == 0);
    } else {
        lemma_track_length(states, events, cfg, k - 1);
        lemma_first_platform_stays(states, events, cfg, k - 1);
        assert(steps(states[k - 1], events[k - 1], states[k - 1 + 1]));
        if starts_over(states[k - 1], events[k - 1]) {
            lemma_reset_step(states[k - 1], events[k - 1], states[k]);
            assert(cfg.lanes() * 0 == 0);
        } else {
            lemma_one_credit_per_step(states[k - 1], events[k - 1], states[k], 0, 0);
            let before = states[k - 1].ball.score as int;
            let after = states[k].ball.score as int;
            assert(cfg.lanes() * after == cfg.lanes() * before + cfg.lanes() * (after - before))
                by (nonlinear_arith);
        }
    }
}

} // verus!
