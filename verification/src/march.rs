use vstd::prelude::*;

verus! {

use crate::color::Color;

/// Fixed number of integration steps granted to each pixel's ray.
pub const MAX_STEPS: u32 = 64;

/// The classification of one pixel's ray. `Traveling` is the only
/// non-terminal state; the three terminal states are absorbing.
#[derive(Clone, Copy, PartialEq, Eq, Structural, Debug)]
pub enum PixelState {
    /// Still integrating: no terminal condition has fired yet.
    Traveling,
    /// The ray fell inside the event horizon and was absorbed.
    Captured,
    /// The ray struck the accretion disk near the equatorial plane.
    DiskHit,
    /// The ray left the scene toward the background starfield.
    Escaped,
}

/// What one integration step measured of the ray once its position advanced.
/// The caller evaluates the geometric conditions on the ray's floating-point
/// state; the fields record their outcomes as plain truths, in the order the
/// terminal checks are ranked.
#[derive(Clone, Copy, PartialEq, Eq, Structural, Debug)]
pub struct StepObservation {
    /// The squared distance from the origin fell below the squared
    /// event-horizon radius.
    pub captured: bool,
    /// The ray sits near the equatorial plane with its radial distance
    /// inside the disk annulus.
    pub disk_hit: bool,
    /// Red channel of the radial disk pattern at the hit point.
    pub disk_r: u8,
    /// Green channel of the radial disk pattern at the hit point.
    pub disk_g: u8,
    /// The distance from the origin exceeded the escape radius.
    pub escaped: bool,
    /// The starfield is bright along the escaped ray's direction.
    pub star: bool,
}

/// The state one step settles into, honouring the priority order of the
/// terminal conditions: horizon capture outranks a disk hit, which outranks
/// escape; otherwise the ray keeps traveling.
pub open spec fn step_state(obs: StepObservation) -> PixelState {
    if obs.captured {
        PixelState::Captured
    } else if obs.disk_hit {
        PixelState::DiskHit
    } else if obs.escaped {
        PixelState::Escaped
    } else {
        PixelState::Traveling
    }
}

/// The terminal color one step decides, if it decides one: black for a
/// capture, the banded disk color for a disk hit, white or black for an
/// escape depending on the starfield.
pub open spec fn step_color(obs: StepObservation) -> Option<Color> {
    if obs.captured {
        Some(Color::spec_black())
    } else if obs.disk_hit {
        Some(Color::spec_disk(obs.disk_r, obs.disk_g))
    } else if obs.escaped {
        Some(
            if obs.star {
                Color::spec_white()
            } else {
                Color::spec_black()
            },
        )
    } else {
        None
    }
}

/// The color of a pixel whose integration produced the given observations:
/// the first observation that decides a terminal color wins, and a ray that
/// never terminates is left black, the color of empty space.
pub open spec fn march_color(log: Seq<StepObservation>) -> Color
    decreases log.len(),
{
    if log.len() == 0 {
        Color::spec_black()
    } else {
        match step_color(log[0]) {
            Some(c) => c,
            None => march_color(log.drop_first()),
        }
    }
}

/// A log of quiet observations decides nothing: the pixel stays black.
pub proof fn lemma_march_quiet(log: Seq<StepObservation>)
    requires
        forall|i: int| 0 <= i < log.len() ==> step_color(#[trigger] log[i]) is None,
    ensures
        march_color(log) == Color::spec_black(),
    decreases log.len(),
{
    if log.len() > 0 {
        assert(forall|i: int|
            0 <= i < log.drop_first().len() ==> step_color(#[trigger] log.drop_first()[i]) is None);
        lemma_march_quiet(log.drop_first());
    }
}

/// Appending one observation to a quiet log hands the decision to that
/// observation alone.
pub proof fn lemma_march_push(log: Seq<StepObservation>, obs: StepObservation)
    requires
        forall|i: int| 0 <= i < log.len() ==> step_color(#[trigger] log[i]) is None,
    ensures
        march_color(log.push(obs)) == match step_color(obs) {
            Some(c) => c,
            None => Color::spec_black(),
        },
    decreases log.len(),
{
    if log.len() == 0 {
        assert(log.push(obs)[0] == obs);
        assert(log.push(obs).drop_first() =~= Seq::<StepObservation>::empty());
        assert(march_color(log.push(obs).drop_first()) == Color::spec_black());
    } else {
        assert(log.push(obs)[0] == log[0]);
        assert(step_color(log[0]) is None);
        assert(log.push(obs).drop_first() =~= log.drop_first().push(obs));
        assert(march_color(log.push(obs)) == march_color(log.drop_first().push(obs)));
        assert(forall|i: int|
            0 <= i < log.drop_first().len() ==> step_color(#[trigger] log.drop_first()[i]) is None);
        lemma_march_push(log.drop_first(), obs);
    }
}

/// Every pixel ends in one of exactly the terminal colors or stays black:
/// the marched color is black, white, or the disk color of some observation
/// in the log — never anything else.
pub proof fn lemma_color_forms(log: Seq<StepObservation>)
    ensures
        march_color(log) == Color::spec_black()
            || march_color(log) == Color::spec_white()
            || exists|i: int|
                0 <= i < log.len()
                    && march_color(log) == Color::spec_disk(
                    #[trigger] log[i].disk_r,
                    log[i].disk_g,
                ),
    decreases log.len(),
{
    if log.len() > 0 {
        match step_color(log[0]) {
            Some(c) => {
                if log[0].disk_hit && !log[0].captured {
                    assert(march_color(log) == Color::spec_disk(log[0].disk_r, log[0].disk_g));
                }
            },
            None => {
                lemma_color_forms(log.drop_first());
                if march_color(log) != Color::spec_black()
                    && march_color(log) != Color::spec_white() {
                    let i = choose|i: int|
                        0 <= i < log.drop_first().len()
                            && march_color(log.drop_first()) == Color::spec_disk(
                            #[trigger] log.drop_first()[i].disk_r,
                            log.drop_first()[i].disk_g,
                        );
                    assert(log[i + 1] == log.drop_first()[i]);
                    assert(march_color(log) == Color::spec_disk(log[i + 1].disk_r, log[i + 1].disk_g));
                }
            },
        }
    }
}

/// Integration is deterministic: two runs whose steps observe the same
/// values, pixel for pixel and step for step, decide the same color. There
/// is no hidden state and no randomness.
pub proof fn lemma_march_deterministic(a: Seq<StepObservation>, b: Seq<StepObservation>)
    requires
        a =~= b,
    ensures
        march_color(a) == march_color(b),
{
}

/// Each classification is tied to its color: a traveling or captured ray is
/// black, a disk hit carries the radial pattern of its last observation with
/// a dark blue channel, and an escaped ray is white before a star and black
/// before empty sky. In particular the blue channel lights up only in white.
pub proof fn lemma_state_color(m: PixelMarch)
    requires
        m.wf(),
    ensures
        m.state == PixelState::Traveling ==> m.color == Color::spec_black(),
        m.state == PixelState::Captured ==> m.color == Color::spec_black(),
        m.state == PixelState::DiskHit ==> m.log@.len() > 0 && m.color == Color::spec_disk(
            m.log@.last().disk_r,
            m.log@.last().disk_g,
        ),
        m.state == PixelState::Escaped ==> m.color == Color::spec_white() || m.color
            == Color::spec_black(),
        m.color.b == 0 || m.color == Color::spec_white(),
{
    let log = m.log@;
    if log.len() > 0 {
        assert(log =~= log.drop_last().push(log.last()));
        assert forall|i: int|
            0 <= i < log.drop_last().len() implies step_color(#[trigger] log.drop_last()[i]) is None by {
            assert(log.drop_last()[i] == log[i]);
        }
        lemma_march_push(log.drop_last(), log.last());
    }
}

/// The integration driver for one pixel: it consumes one observation per
/// step, holds the running classification and color, and stops at the first
/// terminal condition or when the step budget runs out.
pub struct PixelMarch {
    /// Steps consumed so far, at most `MAX_STEPS`.
    pub steps: u32,
    /// The running classification; terminal states are absorbing because
    /// `step` demands `Traveling`.
    pub state: PixelState,
    /// The color decided so far: black until a terminal condition fires.
    pub color: Color,
    /// The observations consumed so far, in order.
    pub log: Ghost<Seq<StepObservation>>,
}

impl PixelMarch {
    /// The driver's invariant: the counter matches the log, the log is quiet
    /// except possibly at its end, and state and color are what the log
    /// decides.
    pub open spec fn wf(self) -> bool {
        &&& self.steps == self.log@.len()
        &&& self.steps <= MAX_STEPS
        &&& forall|i: int|
            0 <= i < self.log@.len() - 1 ==> step_color(#[trigger] self.log@[i]) is None
        &&& self.state == (if self.log@.len() == 0 {
            PixelState::Traveling
        } else {
            step_state(self.log@.last())
        })
        &&& self.color == march_color(self.log@)
    }

    /// The observations consumed so far.
    pub open spec fn observations(self) -> Seq<StepObservation> {
        self.log@
    }

    /// A fresh driver: no steps consumed, still traveling, black by default.
    pub fn new() -> (m: PixelMarch)
        ensures
            m.wf(),
            m.observations() == Seq::<StepObservation>::empty(),
            m.steps == 0,
            m.state == PixelState::Traveling,
            m.color == Color::spec_black(),
    {
        PixelMarch {
            steps: 0,
            state: PixelState::Traveling,
            color: Color::black(),
            log: Ghost(Seq::empty()),
        }
    }

    /// Whether the integration is over: a terminal state was reached, or the
    /// step budget is spent.
    pub fn done(&self) -> (d: bool)
        requires
            self.wf(),
        ensures
            d == (self.state != PixelState::Traveling || self.steps == MAX_STEPS),
    {
        self.state != PixelState::Traveling || self.steps == MAX_STEPS
    }

    /// Consume one step's observation. The terminal checks are ranked:
    /// horizon capture first, then a disk hit, then escape; if none fires
    /// the ray keeps traveling and the color stays black.
    pub fn step(&mut self, obs: StepObservation)
        requires
            old(self).wf(),
            old(self).state == PixelState::Traveling,
            old(self).steps < MAX_STEPS,
        ensures
            final(self).wf(),
            final(self).observations() == old(self).observations().push(obs),
            final(self).steps == old(self).steps + 1,
            final(self).state == step_state(obs),
            final(self).color == match step_color(obs) {
                Some(c) => c,
                None => Color::spec_black(),
            },
    {
        proof {
            if self.log@.len() > 0 {
                assert(step_state(self.log@.last()) == PixelState::Traveling);
                assert(step_color(self.log@.last()) is None);
            }
            assert(forall|i: int|
                0 <= i < self.log@.len() ==> step_color(#[trigger] self.log@[i]) is None);
            lemma_march_quiet(self.log@);
            lemma_march_push(self.log@, obs);
        }
        self.steps = self.steps + 1;
        if obs.captured {
            self.state = PixelState::Captured;
            self.color = Color::black();
        } else if obs.disk_hit {
            self.state = PixelState::DiskHit;
            self.color = Color::disk(obs.disk_r, obs.disk_g);
        } else if obs.escaped {
            self.state = PixelState::Escaped;
            self.color = if obs.star {
                Color::white()
            } else {
                Color::black()
            };
        }
        let ghost newlog = self.log@.push(obs);
        self.log = Ghost(newlog);
        proof {
            assert(self.log@.last() == obs);
            assert(forall|i: int|
                0 <= i < self.log@.len() - 1 ==> step_color(#[trigger] self.log@[i]) is None);
        }
    }

    /// The color the integration decided: the first terminal observation's
    /// color, or black if the ray is still traveling.
    pub fn color(&self) -> (c: Color)
        requires
            self.wf(),
        ensures
            c == march_color(self.observations()),
            c == self.color,
    {
        self.color
    }
}

} // verus!
