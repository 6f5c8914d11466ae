//! The Fiat-Shamir channel that prover and verifier run in step.
//!
//! The channel is a digest of everything absorbed so far, a count of the hashes drawn from it
//! since, and a count of what was absorbed; what it hands out depends on the first two alone.

use vstd::prelude::*;
use crate::circle::CirclePoint;
use crate::field::P;
use crate::field::Qm31;
use crate::field::SecureField;

verus! {

type OutsideFelt = stwo::core::fields::qm31::QM31;

/// The channel of stwo over Blake2s; what it holds is spoken of by its digest and its counts.
#[verifier::external_type_specification]
#[verifier::external_body]
pub struct ExBlake2sChannel(stwo::core::channel::Blake2sChannel);

/// The digest that a channel holds.
pub uninterp spec fn channel_digest(channel: stwo::core::channel::Blake2sChannel) -> Seq<u8>;

/// The number of hashes drawn from a channel since it last absorbed something.
pub uninterp spec fn channel_draws(channel: stwo::core::channel::Blake2sChannel) -> nat;

/// The number of times that a channel absorbed something.
pub uninterp spec fn channel_challenges(channel: stwo::core::channel::Blake2sChannel) -> nat;

/// What `Blake2sChannel::draw_secure_felt` draws from a digest after some draws, and the number
/// of draws after it.
pub uninterp spec fn drawn_felt(digest: Seq<u8>, draws: nat) -> (SecureField, nat);

/// The digest after `Blake2sMerkleChannel::mix_root` absorbs a root.
pub uninterp spec fn mixed_root(digest: Seq<u8>, root: Seq<u8>) -> Seq<u8>;

/// The digest after `Channel::mix_felts` absorbs field elements.
pub uninterp spec fn mixed_felts(digest: Seq<u8>, felts: Seq<SecureField>) -> Seq<u8>;

/// The digest after `Channel::mix_u64` absorbs a number.
pub uninterp spec fn mixed_u64(digest: Seq<u8>, value: u64) -> Seq<u8>;

/// What `Channel::trailing_zeros` counts in a digest.
pub uninterp spec fn digest_zeros(digest: Seq<u8>) -> u32;

/// What a channel holds.
#[verifier::ext_equal]
pub struct ChannelState {
    pub digest: Seq<u8>,
    pub draws: nat,
    pub challenges: nat,
}

/// The state of a channel.
pub open spec fn state(channel: stwo::core::channel::Blake2sChannel) -> ChannelState {
    ChannelState {
        digest: channel_digest(channel),
        draws: channel_draws(channel),
        challenges: channel_challenges(channel),
    }
}

impl ChannelState {
    /// The next field element that the channel hands out.
    pub open spec fn felt(self) -> SecureField {
        drawn_felt(self.digest, self.draws).0
    }

    /// The state after handing out a field element.
    pub open spec fn after_draw(self) -> ChannelState {
        ChannelState { draws: drawn_felt(self.digest, self.draws).1, ..self }
    }

    /// The state after absorbing a root.
    pub open spec fn after_root(self, root: Seq<u8>) -> ChannelState {
        ChannelState {
            digest: mixed_root(self.digest, root),
            draws: 0,
            challenges: self.challenges + 1,
        }
    }

    /// The state after absorbing field elements.
    pub open spec fn after_felts(self, felts: Seq<SecureField>) -> ChannelState {
        ChannelState {
            digest: mixed_felts(self.digest, felts),
            draws: 0,
            challenges: self.challenges + 1,
        }
    }

    /// The state after absorbing a number.
    pub open spec fn after_u64(self, value: u64) -> ChannelState {
        ChannelState {
            digest: mixed_u64(self.digest, value),
            draws: 0,
            challenges: self.challenges + 1,
        }
    }

    /// The count of draws, which is kept in 32 bits, leaves room to draw.
    pub open spec fn can_draw(self) -> bool {
        self.draws <= 0x7fff_ffff
    }

    /// The count of what was absorbed leaves room for so many more.
    pub open spec fn can_mix(self, n: nat) -> bool {
        self.challenges + n <= usize::MAX
    }

    /// The next field element is the parameter of a point: one plus its square is not zero.
    pub open spec fn gives_point(self) -> bool {
        crate::circle::denominator(self.felt()@) != Qm31::zero()
    }

    /// The point whose parameter the channel hands out next.
    pub open spec fn point(self) -> CirclePoint {
        crate::circle::point_at(self.felt()@)
    }
}

/// Draws with `<Blake2sChannel as Channel>::draw_secure_felt`.
///
/// The element is a function of digest and draw count and has canonical coordinates; only the draw
/// count changes. The call hashes until the words it needs are in range, which one hash in
/// `2^28` misses, and counts the hashes in 32 bits.
#[verifier::external_body]
pub(crate) fn draw_secure_felt(channel: &mut stwo::core::channel::Blake2sChannel) -> (r:
    SecureField)
    requires
        channel_draws(*old(channel)) <= 0x7fff_ffff,
    ensures
        r.wf(),
        r == drawn_felt(channel_digest(*old(channel)), channel_draws(*old(channel))).0,
        channel_digest(*final(channel)) == channel_digest(*old(channel)),
        channel_challenges(*final(channel)) == channel_challenges(*old(channel)),
        channel_draws(*final(channel)) == drawn_felt(
            channel_digest(*old(channel)),
            channel_draws(*old(channel)),
        ).1,
{
    let felt = stwo::core::channel::Channel::draw_secure_felt(channel);
    let [a, b, c, d] = felt.to_m31_array();
    SecureField { a: a.0, b: b.0, c: c.0, d: d.0 }
}

/// Copies a channel with `<Blake2sChannel as Clone>::clone`, which copies all that it holds.
#[verifier::external_body]
fn clone_channel(channel: &stwo::core::channel::Blake2sChannel) -> (r:
    stwo::core::channel::Blake2sChannel)
    ensures
        channel_digest(r) == channel_digest(*channel),
        channel_draws(r) == channel_draws(*channel),
        channel_challenges(r) == channel_challenges(*channel),
{
    channel.clone()
}

/// Draws with `CirclePoint::get_random_point`, which draws a field element `t` and returns the
/// point with parameter `t`, `((1 - t^2) / (1 + t^2), 2*t / (1 + t^2))`; it panics where
/// `1 + t^2` has no inverse.
#[verifier::external_body]
fn get_random_point(channel: &mut stwo::core::channel::Blake2sChannel) -> (r: CirclePoint)
    requires
        state(*old(channel)).can_draw(),
        state(*old(channel)).gives_point(),
    ensures
        crate::circle::has_parameter(r, state(*old(channel)).felt()@),
        state(*final(channel)) == state(*old(channel)).after_draw(),
{
    let point = stwo::core::circle::CirclePoint::get_random_point(channel);
    let [a, b, c, d] = point.x.to_m31_array();
    let x = SecureField { a: a.0, b: b.0, c: c.0, d: d.0 };
    let [a, b, c, d] = point.y.to_m31_array();
    CirclePoint { x, y: SecureField { a: a.0, b: b.0, c: c.0, d: d.0 } }
}

/// Absorbs field elements with `<Blake2sChannel as Channel>::mix_felts`: the new digest is a
/// function of the old one and the elements' words, reduced or not.
#[verifier::external_body]
pub(crate) fn mix_felts(channel: &mut stwo::core::channel::Blake2sChannel, felts: &Vec<SecureField>)
    requires
        state(*old(channel)).can_mix(1),
    ensures
        channel_digest(*final(channel)) == mixed_felts(channel_digest(*old(channel)), felts@),
        channel_draws(*final(channel)) == 0,
        channel_challenges(*final(channel)) == channel_challenges(*old(channel)) + 1,
{
    let felt = |v: &SecureField| OutsideFelt::from_u32_unchecked(v.a, v.b, v.c, v.d);
    let felts: Vec<_> = felts.iter().map(felt).collect();
    stwo::core::channel::Channel::mix_felts(channel, &felts);
}

/// Absorbs a number with `<Blake2sChannel as Channel>::mix_u64`: the new digest is a function of
/// the old one and the number.
#[verifier::external_body]
pub(crate) fn mix_u64(channel: &mut stwo::core::channel::Blake2sChannel, value: u64)
    requires
        state(*old(channel)).can_mix(1),
    ensures
        channel_digest(*final(channel)) == mixed_u64(channel_digest(*old(channel)), value),
        channel_draws(*final(channel)) == 0,
        channel_challenges(*final(channel)) == channel_challenges(*old(channel)) + 1,
{
    stwo::core::channel::Channel::mix_u64(channel, value);
}

/// Counts with `<Blake2sChannel as Channel>::trailing_zeros`, which looks at the digest alone.
#[verifier::external_body]
pub(crate) fn trailing_zeros(channel: &stwo::core::channel::Blake2sChannel) -> (r: u32)
    ensures
        r == digest_zeros(channel_digest(*channel)),
{
    stwo::core::channel::Channel::trailing_zeros(channel)
}

/// Makes a channel with `<Blake2sChannel as Default>::default`: the digest is 32 zeros, and
/// nothing was drawn or absorbed.
#[verifier::external_body]
fn default_channel() -> (r: stwo::core::channel::Blake2sChannel)
    ensures
        channel_digest(r) == Seq::new(32, |i: int| 0u8),
        channel_draws(r) == 0,
        channel_challenges(r) == 0,
{
    stwo::core::channel::Blake2sChannel::default()
}

/// Makes a channel that has absorbed nothing.
pub fn new_channel() -> (r: stwo::core::channel::Blake2sChannel)
    ensures
        state(r) == (ChannelState {
            digest: Seq::new(32, |i: int| 0u8),
            draws: 0,
            challenges: 0,
        }),
{
    default_channel()
}

/// Draws a point of the circle, if the channel's next element is the parameter of one. Otherwise
/// the channel stays as it is.
pub fn draw_point(channel: &mut stwo::core::channel::Blake2sChannel) -> (r: Option<CirclePoint>)
    requires
        state(*old(channel)).can_draw(),
    ensures
        state(*old(channel)).gives_point() ==> {
            &&& r == Some(state(*old(channel)).point())
            &&& crate::circle::has_parameter(
                state(*old(channel)).point(),
                state(*old(channel)).felt()@,
            )
            &&& state(*final(channel)) == state(*old(channel)).after_draw()
        },
        !state(*old(channel)).gives_point() ==> {
            &&& r is None
            &&& state(*final(channel)) == state(*old(channel))
        },
{
    let mut probe = clone_channel(channel);
    let t: SecureField = draw_secure_felt(&mut probe);
    let square: SecureField = crate::field::multiply(t, t);
    proof {
        assert(crate::circle::denominator(t@) == Qm31::zero() <==> square@ == Qm31::base(P - 1)) by {
            reveal(Qm31::plus);
        }
    }
    if square.a == P - 1 && square.b == 0 && square.c == 0 && square.d == 0 {
        return None;
    }
    let point: CirclePoint = get_random_point(channel);
    proof {
        crate::circle::lemma_point_unique(point, state(*old(channel)).point(), t@);
    }
    Some(point)
}

} // verus!
