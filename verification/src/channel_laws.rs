//! Laws on what a channel hands out and absorbs.

use vstd::prelude::*;
use crate::channel::ChannelState;
use crate::circle::CirclePoint;
use crate::field::Qm31;
use crate::field::SecureField;

verus! {

/// A draw hands out what the digest and the number of draws give, and changes that number only.
pub proof fn law_draw(state: ChannelState)
    ensures
        state.felt() == crate::channel::drawn_felt(state.digest, state.draws).0,
        state.after_draw().digest == state.digest,
        state.after_draw().draws == crate::channel::drawn_felt(state.digest, state.draws).1,
        state.after_draw().challenges == state.challenges,
{
}

/// What is absorbed changes the digest, starts the draws anew and counts once.
pub proof fn law_absorb(state: ChannelState, root: Seq<u8>, felts: Seq<SecureField>, value: u64)
    ensures
        state.after_root(root).digest == crate::channel::mixed_root(state.digest, root),
        state.after_root(root).draws == 0,
        state.after_root(root).challenges == state.challenges + 1,
        state.after_felts(felts).digest == crate::channel::mixed_felts(state.digest, felts),
        state.after_felts(felts).draws == 0,
        state.after_felts(felts).challenges == state.challenges + 1,
        state.after_u64(value).digest == crate::channel::mixed_u64(state.digest, value),
        state.after_u64(value).draws == 0,
        state.after_u64(value).challenges == state.challenges + 1,
{
}

/// There is room to draw up to `2^31 - 1` draws, and to absorb as long as the count fits.
pub proof fn law_room(state: ChannelState, n: nat)
    ensures
        state.can_draw() <==> state.draws <= 0x7fff_ffff,
        state.can_mix(n) <==> state.challenges + n <= usize::MAX,
        crate::verify::has_room(state) <==> state.draws <= 0x7fff_ffff && state.challenges + 34
            <= usize::MAX,
{
}

/// `(x, y)` is the point with parameter `t`: `x*(1 + t^2) = 1 - t^2` and `y*(1 + t^2) = 2*t`.
pub open spec fn is_point_of(point: CirclePoint, t: Qm31) -> bool {
    let d = t.times(t).plus(Qm31::one());
    &&& crate::sample_laws::words_reduced(point.x)
    &&& crate::sample_laws::words_reduced(point.y)
    &&& point.x@.times(d) == Qm31::one().plus(t.times(t).negated())
    &&& point.y@.times(d) == t.plus(t)
}

/// There is a point in all cases but the one where the square of the element that is handed out is
/// minus one.
pub proof fn law_gives_point(state: ChannelState)
    ensures
        ({
            let t = crate::channel::drawn_felt(state.digest, state.draws).0@;
            &&& state.gives_point() <==> t.times(t).plus(Qm31::one()) != Qm31::zero()
            &&& state.gives_point() <==> t.times(t) != Qm31::base(0x7fff_fffe)
        }),
{
    let t = crate::channel::drawn_felt(state.digest, state.draws).0@;
    crate::field::lemma_reduced(t, t);
    reveal(Qm31::plus);
}

/// The point that a channel hands out is the one with the next element as its parameter: there is
/// no other, and it lies on the circle.
pub proof fn law_point(state: ChannelState, point: CirclePoint)
    requires
        is_point_of(point, crate::channel::drawn_felt(state.digest, state.draws).0@),
    ensures
        state.point() == point,
        point.x@.times(point.x@).plus(point.y@.times(point.y@)) == Qm31::one(),
{
    let t = crate::channel::drawn_felt(state.digest, state.draws).0@;
    assert(crate::circle::has_parameter(point, t));
    crate::circle::lemma_point_unique(point, state.point(), t);
    crate::circle::lemma_on_circle(point, t);
}

/// Two channels that hold the same digest after the same number of draws hand out the same, no
/// matter how much they absorbed.
pub proof fn law_digest_and_draws_count(state: ChannelState, other: ChannelState)
    requires
        state.digest == other.digest,
        state.draws == other.draws,
    ensures
        state.felt() == other.felt(),
        state.point() == other.point(),
        state.gives_point() == other.gives_point(),
        state.after_draw().draws == other.after_draw().draws,
{
}

/// What a channel holds is its digest and its two counts.
pub proof fn law_state(channel: stwo::core::channel::Blake2sChannel)
    ensures
        crate::channel::state(channel).digest == crate::channel::channel_digest(channel),
        crate::channel::state(channel).draws == crate::channel::channel_draws(channel),
        crate::channel::state(channel).challenges == crate::channel::channel_challenges(channel),
{
}

} // verus!
