//! What the waveforms have in common, and what each has of its own.
//!
//! Bounds and symmetries of the time profiles. They rest on what exponentials and
//! sines are, and on arithmetic that does not round, so both are part of each
//! statement.

use crate::algebra::{
    add_commutes, add_nothing, add_regroups, multiply_by_nothing, multiply_commutes,
    multiply_regroups, multiply_spreads, multiply_spreads_over_difference, negatives, ring,
    take_away,
};
use crate::dispersion::pi_of;
use crate::numerics::Elementary;
use crate::order::{
    below_through, factors_come_off, field, lemma_square_of_product, one_way_or_the_other, parts,
    products_keep_order, sums_keep_order,
};
use crate::scalar::{at_most, below, half, minus, negative, number, over, plus, times, Scalar};
use crate::source::{phase, Waveform};
use vstd::prelude::*;

verus! {

/// A time after a moment, and the same time before it.
proof fn lemma_either_side<V: Scalar>(moment: V, by: V)
    requires
        ring::<V>(),
    ensures
        minus(plus(moment, by), moment) == by,
        minus(minus(moment, by), moment) == negative(by),
{
    take_away(plus(moment, by), moment);
    add_commutes(moment, by);
    add_regroups(by, moment, negative(moment));
    add_nothing(by);
    take_away(moment, by);
    take_away(minus(moment, by), moment);
    add_commutes(moment, negative(by));
    add_regroups(negative(by), moment, negative(moment));
    add_nothing(negative(by));
}

/// A square does not tell a number from its negative.
proof fn lemma_square_is_even<V: Scalar>(a: V)
    requires
        ring::<V>(),
    ensures
        times(negative(a), negative(a)) == times(a, a),
{
    negatives(a, negative(a));
    negatives(a, a);
    negatives(times(a, a), a);
}

/// A Ricker wavelet is even about its delay.
pub proof fn ricker_is_even<V: Scalar, N: Elementary<V>>(
    math: &N,
    peak_frequency: V,
    delay: V,
    by: V,
)
    requires
        ring::<V>(),
    ensures
        ({
            let wavelet = Waveform::Ricker { peak_frequency, delay };
            wavelet.value_at(math, plus(delay, by)) == wavelet.value_at(math, minus(delay, by))
        }),
{
    lemma_either_side(delay, by);
    let rate = times(pi_of::<V, N>(math), peak_frequency);
    negatives(rate, by);
    lemma_square_is_even(times(rate, by));
}

/// A Ricker wavelet is one at its delay.
pub proof fn ricker_peaks_at_its_delay<V: Scalar, N: Elementary<V>>(
    math: &N,
    peak_frequency: V,
    delay: V,
)
    requires
        ring::<V>(),
        math.exp_of(number::<V>(0)) == number::<V>(1),
        times(number::<V>(1), number::<V>(1)) == number::<V>(1),
    ensures
        (Waveform::Ricker { peak_frequency, delay }).value_at(math, delay) == number::<V>(1),
{
    let zero = number::<V>(0);
    let rate = times(pi_of::<V, N>(math), peak_frequency);
    take_away(delay, delay);
    multiply_by_nothing(rate);
    multiply_by_nothing(zero);
    multiply_by_nothing(number::<V>(2));
    negatives(zero, zero);
    take_away(number::<V>(1), zero);
    add_nothing(number::<V>(1));
}

/// A Gaussian pulse is odd about its delay, where a quotient is odd in what is
/// divided and a sine is odd.
pub proof fn gaussian_pulse_is_odd<V: Scalar, N: Elementary<V>>(
    math: &N,
    center_frequency: V,
    duration_cycles: V,
    delay: V,
    by: V,
)
    requires
        ring::<V>(),
        forall|a: V, b: V| #[trigger] over(negative(a), b) == negative(over(a, b)),
        forall|a: V| #[trigger] math.sin_of(negative(a)) == negative(math.sin_of(a)),
    ensures
        ({
            let pulse = Waveform::GaussianPulse { center_frequency, duration_cycles, delay };
            pulse.value_at(math, minus(delay, by)) == negative(
                pulse.value_at(math, plus(delay, by)),
            )
        }),
{
    lemma_either_side(delay, by);
    let sigma = over(times(math.decimal_of(4_246_609, 7), duration_cycles), center_frequency);
    let q = over(by, sigma);
    let k = negative(half::<V>());
    // (k·-q)·-q = k·q·q.
    negatives(k, q);
    negatives(times(k, q), negative(q));
    negatives(times(k, q), q);
    negatives(times(times(k, q), q), q);
    assert(times(times(k, negative(q)), negative(q)) == times(times(k, q), q));
    let turn = times(times(number::<V>(2), pi_of::<V, N>(math)), center_frequency);
    negatives(turn, by);
    assert(phase(math, center_frequency, negative(by)) == negative(
        phase(math, center_frequency, by),
    ));
    let envelope = math.exp_of(times(times(k, q), q));
    negatives(envelope, math.sin_of(phase(math, center_frequency, by)));
}

/// A continuous wave is at rest until time starts.
pub proof fn continuous_wave_starts_from_rest<V: Scalar, N: Elementary<V>>(
    math: &N,
    frequency: V,
    ramp_cycles: V,
    time: V,
)
    requires
        at_most(time, number::<V>(0)),
    ensures
        (Waveform::ContinuousWave { frequency, ramp_cycles }).value_at(math, time) == number::<V>(
            0,
        ),
{
}

/// Whether a number lies between two others.
pub open spec fn between<V: Scalar>(low: V, a: V, high: V) -> bool {
    at_most(low, a) && at_most(a, high)
}

/// Sines and cosines stay within one of zero, exponentials of what is not above
/// zero between zero and one, and a product with something between zero and one is
/// no larger.
pub open spec fn tame<V: Scalar, N: Elementary<V>>(math: &N) -> bool {
    let (zero, one) = (number::<V>(0), number::<V>(1));
    &&& forall|x: V| between(negative(one), #[trigger] math.sin_of(x), one)
    &&& forall|x: V|
        between(
            zero,
            times(half::<V>(), minus(one, #[trigger] math.cos_of(x))),
            one,
        )
    &&& forall|x: V| at_most(x, zero) ==> between(zero, #[trigger] math.exp_of(x), one)
    &&& forall|e: V, s: V|
        between(zero, e, one) && between(negative(one), s, one) ==> between(
            negative(one),
            #[trigger] times(e, s),
            one,
        )
    &&& forall|a: V, e: V|
        at_most(a, one) && between(zero, e, one) ==> at_most(#[trigger] times(a, e), one)
}

/// Squares are not below zero, whatever way they come up here.
pub open spec fn squares_are_positive<V: Scalar>() -> bool {
    let (zero, one) = (number::<V>(0), number::<V>(1));
    &&& at_most(zero, one) && at_most(negative(one), zero) && between(zero, one, one)
    &&& forall|x: V| at_most(negative(#[trigger] times(x, x)), zero)
    &&& forall|x: V| at_most(minus(one, times(number::<V>(2), #[trigger] times(x, x))), one)
    &&& forall|x: V| at_most(#[trigger] times(times(negative(half::<V>()), x), x), zero)
}

/// No waveform goes above one, and pulses and continuous waves not below minus one
/// either.
pub proof fn waveforms_are_bounded<V: Scalar, N: Elementary<V>>(
    math: &N,
    waveform: Waveform<V>,
    time: V,
)
    requires
        tame::<V, N>(math),
        squares_are_positive::<V>(),
    ensures
        at_most(waveform.value_at(math, time), number::<V>(1)),
        !(waveform is Ricker) ==> at_most(
            negative(number::<V>(1)),
            waveform.value_at(math, time),
        ),
{
    let (zero, one) = (number::<V>(0), number::<V>(1));
    match waveform {
        Waveform::Ricker { peak_frequency, delay } => {
            let arg = times(times(pi_of::<V, N>(math), peak_frequency), minus(time, delay));
            let square = times(arg, arg);
            assert(at_most(negative(square), zero));
            assert(between(zero, math.exp_of(negative(square)), one));
        },
        Waveform::GaussianPulse { center_frequency, duration_cycles, delay } => {
            let sigma = over(
                times(math.decimal_of(4_246_609, 7), duration_cycles),
                center_frequency,
            );
            let q = over(minus(time, delay), sigma);
            assert(at_most(times(times(negative(half::<V>()), q), q), zero));
        },
        Waveform::ContinuousWave { frequency, ramp_cycles } => {
            let ramp = over(ramp_cycles, frequency);
            let rise = math.cos_of(over(times(pi_of::<V, N>(math), time), ramp));
            let wave = math.sin_of(phase(math, frequency, time));
            assert(between(negative(one), wave, one));
        },
    }
}

/// A Ricker wavelet does not go below minus one.
pub proof fn ricker_is_bounded_below<V: Scalar, N: Elementary<V>>(
    math: &N,
    peak_frequency: V,
    delay: V,
    time: V,
)
    requires
        ring::<V>(),
        tame::<V, N>(math),
        squares_are_positive::<V>(),
        forall|x: V| #[trigger] times(x, number::<V>(1)) == x,
        // Twice a square over its exponential is at most one.
        forall|x: V|
            at_most(
                times(
                    math.exp_of(negative(times(x, x))),
                    times(number::<V>(2), #[trigger] times(x, x)),
                ),
                number::<V>(1),
            ),
        // What starts at zero or above loses at most one.
        forall|a: V, b: V|
            at_most(number::<V>(0), a) && at_most(b, number::<V>(1)) ==> at_most(
                negative(number::<V>(1)),
                #[trigger] minus(a, b),
            ),
    ensures
        at_most(
            negative(number::<V>(1)),
            (Waveform::Ricker { peak_frequency, delay }).value_at(math, time),
        ),
{
    let (zero, one) = (number::<V>(0), number::<V>(1));
    let arg = times(times(pi_of::<V, N>(math), peak_frequency), minus(time, delay));
    let square = times(arg, arg);
    let decay = math.exp_of(negative(square));
    let twice = times(number::<V>(2), square);
    assert(at_most(negative(square), zero));
    assert(between(zero, decay, one));
    assert(at_most(times(decay, twice), one));
    multiply_commutes(minus(one, twice), decay);
    multiply_spreads_over_difference(decay, one, twice);
}

/// Two numbers that give the same by way of a common factor.
proof fn lemma_same_share<V: Scalar>(u: V, whole: V, rate: V, time: V)
    requires
        field::<V>(),
        below(number::<V>(0), rate),
        times(u, whole) == times(rate, time),
    ensures
        times(u, over(whole, rate)) == time,
{
    let part = over(whole, rate);
    parts(whole, rate);
    multiply_regroups(u, part, rate);
    multiply_commutes(rate, time);
    factors_come_off(times(u, part), time, rate);
}

/// The phase after a number of cycles is that number of turns.
proof fn lemma_phase_counts_cycles<V: Scalar, N: Elementary<V>>(
    math: &N,
    frequency: V,
    time: V,
    cycles: V,
)
    requires
        field::<V>(),
        times(frequency, time) == cycles,
    ensures
        phase(math, frequency, time) == times(
            times(number::<V>(2), pi_of::<V, N>(math)),
            cycles,
        ),
{
    multiply_regroups(times(number::<V>(2), pi_of::<V, N>(math)), frequency, time);
}

/// A continuous wave past its ramp is the sine of a full turn for every cycle of its
/// frequency that has gone by.
pub proof fn continuous_waves_count_cycles<V: Scalar, N: Elementary<V>>(
    math: &N,
    frequency: V,
    ramp_cycles: V,
    time: V,
    cycles: V,
)
    requires
        field::<V>(),
        !at_most(time, number::<V>(0)),
        at_most(over(ramp_cycles, frequency), time),
        times(frequency, time) == cycles,
    ensures
        (Waveform::ContinuousWave { frequency, ramp_cycles }).value_at(math, time) == math.sin_of(
            times(times(number::<V>(2), pi_of::<V, N>(math)), cycles),
        ),
{
    lemma_phase_counts_cycles(math, frequency, time, cycles);
    parts(math.sin_of(phase(math, frequency, time)), frequency);
}

/// Past its ramp a continuous wave turns round every half period of the carrier it
/// reports, where a sine does every half turn.
pub proof fn continuous_waves_turn_round<V: Scalar, N: Elementary<V>>(
    math: &N,
    wave: Waveform<V>,
    time: V,
    half_period: V,
)
    requires
        field::<V>(),
        wave is ContinuousWave,
        plus(number::<V>(1), number::<V>(1)) == number::<V>(2),
        forall|x: V| #[trigger]
            math.sin_of(plus(x, pi_of::<V, N>(math))) == negative(math.sin_of(x)),
        times(plus(half_period, half_period), wave.carrier()) == number::<V>(1),
        below(number::<V>(0), half_period),
        below(number::<V>(0), time),
        at_most(over(wave->ramp_cycles, wave.carrier()), time),
    ensures
        wave.value_at(math, plus(time, half_period)) == negative(wave.value_at(math, time)),
{
    let zero = number::<V>(0);
    let (frequency, ramp_cycles) = (wave->frequency, wave->ramp_cycles);
    let turn = pi_of::<V, N>(math);
    let later = plus(time, half_period);
    // Still past the ramp, and past the start.
    sums_keep_order(zero, half_period, time);
    add_nothing(time);
    add_commutes(time, half_period);
    below_through(time, later, later);
    below_through(zero, time, later);
    below_through(over(ramp_cycles, frequency), time, later);
    one_way_or_the_other(later, zero);
    one_way_or_the_other(time, zero);
    continuous_waves_count_cycles(
        math,
        frequency,
        ramp_cycles,
        time,
        times(frequency, time),
    );
    continuous_waves_count_cycles(
        math,
        frequency,
        ramp_cycles,
        later,
        times(frequency, later),
    );
    // 2·turn·(f·(t + h)) = 2·turn·(f·t) + turn.
    let twice = times(number::<V>(2), turn);
    multiply_spreads(frequency, time, half_period);
    multiply_spreads(twice, times(frequency, time), times(frequency, half_period));
    lemma_half_cycle(frequency, half_period, turn);
}

/// Half a cycle, twice round, is once round.
proof fn lemma_half_cycle<V: Scalar>(frequency: V, half_period: V, turn: V)
    requires
        field::<V>(),
        plus(number::<V>(1), number::<V>(1)) == number::<V>(2),
        times(plus(half_period, half_period), frequency) == number::<V>(1),
    ensures
        times(times(number::<V>(2), turn), times(frequency, half_period)) == turn,
{
    let one = number::<V>(1);
    let share = times(frequency, half_period);
    // share + share = 1.
    multiply_commutes(plus(half_period, half_period), frequency);
    multiply_spreads(frequency, half_period, half_period);
    // 2·turn·share = turn·(2·share) = turn·(share + share).
    multiply_commutes(number::<V>(2), turn);
    multiply_regroups(turn, number::<V>(2), share);
    multiply_commutes(number::<V>(2), share);
    multiply_spreads(share, one, one);
    parts(share, share);
    parts(turn, turn);
}

/// While it ramps up, a continuous wave is the same wave without a ramp times the
/// square of the sine of a quarter turn for all of the ramp.
pub proof fn ramps_rise_over_a_quarter_turn<V: Scalar, N: Elementary<V>>(
    math: &N,
    frequency: V,
    ramp_cycles: V,
    time: V,
    fraction: V,
)
    requires
        field::<V>(),
        forall|x: V|
            times(half::<V>(), minus(number::<V>(1), #[trigger] math.cos_of(x))) == times(
                math.sin_of(times(half::<V>(), x)),
                math.sin_of(times(half::<V>(), x)),
            ),
        below(number::<V>(0), frequency),
        below(number::<V>(0), ramp_cycles),
        below(number::<V>(0), time),
        !at_most(over(ramp_cycles, frequency), time),
        times(fraction, ramp_cycles) == times(frequency, time),
    ensures
        ({
            let rise = math.sin_of(times(half::<V>(), times(pi_of::<V, N>(math), fraction)));
            let ramped = Waveform::ContinuousWave { frequency, ramp_cycles };
            let steady = Waveform::ContinuousWave { frequency, ramp_cycles: number::<V>(0) };
            ramped.value_at(math, time) == times(
                times(rise, rise),
                steady.value_at(math, time),
            )
        }),
{
    let zero = number::<V>(0);
    let turn = pi_of::<V, N>(math);
    let ramp = over(ramp_cycles, frequency);
    one_way_or_the_other(time, zero);
    below_through(zero, time, time);
    // The ramp lasts, and a wave without one is past it at once.
    parts(ramp_cycles, frequency);
    multiply_by_nothing(frequency);
    factors_come_off(zero, ramp, frequency);
    parts(zero, frequency);
    factors_come_off(over(zero, frequency), zero, frequency);
    parts(math.sin_of(phase(math, frequency, time)), frequency);
    // turn·time/ramp = turn·fraction.
    lemma_same_share(fraction, ramp_cycles, frequency, time);
    multiply_regroups(turn, fraction, ramp);
    parts(times(turn, time), ramp);
    factors_come_off(over(times(turn, time), ramp), times(turn, fraction), ramp);
}

/// A Ricker wavelet with its Gaussian taken off is a parabola in the cycles from its
/// peak.
pub proof fn ricker_is_a_parabola_under_a_gaussian<V: Scalar, N: Elementary<V>>(
    math: &N,
    peak_frequency: V,
    delay: V,
    time: V,
    cycles: V,
)
    requires
        field::<V>(),
        forall|x: V| times(math.exp_of(negative(x)), #[trigger] math.exp_of(x)) == number::<V>(1),
        plus(number::<V>(1), number::<V>(1)) == number::<V>(2),
        times(peak_frequency, minus(time, delay)) == cycles,
    ensures
        ({
            let angle = times(pi_of::<V, N>(math), cycles);
            let square = times(angle, angle);
            times(
                (Waveform::Ricker { peak_frequency, delay }).value_at(math, time),
                math.exp_of(square),
            ) == minus(number::<V>(1), plus(square, square))
        }),
{
    let one = number::<V>(1);
    let angle = times(pi_of::<V, N>(math), cycles);
    let square = times(angle, angle);
    multiply_regroups(pi_of::<V, N>(math), peak_frequency, minus(time, delay));
    let arch = minus(one, times(number::<V>(2), square));
    multiply_regroups(arch, math.exp_of(negative(square)), math.exp_of(square));
    parts(arch, arch);
    multiply_commutes(number::<V>(2), square);
    multiply_spreads(square, one, one);
    parts(square, square);
}

/// A Gaussian pulse with its envelope taken off is the sine of a full turn for every
/// cycle from its delay; the envelope falls with the square of the cycles over its
/// duration.
pub proof fn gaussian_pulses_count_cycles<V: Scalar, N: Elementary<V>>(
    math: &N,
    center_frequency: V,
    duration_cycles: V,
    delay: V,
    time: V,
    cycles: V,
    widths: V,
)
    requires
        field::<V>(),
        forall|x: V| times(math.exp_of(negative(x)), #[trigger] math.exp_of(x)) == number::<V>(1),
        below(number::<V>(0), center_frequency),
        below(number::<V>(0), times(math.decimal_of(4_246_609, 7), duration_cycles)),
        times(center_frequency, minus(time, delay)) == cycles,
        times(widths, times(math.decimal_of(4_246_609, 7), duration_cycles)) == cycles,
    ensures
        ({
            let pulse = Waveform::GaussianPulse { center_frequency, duration_cycles, delay };
            let turns = math.sin_of(times(times(number::<V>(2), pi_of::<V, N>(math)), cycles));
            let fall = times(half::<V>(), times(widths, widths));
            &&& times(pulse.value_at(math, time), math.exp_of(fall)) == turns
            &&& pulse.value_at(math, time) == times(math.exp_of(negative(fall)), turns)
        }),
{
    let tau = minus(time, delay);
    let width = times(math.decimal_of(4_246_609, 7), duration_cycles);
    let sigma = over(width, center_frequency);
    let q = over(tau, sigma);
    let h = half::<V>();
    // sigma is above zero, and q is the widths.
    parts(width, center_frequency);
    multiply_by_nothing(center_frequency);
    factors_come_off(number::<V>(0), sigma, center_frequency);
    lemma_same_share(widths, width, center_frequency, tau);
    parts(tau, sigma);
    factors_come_off(q, widths, sigma);
    // (-h·q)·q = -(h·(q·q)).
    negatives(h, q);
    negatives(times(h, q), q);
    multiply_regroups(h, q, q);
    let fall = times(h, times(q, q));
    lemma_phase_counts_cycles(math, center_frequency, tau, cycles);
    let turns = math.sin_of(phase(math, center_frequency, tau));
    let down = math.exp_of(negative(fall));
    multiply_commutes(down, turns);
    multiply_regroups(turns, down, math.exp_of(fall));
    parts(turns, turns);
}

/// The envelope of a Gaussian pulse is at half of its height half of its duration
/// from its delay: the duration is its width at half maximum.
pub proof fn gaussian_pulses_last_their_duration<V: Scalar, N: Elementary<V>>(
    math: &N,
    center_frequency: V,
    duration_cycles: V,
    delay: V,
    time: V,
)
    requires
        field::<V>(),
        forall|x: V| times(math.exp_of(negative(x)), #[trigger] math.exp_of(x)) == number::<V>(1),
        below(number::<V>(0), center_frequency),
        below(number::<V>(0), duration_cycles),
        below(number::<V>(0), math.decimal_of(4_246_609, 7)),
        // The deviation is the width at half maximum over twice the root of twice
        // the logarithm of two.
        ({
            let (width, log) = (math.decimal_of(4_246_609, 7), math.ln_of(number::<V>(2)));
            times(plus(log, log), times(width, width)) == times(half::<V>(), half::<V>())
        }),
        math.exp_of(negative(math.ln_of(number::<V>(2)))) == half::<V>(),
        times(center_frequency, minus(time, delay)) == times(half::<V>(), duration_cycles),
    ensures
        (Waveform::GaussianPulse { center_frequency, duration_cycles, delay }).value_at(math, time)
            == times(
            half::<V>(),
            math.sin_of(
                times(
                    times(number::<V>(2), pi_of::<V, N>(math)),
                    times(half::<V>(), duration_cycles),
                ),
            ),
        ),
{
    let (zero, h) = (number::<V>(0), half::<V>());
    let (w, log) = (math.decimal_of(4_246_609, 7), math.ln_of(number::<V>(2)));
    let u = over(h, w);
    parts(h, w);
    // u·w = h, so u·(w·d) = h·d, and u²·w² = h² makes u² twice the logarithm.
    multiply_regroups(u, w, duration_cycles);
    multiply_by_nothing(duration_cycles);
    products_keep_order(zero, w, duration_cycles);
    lemma_square_of_product(u, w);
    multiply_by_nothing(w);
    products_keep_order(zero, w, w);
    factors_come_off(times(u, u), plus(log, log), times(w, w));
    parts(log, log);
    gaussian_pulses_count_cycles(
        math,
        center_frequency,
        duration_cycles,
        delay,
        time,
        times(h, duration_cycles),
        u,
    );
}

} // verus!
