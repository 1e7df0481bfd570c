//! The pump curve of the HydroShift II and the scaling of ring colours.
use vstd::prelude::*;

verus! {

/// The slowest pump speed.
pub const PUMP_MIN_RPM: u16 = 1600;

/// The fastest pump speed of the round model.
pub const PUMP_MAX_RPM_CIRCLE: u16 = 2500;

/// The fastest pump speed of the square model.
pub const PUMP_MAX_RPM_SQUARE: u16 = 3200;

/// The integer that is nearest to a fraction; the larger one of two.
#[verifier::inline]
pub open spec fn nearest(numerator: int, denominator: int) -> int {
    (2 * numerator + denominator) / (2 * denominator)
}

/// The fastest pump speed of a model.
pub open spec fn max_rpm(is_square: bool) -> u16 {
    if is_square {
        PUMP_MAX_RPM_SQUARE
    } else {
        PUMP_MAX_RPM_CIRCLE
    }
}

/// The speed that the pump can run at, next to the one asked for.
pub open spec fn reachable_rpm(is_square: bool, rpm: u16) -> u16 {
    if rpm < PUMP_MIN_RPM {
        PUMP_MIN_RPM
    } else if rpm > max_rpm(is_square) {
        max_rpm(is_square)
    } else {
        rpm
    }
}

/// A point of the pump curve in thousandths: `start` at the speed `base`, falling by `slope`
/// with every turn per minute.
pub open spec fn on_line(rpm: u16, start: int, base: int, slope: int) -> int {
    1000 * start - (rpm - base) * slope
}

/// The pump curve in thousandths, at a speed that the pump can run at.
pub open spec fn pump_curve(is_square: bool, rpm: u16) -> int {
    if is_square {
        if rpm <= 1800 {
            on_line(rpm, 1590, 1600, 950)
        } else if rpm <= 2000 {
            on_line(rpm, 1400, 1800, 1000)
        } else if rpm <= 2200 {
            on_line(rpm, 1200, 2000, 1000)
        } else if rpm <= 2400 {
            on_line(rpm, 1000, 2200, 1000)
        } else if rpm <= 2600 {
            on_line(rpm, 800, 2400, 1000)
        } else if rpm <= 2800 {
            on_line(rpm, 580, 2600, 1110)
        } else if rpm <= 3000 {
            on_line(rpm, 330, 2800, 1200)
        } else {
            on_line(rpm, 90, 3000, 450)
        }
    } else {
        if rpm < 1720 {
            on_line(rpm, 1500, 1600, 1625)
        } else if rpm < 1870 {
            on_line(rpm, 1300, 1720, 2000)
        } else if rpm < 2000 {
            on_line(rpm, 1000, 1870, 1230)
        } else if rpm < 2300 {
            on_line(rpm, 840, 2000, 2000)
        } else if rpm < 2400 {
            on_line(rpm, 240, 2300, 1800)
        } else {
            on_line(rpm, 60, 2400, 500)
        }
    }
}

/// The signal for a pump speed.
pub open spec fn pwm_for_rpm(is_square: bool, rpm: u16) -> int {
    nearest(pump_curve(is_square, reachable_rpm(is_square, rpm)), 1000)
}

/// The pump speed for a duty.
pub open spec fn rpm_for_duty(is_square: bool, duty: u8) -> int {
    PUMP_MIN_RPM + nearest(duty * (max_rpm(is_square) - PUMP_MIN_RPM), 255)
}

/// The signal for a duty.
pub open spec fn pwm_for_duty(is_square: bool, duty: u8) -> int {
    pwm_for_rpm(is_square, rpm_for_duty(is_square, duty) as u16)
}

/// The fastest pump speed of a model.
pub fn pump_max_rpm(is_square: bool) -> (rpm: u16)
    ensures
        rpm == max_rpm(is_square),
{
    if is_square {
        PUMP_MAX_RPM_SQUARE
    } else {
        PUMP_MAX_RPM_CIRCLE
    }
}

fn point(rpm: u16, start: u32, base: u16, slope: u32) -> (pwm: u16)
    requires
        base <= rpm,
        start <= 1590,
        slope <= 2000,
        rpm - base <= 300,
        on_line(rpm, start as int, base as int, slope as int) >= 0,
    ensures
        pwm == nearest(on_line(rpm, start as int, base as int, slope as int), 1000),
{
    let run: u32 = (rpm - base) as u32;
    assert(run * slope <= 300 * 2000) by (nonlinear_arith)
        requires
            run <= 300,
            slope <= 2000,
    ;
    let height: u32 = 1000 * start - run * slope;
    let pwm: u32 = (height + 500) / 1000;
    assert((2 * height + 1000) / 2000 == pwm);
    pwm as u16
}

/// The signal for a pump speed.
pub fn rpm_to_pwm(is_square: bool, rpm: u16) -> (pwm: u16)
    ensures
        pwm == pwm_for_rpm(is_square, rpm),
{
    let most: u16 = pump_max_rpm(is_square);
    let rpm: u16 = if rpm < PUMP_MIN_RPM {
        PUMP_MIN_RPM
    } else if rpm > most {
        most
    } else {
        rpm
    };
    if is_square {
        if rpm <= 1800 {
            point(rpm, 1590, 1600, 950)
        } else if rpm <= 2000 {
            point(rpm, 1400, 1800, 1000)
        } else if rpm <= 2200 {
            point(rpm, 1200, 2000, 1000)
        } else if rpm <= 2400 {
            point(rpm, 1000, 2200, 1000)
        } else if rpm <= 2600 {
            point(rpm, 800, 2400, 1000)
        } else if rpm <= 2800 {
            point(rpm, 580, 2600, 1110)
        } else if rpm <= 3000 {
            point(rpm, 330, 2800, 1200)
        } else {
            point(rpm, 90, 3000, 450)
        }
    } else {
        if rpm < 1720 {
            point(rpm, 1500, 1600, 1625)
        } else if rpm < 1870 {
            point(rpm, 1300, 1720, 2000)
        } else if rpm < 2000 {
            point(rpm, 1000, 1870, 1230)
        } else if rpm < 2300 {
            point(rpm, 840, 2000, 2000)
        } else if rpm < 2400 {
            point(rpm, 240, 2300, 1800)
        } else {
            point(rpm, 60, 2400, 500)
        }
    }
}

/// The signal for a duty: the duty is a share of the way from the slowest to the fastest speed.
pub fn duty_to_pwm(is_square: bool, duty: u8) -> (pwm: u16)
    ensures
        pwm == pwm_for_duty(is_square, duty),
{
    let span: u32 = (pump_max_rpm(is_square) - PUMP_MIN_RPM) as u32;
    let share: u32 = duty as u32;
    assert(share * span <= 255 * 1600) by (nonlinear_arith)
        requires
            share <= 255,
            span <= 1600,
    ;
    assert(share * span == duty * (max_rpm(is_square) - PUMP_MIN_RPM));
    let turns: u32 = (2 * (share * span) + 255) / 510;
    let rpm: u16 = PUMP_MIN_RPM + turns as u16;
    rpm_to_pwm(is_square, rpm)
}

proof fn lemma_nearest_ordered(low: int, high: int, denominator: int)
    requires
        low <= high,
        denominator > 0,
    ensures
        nearest(low, denominator) <= nearest(high, denominator),
{
    vstd::arithmetic::div_mod::lemma_div_is_ordered(
        2 * low + denominator,
        2 * high + denominator,
        2 * denominator,
    );
}

/// A faster pump never gets a larger signal.
pub proof fn lemma_faster_pump_smaller_signal(is_square: bool, slow: u16, fast: u16)
    requires
        slow <= fast,
    ensures
        pwm_for_rpm(is_square, fast) <= pwm_for_rpm(is_square, slow),
{
    let a = reachable_rpm(is_square, slow);
    let b = reachable_rpm(is_square, fast);
    assert(a <= b);
    assert(pump_curve(is_square, b) <= pump_curve(is_square, a));
    lemma_nearest_ordered(pump_curve(is_square, b), pump_curve(is_square, a), 1000);
}

/// A larger duty never gets a larger signal, and the full duty asks for the fastest speed.
pub proof fn lemma_larger_duty_smaller_signal(is_square: bool, low: u8, high: u8)
    requires
        low <= high,
    ensures
        pwm_for_duty(is_square, high) <= pwm_for_duty(is_square, low),
        rpm_for_duty(is_square, 255) == max_rpm(is_square),
        rpm_for_duty(is_square, 0) == PUMP_MIN_RPM,
{
    let span = max_rpm(is_square) - PUMP_MIN_RPM;
    assert(0 <= low * span <= high * span <= 255 * span) by (nonlinear_arith)
        requires
            0 <= low <= high <= 255,
            span >= 0,
    ;
    lemma_nearest_ordered(low * span, high * span, 255);
    lemma_nearest_ordered(high * span, 255 * span, 255);
    lemma_nearest_ordered(0, low * span, 255);
    lemma_faster_pump_smaller_signal(
        is_square,
        rpm_for_duty(is_square, low) as u16,
        rpm_for_duty(is_square, high) as u16,
    );
}

/// A colour channel at a number of quarters of its brightness.
pub open spec fn scaled_channel(value: u8, quarters: u8) -> u8 {
    let scaled = nearest(value * quarters, 4);
    if scaled > 255 {
        255
    } else {
        scaled as u8
    }
}

fn scale_channel(value: u8, quarters: u8) -> (scaled: u8)
    ensures
        scaled == scaled_channel(value, quarters),
{
    let value: u32 = value as u32;
    let quarters: u32 = quarters as u32;
    assert(value * quarters <= 255 * 255) by (nonlinear_arith)
        requires
            value <= 255,
            quarters <= 255,
    ;
    let scaled: u32 = (value * quarters + 2) / 4;
    assert((2 * (value * quarters) + 4) / 8 == scaled);
    if scaled > 255 {
        255
    } else {
        scaled as u8
    }
}

/// A colour at a number of quarters of its brightness.
pub fn scale_brightness(color: [u8; 3], quarters: u8) -> (scaled: [u8; 3])
    ensures
        scaled@ == seq![
            scaled_channel(color@[0], quarters),
            scaled_channel(color@[1], quarters),
            scaled_channel(color@[2], quarters),
        ],
{
    let scaled = [
        scale_channel(color[0], quarters),
        scale_channel(color[1], quarters),
        scale_channel(color[2], quarters),
    ];
    assert(scaled@ =~= seq![
        scaled_channel(color@[0], quarters),
        scaled_channel(color@[1], quarters),
        scaled_channel(color@[2], quarters),
    ]);
    scaled
}

/// A share in quarters is at most half a step away from the exact one, full four quarters change
/// nothing, and nothing is brighter than full.
pub proof fn lemma_share_is_near(value: u8, quarters: u8)
    ensures
        value * quarters <= 1020 ==> -2 <= 4 * scaled_channel(value, quarters) - value * quarters
            <= 2,
        value * quarters > 1020 ==> scaled_channel(value, quarters) == 255,
        quarters == 4 ==> scaled_channel(value, quarters) == value,
        quarters == 0 ==> scaled_channel(value, quarters) == 0,
{
    let exact = value * quarters;
    assert(0 <= exact) by (nonlinear_arith)
        requires
            exact == value * quarters,
            value >= 0,
            quarters >= 0,
    ;
}

/// Every channel of a scaled colour is its own share, in the order of the channels.
pub proof fn lemma_channels_are_scaled_alike(
    color: [u8; 3],
    quarters: u8,
    scaled: [u8; 3],
    c: int,
)
    requires
        call_ensures(scale_brightness, (color, quarters), scaled),
        0 <= c < 3,
    ensures
        color@[c] * quarters <= 1020 ==> -2 <= 4 * scaled@[c] - color@[c] * quarters <= 2,
        color@[c] * quarters > 1020 ==> scaled@[c] == 255,
        quarters == 4 ==> scaled@[c] == color@[c],
{
    lemma_share_is_near(color@[c], quarters);
}

/// The pump curve of the round model, in straight lines from 1500 at 1600 turns per minute down to
/// 10 at 2500. The signal is at most half a step away from it.
pub proof fn lemma_round_pump_curve(rpm: u16, pwm: u16)
    requires
        call_ensures(rpm_to_pwm, (false, rpm), pwm),
    ensures
        rpm <= 1600 ==> pwm == 1500,
        rpm >= 2500 ==> pwm == 10,
        1600 <= rpm < 1720 ==> -500 <= 1000 * pwm - (1500000 - 1625 * (rpm - 1600)) <= 500,
        1720 <= rpm < 1870 ==> -500 <= 1000 * pwm - (1300000 - 2000 * (rpm - 1720)) <= 500,
        1870 <= rpm < 2000 ==> -500 <= 1000 * pwm - (1000000 - 1230 * (rpm - 1870)) <= 500,
        2000 <= rpm < 2300 ==> -500 <= 1000 * pwm - (840000 - 2000 * (rpm - 2000)) <= 500,
        2300 <= rpm < 2400 ==> -500 <= 1000 * pwm - (240000 - 1800 * (rpm - 2300)) <= 500,
        2400 <= rpm <= 2500 ==> -500 <= 1000 * pwm - (60000 - 500 * (rpm - 2400)) <= 500,
{
}

/// The pump curve of the square model, in straight lines from 1590 at 1600 turns per minute down
/// to 0 at 3200. The signal is at most half a step away from it.
pub proof fn lemma_square_pump_curve(rpm: u16, pwm: u16)
    requires
        call_ensures(rpm_to_pwm, (true, rpm), pwm),
    ensures
        rpm <= 1600 ==> pwm == 1590,
        rpm >= 3200 ==> pwm == 0,
        1600 <= rpm <= 1800 ==> -500 <= 1000 * pwm - (1590000 - 950 * (rpm - 1600)) <= 500,
        1800 < rpm <= 2600 ==> -500 <= 1000 * pwm - (1400000 - 1000 * (rpm - 1800)) <= 500,
        2600 < rpm <= 2800 ==> -500 <= 1000 * pwm - (580000 - 1110 * (rpm - 2600)) <= 500,
        2800 < rpm <= 3000 ==> -500 <= 1000 * pwm - (330000 - 1200 * (rpm - 2800)) <= 500,
        3000 < rpm <= 3200 ==> -500 <= 1000 * pwm - (90000 - 450 * (rpm - 3000)) <= 500,
{
}

proof fn lemma_nearest_speed(is_square: bool, exact: int, duty: u8, rpm: u16)
    requires
        exact == if is_square { 1600 * duty } else { 900 * duty },
        -255 <= 510 * (rpm - 1600) - 2 * exact <= 255,
    ensures
        rpm == rpm_for_duty(is_square, duty),
{
    let span = max_rpm(is_square) - PUMP_MIN_RPM;
    assert(span == if is_square { 1600int } else { 900int });
    assert(exact == duty * span) by (nonlinear_arith)
        requires
            span == if is_square { 1600int } else { 900int },
            exact == if is_square { 1600 * duty } else { 900 * duty },
    ;
    assert((2 * exact + 255) / 510 == rpm - 1600);
}

/// A duty asks for the speed that is nearest to its share of the way from the slowest to the
/// fastest one: 1600 to 2500 turns per minute for the round model, 1600 to 3200 for the square one.
pub proof fn lemma_duty_is_a_share_of_the_range(
    is_square: bool,
    duty: u8,
    rpm: u16,
    pwm: u16,
    at: u16,
)
    requires
        call_ensures(duty_to_pwm, (is_square, duty), pwm),
        call_ensures(rpm_to_pwm, (is_square, rpm), at),
        is_square ==> -255 <= 510 * (rpm - 1600) - 3200 * duty <= 255,
        !is_square ==> -255 <= 510 * (rpm - 1600) - 1800 * duty <= 255,
    ensures
        pwm == at,
{
    if is_square {
        lemma_nearest_speed(true, 1600 * duty, duty, rpm);
    } else {
        lemma_nearest_speed(false, 900 * duty, duty, rpm);
    }
    assert(pwm == pwm_for_rpm(is_square, rpm));
}

/// The round model reaches 2500 turns per minute, the square one 3200.
pub proof fn lemma_fastest_speeds(is_square: bool, rpm: u16)
    requires
        call_ensures(pump_max_rpm, (is_square,), rpm),
    ensures
        is_square ==> rpm == 3200,
        !is_square ==> rpm == 2500,
{
}

} // verus!
