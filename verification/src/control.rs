//! Pure decision logic of the driver tasks: duty-cycle updates for a
//! PWM output, colour selection for an RGB LED, the over-temperature
//! buzzer rule, and the parser for the LED command received over the
//! network transport. The pin, PWM and socket operations around these
//! decisions are external collaborators; every function here maps
//! plain values to plain values.

use vstd::prelude::*;

verus! {

/// A command for the LED intensity task: raise or lower the duty
/// cycle by one tenth of the counter top.
#[derive(Clone, Copy, PartialEq, Eq, Structural, Debug)]
pub enum LedCommand {
    IncreaseI,
    DecreaseI,
}

/// Apply an intensity command to a PWM compare value. The step is one
/// tenth of `top`; the caller keeps the compare value inside
/// `[top / 10, u16::MAX - top / 10]` so neither direction can wrap.
pub fn apply_led_command(compare: u16, top: u16, cmd: LedCommand) -> (r: u16)
    requires
        cmd == LedCommand::IncreaseI ==> compare + top / 10 <= u16::MAX,
        cmd == LedCommand::DecreaseI ==> compare >= top / 10,
    ensures
        r == match cmd {
            LedCommand::IncreaseI => compare + top / 10,
            LedCommand::DecreaseI => compare - top / 10,
        },
{
    match cmd {
        LedCommand::IncreaseI => compare + top / 10,
        LedCommand::DecreaseI => compare - top / 10,
    }
}

/// Raise a PWM compare value by `interval`, saturating at `top`: the
/// duty cycle grows until it reaches full scale and then stays there.
pub fn next_duty(compare: u16, interval: u16, top: u16) -> (r: u16)
    ensures
        r == if compare + interval > top {
            top
        } else {
            (compare + interval) as u16
        },
        compare <= top ==> r <= top,
{
    let sum: u32 = compare as u32 + interval as u32;
    if sum > top as u32 {
        top
    } else {
        sum as u16
    }
}

/// The colour sequence a button press steps through.
#[derive(Clone, Copy, PartialEq, Eq, Structural, Debug)]
pub enum CycleColor {
    Red,
    Yellow,
    Blue,
}

/// One button press in the colour-cycling exercise: show the current
/// colour on the red/green/blue PWM compares (at `top` for each lit
/// component) and move to the next colour of the cycle.
pub fn cycle_step(color: CycleColor, top: u16) -> (r: (CycleColor, u16, u16, u16))
    ensures
        r == match color {
            CycleColor::Red => (CycleColor::Yellow, top, 0u16, 0u16),
            CycleColor::Yellow => (CycleColor::Blue, top, top, 0u16),
            CycleColor::Blue => (CycleColor::Red, 0u16, 0u16, top),
        },
{
    match color {
        CycleColor::Red => (CycleColor::Yellow, top, 0, 0),
        CycleColor::Yellow => (CycleColor::Blue, top, top, 0),
        CycleColor::Blue => (CycleColor::Red, 0, 0, top),
    }
}

/// The colour an RGB LED is asked to show; `None` in the channel
/// protocol means "off".
#[derive(Clone, Copy, PartialEq, Eq, Structural, Debug)]
pub enum LedColor {
    Red,
    Green,
    Blue,
}

/// The PWM compare triple for an RGB LED: the selected colour's
/// component is driven at `top / 4095 * intensity` (intensity is a
/// 12-bit analogue reading), the others are dark; no colour means all
/// dark.
pub fn rgb_compare(color: Option<LedColor>, top: u16, intensity: u16) -> (r: (u16, u16, u16))
    requires
        intensity <= 4095,
    ensures
        ({
            let level = (top / 4095 * intensity) as u16;
            r == match color {
                None => (0u16, 0u16, 0u16),
                Some(LedColor::Red) => (level, 0u16, 0u16),
                Some(LedColor::Green) => (0u16, level, 0u16),
                Some(LedColor::Blue) => (0u16, 0u16, level),
            }
        }),
{
    let q: u16 = top / 4095;
    proof {
        assert((q as int) * (intensity as int) <= 16 * 4095) by (nonlinear_arith)
            requires
                0 <= q <= 16,
                0 <= intensity <= 4095,
        ;
    }
    let level: u16 = q * intensity;
    match color {
        None => (0, 0, 0),
        Some(LedColor::Red) => (level, 0, 0),
        Some(LedColor::Green) => (0, level, 0),
        Some(LedColor::Blue) => (0, 0, level),
    }
}

/// The duty cycle for the night-light: the brighter the room (the
/// higher the photoresistor reading), the dimmer the LED. The caller
/// keeps the reading positive and the quotient small enough that the
/// scaled value fits the counter.
pub fn light_duty(top: u16, level: u16) -> (r: u16)
    requires
        level >= 1,
        (top / level) * 10 <= u16::MAX,
    ensures
        r == (top / level) * 10,
{
    top / level * 10
}

/// The over-temperature rule: with the temperature in hundredths of a
/// degree Celsius, the buzzer plays at half duty above 24 whole
/// degrees and is silent otherwise.
pub fn buzzer_duty(temperature: i32, top: u16) -> (r: u16)
    ensures
        r == if temperature >= 2500 {
            top / 2
        } else {
            0u16
        },
{
    if temperature / 100 > 24 {
        top / 2
    } else {
        0
    }
}

pub open spec fn is_ascii_space(b: u8) -> bool {
    b == 32 || b == 9 || b == 10 || b == 13
}

pub open spec fn trim_front(s: Seq<u8>) -> Seq<u8>
    decreases s.len(),
{
    if s.len() > 0 && is_ascii_space(s[0]) {
        trim_front(s.drop_first())
    } else {
        s
    }
}

pub open spec fn trim_back(s: Seq<u8>) -> Seq<u8>
    decreases s.len(),
{
    if s.len() > 0 && is_ascii_space(s[s.len() - 1]) {
        trim_back(s.drop_last())
    } else {
        s
    }
}

/// The text with ASCII whitespace removed from both ends, as the
/// command parser sees it.
pub open spec fn trimmed(s: Seq<u8>) -> Seq<u8> {
    trim_back(trim_front(s))
}

/// The bytes of the text `led:on`.
pub open spec fn led_on_bytes() -> Seq<u8> {
    seq![108u8, 101u8, 100u8, 58u8, 111u8, 110u8]
}

/// The bytes of the text `led:off`.
pub open spec fn led_off_bytes() -> Seq<u8> {
    seq![108u8, 101u8, 100u8, 58u8, 111u8, 102u8, 102u8]
}

/// A datagram's command for the board LED.
#[derive(Clone, Copy, PartialEq, Eq, Structural, Debug)]
pub enum NetCommand {
    LedOn,
    LedOff,
    Other,
}

/// Parse the bytes of a received datagram: after trimming ASCII
/// whitespace from both ends, exactly the text `led:on` switches the
/// LED on and exactly `led:off` switches it off; anything else is
/// ignored.
pub fn parse_net_command(buf: &[u8]) -> (r: NetCommand)
    ensures
        r == NetCommand::LedOn <==> trimmed(buf@) == led_on_bytes(),
        r == NetCommand::LedOff <==> trimmed(buf@) == led_off_bytes(),
{
    let n = buf.len();
    let mut lo: usize = 0;
    let mut hi: usize = n;
    proof {
        assert(buf@.subrange(0int, n as int) =~= buf@);
    }
    while lo < n && (buf[lo] == 32 || buf[lo] == 9 || buf[lo] == 10 || buf[lo] == 13)
        invariant
            lo <= n,
            n == buf@.len(),
            trim_front(buf@) == trim_front(buf@.subrange(lo as int, n as int)),
        decreases n - lo,
    {
        proof {
            assert(buf@.subrange(lo as int, n as int).drop_first() =~= buf@.subrange(
                lo as int + 1,
                n as int,
            ));
        }
        lo = lo + 1;
    }
    proof {
        assert(trim_front(buf@) == buf@.subrange(lo as int, n as int));
    }
    while hi > lo && (buf[hi - 1] == 32 || buf[hi - 1] == 9 || buf[hi - 1] == 10 || buf[hi - 1]
        == 13)
        invariant
            lo <= hi <= n,
            n == buf@.len(),
            trim_front(buf@) == buf@.subrange(lo as int, n as int),
            trim_back(buf@.subrange(lo as int, n as int)) == trim_back(
                buf@.subrange(lo as int, hi as int),
            ),
        decreases hi,
    {
        proof {
            assert(buf@.subrange(lo as int, hi as int).drop_last() =~= buf@.subrange(
                lo as int,
                hi as int - 1,
            ));
        }
        hi = hi - 1;
    }
    proof {
        assert(trimmed(buf@) == buf@.subrange(lo as int, hi as int));
    }
    let len = hi - lo;
    if len == 6 && buf[lo] == 108 && buf[lo + 1] == 101 && buf[lo + 2] == 100 && buf[lo + 3] == 58
        && buf[lo + 4] == 111 && buf[lo + 5] == 110 {
        proof {
            assert(buf@.subrange(lo as int, hi as int) =~= led_on_bytes());
        }
        NetCommand::LedOn
    } else if len == 7 && buf[lo] == 108 && buf[lo + 1] == 101 && buf[lo + 2] == 100 && buf[lo + 3]
        == 58 && buf[lo + 4] == 111 && buf[lo + 5] == 102 && buf[lo + 6] == 102 {
        proof {
            assert(buf@.subrange(lo as int, hi as int) =~= led_off_bytes());
        }
        NetCommand::LedOff
    } else {
        proof {
            if buf@.subrange(lo as int, hi as int) == led_on_bytes() {
                assert(false);
            }
            if buf@.subrange(lo as int, hi as int) == led_off_bytes() {
                assert(false);
            }
        }
        NetCommand::Other
    }
}

} // verus!
