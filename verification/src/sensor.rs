//! Pure computations for a pressure/temperature sensor read over a
//! serial bus: assembling the 20-bit raw reading from its three
//! measurement registers, and the integer compensation formula that
//! turns a raw reading into hundredths of a degree Celsius.
//!
//! The bus transfer itself is an external collaborator; these
//! functions take the register bytes as plain values.

use vstd::prelude::*;
use vstd::arithmetic::div_mod::{
    lemma_fundamental_div_mod,
    lemma_fundamental_div_mod_converse,
    lemma_mod_bound,
};

verus! {

/// The 20-bit raw value held in a measurement register triple: the
/// most significant byte, the less significant byte, and the top four
/// bits of the extra byte.
pub open spec fn raw_from_registers(msb: u8, lsb: u8, xlsb: u8) -> int {
    msb * 4096 + lsb * 16 + xlsb / 16
}

/// Assemble a raw reading from the three register bytes, most
/// significant first.
pub fn raw_reading(msb: u8, lsb: u8, xlsb: u8) -> (r: u32)
    ensures
        r == raw_from_registers(msb, lsb, xlsb),
        r < 0x100000,
{
    (msb as u32) * 4096 + (lsb as u32) * 16 + (xlsb as u32) / 16
}

/// Division that rounds toward negative infinity, as the hardware's
/// arithmetic right shift does; plain `/` on signed machine integers
/// rounds toward zero instead.
fn div_floor(a: i32, b: i32) -> (q: i32)
    requires
        b > 0,
        a >= i32::MIN + b,
    ensures
        q == a as int / b as int,
{
    if a >= 0 {
        a / b
    } else {
        let m: i32 = -a;
        let up: i32 = (m + (b - 1)) / b;
        proof {
            lemma_fundamental_div_mod(m + (b - 1) as int, b as int);
            lemma_mod_bound(m + (b - 1) as int, b as int);
            let bu = (b as int) * (up as int);
            assert(bu <= m + b - 1);
            assert(m + b - 1 < bu + b);
            assert((-(up as int)) * (b as int) == -bu) by (nonlinear_arith)
                requires
                    bu == (b as int) * (up as int),
            ;
            lemma_fundamental_div_mod_converse(a as int, b as int, -(up as int), bu - m);
        }
        -up
    }
}

/// The sensor's integer compensation formula: the temperature in
/// hundredths of a degree Celsius as a function of the 20-bit raw
/// reading. Division here rounds toward negative infinity, matching
/// the arithmetic shifts of the reference formula.
pub open spec fn temperature_centi(raw: int) -> int
    recommends
        0 <= raw < 0x100000,
{
    let v1 = (raw / 8 - 55008) * 12;
    let d = raw / 16 - 27504;
    let v2 = -1 * (d * (d / 4096));
    ((v1 + v2) * 5 + 128) / 256
}

/// The formula for calculating the actual temperature value (in
/// hundredths of a degree Celsius) from the raw sensor value.
pub fn calculate_temperature(temperature_adc: u32) -> (t: i32)
    requires
        temperature_adc < 0x100000,
    ensures
        t == temperature_centi(temperature_adc as int),
{
    let v1: i32 = ((temperature_adc / 8) as i32 - 55008) * 12;
    let d: i32 = (temperature_adc / 16) as i32 - 27504;
    let dq: i32 = div_floor(d, 4096);
    proof {
        lemma_fundamental_div_mod(d as int, 4096);
        lemma_mod_bound(d as int, 4096);
        assert(-7 <= dq <= 9);
        assert(0 <= d * dq <= 342279) by (nonlinear_arith)
            requires
                -27504 <= d <= 38031,
                -7 <= dq <= 9,
                dq == d as int / 4096int,
                4096 * (dq as int) <= d,
                d < 4096 * (dq as int) + 4096,
        ;
    }
    let v2: i32 = -(d * dq);
    div_floor((v1 + v2) * 5 + 128, 256)
}

} // verus!
