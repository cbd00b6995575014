//! The built-in moduli are primes.
//!
//! Each prime here is `f * r + 1` for a prime `f` above `r` that was shown
//! before it, from 3 up to the order `q` of the built-in group and to its
//! modulus `p = 2 * q + 1`. For each, `primality::lemma_pocklington` is fed
//! a witness `a` whose powers are computed by squaring and multiplying, one
//! bit of the exponent at a time, with each value written out: first
//! `c = a^r`, then `c^f`, which is `a^(n-1)` and comes to 1.

use crate::field::{divides, is_prime, lemma_divides_mod};
use crate::generator::lemma_fixed_generator_order;
use crate::params::{fixed_p, fixed_q};
use crate::primality::{lemma_pocklington, lemma_power_step};
use vstd::arithmetic::div_mod::{lemma_mul_mod_noop, lemma_small_mod};
use vstd::arithmetic::power::{
    lemma_pow1, lemma_pow_adds, lemma_pow_mod_noop, lemma_pow_multiplies, pow,
};
use vstd::prelude::*;

verus! {

/// 3 is a prime.
proof fn lemma_prime_3()
    ensures
        is_prime(3),
{
    assert forall|d: int| 1 < d < 3 implies !#[trigger] divides(d, 3) by {
        lemma_divides_mod(2, 3);
    }
}

/// A part of the computation of `2^r` modulo `n`, for `n = 7`
/// and `r = 2`.
proof fn lemma_power_7_r()
    ensures
        pow(2, 2) % 7 == 4,
{
    lemma_pow1(2);
    lemma_power_step(2, 7, 1, 2, 0, 4);
}

/// A part of the computation of `c^f` modulo `n`, for
/// `n = 7`,
/// `c = 4` and
/// `f = 3`.
proof fn lemma_power_7_f()
    ensures
        pow(4, 3) % 7 == 1,
{
    lemma_pow1(4);
    lemma_power_step(4, 7, 1, 4, 1, 1);
}

/// `7` is a prime: it is `f * r + 1` with
/// `f = 3` and
/// `r = 2`, and 2 is the witness.
proof fn lemma_prime_7()
    ensures
        is_prime(7),
{
    lemma_prime_3();
    lemma_power_7_r();
    lemma_power_7_f();
    lemma_pow_multiplies(2, 2, 3);
    lemma_pow_mod_noop(pow(2, 2), 3, 7);
    assert(2 * 3 == 7 - 1) by (nonlinear_arith);
    lemma_pocklington(7, 3, 2, 2, -2, 1);
}

/// A part of the computation of `2^r` modulo `n`, for `n = 43`
/// and `r = 6`.
proof fn lemma_power_43_r()
    ensures
        pow(2, 6) % 43 == 21,
{
    lemma_pow1(2);
    lemma_power_step(2, 43, 1, 2, 1, 8);
    lemma_power_step(2, 43, 3, 8, 0, 21);
}

/// A part of the computation of `c^f` modulo `n`, for
/// `n = 43`,
/// `c = 21` and
/// `f = 7`.
proof fn lemma_power_43_f()
    ensures
        pow(21, 7) % 43 == 1,
{
    lemma_pow1(21);
    lemma_power_step(21, 43, 1, 21, 1, 16);
    lemma_power_step(21, 43, 3, 16, 1, 1);
}

/// `43` is a prime: it is `f * r + 1` with
/// `f = 7` and
/// `r = 6`, and 2 is the witness.
proof fn lemma_prime_43()
    ensures
        is_prime(43),
{
    lemma_prime_7();
    lemma_power_43_r();
    lemma_power_43_f();
    lemma_pow_multiplies(2, 6, 7);
    lemma_pow_mod_noop(pow(2, 6), 7, 43);
    assert(6 * 7 == 43 - 1) by (nonlinear_arith);
    lemma_pocklington(43, 7, 6, 2, -15, 7);
}

/// A part of the computation of `2^r` modulo `n`, for `n = 1721`
/// and `r = 40`.
proof fn lemma_power_1721_r()
    ensures
        pow(2, 40) % 1721 == 1392,
{
    lemma_pow1(2);
    lemma_power_step(2, 1721, 1, 2, 0, 4);
    lemma_power_step(2, 1721, 2, 4, 1, 32);
    lemma_power_step(2, 1721, 5, 32, 0, 1024);
    lemma_power_step(2, 1721, 10, 1024, 0, 487);
    lemma_power_step(2, 1721, 20, 487, 0, 1392);
}

/// A part of the computation of `c^f` modulo `n`, for
/// `n = 1721`,
/// `c = 1392` and
/// `f = 43`.
proof fn lemma_power_1721_f()
    ensures
        pow(1392, 43) % 1721 == 1,
{
    lemma_pow1(1392);
    lemma_power_step(1392, 1721, 1, 1392, 0, 1539);
    lemma_power_step(1392, 1721, 2, 1539, 1, 1297);
    lemma_power_step(1392, 1721, 5, 1297, 0, 792);
    lemma_power_step(1392, 1721, 10, 792, 1, 417);
    lemma_power_step(1392, 1721, 21, 417, 1, 1);
}

/// `1721` is a prime: it is `f * r + 1` with
/// `f = 43` and
/// `r = 40`, and 2 is the witness.
proof fn lemma_prime_1721()
    ensures
        is_prime(1721),
{
    lemma_prime_43();
    lemma_power_1721_r();
    lemma_power_1721_f();
    lemma_pow_multiplies(2, 40, 43);
    lemma_pow_mod_noop(pow(2, 40), 43, 1721);
    assert(40 * 43 == 1721 - 1) by (nonlinear_arith);
    lemma_pocklington(1721, 43, 40, 2, -412, 333);
}

/// A part of the computation of `2^r` modulo `n`, for `n = 2922259`
/// and `r = 1698`.
proof fn lemma_power_2922259_r()
    ensures
        pow(2, 1698) % 2922259 == 2715280,
{
    lemma_pow1(2);
    lemma_power_step(2, 2922259, 1, 2, 1, 8);
    lemma_power_step(2, 2922259, 3, 8, 0, 64);
    lemma_power_step(2, 2922259, 6, 64, 1, 8192);
    lemma_power_step(2, 2922259, 13, 8192, 0, 2819166);
    lemma_power_step(2, 2922259, 26, 2819166, 1, 2743591);
    lemma_power_step(2, 2922259, 53, 2743591, 0, 2419167);
    lemma_power_step(2, 2922259, 106, 2419167, 0, 1786215);
    lemma_power_step(2, 2922259, 212, 1786215, 0, 738399);
    lemma_power_step(2, 2922259, 424, 738399, 1, 1842480);
    lemma_power_step(2, 2922259, 849, 1842480, 0, 2715280);
}

/// A part of the computation of `c^f` modulo `n`, for
/// `n = 2922259`,
/// `c = 2715280` and
/// `f = 1721`.
proof fn lemma_power_2922259_f()
    ensures
        pow(2715280, 1721) % 2922259 == 1,
{
    lemma_pow1(2715280);
    lemma_power_step(2715280, 2922259, 1, 2715280, 1, 1834084);
    lemma_power_step(2715280, 2922259, 3, 1834084, 0, 2105753);
    lemma_power_step(2715280, 2922259, 6, 2105753, 1, 364748);
    lemma_power_step(2715280, 2922259, 13, 364748, 0, 2340270);
    lemma_power_step(2715280, 2922259, 26, 2340270, 1, 1345989);
    lemma_power_step(2715280, 2922259, 53, 1345989, 1, 2463771);
    lemma_power_step(2715280, 2922259, 107, 2463771, 1, 2468055);
    lemma_power_step(2715280, 2922259, 215, 2468055, 0, 1477252);
    lemma_power_step(2715280, 2922259, 430, 1477252, 0, 584520);
    lemma_power_step(2715280, 2922259, 860, 584520, 1, 1);
}

/// `2922259` is a prime: it is `f * r + 1` with
/// `f = 1721` and
/// `r = 1698`, and 2 is the witness.
proof fn lemma_prime_2922259()
    ensures
        is_prime(2922259),
{
    lemma_prime_1721();
    lemma_power_2922259_r();
    lemma_power_2922259_f();
    lemma_pow_multiplies(2, 1698, 1721);
    lemma_pow_mod_noop(pow(2, 1698), 1721, 2922259);
    assert(1698 * 1721 == 2922259 - 1) by (nonlinear_arith);
    lemma_pocklington(2922259, 1721, 1698, 2, -1236235, 1148674);
}

/// A part of the computation of `2^r` modulo `n`, for `n = 8539448627873`
/// and `r = 2922208`.
proof fn lemma_power_8539448627873_r_1()
    ensures
        pow(2, 365276) % 8539448627873 == 1805148436580,
{
    lemma_pow1(2);
    lemma_power_step(2, 8539448627873, 1, 2, 0, 4);
    lemma_power_step(2, 8539448627873, 2, 4, 1, 32);
    lemma_power_step(2, 8539448627873, 5, 32, 1, 2048);
    lemma_power_step(2, 8539448627873, 11, 2048, 0, 4194304);
    lemma_power_step(2, 8539448627873, 22, 4194304, 0, 513288788670);
    lemma_power_step(2, 8539448627873, 44, 513288788670, 1, 1394526869200);
    lemma_power_step(2, 8539448627873, 89, 1394526869200, 0, 2397003733181);
    lemma_power_step(2, 8539448627873, 178, 2397003733181, 0, 1107764153606);
    lemma_power_step(2, 8539448627873, 356, 1107764153606, 1, 7171676468080);
    lemma_power_step(2, 8539448627873, 713, 7171676468080, 0, 7924254319738);
    lemma_power_step(2, 8539448627873, 1426, 7924254319738, 1, 1245585509890);
    lemma_power_step(2, 8539448627873, 2853, 1245585509890, 1, 6521481927036);
    lemma_power_step(2, 8539448627873, 5707, 6521481927036, 0, 915053681055);
    lemma_power_step(2, 8539448627873, 11414, 915053681055, 1, 4416650183713);
    lemma_power_step(2, 8539448627873, 22829, 4416650183713, 1, 1331532861895);
    lemma_power_step(2, 8539448627873, 45659, 1331532861895, 1, 5269559221424);
    lemma_power_step(2, 8539448627873, 91319, 5269559221424, 0, 2296918621699);
    lemma_power_step(2, 8539448627873, 182638, 2296918621699, 0, 1805148436580);
}

/// A part of the computation of `2^r` modulo `n`, for `n = 8539448627873`
/// and `r = 2922208`.
proof fn lemma_power_8539448627873_r_2()
    ensures
        pow(2, 2922208) % 8539448627873 == 5960963030101,
{
    lemma_power_8539448627873_r_1();
    lemma_power_step(2, 8539448627873, 365276, 1805148436580, 0, 1118112863358);
    lemma_power_step(2, 8539448627873, 730552, 1118112863358, 0, 5089748397249);
    lemma_power_step(2, 8539448627873, 1461104, 5089748397249, 0, 5960963030101);
}

/// A part of the computation of `c^f` modulo `n`, for
/// `n = 8539448627873`,
/// `c = 5960963030101` and
/// `f = 2922259`.
proof fn lemma_power_8539448627873_f_1()
    ensures
        pow(5960963030101, 365282) % 8539448627873 == 5543230735047,
{
    lemma_pow1(5960963030101);
    lemma_power_step(5960963030101, 8539448627873, 1, 5960963030101, 0, 171077229410);
    lemma_power_step(5960963030101, 8539448627873, 2, 171077229410, 1, 5239197102035);
    lemma_power_step(5960963030101, 8539448627873, 5, 5239197102035, 1, 2667950591658);
    lemma_power_step(5960963030101, 8539448627873, 11, 2667950591658, 0, 5934545116008);
    lemma_power_step(5960963030101, 8539448627873, 22, 5934545116008, 0, 1618517607714);
    lemma_power_step(5960963030101, 8539448627873, 44, 1618517607714, 1, 7038296448819);
    lemma_power_step(5960963030101, 8539448627873, 89, 7038296448819, 0, 3704772928152);
    lemma_power_step(5960963030101, 8539448627873, 178, 3704772928152, 0, 572861983685);
    lemma_power_step(5960963030101, 8539448627873, 356, 572861983685, 1, 850420635151);
    lemma_power_step(5960963030101, 8539448627873, 713, 850420635151, 0, 468088911074);
    lemma_power_step(5960963030101, 8539448627873, 1426, 468088911074, 1, 3675626617773);
    lemma_power_step(5960963030101, 8539448627873, 2853, 3675626617773, 1, 6053627252343);
    lemma_power_step(5960963030101, 8539448627873, 5707, 6053627252343, 1, 1297882886013);
    lemma_power_step(5960963030101, 8539448627873, 11415, 1297882886013, 0, 8231170954673);
    lemma_power_step(5960963030101, 8539448627873, 22830, 8231170954673, 0, 1781110811320);
    lemma_power_step(5960963030101, 8539448627873, 45660, 1781110811320, 0, 3607131069607);
    lemma_power_step(5960963030101, 8539448627873, 91320, 3607131069607, 1, 4518523217071);
    lemma_power_step(5960963030101, 8539448627873, 182641, 4518523217071, 0, 5543230735047);
}

/// A part of the computation of `c^f` modulo `n`, for
/// `n = 8539448627873`,
/// `c = 5960963030101` and
/// `f = 2922259`.
proof fn lemma_power_8539448627873_f_2()
    ensures
        pow(5960963030101, 2922259) % 8539448627873 == 1,
{
    lemma_power_8539448627873_f_1();
    lemma_power_step(5960963030101, 8539448627873, 365282, 5543230735047, 0, 717770912554);
    lemma_power_step(5960963030101, 8539448627873, 730564, 717770912554, 1, 1231881236390);
    lemma_power_step(5960963030101, 8539448627873, 1461129, 1231881236390, 1, 1);
}

/// `8539448627873` is a prime: it is `f * r + 1` with
/// `f = 2922259` and
/// `r = 2922208`, and 2 is the witness.
proof fn lemma_prime_8539448627873()
    ensures
        is_prime(8539448627873),
{
    lemma_prime_2922259();
    lemma_power_8539448627873_r_2();
    lemma_power_8539448627873_f_2();
    lemma_pow_multiplies(2, 2922208, 2922259);
    lemma_pow_mod_noop(pow(2, 2922208), 2922259, 8539448627873);
    assert(2922208 * 2922259 == 8539448627873 - 1) by (nonlinear_arith);
    lemma_pocklington(8539448627873, 2922259, 2922208, 2, 28493926665, -19890188563);
}

/// A part of the computation of `2^r` modulo `n`, for
/// `n = 18446711979164185649` and
/// `r = 2160176`.
proof fn lemma_power_18446711979164185649_r_1()
    ensures
        pow(2, 270022) % 18446711979164185649 == 1290555240402807771,
{
    lemma_pow1(2);
    lemma_power_step(2, 18446711979164185649, 1, 2, 0, 4);
    lemma_power_step(2, 18446711979164185649, 2, 4, 0, 16);
    lemma_power_step(2, 18446711979164185649, 4, 16, 0, 256);
    lemma_power_step(2, 18446711979164185649, 8, 256, 0, 65536);
    lemma_power_step(2, 18446711979164185649, 16, 65536, 0, 4294967296);
    lemma_power_step(2, 18446711979164185649, 32, 4294967296, 1, 64189090731934);
    lemma_power_step(2, 18446711979164185649, 65, 64189090731934, 1, 13355556487004323136);
    lemma_power_step(2, 18446711979164185649, 131, 13355556487004323136, 1, 17986421154186666367);
    lemma_power_step(2, 18446711979164185649, 263, 17986421154186666367, 1, 9567223902875423903);
    lemma_power_step(2, 18446711979164185649, 527, 9567223902875423903, 0, 9278257164977707362);
    lemma_power_step(2, 18446711979164185649, 1054, 9278257164977707362, 1, 2228326562697493276);
    lemma_power_step(2, 18446711979164185649, 2109, 2228326562697493276, 1, 9310638894368247689);
    lemma_power_step(2, 18446711979164185649, 4219, 9310638894368247689, 0, 17798423522237825605);
    lemma_power_step(2, 18446711979164185649, 8438, 17798423522237825605, 0, 2214566455399264664);
    lemma_power_step(2, 18446711979164185649, 16876, 2214566455399264664, 0, 14943224162309987731);
    lemma_power_step(2, 18446711979164185649, 33752, 14943224162309987731, 1, 8703594090724578886);
    lemma_power_step(2, 18446711979164185649, 67505, 8703594090724578886, 1, 16183980265945870638);
    lemma_power_step(2, 18446711979164185649, 135011, 16183980265945870638, 0, 1290555240402807771);
}

/// A part of the computation of `2^r` modulo `n`, for
/// `n = 18446711979164185649` and
/// `r = 2160176`.
proof fn lemma_power_18446711979164185649_r_2()
    ensures
        pow(2, 2160176) % 18446711979164185649 == 4609489110560776869,
{
    lemma_power_18446711979164185649_r_1();
    lemma_power_step(2, 18446711979164185649, 270022, 1290555240402807771, 0, 8060672412553745996);
    lemma_power_step(2, 18446711979164185649, 540044, 8060672412553745996, 0, 5760482421115765473);
    lemma_power_step(2, 18446711979164185649, 1080088, 5760482421115765473, 0, 4609489110560776869);
}

/// A part of the computation of `c^f` modulo `n`, for
/// `n = 18446711979164185649`,
/// `c = 4609489110560776869` and
/// `f = 8539448627873`.
proof fn lemma_power_18446711979164185649_f_1()
    ensures
        pow(4609489110560776869, 508990) % 18446711979164185649 == 1028146333471414075,
{
    lemma_pow1(4609489110560776869);
    lemma_power_step(
        4609489110560776869,
        18446711979164185649,
        1,
        4609489110560776869,
        1,
        3507844197607746226,
    );
    lemma_power_step(
        4609489110560776869,
        18446711979164185649,
        3,
        3507844197607746226,
        1,
        9275085209058696124,
    );
    lemma_power_step(
        4609489110560776869,
        18446711979164185649,
        7,
        9275085209058696124,
        1,
        9917274410315196077,
    );
    lemma_power_step(
        4609489110560776869,
        18446711979164185649,
        15,
        9917274410315196077,
        1,
        12615069769653339494,
    );
    lemma_power_step(
        4609489110560776869,
        18446711979164185649,
        31,
        12615069769653339494,
        0,
        13997173246306370019,
    );
    lemma_power_step(
        4609489110560776869,
        18446711979164185649,
        62,
        13997173246306370019,
        0,
        11237698466291753733,
    );
    lemma_power_step(
        4609489110560776869,
        18446711979164185649,
        124,
        11237698466291753733,
        0,
        3742853047678930386,
    );
    lemma_power_step(
        4609489110560776869,
        18446711979164185649,
        248,
        3742853047678930386,
        1,
        8758872468207596568,
    );
    lemma_power_step(
        4609489110560776869,
        18446711979164185649,
        497,
        8758872468207596568,
        0,
        1593677085525943055,
    );
    lemma_power_step(
        4609489110560776869,
        18446711979164185649,
        994,
        1593677085525943055,
        0,
        9956718850082967082,
    );
    lemma_power_step(
        4609489110560776869,
        18446711979164185649,
        1988,
        9956718850082967082,
        0,
        11103165480700926260,
    );
    lemma_power_step(
        4609489110560776869,
        18446711979164185649,
        3976,
        11103165480700926260,
        0,
        385639414691374023,
    );
    lemma_power_step(
        4609489110560776869,
        18446711979164185649,
        7952,
        385639414691374023,
        1,
        6414431464618906168,
    );
    lemma_power_step(
        4609489110560776869,
        18446711979164185649,
        15905,
        6414431464618906168,
        1,
        6250866217450463506,
    );
    lemma_power_step(
        4609489110560776869,
        18446711979164185649,
        31811,
        6250866217450463506,
        1,
        1007994622827255621,
    );
    lemma_power_step(
        4609489110560776869,
        18446711979164185649,
        63623,
        1007994622827255621,
        1,
        11201611717362501426,
    );
    lemma_power_step(
        4609489110560776869,
        18446711979164185649,
        127247,
        11201611717362501426,
        1,
        8016146296331403986,
    );
    lemma_power_step(
        4609489110560776869,
        18446711979164185649,
        254495,
        8016146296331403986,
        0,
        1028146333471414075,
    );
}

/// A part of the computation of `c^f` modulo `n`, for
/// `n = 18446711979164185649`,
/// `c = 4609489110560776869` and
/// `f = 8539448627873`.
proof fn lemma_power_18446711979164185649_f_2()
    ensures
        pow(4609489110560776869, 133428884810) % 18446711979164185649 == 2501465622431995813,
{
    lemma_power_18446711979164185649_f_1();
    lemma_power_step(
        4609489110560776869,
        18446711979164185649,
        508990,
        1028146333471414075,
        1,
        18062250558821983270,
    );
    lemma_power_step(
        4609489110560776869,
        18446711979164185649,
        1017981,
        18062250558821983270,
        1,
        8268490218771773538,
    );
    lemma_power_step(
        4609489110560776869,
        18446711979164185649,
        2035963,
        8268490218771773538,
        0,
        6759279903736045486,
    );
    lemma_power_step(
        4609489110560776869,
        18446711979164185649,
        4071926,
        6759279903736045486,
        0,
        17445777554485576396,
    );
    lemma_power_step(
        4609489110560776869,
        18446711979164185649,
        8143852,
        17445777554485576396,
        1,
        11930394077417886813,
    );
    lemma_power_step(
        4609489110560776869,
        18446711979164185649,
        16287705,
        11930394077417886813,
        1,
        12642787796235762168,
    );
    lemma_power_step(
        4609489110560776869,
        18446711979164185649,
        32575411,
        12642787796235762168,
        0,
        8239147212921420131,
    );
    lemma_power_step(
        4609489110560776869,
        18446711979164185649,
        65150822,
        8239147212921420131,
        1,
        65250970898263003,
    );
    lemma_power_step(
        4609489110560776869,
        18446711979164185649,
        130301645,
        65250970898263003,
        0,
        13686478711954929379,
    );
    lemma_power_step(
        4609489110560776869,
        18446711979164185649,
        260603290,
        13686478711954929379,
        1,
        6369834851591252224,
    );
    lemma_power_step(
        4609489110560776869,
        18446711979164185649,
        521206581,
        6369834851591252224,
        0,
        11555481473705007153,
    );
    lemma_power_step(
        4609489110560776869,
        18446711979164185649,
        1042413162,
        11555481473705007153,
        1,
        7045980636726807484,
    );
    lemma_power_step(
        4609489110560776869,
        18446711979164185649,
        2084826325,
        7045980636726807484,
        0,
        8829338615569217945,
    );
    lemma_power_step(
        4609489110560776869,
        18446711979164185649,
        4169652650,
        8829338615569217945,
        0,
        731551198644086338,
    );
    lemma_power_step(
        4609489110560776869,
        18446711979164185649,
        8339305300,
        731551198644086338,
        1,
        16177680343979105141,
    );
    lemma_power_step(
        4609489110560776869,
        18446711979164185649,
        16678610601,
        16177680343979105141,
        0,
        14497899654485672418,
    );
    lemma_power_step(
        4609489110560776869,
        18446711979164185649,
        33357221202,
        14497899654485672418,
        1,
        10193443654563364942,
    );
    lemma_power_step(
        4609489110560776869,
        18446711979164185649,
        66714442405,
        10193443654563364942,
        0,
        2501465622431995813,
    );
}

/// A part of the computation of `c^f` modulo `n`, for
/// `n = 18446711979164185649`,
/// `c = 4609489110560776869` and
/// `f = 8539448627873`.
proof fn lemma_power_18446711979164185649_f_3()
    ensures
        pow(4609489110560776869, 8539448627873) % 18446711979164185649 == 1,
{
    lemma_power_18446711979164185649_f_2();
    lemma_power_step(
        4609489110560776869,
        18446711979164185649,
        133428884810,
        2501465622431995813,
        1,
        16747726052374416528,
    );
    lemma_power_step(
        4609489110560776869,
        18446711979164185649,
        266857769621,
        16747726052374416528,
        0,
        12932521371015625593,
    );
    lemma_power_step(
        4609489110560776869,
        18446711979164185649,
        533715539242,
        12932521371015625593,
        0,
        15537491789276305384,
    );
    lemma_power_step(
        4609489110560776869,
        18446711979164185649,
        1067431078484,
        15537491789276305384,
        0,
        3258726140696010011,
    );
    lemma_power_step(
        4609489110560776869,
        18446711979164185649,
        2134862156968,
        3258726140696010011,
        0,
        8028154891651405414,
    );
    lemma_power_step(
        4609489110560776869,
        18446711979164185649,
        4269724313936,
        8028154891651405414,
        1,
        1,
    );
}

/// `18446711979164185649` is a prime: it is `f * r + 1` with
/// `f = 8539448627873` and
/// `r = 2160176`, and 2 is the witness.
proof fn lemma_prime_18446711979164185649()
    ensures
        is_prime(18446711979164185649),
{
    lemma_prime_8539448627873();
    lemma_power_18446711979164185649_r_2();
    lemma_power_18446711979164185649_f_3();
    lemma_pow_multiplies(2, 2160176, 8539448627873);
    lemma_pow_mod_noop(pow(2, 2160176), 8539448627873, 18446711979164185649);
    assert(2160176 * 8539448627873 == 18446711979164185649 - 1) by (nonlinear_arith);
    lemma_pocklington(
        18446711979164185649,
        8539448627873,
        2160176,
        2,
        -3533920138378426322,
        883060700131604953,
    );
}

/// A part of the computation of `2^r` modulo `n`, for
/// `n = 170141183460469171114957017901932292919` and
/// `r = 9223388084155375382`.
proof fn lemma_power_170141183460469171114957017901932292919_r_1()
    ensures
        pow(2, 262144) % 170141183460469171114957017901932292919
            == 6051195295971210126286494424042800076,
{
    lemma_pow1(2);
    lemma_power_step(2, 170141183460469171114957017901932292919, 1, 2, 0, 4);
    lemma_power_step(2, 170141183460469171114957017901932292919, 2, 4, 0, 16);
    lemma_power_step(2, 170141183460469171114957017901932292919, 4, 16, 0, 256);
    lemma_power_step(2, 170141183460469171114957017901932292919, 8, 256, 0, 65536);
    lemma_power_step(2, 170141183460469171114957017901932292919, 16, 65536, 0, 4294967296);
    lemma_power_step(
        2,
        170141183460469171114957017901932292919,
        32,
        4294967296,
        0,
        18446744073709551616,
    );
    lemma_power_step(
        2,
        170141183460469171114957017901932292919,
        64,
        18446744073709551616,
        0,
        121233460571627903625618,
    );
    lemma_power_step(
        2,
        170141183460469171114957017901932292919,
        128,
        121233460571627903625618,
        0,
        87155465258074125454708316776188344050,
    );
    lemma_power_step(
        2,
        170141183460469171114957017901932292919,
        256,
        87155465258074125454708316776188344050,
        0,
        55536464592695664119546503998472748943,
    );
    lemma_power_step(
        2,
        170141183460469171114957017901932292919,
        512,
        55536464592695664119546503998472748943,
        0,
        135639378285002936971928362659366731617,
    );
    lemma_power_step(
        2,
        170141183460469171114957017901932292919,
        1024,
        135639378285002936971928362659366731617,
        0,
        95750749083949819717697486020673314235,
    );
    lemma_power_step(
        2,
        170141183460469171114957017901932292919,
        2048,
        95750749083949819717697486020673314235,
        0,
        89809122814917341149191455778543771581,
    );
    lemma_power_step(
        2,
        170141183460469171114957017901932292919,
        4096,
        89809122814917341149191455778543771581,
        0,
        92571255517262394984904539241972957950,
    );
    lemma_power_step(
        2,
        170141183460469171114957017901932292919,
        8192,
        92571255517262394984904539241972957950,
        0,
        42957040136781333466836402392155935062,
    );
    lemma_power_step(
        2,
        170141183460469171114957017901932292919,
        16384,
        42957040136781333466836402392155935062,
        0,
        136504684186084296676354245055129321384,
    );
    lemma_power_step(
        2,
        170141183460469171114957017901932292919,
        32768,
        136504684186084296676354245055129321384,
        0,
        7484326323206249957543115440190103627,
    );
    lemma_power_step(
        2,
        170141183460469171114957017901932292919,
        65536,
        7484326323206249957543115440190103627,
        0,
        166572862231883210127521757998479283174,
    );
    lemma_power_step(
        2,
        170141183460469171114957017901932292919,
        131072,
        166572862231883210127521757998479283174,
        0,
        6051195295971210126286494424042800076,
    );
}

/// A part of the computation of `2^r` modulo `n`, for
/// `n = 170141183460469171114957017901932292919` and
/// `r = 9223388084155375382`.
proof fn lemma_power_170141183460469171114957017901932292919_r_2()
    ensures
        pow(2, 68719596297) % 170141183460469171114957017901932292919
            == 36117198220544068655451365406981542533,
{
    lemma_power_170141183460469171114957017901932292919_r_1();
    lemma_power_step(
        2,
        170141183460469171114957017901932292919,
        262144,
        6051195295971210126286494424042800076,
        0,
        3794711997393017947477037870755029431,
    );
    lemma_power_step(
        2,
        170141183460469171114957017901932292919,
        524288,
        3794711997393017947477037870755029431,
        1,
        56315283114857286702378045396175215967,
    );
    lemma_power_step(
        2,
        170141183460469171114957017901932292919,
        1048577,
        56315283114857286702378045396175215967,
        1,
        54080104791778237065003952199520333848,
    );
    lemma_power_step(
        2,
        170141183460469171114957017901932292919,
        2097155,
        54080104791778237065003952199520333848,
        1,
        1000155823291397217910860164377418710,
    );
    lemma_power_step(
        2,
        170141183460469171114957017901932292919,
        4194311,
        1000155823291397217910860164377418710,
        0,
        105086186219907221092033221028067889440,
    );
    lemma_power_step(
        2,
        170141183460469171114957017901932292919,
        8388622,
        105086186219907221092033221028067889440,
        1,
        68125423716824675941926414024287110285,
    );
    lemma_power_step(
        2,
        170141183460469171114957017901932292919,
        16777245,
        68125423716824675941926414024287110285,
        0,
        37148423373600925904801520707102992275,
    );
    lemma_power_step(
        2,
        170141183460469171114957017901932292919,
        33554490,
        37148423373600925904801520707102992275,
        0,
        142707721301833107247668488749909411137,
    );
    lemma_power_step(
        2,
        170141183460469171114957017901932292919,
        67108980,
        142707721301833107247668488749909411137,
        1,
        35685742849101329940385356008860603006,
    );
    lemma_power_step(
        2,
        170141183460469171114957017901932292919,
        134217961,
        35685742849101329940385356008860603006,
        1,
        39711331032076203379790416466101474848,
    );
    lemma_power_step(
        2,
        170141183460469171114957017901932292919,
        268435923,
        39711331032076203379790416466101474848,
        0,
        130561853680543906373853905928754124075,
    );
    lemma_power_step(
        2,
        170141183460469171114957017901932292919,
        536871846,
        130561853680543906373853905928754124075,
        0,
        11265439817365672139129800488275827031,
    );
    lemma_power_step(
        2,
        170141183460469171114957017901932292919,
        1073743692,
        11265439817365672139129800488275827031,
        0,
        81521795970190174214121184343592027572,
    );
    lemma_power_step(
        2,
        170141183460469171114957017901932292919,
        2147487384,
        81521795970190174214121184343592027572,
        0,
        50087355177589520935605929808734283016,
    );
    lemma_power_step(
        2,
        170141183460469171114957017901932292919,
        4294974768,
        50087355177589520935605929808734283016,
        1,
        13999556743330241675707645476603066558,
    );
    lemma_power_step(
        2,
        170141183460469171114957017901932292919,
        8589949537,
        13999556743330241675707645476603066558,
        0,
        64974860078484183990620080009166306446,
    );
    lemma_power_step(
        2,
        170141183460469171114957017901932292919,
        17179899074,
        64974860078484183990620080009166306446,
        0,
        86843460497175007403128153417170633577,
    );
    lemma_power_step(
        2,
        170141183460469171114957017901932292919,
        34359798148,
        86843460497175007403128153417170633577,
        1,
        36117198220544068655451365406981542533,
    );
}

/// A part of the computation of `2^r` modulo `n`, for
/// `n = 170141183460469171114957017901932292919` and
/// `r = 9223388084155375382`.
proof fn lemma_power_170141183460469171114957017901932292919_r_3()
    ensures
        pow(2, 18014429851865967) % 170141183460469171114957017901932292919
            == 49947674542749122516084965336387926283,
{
    lemma_power_170141183460469171114957017901932292919_r_2();
    lemma_power_step(
        2,
        170141183460469171114957017901932292919,
        68719596297,
        36117198220544068655451365406981542533,
        1,
        66010933210410666531676432957837577704,
    );
    lemma_power_step(
        2,
        170141183460469171114957017901932292919,
        137439192595,
        66010933210410666531676432957837577704,
        0,
        144122422006372619705069373864523891220,
    );
    lemma_power_step(
        2,
        170141183460469171114957017901932292919,
        274878385190,
        144122422006372619705069373864523891220,
        1,
        97790011400914582668650214596856901879,
    );
    lemma_power_step(
        2,
        170141183460469171114957017901932292919,
        549756770381,
        97790011400914582668650214596856901879,
        1,
        149610238563641732576440754434411571820,
    );
    lemma_power_step(
        2,
        170141183460469171114957017901932292919,
        1099513540763,
        149610238563641732576440754434411571820,
        0,
        92706849527528029949659199457678240024,
    );
    lemma_power_step(
        2,
        170141183460469171114957017901932292919,
        2199027081526,
        92706849527528029949659199457678240024,
        1,
        119864744878204388274117166215970387932,
    );
    lemma_power_step(
        2,
        170141183460469171114957017901932292919,
        4398054163053,
        119864744878204388274117166215970387932,
        0,
        99996552119969072884931645269143232187,
    );
    lemma_power_step(
        2,
        170141183460469171114957017901932292919,
        8796108326106,
        99996552119969072884931645269143232187,
        0,
        141671164731614352028018300522501794347,
    );
    lemma_power_step(
        2,
        170141183460469171114957017901932292919,
        17592216652212,
        141671164731614352028018300522501794347,
        1,
        57827718796052947996015892722749052469,
    );
    lemma_power_step(
        2,
        170141183460469171114957017901932292919,
        35184433304425,
        57827718796052947996015892722749052469,
        1,
        60829685456444832715812846622098855216,
    );
    lemma_power_step(
        2,
        170141183460469171114957017901932292919,
        70368866608851,
        60829685456444832715812846622098855216,
        0,
        18992953131598372997902110258926160209,
    );
    lemma_power_step(
        2,
        170141183460469171114957017901932292919,
        140737733217702,
        18992953131598372997902110258926160209,
        1,
        75724752643099483887560087463917652932,
    );
    lemma_power_step(
        2,
        170141183460469171114957017901932292919,
        281475466435405,
        75724752643099483887560087463917652932,
        1,
        156212284749074891297191038297481160101,
    );
    lemma_power_step(
        2,
        170141183460469171114957017901932292919,
        562950932870811,
        156212284749074891297191038297481160101,
        0,
        60264251771317514573862280692013948867,
    );
    lemma_power_step(
        2,
        170141183460469171114957017901932292919,
        1125901865741622,
        60264251771317514573862280692013948867,
        1,
        29132729003131330614322277644797011234,
    );
    lemma_power_step(
        2,
        170141183460469171114957017901932292919,
        2251803731483245,
        29132729003131330614322277644797011234,
        1,
        71206238785410718626439215637691190909,
    );
    lemma_power_step(
        2,
        170141183460469171114957017901932292919,
        4503607462966491,
        71206238785410718626439215637691190909,
        1,
        14424266906489326756763986932597603861,
    );
    lemma_power_step(
        2,
        170141183460469171114957017901932292919,
        9007214925932983,
        14424266906489326756763986932597603861,
        1,
        49947674542749122516084965336387926283,
    );
}

/// A part of the computation of `2^r` modulo `n`, for
/// `n = 170141183460469171114957017901932292919` and
/// `r = 9223388084155375382`.
proof fn lemma_power_170141183460469171114957017901932292919_r_4()
    ensures
        pow(2, 9223388084155375382) % 170141183460469171114957017901932292919
            == 4183660294544677553413208230525060017,
{
    lemma_power_170141183460469171114957017901932292919_r_3();
    lemma_power_step(
        2,
        170141183460469171114957017901932292919,
        18014429851865967,
        49947674542749122516084965336387926283,
        1,
        72796024491618370998055607030791421462,
    );
    lemma_power_step(
        2,
        170141183460469171114957017901932292919,
        36028859703731935,
        72796024491618370998055607030791421462,
        0,
        124615543436476078916784910435017965201,
    );
    lemma_power_step(
        2,
        170141183460469171114957017901932292919,
        72057719407463870,
        124615543436476078916784910435017965201,
        0,
        7144284388422391260684640690369858619,
    );
    lemma_power_step(
        2,
        170141183460469171114957017901932292919,
        144115438814927740,
        7144284388422391260684640690369858619,
        0,
        100602561724670632287436351056866415379,
    );
    lemma_power_step(
        2,
        170141183460469171114957017901932292919,
        288230877629855480,
        100602561724670632287436351056866415379,
        1,
        118147707499438511810652052463837364632,
    );
    lemma_power_step(
        2,
        170141183460469171114957017901932292919,
        576461755259710961,
        118147707499438511810652052463837364632,
        0,
        24051388435044170984260313813425491818,
    );
    lemma_power_step(
        2,
        170141183460469171114957017901932292919,
        1152923510519421922,
        24051388435044170984260313813425491818,
        1,
        142435567455605018450467564297730329833,
    );
    lemma_power_step(
        2,
        170141183460469171114957017901932292919,
        2305847021038843845,
        142435567455605018450467564297730329833,
        1,
        95254091767009937181241113065641552968,
    );
    lemma_power_step(
        2,
        170141183460469171114957017901932292919,
        4611694042077687691,
        95254091767009937181241113065641552968,
        0,
        4183660294544677553413208230525060017,
    );
}

/// A part of the computation of `c^f` modulo `n`, for
/// `n = 170141183460469171114957017901932292919`,
/// `c = 4183660294544677553413208230525060017` and
/// `f = 18446711979164185649`.
proof fn lemma_power_170141183460469171114957017901932292919_f_1()
    ensures
        pow(4183660294544677553413208230525060017, 524287) % 170141183460469171114957017901932292919
            == 149375352168191710326473092851575282884,
{
    lemma_pow1(4183660294544677553413208230525060017);
    lemma_power_step(
        4183660294544677553413208230525060017,
        170141183460469171114957017901932292919,
        1,
        4183660294544677553413208230525060017,
        1,
        131288450030131983967347130298684972114,
    );
    lemma_power_step(
        4183660294544677553413208230525060017,
        170141183460469171114957017901932292919,
        3,
        131288450030131983967347130298684972114,
        1,
        150841509848746170783712212819706008688,
    );
    lemma_power_step(
        4183660294544677553413208230525060017,
        170141183460469171114957017901932292919,
        7,
        150841509848746170783712212819706008688,
        1,
        91446205795126351046105319657736573969,
    );
    lemma_power_step(
        4183660294544677553413208230525060017,
        170141183460469171114957017901932292919,
        15,
        91446205795126351046105319657736573969,
        1,
        37912873330031681066776059622801122412,
    );
    lemma_power_step(
        4183660294544677553413208230525060017,
        170141183460469171114957017901932292919,
        31,
        37912873330031681066776059622801122412,
        1,
        34786404840356117160974068491605704087,
    );
    lemma_power_step(
        4183660294544677553413208230525060017,
        170141183460469171114957017901932292919,
        63,
        34786404840356117160974068491605704087,
        1,
        144964387016212798450569821227267347605,
    );
    lemma_power_step(
        4183660294544677553413208230525060017,
        170141183460469171114957017901932292919,
        127,
        144964387016212798450569821227267347605,
        1,
        120559513298998363049532892844844310054,
    );
    lemma_power_step(
        4183660294544677553413208230525060017,
        170141183460469171114957017901932292919,
        255,
        120559513298998363049532892844844310054,
        1,
        74600026879936407160426591979002824698,
    );
    lemma_power_step(
        4183660294544677553413208230525060017,
        170141183460469171114957017901932292919,
        511,
        74600026879936407160426591979002824698,
        1,
        123283607021347989850488218704537685217,
    );
    lemma_power_step(
        4183660294544677553413208230525060017,
        170141183460469171114957017901932292919,
        1023,
        123283607021347989850488218704537685217,
        1,
        71551032389445786534885527417975512594,
    );
    lemma_power_step(
        4183660294544677553413208230525060017,
        170141183460469171114957017901932292919,
        2047,
        71551032389445786534885527417975512594,
        1,
        88660916309358741175417772160915912734,
    );
    lemma_power_step(
        4183660294544677553413208230525060017,
        170141183460469171114957017901932292919,
        4095,
        88660916309358741175417772160915912734,
        1,
        78642882395088606173946680667065622283,
    );
    lemma_power_step(
        4183660294544677553413208230525060017,
        170141183460469171114957017901932292919,
        8191,
        78642882395088606173946680667065622283,
        1,
        22670552728880377816586448957340138148,
    );
    lemma_power_step(
        4183660294544677553413208230525060017,
        170141183460469171114957017901932292919,
        16383,
        22670552728880377816586448957340138148,
        1,
        71766136573739499693745423201244851588,
    );
    lemma_power_step(
        4183660294544677553413208230525060017,
        170141183460469171114957017901932292919,
        32767,
        71766136573739499693745423201244851588,
        1,
        164127471390196528393932126096534141577,
    );
    lemma_power_step(
        4183660294544677553413208230525060017,
        170141183460469171114957017901932292919,
        65535,
        164127471390196528393932126096534141577,
        1,
        111371125265683949833746724040370604275,
    );
    lemma_power_step(
        4183660294544677553413208230525060017,
        170141183460469171114957017901932292919,
        131071,
        111371125265683949833746724040370604275,
        1,
        48584571046336464986657385828870446140,
    );
    lemma_power_step(
        4183660294544677553413208230525060017,
        170141183460469171114957017901932292919,
        262143,
        48584571046336464986657385828870446140,
        1,
        149375352168191710326473092851575282884,
    );
}

/// A part of the computation of `c^f` modulo `n`, for
/// `n = 170141183460469171114957017901932292919`,
/// `c = 4183660294544677553413208230525060017` and
/// `f = 18446711979164185649`.
proof fn lemma_power_170141183460469171114957017901932292919_f_2()
    ensures
        pow(
            4183660294544677553413208230525060017,
            137438714349,
        ) % 170141183460469171114957017901932292919
            == 35782608897293203045739807853716448433,
{
    lemma_power_170141183460469171114957017901932292919_f_1();
    lemma_power_step(
        4183660294544677553413208230525060017,
        170141183460469171114957017901932292919,
        524287,
        149375352168191710326473092851575282884,
        0,
        61248357403889952891751932050444752073,
    );
    lemma_power_step(
        4183660294544677553413208230525060017,
        170141183460469171114957017901932292919,
        1048574,
        61248357403889952891751932050444752073,
        0,
        21368108497840115688213829331679449328,
    );
    lemma_power_step(
        4183660294544677553413208230525060017,
        170141183460469171114957017901932292919,
        2097148,
        21368108497840115688213829331679449328,
        0,
        157597720116360178248160519578538222576,
    );
    lemma_power_step(
        4183660294544677553413208230525060017,
        170141183460469171114957017901932292919,
        4194296,
        157597720116360178248160519578538222576,
        1,
        99766544672231261682172261385667731513,
    );
    lemma_power_step(
        4183660294544677553413208230525060017,
        170141183460469171114957017901932292919,
        8388593,
        99766544672231261682172261385667731513,
        0,
        138575584445915471316200072793921184481,
    );
    lemma_power_step(
        4183660294544677553413208230525060017,
        170141183460469171114957017901932292919,
        16777186,
        138575584445915471316200072793921184481,
        1,
        63476580719903004417445234477980914254,
    );
    lemma_power_step(
        4183660294544677553413208230525060017,
        170141183460469171114957017901932292919,
        33554373,
        63476580719903004417445234477980914254,
        1,
        48483674050034286611609207524199751372,
    );
    lemma_power_step(
        4183660294544677553413208230525060017,
        170141183460469171114957017901932292919,
        67108747,
        48483674050034286611609207524199751372,
        0,
        50380199115876049569950587788644532647,
    );
    lemma_power_step(
        4183660294544677553413208230525060017,
        170141183460469171114957017901932292919,
        134217494,
        50380199115876049569950587788644532647,
        0,
        25253640466938760376099840793207271947,
    );
    lemma_power_step(
        4183660294544677553413208230525060017,
        170141183460469171114957017901932292919,
        268434988,
        25253640466938760376099840793207271947,
        1,
        153672925592195348142980971522231454259,
    );
    lemma_power_step(
        4183660294544677553413208230525060017,
        170141183460469171114957017901932292919,
        536869977,
        153672925592195348142980971522231454259,
        1,
        52772874395675133622319304831992595651,
    );
    lemma_power_step(
        4183660294544677553413208230525060017,
        170141183460469171114957017901932292919,
        1073739955,
        52772874395675133622319304831992595651,
        1,
        74307248503811015157096445399825658342,
    );
    lemma_power_step(
        4183660294544677553413208230525060017,
        170141183460469171114957017901932292919,
        2147479911,
        74307248503811015157096445399825658342,
        1,
        60029624171379384777680743828172704255,
    );
    lemma_power_step(
        4183660294544677553413208230525060017,
        170141183460469171114957017901932292919,
        4294959823,
        60029624171379384777680743828172704255,
        0,
        77565719362328258621814623633390317151,
    );
    lemma_power_step(
        4183660294544677553413208230525060017,
        170141183460469171114957017901932292919,
        8589919646,
        77565719362328258621814623633390317151,
        1,
        38302130676573560613410007704024143888,
    );
    lemma_power_step(
        4183660294544677553413208230525060017,
        170141183460469171114957017901932292919,
        17179839293,
        38302130676573560613410007704024143888,
        1,
        43166522666841353449625445068378658539,
    );
    lemma_power_step(
        4183660294544677553413208230525060017,
        170141183460469171114957017901932292919,
        34359678587,
        43166522666841353449625445068378658539,
        0,
        9462849519658772087363449472850725872,
    );
    lemma_power_step(
        4183660294544677553413208230525060017,
        170141183460469171114957017901932292919,
        68719357174,
        9462849519658772087363449472850725872,
        1,
        35782608897293203045739807853716448433,
    );
}

/// A part of the computation of `c^f` modulo `n`, for
/// `n = 170141183460469171114957017901932292919`,
/// `c = 4183660294544677553413208230525060017` and
/// `f = 18446711979164185649`.
proof fn lemma_power_170141183460469171114957017901932292919_f_3()
    ensures
        pow(
            4183660294544677553413208230525060017,
            36028734334305050,
        ) % 170141183460469171114957017901932292919
            == 37293023739567503917177895409683555773,
{
    lemma_power_170141183460469171114957017901932292919_f_2();
    lemma_power_step(
        4183660294544677553413208230525060017,
        170141183460469171114957017901932292919,
        137438714349,
        35782608897293203045739807853716448433,
        0,
        30573433207747308795907408480199560513,
    );
    lemma_power_step(
        4183660294544677553413208230525060017,
        170141183460469171114957017901932292919,
        274877428698,
        30573433207747308795907408480199560513,
        0,
        31278421663205738700825345955569765716,
    );
    lemma_power_step(
        4183660294544677553413208230525060017,
        170141183460469171114957017901932292919,
        549754857396,
        31278421663205738700825345955569765716,
        0,
        82402503660583785829263412634108886191,
    );
    lemma_power_step(
        4183660294544677553413208230525060017,
        170141183460469171114957017901932292919,
        1099509714792,
        82402503660583785829263412634108886191,
        0,
        128154232868143973269163462159636426233,
    );
    lemma_power_step(
        4183660294544677553413208230525060017,
        170141183460469171114957017901932292919,
        2199019429584,
        128154232868143973269163462159636426233,
        0,
        29719348664209676837249251058352664073,
    );
    lemma_power_step(
        4183660294544677553413208230525060017,
        170141183460469171114957017901932292919,
        4398038859168,
        29719348664209676837249251058352664073,
        0,
        126845660396647595376109593721697676889,
    );
    lemma_power_step(
        4183660294544677553413208230525060017,
        170141183460469171114957017901932292919,
        8796077718336,
        126845660396647595376109593721697676889,
        0,
        119887768365004652289568066472009896238,
    );
    lemma_power_step(
        4183660294544677553413208230525060017,
        170141183460469171114957017901932292919,
        17592155436672,
        119887768365004652289568066472009896238,
        0,
        49536382517780241327138484700364363631,
    );
    lemma_power_step(
        4183660294544677553413208230525060017,
        170141183460469171114957017901932292919,
        35184310873344,
        49536382517780241327138484700364363631,
        1,
        115746733428971111746594270623978103864,
    );
    lemma_power_step(
        4183660294544677553413208230525060017,
        170141183460469171114957017901932292919,
        70368621746689,
        115746733428971111746594270623978103864,
        1,
        19815884346101835181779553777850570673,
    );
    lemma_power_step(
        4183660294544677553413208230525060017,
        170141183460469171114957017901932292919,
        140737243493379,
        19815884346101835181779553777850570673,
        0,
        60761210317330406994988430607201003723,
    );
    lemma_power_step(
        4183660294544677553413208230525060017,
        170141183460469171114957017901932292919,
        281474486986758,
        60761210317330406994988430607201003723,
        0,
        158724122556162260015026594270657975255,
    );
    lemma_power_step(
        4183660294544677553413208230525060017,
        170141183460469171114957017901932292919,
        562948973973516,
        158724122556162260015026594270657975255,
        0,
        50624245695684901409071477653356692382,
    );
    lemma_power_step(
        4183660294544677553413208230525060017,
        170141183460469171114957017901932292919,
        1125897947947032,
        50624245695684901409071477653356692382,
        1,
        136212759356464098726034849474447243386,
    );
    lemma_power_step(
        4183660294544677553413208230525060017,
        170141183460469171114957017901932292919,
        2251795895894065,
        136212759356464098726034849474447243386,
        1,
        147397356533835625743651052084639273423,
    );
    lemma_power_step(
        4183660294544677553413208230525060017,
        170141183460469171114957017901932292919,
        4503591791788131,
        147397356533835625743651052084639273423,
        0,
        146906020494696870563828001485729926047,
    );
    lemma_power_step(
        4183660294544677553413208230525060017,
        170141183460469171114957017901932292919,
        9007183583576262,
        146906020494696870563828001485729926047,
        1,
        17106854860584170275075464728726790308,
    );
    lemma_power_step(
        4183660294544677553413208230525060017,
        170141183460469171114957017901932292919,
        18014367167152525,
        17106854860584170275075464728726790308,
        0,
        37293023739567503917177895409683555773,
    );
}

/// A part of the computation of `c^f` modulo `n`, for
/// `n = 170141183460469171114957017901932292919`,
/// `c = 4183660294544677553413208230525060017` and
/// `f = 18446711979164185649`.
proof fn lemma_power_170141183460469171114957017901932292919_f_4()
    ensures
        pow(
            4183660294544677553413208230525060017,
            18446711979164185649,
        ) % 170141183460469171114957017901932292919
            == 1,
{
    lemma_power_170141183460469171114957017901932292919_f_3();
    lemma_power_step(
        4183660294544677553413208230525060017,
        170141183460469171114957017901932292919,
        36028734334305050,
        37293023739567503917177895409683555773,
        0,
        20615607410247632126205342011251559814,
    );
    lemma_power_step(
        4183660294544677553413208230525060017,
        170141183460469171114957017901932292919,
        72057468668610100,
        20615607410247632126205342011251559814,
        0,
        70401278903121946445512902539275274444,
    );
    lemma_power_step(
        4183660294544677553413208230525060017,
        170141183460469171114957017901932292919,
        144114937337220200,
        70401278903121946445512902539275274444,
        0,
        27386548956181526144889617870968550778,
    );
    lemma_power_step(
        4183660294544677553413208230525060017,
        170141183460469171114957017901932292919,
        288229874674440400,
        27386548956181526144889617870968550778,
        1,
        159119607142454902924853736826153110255,
    );
    lemma_power_step(
        4183660294544677553413208230525060017,
        170141183460469171114957017901932292919,
        576459749348880801,
        159119607142454902924853736826153110255,
        1,
        91317437008238196298294614579564215086,
    );
    lemma_power_step(
        4183660294544677553413208230525060017,
        170141183460469171114957017901932292919,
        1152919498697761603,
        91317437008238196298294614579564215086,
        0,
        6838681598400010927831045035393791105,
    );
    lemma_power_step(
        4183660294544677553413208230525060017,
        170141183460469171114957017901932292919,
        2305838997395523206,
        6838681598400010927831045035393791105,
        0,
        169601744435492829794661419131962508431,
    );
    lemma_power_step(
        4183660294544677553413208230525060017,
        170141183460469171114957017901932292919,
        4611677994791046412,
        169601744435492829794661419131962508431,
        0,
        63883787537101478795598221592334745269,
    );
    lemma_power_step(
        4183660294544677553413208230525060017,
        170141183460469171114957017901932292919,
        9223355989582092824,
        63883787537101478795598221592334745269,
        1,
        1,
    );
}

/// `170141183460469171114957017901932292919` is a prime: it is `f * r + 1` with
/// `f = 18446711979164185649` and
/// `r = 9223388084155375382`, and 2 is the witness.
proof fn lemma_prime_170141183460469171114957017901932292919()
    ensures
        is_prime(170141183460469171114957017901932292919),
{
    lemma_prime_18446711979164185649();
    lemma_power_170141183460469171114957017901932292919_r_4();
    lemma_power_170141183460469171114957017901932292919_f_4();
    lemma_pow_multiplies(2, 9223388084155375382, 18446711979164185649);
    lemma_pow_mod_noop(
        pow(2, 9223388084155375382),
        18446711979164185649,
        170141183460469171114957017901932292919,
    );
    assert(9223388084155375382 * 18446711979164185649
        == 170141183460469171114957017901932292919 - 1) by (nonlinear_arith);
    lemma_pocklington(
        170141183460469171114957017901932292919,
        18446711979164185649,
        9223388084155375382,
        2,
        70951678029321585219311397061149735295,
        -1744655304290617800575237811578252201,
    );
}

/// The order of the built-in group is a prime.
pub proof fn lemma_fixed_order_prime()
    ensures
        is_prime(fixed_q()),
{
    lemma_prime_170141183460469171114957017901932292919();
}

/// The modulus of the built-in group is a prime: it is `2 * q + 1`, and 2
/// is the witness, with `2^(p-1)` the square of `2^q`, which is 1.
pub proof fn lemma_fixed_modulus_prime()
    ensures
        is_prime(fixed_p()),
{
    let p = fixed_p() as int;
    lemma_fixed_order_prime();
    lemma_fixed_generator_order();
    let half = pow(2, fixed_q());
    lemma_small_mod(1, fixed_p());
    assert(half % p == 1);
    lemma_pow_adds(2, fixed_q(), fixed_q());
    lemma_mul_mod_noop(half, half, p);
    assert((half % p) * (half % p) == 1);
    assert(fixed_q() + fixed_q() == (fixed_p() - 1) as nat);
    assert(pow(2, (fixed_p() - 1) as nat) % p == 1);
    assert(pow(2, 2) == 4) by {
        reveal_with_fuel(pow, 3);
    }
    lemma_small_mod(4, fixed_p());
    lemma_pocklington(fixed_p(), fixed_q(), 2, 2, 113427455640312780743304678601288195280, -1);
}

} // verus!
