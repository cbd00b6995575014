//! The built-in generator has the order of the built-in group: 2 to the
//! power `q` is 1 modulo `p`.
//!
//! The proof is the computation of that power by squaring and multiplying,
//! one bit of `q` at a time from the highest down, with each value written
//! out. `primality::lemma_power_step` holds each step to the one before.

use crate::feldman::has_order_dividing;
use crate::params::{fixed_g, fixed_p, fixed_q};
use crate::primality::lemma_power_step;
use vstd::arithmetic::div_mod::lemma_small_mod;
use vstd::arithmetic::power::{lemma_pow1, pow};
use vstd::prelude::*;

verus! {

/// A part of the computation of 2 to the power `q` modulo `p`, from the
/// highest bits of `q` down.
proof fn lemma_generator_power_1()
    ensures
        pow(2, 524287) % 340282366920938342229914035803864585839
            == 295584012636052512119267256007852279072,
{
    lemma_pow1(2);
    lemma_power_step(2, 340282366920938342229914035803864585839, 1, 2, 1, 8);
    lemma_power_step(2, 340282366920938342229914035803864585839, 3, 8, 1, 128);
    lemma_power_step(2, 340282366920938342229914035803864585839, 7, 128, 1, 32768);
    lemma_power_step(2, 340282366920938342229914035803864585839, 15, 32768, 1, 2147483648);
    lemma_power_step(
        2,
        340282366920938342229914035803864585839,
        31,
        2147483648,
        1,
        9223372036854775808,
    );
    lemma_power_step(
        2,
        340282366920938342229914035803864585839,
        63,
        9223372036854775808,
        1,
        170141183460469231731687303715884105728,
    );
    lemma_power_step(
        2,
        340282366920938342229914035803864585839,
        127,
        170141183460469231731687303715884105728,
        1,
        43577732629036941493893586760168950296,
    );
    lemma_power_step(
        2,
        340282366920938342229914035803864585839,
        255,
        43577732629036941493893586760168950296,
        1,
        783410781265305624276583167953806134,
    );
    lemma_power_step(
        2,
        340282366920938342229914035803864585839,
        511,
        783410781265305624276583167953806134,
        1,
        122815721548719751981459507516933897906,
    );
    lemma_power_step(
        2,
        340282366920938342229914035803864585839,
        1023,
        122815721548719751981459507516933897906,
        1,
        15520310721751551841684328656574464546,
    );
    lemma_power_step(
        2,
        340282366920938342229914035803864585839,
        2047,
        15520310721751551841684328656574464546,
        1,
        36504103422749992160541162305196471907,
    );
    lemma_power_step(
        2,
        340282366920938342229914035803864585839,
        4095,
        36504103422749992160541162305196471907,
        1,
        31771337085906680219035495304657513595,
    );
    lemma_power_step(
        2,
        340282366920938342229914035803864585839,
        8191,
        31771337085906680219035495304657513595,
        1,
        132543208794373666428218723522658155471,
    );
    lemma_power_step(
        2,
        340282366920938342229914035803864585839,
        16383,
        132543208794373666428218723522658155471,
        1,
        141364650037366640993141415599903324473,
    );
    lemma_power_step(
        2,
        340282366920938342229914035803864585839,
        32767,
        141364650037366640993141415599903324473,
        1,
        318094896834896928041241918359429316685,
    );
    lemma_power_step(
        2,
        340282366920938342229914035803864585839,
        65535,
        318094896834896928041241918359429316685,
        1,
        23019369871267827291184824659249146176,
    );
    lemma_power_step(
        2,
        340282366920938342229914035803864585839,
        131071,
        23019369871267827291184824659249146176,
        1,
        30968036082037446684300656803775168218,
    );
    lemma_power_step(
        2,
        340282366920938342229914035803864585839,
        262143,
        30968036082037446684300656803775168218,
        1,
        295584012636052512119267256007852279072,
    );
}

/// A part of the computation of 2 to the power `q` modulo `p`, from the
/// highest bits of `q` down.
proof fn lemma_generator_power_2()
    ensures
        pow(2, 137438953471) % 340282366920938342229914035803864585839
            == 179392205973256472709516898080666292938,
{
    lemma_generator_power_1();
    lemma_power_step(
        2,
        340282366920938342229914035803864585839,
        524287,
        295584012636052512119267256007852279072,
        1,
        177945896210370255534783855642395037160,
    );
    lemma_power_step(
        2,
        340282366920938342229914035803864585839,
        1048575,
        177945896210370255534783855642395037160,
        1,
        193528642206367687602715993101045033131,
    );
    lemma_power_step(
        2,
        340282366920938342229914035803864585839,
        2097151,
        193528642206367687602715993101045033131,
        1,
        174670086043719593299747147754349719359,
    );
    lemma_power_step(
        2,
        340282366920938342229914035803864585839,
        4194303,
        174670086043719593299747147754349719359,
        1,
        120520516695713116576014376689113382657,
    );
    lemma_power_step(
        2,
        340282366920938342229914035803864585839,
        8388607,
        120520516695713116576014376689113382657,
        1,
        242806000026231349599015675033082396991,
    );
    lemma_power_step(
        2,
        340282366920938342229914035803864585839,
        16777215,
        242806000026231349599015675033082396991,
        1,
        25746049589969079852788070831446478219,
    );
    lemma_power_step(
        2,
        340282366920938342229914035803864585839,
        33554431,
        25746049589969079852788070831446478219,
        1,
        304918382869536129500166636949425477218,
    );
    lemma_power_step(
        2,
        340282366920938342229914035803864585839,
        67108863,
        304918382869536129500166636949425477218,
        1,
        235034072414589108260899806450448255732,
    );
    lemma_power_step(
        2,
        340282366920938342229914035803864585839,
        134217727,
        235034072414589108260899806450448255732,
        1,
        218455926351318219774356479360884692802,
    );
    lemma_power_step(
        2,
        340282366920938342229914035803864585839,
        268435455,
        218455926351318219774356479360884692802,
        1,
        218789889006973562571584934891640028223,
    );
    lemma_power_step(
        2,
        340282366920938342229914035803864585839,
        536870911,
        218789889006973562571584934891640028223,
        1,
        104189895901904449533712165787882743298,
    );
    lemma_power_step(
        2,
        340282366920938342229914035803864585839,
        1073741823,
        104189895901904449533712165787882743298,
        1,
        253316008852295058710725530843156283662,
    );
    lemma_power_step(
        2,
        340282366920938342229914035803864585839,
        2147483647,
        253316008852295058710725530843156283662,
        1,
        140548820254141397521194564921350836417,
    );
    lemma_power_step(
        2,
        340282366920938342229914035803864585839,
        4294967295,
        140548820254141397521194564921350836417,
        1,
        109655045151076447614804788087316748920,
    );
    lemma_power_step(
        2,
        340282366920938342229914035803864585839,
        8589934591,
        109655045151076447614804788087316748920,
        1,
        156251032884938592380235403499618254558,
    );
    lemma_power_step(
        2,
        340282366920938342229914035803864585839,
        17179869183,
        156251032884938592380235403499618254558,
        1,
        274357610558117580700745604191824594371,
    );
    lemma_power_step(
        2,
        340282366920938342229914035803864585839,
        34359738367,
        274357610558117580700745604191824594371,
        1,
        174863634443863370623355475304542233763,
    );
    lemma_power_step(
        2,
        340282366920938342229914035803864585839,
        68719476735,
        174863634443863370623355475304542233763,
        1,
        179392205973256472709516898080666292938,
    );
}

/// A part of the computation of 2 to the power `q` modulo `p`, from the
/// highest bits of `q` down.
proof fn lemma_generator_power_3()
    ensures
        pow(2, 36028797018963955) % 340282366920938342229914035803864585839
            == 269560150477167889742684717872218627319,
{
    lemma_generator_power_2();
    lemma_power_step(
        2,
        340282366920938342229914035803864585839,
        137438953471,
        179392205973256472709516898080666292938,
        1,
        79316356878076693571857280074166417052,
    );
    lemma_power_step(
        2,
        340282366920938342229914035803864585839,
        274877906943,
        79316356878076693571857280074166417052,
        1,
        127538426641130250187703301345513006130,
    );
    lemma_power_step(
        2,
        340282366920938342229914035803864585839,
        549755813887,
        127538426641130250187703301345513006130,
        1,
        244134537672693575750657630528359841484,
    );
    lemma_power_step(
        2,
        340282366920938342229914035803864585839,
        1099511627775,
        244134537672693575750657630528359841484,
        1,
        68367425502291937525147731185788060377,
    );
    lemma_power_step(
        2,
        340282366920938342229914035803864585839,
        2199023255551,
        68367425502291937525147731185788060377,
        1,
        97651281105190273109516252061381109409,
    );
    lemma_power_step(
        2,
        340282366920938342229914035803864585839,
        4398046511103,
        97651281105190273109516252061381109409,
        1,
        285047037221963611618198195989016196389,
    );
    lemma_power_step(
        2,
        340282366920938342229914035803864585839,
        8796093022207,
        285047037221963611618198195989016196389,
        1,
        103300461845593084522831444679834909385,
    );
    lemma_power_step(
        2,
        340282366920938342229914035803864585839,
        17592186044415,
        103300461845593084522831444679834909385,
        1,
        85301793310925598058188352603565367569,
    );
    lemma_power_step(
        2,
        340282366920938342229914035803864585839,
        35184372088831,
        85301793310925598058188352603565367569,
        1,
        15187034678290665473305996034497314895,
    );
    lemma_power_step(
        2,
        340282366920938342229914035803864585839,
        70368744177663,
        15187034678290665473305996034497314895,
        1,
        267437322302114648352970914801321884550,
    );
    lemma_power_step(
        2,
        340282366920938342229914035803864585839,
        140737488355327,
        267437322302114648352970914801321884550,
        1,
        165884909050502648324384457716375591455,
    );
    lemma_power_step(
        2,
        340282366920938342229914035803864585839,
        281474976710655,
        165884909050502648324384457716375591455,
        1,
        320005494761827671513709363293936461399,
    );
    lemma_power_step(
        2,
        340282366920938342229914035803864585839,
        562949953421311,
        320005494761827671513709363293936461399,
        1,
        187314756851089401179185902156340739904,
    );
    lemma_power_step(
        2,
        340282366920938342229914035803864585839,
        1125899906842623,
        187314756851089401179185902156340739904,
        1,
        138638988148136564724780407015638144503,
    );
    lemma_power_step(
        2,
        340282366920938342229914035803864585839,
        2251799813685247,
        138638988148136564724780407015638144503,
        0,
        10152995896180434454146527064570569754,
    );
    lemma_power_step(
        2,
        340282366920938342229914035803864585839,
        4503599627370494,
        10152995896180434454146527064570569754,
        0,
        270628873553250197099322833507153381917,
    );
    lemma_power_step(
        2,
        340282366920938342229914035803864585839,
        9007199254740988,
        270628873553250197099322833507153381917,
        1,
        299883503260411562165656269791592939648,
    );
    lemma_power_step(
        2,
        340282366920938342229914035803864585839,
        18014398509481977,
        299883503260411562165656269791592939648,
        1,
        269560150477167889742684717872218627319,
    );
}

/// A part of the computation of 2 to the power `q` modulo `p`, from the
/// highest bits of `q` down.
proof fn lemma_generator_power_4()
    ensures
        pow(2, 9444732965739287062487) % 340282366920938342229914035803864585839
            == 240174702721924816759501204810649177003,
{
    lemma_generator_power_3();
    lemma_power_step(
        2,
        340282366920938342229914035803864585839,
        36028797018963955,
        269560150477167889742684717872218627319,
        0,
        9151984150194364100998886513132813808,
    );
    lemma_power_step(
        2,
        340282366920938342229914035803864585839,
        72057594037927910,
        9151984150194364100998886513132813808,
        0,
        7680051701429580084014651258708164590,
    );
    lemma_power_step(
        2,
        340282366920938342229914035803864585839,
        144115188075855820,
        7680051701429580084014651258708164590,
        1,
        62390904977182263972314443463616781346,
    );
    lemma_power_step(
        2,
        340282366920938342229914035803864585839,
        288230376151711641,
        62390904977182263972314443463616781346,
        0,
        136882603657831823034227161079922362524,
    );
    lemma_power_step(
        2,
        340282366920938342229914035803864585839,
        576460752303423282,
        136882603657831823034227161079922362524,
        1,
        152634466243359551365595655348517482220,
    );
    lemma_power_step(
        2,
        340282366920938342229914035803864585839,
        1152921504606846565,
        152634466243359551365595655348517482220,
        0,
        221127079059609914615912378343330457858,
    );
    lemma_power_step(
        2,
        340282366920938342229914035803864585839,
        2305843009213693130,
        221127079059609914615912378343330457858,
        0,
        207832322640183496142449126684800067388,
    );
    lemma_power_step(
        2,
        340282366920938342229914035803864585839,
        4611686018427386260,
        207832322640183496142449126684800067388,
        1,
        298728985108902087603165285754304195211,
    );
    lemma_power_step(
        2,
        340282366920938342229914035803864585839,
        9223372036854772521,
        298728985108902087603165285754304195211,
        1,
        136674596392485638691752124290563353561,
    );
    lemma_power_step(
        2,
        340282366920938342229914035803864585839,
        18446744073709545043,
        136674596392485638691752124290563353561,
        1,
        159216211040171979886474097356420880604,
    );
    lemma_power_step(
        2,
        340282366920938342229914035803864585839,
        36893488147419090087,
        159216211040171979886474097356420880604,
        1,
        153507337066533144888431801836445791920,
    );
    lemma_power_step(
        2,
        340282366920938342229914035803864585839,
        73786976294838180175,
        153507337066533144888431801836445791920,
        1,
        267166756985280538962603314978074128747,
    );
    lemma_power_step(
        2,
        340282366920938342229914035803864585839,
        147573952589676360351,
        267166756985280538962603314978074128747,
        0,
        2406603025223276068872254777973495108,
    );
    lemma_power_step(
        2,
        340282366920938342229914035803864585839,
        295147905179352720702,
        2406603025223276068872254777973495108,
        1,
        338437232702354955576136668123699127470,
    );
    lemma_power_step(
        2,
        340282366920938342229914035803864585839,
        590295810358705441405,
        338437232702354955576136668123699127470,
        0,
        57638043808344445581599544120105948531,
    );
    lemma_power_step(
        2,
        340282366920938342229914035803864585839,
        1180591620717410882810,
        57638043808344445581599544120105948531,
        1,
        209150953606456275576423659898281475812,
    );
    lemma_power_step(
        2,
        340282366920938342229914035803864585839,
        2361183241434821765621,
        209150953606456275576423659898281475812,
        1,
        166868249026829200777581981735127816994,
    );
    lemma_power_step(
        2,
        340282366920938342229914035803864585839,
        4722366482869643531243,
        166868249026829200777581981735127816994,
        1,
        240174702721924816759501204810649177003,
    );
}

/// A part of the computation of 2 to the power `q` modulo `p`, from the
/// highest bits of `q` down.
proof fn lemma_generator_power_5()
    ensures
        pow(2, 2475880078570759667708727908) % 340282366920938342229914035803864585839
            == 167522676201698447105322953091239057539,
{
    lemma_generator_power_4();
    lemma_power_step(
        2,
        340282366920938342229914035803864585839,
        9444732965739287062487,
        240174702721924816759501204810649177003,
        1,
        76029109954254795204896293073861503252,
    );
    lemma_power_step(
        2,
        340282366920938342229914035803864585839,
        18889465931478574124975,
        76029109954254795204896293073861503252,
        0,
        290914874883912001312232652070414007428,
    );
    lemma_power_step(
        2,
        340282366920938342229914035803864585839,
        37778931862957148249950,
        290914874883912001312232652070414007428,
        0,
        279171831920365427455449285291194410915,
    );
    lemma_power_step(
        2,
        340282366920938342229914035803864585839,
        75557863725914296499900,
        279171831920365427455449285291194410915,
        0,
        226187916296114487210346240640337544792,
    );
    lemma_power_step(
        2,
        340282366920938342229914035803864585839,
        151115727451828592999800,
        226187916296114487210346240640337544792,
        0,
        78855676542874209005414380159662496309,
    );
    lemma_power_step(
        2,
        340282366920938342229914035803864585839,
        302231454903657185999600,
        78855676542874209005414380159662496309,
        1,
        269824379814477047736580588706619766683,
    );
    lemma_power_step(
        2,
        340282366920938342229914035803864585839,
        604462909807314371999201,
        269824379814477047736580588706619766683,
        0,
        166466779431730082543552372895340619438,
    );
    lemma_power_step(
        2,
        340282366920938342229914035803864585839,
        1208925819614628743998402,
        166466779431730082543552372895340619438,
        0,
        848118635407883265846412145173901657,
    );
    lemma_power_step(
        2,
        340282366920938342229914035803864585839,
        2417851639229257487996804,
        848118635407883265846412145173901657,
        1,
        291981642468313346778388978267383316546,
    );
    lemma_power_step(
        2,
        340282366920938342229914035803864585839,
        4835703278458514975993609,
        291981642468313346778388978267383316546,
        0,
        303215320338977469623882543889425528777,
    );
    lemma_power_step(
        2,
        340282366920938342229914035803864585839,
        9671406556917029951987218,
        303215320338977469623882543889425528777,
        0,
        250373142665192591788548951838237261937,
    );
    lemma_power_step(
        2,
        340282366920938342229914035803864585839,
        19342813113834059903974436,
        250373142665192591788548951838237261937,
        1,
        66848278512071448134893162705981541211,
    );
    lemma_power_step(
        2,
        340282366920938342229914035803864585839,
        38685626227668119807948873,
        66848278512071448134893162705981541211,
        1,
        325496638716056018975437468476436366472,
    );
    lemma_power_step(
        2,
        340282366920938342229914035803864585839,
        77371252455336239615897747,
        325496638716056018975437468476436366472,
        0,
        165813510009569394886366712355329135434,
    );
    lemma_power_step(
        2,
        340282366920938342229914035803864585839,
        154742504910672479231795494,
        165813510009569394886366712355329135434,
        0,
        108655454048911650959862041637116101734,
    );
    lemma_power_step(
        2,
        340282366920938342229914035803864585839,
        309485009821344958463590988,
        108655454048911650959862041637116101734,
        1,
        178457002342157960112440375849646875913,
    );
    lemma_power_step(
        2,
        340282366920938342229914035803864585839,
        618970019642689916927181977,
        178457002342157960112440375849646875913,
        0,
        313158658755276945091098264810362100355,
    );
    lemma_power_step(
        2,
        340282366920938342229914035803864585839,
        1237940039285379833854363954,
        313158658755276945091098264810362100355,
        0,
        167522676201698447105322953091239057539,
    );
}

/// A part of the computation of 2 to the power `q` modulo `p`, from the
/// highest bits of `q` down.
proof fn lemma_generator_power_6()
    ensures
        pow(2, 649037107316853222331836768729905) % 340282366920938342229914035803864585839
            == 138413950682919416635379842350655351809,
{
    lemma_generator_power_5();
    lemma_power_step(
        2,
        340282366920938342229914035803864585839,
        2475880078570759667708727908,
        167522676201698447105322953091239057539,
        0,
        315167193008749689614493310916865111702,
    );
    lemma_power_step(
        2,
        340282366920938342229914035803864585839,
        4951760157141519335417455816,
        315167193008749689614493310916865111702,
        0,
        207167014489313042262174060980635732564,
    );
    lemma_power_step(
        2,
        340282366920938342229914035803864585839,
        9903520314283038670834911632,
        207167014489313042262174060980635732564,
        0,
        116465877429344159595975755749172535071,
    );
    lemma_power_step(
        2,
        340282366920938342229914035803864585839,
        19807040628566077341669823264,
        116465877429344159595975755749172535071,
        0,
        72570574088020948957507246017166490091,
    );
    lemma_power_step(
        2,
        340282366920938342229914035803864585839,
        39614081257132154683339646528,
        72570574088020948957507246017166490091,
        1,
        192818475590310068931090937863657725165,
    );
    lemma_power_step(
        2,
        340282366920938342229914035803864585839,
        79228162514264309366679293057,
        192818475590310068931090937863657725165,
        1,
        327536225648948948427691961546064043491,
    );
    lemma_power_step(
        2,
        340282366920938342229914035803864585839,
        158456325028528618733358586115,
        327536225648948948427691961546064043491,
        1,
        293904334721663594177256667480914722595,
    );
    lemma_power_step(
        2,
        340282366920938342229914035803864585839,
        316912650057057237466717172231,
        293904334721663594177256667480914722595,
        0,
        77693332077316454066410872034402689497,
    );
    lemma_power_step(
        2,
        340282366920938342229914035803864585839,
        633825300114114474933434344462,
        77693332077316454066410872034402689497,
        1,
        334025157965219668569159742652789949433,
    );
    lemma_power_step(
        2,
        340282366920938342229914035803864585839,
        1267650600228228949866868688925,
        334025157965219668569159742652789949433,
        1,
        39575753479896083107762863785820792961,
    );
    lemma_power_step(
        2,
        340282366920938342229914035803864585839,
        2535301200456457899733737377851,
        39575753479896083107762863785820792961,
        0,
        15638281388413176888009564906983270697,
    );
    lemma_power_step(
        2,
        340282366920938342229914035803864585839,
        5070602400912915799467474755702,
        15638281388413176888009564906983270697,
        0,
        152857877138854048963771806890183274467,
    );
    lemma_power_step(
        2,
        340282366920938342229914035803864585839,
        10141204801825831598934949511404,
        152857877138854048963771806890183274467,
        1,
        194631026675026096803429402104007129350,
    );
    lemma_power_step(
        2,
        340282366920938342229914035803864585839,
        20282409603651663197869899022809,
        194631026675026096803429402104007129350,
        1,
        214850033624076045010712898649642703035,
    );
    lemma_power_step(
        2,
        340282366920938342229914035803864585839,
        40564819207303326395739798045619,
        214850033624076045010712898649642703035,
        0,
        153487734659346915548678956019266929464,
    );
    lemma_power_step(
        2,
        340282366920938342229914035803864585839,
        81129638414606652791479596091238,
        153487734659346915548678956019266929464,
        0,
        140481577554171097148760587050385897774,
    );
    lemma_power_step(
        2,
        340282366920938342229914035803864585839,
        162259276829213305582959192182476,
        140481577554171097148760587050385897774,
        0,
        67273381078467613244185459932334618373,
    );
    lemma_power_step(
        2,
        340282366920938342229914035803864585839,
        324518553658426611165918384364952,
        67273381078467613244185459932334618373,
        1,
        138413950682919416635379842350655351809,
    );
}

/// A part of the computation of 2 to the power `q` modulo `p`, from the
/// highest bits of `q` down.
proof fn lemma_generator_power_7()
    ensures
        pow(2, 170141183460469171114957017901932292919) % 340282366920938342229914035803864585839
            == 1,
{
    lemma_generator_power_6();
    lemma_power_step(
        2,
        340282366920938342229914035803864585839,
        649037107316853222331836768729905,
        138413950682919416635379842350655351809,
        0,
        49266025891914505035425795558680593266,
    );
    lemma_power_step(
        2,
        340282366920938342229914035803864585839,
        1298074214633706444663673537459810,
        49266025891914505035425795558680593266,
        1,
        289575572916726995593264157226697036897,
    );
    lemma_power_step(
        2,
        340282366920938342229914035803864585839,
        2596148429267412889327347074919621,
        289575572916726995593264157226697036897,
        0,
        316700449198125250210707690549538854829,
    );
    lemma_power_step(
        2,
        340282366920938342229914035803864585839,
        5192296858534825778654694149839242,
        316700449198125250210707690549538854829,
        0,
        217085512079847725303188690167132403481,
    );
    lemma_power_step(
        2,
        340282366920938342229914035803864585839,
        10384593717069651557309388299678484,
        217085512079847725303188690167132403481,
        1,
        280633134561122709560228126157677557745,
    );
    lemma_power_step(
        2,
        340282366920938342229914035803864585839,
        20769187434139303114618776599356969,
        280633134561122709560228126157677557745,
        0,
        336549876493670261958811354780485344040,
    );
    lemma_power_step(
        2,
        340282366920938342229914035803864585839,
        41538374868278606229237553198713938,
        336549876493670261958811354780485344040,
        1,
        217465185599352968362138966585043095411,
    );
    lemma_power_step(
        2,
        340282366920938342229914035803864585839,
        83076749736557212458475106397427877,
        217465185599352968362138966585043095411,
        0,
        28360294945082627911836059602200184045,
    );
    lemma_power_step(
        2,
        340282366920938342229914035803864585839,
        166153499473114424916950212794855754,
        28360294945082627911836059602200184045,
        1,
        3912565698788218277446492550451433380,
    );
    lemma_power_step(
        2,
        340282366920938342229914035803864585839,
        332306998946228849833900425589711509,
        3912565698788218277446492550451433380,
        1,
        50891472340362579891984913603868047173,
    );
    lemma_power_step(
        2,
        340282366920938342229914035803864585839,
        664613997892457699667800851179423019,
        50891472340362579891984913603868047173,
        0,
        301774574362195617173105967911648279286,
    );
    lemma_power_step(
        2,
        340282366920938342229914035803864585839,
        1329227995784915399335601702358846038,
        301774574362195617173105967911648279286,
        0,
        216584938790696087359930891687619591289,
    );
    lemma_power_step(
        2,
        340282366920938342229914035803864585839,
        2658455991569830798671203404717692076,
        216584938790696087359930891687619591289,
        1,
        316941617585233452769574197851843807298,
    );
    lemma_power_step(
        2,
        340282366920938342229914035803864585839,
        5316911983139661597342406809435384153,
        316941617585233452769574197851843807298,
        1,
        46606335378780424457018645931998536118,
    );
    lemma_power_step(
        2,
        340282366920938342229914035803864585839,
        10633823966279323194684813618870768307,
        46606335378780424457018645931998536118,
        0,
        303367517993028750426604521860223607829,
    );
    lemma_power_step(
        2,
        340282366920938342229914035803864585839,
        21267647932558646389369627237741536614,
        303367517993028750426604521860223607829,
        1,
        185815343542322938757466037029059615070,
    );
    lemma_power_step(
        2,
        340282366920938342229914035803864585839,
        42535295865117292778739254475483073229,
        185815343542322938757466037029059615070,
        1,
        225418353018555206231572029116180931717,
    );
    lemma_power_step(
        2,
        340282366920938342229914035803864585839,
        85070591730234585557478508950966146459,
        225418353018555206231572029116180931717,
        1,
        1,
    );
}

/// The built-in generator meets what the laws of the commitments ask of
/// it: `g^q` is 1 modulo `p`, and `g` is not.
pub proof fn lemma_fixed_generator_order()
    ensures
        has_order_dividing(fixed_g(), fixed_q(), fixed_p()),
        (fixed_g() as int) % (fixed_p() as int) != 1int % (fixed_p() as int),
        1 < fixed_g() < fixed_p(),
{
    lemma_generator_power_7();
    lemma_small_mod(1, fixed_p());
    lemma_small_mod(2, fixed_p());
}

} // verus!
