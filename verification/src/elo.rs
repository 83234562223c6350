//! The Elo rating update.
//!
//! A match between a player rated `a` and one rated `b` moves `32 * (s - e)`
//! points from the second player to the first, rounded to the nearest whole
//! number: `s` is the first player's result (one, a half or nothing) and
//! `e = 1 / (1 + 10^((b - a) / 400))` the result that was expected of them.
use vstd::arithmetic::power::*;
use vstd::prelude::*;

verus! {

/// The result of a match, as the first player sees it.
#[derive(Clone, Copy, PartialEq, Eq, Structural, Debug)]
pub enum Outcome {
    Win,
    Draw,
    Loss,
}

/// The result that a final score stands for.
pub open spec fn outcome_of(mine: int, theirs: int) -> Outcome {
    if mine > theirs {
        Outcome::Win
    } else if mine < theirs {
        Outcome::Loss
    } else {
        Outcome::Draw
    }
}

pub fn outcome(mine: u32, theirs: u32) -> (r: Outcome)
    ensures
        r == outcome_of(mine as int, theirs as int),
{
    if mine > theirs {
        Outcome::Win
    } else if mine < theirs {
        Outcome::Loss
    } else {
        Outcome::Draw
    }
}

/// Thirty-two times the result: the points won if nothing was expected.
pub open spec fn result_points(o: Outcome) -> int {
    match o {
        Outcome::Win => 32,
        Outcome::Draw => 16,
        Outcome::Loss => 0,
    }
}

/// Thirty-two times the expected result of a player whose opponent is rated
/// `d` points higher, rounded to the nearest whole number.
///
/// [`expected_points_are_rounded`] ties this table to the formula.
pub open spec fn expected_points(d: int) -> int {
    if d > 719 {
        0
    } else if d > 523 {
        1
    } else if d > 428 {
        2
    } else if d > 364 {
        3
    } else if d > 314 {
        4
    } else if d > 273 {
        5
    } else if d > 237 {
        6
    } else if d > 205 {
        7
    } else if d > 176 {
        8
    } else if d > 149 {
        9
    } else if d > 124 {
        10
    } else if d > 100 {
        11
    } else if d > 77 {
        12
    } else if d > 54 {
        13
    } else if d > 32 {
        14
    } else if d > 10 {
        15
    } else if d > -11 {
        16
    } else if d > -33 {
        17
    } else if d > -55 {
        18
    } else if d > -78 {
        19
    } else if d > -101 {
        20
    } else if d > -125 {
        21
    } else if d > -150 {
        22
    } else if d > -177 {
        23
    } else if d > -206 {
        24
    } else if d > -238 {
        25
    } else if d > -274 {
        26
    } else if d > -315 {
        27
    } else if d > -365 {
        28
    } else if d > -429 {
        29
    } else if d > -524 {
        30
    } else if d > -720 {
        31
    } else {
        32
    }
}

pub open spec fn saturate_i32(v: int) -> int {
    if v > i32::MAX {
        i32::MAX as int
    } else if v < i32::MIN {
        i32::MIN as int
    } else {
        v
    }
}

/// What the match moves from the second player to the first.
pub open spec fn elo_delta(a: int, b: int, o: Outcome) -> int {
    result_points(o) - expected_points(b - a)
}

/// The two ratings after the match.
pub open spec fn elo_of(a: int, b: int, o: Outcome) -> (int, int) {
    (saturate_i32(a + elo_delta(a, b, o)), saturate_i32(b - elo_delta(a, b, o)))
}

fn expected(d: i64) -> (r: i64)
    ensures
        r == expected_points(d as int),
{
    if d > 719 {
        0
    } else if d > 523 {
        1
    } else if d > 428 {
        2
    } else if d > 364 {
        3
    } else if d > 314 {
        4
    } else if d > 273 {
        5
    } else if d > 237 {
        6
    } else if d > 205 {
        7
    } else if d > 176 {
        8
    } else if d > 149 {
        9
    } else if d > 124 {
        10
    } else if d > 100 {
        11
    } else if d > 77 {
        12
    } else if d > 54 {
        13
    } else if d > 32 {
        14
    } else if d > 10 {
        15
    } else if d > -11 {
        16
    } else if d > -33 {
        17
    } else if d > -55 {
        18
    } else if d > -78 {
        19
    } else if d > -101 {
        20
    } else if d > -125 {
        21
    } else if d > -150 {
        22
    } else if d > -177 {
        23
    } else if d > -206 {
        24
    } else if d > -238 {
        25
    } else if d > -274 {
        26
    } else if d > -315 {
        27
    } else if d > -365 {
        28
    } else if d > -429 {
        29
    } else if d > -524 {
        30
    } else if d > -720 {
        31
    } else {
        32
    }
}

fn saturate(v: i64) -> (r: i32)
    ensures
        r == saturate_i32(v as int),
{
    if v > i32::MAX as i64 {
        i32::MAX
    } else if v < i32::MIN as i64 {
        i32::MIN
    } else {
        v as i32
    }
}

/// Pairwise update of two ratings after a match; `outcome` is the first
/// player's.
pub fn elo(a: i32, b: i32, outcome: Outcome) -> (r: (i32, i32))
    requires
        i32::MIN <= b - a <= i32::MAX,
    ensures
        (r.0 as int, r.1 as int) == elo_of(a as int, b as int, outcome),
{
    let points: i64 = match outcome {
        Outcome::Win => 32,
        Outcome::Draw => 16,
        Outcome::Loss => 0,
    };
    let delta: i64 = points - expected(b as i64 - a as i64);
    (saturate(a as i64 + delta), saturate(b as i64 - delta))
}

// ---------------------------------------------------------------------------
// The table and the formula
// ---------------------------------------------------------------------------

/// Whether `10^(d / 400) < num / den`, in whole numbers.
pub open spec fn ten_power_below(d: int, num: int, den: int) -> bool {
    if d >= 0 {
        pow(10, d as nat) * pow(den, 400) < pow(num, 400)
    } else {
        pow(den, 400) < pow(num, 400) * pow(10, (-d) as nat)
    }
}

/// Whether `n` is the whole number nearest to `32 / (1 + 10^(d / 400))`, that
/// is `2n - 1 < 64 / (1 + 10^(d / 400)) < 2n + 1`.
pub open spec fn rounds_expected(d: int, n: int) -> bool {
    &&& 0 <= n <= 32
    &&& n > 0 ==> ten_power_below(d, 65 - 2 * n, 2 * n - 1)
    &&& n < 32 ==> ten_power_below(-d, 2 * n + 1, 63 - 2 * n)
}

proof fn lemma_pow_base(a: int, b: int, e: nat)
    requires
        0 <= a <= b,
    ensures
        0 <= pow(a, e) <= pow(b, e),
        a < b && e > 0 ==> pow(a, e) < pow(b, e),
    decreases e,
{
    reveal(pow);
    if e > 0 {
        lemma_pow_base(a, b, (e - 1) as nat);
        let x = pow(a, (e - 1) as nat);
        let y = pow(b, (e - 1) as nat);
        assert(0 <= a * x <= b * y) by (nonlinear_arith)
            requires
                0 <= a <= b,
                0 <= x <= y,
        ;
        if a < b {
            lemma_pow_positive(b, (e - 1) as nat);
            assert(a * x < b * y) by (nonlinear_arith)
                requires
                    0 <= a < b,
                    0 <= x <= y,
                    0 < y,
            ;
        }
    }
}

/// `10^p * v`.
spec fn tens(v: int, p: nat) -> int
    decreases p,
{
    if p == 0 {
        v
    } else {
        10 * tens(v, (p - 1) as nat)
    }
}

proof fn lemma_tens(v: int, p: nat)
    ensures
        tens(v, p) == pow(10, p) * v,
    decreases p,
{
    reveal(pow);
    if p > 0 {
        lemma_tens(v, (p - 1) as nat);
        let t = pow(10, (p - 1) as nat);
        assert(10 * (t * v) == (10 * t) * v) by (nonlinear_arith);
    }
}

/// `(10^p * y^q)^e` with its exponents multiplied out.
proof fn lemma_product_power(p: nat, y: int, q: nat, e: nat)
    ensures
        pow(pow(10, p) * pow(y, q), e) == pow(10, p * e) * pow(y, q * e),
{
    lemma_pow_distributes(pow(10, p), pow(y, q), e);
    lemma_pow_multiplies(10, p, e);
    lemma_pow_multiplies(y, q, e);
}

/// A lower bound on `x / y` with the exponent `q` gives one with 400.
proof fn lemma_lift_below(x: int, y: int, f: nat, p: nat, q: nat)
    requires
        x > 0,
        y > 0,
        q > 0,
        pow(10, p) * pow(y, q) < pow(x, q),
        f * q <= 400 * p,
    ensures
        pow(10, f) * pow(y, 400) < pow(x, 400),
{
    let low = pow(10, p) * pow(y, q);
    let target = pow(10, f) * pow(y, 400);
    lemma_pow_positive(10, p);
    lemma_pow_positive(y, q);
    lemma_pow_positive(10, f);
    lemma_pow_positive(y, 400);
    assert(0 <= low) by (nonlinear_arith)
        requires
            low == pow(10, p) * pow(y, q),
            0 < pow(10, p),
            0 < pow(y, q),
    ;
    lemma_pow_base(low, pow(x, q), 400);
    lemma_product_power(p, y, q, 400);
    lemma_pow_multiplies(x, q, 400);
    lemma_pow_multiplies(x, 400, q);
    lemma_product_power(f, y, 400, q);
    assert(400 * q == q * 400);
    lemma_pow_increases(10, f * q, p * 400);
    let u = pow(10, f * q);
    let v = pow(10, p * 400);
    let w = pow(y, q * 400);
    lemma_pow_positive(y, q * 400);
    assert(u * w <= v * w) by (nonlinear_arith)
        requires
            u <= v,
            0 < w,
    ;
    assert(pow(target, q) < pow(pow(x, 400), q));
    if target >= pow(x, 400) {
        lemma_pow_positive(x, 400);
        lemma_pow_base(pow(x, 400), target, q);
    }
}

/// An upper bound on `x / y` with the exponent `q` gives one with 400.
proof fn lemma_lift_above(x: int, y: int, g: nat, p: nat, q: nat)
    requires
        x > 0,
        y > 0,
        q > 0,
        pow(x, q) < pow(10, p) * pow(y, q),
        400 * p <= g * q,
    ensures
        pow(x, 400) < pow(y, 400) * pow(10, g),
{
    let high = pow(10, p) * pow(y, q);
    let target = pow(10, g) * pow(y, 400);
    lemma_pow_positive(x, q);
    lemma_pow_positive(10, g);
    lemma_pow_positive(y, 400);
    lemma_pow_base(pow(x, q), high, 400);
    lemma_product_power(p, y, q, 400);
    lemma_pow_multiplies(x, q, 400);
    lemma_pow_multiplies(x, 400, q);
    lemma_product_power(g, y, 400, q);
    assert(400 * q == q * 400);
    lemma_pow_increases(10, p * 400, g * q);
    let u = pow(10, p * 400);
    let v = pow(10, g * q);
    let w = pow(y, q * 400);
    lemma_pow_positive(y, q * 400);
    assert(u * w <= v * w) by (nonlinear_arith)
        requires
            u <= v,
            0 < w,
    ;
    assert(pow(pow(x, 400), q) < pow(target, q));
    assert(target >= 0) by (nonlinear_arith)
        requires
            target == pow(10, g) * pow(y, 400),
            0 < pow(10, g),
            0 < pow(y, 400),
    ;
    if target <= pow(x, 400) {
        lemma_pow_base(target, pow(x, 400), q);
    }
    assert(target == pow(y, 400) * pow(10, g)) by (nonlinear_arith)
        requires
            target == pow(10, g) * pow(y, 400),
    ;
}

/// `f` is the largest whole number with `10^(f / 400) < x / y`.
spec fn threshold(x: int, y: int, f: int) -> bool {
    ten_power_below(f, x, y) && ten_power_below(-f - 1, y, x)
}

proof fn lemma_threshold(x: int, y: int, f: nat, p1: nat, q1: nat, p2: nat, q2: nat)
    requires
        x > 0,
        y > 0,
        q1 > 0,
        q2 > 0,
        tens(pow(y, q1), p1) < pow(x, q1),
        f * q1 <= 400 * p1,
        pow(x, q2) < tens(pow(y, q2), p2),
        400 * p2 <= (f + 1) * q2,
    ensures
        threshold(x, y, f as int),
        threshold(y, x, -f - 1),
{
    lemma_tens(pow(y, q1), p1);
    lemma_tens(pow(y, q2), p2);
    lemma_lift_below(x, y, f, p1, q1);
    lemma_lift_above(x, y, f + 1, p2, q2);
}

#[verifier::spinoff_prover]
#[verifier::rlimit(80)]
proof fn lemma_threshold_63()
    ensures
        threshold(63, 1, 719),
        threshold(1, 63, -720),
{
    assert(tens(pow(1, 84), 151) < pow(63, 84)) by {
        assert(pow(63, 42) == 3735107253208426854890677539053540390278853997836851167913009474475553834369int) by {
            reveal_with_fuel(pow, 43);
        }
        lemma_pow_adds(63, 42, 42);
        assert(pow(63, 42) * pow(63, 42) == 13951026192970199323887738150245758485698086120486916625999925489189875463925809105457105322475463029048346637052377424794171705823999073195058285628161int) by (nonlinear_arith)
            requires
                pow(63, 42) == 3735107253208426854890677539053540390278853997836851167913009474475553834369int,
        ;
        lemma1_pow(84);
        assert(pow(10, 37) == 10000000000000000000000000000000000000int) by {
            reveal_with_fuel(pow, 38);
        }
        assert(pow(10, 38) == 100000000000000000000000000000000000000int) by {
            reveal_with_fuel(pow, 39);
        }
        lemma_pow_adds(10, 37, 38);
        assert(pow(10, 37) * pow(10, 38) == 1000000000000000000000000000000000000000000000000000000000000000000000000000int) by (nonlinear_arith)
            requires
                pow(10, 37) == 10000000000000000000000000000000000000int,
                pow(10, 38) == 100000000000000000000000000000000000000int,
        ;
        lemma_pow_adds(10, 38, 38);
        assert(pow(10, 38) * pow(10, 38) == 10000000000000000000000000000000000000000000000000000000000000000000000000000int) by (nonlinear_arith)
            requires
                pow(10, 38) == 100000000000000000000000000000000000000int,
        ;
        lemma_pow_adds(10, 75, 76);
        assert(pow(10, 75) * pow(10, 76) == 10000000000000000000000000000000000000000000000000000000000000000000000000000000000000000000000000000000000000000000000000000000000000000000000000000000int) by (nonlinear_arith)
            requires
                pow(10, 75) == 1000000000000000000000000000000000000000000000000000000000000000000000000000int,
                pow(10, 76) == 10000000000000000000000000000000000000000000000000000000000000000000000000000int,
        ;
        lemma_tens(pow(1, 84), 151);
        assert(pow(10, 151) * pow(1, 84) == 10000000000000000000000000000000000000000000000000000000000000000000000000000000000000000000000000000000000000000000000000000000000000000000000000000000int) by (nonlinear_arith)
            requires
                pow(10, 151) == 10000000000000000000000000000000000000000000000000000000000000000000000000000000000000000000000000000000000000000000000000000000000000000000000000000000int,
                pow(1, 84) == 1int,
        ;
    }
    assert(pow(63, 5) < tens(pow(1, 5), 9)) by {
        reveal_with_fuel(pow, 6);
        reveal_with_fuel(tens, 10);
    }
    lemma_threshold(63, 1, 719, 151, 84, 9, 5);
}

#[verifier::spinoff_prover]
#[verifier::rlimit(80)]
proof fn lemma_threshold_61()
    ensures
        threshold(61, 3, 523),
        threshold(3, 61, -524),
{
    assert(tens(pow(3, 13), 17) < pow(61, 13)) by {
        reveal_with_fuel(pow, 14);
        reveal_with_fuel(tens, 18);
    }
    assert(pow(61, 42) < tens(pow(3, 42), 55)) by {
        reveal_with_fuel(pow, 43);
        reveal_with_fuel(tens, 56);
    }
    lemma_threshold(61, 3, 523, 17, 13, 55, 42);
}

#[verifier::spinoff_prover]
#[verifier::rlimit(80)]
proof fn lemma_threshold_59()
    ensures
        threshold(59, 5, 428),
        threshold(5, 59, -429),
{
    assert(tens(pow(5, 14), 15) < pow(59, 14)) by {
        reveal_with_fuel(pow, 15);
        reveal_with_fuel(tens, 16);
    }
    assert(pow(59, 69) < tens(pow(5, 69), 74)) by {
        assert(pow(59, 34) == 1617962292165351485107436017199696023447086893648213540833561int) by {
            reveal_with_fuel(pow, 35);
        }
        assert(pow(59, 35) == 95459775237755737621338725014782065383378126725244598909180099int) by {
            reveal_with_fuel(pow, 36);
        }
        lemma_pow_adds(59, 34, 35);
        assert(pow(59, 34) * pow(59, 35) == 154450316753268533781556788970555892240451395532816015571510507958995690344559774091086705238556260155363790581675532502539int) by (nonlinear_arith)
            requires
                pow(59, 34) == 1617962292165351485107436017199696023447086893648213540833561int,
                pow(59, 35) == 95459775237755737621338725014782065383378126725244598909180099int,
        ;
        assert(pow(5, 34) == 582076609134674072265625int) by {
            reveal_with_fuel(pow, 35);
        }
        assert(pow(5, 35) == 2910383045673370361328125int) by {
            reveal_with_fuel(pow, 36);
        }
        lemma_pow_adds(5, 34, 35);
        assert(pow(5, 34) * pow(5, 35) == 1694065894508600678136645001359283924102783203125int) by (nonlinear_arith)
            requires
                pow(5, 34) == 582076609134674072265625int,
                pow(5, 35) == 2910383045673370361328125int,
        ;
        assert(pow(10, 37) == 10000000000000000000000000000000000000int) by {
            reveal_with_fuel(pow, 38);
        }
        lemma_pow_adds(10, 37, 37);
        assert(pow(10, 37) * pow(10, 37) == 100000000000000000000000000000000000000000000000000000000000000000000000000int) by (nonlinear_arith)
            requires
                pow(10, 37) == 10000000000000000000000000000000000000int,
        ;
        lemma_tens(pow(5, 69), 74);
        assert(pow(10, 74) * pow(5, 69) == 169406589450860067813664500135928392410278320312500000000000000000000000000000000000000000000000000000000000000000000000000int) by (nonlinear_arith)
            requires
                pow(10, 74) == 100000000000000000000000000000000000000000000000000000000000000000000000000int,
                pow(5, 69) == 1694065894508600678136645001359283924102783203125int,
        ;
    }
    lemma_threshold(59, 5, 428, 15, 14, 74, 69);
}

#[verifier::spinoff_prover]
#[verifier::rlimit(80)]
proof fn lemma_threshold_57()
    ensures
        threshold(57, 7, 364),
        threshold(7, 57, -365),
{
    assert(tens(pow(7, 56), 51) < pow(57, 56)) by {
        assert(pow(57, 28) == 14604811593991510424147435018807634286571929892001int) by {
            reveal_with_fuel(pow, 29);
        }
        lemma_pow_adds(57, 28, 28);
        assert(pow(57, 28) * pow(57, 28) == 213300521695988843524320705128984847022902559806761436438426943861538361158299673293936275523784001int) by (nonlinear_arith)
            requires
                pow(57, 28) == 14604811593991510424147435018807634286571929892001int,
        ;
        assert(pow(7, 28) == 459986536544739960976801int) by {
            reveal_with_fuel(pow, 29);
        }
        lemma_pow_adds(7, 28, 28);
        assert(pow(7, 28) * pow(7, 28) == 211587613802425391637729361787678676290060193601int) by (nonlinear_arith)
            requires
                pow(7, 28) == 459986536544739960976801int,
        ;
        assert(pow(10, 25) == 10000000000000000000000000int) by {
            reveal_with_fuel(pow, 26);
        }
        assert(pow(10, 26) == 100000000000000000000000000int) by {
            reveal_with_fuel(pow, 27);
        }
        lemma_pow_adds(10, 25, 26);
        assert(pow(10, 25) * pow(10, 26) == 1000000000000000000000000000000000000000000000000000int) by (nonlinear_arith)
            requires
                pow(10, 25) == 10000000000000000000000000int,
                pow(10, 26) == 100000000000000000000000000int,
        ;
        lemma_tens(pow(7, 56), 51);
        assert(pow(10, 51) * pow(7, 56) == 211587613802425391637729361787678676290060193601000000000000000000000000000000000000000000000000000int) by (nonlinear_arith)
            requires
                pow(10, 51) == 1000000000000000000000000000000000000000000000000000int,
                pow(7, 56) == 211587613802425391637729361787678676290060193601int,
        ;
    }
    assert(pow(57, 34) < tens(pow(7, 34), 31)) by {
        reveal_with_fuel(pow, 35);
        reveal_with_fuel(tens, 32);
    }
    lemma_threshold(57, 7, 364, 51, 56, 31, 34);
}

#[verifier::spinoff_prover]
#[verifier::rlimit(80)]
proof fn lemma_threshold_55()
    ensures
        threshold(55, 9, 314),
        threshold(9, 55, -315),
{
    assert(tens(pow(9, 14), 11) < pow(55, 14)) by {
        reveal_with_fuel(pow, 15);
        reveal_with_fuel(tens, 12);
    }
    assert(pow(55, 47) < tens(pow(9, 47), 37)) by {
        reveal_with_fuel(pow, 48);
        reveal_with_fuel(tens, 38);
    }
    lemma_threshold(55, 9, 314, 11, 14, 37, 47);
}

#[verifier::spinoff_prover]
#[verifier::rlimit(80)]
proof fn lemma_threshold_53()
    ensures
        threshold(53, 11, 273),
        threshold(11, 53, -274),
{
    assert(tens(pow(11, 63), 43) < pow(53, 63)) by {
        reveal_with_fuel(pow, 64);
        reveal_with_fuel(tens, 44);
    }
    assert(pow(53, 19) < tens(pow(11, 19), 13)) by {
        reveal_with_fuel(pow, 20);
        reveal_with_fuel(tens, 14);
    }
    lemma_threshold(53, 11, 273, 43, 63, 13, 19);
}

#[verifier::spinoff_prover]
#[verifier::rlimit(80)]
proof fn lemma_threshold_51()
    ensures
        threshold(51, 13, 237),
        threshold(13, 51, -238),
{
    assert(tens(pow(13, 27), 16) < pow(51, 27)) by {
        reveal_with_fuel(pow, 28);
        reveal_with_fuel(tens, 17);
    }
    assert(pow(51, 32) < tens(pow(13, 32), 19)) by {
        reveal_with_fuel(pow, 33);
        reveal_with_fuel(tens, 20);
    }
    lemma_threshold(51, 13, 237, 16, 27, 19, 32);
}

#[verifier::spinoff_prover]
#[verifier::rlimit(80)]
proof fn lemma_threshold_49()
    ensures
        threshold(49, 15, 205),
        threshold(15, 49, -206),
{
    assert(tens(pow(15, 37), 19) < pow(49, 37)) by {
        reveal_with_fuel(pow, 38);
        reveal_with_fuel(tens, 20);
    }
    assert(pow(49, 35) < tens(pow(15, 35), 18)) by {
        reveal_with_fuel(pow, 36);
        reveal_with_fuel(tens, 19);
    }
    lemma_threshold(49, 15, 205, 19, 37, 18, 35);
}

#[verifier::spinoff_prover]
#[verifier::rlimit(80)]
proof fn lemma_threshold_47()
    ensures
        threshold(47, 17, 176),
        threshold(17, 47, -177),
{
    assert(tens(pow(17, 25), 11) < pow(47, 25)) by {
        reveal_with_fuel(pow, 26);
        reveal_with_fuel(tens, 12);
    }
    assert(pow(47, 43) < tens(pow(17, 43), 19)) by {
        reveal_with_fuel(pow, 44);
        reveal_with_fuel(tens, 20);
    }
    lemma_threshold(47, 17, 176, 11, 25, 19, 43);
}

#[verifier::spinoff_prover]
#[verifier::rlimit(80)]
proof fn lemma_threshold_45()
    ensures
        threshold(45, 19, 149),
        threshold(19, 45, -150),
{
    assert(tens(pow(19, 51), 19) < pow(45, 51)) by {
        reveal_with_fuel(pow, 52);
        reveal_with_fuel(tens, 20);
    }
    assert(pow(45, 8) < tens(pow(19, 8), 3)) by {
        reveal_with_fuel(pow, 9);
        reveal_with_fuel(tens, 4);
    }
    lemma_threshold(45, 19, 149, 19, 51, 3, 8);
}

#[verifier::spinoff_prover]
#[verifier::rlimit(80)]
proof fn lemma_threshold_43()
    ensures
        threshold(43, 21, 124),
        threshold(21, 43, -125),
{
    assert(tens(pow(21, 29), 9) < pow(43, 29)) by {
        reveal_with_fuel(pow, 30);
        reveal_with_fuel(tens, 10);
    }
    assert(pow(43, 16) < tens(pow(21, 16), 5)) by {
        reveal_with_fuel(pow, 17);
        reveal_with_fuel(tens, 6);
    }
    lemma_threshold(43, 21, 124, 9, 29, 5, 16);
}

#[verifier::spinoff_prover]
#[verifier::rlimit(80)]
proof fn lemma_threshold_41()
    ensures
        threshold(41, 23, 100),
        threshold(23, 41, -101),
{
    assert(tens(pow(23, 4), 1) < pow(41, 4)) by {
        reveal_with_fuel(pow, 5);
        reveal_with_fuel(tens, 2);
    }
    assert(pow(41, 103) < tens(pow(23, 103), 26)) by {
        assert(pow(41, 25) == 20873554875923477449109855954682643681001int) by {
            reveal_with_fuel(pow, 26);
        }
        assert(pow(41, 26) == 855815749912862575413504094141988390921041int) by {
            reveal_with_fuel(pow, 27);
        }
        lemma_pow_adds(41, 25, 26);
        assert(pow(41, 25) * pow(41, 26) == 17863917019485739981865172284779513749384695578882454043755035893659862396982842041int) by (nonlinear_arith)
            requires
                pow(41, 25) == 20873554875923477449109855954682643681001int,
                pow(41, 26) == 855815749912862575413504094141988390921041int,
        ;
        lemma_pow_adds(41, 26, 26);
        assert(pow(41, 26) * pow(41, 26) == 732420597798915339256472063675960063724772518734180615793956471640054358276296523681int) by (nonlinear_arith)
            requires
                pow(41, 26) == 855815749912862575413504094141988390921041int,
        ;
        lemma_pow_adds(41, 51, 52);
        assert(pow(41, 51) * pow(41, 52) == 13083900782441963636576373884927346860978249368035285229541651778816604108628990971684341101060799174039938722389459995522387350562510511247588579094835916931838872921int) by (nonlinear_arith)
            requires
                pow(41, 51) == 17863917019485739981865172284779513749384695578882454043755035893659862396982842041int,
                pow(41, 52) == 732420597798915339256472063675960063724772518734180615793956471640054358276296523681int,
        ;
        assert(pow(23, 25) == 11045767571919545466173812409689943int) by {
            reveal_with_fuel(pow, 26);
        }
        assert(pow(23, 26) == 254052654154149545721997685422868689int) by {
            reveal_with_fuel(pow, 27);
        }
        lemma_pow_adds(23, 25, 26);
        assert(pow(23, 25) * pow(23, 26) == 2806206568815996453517295598842263495093850076703159313599472092894727int) by (nonlinear_arith)
            requires
                pow(23, 25) == 11045767571919545466173812409689943int,
                pow(23, 26) == 254052654154149545721997685422868689int,
        ;
        lemma_pow_adds(23, 26, 26);
        assert(pow(23, 26) * pow(23, 26) == 64542751082767918430897798773372060387158551764172664212787858136578721int) by (nonlinear_arith)
            requires
                pow(23, 26) == 254052654154149545721997685422868689int,
        ;
        lemma_pow_adds(23, 51, 52);
        assert(pow(23, 51) * pow(23, 52) == 181120292057919100304261868988672529740587284827801252809582215541609345699988044561638130873255478567108709697047335431227782547521001304167int) by (nonlinear_arith)
            requires
                pow(23, 51) == 2806206568815996453517295598842263495093850076703159313599472092894727int,
                pow(23, 52) == 64542751082767918430897798773372060387158551764172664212787858136578721int,
        ;
        assert(pow(10, 26) == 100000000000000000000000000int) by {
            reveal_with_fuel(pow, 27);
        }
        lemma_tens(pow(23, 103), 26);
        assert(pow(10, 26) * pow(23, 103) == 18112029205791910030426186898867252974058728482780125280958221554160934569998804456163813087325547856710870969704733543122778254752100130416700000000000000000000000000int) by (nonlinear_arith)
            requires
                pow(10, 26) == 100000000000000000000000000int,
                pow(23, 103) == 181120292057919100304261868988672529740587284827801252809582215541609345699988044561638130873255478567108709697047335431227782547521001304167int,
        ;
    }
    lemma_threshold(41, 23, 100, 1, 4, 26, 103);
}

#[verifier::spinoff_prover]
#[verifier::rlimit(80)]
proof fn lemma_threshold_39()
    ensures
        threshold(39, 25, 77),
        threshold(25, 39, -78),
{
    assert(tens(pow(25, 57), 11) < pow(39, 57)) by {
        reveal_with_fuel(pow, 58);
        reveal_with_fuel(tens, 12);
    }
    assert(pow(39, 31) < tens(pow(25, 31), 6)) by {
        reveal_with_fuel(pow, 32);
        reveal_with_fuel(tens, 7);
    }
    lemma_threshold(39, 25, 77, 11, 57, 6, 31);
}

#[verifier::spinoff_prover]
#[verifier::rlimit(80)]
proof fn lemma_threshold_37()
    ensures
        threshold(37, 27, 54),
        threshold(27, 37, -55),
{
    assert(tens(pow(27, 22), 3) < pow(37, 22)) by {
        reveal_with_fuel(pow, 23);
        reveal_with_fuel(tens, 4);
    }
    assert(pow(37, 51) < tens(pow(27, 51), 7)) by {
        reveal_with_fuel(pow, 52);
        reveal_with_fuel(tens, 8);
    }
    lemma_threshold(37, 27, 54, 3, 22, 7, 51);
}

#[verifier::spinoff_prover]
#[verifier::rlimit(80)]
proof fn lemma_threshold_35()
    ensures
        threshold(35, 29, 32),
        threshold(29, 35, -33),
{
    assert(tens(pow(29, 25), 2) < pow(35, 25)) by {
        reveal_with_fuel(pow, 26);
        reveal_with_fuel(tens, 3);
    }
    assert(pow(35, 61) < tens(pow(29, 61), 5)) by {
        reveal_with_fuel(pow, 62);
        reveal_with_fuel(tens, 6);
    }
    lemma_threshold(35, 29, 32, 2, 25, 5, 61);
}

#[verifier::spinoff_prover]
#[verifier::rlimit(80)]
proof fn lemma_threshold_33()
    ensures
        threshold(33, 31, 10),
        threshold(31, 33, -11),
{
    assert(tens(pow(31, 37), 1) < pow(33, 37)) by {
        reveal_with_fuel(pow, 38);
        reveal_with_fuel(tens, 2);
    }
    assert(pow(33, 73) < tens(pow(31, 73), 2)) by {
        assert(pow(33, 36) == 4639827510633868057472281267762039413677160359145495681int) by {
            reveal_with_fuel(pow, 37);
        }
        assert(pow(33, 37) == 153114307850917645896585281836147300651346291851801357473int) by {
            reveal_with_fuel(pow, 38);
        }
        lemma_pow_adds(33, 36, 37);
        assert(pow(33, 36) * pow(33, 37) == 710423977838350941064089039020280663803627687264285312400310219469702123644415518480592037671906602389258574113int) by (nonlinear_arith)
            requires
                pow(33, 36) == 4639827510633868057472281267762039413677160359145495681int,
                pow(33, 37) == 153114307850917645896585281836147300651346291851801357473int,
        ;
        assert(pow(31, 36) == 488675963633769261467693849486036510107332864779998081int) by {
            reveal_with_fuel(pow, 37);
        }
        assert(pow(31, 37) == 15148954872646847105498509334067131813327318808179940511int) by {
            reveal_with_fuel(pow, 38);
        }
        lemma_pow_adds(31, 36, 37);
        assert(pow(31, 36) * pow(31, 37) == 7402930120435182309838061067999977541338847655293867577988460115733182809088639813666435147650814205274159391int) by (nonlinear_arith)
            requires
                pow(31, 36) == 488675963633769261467693849486036510107332864779998081int,
                pow(31, 37) == 15148954872646847105498509334067131813327318808179940511int,
        ;
        assert(pow(10, 2) == 100int) by {
            reveal_with_fuel(pow, 3);
        }
        lemma_tens(pow(31, 73), 2);
        assert(pow(10, 2) * pow(31, 73) == 740293012043518230983806106799997754133884765529386757798846011573318280908863981366643514765081420527415939100int) by (nonlinear_arith)
            requires
                pow(10, 2) == 100int,
                pow(31, 73) == 7402930120435182309838061067999977541338847655293867577988460115733182809088639813666435147650814205274159391int,
        ;
    }
    lemma_threshold(33, 31, 10, 1, 37, 2, 73);
}

proof fn lemma_ten_power_monotone(d: int, e: int, num: int, den: int)
    requires
        d <= e,
        num > 0,
        den > 0,
        ten_power_below(e, num, den),
    ensures
        ten_power_below(d, num, den),
{
    let n = pow(num, 400);
    let m = pow(den, 400);
    lemma_pow_positive(num, 400);
    lemma_pow_positive(den, 400);
    if d >= 0 {
        lemma_pow_increases(10, d as nat, e as nat);
        let u = pow(10, d as nat);
        let v = pow(10, e as nat);
        assert(u * m <= v * m) by (nonlinear_arith)
            requires
                u <= v,
                0 < m,
        ;
    } else if e >= 0 {
        lemma_pow_positive(10, e as nat);
        lemma_pow_positive(10, (-d) as nat);
        let u = pow(10, e as nat);
        let v = pow(10, (-d) as nat);
        assert(m < n * v) by (nonlinear_arith)
            requires
                u * m < n,
                1 <= u,
                1 <= v,
                0 < m,
                0 < n,
        ;
    } else {
        lemma_pow_increases(10, (-e) as nat, (-d) as nat);
        let u = pow(10, (-e) as nat);
        let v = pow(10, (-d) as nat);
        assert(n * u <= n * v) by (nonlinear_arith)
            requires
                u <= v,
                0 < n,
        ;
    }
}

/// The thirty-two steps of the table.
spec fn step(n: int) -> int {
    if n == 0 {
        719
    } else if n == 1 {
        523
    } else if n == 2 {
        428
    } else if n == 3 {
        364
    } else if n == 4 {
        314
    } else if n == 5 {
        273
    } else if n == 6 {
        237
    } else if n == 7 {
        205
    } else if n == 8 {
        176
    } else if n == 9 {
        149
    } else if n == 10 {
        124
    } else if n == 11 {
        100
    } else if n == 12 {
        77
    } else if n == 13 {
        54
    } else if n == 14 {
        32
    } else if n == 15 {
        10
    } else if n == 16 {
        -11
    } else if n == 17 {
        -33
    } else if n == 18 {
        -55
    } else if n == 19 {
        -78
    } else if n == 20 {
        -101
    } else if n == 21 {
        -125
    } else if n == 22 {
        -150
    } else if n == 23 {
        -177
    } else if n == 24 {
        -206
    } else if n == 25 {
        -238
    } else if n == 26 {
        -274
    } else if n == 27 {
        -315
    } else if n == 28 {
        -365
    } else if n == 29 {
        -429
    } else if n == 30 {
        -524
    } else {
        -720
    }
}

proof fn lemma_steps(n: int)
    requires
        0 <= n < 32,
    ensures
        threshold(63 - 2 * n, 2 * n + 1, step(n)),
{
    if n == 0 {
        lemma_threshold_63();
    } else if n == 1 {
        lemma_threshold_61();
    } else if n == 2 {
        lemma_threshold_59();
    } else if n == 3 {
        lemma_threshold_57();
    } else if n == 4 {
        lemma_threshold_55();
    } else if n == 5 {
        lemma_threshold_53();
    } else if n == 6 {
        lemma_threshold_51();
    } else if n == 7 {
        lemma_threshold_49();
    } else if n == 8 {
        lemma_threshold_47();
    } else if n == 9 {
        lemma_threshold_45();
    } else if n == 10 {
        lemma_threshold_43();
    } else if n == 11 {
        lemma_threshold_41();
    } else if n == 12 {
        lemma_threshold_39();
    } else if n == 13 {
        lemma_threshold_37();
    } else if n == 14 {
        lemma_threshold_35();
    } else if n == 15 {
        lemma_threshold_33();
    } else if n == 16 {
        lemma_threshold_33();
    } else if n == 17 {
        lemma_threshold_35();
    } else if n == 18 {
        lemma_threshold_37();
    } else if n == 19 {
        lemma_threshold_39();
    } else if n == 20 {
        lemma_threshold_41();
    } else if n == 21 {
        lemma_threshold_43();
    } else if n == 22 {
        lemma_threshold_45();
    } else if n == 23 {
        lemma_threshold_47();
    } else if n == 24 {
        lemma_threshold_49();
    } else if n == 25 {
        lemma_threshold_51();
    } else if n == 26 {
        lemma_threshold_53();
    } else if n == 27 {
        lemma_threshold_55();
    } else if n == 28 {
        lemma_threshold_57();
    } else if n == 29 {
        lemma_threshold_59();
    } else if n == 30 {
        lemma_threshold_61();
    } else {
        lemma_threshold_63();
    }
}

/// The table holds the nearest whole number to `32 / (1 + 10^(d / 400))`.
pub proof fn expected_points_are_rounded(d: int)
    ensures
        rounds_expected(d, expected_points(d)),
{
    let n = expected_points(d);
    if n > 0 {
        lemma_steps(n - 1);
        lemma_ten_power_monotone(d, step(n - 1), 65 - 2 * n, 2 * n - 1);
    }
    if n < 32 {
        lemma_steps(n);
        lemma_ten_power_monotone(-d, -step(n) - 1, 2 * n + 1, 63 - 2 * n);
    }
}

/// At most one whole number is the nearest one.
pub proof fn rounding_is_unique(d: int, n: int, m: int)
    requires
        rounds_expected(d, n),
        rounds_expected(d, m),
    ensures
        n == m,
{
    lemma_rounding_order(d, n, m);
    lemma_rounding_order(d, m, n);
}

proof fn lemma_rounding_order(d: int, n: int, m: int)
    requires
        rounds_expected(d, n),
        rounds_expected(d, m),
    ensures
        n >= m,
{
    if n < m {
        let a = pow(65 - 2 * m, 400);
        let b = pow(2 * m - 1, 400);
        let c = pow(63 - 2 * n, 400);
        let e = pow(2 * n + 1, 400);
        lemma_pow_base(65 - 2 * m, 63 - 2 * n, 400);
        lemma_pow_base(2 * n + 1, 2 * m - 1, 400);
        let t = if d >= 0 {
            pow(10, d as nat)
        } else {
            pow(10, (-d) as nat)
        };
        lemma_pow_positive(10, if d >= 0 { d as nat } else { (-d) as nat });
        lemma_pow0(10);
        if d > 0 {
            assert(false) by (nonlinear_arith)
                requires
                    t * b < a,
                    c < e * t,
                    a <= c,
                    e <= b,
                    0 < t,
            ;
        } else if d == 0 {
            assert(false) by (nonlinear_arith)
                requires
                    t * b < a,
                    t * c < e,
                    a <= c,
                    e <= b,
                    0 <= c,
                    0 <= b,
                    1 <= t,
            ;
        } else {
            assert(false) by (nonlinear_arith)
                requires
                    b < a * t,
                    t * c < e,
                    a <= c,
                    e <= b,
                    0 < t,
            ;
        }
    }
}

// ---------------------------------------------------------------------------
// Laws
// ---------------------------------------------------------------------------

/// Thirty-two points are expected in all: what one player does not expect the
/// other does.
pub proof fn expectations_complement(d: int)
    ensures
        expected_points(d) + expected_points(-d) == 32,
{
}

/// The result of a match seen from the other side.
pub open spec fn mirrored(o: Outcome) -> Outcome {
    match o {
        Outcome::Win => Outcome::Loss,
        Outcome::Draw => Outcome::Draw,
        Outcome::Loss => Outcome::Win,
    }
}

/// It does not matter which player is named first.
pub proof fn elo_is_symmetric(a: int, b: int, o: Outcome)
    ensures
        elo_of(b, a, mirrored(o)) == (elo_of(a, b, o).1, elo_of(a, b, o).0),
{
    expectations_complement(b - a);
}

/// A match neither makes nor destroys rating points (away from the limits of
/// the number type).
pub proof fn elo_conserves_points(a: int, b: int, o: Outcome)
    requires
        i32::MIN + 32 <= a <= i32::MAX - 32,
        i32::MIN + 32 <= b <= i32::MAX - 32,
    ensures
        elo_of(a, b, o).0 + elo_of(a, b, o).1 == a + b,
{
}

/// Nobody moves by more than 32 points, a winner never falls and a loser
/// never rises.
pub proof fn elo_moves_the_right_way(a: i32, b: i32, o: Outcome)
    ensures
        -32 <= elo_of(a as int, b as int, o).0 - a <= 32,
        -32 <= elo_of(a as int, b as int, o).1 - b <= 32,
        o is Win ==> elo_of(a as int, b as int, o).0 >= a && elo_of(a as int, b as int, o).1 <= b,
        o is Loss ==> elo_of(a as int, b as int, o).0 <= a && elo_of(a as int, b as int, o).1 >= b,
{
}

/// The stronger the opponent, the less is expected, so the more a win brings.
pub proof fn upsets_move_more(d: int, e: int)
    requires
        d <= e,
    ensures
        expected_points(e) <= expected_points(d),
{
}

/// Whoever has more points has won, by whatever margin; only equal points are
/// a draw. Seen from the other side a win is a loss.
pub proof fn results_follow_the_points(mine: int, theirs: int)
    ensures
        outcome_of(mine, theirs) is Win <==> mine > theirs,
        outcome_of(mine, theirs) is Loss <==> mine < theirs,
        outcome_of(mine, theirs) is Draw <==> mine == theirs,
        outcome_of(theirs, mine) == mirrored(outcome_of(mine, theirs)),
{
}

/// The first player gains what the result is worth (32 points, 16 or none) less
/// the nearest whole number to `32 / (1 + 10^((b - a) / 400))`, and the second
/// player loses as much.
pub proof fn points_move_by_the_formula(a: int, b: int, mine: int, theirs: int)
    requires
        i32::MIN + 32 <= a <= i32::MAX - 32,
        i32::MIN + 32 <= b <= i32::MAX - 32,
    ensures
        ({
            let r = elo_of(a, b, outcome_of(mine, theirs));
            let gain = r.0 - a;
            &&& r.1 == b - gain
            &&& mine > theirs ==> rounds_expected(b - a, 32 - gain)
            &&& mine == theirs ==> rounds_expected(b - a, 16 - gain)
            &&& mine < theirs ==> rounds_expected(b - a, -gain)
        }),
{
    expected_points_are_rounded(b - a);
}

/// Between players of one rating a win is worth 16 points, by whatever margin,
/// and a draw nothing.
pub proof fn equals_play_for_sixteen_points(a: int, mine: int, theirs: int)
    requires
        i32::MIN + 32 <= a <= i32::MAX - 32,
    ensures
        mine > theirs ==> elo_of(a, a, outcome_of(mine, theirs)) == (a + 16, a - 16),
        mine < theirs ==> elo_of(a, a, outcome_of(mine, theirs)) == (a - 16, a + 16),
        mine == theirs ==> elo_of(a, a, outcome_of(mine, theirs)) == (a, a),
{
}

/// Only the difference of the ratings counts: both move as they would from
/// nothing, and stop at the limits of the number type.
pub proof fn only_the_difference_counts(a: i32, b: i32, o: Outcome)
    ensures
        ({
            let r = elo_of(a as int, b as int, o);
            let gain = if -1000 <= b - a <= 1000 {
                elo_of(0, b - a, o).0
            } else if b > a {
                elo_of(0, 1000, o).0
            } else {
                elo_of(0, -1000, o).0
            };
            &&& i32::MIN <= a + gain <= i32::MAX ==> r.0 == a + gain
            &&& a + gain > i32::MAX ==> r.0 == i32::MAX
            &&& a + gain < i32::MIN ==> r.0 == i32::MIN
            &&& i32::MIN <= b - gain <= i32::MAX ==> r.1 == b - gain
            &&& b - gain > i32::MAX ==> r.1 == i32::MAX
            &&& b - gain < i32::MIN ==> r.1 == i32::MIN
        }),
{
}

} // verus!
