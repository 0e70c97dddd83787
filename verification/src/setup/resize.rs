//! Running recursive1 until it fills the shared domain: each failed attempt says what the next
//! one does.
use vstd::prelude::*;
use vstd::string::StringExecFns;

use crate::setup::recursive::{
    ceil_div, div_up, proportional, NeedsCompressorError, RecursiveTooSmallError, TARGET_ROWS,
};
use crate::text::{dec, push_dec};

verus! {

/// How often recursive1 is tried.
pub const MAX_R1_ATTEMPTS: usize = 6;

/// Where the attempts stand.
#[derive(Clone, Copy, PartialEq, Eq, Structural, Debug)]
pub struct Attempts {
    /// Attempts made so far.
    pub made: usize,
    pub has_compressor: bool,
    /// The queries that the compressor is asked for, where they were raised.
    pub queries: Option<u64>,
    /// The queries and rows of the last circuit that was too small.
    pub last_queries: Option<u64>,
    pub last_used: u64,
}

/// What an attempt gave.
#[derive(Clone, Copy, PartialEq, Eq, Structural, Debug)]
pub enum Outcome {
    Done,
    NeedsCompressor(NeedsCompressorError),
    /// Too small; with the queries of the compressor it stands behind, where it says them.
    TooSmall(RecursiveTooSmallError, CompressorQueries),
    Failed,
}

/// What is known of a compressor's queries.
#[derive(Clone, Copy, PartialEq, Eq, Structural, Debug)]
pub enum CompressorQueries {
    /// The compressor does not describe its structure.
    NoStructure,
    /// Its structure does not say.
    Unknown,
    Known(u64),
}

/// Why recursive1 was given up.
#[derive(Clone, Copy, PartialEq, Eq, Structural, Debug)]
pub enum ResizeError {
    NoStructure { n_bits: usize },
    NoQueries { n_bits: usize },
    NotConverged,
    Failed,
}

/// What to do next.
#[derive(Clone, Copy, PartialEq, Eq, Structural, Debug)]
pub enum Next {
    Accept,
    Retry(Attempts),
    GiveUp(ResizeError),
}

/// No attempt was made yet.
pub fn first_attempt(has_compressor: bool) -> (r: Attempts)
    ensures
        r == (Attempts {
            made: 0,
            has_compressor,
            queries: None,
            last_queries: None,
            last_used: 0,
        }),
{
    Attempts { made: 0, has_compressor, queries: None, last_queries: None, last_used: 0 }
}

/// At least one.
pub open spec fn at_least_one(n: int) -> int {
    if n > 1 {
        n
    } else {
        1
    }
}

/// The difference, or zero.
pub open spec fn above(a: int, b: int) -> int {
    if a > b {
        a - b
    } else {
        0
    }
}

/// The queries that reach the target, where rows are a straight line through the last two
/// measured points.
pub open spec fn secant(q: int, used: int, last_q: int, last_used: int) -> int {
    let rise = if q > last_q {
        above(used, last_used)
    } else {
        above(last_used, used)
    };
    let run = if q > last_q {
        q - last_q
    } else {
        last_q - q
    };
    q + ceil_div(above(TARGET_ROWS as int, used) * run, at_least_one(rise))
}

/// The queries to ask the compressor for next: from the straight line through two measured
/// points where there are two, in proportion otherwise, and always more than before.
pub open spec fn wanted_queries(q: int, n_used: int, last: Option<u64>, last_used: int) -> int {
    let used = at_least_one(n_used);
    let guess = match last {
        Some(p) => if p != q {
            secant(q, used, p as int, last_used)
        } else {
            proportional(q, used)
        },
        None => proportional(q, used),
    };
    if guess > q {
        guess
    } else {
        q + 1
    }
}

/// The queries can be raised without overflow.
pub open spec fn can_raise(q: int, n_used: int, last: Option<u64>) -> bool {
    &&& TARGET_ROWS * q < u64::MAX
    &&& match last {
        Some(p) => TARGET_ROWS * p < u64::MAX && q + above(
            TARGET_ROWS as int,
            at_least_one(n_used),
        ) * (if q > p {
            q - p
        } else {
            p - q
        }) < u64::MAX,
        None => true,
    }
}

/// What follows an attempt.
pub open spec fn next_of(a: Attempts, o: Outcome) -> Next {
    match o {
        Outcome::Done => Next::Accept,
        Outcome::Failed => Next::GiveUp(ResizeError::Failed),
        Outcome::NeedsCompressor(e) => if a.made + 1 >= MAX_R1_ATTEMPTS {
            Next::GiveUp(ResizeError::NotConverged)
        } else {
            Next::Retry(Attempts { made: (a.made + 1) as usize, has_compressor: true, ..a })
        },
        Outcome::TooSmall(e, c) => match c {
            CompressorQueries::NoStructure => Next::GiveUp(
                ResizeError::NoStructure { n_bits: e.n_bits },
            ),
            CompressorQueries::Unknown => Next::GiveUp(
                ResizeError::NoQueries { n_bits: e.n_bits },
            ),
            CompressorQueries::Known(q) => if q == 0 {
                Next::GiveUp(ResizeError::NoQueries { n_bits: e.n_bits })
            } else if a.made + 1 >= MAX_R1_ATTEMPTS {
                Next::GiveUp(ResizeError::NotConverged)
            } else {
                Next::Retry(
                    Attempts {
                        made: (a.made + 1) as usize,
                        has_compressor: a.has_compressor,
                        queries: Some(
                            wanted_queries(
                                q as int,
                                e.n_used as int,
                                a.last_queries,
                                a.last_used as int,
                            ) as u64,
                        ),
                        last_queries: Some(q),
                        last_used: at_least_one(e.n_used as int) as u64,
                    },
                )
            },
        },
    }
}

/// What an attempt asks for can be computed.
pub open spec fn outcome_ok(a: Attempts, o: Outcome) -> bool {
    match o {
        Outcome::TooSmall(e, CompressorQueries::Known(q)) => q == 0 || can_raise(
            q as int,
            e.n_used as int,
            a.last_queries,
        ),
        _ => true,
    }
}

proof fn lemma_ceil(a: int, b: int)
    requires
        a >= 0,
        b >= 1,
    ensures
        0 <= ceil_div(a, b) <= a,
        ceil_div(a, b) * b >= a,
        a > 0 ==> (ceil_div(a, b) - 1) * b < a,
{
    let c = ceil_div(a, b);
    vstd::arithmetic::div_mod::lemma_fundamental_div_mod(a + b - 1, b);
    vstd::arithmetic::div_mod::lemma_mod_bound(a + b - 1, b);
    let m = (a + b - 1) % b;
    assert(b * c == c * b) by (nonlinear_arith);
    assert(c * b + m == a + b - 1);
    assert((c - 1) * b == c * b - b) by (nonlinear_arith);
    assert(c >= 0) by (nonlinear_arith)
        requires
            c * b + m == a + b - 1,
            a >= 0,
            b >= 1,
            0 <= m < b,
    ;
    if a == 0 {
        assert(c == 0) by (nonlinear_arith)
            requires
                c * b + m == b - 1,
                0 <= m < b,
                b >= 1,
                c >= 0,
        ;
    } else {
        assert(c <= a) by (nonlinear_arith)
            requires
                c * b - b < a,
                b >= 1,
                a >= 1,
        ;
    }
}

/// Raise the queries of a compressor.
pub fn raise_queries(q: u64, n_used: usize, last: Option<u64>, last_used: u64) -> (r: u64)
    requires
        can_raise(q as int, n_used as int, last),
    ensures
        r == wanted_queries(q as int, n_used as int, last, last_used as int),
        r > q,
{
    let used: u64 = if n_used > 1 {
        n_used as u64
    } else {
        1
    };
    let mut two_points: bool = false;
    let mut p: u64 = 0;
    match last {
        Some(x) => {
            if x != q {
                two_points = true;
                p = x;
            }
        },
        None => {},
    }
    let guess: u64;
    if two_points {
        let rise: u64 = if q > p {
            if used > last_used {
                used - last_used
            } else {
                0
            }
        } else {
            if last_used > used {
                last_used - used
            } else {
                0
            }
        };
        let slope: u64 = if rise > 1 {
            rise
        } else {
            1
        };
        let run: u64 = if q > p {
            q - p
        } else {
            p - q
        };
        let deficit: u64 = if TARGET_ROWS > used {
            TARGET_ROWS - used
        } else {
            0
        };
        proof {
            assert(0 <= deficit * run) by (nonlinear_arith)
                requires
                    0 <= deficit,
                    0 <= run,
            ;
            lemma_ceil(deficit * run, slope as int);
        }
        guess = q + div_up(deficit * run, slope);
    } else {
        proof {
            lemma_ceil(TARGET_ROWS * q, used as int);
        }
        guess = div_up(TARGET_ROWS * q, used);
    }
    if guess > q {
        guess
    } else {
        q + 1
    }
}

/// What follows an attempt at recursive1.
pub fn after_attempt(a: Attempts, o: Outcome) -> (r: Next)
    requires
        a.made < MAX_R1_ATTEMPTS,
        outcome_ok(a, o),
    ensures
        r == next_of(a, o),
{
    match o {
        Outcome::Done => Next::Accept,
        Outcome::Failed => Next::GiveUp(ResizeError::Failed),
        Outcome::NeedsCompressor(_) => if a.made + 1 >= MAX_R1_ATTEMPTS {
            Next::GiveUp(ResizeError::NotConverged)
        } else {
            Next::Retry(
                Attempts {
                    made: a.made + 1,
                    has_compressor: true,
                    queries: a.queries,
                    last_queries: a.last_queries,
                    last_used: a.last_used,
                },
            )
        },
        Outcome::TooSmall(e, c) => match c {
            CompressorQueries::NoStructure => Next::GiveUp(
                ResizeError::NoStructure { n_bits: e.n_bits },
            ),
            CompressorQueries::Unknown => Next::GiveUp(
                ResizeError::NoQueries { n_bits: e.n_bits },
            ),
            CompressorQueries::Known(q) => {
                if q == 0 {
                    return Next::GiveUp(ResizeError::NoQueries { n_bits: e.n_bits });
                }
                let wanted: u64 = raise_queries(q, e.n_used, a.last_queries, a.last_used);
                if a.made + 1 >= MAX_R1_ATTEMPTS {
                    Next::GiveUp(ResizeError::NotConverged)
                } else {
                    Next::Retry(
                        Attempts {
                            made: a.made + 1,
                            has_compressor: a.has_compressor,
                            queries: Some(wanted),
                            last_queries: Some(q),
                            last_used: if e.n_used > 1 {
                                e.n_used as u64
                            } else {
                                1
                            },
                        },
                    )
                }
            },
        },
    }
}

/// Attempts come to an end: a retry is one attempt further, and below the limit.
pub proof fn law_attempts_end(a: Attempts, o: Outcome)
    requires
        a.made < MAX_R1_ATTEMPTS,
    ensures
        match next_of(a, o) {
            Next::Retry(b) => b.made == a.made + 1 && b.made < MAX_R1_ATTEMPTS,
            _ => true,
        },
{
}

/// Soundness is never weakened: a compressor that is asked again is asked for more queries, and
/// a compressor that is there stays.
pub proof fn law_queries_increase(a: Attempts, o: Outcome)
    requires
        a.made < MAX_R1_ATTEMPTS,
        outcome_ok(a, o),
    ensures
        match next_of(a, o) {
            Next::Retry(b) => {
                &&& a.has_compressor ==> b.has_compressor
                &&& match o {
                    Outcome::TooSmall(e, CompressorQueries::Known(q)) => b.queries is Some
                        && b.queries->0 > q,
                    _ => b.queries == a.queries,
                }
            },
            _ => true,
        },
{
    match o {
        Outcome::TooSmall(e, CompressorQueries::Known(q)) => {
            if q != 0 {
                lemma_wanted_fits(q, e.n_used, a.last_queries, a.last_used);
            }
        },
        _ => {},
    }
}

proof fn lemma_wanted_fits(q: u64, n_used: usize, last: Option<u64>, last_used: u64)
    requires
        can_raise(q as int, n_used as int, last),
    ensures
        q < wanted_queries(q as int, n_used as int, last, last_used as int) <= u64::MAX,
{
    let used = at_least_one(n_used as int);
    lemma_ceil(TARGET_ROWS * q, used);
    match last {
        Some(p) => {
            let run = if q > p {
                q - p
            } else {
                p - q
            };
            let rise = if q > p {
                above(used, last_used as int)
            } else {
                above(last_used as int, used)
            };
            let deficit = above(TARGET_ROWS as int, used);
            assert(0 <= deficit * run) by (nonlinear_arith)
                requires
                    0 <= deficit,
                    0 <= run,
            ;
            lemma_ceil(deficit * run, at_least_one(rise));
        },
        None => {},
    }
}

/// Where the rows of a circuit grow by `k` for each query, two measured points are enough: the
/// queries asked for next reach the target, and one fewer would not, unless it is only one more
/// than before.
pub proof fn law_two_points_reach_the_target(
    base: nat,
    k: nat,
    q: u64,
    p: u64,
    n_used: usize,
    last_used: u64,
)
    requires
        k >= 1,
        p != q,
        n_used == base + k * q,
        last_used == base + k * p,
        1 <= n_used < TARGET_ROWS,
    ensures
        ({
            let w = wanted_queries(q as int, n_used as int, Some(p), last_used as int);
            base + k * w >= TARGET_ROWS && (w > q + 1 ==> base + k * (w - 1) < TARGET_ROWS)
        }),
{
    let used = n_used as int;
    let run = if q > p {
        q - p
    } else {
        p - q
    };
    let rise = if q > p {
        above(used, last_used as int)
    } else {
        above(last_used as int, used)
    };
    let deficit = TARGET_ROWS - used;
    let c = ceil_div(deficit * run, at_least_one(rise));
    let w = wanted_queries(q as int, used, Some(p), last_used as int);
    assert(at_least_one(used) == used);
    assert(k * q - k * p == k * (q - p)) by (nonlinear_arith);
    assert(rise == k * run) by {
        if q > p {
            assert(k * (q - p) >= 1) by (nonlinear_arith)
                requires
                    k >= 1,
                    q - p >= 1,
            ;
        } else {
            assert(k * (q - p) <= -1) by (nonlinear_arith)
                requires
                    k >= 1,
                    q - p <= -1,
            ;
            assert(k * (p - q) == -(k * (q - p))) by (nonlinear_arith);
        }
    }
    assert(rise >= 1) by (nonlinear_arith)
        requires
            rise == k * run,
            k >= 1,
            run >= 1,
    ;
    assert(deficit * run >= 1) by (nonlinear_arith)
        requires
            deficit >= 1,
            run >= 1,
    ;
    lemma_ceil(deficit * run, rise);
    assert(c * (k * run) >= deficit * run);
    assert(c * k >= deficit) by (nonlinear_arith)
        requires
            c * (k * run) >= deficit * run,
            run >= 1,
    ;
    assert((c - 1) * k < deficit) by (nonlinear_arith)
        requires
            (c - 1) * (k * run) < deficit * run,
            run >= 1,
    ;
    assert(c >= 1) by (nonlinear_arith)
        requires
            c * k >= deficit,
            deficit >= 1,
            k >= 1,
    ;
    assert(w == q + c);
    assert(k * (q + c) == k * q + c * k) by (nonlinear_arith);
    assert(k * (q + c - 1) == k * q + (c - 1) * k) by (nonlinear_arith);
}

/// Where the rows of a circuit grow by `k` for each query on top of a fixed base, the first
/// guess does not overshoot: one query fewer would miss the target.
pub proof fn law_first_guess_does_not_overshoot(base: nat, k: nat, q: u64, n_used: usize, last_used: u64)
    requires
        q >= 1,
        k >= 1,
        n_used == base + k * q,
        n_used < TARGET_ROWS,
    ensures
        ({
            let w = wanted_queries(q as int, n_used as int, None, last_used as int);
            w > q + 1 ==> base + k * (w - 1) < TARGET_ROWS
        }),
{
    let used = n_used as int;
    let w = wanted_queries(q as int, used, None, last_used as int);
    let t = TARGET_ROWS as int;
    assert(used >= 1) by (nonlinear_arith)
        requires
            used == base + k * q,
            k >= 1,
            q >= 1,
            base >= 0,
    ;
    assert(t * q >= 1) by (nonlinear_arith)
        requires
            t >= 1,
            q >= 1,
    ;
    lemma_ceil(t * q, used);
    if w > q + 1 {
        let v = w - 1;
        assert(w == proportional(q as int, used));
        assert(v * used < t * q);
        assert(v >= q);
        assert(base * q + k * v * q <= v * (base + k * q)) by (nonlinear_arith)
            requires
                v >= q,
                base >= 0,
        ;
        assert((base + k * v) * q == base * q + k * v * q) by (nonlinear_arith);
        assert(base + k * v < t) by (nonlinear_arith)
            requires
                (base + k * v) * q < t * q,
                q >= 1,
        ;
    }
}

impl ResizeError {
    /// What to tell the user of an air.
    pub fn message(&self, air_name: &str) -> (r: String)
        ensures
            r@ == match *self {
                ResizeError::NoStructure { n_bits } => "Air '"@ + air_name@
                    + "' recursive1 too small (n_bits="@ + dec(n_bits as nat)
                    + ") but compressor starkStruct is missing; cannot resize"@,
                ResizeError::NoQueries { n_bits } => "Air '"@ + air_name@
                    + "' recursive1 too small (n_bits="@ + dec(n_bits as nat)
                    + ") but compressor nQueries is 0; cannot resize"@,
                ResizeError::NotConverged => "Air '"@ + air_name@
                    + "' recursive1 did not converge to the shared domain after "@ + dec(
                    MAX_R1_ATTEMPTS as nat,
                ) + " attempts"@,
                ResizeError::Failed => "Recursive1 setup failed for air '"@ + air_name@ + "'"@,
            },
    {
        match self {
            ResizeError::NoStructure { n_bits } => {
                let mut out: String = "Air '".to_owned();
                out.append(air_name);
                out.append("' recursive1 too small (n_bits=");
                push_dec(&mut out, *n_bits as u64);
                out.append(") but compressor starkStruct is missing; cannot resize");
                out
            },
            ResizeError::NoQueries { n_bits } => {
                let mut out: String = "Air '".to_owned();
                out.append(air_name);
                out.append("' recursive1 too small (n_bits=");
                push_dec(&mut out, *n_bits as u64);
                out.append(") but compressor nQueries is 0; cannot resize");
                out
            },
            ResizeError::NotConverged => {
                let mut out: String = "Air '".to_owned();
                out.append(air_name);
                out.append("' recursive1 did not converge to the shared domain after ");
                push_dec(&mut out, MAX_R1_ATTEMPTS as u64);
                out.append(" attempts");
                out
            },
            ResizeError::Failed => {
                let mut out: String = "Recursive1 setup failed for air '".to_owned();
                out.append(air_name);
                out.append("'");
                out
            },
        }
    }
}

} // verus!
