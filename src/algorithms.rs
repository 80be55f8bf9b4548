use vstd::prelude::*;
use vstd::utf8::encode_utf8_decode_utf8;
use vstd::string::StringSliceAdditionalSpecFns;

verus! {

/// Squared escape radius of the classic iteration. It is larger than the
/// textbook 4 so that renders match the reference pictures.
pub const CLASSIC_ESCAPE_THRESHOLD: u32 = 32;

/// Squared escape radius of the Burning Ship iteration, the textbook 4.
pub const BURNING_SHIP_ESCAPE_THRESHOLD: u32 = 4;

/// The classic escape-time iteration `z <- z * z + c` from `z = 0`.
#[derive(Debug, Clone, Copy, PartialEq, Eq, Structural)]
pub struct EscapeTime;

/// The Burning Ship iteration: before each squaring both parts of `z` are set
/// to the absolute value of its imaginary part (not `(|re|, |im|)` as in the
/// textbook variant).
#[derive(Debug, Clone, Copy, PartialEq, Eq, Structural)]
pub struct BurningShip;

impl EscapeTime {
    /// Squared modulus above which an orbit has escaped.
    pub fn escape_threshold(&self) -> (r: u32)
        ensures
            r == CLASSIC_ESCAPE_THRESHOLD,
    {
        CLASSIC_ESCAPE_THRESHOLD
    }
}

impl BurningShip {
    /// Squared modulus above which an orbit has escaped.
    pub fn escape_threshold(&self) -> (r: u32)
        ensures
            r == BURNING_SHIP_ESCAPE_THRESHOLD,
    {
        BURNING_SHIP_ESCAPE_THRESHOLD
    }
}

/// The escape algorithms that an image can be rendered with.
#[derive(Debug, Clone, Copy, PartialEq, Eq, Structural)]
pub enum Algorithm {
    EscapeTime(EscapeTime),
    BurningShip(BurningShip),
}

impl Algorithm {
    pub open spec fn threshold(self) -> u32 {
        match self {
            Algorithm::EscapeTime(_) => CLASSIC_ESCAPE_THRESHOLD,
            Algorithm::BurningShip(_) => BURNING_SHIP_ESCAPE_THRESHOLD,
        }
    }

    /// Squared modulus above which an orbit has escaped.
    pub fn escape_threshold(&self) -> (r: u32)
        ensures
            r == self.threshold(),
    {
        match self {
            Algorithm::EscapeTime(a) => a.escape_threshold(),
            Algorithm::BurningShip(a) => a.escape_threshold(),
        }
    }
}

/// Whether two byte slices hold the same bytes.
fn same_bytes(a: &[u8], b: &[u8]) -> (r: bool)
    ensures
        r == (a@ == b@),
{
    if a.len() != b.len() {
        return false;
    }
    let mut i: usize = 0;
    while i < a.len()
        invariant
            a@.len() == b@.len(),
            i <= a@.len(),
            forall|j: int| 0 <= j < i ==> a@[j] == b@[j],
        decreases a@.len() - i,
    {
        if a[i] != b[i] {
            return false;
        }
        i = i + 1;
    }
    assert(a@ =~= b@);
    true
}

/// Whether two strings hold the same characters, compared byte by byte.
fn same_text(a: &str, b: &str) -> (r: bool)
    ensures
        r == (a@ == b@),
{
    let equal: bool = same_bytes(a.as_bytes(), b.as_bytes());
    proof {
        encode_utf8_decode_utf8(a@);
        encode_utf8_decode_utf8(b@);
        if a@ == b@ {
            assert(a.spec_bytes() == b.spec_bytes());
        }
    }
    equal
}

/// The algorithm that `name` selects: `"burning_ship"` selects the Burning
/// Ship; `"escape_time"`, and any name that is not known, the classic one.
pub open spec fn algorithm_named(name: Seq<char>) -> Algorithm {
    if name == "burning_ship"@ {
        Algorithm::BurningShip(BurningShip)
    } else {
        Algorithm::EscapeTime(EscapeTime)
    }
}

/// Picks the escape algorithm by name; an unknown name gives the classic one.
pub fn get_plotting_algorithm(name: &str) -> (r: Algorithm)
    ensures
        r == algorithm_named(name@),
{
    if same_text(name, "burning_ship") {
        Algorithm::BurningShip(BurningShip)
    } else {
        Algorithm::EscapeTime(EscapeTime)
    }
}

/// What follows the escape test of one iteration.
#[derive(Debug, Clone, Copy, PartialEq, Eq, Structural)]
pub enum EscapeStep {
    /// The orbit escaped after this many iterations.
    Escaped(usize),
    /// The iteration budget is spent and the orbit stayed bounded.
    Bounded,
    /// Square, add `c`, and test again at this iteration.
    Continue(usize),
}

/// The step after testing iteration `iteration` against the limit `limit`.
/// `exceeded` tells whether the squared modulus of the orbit's value at that
/// iteration is above the algorithm's threshold; once `limit` tests have been
/// made it no longer counts.
pub open spec fn next_step(iteration: usize, limit: usize, exceeded: bool) -> EscapeStep {
    if iteration >= limit {
        EscapeStep::Bounded
    } else if exceeded {
        EscapeStep::Escaped(iteration)
    } else {
        EscapeStep::Continue((iteration + 1) as usize)
    }
}

/// Decides the escape loop shared by both algorithms: the orbit escapes at the
/// first iteration below `limit` whose test is exceeded, and is bounded when
/// none is.
pub fn escape_step(iteration: usize, limit: usize, exceeded: bool) -> (r: EscapeStep)
    ensures
        r == next_step(iteration, limit, exceeded),
{
    if iteration >= limit {
        EscapeStep::Bounded
    } else if exceeded {
        EscapeStep::Escaped(iteration)
    } else {
        EscapeStep::Continue(iteration + 1)
    }
}

/// The escape result of an orbit whose tests from iteration `i` on have the
/// outcomes `tests`, when steps are taken with `next_step`.
pub open spec fn escape_from(tests: Seq<bool>, limit: usize, i: usize) -> Option<usize>
    decreases limit - i,
{
    match next_step(i, limit, tests[i as int]) {
        EscapeStep::Escaped(n) => Some(n),
        EscapeStep::Bounded => None,
        EscapeStep::Continue(next) => if next > i {
            escape_from(tests, limit, next)
        } else {
            None
        },
    }
}

proof fn lemma_escape_from(tests: Seq<bool>, limit: usize, i: usize)
    requires
        i <= limit,
        tests.len() >= limit,
    ensures
        escape_from(tests, limit, i) matches Some(n) ==> i <= n < limit && tests[n as int] && forall|
            j: int,
        | i <= j < n ==> !tests[j],
        escape_from(tests, limit, i) is None ==> forall|j: int| i <= j < limit ==> !tests[j],
    decreases limit - i,
{
    if i < limit && !tests[i as int] {
        lemma_escape_from(tests, limit, (i + 1) as usize);
    }
}

/// An orbit run from iteration 0 escapes, if at all, at the first exceeded
/// test, and its count is below the limit. With a limit of 1 the result is
/// either a count of 0 or no escape.
pub proof fn lemma_escape_count_below_limit(tests: Seq<bool>, limit: usize)
    requires
        tests.len() >= limit,
    ensures
        escape_from(tests, limit, 0) matches Some(n) ==> n < limit && tests[n as int] && forall|
            j: int,
        | 0 <= j < n ==> !tests[j],
        escape_from(tests, limit, 0) is None ==> forall|j: int| 0 <= j < limit ==> !tests[j],
        limit == 1 ==> escape_from(tests, limit, 0) == (if tests[0] {
            Some(0usize)
        } else {
            None
        }),
{
    lemma_escape_from(tests, limit, 0);
    if limit == 1 && !tests[0] {
        assert(escape_from(tests, limit, 1) is None);
    }
}

} // verus!
