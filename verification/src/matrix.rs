//! The force matrix.
//!
//! A mapping from an ordered pair of species to the signed force
//! coefficient between them, built once at startup and read-only for the
//! rest of the run.  The matrix is not symmetric: the two orders of a
//! pair are independent draws.

use vstd::prelude::*;
use vstd::pervasive::VecAdditionalExecFns;
use crate::config::ConfigError;
use crate::fixed::{Fp, SCALE};
use crate::rng::random_i64;
use crate::species::{colour_index, Colour, NUM_COLOURS};

verus! {

/// `x` occurs among the first `k` elements of `s`.
pub open spec fn in_prefix(s: Seq<Colour>, k: int, x: Colour) -> bool {
    exists|t: int| 0 <= t < k && s[t] == x
}

proof fn lemma_in_prefix_step(s: Seq<Colour>, k: int, x: Colour)
    requires
        0 <= k < s.len(),
    ensures
        in_prefix(s, k + 1, x) <==> (in_prefix(s, k, x) || s[k] == x),
{
    if in_prefix(s, k + 1, x) {
        let t = choose|t: int| 0 <= t < k + 1 && s[t] == x;
        if t < k {
            assert(in_prefix(s, k, x));
        }
    }
    if in_prefix(s, k, x) {
        let t = choose|t: int| 0 <= t < k && s[t] == x;
        assert(0 <= t < k + 1 && s[t] == x);
    }
    if s[k] == x {
        assert(0 <= k < k + 1 && s[k] == x);
    }
}

proof fn lemma_in_prefix_full(s: Seq<Colour>, x: Colour)
    ensures
        in_prefix(s, s.len() as int, x) <==> s.contains(x),
{
    if in_prefix(s, s.len() as int, x) {
        let t = choose|t: int| 0 <= t < s.len() && s[t] == x;
        assert(s[t] == x);
    }
    if s.contains(x) {
        let t = choose|t: int| 0 <= t < s.len() && s[t] == x;
        assert(0 <= t < s.len() && s[t] == x);
    }
}

/// Mapping `(Colour, Colour) -> coefficient`: one slot per ordered pair
/// of the closed colour set; a slot holds `None` until that pair is
/// configured.
pub struct ForceMatrix {
    entries: Vec<Option<Fp>>,
}

impl ForceMatrix {
    /// The backing table has one slot for each ordered pair.
    pub closed spec fn wf(self) -> bool {
        self.entries@.len() == 144
    }

    /// The coefficient stored for the ordered pair `(a, b)`.
    pub closed spec fn entry(self, a: Colour, b: Colour) -> Option<Fp> {
        self.entries@[colour_index(a) * 12 + colour_index(b)]
    }

    /// Every ordered pair drawn from `species` (self-pairs included) has
    /// a coefficient.
    pub open spec fn covers(self, species: Seq<Colour>) -> bool {
        forall|a: Colour, b: Colour|
            species.contains(a) && species.contains(b) ==> (#[trigger] self.entry(a, b)) is Some
    }

    /// Every present coefficient lies in `[-1, 1)` whole units.
    pub open spec fn in_range(self) -> bool {
        forall|a: Colour, b: Colour|
            (#[trigger] self.entry(a, b)) matches Some(v) ==> -(SCALE as int) <= v@ < SCALE as int
    }

    /// An empty matrix: no pair has a coefficient yet.
    pub fn new() -> (m: ForceMatrix)
        ensures
            m.wf(),
            forall|a: Colour, b: Colour| (#[trigger] m.entry(a, b)) is None,
    {
        let mut entries: Vec<Option<Fp>> = Vec::new();
        let mut i: usize = 0;
        while i < 144
            invariant
                entries@.len() == i,
                i <= 144,
                forall|k: int| 0 <= k < i ==> entries@[k] is None,
            decreases 144 - i,
        {
            entries.push(None);
            i = i + 1;
        }
        ForceMatrix { entries }
    }

    /// Store the coefficient for the ordered pair `(a, b)`; every other
    /// pair keeps its slot.
    pub fn set_pair(&mut self, a: Colour, b: Colour, v: Fp)
        requires
            old(self).wf(),
        ensures
            final(self).wf(),
            final(self).entry(a, b) == Some(v),
            forall|x: Colour, y: Colour|
                !(x == a && y == b) ==> #[trigger] final(self).entry(x, y) == old(self).entry(
                    x,
                    y,
                ),
    {
        let i = a.index() * NUM_COLOURS + b.index();
        self.entries.set(i, Some(v));
    }

    /// Look the ordered pair `(a, b)` up; `None` means the pair was never
    /// configured, which callers must treat as a configuration fault.
    pub fn get(&self, a: Colour, b: Colour) -> (r: Option<Fp>)
        requires
            self.wf(),
        ensures
            r == self.entry(a, b),
    {
        let i = a.index() * NUM_COLOURS + b.index();
        self.entries[i]
    }

    /// Build the matrix for a configured species list: one independent
    /// random coefficient in `[-1, 1)` whole units for every ordered pair
    /// of species present (self-pairs included, duplicates in the list
    /// harmless).  An empty list is a configuration error.
    pub fn generate(species: &Vec<Colour>) -> (r: Result<ForceMatrix, ConfigError>)
        ensures
            r is Ok <==> species@.len() > 0,
            species@.len() == 0 <==> r == Err::<ForceMatrix, ConfigError>(
                ConfigError::EmptySpecies,
            ),
            r matches Ok(m) ==> {
                &&& m.wf()
                &&& forall|a: Colour, b: Colour|
                    (#[trigger] m.entry(a, b)) is Some <==> species@.contains(a)
                        && species@.contains(b)
                &&& m.in_range()
            },
    {
        if species.len() == 0 {
            return Err(ConfigError::EmptySpecies);
        }
        let mut m = ForceMatrix::new();
        let n = species.len();
        let mut i: usize = 0;
        while i < n
            invariant
                m.wf(),
                m.in_range(),
                i <= n,
                n == species@.len(),
                forall|a: Colour, b: Colour|
                    (#[trigger] m.entry(a, b)) is Some <==> in_prefix(species@, i as int, a)
                        && species@.contains(b),
            decreases n - i,
        {
            let mut j: usize = 0;
            while j < n
                invariant
                    m.wf(),
                    m.in_range(),
                    i < n,
                    j <= n,
                    n == species@.len(),
                    forall|a: Colour, b: Colour|
                        (#[trigger] m.entry(a, b)) is Some <==> (in_prefix(species@, i as int, a)
                            && species@.contains(b)) || (a == species@[i as int] && in_prefix(
                            species@,
                            j as int,
                            b,
                        )),
                decreases n - j,
            {
                let c = random_i64(-SCALE, SCALE);
                m.set_pair(species[i], species[j], Fp { raw: c });
                proof {
                    lemma_in_prefix_step(species@, j as int, species@[j as int]);
                    assert forall|b: Colour|
                        in_prefix(species@, j + 1, b) <==> (in_prefix(species@, j as int, b)
                            || species@[j as int] == b) by {
                        lemma_in_prefix_step(species@, j as int, b);
                    }
                    assert forall|b: Colour| in_prefix(species@, j as int, b) implies
                        species@.contains(b) by {
                        let t = choose|t: int| 0 <= t < j && species@[t] == b;
                        assert(species@[t] == b);
                    }
                    assert(species@.contains(species@[j as int]));
                }
                j = j + 1;
            }
            proof {
                assert forall|b: Colour| in_prefix(species@, n as int, b) <==> species@.contains(
                    b,
                ) by {
                    lemma_in_prefix_full(species@, b);
                }
                assert forall|a: Colour|
                    in_prefix(species@, i + 1, a) <==> (in_prefix(species@, i as int, a)
                        || species@[i as int] == a) by {
                    lemma_in_prefix_step(species@, i as int, a);
                }
            }
            i = i + 1;
        }
        proof {
            assert forall|a: Colour| in_prefix(species@, n as int, a) <==> species@.contains(
                a,
            ) by {
                lemma_in_prefix_full(species@, a);
            }
        }
        Ok(m)
    }
}

} // verus!
