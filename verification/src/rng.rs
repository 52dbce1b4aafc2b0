use vstd::prelude::*;
use rand::Rng;
use crate::FX_ONE;

verus! {

/// Where the sampling loops take their uniform draws from: the thread-local
/// generator, or a fixed list of values for reproducible runs.
pub struct DrawSource {
    /// When set, draws come from `values` in order instead of the generator.
    pub fixed: bool,
    /// The prepared draws, each expected in `[0, FX_ONE)`.
    pub values: Vec<i64>,
    /// The index of the next prepared draw.
    pub next: usize,
}

/// What a prepared draw yields: the stored value when it is in range,
/// otherwise zero; zero once the list is exhausted.
pub open spec fn fixed_draw_spec(values: Seq<i64>, next: int) -> i64 {
    if next < values.len() {
        if 0 <= values[next] < FX_ONE {
            values[next]
        } else {
            0
        }
    } else {
        0
    }
}

impl DrawSource {
    /// A source that draws from the thread-local generator.
    pub fn random() -> (r: DrawSource)
        ensures
            !r.fixed,
    {
        DrawSource { fixed: false, values: Vec::new(), next: 0 }
    }

    /// A source that replays the given draws, for reproducible runs.
    pub fn fixed(values: Vec<i64>) -> (r: DrawSource)
        ensures
            r.fixed,
            r.values == values,
            r.next == 0,
    {
        DrawSource { fixed: true, values, next: 0 }
    }

    /// One uniform draw in `[0, FX_ONE)`. A fixed source replays its list and
    /// yields zero past its end or for an out-of-range entry.
    pub fn next_unit(&mut self) -> (r: i64)
        ensures
            0 <= r < FX_ONE,
            final(self).fixed == old(self).fixed,
            final(self).values == old(self).values,
            old(self).fixed ==> r == fixed_draw_spec(old(self).values@, old(self).next as int),
            old(self).fixed && old(self).next < old(self).values@.len() ==> final(self).next
                == old(self).next + 1,
            old(self).fixed && old(self).next >= old(self).values@.len() ==> final(self).next
                == old(self).next,
    {
        if self.fixed {
            if self.next < self.values.len() {
                let v = self.values[self.next];
                self.next = self.next + 1;
                if 0 <= v && v < FX_ONE {
                    v
                } else {
                    0
                }
            } else {
                0
            }
        } else {
            draw_unit()
        }
    }
}

/// Relies on rand::Rng::gen_range with the thread-local generator: the result
/// lies inside the given half-open range.
#[verifier::external_body]
fn draw_unit() -> (r: i64)
    ensures
        0 <= r < FX_ONE,
{
    rand::thread_rng().gen_range(0..FX_ONE)
}

} // verus!
