//! Fuzzy finding: what the matcher is given of each fragment, and what a
//! hit reports.

use vstd::prelude::*;

use crate::text::{chars_of, push_chars, push_str, string_of};

verus! {

/// A candidate fragment to be ranked by the fuzzy matcher. Matching runs
/// against `title` and `body` concatenated; only character indices that
/// fall within the title are reported in a hit.
#[derive(Clone, Debug)]
pub struct FuzzyItem {
    pub id: String,
    pub title: String,
    pub body: String,
    pub fragment_type: String,
    pub status: Option<String>,
    pub tags: Vec<String>,
    pub created_at: String,
    pub updated_at: String,
}

#[derive(Clone, Debug)]
pub struct FuzzyHit {
    pub item: FuzzyItem,
    pub score: u32,
    pub title_match_indices: Vec<u32>,
}

impl FuzzyItem {
    /// The text the matcher sees: the title, then the body on the next line.
    pub fn haystack(&self) -> (r: String)
        ensures
            r@ == (if self.body@.len() == 0 {
                self.title@
            } else {
                self.title@ + "\n"@ + self.body@
            }),
    {
        let b = chars_of(self.body.as_str());
        if b.len() == 0 {
            self.title.clone()
        } else {
            let mut out = chars_of(self.title.as_str());
            push_str(&mut out, "\n");
            push_chars(&mut out, &b);
            string_of(&out)
        }
    }

    /// How many characters the title has (as a `u32`).
    pub fn title_char_count(&self) -> (r: u32)
        ensures
            r == self.title@.len() as u32,
    {
        let t = chars_of(self.title.as_str());
        t.len() as u32
    }
}

/// Strictly rising.
pub open spec fn rising(v: Seq<u32>) -> bool {
    forall|i: int, j: int| 0 <= i < j < v.len() ==> v[i] < v[j]
}

/// The matched character positions that fall within the title, once each,
/// in order.
pub fn title_match_indices(indices: &[u32], title_chars: u32) -> (r: Vec<u32>)
    ensures
        rising(r@),
        forall|x: u32| #[trigger] r@.contains(x) <==> (indices@.contains(x) && x < title_chars),
{
    let mut out: Vec<u32> = Vec::new();
    let mut k: usize = 0;
    while k < indices.len()
        invariant
            k <= indices.len(),
            rising(out@),
            forall|x: u32| #[trigger] out@.contains(x) <==> (indices@.subrange(0, k as int).contains(x)
                && x < title_chars),
        decreases indices.len() - k,
    {
        let x = indices[k];
        let ghost before = out@;
        let ghost s0 = indices@.subrange(0, k as int);
        let ghost s1 = indices@.subrange(0, k + 1);
        assert(s1 =~= s0.push(x));
        assert forall|y: u32| #[trigger] s1.contains(y) <==> (s0.contains(y) || y == x) by {
            if s1.contains(y) {
                let j = choose|j: int| 0 <= j < s1.len() && s1[j] == y;
                if j < k {
                    assert(s0[j] == y);
                }
            }
            if s0.contains(y) {
                let j = choose|j: int| 0 <= j < s0.len() && s0[j] == y;
                assert(s1[j] == y);
            }
            if y == x {
                assert(s1[k as int] == y);
            }
        }
        if x < title_chars {
            let mut i: usize = 0;
            while i < out.len() && out[i] < x
                invariant
                    i <= out.len(),
                    forall|j: int| 0 <= j < i ==> out@[j] < x,
                decreases out.len() - i,
            {
                i = i + 1;
            }
            if i < out.len() && out[i] == x {
                assert(before.contains(x));
            } else {
                out.insert(i, x);
                assert forall|a: int, b: int| 0 <= a < b < out@.len() implies out@[a] < out@[b] by {
                    if b < i {
                        assert(before[a] < before[b]);
                    } else if b == i {
                    } else if a < i {
                        assert(before[a] < before[b - 1]);
                    } else if a == i {
                        assert(x < before[i as int]);
                        if b - 1 > i {
                            assert(before[i as int] < before[b - 1]);
                        }
                    } else {
                        assert(before[a - 1] < before[b - 1]);
                    }
                }
                assert forall|y: u32| #[trigger] out@.contains(y) <==> (before.contains(y) || y == x) by {
                    if out@.contains(y) {
                        let j = choose|j: int| 0 <= j < out@.len() && out@[j] == y;
                        if j < i {
                            assert(before[j] == y);
                        } else if j > i {
                            assert(before[j - 1] == y);
                        }
                    }
                    if before.contains(y) {
                        let j = choose|j: int| 0 <= j < before.len() && before[j] == y;
                        if j < i {
                            assert(out@[j] == y);
                        } else {
                            assert(out@[j + 1] == y);
                        }
                    }
                    if y == x {
                        assert(out@[i as int] == y);
                    }
                }
            }
        }
        k = k + 1;
    }
    assert(indices@.subrange(0, indices@.len() as int) =~= indices@);
    out
}

/// How many hits to report: the matches, at most `limit`.
pub fn hit_count(matched: u32, limit: usize) -> (r: usize)
    ensures
        r == if (matched as usize) < limit {
            matched as usize
        } else {
            limit
        },
{
    let total = matched as usize;
    if total < limit {
        total
    } else {
        limit
    }
}

} // verus!
