use vstd::prelude::*;

use crate::rng::random_u32_inclusive;

verus! {

/// One of the four treasure kinds. The ordinal of a kind determines its
/// base point value; the exact value within a kind's bucket is assigned
/// only at scoring time.
#[derive(Clone, Copy, Debug, PartialEq, Eq, Hash, Structural)]
pub enum Treasure {
    One,
    Two,
    Three,
    Four,
}

/// Number of distinct treasure kinds.
pub const TREASURE_COUNT: usize = 4;

/// Maximum number of treasures a player can hold at once.
pub const MAX_NUM_TREASURES: usize = 10;

impl Treasure {
    /// Zero-based ordinal of this treasure kind.
    pub open spec fn ord(self) -> u16 {
        match self {
            Treasure::One => 0,
            Treasure::Two => 1,
            Treasure::Three => 2,
            Treasure::Four => 3,
        }
    }

    fn idx(&self) -> (r: usize)
        ensures
            r == self.ord(),
    {
        match self {
            Treasure::One => 0,
            Treasure::Two => 1,
            Treasure::Three => 2,
            Treasure::Four => 3,
        }
    }

    fn base_value(&self) -> (r: u32)
        ensures
            r == self.ord() * 4,
    {
        self.idx() as u32 * 4
    }
}

/// The sum of the first `k` counts of a bucket row.
pub open spec fn sum_prefix(b: Seq<u32>, k: int) -> int
    decreases k,
{
    if k <= 0 {
        0
    } else {
        sum_prefix(b, k - 1) + b[k - 1]
    }
}

/// A sum of unsigned counts is non-negative.
proof fn lemma_sum_prefix_nonneg(b: Seq<u32>, k: int)
    ensures
        sum_prefix(b, k) >= 0,
    decreases k,
{
    if k > 0 {
        lemma_sum_prefix_nonneg(b, k - 1);
    }
}

/// A row sum is at least each of its elements.
proof fn lemma_sum_prefix_ge(b: Seq<u32>, k: int, j: int)
    requires
        0 <= j < k <= b.len(),
    ensures
        sum_prefix(b, k) >= b[j],
    decreases k,
{
    if j < k - 1 {
        lemma_sum_prefix_ge(b, k - 1, j);
    } else {
        lemma_sum_prefix_nonneg(b, k - 1);
    }
}

/// Assigns each collected treasure a fine-grained point value by
/// sampling without replacement from a bucket of values per treasure
/// kind: each kind starts with two instances of each of four value
/// offsets above the kind's base value.
pub struct TreasureValueAssigner {
    buckets: Vec<Vec<u32>>,
}

impl View for TreasureValueAssigner {
    type V = Seq<Seq<u32>>;

    closed spec fn view(&self) -> Seq<Seq<u32>> {
        self.buckets@.map_values(|row: Vec<u32>| row@)
    }
}

impl TreasureValueAssigner {
    /// Well-formedness: four rows of four counts, none above the initial
    /// count of two.
    pub open spec fn wf(self) -> bool {
        &&& self@.len() == 4
        &&& forall|i: int| 0 <= i < 4 ==> (#[trigger] self@[i]).len() == 4
        &&& forall|i: int, j: int| 0 <= i < 4 && 0 <= j < 4 ==> (#[trigger] self@[i][j]) <= 2
    }

    /// A fresh assigner with every bucket count at two.
    pub fn new() -> (r: Self)
        ensures
            r.wf(),
            forall|i: int, j: int| 0 <= i < 4 && 0 <= j < 4 ==> (#[trigger] r@[i][j]) == 2,
    {
        let mut buckets: Vec<Vec<u32>> = Vec::new();
        let mut i: usize = 0;
        while i < 4
            invariant
                i <= 4,
                buckets@.len() == i,
                forall|k: int| 0 <= k < i ==> (#[trigger] buckets@[k])@ =~= seq![2u32, 2u32, 2u32, 2u32],
            decreases 4 - i,
        {
            buckets.push(vec![2u32, 2u32, 2u32, 2u32]);
            i += 1;
        }
        let r = Self { buckets };
        proof {
            assert forall|k: int, j: int| 0 <= k < 4 && 0 <= j < 4 implies (#[trigger] r@[k][j])
                == 2 by {
                assert(r@[k] == buckets@[k]@);
            }
        }
        r
    }

    /// Draw a value for `treasure`: its base value plus a bucket offset
    /// chosen at random among the offsets still available for its kind,
    /// which is then used up.
    #[verifier::loop_isolation(false)]
    pub fn assign_value(&mut self, treasure: Treasure) -> (r: u32)
        requires
            old(self).wf(),
            exists|j: int| 0 <= j < 4 && old(self)@[treasure.ord() as int][j] > 0,
        ensures
            final(self).wf(),
            ({
                let row = old(self)@[treasure.ord() as int];
                exists|j: int|
                    0 <= j < 4 && #[trigger] row[j] > 0 && r == treasure.ord() * 4 + j
                        && final(self)@ == old(self)@.update(
                        treasure.ord() as int,
                        row.update(j, (row[j] - 1) as u32),
                    )
            }),
    {
        let idx = treasure.idx();
        let ghost row = self@[idx as int];
        proof {
            assert(row == self.buckets@[idx as int]@);
        }

        let mut total: u32 = 0;
        let mut k: usize = 0;
        while k < 4
            invariant
                self == old(self),
                k <= 4,
                total == sum_prefix(row, k as int),
                total <= 2 * k,
            decreases 4 - k,
        {
            proof {
                assert(self.buckets@[idx as int]@[k as int] == row[k as int]);
            }
            total = total + self.buckets[idx][k];
            k += 1;
        }

        proof {
            let jw = choose|j: int| 0 <= j < 4 && row[j] > 0;
            lemma_sum_prefix_ge(row, 4, jw);
            assert(total >= 1);
        }
        let mut choice = random_u32_inclusive(1, total);
        let ghost choice0 = choice;

        let mut value_idx: usize = 0;
        loop
            invariant
                self == old(self),
                value_idx <= 4,
                1 <= choice0 <= total,
                total == sum_prefix(row, 4),
                choice as int == if choice0 > sum_prefix(row, value_idx as int) {
                    choice0 - sum_prefix(row, value_idx as int)
                } else {
                    0
                },
                choice > 0,
            decreases 4 - value_idx,
        {
            proof {
                if value_idx >= 4 {
                    assert(choice as int == 0);
                    assert(false);
                }
                assert(self.buckets@[idx as int]@[value_idx as int] == row[value_idx as int]);
            }
            let count = self.buckets[idx][value_idx];
            let prev_choice = choice;
            choice = if choice >= count {
                choice - count
            } else {
                0
            };
            if choice == 0 {
                proof {
                    assert(count >= prev_choice);
                    assert(row[value_idx as int] > 0);
                }
                let new_count = count - 1;
                self.buckets[idx][value_idx] = new_count;
                proof {
                    assert(self@ =~= old(self)@.update(
                        idx as int,
                        row.update(value_idx as int, (row[value_idx as int] - 1) as u32),
                    )) by {
                        assert forall|i: int| 0 <= i < 4 implies self@[i] == old(self)@.update(
                            idx as int,
                            row.update(value_idx as int, (row[value_idx as int] - 1) as u32),
                        )[i] by {
                            assert(self@[i] == self.buckets@[i]@);
                            assert(old(self)@[i] == old(self).buckets@[i]@);
                            if i != idx {
                                assert(self.buckets@[i] == old(self).buckets@[i]);
                            } else {
                                assert(self.buckets@[i]@ =~= row.update(
                                    value_idx as int,
                                    (row[value_idx as int] - 1) as u32,
                                ));
                            }
                        }
                    }
                }
                return treasure.base_value() + value_idx as u32;
            }
            value_idx += 1;
        }
    }
}

impl Default for TreasureValueAssigner {
    fn default() -> (r: Self)
        ensures
            r.wf(),
            forall|i: int, j: int| 0 <= i < 4 && 0 <= j < 4 ==> (#[trigger] r@[i][j]) == 2,
    {
        Self::new()
    }
}

} // verus!
