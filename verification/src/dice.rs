use vstd::prelude::*;

use crate::rng::random_index;

verus! {

/// The smallest face value of a non-empty list; zero for an empty one.
pub open spec fn seq_min(s: Seq<i32>) -> int
    decreases s.len(),
{
    if s.len() == 0 {
        0
    } else if s.len() == 1 {
        s[0] as int
    } else {
        let m = seq_min(s.drop_first());
        if s[0] <= m {
            s[0] as int
        } else {
            m
        }
    }
}

/// The largest face value of a non-empty list; zero for an empty one.
pub open spec fn seq_max(s: Seq<i32>) -> int
    decreases s.len(),
{
    if s.len() == 0 {
        0
    } else if s.len() == 1 {
        s[0] as int
    } else {
        let m = seq_max(s.drop_first());
        if s[0] >= m {
            s[0] as int
        } else {
            m
        }
    }
}

/// Every face lies between the smallest and largest face.
proof fn lemma_min_max_bound(s: Seq<i32>, i: int)
    requires
        0 <= i < s.len(),
    ensures
        seq_min(s) <= s[i] <= seq_max(s),
    decreases s.len(),
{
    if s.len() > 1 {
        if i > 0 {
            lemma_min_max_bound(s.drop_first(), i - 1);
            assert(s.drop_first()[i - 1] == s[i]);
        } else {
            lemma_min_max_bound(s.drop_first(), 0);
        }
    }
}

/// A die with an explicit list of face values.
pub struct Die {
    values: Vec<i32>,
}

impl View for Die {
    type V = Seq<i32>;

    closed spec fn view(&self) -> Seq<i32> {
        self.values@
    }
}

impl Die {
    /// One of the faces, chosen at random.
    pub fn roll(&self) -> (r: i32)
        requires
            self@.len() > 0,
        ensures
            self@.contains(r),
            seq_min(self@) <= r <= seq_max(self@),
    {
        let i = random_index(self.values.len());
        let r = self.values[i];
        proof {
            lemma_min_max_bound(self@, i as int);
        }
        r
    }

    pub fn from_vec(values: Vec<i32>) -> (r: Die)
        ensures
            r@ == values@,
    {
        Die { values }
    }

    /// The faces of this die.
    pub fn values(&self) -> (r: &Vec<i32>)
        ensures
            r@ == self@,
    {
        &self.values
    }
}

/// The sum of the smallest faces of each die.
pub open spec fn min_total(ds: Seq<Die>) -> int
    decreases ds.len(),
{
    if ds.len() == 0 {
        0
    } else {
        seq_min(ds[0]@) + min_total(ds.drop_first())
    }
}

/// The sum of the largest faces of each die.
pub open spec fn max_total(ds: Seq<Die>) -> int
    decreases ds.len(),
{
    if ds.len() == 0 {
        0
    } else {
        seq_max(ds[0]@) + max_total(ds.drop_first())
    }
}

proof fn lemma_min_total_push(ds: Seq<Die>, d: Die)
    ensures
        min_total(ds.push(d)) == min_total(ds) + seq_min(d@),
    decreases ds.len(),
{
    if ds.len() == 0 {
        assert(ds.push(d).drop_first() =~= ds);
        assert(ds.push(d)[0] == d);
    } else {
        assert(ds.push(d).drop_first() =~= ds.drop_first().push(d));
        lemma_min_total_push(ds.drop_first(), d);
    }
}

proof fn lemma_max_total_push(ds: Seq<Die>, d: Die)
    ensures
        max_total(ds.push(d)) == max_total(ds) + seq_max(d@),
    decreases ds.len(),
{
    if ds.len() == 0 {
        assert(ds.push(d).drop_first() =~= ds);
        assert(ds.push(d)[0] == d);
    } else {
        assert(ds.push(d).drop_first() =~= ds.drop_first().push(d));
        lemma_max_total_push(ds.drop_first(), d);
    }
}

/// A handful of dice rolled together.
pub struct Dice {
    pub dice: Vec<Die>,
}

impl Dice {
    /// The sum of one roll of each die. The result always lies between
    /// the sum of the smallest and the sum of the largest faces.
    #[verifier::loop_isolation(false)]
    pub fn roll(&self) -> (r: i32)
        requires
            forall|i: int| 0 <= i < self.dice@.len() ==> (#[trigger] self.dice@[i])@.len() > 0,
            forall|k: int|
                0 <= k <= self.dice@.len() ==> i32::MIN <= min_total(#[trigger] self.dice@.take(k))
                    && max_total(self.dice@.take(k)) <= i32::MAX,
        ensures
            min_total(self.dice@) <= r <= max_total(self.dice@),
    {
        let mut sum: i32 = 0;
        let mut i: usize = 0;
        while i < self.dice.len()
            invariant
                i <= self.dice@.len(),
                min_total(self.dice@.take(i as int)) <= sum <= max_total(
                    self.dice@.take(i as int),
                ),
            decreases self.dice@.len() - i,
        {
            let face = self.dice[i].roll();
            proof {
                assert(self.dice@.take(i + 1) =~= self.dice@.take(i as int).push(
                    self.dice@[i as int],
                ));
                lemma_min_total_push(self.dice@.take(i as int), self.dice@[i as int]);
                lemma_max_total_push(self.dice@.take(i as int), self.dice@[i as int]);
            }
            sum = sum + face;
            i += 1;
        }
        proof {
            assert(self.dice@.take(self.dice@.len() as int) =~= self.dice@);
        }
        sum
    }

    pub fn from_vec(dice: Vec<Die>) -> (r: Dice)
        ensures
            r.dice@ == dice@,
    {
        Dice { dice }
    }
}

} // verus!
