use vstd::prelude::*;

verus! {

/// The minimal numeric capability the encoders need of an output cell
/// type: an additive identity ("zero"), a multiplicative identity
/// ("one"), and injections from small unsigned integers and booleans.
/// Every cell an encoder produces is the image of a small unsigned
/// integer under `from_u16_spec`.
pub trait DataType: Sized {
    /// The value of this type standing for the small unsigned integer
    /// `v`.
    spec fn from_u16_spec(v: u16) -> Self;

    fn from_u16(v: u16) -> (r: Self)
        ensures
            r == Self::from_u16_spec(v),
    ;

    fn from_bool(b: bool) -> (r: Self)
        ensures
            r == Self::from_u16_spec(
                if b {
                    1
                } else {
                    0
                },
            ),
    ;

    fn zero() -> (r: Self)
        ensures
            r == Self::from_u16_spec(0),
    ;

    fn one() -> (r: Self)
        ensures
            r == Self::from_u16_spec(1),
    ;
}

impl DataType for u16 {
    open spec fn from_u16_spec(v: u16) -> u16 {
        v
    }

    fn from_u16(v: u16) -> u16 {
        v
    }

    fn from_bool(b: bool) -> u16 {
        if b {
            1
        } else {
            0
        }
    }

    fn zero() -> u16 {
        0
    }

    fn one() -> u16 {
        1
    }
}

impl DataType for u32 {
    open spec fn from_u16_spec(v: u16) -> u32 {
        v as u32
    }

    fn from_u16(v: u16) -> u32 {
        v as u32
    }

    fn from_bool(b: bool) -> u32 {
        if b {
            1
        } else {
            0
        }
    }

    fn zero() -> u32 {
        0
    }

    fn one() -> u32 {
        1
    }
}

impl DataType for u64 {
    open spec fn from_u16_spec(v: u16) -> u64 {
        v as u64
    }

    fn from_u16(v: u16) -> u64 {
        v as u64
    }

    fn from_bool(b: bool) -> u64 {
        if b {
            1
        } else {
            0
        }
    }

    fn zero() -> u64 {
        0
    }

    fn one() -> u64 {
        1
    }
}

impl DataType for i32 {
    open spec fn from_u16_spec(v: u16) -> i32 {
        v as i32
    }

    fn from_u16(v: u16) -> i32 {
        v as i32
    }

    fn from_bool(b: bool) -> i32 {
        if b {
            1
        } else {
            0
        }
    }

    fn zero() -> i32 {
        0
    }

    fn one() -> i32 {
        1
    }
}

impl DataType for i64 {
    open spec fn from_u16_spec(v: u16) -> i64 {
        v as i64
    }

    fn from_u16(v: u16) -> i64 {
        v as i64
    }

    fn from_bool(b: bool) -> i64 {
        if b {
            1
        } else {
            0
        }
    }

    fn zero() -> i64 {
        0
    }

    fn one() -> i64 {
        1
    }
}

/// The vectorization capability: a value produces a finite, restartable
/// sequence of numeric cells, and declares a fixed cell count that
/// equals the number of cells actually produced for every value in the
/// encoder's domain. Downstream consumers allocate fixed-shape buffers
/// from the declared width before producing the sequence, so this
/// equality is a correctness invariant of the whole pipeline.
pub trait Unpackable {
    /// The canonical cell sequence of this value, over small unsigned
    /// integers. A concrete output type's cells are the images of these
    /// under `DataType::from_u16_spec`.
    spec fn cells(&self) -> Seq<u16>;

    /// The declared fixed width of this value's encoding.
    spec fn width(&self) -> nat;

    /// Whether this value lies in the encoder's domain: components in
    /// their domain, variable-length parts within their reserved
    /// capacity, and the total width representable on the machine.
    spec fn encodable(&self) -> bool;

    /// Every value in the encoder's domain produces exactly as many
    /// cells as its declared width.
    proof fn lemma_cells_match_width(&self)
        requires
            self.encodable(),
        ensures
            self.cells().len() == self.width(),
    ;

    /// Produce the cell sequence, eagerly materialized.
    fn unpack(&self) -> (v: Vec<u16>)
        requires
            self.encodable(),
        ensures
            v@ == self.cells(),
    ;

    /// The declared fixed width.
    fn unpacked_size(&self) -> (n: usize)
        requires
            self.encodable(),
        ensures
            n as nat == self.width(),
    ;
}

/// Convert a canonical cell sequence into any supported output type,
/// cell by cell.
pub fn convert_cells<T: DataType>(cells: &Vec<u16>) -> (v: Vec<T>)
    ensures
        v@.len() == cells@.len(),
        forall|i: int| 0 <= i < cells@.len() ==> v@[i] == T::from_u16_spec(cells@[i]),
{
    let mut v: Vec<T> = Vec::new();
    let mut i: usize = 0;
    while i < cells.len()
        invariant
            i <= cells@.len(),
            v@.len() == i,
            forall|j: int| 0 <= j < i ==> v@[j] == T::from_u16_spec(cells@[j]),
        decreases cells@.len() - i,
    {
        v.push(T::from_u16(cells[i]));
        i += 1;
    }
    v
}

/// The concatenated cell sequences of a sequence of encodable values.
pub open spec fn seq_cells<U: Unpackable>(s: Seq<U>) -> Seq<u16>
    decreases s.len(),
{
    if s.len() == 0 {
        Seq::<u16>::empty()
    } else {
        s[0].cells() + seq_cells(s.drop_first())
    }
}

/// The summed declared widths of a sequence of encodable values.
pub open spec fn seq_width<U: Unpackable>(s: Seq<U>) -> nat
    decreases s.len(),
{
    if s.len() == 0 {
        0
    } else {
        s[0].width() + seq_width(s.drop_first())
    }
}

/// Appending one value appends its cells.
pub proof fn lemma_seq_cells_push<U: Unpackable>(s: Seq<U>, x: U)
    ensures
        seq_cells(s.push(x)) == seq_cells(s) + x.cells(),
    decreases s.len(),
{
    if s.len() == 0 {
        assert(s.push(x).drop_first() =~= s);
        assert(s.push(x)[0] == x);
        assert(seq_cells(s.push(x)) == x.cells() + seq_cells(s));
        assert(seq_cells(s.push(x)) =~= seq_cells(s) + x.cells());
    } else {
        assert(s.push(x).drop_first() =~= s.drop_first().push(x));
        lemma_seq_cells_push(s.drop_first(), x);
        assert(seq_cells(s.push(x)) == s[0].cells() + seq_cells(s.drop_first().push(x)));
        assert(s[0].cells() + (seq_cells(s.drop_first()) + x.cells()) =~= (s[0].cells()
            + seq_cells(s.drop_first())) + x.cells());
    }
}

/// Appending one value adds its width.
pub proof fn lemma_seq_width_push<U: Unpackable>(s: Seq<U>, x: U)
    ensures
        seq_width(s.push(x)) == seq_width(s) + x.width(),
    decreases s.len(),
{
    if s.len() == 0 {
        assert(s.push(x).drop_first() =~= s);
    } else {
        assert(s.push(x).drop_first() =~= s.drop_first().push(x));
        lemma_seq_width_push(s.drop_first(), x);
    }
}

/// A sequence whose members are all in the encoder's domain produces
/// exactly its summed declared width in cells.
pub proof fn lemma_seq_cells_len<U: Unpackable>(s: Seq<U>)
    requires
        forall|i: int| 0 <= i < s.len() ==> (#[trigger] s[i]).encodable(),
    ensures
        seq_cells(s).len() == seq_width(s),
    decreases s.len(),
{
    if s.len() > 0 {
        s[0].lemma_cells_match_width();
        assert(forall|i: int|
            0 <= i < s.drop_first().len() ==> (#[trigger] s.drop_first()[i]).encodable() && s
                .drop_first()[i] == s[i + 1]);
        lemma_seq_cells_len(s.drop_first());
    }
}

/// For members that each encode to a single cell, the concatenation has
/// one cell per member, in order.
pub proof fn lemma_seq_cells_unit<U: Unpackable>(s: Seq<U>)
    requires
        forall|i: int| 0 <= i < s.len() ==> (#[trigger] s[i]).encodable(),
        forall|i: int| 0 <= i < s.len() ==> (#[trigger] s[i]).width() == 1,
    ensures
        seq_cells(s).len() == s.len(),
        seq_width(s) == s.len(),
        forall|i: int| 0 <= i < s.len() ==> seq_cells(s)[i] == (#[trigger] s[i]).cells()[0],
    decreases s.len(),
{
    if s.len() > 0 {
        s[0].lemma_cells_match_width();
        assert(forall|i: int|
            0 <= i < s.drop_first().len() ==> (#[trigger] s.drop_first()[i]) == s[i + 1]);
        lemma_seq_cells_unit(s.drop_first());
        assert(s[0].cells().len() == 1);
        assert forall|i: int| 0 <= i < s.len() implies seq_cells(s)[i] == (
        #[trigger] s[i]).cells()[0] by {
            if i == 0 {
                assert(seq_cells(s)[0] == s[0].cells()[0]);
            } else {
                assert(seq_cells(s)[i] == seq_cells(s.drop_first())[i - 1]);
                assert(s.drop_first()[i - 1] == s[i]);
            }
        }
    }
}

/// A sequence of members with one common declared width sums to length
/// times that width.
pub proof fn lemma_seq_width_uniform<U: Unpackable>(s: Seq<U>, w: nat)
    requires
        forall|i: int| 0 <= i < s.len() ==> (#[trigger] s[i]).width() == w,
    ensures
        seq_width(s) == s.len() * w,
    decreases s.len(),
{
    if s.len() > 0 {
        assert(forall|i: int|
            0 <= i < s.drop_first().len() ==> (#[trigger] s.drop_first()[i]) == s[i + 1]);
        lemma_seq_width_uniform(s.drop_first(), w);
        assert(w + (s.len() - 1) * w == s.len() * w) by (nonlinear_arith);
    }
}

/// A prefix never exceeds the whole in summed width.
pub proof fn lemma_seq_width_take_le<U: Unpackable>(s: Seq<U>, i: int)
    requires
        0 <= i <= s.len(),
    ensures
        seq_width(s.take(i)) <= seq_width(s),
    decreases s.len(),
{
    if i == 0 {
    } else {
        assert(s.take(i).drop_first() =~= s.drop_first().take(i - 1));
        lemma_seq_width_take_le(s.drop_first(), i - 1);
        assert(s.take(i)[0] == s[0]);
    }
}

impl<U: Unpackable> Unpackable for Vec<U> {
    /// The concatenation of the members' cells, in order.
    open spec fn cells(&self) -> Seq<u16> {
        seq_cells(self@)
    }

    open spec fn width(&self) -> nat {
        seq_width(self@)
    }

    open spec fn encodable(&self) -> bool {
        &&& forall|i: int| 0 <= i < self@.len() ==> (#[trigger] self@[i]).encodable()
        &&& seq_width(self@) <= usize::MAX
    }

    proof fn lemma_cells_match_width(&self) {
        lemma_seq_cells_len(self@);
    }

    #[verifier::loop_isolation(false)]
    fn unpack(&self) -> (v: Vec<u16>) {
        let mut out: Vec<u16> = Vec::new();
        let mut i: usize = 0;
        while i < self.len()
            invariant
                self.encodable(),
                i <= self@.len(),
                out@ == seq_cells(self@.take(i as int)),
            decreases self@.len() - i,
        {
            proof {
                assert(self@[i as int].encodable());
            }
            let mut cs = self[i].unpack();
            out.append(&mut cs);
            proof {
                assert(self@.take(i + 1) =~= self@.take(i as int).push(self@[i as int]));
                lemma_seq_cells_push(self@.take(i as int), self@[i as int]);
            }
            i += 1;
        }
        proof {
            assert(self@.take(self@.len() as int) =~= self@);
            assert(out@ == seq_cells(self@));
            assert(self.cells() == seq_cells(self@));
        }
        out
    }

    #[verifier::loop_isolation(false)]
    fn unpacked_size(&self) -> (n: usize) {
        let mut total: usize = 0;
        let mut i: usize = 0;
        while i < self.len()
            invariant
                self.encodable(),
                i <= self@.len(),
                total == seq_width(self@.take(i as int)),
            decreases self@.len() - i,
        {
            proof {
                assert(self@[i as int].encodable());
            }
            proof {
                assert(self@.take(i + 1) =~= self@.take(i as int).push(self@[i as int]));
                lemma_seq_width_push(self@.take(i as int), self@[i as int]);
                lemma_seq_width_take_le(self@, i + 1);
            }
            total = total + self[i].unpacked_size();
            i += 1;
        }
        proof {
            assert(self@.take(self@.len() as int) =~= self@);
        }
        total
    }
}

} // verus!
