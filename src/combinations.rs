//! Expanding a parameter description into the list of values it stands for.
use vstd::prelude::*;

verus! {

/// A description of one or more parameter values: a scalar stands for
/// itself, a range for each of its members, a vector for the values of its
/// elements in order.
pub trait Combinations: Sized {
    type Inner;

    /// The values this description stands for, in order.
    spec fn combination_seq(&self) -> Seq<Self::Inner>;

    fn combinations(&self) -> (r: Vec<Self::Inner>)
        ensures
            r@ == self.combination_seq(),
    ;
}

impl Combinations for usize {
    type Inner = usize;

    open spec fn combination_seq(&self) -> Seq<usize> {
        seq![*self]
    }

    fn combinations(&self) -> (r: Vec<usize>) {
        vec![*self]
    }
}

impl Combinations for u8 {
    type Inner = u8;

    open spec fn combination_seq(&self) -> Seq<u8> {
        seq![*self]
    }

    fn combinations(&self) -> (r: Vec<u8>) {
        vec![*self]
    }
}

impl Combinations for u16 {
    type Inner = u16;

    open spec fn combination_seq(&self) -> Seq<u16> {
        seq![*self]
    }

    fn combinations(&self) -> (r: Vec<u16>) {
        vec![*self]
    }
}

impl Combinations for u32 {
    type Inner = u32;

    open spec fn combination_seq(&self) -> Seq<u32> {
        seq![*self]
    }

    fn combinations(&self) -> (r: Vec<u32>) {
        vec![*self]
    }
}

impl Combinations for u64 {
    type Inner = u64;

    open spec fn combination_seq(&self) -> Seq<u64> {
        seq![*self]
    }

    fn combinations(&self) -> (r: Vec<u64>) {
        vec![*self]
    }
}

impl Combinations for u128 {
    type Inner = u128;

    open spec fn combination_seq(&self) -> Seq<u128> {
        seq![*self]
    }

    fn combinations(&self) -> (r: Vec<u128>) {
        vec![*self]
    }
}

impl Combinations for isize {
    type Inner = isize;

    open spec fn combination_seq(&self) -> Seq<isize> {
        seq![*self]
    }

    fn combinations(&self) -> (r: Vec<isize>) {
        vec![*self]
    }
}

impl Combinations for i8 {
    type Inner = i8;

    open spec fn combination_seq(&self) -> Seq<i8> {
        seq![*self]
    }

    fn combinations(&self) -> (r: Vec<i8>) {
        vec![*self]
    }
}

impl Combinations for i16 {
    type Inner = i16;

    open spec fn combination_seq(&self) -> Seq<i16> {
        seq![*self]
    }

    fn combinations(&self) -> (r: Vec<i16>) {
        vec![*self]
    }
}

impl Combinations for i32 {
    type Inner = i32;

    open spec fn combination_seq(&self) -> Seq<i32> {
        seq![*self]
    }

    fn combinations(&self) -> (r: Vec<i32>) {
        vec![*self]
    }
}

impl Combinations for i64 {
    type Inner = i64;

    open spec fn combination_seq(&self) -> Seq<i64> {
        seq![*self]
    }

    fn combinations(&self) -> (r: Vec<i64>) {
        vec![*self]
    }
}

impl Combinations for i128 {
    type Inner = i128;

    open spec fn combination_seq(&self) -> Seq<i128> {
        seq![*self]
    }

    fn combinations(&self) -> (r: Vec<i128>) {
        vec![*self]
    }
}

impl Combinations for char {
    type Inner = char;

    open spec fn combination_seq(&self) -> Seq<char> {
        seq![*self]
    }

    fn combinations(&self) -> (r: Vec<char>) {
        vec![*self]
    }
}

impl Combinations for bool {
    type Inner = bool;

    open spec fn combination_seq(&self) -> Seq<bool> {
        seq![*self]
    }

    fn combinations(&self) -> (r: Vec<bool>) {
        vec![*self]
    }
}

impl Combinations for () {
    type Inner = ();

    open spec fn combination_seq(&self) -> Seq<()> {
        seq![*self]
    }

    fn combinations(&self) -> (r: Vec<()>) {
        vec![*self]
    }
}

impl Combinations for String {
    type Inner = String;

    open spec fn combination_seq(&self) -> Seq<String> {
        seq![*self]
    }

    fn combinations(&self) -> (r: Vec<String>) {
        vec![self.clone()]
    }
}

/// Relies on `RangeInclusive::start`: the lower bound the range was built with.
pub assume_specification<Idx>[ core::ops::RangeInclusive::<Idx>::start ](
    r: &core::ops::RangeInclusive<Idx>,
) -> (s: &Idx)
    ensures
        *s == r@.start,
;

/// Relies on `RangeInclusive::end`: the upper bound the range was built with.
pub assume_specification<Idx>[ core::ops::RangeInclusive::<Idx>::end ](
    r: &core::ops::RangeInclusive<Idx>,
) -> (e: &Idx)
    ensures
        *e == r@.end,
;

/// The integers `start, start + 1, ..., end - 1`.
pub open spec fn int_run(start: int, end: int) -> Seq<int>
    decreases end - start,
{
    if end <= start {
        Seq::empty()
    } else {
        int_run(start, end - 1).push(end - 1)
    }
}

impl Combinations for core::ops::Range<usize> {
    type Inner = usize;

    open spec fn combination_seq(&self) -> Seq<usize> {
        int_run(self.start as int, self.end as int).map_values(|v: int| v as usize)
    }

    fn combinations(&self) -> (r: Vec<usize>) {
        let mut r: Vec<usize> = Vec::new();
        let mut v: usize = self.start;
        while v < self.end
            invariant
                self.start <= v || self.end <= self.start,
                v <= self.end || self.end <= self.start,
                self.end <= self.start ==> v == self.start,
                r@ == int_run(self.start as int, v as int).map_values(|x: int| x as usize),
            decreases self.end - v,
        {
            proof {
                assert(int_run(self.start as int, v + 1) == int_run(self.start as int, v as int).push(v as int));
            }
            r.push(v);
            assert(r@ =~= int_run(self.start as int, (v + 1) as int).map_values(|x: int| x as usize));
            v = v + 1;
        }
        proof {
            if self.end <= self.start {
                assert(int_run(self.start as int, self.end as int) =~= Seq::empty());
            }
        }
        r
    }
}

impl Combinations for core::ops::Range<u8> {
    type Inner = u8;

    open spec fn combination_seq(&self) -> Seq<u8> {
        int_run(self.start as int, self.end as int).map_values(|v: int| v as u8)
    }

    fn combinations(&self) -> (r: Vec<u8>) {
        let mut r: Vec<u8> = Vec::new();
        let mut v: u8 = self.start;
        while v < self.end
            invariant
                self.start <= v || self.end <= self.start,
                v <= self.end || self.end <= self.start,
                self.end <= self.start ==> v == self.start,
                r@ == int_run(self.start as int, v as int).map_values(|x: int| x as u8),
            decreases self.end - v,
        {
            proof {
                assert(int_run(self.start as int, v + 1) == int_run(self.start as int, v as int).push(v as int));
            }
            r.push(v);
            assert(r@ =~= int_run(self.start as int, (v + 1) as int).map_values(|x: int| x as u8));
            v = v + 1;
        }
        proof {
            if self.end <= self.start {
                assert(int_run(self.start as int, self.end as int) =~= Seq::empty());
            }
        }
        r
    }
}

impl Combinations for core::ops::Range<u16> {
    type Inner = u16;

    open spec fn combination_seq(&self) -> Seq<u16> {
        int_run(self.start as int, self.end as int).map_values(|v: int| v as u16)
    }

    fn combinations(&self) -> (r: Vec<u16>) {
        let mut r: Vec<u16> = Vec::new();
        let mut v: u16 = self.start;
        while v < self.end
            invariant
                self.start <= v || self.end <= self.start,
                v <= self.end || self.end <= self.start,
                self.end <= self.start ==> v == self.start,
                r@ == int_run(self.start as int, v as int).map_values(|x: int| x as u16),
            decreases self.end - v,
        {
            proof {
                assert(int_run(self.start as int, v + 1) == int_run(self.start as int, v as int).push(v as int));
            }
            r.push(v);
            assert(r@ =~= int_run(self.start as int, (v + 1) as int).map_values(|x: int| x as u16));
            v = v + 1;
        }
        proof {
            if self.end <= self.start {
                assert(int_run(self.start as int, self.end as int) =~= Seq::empty());
            }
        }
        r
    }
}

impl Combinations for core::ops::Range<u32> {
    type Inner = u32;

    open spec fn combination_seq(&self) -> Seq<u32> {
        int_run(self.start as int, self.end as int).map_values(|v: int| v as u32)
    }

    fn combinations(&self) -> (r: Vec<u32>) {
        let mut r: Vec<u32> = Vec::new();
        let mut v: u32 = self.start;
        while v < self.end
            invariant
                self.start <= v || self.end <= self.start,
                v <= self.end || self.end <= self.start,
                self.end <= self.start ==> v == self.start,
                r@ == int_run(self.start as int, v as int).map_values(|x: int| x as u32),
            decreases self.end - v,
        {
            proof {
                assert(int_run(self.start as int, v + 1) == int_run(self.start as int, v as int).push(v as int));
            }
            r.push(v);
            assert(r@ =~= int_run(self.start as int, (v + 1) as int).map_values(|x: int| x as u32));
            v = v + 1;
        }
        proof {
            if self.end <= self.start {
                assert(int_run(self.start as int, self.end as int) =~= Seq::empty());
            }
        }
        r
    }
}

impl Combinations for core::ops::Range<u64> {
    type Inner = u64;

    open spec fn combination_seq(&self) -> Seq<u64> {
        int_run(self.start as int, self.end as int).map_values(|v: int| v as u64)
    }

    fn combinations(&self) -> (r: Vec<u64>) {
        let mut r: Vec<u64> = Vec::new();
        let mut v: u64 = self.start;
        while v < self.end
            invariant
                self.start <= v || self.end <= self.start,
                v <= self.end || self.end <= self.start,
                self.end <= self.start ==> v == self.start,
                r@ == int_run(self.start as int, v as int).map_values(|x: int| x as u64),
            decreases self.end - v,
        {
            proof {
                assert(int_run(self.start as int, v + 1) == int_run(self.start as int, v as int).push(v as int));
            }
            r.push(v);
            assert(r@ =~= int_run(self.start as int, (v + 1) as int).map_values(|x: int| x as u64));
            v = v + 1;
        }
        proof {
            if self.end <= self.start {
                assert(int_run(self.start as int, self.end as int) =~= Seq::empty());
            }
        }
        r
    }
}

impl Combinations for core::ops::Range<u128> {
    type Inner = u128;

    open spec fn combination_seq(&self) -> Seq<u128> {
        int_run(self.start as int, self.end as int).map_values(|v: int| v as u128)
    }

    fn combinations(&self) -> (r: Vec<u128>) {
        let mut r: Vec<u128> = Vec::new();
        let mut v: u128 = self.start;
        while v < self.end
            invariant
                self.start <= v || self.end <= self.start,
                v <= self.end || self.end <= self.start,
                self.end <= self.start ==> v == self.start,
                r@ == int_run(self.start as int, v as int).map_values(|x: int| x as u128),
            decreases self.end - v,
        {
            proof {
                assert(int_run(self.start as int, v + 1) == int_run(self.start as int, v as int).push(v as int));
            }
            r.push(v);
            assert(r@ =~= int_run(self.start as int, (v + 1) as int).map_values(|x: int| x as u128));
            v = v + 1;
        }
        proof {
            if self.end <= self.start {
                assert(int_run(self.start as int, self.end as int) =~= Seq::empty());
            }
        }
        r
    }
}

impl Combinations for core::ops::Range<isize> {
    type Inner = isize;

    open spec fn combination_seq(&self) -> Seq<isize> {
        int_run(self.start as int, self.end as int).map_values(|v: int| v as isize)
    }

    fn combinations(&self) -> (r: Vec<isize>) {
        let mut r: Vec<isize> = Vec::new();
        let mut v: isize = self.start;
        while v < self.end
            invariant
                self.start <= v || self.end <= self.start,
                v <= self.end || self.end <= self.start,
                self.end <= self.start ==> v == self.start,
                r@ == int_run(self.start as int, v as int).map_values(|x: int| x as isize),
            decreases self.end - v,
        {
            proof {
                assert(int_run(self.start as int, v + 1) == int_run(self.start as int, v as int).push(v as int));
            }
            r.push(v);
            assert(r@ =~= int_run(self.start as int, (v + 1) as int).map_values(|x: int| x as isize));
            v = v + 1;
        }
        proof {
            if self.end <= self.start {
                assert(int_run(self.start as int, self.end as int) =~= Seq::empty());
            }
        }
        r
    }
}

impl Combinations for core::ops::Range<i8> {
    type Inner = i8;

    open spec fn combination_seq(&self) -> Seq<i8> {
        int_run(self.start as int, self.end as int).map_values(|v: int| v as i8)
    }

    fn combinations(&self) -> (r: Vec<i8>) {
        let mut r: Vec<i8> = Vec::new();
        let mut v: i8 = self.start;
        while v < self.end
            invariant
                self.start <= v || self.end <= self.start,
                v <= self.end || self.end <= self.start,
                self.end <= self.start ==> v == self.start,
                r@ == int_run(self.start as int, v as int).map_values(|x: int| x as i8),
            decreases self.end - v,
        {
            proof {
                assert(int_run(self.start as int, v + 1) == int_run(self.start as int, v as int).push(v as int));
            }
            r.push(v);
            assert(r@ =~= int_run(self.start as int, (v + 1) as int).map_values(|x: int| x as i8));
            v = v + 1;
        }
        proof {
            if self.end <= self.start {
                assert(int_run(self.start as int, self.end as int) =~= Seq::empty());
            }
        }
        r
    }
}

impl Combinations for core::ops::Range<i16> {
    type Inner = i16;

    open spec fn combination_seq(&self) -> Seq<i16> {
        int_run(self.start as int, self.end as int).map_values(|v: int| v as i16)
    }

    fn combinations(&self) -> (r: Vec<i16>) {
        let mut r: Vec<i16> = Vec::new();
        let mut v: i16 = self.start;
        while v < self.end
            invariant
                self.start <= v || self.end <= self.start,
                v <= self.end || self.end <= self.start,
                self.end <= self.start ==> v == self.start,
                r@ == int_run(self.start as int, v as int).map_values(|x: int| x as i16),
            decreases self.end - v,
        {
            proof {
                assert(int_run(self.start as int, v + 1) == int_run(self.start as int, v as int).push(v as int));
            }
            r.push(v);
            assert(r@ =~= int_run(self.start as int, (v + 1) as int).map_values(|x: int| x as i16));
            v = v + 1;
        }
        proof {
            if self.end <= self.start {
                assert(int_run(self.start as int, self.end as int) =~= Seq::empty());
            }
        }
        r
    }
}

impl Combinations for core::ops::Range<i32> {
    type Inner = i32;

    open spec fn combination_seq(&self) -> Seq<i32> {
        int_run(self.start as int, self.end as int).map_values(|v: int| v as i32)
    }

    fn combinations(&self) -> (r: Vec<i32>) {
        let mut r: Vec<i32> = Vec::new();
        let mut v: i32 = self.start;
        while v < self.end
            invariant
                self.start <= v || self.end <= self.start,
                v <= self.end || self.end <= self.start,
                self.end <= self.start ==> v == self.start,
                r@ == int_run(self.start as int, v as int).map_values(|x: int| x as i32),
            decreases self.end - v,
        {
            proof {
                assert(int_run(self.start as int, v + 1) == int_run(self.start as int, v as int).push(v as int));
            }
            r.push(v);
            assert(r@ =~= int_run(self.start as int, (v + 1) as int).map_values(|x: int| x as i32));
            v = v + 1;
        }
        proof {
            if self.end <= self.start {
                assert(int_run(self.start as int, self.end as int) =~= Seq::empty());
            }
        }
        r
    }
}

impl Combinations for core::ops::Range<i64> {
    type Inner = i64;

    open spec fn combination_seq(&self) -> Seq<i64> {
        int_run(self.start as int, self.end as int).map_values(|v: int| v as i64)
    }

    fn combinations(&self) -> (r: Vec<i64>) {
        let mut r: Vec<i64> = Vec::new();
        let mut v: i64 = self.start;
        while v < self.end
            invariant
                self.start <= v || self.end <= self.start,
                v <= self.end || self.end <= self.start,
                self.end <= self.start ==> v == self.start,
                r@ == int_run(self.start as int, v as int).map_values(|x: int| x as i64),
            decreases self.end - v,
        {
            proof {
                assert(int_run(self.start as int, v + 1) == int_run(self.start as int, v as int).push(v as int));
            }
            r.push(v);
            assert(r@ =~= int_run(self.start as int, (v + 1) as int).map_values(|x: int| x as i64));
            v = v + 1;
        }
        proof {
            if self.end <= self.start {
                assert(int_run(self.start as int, self.end as int) =~= Seq::empty());
            }
        }
        r
    }
}

impl Combinations for core::ops::Range<i128> {
    type Inner = i128;

    open spec fn combination_seq(&self) -> Seq<i128> {
        int_run(self.start as int, self.end as int).map_values(|v: int| v as i128)
    }

    fn combinations(&self) -> (r: Vec<i128>) {
        let mut r: Vec<i128> = Vec::new();
        let mut v: i128 = self.start;
        while v < self.end
            invariant
                self.start <= v || self.end <= self.start,
                v <= self.end || self.end <= self.start,
                self.end <= self.start ==> v == self.start,
                r@ == int_run(self.start as int, v as int).map_values(|x: int| x as i128),
            decreases self.end - v,
        {
            proof {
                assert(int_run(self.start as int, v + 1) == int_run(self.start as int, v as int).push(v as int));
            }
            r.push(v);
            assert(r@ =~= int_run(self.start as int, (v + 1) as int).map_values(|x: int| x as i128));
            v = v + 1;
        }
        proof {
            if self.end <= self.start {
                assert(int_run(self.start as int, self.end as int) =~= Seq::empty());
            }
        }
        r
    }
}

impl Combinations for core::ops::RangeInclusive<usize> {
    type Inner = usize;

    open spec fn combination_seq(&self) -> Seq<usize> {
        let last = if self@.exhausted { self@.end as int } else { self@.end + 1 };
        int_run(self@.start as int, last).map_values(|v: int| v as usize)
    }

    fn combinations(&self) -> (r: Vec<usize>) {
        let start: usize = *self.start();
        let end: usize = *self.end();
        let mut r: Vec<usize> = Vec::new();
        let mut v: usize = start;
        while v < end
            invariant
                start <= v || end <= start,
                v <= end || end <= start,
                end <= start ==> v == start,
                r@ == int_run(start as int, v as int).map_values(|x: int| x as usize),
            decreases end - v,
        {
            proof {
                assert(int_run(start as int, v + 1) == int_run(start as int, v as int).push(v as int));
            }
            r.push(v);
            assert(r@ =~= int_run(start as int, (v + 1) as int).map_values(|x: int| x as usize));
            v = v + 1;
        }
        if end < start {
            assert(int_run(start as int, end as int) =~= Seq::empty());
            assert(int_run(start as int, end + 1) =~= Seq::empty());
        } else if self.contains(&end) {
            proof {
                assert(int_run(start as int, end + 1) == int_run(start as int, end as int).push(end as int));
            }
            r.push(end);
            assert(r@ =~= int_run(start as int, end + 1).map_values(|x: int| x as usize));
        }
        r
    }
}

impl Combinations for core::ops::RangeInclusive<u8> {
    type Inner = u8;

    open spec fn combination_seq(&self) -> Seq<u8> {
        let last = if self@.exhausted { self@.end as int } else { self@.end + 1 };
        int_run(self@.start as int, last).map_values(|v: int| v as u8)
    }

    fn combinations(&self) -> (r: Vec<u8>) {
        let start: u8 = *self.start();
        let end: u8 = *self.end();
        let mut r: Vec<u8> = Vec::new();
        let mut v: u8 = start;
        while v < end
            invariant
                start <= v || end <= start,
                v <= end || end <= start,
                end <= start ==> v == start,
                r@ == int_run(start as int, v as int).map_values(|x: int| x as u8),
            decreases end - v,
        {
            proof {
                assert(int_run(start as int, v + 1) == int_run(start as int, v as int).push(v as int));
            }
            r.push(v);
            assert(r@ =~= int_run(start as int, (v + 1) as int).map_values(|x: int| x as u8));
            v = v + 1;
        }
        if end < start {
            assert(int_run(start as int, end as int) =~= Seq::empty());
            assert(int_run(start as int, end + 1) =~= Seq::empty());
        } else if self.contains(&end) {
            proof {
                assert(int_run(start as int, end + 1) == int_run(start as int, end as int).push(end as int));
            }
            r.push(end);
            assert(r@ =~= int_run(start as int, end + 1).map_values(|x: int| x as u8));
        }
        r
    }
}

impl Combinations for core::ops::RangeInclusive<u16> {
    type Inner = u16;

    open spec fn combination_seq(&self) -> Seq<u16> {
        let last = if self@.exhausted { self@.end as int } else { self@.end + 1 };
        int_run(self@.start as int, last).map_values(|v: int| v as u16)
    }

    fn combinations(&self) -> (r: Vec<u16>) {
        let start: u16 = *self.start();
        let end: u16 = *self.end();
        let mut r: Vec<u16> = Vec::new();
        let mut v: u16 = start;
        while v < end
            invariant
                start <= v || end <= start,
                v <= end || end <= start,
                end <= start ==> v == start,
                r@ == int_run(start as int, v as int).map_values(|x: int| x as u16),
            decreases end - v,
        {
            proof {
                assert(int_run(start as int, v + 1) == int_run(start as int, v as int).push(v as int));
            }
            r.push(v);
            assert(r@ =~= int_run(start as int, (v + 1) as int).map_values(|x: int| x as u16));
            v = v + 1;
        }
        if end < start {
            assert(int_run(start as int, end as int) =~= Seq::empty());
            assert(int_run(start as int, end + 1) =~= Seq::empty());
        } else if self.contains(&end) {
            proof {
                assert(int_run(start as int, end + 1) == int_run(start as int, end as int).push(end as int));
            }
            r.push(end);
            assert(r@ =~= int_run(start as int, end + 1).map_values(|x: int| x as u16));
        }
        r
    }
}

impl Combinations for core::ops::RangeInclusive<u32> {
    type Inner = u32;

    open spec fn combination_seq(&self) -> Seq<u32> {
        let last = if self@.exhausted { self@.end as int } else { self@.end + 1 };
        int_run(self@.start as int, last).map_values(|v: int| v as u32)
    }

    fn combinations(&self) -> (r: Vec<u32>) {
        let start: u32 = *self.start();
        let end: u32 = *self.end();
        let mut r: Vec<u32> = Vec::new();
        let mut v: u32 = start;
        while v < end
            invariant
                start <= v || end <= start,
                v <= end || end <= start,
                end <= start ==> v == start,
                r@ == int_run(start as int, v as int).map_values(|x: int| x as u32),
            decreases end - v,
        {
            proof {
                assert(int_run(start as int, v + 1) == int_run(start as int, v as int).push(v as int));
            }
            r.push(v);
            assert(r@ =~= int_run(start as int, (v + 1) as int).map_values(|x: int| x as u32));
            v = v + 1;
        }
        if end < start {
            assert(int_run(start as int, end as int) =~= Seq::empty());
            assert(int_run(start as int, end + 1) =~= Seq::empty());
        } else if self.contains(&end) {
            proof {
                assert(int_run(start as int, end + 1) == int_run(start as int, end as int).push(end as int));
            }
            r.push(end);
            assert(r@ =~= int_run(start as int, end + 1).map_values(|x: int| x as u32));
        }
        r
    }
}

impl Combinations for core::ops::RangeInclusive<u64> {
    type Inner = u64;

    open spec fn combination_seq(&self) -> Seq<u64> {
        let last = if self@.exhausted { self@.end as int } else { self@.end + 1 };
        int_run(self@.start as int, last).map_values(|v: int| v as u64)
    }

    fn combinations(&self) -> (r: Vec<u64>) {
        let start: u64 = *self.start();
        let end: u64 = *self.end();
        let mut r: Vec<u64> = Vec::new();
        let mut v: u64 = start;
        while v < end
            invariant
                start <= v || end <= start,
                v <= end || end <= start,
                end <= start ==> v == start,
                r@ == int_run(start as int, v as int).map_values(|x: int| x as u64),
            decreases end - v,
        {
            proof {
                assert(int_run(start as int, v + 1) == int_run(start as int, v as int).push(v as int));
            }
            r.push(v);
            assert(r@ =~= int_run(start as int, (v + 1) as int).map_values(|x: int| x as u64));
            v = v + 1;
        }
        if end < start {
            assert(int_run(start as int, end as int) =~= Seq::empty());
            assert(int_run(start as int, end + 1) =~= Seq::empty());
        } else if self.contains(&end) {
            proof {
                assert(int_run(start as int, end + 1) == int_run(start as int, end as int).push(end as int));
            }
            r.push(end);
            assert(r@ =~= int_run(start as int, end + 1).map_values(|x: int| x as u64));
        }
        r
    }
}

impl Combinations for core::ops::RangeInclusive<u128> {
    type Inner = u128;

    open spec fn combination_seq(&self) -> Seq<u128> {
        let last = if self@.exhausted { self@.end as int } else { self@.end + 1 };
        int_run(self@.start as int, last).map_values(|v: int| v as u128)
    }

    fn combinations(&self) -> (r: Vec<u128>) {
        let start: u128 = *self.start();
        let end: u128 = *self.end();
        let mut r: Vec<u128> = Vec::new();
        let mut v: u128 = start;
        while v < end
            invariant
                start <= v || end <= start,
                v <= end || end <= start,
                end <= start ==> v == start,
                r@ == int_run(start as int, v as int).map_values(|x: int| x as u128),
            decreases end - v,
        {
            proof {
                assert(int_run(start as int, v + 1) == int_run(start as int, v as int).push(v as int));
            }
            r.push(v);
            assert(r@ =~= int_run(start as int, (v + 1) as int).map_values(|x: int| x as u128));
            v = v + 1;
        }
        if end < start {
            assert(int_run(start as int, end as int) =~= Seq::empty());
            assert(int_run(start as int, end + 1) =~= Seq::empty());
        } else if self.contains(&end) {
            proof {
                assert(int_run(start as int, end + 1) == int_run(start as int, end as int).push(end as int));
            }
            r.push(end);
            assert(r@ =~= int_run(start as int, end + 1).map_values(|x: int| x as u128));
        }
        r
    }
}

impl Combinations for core::ops::RangeInclusive<isize> {
    type Inner = isize;

    open spec fn combination_seq(&self) -> Seq<isize> {
        let last = if self@.exhausted { self@.end as int } else { self@.end + 1 };
        int_run(self@.start as int, last).map_values(|v: int| v as isize)
    }

    fn combinations(&self) -> (r: Vec<isize>) {
        let start: isize = *self.start();
        let end: isize = *self.end();
        let mut r: Vec<isize> = Vec::new();
        let mut v: isize = start;
        while v < end
            invariant
                start <= v || end <= start,
                v <= end || end <= start,
                end <= start ==> v == start,
                r@ == int_run(start as int, v as int).map_values(|x: int| x as isize),
            decreases end - v,
        {
            proof {
                assert(int_run(start as int, v + 1) == int_run(start as int, v as int).push(v as int));
            }
            r.push(v);
            assert(r@ =~= int_run(start as int, (v + 1) as int).map_values(|x: int| x as isize));
            v = v + 1;
        }
        if end < start {
            assert(int_run(start as int, end as int) =~= Seq::empty());
            assert(int_run(start as int, end + 1) =~= Seq::empty());
        } else if self.contains(&end) {
            proof {
                assert(int_run(start as int, end + 1) == int_run(start as int, end as int).push(end as int));
            }
            r.push(end);
            assert(r@ =~= int_run(start as int, end + 1).map_values(|x: int| x as isize));
        }
        r
    }
}

impl Combinations for core::ops::RangeInclusive<i8> {
    type Inner = i8;

    open spec fn combination_seq(&self) -> Seq<i8> {
        let last = if self@.exhausted { self@.end as int } else { self@.end + 1 };
        int_run(self@.start as int, last).map_values(|v: int| v as i8)
    }

    fn combinations(&self) -> (r: Vec<i8>) {
        let start: i8 = *self.start();
        let end: i8 = *self.end();
        let mut r: Vec<i8> = Vec::new();
        let mut v: i8 = start;
        while v < end
            invariant
                start <= v || end <= start,
                v <= end || end <= start,
                end <= start ==> v == start,
                r@ == int_run(start as int, v as int).map_values(|x: int| x as i8),
            decreases end - v,
        {
            proof {
                assert(int_run(start as int, v + 1) == int_run(start as int, v as int).push(v as int));
            }
            r.push(v);
            assert(r@ =~= int_run(start as int, (v + 1) as int).map_values(|x: int| x as i8));
            v = v + 1;
        }
        if end < start {
            assert(int_run(start as int, end as int) =~= Seq::empty());
            assert(int_run(start as int, end + 1) =~= Seq::empty());
        } else if self.contains(&end) {
            proof {
                assert(int_run(start as int, end + 1) == int_run(start as int, end as int).push(end as int));
            }
            r.push(end);
            assert(r@ =~= int_run(start as int, end + 1).map_values(|x: int| x as i8));
        }
        r
    }
}

impl Combinations for core::ops::RangeInclusive<i16> {
    type Inner = i16;

    open spec fn combination_seq(&self) -> Seq<i16> {
        let last = if self@.exhausted { self@.end as int } else { self@.end + 1 };
        int_run(self@.start as int, last).map_values(|v: int| v as i16)
    }

    fn combinations(&self) -> (r: Vec<i16>) {
        let start: i16 = *self.start();
        let end: i16 = *self.end();
        let mut r: Vec<i16> = Vec::new();
        let mut v: i16 = start;
        while v < end
            invariant
                start <= v || end <= start,
                v <= end || end <= start,
                end <= start ==> v == start,
                r@ == int_run(start as int, v as int).map_values(|x: int| x as i16),
            decreases end - v,
        {
            proof {
                assert(int_run(start as int, v + 1) == int_run(start as int, v as int).push(v as int));
            }
            r.push(v);
            assert(r@ =~= int_run(start as int, (v + 1) as int).map_values(|x: int| x as i16));
            v = v + 1;
        }
        if end < start {
            assert(int_run(start as int, end as int) =~= Seq::empty());
            assert(int_run(start as int, end + 1) =~= Seq::empty());
        } else if self.contains(&end) {
            proof {
                assert(int_run(start as int, end + 1) == int_run(start as int, end as int).push(end as int));
            }
            r.push(end);
            assert(r@ =~= int_run(start as int, end + 1).map_values(|x: int| x as i16));
        }
        r
    }
}

impl Combinations for core::ops::RangeInclusive<i32> {
    type Inner = i32;

    open spec fn combination_seq(&self) -> Seq<i32> {
        let last = if self@.exhausted { self@.end as int } else { self@.end + 1 };
        int_run(self@.start as int, last).map_values(|v: int| v as i32)
    }

    fn combinations(&self) -> (r: Vec<i32>) {
        let start: i32 = *self.start();
        let end: i32 = *self.end();
        let mut r: Vec<i32> = Vec::new();
        let mut v: i32 = start;
        while v < end
            invariant
                start <= v || end <= start,
                v <= end || end <= start,
                end <= start ==> v == start,
                r@ == int_run(start as int, v as int).map_values(|x: int| x as i32),
            decreases end - v,
        {
            proof {
                assert(int_run(start as int, v + 1) == int_run(start as int, v as int).push(v as int));
            }
            r.push(v);
            assert(r@ =~= int_run(start as int, (v + 1) as int).map_values(|x: int| x as i32));
            v = v + 1;
        }
        if end < start {
            assert(int_run(start as int, end as int) =~= Seq::empty());
            assert(int_run(start as int, end + 1) =~= Seq::empty());
        } else if self.contains(&end) {
            proof {
                assert(int_run(start as int, end + 1) == int_run(start as int, end as int).push(end as int));
            }
            r.push(end);
            assert(r@ =~= int_run(start as int, end + 1).map_values(|x: int| x as i32));
        }
        r
    }
}

impl Combinations for core::ops::RangeInclusive<i64> {
    type Inner = i64;

    open spec fn combination_seq(&self) -> Seq<i64> {
        let last = if self@.exhausted { self@.end as int } else { self@.end + 1 };
        int_run(self@.start as int, last).map_values(|v: int| v as i64)
    }

    fn combinations(&self) -> (r: Vec<i64>) {
        let start: i64 = *self.start();
        let end: i64 = *self.end();
        let mut r: Vec<i64> = Vec::new();
        let mut v: i64 = start;
        while v < end
            invariant
                start <= v || end <= start,
                v <= end || end <= start,
                end <= start ==> v == start,
                r@ == int_run(start as int, v as int).map_values(|x: int| x as i64),
            decreases end - v,
        {
            proof {
                assert(int_run(start as int, v + 1) == int_run(start as int, v as int).push(v as int));
            }
            r.push(v);
            assert(r@ =~= int_run(start as int, (v + 1) as int).map_values(|x: int| x as i64));
            v = v + 1;
        }
        if end < start {
            assert(int_run(start as int, end as int) =~= Seq::empty());
            assert(int_run(start as int, end + 1) =~= Seq::empty());
        } else if self.contains(&end) {
            proof {
                assert(int_run(start as int, end + 1) == int_run(start as int, end as int).push(end as int));
            }
            r.push(end);
            assert(r@ =~= int_run(start as int, end + 1).map_values(|x: int| x as i64));
        }
        r
    }
}

impl Combinations for core::ops::RangeInclusive<i128> {
    type Inner = i128;

    open spec fn combination_seq(&self) -> Seq<i128> {
        let last = if self@.exhausted { self@.end as int } else { self@.end + 1 };
        int_run(self@.start as int, last).map_values(|v: int| v as i128)
    }

    fn combinations(&self) -> (r: Vec<i128>) {
        let start: i128 = *self.start();
        let end: i128 = *self.end();
        let mut r: Vec<i128> = Vec::new();
        let mut v: i128 = start;
        while v < end
            invariant
                start <= v || end <= start,
                v <= end || end <= start,
                end <= start ==> v == start,
                r@ == int_run(start as int, v as int).map_values(|x: int| x as i128),
            decreases end - v,
        {
            proof {
                assert(int_run(start as int, v + 1) == int_run(start as int, v as int).push(v as int));
            }
            r.push(v);
            assert(r@ =~= int_run(start as int, (v + 1) as int).map_values(|x: int| x as i128));
            v = v + 1;
        }
        if end < start {
            assert(int_run(start as int, end as int) =~= Seq::empty());
            assert(int_run(start as int, end + 1) =~= Seq::empty());
        } else if self.contains(&end) {
            proof {
                assert(int_run(start as int, end + 1) == int_run(start as int, end as int).push(end as int));
            }
            r.push(end);
            assert(r@ =~= int_run(start as int, end + 1).map_values(|x: int| x as i128));
        }
        r
    }
}

impl<T: Combinations> Combinations for Vec<T> {
    type Inner = T::Inner;

    open spec fn combination_seq(&self) -> Seq<T::Inner> {
        self@.map_values(|t: T| t.combination_seq()).flatten()
    }

    fn combinations(&self) -> (r: Vec<T::Inner>) {
        let mut r: Vec<T::Inner> = Vec::new();
        let mut i: usize = 0;
        while i < self.len()
            invariant
                i <= self@.len(),
                r@ == self@.subrange(0, i as int).map_values(|t: T| t.combination_seq()).flatten(),
            decreases self@.len() - i,
        {
            let mut part = self[i].combinations();
            proof {
                let done = self@.subrange(0, i as int).map_values(|t: T| t.combination_seq());
                assert(self@.subrange(0, i + 1).map_values(|t: T| t.combination_seq())
                    =~= done.push(self@[i as int].combination_seq()));
                done.lemma_flatten_push(self@[i as int].combination_seq());
            }
            r.append(&mut part);
            i = i + 1;
        }
        assert(self@.subrange(0, self@.len() as int) =~= self@);
        r
    }
}

} // verus!
