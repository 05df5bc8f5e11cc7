//! Integer bookkeeping on sequences of circles: differences between
//! neighbours and the most common time step.

use std::collections::BTreeMap;
use vstd::prelude::*;

verus! {

/// A place on the play field, in map pixels.
#[derive(Debug, Copy, Clone, PartialEq, Eq, Structural)]
pub struct Point {
    pub x: i32,
    pub y: i32,
}

/// A time in milliseconds.
#[derive(Debug, Copy, Clone, PartialEq, Eq, Structural)]
pub struct Time {
    pub milliseconds: u32,
}

/// A circle reduced to its place and its time in milliseconds; also the
/// difference between two such circles.
#[derive(Debug, Copy, Clone, PartialEq, Eq, Structural)]
pub struct Circle {
    pub x: i64,
    pub y: i64,
    pub ms: i64,
}

/// Whether `v` is a 32-bit integer.
pub open spec fn fits_i32(v: int) -> bool {
    i32::MIN <= v <= i32::MAX
}

/// Whether `v` is a 64-bit integer.
pub open spec fn fits(v: int) -> bool {
    i64::MIN <= v <= i64::MAX
}

impl Point {
    /// The sum of two points, coordinate by coordinate.
    pub fn add(self, rhs: Point) -> (r: Point)
        requires
            fits_i32(self.x + rhs.x),
            fits_i32(self.y + rhs.y),
        ensures
            r.x == self.x + rhs.x,
            r.y == self.y + rhs.y,
    {
        Point { x: self.x + rhs.x, y: self.y + rhs.y }
    }

    /// The difference of two points, coordinate by coordinate.
    pub fn sub(self, rhs: Point) -> (r: Point)
        requires
            fits_i32(self.x - rhs.x),
            fits_i32(self.y - rhs.y),
        ensures
            r.x == self.x - rhs.x,
            r.y == self.y - rhs.y,
    {
        Point { x: self.x - rhs.x, y: self.y - rhs.y }
    }
}

impl Time {
    /// The time in milliseconds.
    pub fn ms(&self) -> (r: u32)
        ensures
            r == self.milliseconds,
    {
        self.milliseconds
    }

    /// The sum of two times.
    pub fn add(self, rhs: Time) -> (r: Time)
        requires
            self.milliseconds + rhs.milliseconds <= u32::MAX,
        ensures
            r.milliseconds == self.milliseconds + rhs.milliseconds,
    {
        Time { milliseconds: self.milliseconds + rhs.milliseconds }
    }

    /// The difference of two times.
    pub fn sub(self, rhs: Time) -> (r: Time)
        requires
            rhs.milliseconds <= self.milliseconds,
        ensures
            r.milliseconds == self.milliseconds - rhs.milliseconds,
    {
        Time { milliseconds: self.milliseconds - rhs.milliseconds }
    }
}

/// The even number at or just below `x`.
pub open spec fn even_floor(x: int) -> int {
    x - x % 2
}

/// Rounds down to an even number.
pub fn round_even(x: i64) -> (r: i64)
    ensures
        r == even_floor(x as int),
{
    if x % 2 == 0 {
        x
    } else {
        x - 1
    }
}

impl Circle {
    /// The circle at the given place and time.
    pub fn new(x: i64, y: i64, ms: i64) -> (r: Circle)
        ensures
            r == (Circle { x, y, ms }),
    {
        Circle { x, y, ms }
    }

    /// Whether the sum of two circles can be held.
    pub open spec fn can_add(self, other: Circle) -> bool {
        fits(self.x + other.x) && fits(self.y + other.y) && fits(self.ms + other.ms)
    }

    /// Whether the difference of two circles can be held.
    pub open spec fn can_sub(self, other: Circle) -> bool {
        fits(self.x - other.x) && fits(self.y - other.y) && fits(self.ms - other.ms)
    }

    /// The difference of two circles, as a mathematical value.
    pub open spec fn spec_sub(self, other: Circle) -> Circle {
        Circle {
            x: (self.x - other.x) as i64,
            y: (self.y - other.y) as i64,
            ms: (self.ms - other.ms) as i64,
        }
    }

    /// The sum of two circles, field by field.
    pub fn add(self, other: Circle) -> (r: Circle)
        requires
            self.can_add(other),
        ensures
            r.x == self.x + other.x,
            r.y == self.y + other.y,
            r.ms == self.ms + other.ms,
    {
        Circle { x: self.x + other.x, y: self.y + other.y, ms: self.ms + other.ms }
    }

    /// The difference of two circles, field by field.
    pub fn sub(self, other: Circle) -> (r: Circle)
        requires
            self.can_sub(other),
        ensures
            r == self.spec_sub(other),
    {
        Circle { x: self.x - other.x, y: self.y - other.y, ms: self.ms - other.ms }
    }
}

/// The sequence that starts with the first circle and goes on with the
/// step from each circle's predecessor to it; the first circle is its own
/// predecessor, so the second item is the zero step.
pub open spec fn sequential(circles: Seq<Circle>) -> Seq<Circle>
    recommends
        circles.len() > 0,
{
    Seq::new(
        circles.len() + 1,
        |i: int|
            if i == 0 {
                circles[0]
            } else if i == 1 {
                circles[0].spec_sub(circles[0])
            } else {
                circles[i - 1].spec_sub(circles[i - 2])
            },
    )
}

/// Whether every step between neighbours can be held.
pub open spec fn steps_fit(circles: Seq<Circle>) -> bool {
    forall|i: int| 1 <= i < circles.len() ==> (#[trigger] circles[i]).can_sub(circles[i - 1])
}

/// Turns absolute places and times into steps between neighbours.
pub fn absolute_to_sequential(circles: &Vec<Circle>) -> (r: Vec<Circle>)
    requires
        circles@.len() > 0,
        steps_fit(circles@),
    ensures
        r@ == sequential(circles@),
{
    let mut steps: Vec<Circle> = Vec::new();
    let mut last = circles[0];
    steps.push(last);
    let mut i: usize = 0;
    while i < circles.len()
        invariant
            i <= circles@.len(),
            circles@.len() > 0,
            steps_fit(circles@),
            steps@.len() == i + 1,
            last == if i == 0 {
                circles@[0]
            } else {
                circles@[i - 1]
            },
            forall|k: int| 0 <= k <= i ==> steps@[k] == sequential(circles@)[k],
        decreases circles@.len() - i,
    {
        let circle = circles[i];
        proof {
            if i > 0 {
                assert(circles@[i as int].can_sub(circles@[i - 1]));
            }
        }
        steps.push(circle.sub(last));
        last = circle;
        i = i + 1;
    }
    assert(steps@ =~= sequential(circles@));
    steps
}

/// The time steps of the circles, each rounded down to an even number.
pub open spec fn even_steps(circles: Seq<Circle>) -> Seq<int> {
    Seq::new(circles.len(), |i: int| even_floor(circles[i].ms as int))
}

/// How often `key` occurs in `keys`.
pub open spec fn occurrences(keys: Seq<int>, key: int) -> nat
    decreases keys.len(),
{
    if keys.len() == 0 {
        0
    } else {
        occurrences(keys.drop_last(), key) + if keys.last() == key {
            1nat
        } else {
            0nat
        }
    }
}

/// Whether `key` is the time scale of the keys: it occurs among them, no
/// key occurs more often, and of the keys that occur as often it is the
/// largest.
pub open spec fn is_timescale(keys: Seq<int>, key: int) -> bool {
    &&& keys.contains(key)
    &&& forall|j: int|
        0 <= j < keys.len() ==> {
            ||| occurrences(keys, #[trigger] keys[j]) < occurrences(keys, key)
            ||| occurrences(keys, keys[j]) == occurrences(keys, key) && keys[j] <= key
        }
}

/// A key occurs in no more places than there are, and in one at least
/// exactly where the keys hold it.
pub proof fn lemma_occurrences(keys: Seq<int>, key: int)
    ensures
        occurrences(keys, key) <= keys.len(),
        occurrences(keys, key) > 0 <==> keys.contains(key),
    decreases keys.len(),
{
    if keys.len() > 0 {
        let init = keys.drop_last();
        lemma_occurrences(init, key);
        if keys.last() == key {
            assert(keys[keys.len() - 1] == key);
        } else if init.contains(key) {
            let i = choose|i: int| 0 <= i < init.len() && init[i] == key;
            assert(keys[i] == key);
        }
        if keys.contains(key) && keys.last() != key {
            let i = choose|i: int| 0 <= i < keys.len() && keys[i] == key;
            assert(init[i] == key);
        }
    }
}

/// Whether the tally holds, for each key that occurs, how often it occurs,
/// and nothing else.
pub open spec fn is_tally(tally: Map<i64, usize>, keys: Seq<int>) -> bool {
    forall|k: i64|
        {
            &&& #[trigger] tally.contains_key(k) <==> occurrences(keys, k as int) > 0
            &&& tally.contains_key(k) ==> tally[k] == occurrences(keys, k as int)
        }
}

/// Counts how often each even time step occurs among the circles.
pub fn tally_steps(circles: &Vec<Circle>) -> (tally: BTreeMap<i64, usize>)
    ensures
        is_tally(tally@, even_steps(circles@)),
{
    let ghost keys = even_steps(circles@);
    let mut tally: BTreeMap<i64, usize> = BTreeMap::new();
    let mut i: usize = 0;
    assert(keys.take(0) =~= Seq::<int>::empty());
    while i < circles.len()
        invariant
            i <= circles@.len(),
            keys == even_steps(circles@),
            is_tally(tally@, keys.take(i as int)),
        decreases circles@.len() - i,
    {
        let key = round_even(circles[i].ms);
        let count: usize = match tally.get(&key) {
            Some(count) => *count,
            None => 0,
        };
        proof {
            let before = keys.take(i as int);
            let after = keys.take(i + 1);
            assert(after.drop_last() =~= before);
            assert(after.last() == key);
            lemma_occurrences(before, key as int);
            assert(tally@.contains_key(key) <==> occurrences(before, key as int) > 0);
            assert(count == occurrences(before, key as int));
        }
        tally.insert(key, count + 1);
        proof {
            let before = keys.take(i as int);
            let after = keys.take(i + 1);
            assert forall|k: i64|
                {
                    &&& #[trigger] tally@.contains_key(k) <==> occurrences(after, k as int) > 0
                    &&& tally@.contains_key(k) ==> tally@[k] == occurrences(after, k as int)
                } by {
                assert(after.drop_last() =~= before);
            }
        }
        i = i + 1;
    }
    assert(keys.take(circles@.len() as int) =~= keys);
    tally
}

/// The even time step of a time, as a 64-bit integer.
pub open spec fn round_even_key(ms: i64) -> i64 {
    even_floor(ms as int) as i64
}

/// The most common time step of the circles, each step rounded down to an
/// even number; of several equally common ones, the largest.
pub fn find_timescale(sequential: &Vec<Circle>) -> (r: i64)
    requires
        sequential@.len() > 0,
    ensures
        is_timescale(even_steps(sequential@), r as int),
{
    let ghost keys = even_steps(sequential@);
    let tally = tally_steps(sequential);
    let mut best: i64 = 0;
    let mut best_count: usize = 0;
    for entry in it: tally.iter()
        invariant
            is_tally(tally@, keys),
            it.index() > 0 ==> tally@.contains_key(best) && tally@[best] == best_count,
            best_count == 0 <==> it.index() == 0,
            forall|j: int|
                0 <= j < it.index() ==> {
                    ||| *(#[trigger] it.seq()[j]).1 < best_count
                    ||| *it.seq()[j].1 == best_count && *it.seq()[j].0 <= best
                },
    {
        let key = *entry.0;
        let count = *entry.1;
        assert(tally@.contains_key(key) && tally@[key] == count);
        if count > best_count || (count == best_count && key >= best) {
            best = key;
            best_count = count;
        }
    }
    proof {
        let first = round_even_key(sequential@[0].ms);
        assert(keys[0] == first);
        lemma_occurrences(keys, first as int);
        assert(tally@.contains_key(first));
        lemma_occurrences(keys, best as int);
        assert forall|j: int| 0 <= j < keys.len() implies {
            ||| occurrences(keys, #[trigger] keys[j]) < occurrences(keys, best as int)
            ||| occurrences(keys, keys[j]) == occurrences(keys, best as int) && keys[j] <= best
        } by {
            let k = round_even_key(sequential@[j].ms);
            assert(keys[j] == k);
            lemma_occurrences(keys, k as int);
            assert(tally@.contains_key(k));
        }
    }
    best
}

} // verus!
