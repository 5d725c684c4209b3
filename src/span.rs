//! Query output values and their decoding into byte ranges.
use vstd::prelude::*;

verus! {

/// A value that a query row holds under an output field, as far as span decoding
/// needs to tell values apart.
#[derive(Debug)]
pub enum OutputValue {
    Null,
    Int64(i64),
    Uint64(u64),
    List(Vec<OutputValue>),
    /// Any other value (a string, a boolean, an enum, a float).
    Other,
}

/// The runtime shape of an output field, reported when a row cannot be decoded.
#[derive(Clone, Copy, Debug, PartialEq, Eq, Structural)]
pub enum Shape {
    Absent,
    Null,
    Integer,
    /// A list whose elements are all integers, with its length.
    IntegerList(usize),
    /// A list with at least one element that is not an integer.
    MixedList,
    Other,
}

/// Why a row's `span_start` / `span_end` could not be decoded.
#[derive(Clone, Copy, Debug, PartialEq, Eq, Structural)]
pub enum ShapeError {
    /// At least one of the two fields was not produced by the query.
    Missing { start: Shape, end: Shape },
    /// Expected two integers, or two integer lists of one nonzero length.
    WrongShape { start: Shape, end: Shape },
    /// An offset is negative or does not fit in 32 bits.
    OutOfRange,
    /// A start offset lies after its end offset.
    Reversed,
}

/// A byte range in the linted source.
#[derive(Clone, Copy, Debug, PartialEq, Eq, Structural)]
pub struct Span {
    pub start: u32,
    pub end: u32,
}

/// Decoded location(s) of one query row.
#[derive(Clone, Debug)]
pub enum SpanResult {
    Single { start: u32, end: u32 },
    Multiple { starts: Vec<u32>, ends: Vec<u32> },
}

/// The integer a scalar value stands for, whether stored signed or unsigned.
pub open spec fn int_of(v: OutputValue) -> Option<int> {
    match v {
        OutputValue::Int64(i) => Some(i as int),
        OutputValue::Uint64(u) => Some(u as int),
        _ => None,
    }
}

pub open spec fn all_ints(s: Seq<OutputValue>) -> bool {
    forall|i: int| 0 <= i < s.len() ==> (#[trigger] int_of(s[i])) is Some
}

/// The integers of a list value whose elements are all integers.
pub open spec fn ints_of(v: OutputValue) -> Option<Seq<int>> {
    match v {
        OutputValue::List(l) => if all_ints(l@) {
            Some(l@.map_values(|e: OutputValue| int_of(e)->0))
        } else {
            None
        },
        _ => None,
    }
}

pub open spec fn shape_spec(v: Option<OutputValue>) -> Shape {
    match v {
        None => Shape::Absent,
        Some(OutputValue::Null) => Shape::Null,
        Some(OutputValue::Int64(_)) => Shape::Integer,
        Some(OutputValue::Uint64(_)) => Shape::Integer,
        Some(OutputValue::List(l)) => if all_ints(l@) {
            Shape::IntegerList(l@.len() as usize)
        } else {
            Shape::MixedList
        },
        Some(OutputValue::Other) => Shape::Other,
    }
}

pub open spec fn is_offset(i: int) -> bool {
    0 <= i <= u32::MAX
}

/// The (start, end) pairs that a row stands for, when its fields have one of
/// the two accepted shapes (empty otherwise).
pub open spec fn raw_pairs(start: Option<OutputValue>, end: Option<OutputValue>) -> Seq<(int, int)> {
    match (shape_spec(start), shape_spec(end)) {
        (Shape::Integer, Shape::Integer) => seq![(int_of(start->0)->0, int_of(end->0)->0)],
        (Shape::IntegerList(a), Shape::IntegerList(b)) => if a == b {
            let s = ints_of(start->0)->0;
            let e = ints_of(end->0)->0;
            Seq::new(s.len(), |i: int| (s[i], e[i]))
        } else {
            Seq::empty()
        },
        _ => Seq::empty(),
    }
}

/// The error that decoding a row's two fields reports, or `None` when it decodes.
pub open spec fn decode_error(start: Option<OutputValue>, end: Option<OutputValue>) -> Option<ShapeError> {
    let (a, b) = (shape_spec(start), shape_spec(end));
    if a == Shape::Absent || b == Shape::Absent {
        Some(ShapeError::Missing { start: a, end: b })
    } else if !(a == Shape::Integer && b == Shape::Integer)
        && !(a is IntegerList && a == b && a->IntegerList_0 > 0) {
        Some(ShapeError::WrongShape { start: a, end: b })
    } else if exists|i: int| 0 <= i < raw_pairs(start, end).len()
        && !(is_offset((#[trigger] raw_pairs(start, end)[i]).0) && is_offset(raw_pairs(start, end)[i].1)) {
        Some(ShapeError::OutOfRange)
    } else if exists|i: int| 0 <= i < raw_pairs(start, end).len()
        && (#[trigger] raw_pairs(start, end)[i]).0 > raw_pairs(start, end)[i].1 {
        Some(ShapeError::Reversed)
    } else {
        None
    }
}

impl SpanResult {
    /// The (start, end) pairs, in index order.
    pub open spec fn pairs(&self) -> Seq<(int, int)> {
        match self {
            SpanResult::Single { start, end } => seq![(*start as int, *end as int)],
            SpanResult::Multiple { starts, ends } => Seq::new(
                starts@.len(),
                |i: int| (starts@[i] as int, ends@[i] as int),
            ),
        }
    }

    /// Starts and ends are aligned and nonempty, and no start lies after its end.
    pub open spec fn wf(&self) -> bool {
        &&& match self {
            SpanResult::Single { .. } => true,
            SpanResult::Multiple { starts, ends } => starts@.len() == ends@.len() && starts@.len()
                > 0,
        }
        &&& forall|i: int| 0 <= i < self.pairs().len() ==> (#[trigger] self.pairs()[i]).0 <= self.pairs()[i].1
    }
}

fn int_value(v: &OutputValue) -> (r: Option<i128>)
    ensures
        match int_of(*v) {
            Some(i) => r == Some(i as i128),
            None => r is None,
        },
{
    match v {
        OutputValue::Int64(i) => Some(*i as i128),
        OutputValue::Uint64(u) => Some(*u as i128),
        _ => None,
    }
}

/// The shape of an output field.
pub fn shape_of(v: &Option<OutputValue>) -> (r: Shape)
    ensures
        r == shape_spec(*v),
{
    match v {
        None => Shape::Absent,
        Some(OutputValue::Null) => Shape::Null,
        Some(OutputValue::Int64(_)) => Shape::Integer,
        Some(OutputValue::Uint64(_)) => Shape::Integer,
        Some(OutputValue::Other) => Shape::Other,
        Some(OutputValue::List(l)) => {
            let mut i: usize = 0;
            while i < l.len()
                invariant
                    *v == Some(OutputValue::List(*l)),
                    0 <= i <= l@.len(),
                    forall|j: int| 0 <= j < i ==> (#[trigger] int_of(l@[j])) is Some,
                decreases l@.len() - i,
            {
                if int_value(&l[i]).is_none() {
                    assert(int_of(l@[i as int]) is None);
                    return Shape::MixedList;
                }
                i = i + 1;
            }
            Shape::IntegerList(l.len())
        },
    }
}

fn fits(x: i128) -> (r: bool)
    ensures
        r == is_offset(x as int),
{
    0 <= x && x <= u32::MAX as i128
}

/// Decodes the `span_start` / `span_end` fields of one row: two integers give a
/// single range, two integer lists of one nonzero length give one range per index.
pub fn decode_span(start: &Option<OutputValue>, end: &Option<OutputValue>) -> (r: Result<
    SpanResult,
    ShapeError,
>)
    ensures
        match r {
            Ok(res) => {
                &&& decode_error(*start, *end) is None
                &&& res.wf()
                &&& res.pairs() == raw_pairs(*start, *end)
                &&& (res is Single <==> shape_spec(*start) == Shape::Integer)
            },
            Err(e) => decode_error(*start, *end) == Some(e),
        },
{
    let a = shape_of(start);
    let b = shape_of(end);
    if a == Shape::Absent || b == Shape::Absent {
        return Err(ShapeError::Missing { start: a, end: b });
    }
    match (start, end) {
        (Some(OutputValue::List(ls)), Some(OutputValue::List(le))) => {
            if !(a == b && ls.len() > 0 && ls.len() == le.len() && a == Shape::IntegerList(ls.len())) {
                return Err(ShapeError::WrongShape { start: a, end: b });
            }
            let ghost pairs = raw_pairs(*start, *end);
            assert(pairs.len() == ls@.len());
            let mut i: usize = 0;
            while i < ls.len()
                invariant
                    *start == Some(OutputValue::List(*ls)),
                    *end == Some(OutputValue::List(*le)),
                    pairs == raw_pairs(*start, *end),
                    all_ints(ls@),
                    all_ints(le@),
                    pairs.len() == ls@.len(),
                    ls@.len() == le@.len(),
                    0 <= i <= ls@.len(),
                    forall|j: int| 0 <= j < i ==> is_offset((#[trigger] pairs[j]).0) && is_offset(pairs[j].1),
                decreases ls@.len() - i,
            {
                let x = int_value(&ls[i]).unwrap();
                let y = int_value(&le[i]).unwrap();
                assert(pairs[i as int] == (x as int, y as int));
                if !fits(x) || !fits(y) {
                    assert(!(is_offset(raw_pairs(*start, *end)[i as int].0) && is_offset(
                        raw_pairs(*start, *end)[i as int].1,
                    )));
                    return Err(ShapeError::OutOfRange);
                }
                assert(is_offset(pairs[i as int].0) && is_offset(pairs[i as int].1));
                i = i + 1;
            }
            let mut starts: Vec<u32> = Vec::new();
            let mut ends: Vec<u32> = Vec::new();
            let mut k: usize = 0;
            while k < ls.len()
                invariant
                    *start == Some(OutputValue::List(*ls)),
                    *end == Some(OutputValue::List(*le)),
                    pairs == raw_pairs(*start, *end),
                    all_ints(ls@),
                    all_ints(le@),
                    pairs.len() == ls@.len(),
                    ls@.len() == le@.len(),
                    0 <= k <= ls@.len(),
                    forall|j: int| 0 <= j < pairs.len() ==> is_offset((#[trigger] pairs[j]).0) && is_offset(pairs[j].1),
                    starts@.len() == k,
                    ends@.len() == k,
                    forall|j: int| 0 <= j < k ==> (#[trigger] starts@[j] as int, ends@[j] as int) == pairs[j],
                    forall|j: int| 0 <= j < k ==> (#[trigger] pairs[j]).0 <= pairs[j].1,
                decreases ls@.len() - k,
            {
                let x = int_value(&ls[k]).unwrap();
                let y = int_value(&le[k]).unwrap();
                assert(pairs[k as int] == (x as int, y as int));
                assert(is_offset(pairs[k as int].0) && is_offset(pairs[k as int].1));
                if x > y {
                    assert(raw_pairs(*start, *end)[k as int].0 > raw_pairs(*start, *end)[k as int].1);
                    return Err(ShapeError::Reversed);
                }
                starts.push(x as u32);
                ends.push(y as u32);
                k = k + 1;
            }
            let res = SpanResult::Multiple { starts, ends };
            assert(res.pairs() =~= pairs);
            Ok(res)
        },
        _ => {
            if !(a == Shape::Integer && b == Shape::Integer) {
                return Err(ShapeError::WrongShape { start: a, end: b });
            }
            let x = int_value(start.as_ref().unwrap()).unwrap();
            let y = int_value(end.as_ref().unwrap()).unwrap();
            assert(raw_pairs(*start, *end)[0] == (x as int, y as int));
            if !fits(x) || !fits(y) {
                assert(!(is_offset(raw_pairs(*start, *end)[0].0) && is_offset(raw_pairs(*start, *end)[0].1)));
                return Err(ShapeError::OutOfRange);
            }
            if x > y {
                assert(raw_pairs(*start, *end)[0].0 > raw_pairs(*start, *end)[0].1);
                return Err(ShapeError::Reversed);
            }
            let res = SpanResult::Single { start: x as u32, end: y as u32 };
            assert(res.pairs() =~= raw_pairs(*start, *end));
            Ok(res)
        },
    }
}

} // verus!
