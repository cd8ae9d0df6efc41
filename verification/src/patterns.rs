//! Decisions made by matching values against patterns: literals, ranges,
//! alternatives, destructured structs, guards and bindings.
//!
//! Each decision is a function from plain values to a plain answer, so a
//! caller can print the answer or act on it as it likes.

use vstd::prelude::*;
use crate::random::roll;

verus! {

/// Where a number falls among the arms `1`, `2..=5`, `6 | 7` and the rest.
#[derive(Clone, Copy, Debug, PartialEq, Eq, Structural)]
pub enum NumberClass {
    One,
    TwoToFive,
    SixOrSeven,
    Other,
}

/// What [`classify_number`] answers for `x`.
pub open spec fn number_class(x: int) -> NumberClass {
    if x == 1 {
        NumberClass::One
    } else if 2 <= x <= 5 {
        NumberClass::TwoToFive
    } else if x == 6 || x == 7 {
        NumberClass::SixOrSeven
    } else {
        NumberClass::Other
    }
}

/// Sorts `x` into the arm that matches it first.
pub fn classify_number(x: i32) -> (class: NumberClass)
    ensures
        class == number_class(x as int),
{
    match x {
        1 => NumberClass::One,
        2..=5 => NumberClass::TwoToFive,
        6 | 7 => NumberClass::SixOrSeven,
        _ => NumberClass::Other,
    }
}

/// Where a character falls among the lower-case letters.
#[derive(Clone, Copy, Debug, PartialEq, Eq, Structural)]
pub enum LetterClass {
    /// One of `a` to `j`.
    Early,
    /// One of `k` to `z`.
    Late,
    /// Anything else.
    Other,
}

/// What [`classify_letter`] answers for `c`.
pub open spec fn letter_class(c: char) -> LetterClass {
    if 'a' <= c <= 'j' {
        LetterClass::Early
    } else if 'k' <= c <= 'z' {
        LetterClass::Late
    } else {
        LetterClass::Other
    }
}

/// Sorts `c` by the range of letters it falls in.
pub fn classify_letter(c: char) -> (class: LetterClass)
    ensures
        class == letter_class(c),
{
    if 'a' <= c && c <= 'j' {
        LetterClass::Early
    } else if 'k' <= c && c <= 'z' {
        LetterClass::Late
    } else {
        LetterClass::Other
    }
}

/// A point of the plane.
#[derive(Clone, Copy, Debug, PartialEq, Eq, Structural)]
pub struct Point {
    pub x: i32,
    pub y: i32,
}

/// Where a point lies relative to the line `x = 4`.
#[derive(Clone, Copy, Debug, PartialEq, Eq, Structural)]
pub enum PointPlace {
    /// On the line, at this `y`.
    OnLine(i32),
    /// Off the line, at this `x` and `y`.
    Elsewhere(i32, i32),
}

/// Destructures `p` with a literal in the pattern: the first arm takes the
/// points with `x` equal to 4 and binds only `y`.
pub fn locate(p: Point) -> (place: PointPlace)
    ensures
        place == (if p.x == 4 {
            PointPlace::OnLine(p.y)
        } else {
            PointPlace::Elsewhere(p.x, p.y)
        }),
{
    match p {
        Point { x: 4, y } => PointPlace::OnLine(y),
        Point { x, y } => PointPlace::Elsewhere(x, y),
    }
}

/// The sum of `x * x + y * y` over `points`, as a mathematical integer.
pub open spec fn squares_total(points: Seq<Point>) -> int
    decreases points.len(),
{
    if points.len() == 0 {
        0
    } else {
        squares_total(points.drop_last()) + points.last().x * points.last().x + points.last().y
            * points.last().y
    }
}

/// The total is never negative and grows with every point.
pub proof fn lemma_squares_total_monotone(points: Seq<Point>, n: int)
    requires
        0 <= n <= points.len(),
    ensures
        0 <= squares_total(points.take(n)) <= squares_total(points),
    decreases points.len() - n,
{
    if n == points.len() {
        assert(points.take(n) =~= points);
        lemma_squares_total_nonnegative(points);
    } else {
        lemma_squares_total_monotone(points, n + 1);
        lemma_squares_total_nonnegative(points.take(n));
        let longer = points.take(n + 1);
        assert(longer.drop_last() =~= points.take(n));
        assert(longer.last().x * longer.last().x >= 0) by (nonlinear_arith);
        assert(longer.last().y * longer.last().y >= 0) by (nonlinear_arith);
    }
}

/// The total is never negative.
pub proof fn lemma_squares_total_nonnegative(points: Seq<Point>)
    ensures
        0 <= squares_total(points),
    decreases points.len(),
{
    if points.len() > 0 {
        lemma_squares_total_nonnegative(points.drop_last());
        assert(points.last().x * points.last().x >= 0) by (nonlinear_arith);
        assert(points.last().y * points.last().y >= 0) by (nonlinear_arith);
    }
}

/// The sum of the squared coordinates of all `points`, or `None` where the
/// sum does not fit an `i32`.
pub fn sum_of_squares(points: &Vec<Point>) -> (sum: Option<i32>)
    ensures
        sum == (if squares_total(points@) <= i32::MAX {
            Some(squares_total(points@) as i32)
        } else {
            None
        }),
{
    let mut total: i64 = 0;
    let mut i: usize = 0;
    while i < points.len()
        invariant
            i <= points.len(),
            total == squares_total(points@.take(i as int)),
            0 <= total <= i32::MAX,
        decreases points.len() - i,
    {
        let p = points[i];
        let x = p.x as i64;
        let y = p.y as i64;
        assert(0 <= x * x <= 0x4000_0000_0000_0000) by (nonlinear_arith)
            requires
                -0x8000_0000 <= x <= 0x7fff_ffff,
        ;
        assert(0 <= y * y <= 0x4000_0000_0000_0000) by (nonlinear_arith)
            requires
                -0x8000_0000 <= y <= 0x7fff_ffff,
        ;
        let xx: i64 = x * x;
        let yy: i64 = y * y;
        proof {
            assert(points@.take(i + 1).drop_last() =~= points@.take(i as int));
            lemma_squares_total_monotone(points@, i + 1);
        }
        if xx > i32::MAX as i64 || yy > i32::MAX as i64 || total + xx + yy > i32::MAX as i64 {
            return None;
        }
        total = total + xx + yy;
        i = i + 1;
    }
    assert(points@.take(i as int) =~= points@);
    Some(total as i32)
}

/// What became of a setting when a new value was offered for it.
#[derive(Clone, Copy, Debug, PartialEq, Eq)]
pub struct SettingUpdate {
    /// The setting afterwards.
    pub setting: Option<i32>,
    /// Whether the new value was turned down.
    pub refused: bool,
}

/// Offers `new` for a setting: a customized setting is not overwritten by
/// another customized value, and the offer is refused.  In every other
/// case the setting becomes `new`.
pub fn update_setting(current: Option<i32>, new: Option<i32>) -> (update: SettingUpdate)
    ensures
        update.refused == (current.is_some() && new.is_some()),
        update.setting == (if current.is_some() && new.is_some() {
            current
        } else {
            new
        }),
{
    match (current, new) {
        (Some(_), Some(_)) => SettingUpdate { setting: current, refused: true },
        _ => SettingUpdate { setting: new, refused: false },
    }
}

/// The first, third and fifth of five numbers.
pub fn odd_places(numbers: (i32, i32, i32, i32, i32)) -> (picked: (i32, i32, i32))
    ensures
        picked == (numbers.0, numbers.2, numbers.4),
{
    match numbers {
        (first, _, third, _, fifth) => (first, third, fifth),
    }
}

/// What matching an optional number against `Some(50)`, then against an
/// arm guarded by equality with a second number, comes to.
#[derive(Clone, Copy, Debug, PartialEq, Eq, Structural)]
pub enum GuardOutcome {
    /// The number is 50.
    Fifty,
    /// The number is not 50 and equals the second number.
    Matched(i32),
    /// Neither.
    Default,
}

/// Matches `x` with a guard on the second arm.
pub fn match_guard(x: Option<i32>, y: i32) -> (outcome: GuardOutcome)
    ensures
        outcome == (match x {
            Some(n) => if n == 50 {
                GuardOutcome::Fifty
            } else if n == y {
                GuardOutcome::Matched(n)
            } else {
                GuardOutcome::Default
            },
            None => GuardOutcome::Default,
        }),
{
    match x {
        Some(50) => GuardOutcome::Fifty,
        Some(n) if n == y => GuardOutcome::Matched(n),
        _ => GuardOutcome::Default,
    }
}

/// A greeting that carries an id.
#[derive(Clone, Copy, Debug, PartialEq, Eq, Structural)]
pub enum Msg {
    Hello { id: i32 },
}

/// What the id of a greeting is matched to.
#[derive(Clone, Copy, Debug, PartialEq, Eq, Structural)]
pub enum IdClass {
    /// An id from 3 to 8, bound while it is tested.
    InRange(i32),
    /// An id from 10 to 13, tested and not bound.
    Unbound,
    /// Any other id.
    Other(i32),
}

/// Tests the id of `msg` against two ranges, binding it in the first.
pub fn binding_case(msg: Msg) -> (class: IdClass)
    ensures
        class == (match msg {
            Msg::Hello { id } => if 3 <= id <= 8 {
                IdClass::InRange(id)
            } else if 10 <= id <= 13 {
                IdClass::Unbound
            } else {
                IdClass::Other(id)
            },
        }),
{
    match msg {
        Msg::Hello { id } => {
            if 3 <= id && id <= 8 {
                IdClass::InRange(id)
            } else if 10 <= id && id <= 13 {
                IdClass::Unbound
            } else {
                IdClass::Other(id)
            }
        },
    }
}

/// The background colour that a chain of `if let`, `else if` and
/// `else if let` arrives at.
#[derive(Clone, Copy, Debug, PartialEq, Eq, Structural)]
pub enum Background {
    /// The favourite colour, where one is given.
    Favorite,
    /// Green, on a Tuesday.
    Green,
    /// Purple, for an age above 30.
    Purple,
    /// Orange, for any other age.
    Orange,
    /// Blue, where nothing else applies.
    Blue,
}

/// Picks the background: a favourite colour wins, then Tuesday, then the
/// age where it is known, and blue is left.
pub fn if_let_cases(has_favorite: bool, is_tuesday: bool, age: Option<u8>) -> (color: Background)
    ensures
        color == (if has_favorite {
            Background::Favorite
        } else if is_tuesday {
            Background::Green
        } else {
            match age {
                Some(years) => if years > 30 {
                    Background::Purple
                } else {
                    Background::Orange
                },
                None => Background::Blue,
            }
        }),
{
    if has_favorite {
        Background::Favorite
    } else if is_tuesday {
        Background::Green
    } else if let Some(years) = age {
        if years > 30 {
            Background::Purple
        } else {
            Background::Orange
        }
    } else {
        Background::Blue
    }
}

/// Pops a stack until it is empty and returns what came off, top first.
pub fn while_let(stack: Vec<i32>) -> (popped: Vec<i32>)
    ensures
        popped@ == stack@.reverse(),
{
    let mut stack = stack;
    let ghost all = stack@;
    let mut popped: Vec<i32> = Vec::new();
    loop
        invariant
            stack@.len() + popped@.len() == all.len(),
            stack@ == all.take(stack@.len() as int),
            forall|k: int| 0 <= k < popped@.len() ==> popped@[k] == all[all.len() - 1 - k],
        ensures
            stack@.len() == 0,
        decreases stack@.len(),
    {
        match stack.pop() {
            Some(top) => {
                popped.push(top);
            },
            None => {
                break ;
            },
        }
    }
    assert(popped@ =~= all.reverse());
    popped
}

/// Pairs each value with its index.
pub fn for_loops_pattern(v: &Vec<i32>) -> (pairs: Vec<(usize, i32)>)
    ensures
        pairs@.len() == v@.len(),
        forall|i: int| 0 <= i < v@.len() ==> pairs@[i] == (i as usize, v@[i]),
{
    let mut pairs: Vec<(usize, i32)> = Vec::new();
    let mut index: usize = 0;
    while index < v.len()
        invariant
            index <= v.len(),
            pairs@.len() == index,
            forall|i: int| 0 <= i < index ==> pairs@[i] == (i as usize, v@[i]),
        decreases v.len() - index,
    {
        pairs.push((index, v[index]));
        index = index + 1;
    }
    pairs
}

/// What [`match_cases`] found.
#[derive(Clone, Copy, Debug, PartialEq, Eq)]
pub struct MatchReport {
    /// The number that was drawn.
    pub roll: i32,
    /// The arm that the number matched.
    pub number: NumberClass,
    /// The range that the letter `c` falls in.
    pub letter: LetterClass,
    /// Where the point (4, 5) lies.
    pub place: PointPlace,
    /// The sum of squares over the points (0, 0), (10, 10) and (8, 23).
    pub squares: Option<i32>,
    /// The setting 5 after the new value 10 was offered.
    pub setting: SettingUpdate,
    /// The first, third and fifth of the numbers 1 to 5.
    pub picked: (i32, i32, i32),
}

/// What [`match_cases_with`] reports for the number `x`.
pub open spec fn match_report(x: i32) -> MatchReport {
    MatchReport {
        roll: x,
        number: number_class(x as int),
        letter: LetterClass::Early,
        place: PointPlace::OnLine(5),
        squares: Some(793),
        setting: SettingUpdate { setting: Some(5), refused: true },
        picked: (1, 3, 5),
    }
}

/// Runs every match of the tour on fixed values, and the first one on the
/// number `x`.
pub fn match_cases_with(x: i32) -> (report: MatchReport)
    ensures
        report == match_report(x),
{
    let number = classify_number(x);
    let letter = classify_letter('c');
    let place = locate(Point { x: 4, y: 5 });

    let mut points: Vec<Point> = Vec::new();
    points.push(Point { x: 0, y: 0 });
    points.push(Point { x: 10, y: 10 });
    points.push(Point { x: 8, y: 23 });
    let squares = sum_of_squares(&points);
    proof {
        let three = points@;
        let two = three.drop_last();
        let one = two.drop_last();
        let (p, q, r) = (one.last(), two.last(), three.last());
        assert(p == Point { x: 0, y: 0 } && one.drop_last().len() == 0);
        assert(q == Point { x: 10, y: 10 });
        assert(r == Point { x: 8, y: 23 });
        assert(p.x * p.x + p.y * p.y == 0) by (nonlinear_arith)
            requires
                p.x == 0 && p.y == 0,
        ;
        assert(q.x * q.x + q.y * q.y == 200) by (nonlinear_arith)
            requires
                q.x == 10 && q.y == 10,
        ;
        assert(r.x * r.x + r.y * r.y == 593) by (nonlinear_arith)
            requires
                r.x == 8 && r.y == 23,
        ;
        assert(squares_total(one.drop_last()) == 0);
        assert(squares_total(one) == 0);
        assert(squares_total(two) == 200);
        assert(squares_total(three) == 793);
    }

    let setting = update_setting(Some(5), Some(10));
    let picked = odd_places((1, 2, 3, 4, 5));
    MatchReport { roll: x, number, letter, place, squares, setting, picked }
}

/// Draws a number from 0 to 9 and runs the tour of matches on it.
/// Whichever number is drawn, the report is the one that
/// [`match_cases_with`] gives for it.
pub fn match_cases() -> (report: MatchReport)
    ensures
        0 <= report.roll < 10,
        report == match_report(report.roll),
{
    match roll(0, 10) {
        Some(x) => match_cases_with(x),
        None => match_cases_with(0),
    }
}

} // verus!
