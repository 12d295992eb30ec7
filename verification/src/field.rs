//! One field of a cron expression: which values its position admits, the
//! names that stand for some of them, and the items that a field is a list of.

use vstd::prelude::*;
use crate::text::{find, find_from, number, read_number};

verus! {

/// The position of a field in a cron expression.
#[derive(Clone, Copy, Debug, PartialEq, Eq, Structural)]
pub enum FieldKind {
    Second,
    Minute,
    Hour,
    DayOfMonth,
    Month,
    DayOfWeek,
    Year,
}

impl FieldKind {
    /// The least value of a field of this kind.
    pub open spec fn lo(self) -> u32 {
        match self {
            FieldKind::DayOfMonth | FieldKind::Month => 1,
            FieldKind::Year => 1,
            _ => 0,
        }
    }

    /// The greatest value of a field of this kind.
    pub open spec fn hi(self) -> u32 {
        match self {
            FieldKind::Second | FieldKind::Minute => 59,
            FieldKind::Hour => 23,
            FieldKind::DayOfMonth => 31,
            FieldKind::Month => 12,
            FieldKind::DayOfWeek => 7,
            FieldKind::Year => 5000,
        }
    }

    /// The value that a three-letter name stands for in a field of this
    /// kind: a month in the month field, a weekday (Sunday is 0) in the
    /// day-of-week field, in any mix of upper and lower case.
    ///
    /// In numbers the day-of-week field takes 7 for Sunday as well.
    pub open spec fn named(self, s: Seq<char>) -> Option<u32> {
        match self {
            FieldKind::Month => {
                if is_name(s, 'j', 'a', 'n') {
                    Some(1)
                } else if is_name(s, 'f', 'e', 'b') {
                    Some(2)
                } else if is_name(s, 'm', 'a', 'r') {
                    Some(3)
                } else if is_name(s, 'a', 'p', 'r') {
                    Some(4)
                } else if is_name(s, 'm', 'a', 'y') {
                    Some(5)
                } else if is_name(s, 'j', 'u', 'n') {
                    Some(6)
                } else if is_name(s, 'j', 'u', 'l') {
                    Some(7)
                } else if is_name(s, 'a', 'u', 'g') {
                    Some(8)
                } else if is_name(s, 's', 'e', 'p') {
                    Some(9)
                } else if is_name(s, 'o', 'c', 't') {
                    Some(10)
                } else if is_name(s, 'n', 'o', 'v') {
                    Some(11)
                } else if is_name(s, 'd', 'e', 'c') {
                    Some(12)
                } else {
                    None
                }
            },
            FieldKind::DayOfWeek => {
                if is_name(s, 's', 'u', 'n') {
                    Some(0)
                } else if is_name(s, 'm', 'o', 'n') {
                    Some(1)
                } else if is_name(s, 't', 'u', 'e') {
                    Some(2)
                } else if is_name(s, 'w', 'e', 'd') {
                    Some(3)
                } else if is_name(s, 't', 'h', 'u') {
                    Some(4)
                } else if is_name(s, 'f', 'r', 'i') {
                    Some(5)
                } else if is_name(s, 's', 'a', 't') {
                    Some(6)
                } else {
                    None
                }
            },
            _ => None,
        }
    }

    /// The value that `s` writes in a field of this kind: a number or a
    /// name, within the field's range.
    pub open spec fn value(self, s: Seq<char>) -> Option<u32> {
        let read = if number(s).is_some() {
            number(s)
        } else {
            self.named(s)
        };
        if read.is_some() && self.lo() <= read.unwrap() <= self.hi() {
            read
        } else {
            None
        }
    }

    /// The values that the item `s` admits in a field of this kind.
    ///
    /// An item is `*` (every value), a value, a range `a-b` with `a <= b`,
    /// or a step `a/n` or `*/n` with `n >= 1`: every `n`-th value from `a`,
    /// or from the least value, up to the greatest.
    pub open spec fn item(self, s: Seq<char>) -> Option<Span> {
        let slash = find_from(s, '/', 0);
        let dash = find_from(s, '-', 0);
        if 0 <= slash < s.len() {
            let step = number(s.subrange(slash + 1, s.len() as int));
            let base = s.subrange(0, slash);
            if step.is_none() || step.unwrap() == 0 {
                None
            } else if is_star(base) {
                Some(Span { first: self.lo(), last: self.hi(), step: step.unwrap() })
            } else if self.value(base).is_some() {
                Some(Span { first: self.value(base).unwrap(), last: self.hi(), step: step.unwrap() })
            } else {
                None
            }
        } else if is_star(s) {
            Some(Span { first: self.lo(), last: self.hi(), step: 1 })
        } else if 0 <= dash < s.len() {
            let a = self.value(s.subrange(0, dash));
            let b = self.value(s.subrange(dash + 1, s.len() as int));
            if a.is_some() && b.is_some() && a.unwrap() <= b.unwrap() {
                Some(Span { first: a.unwrap(), last: b.unwrap(), step: 1 })
            } else {
                None
            }
        } else if self.value(s).is_some() {
            Some(Span { first: self.value(s).unwrap(), last: self.value(s).unwrap(), step: 1 })
        } else {
            None
        }
    }

    /// The least value of a field of this kind.
    pub fn min_value(self) -> (r: u32)
        ensures
            r == self.lo(),
    {
        match self {
            FieldKind::DayOfMonth | FieldKind::Month => 1,
            FieldKind::Year => 1,
            _ => 0,
        }
    }

    /// The greatest value of a field of this kind.
    pub fn max_value(self) -> (r: u32)
        ensures
            r == self.hi(),
    {
        match self {
            FieldKind::Second | FieldKind::Minute => 59,
            FieldKind::Hour => 23,
            FieldKind::DayOfMonth => 31,
            FieldKind::Month => 12,
            FieldKind::DayOfWeek => 7,
            FieldKind::Year => 5000,
        }
    }

    /// Reads three characters as a name of this kind of field.
    pub fn read_name(self, s: &[char], from: usize, to: usize) -> (r: Option<u32>)
        requires
            from <= to <= s.len(),
        ensures
            r == self.named(s@.subrange(from as int, to as int)),
    {
        if to - from != 3 {
            return None;
        }
        let ghost t = s@.subrange(from as int, to as int);
        let a: u32 = lower_case(s[from]);
        let b: u32 = lower_case(s[from + 1]);
        let c: u32 = lower_case(s[from + 2]);
        assert(a == lower(t[0]) && b == lower(t[1]) && c == lower(t[2]));
        match self {
            FieldKind::Month => {
                if a == 'j' as u32 && b == 'a' as u32 && c == 'n' as u32 {
                    Some(1)
                } else if a == 'f' as u32 && b == 'e' as u32 && c == 'b' as u32 {
                    Some(2)
                } else if a == 'm' as u32 && b == 'a' as u32 && c == 'r' as u32 {
                    Some(3)
                } else if a == 'a' as u32 && b == 'p' as u32 && c == 'r' as u32 {
                    Some(4)
                } else if a == 'm' as u32 && b == 'a' as u32 && c == 'y' as u32 {
                    Some(5)
                } else if a == 'j' as u32 && b == 'u' as u32 && c == 'n' as u32 {
                    Some(6)
                } else if a == 'j' as u32 && b == 'u' as u32 && c == 'l' as u32 {
                    Some(7)
                } else if a == 'a' as u32 && b == 'u' as u32 && c == 'g' as u32 {
                    Some(8)
                } else if a == 's' as u32 && b == 'e' as u32 && c == 'p' as u32 {
                    Some(9)
                } else if a == 'o' as u32 && b == 'c' as u32 && c == 't' as u32 {
                    Some(10)
                } else if a == 'n' as u32 && b == 'o' as u32 && c == 'v' as u32 {
                    Some(11)
                } else if a == 'd' as u32 && b == 'e' as u32 && c == 'c' as u32 {
                    Some(12)
                } else {
                    None
                }
            },
            FieldKind::DayOfWeek => {
                if a == 's' as u32 && b == 'u' as u32 && c == 'n' as u32 {
                    Some(0)
                } else if a == 'm' as u32 && b == 'o' as u32 && c == 'n' as u32 {
                    Some(1)
                } else if a == 't' as u32 && b == 'u' as u32 && c == 'e' as u32 {
                    Some(2)
                } else if a == 'w' as u32 && b == 'e' as u32 && c == 'd' as u32 {
                    Some(3)
                } else if a == 't' as u32 && b == 'h' as u32 && c == 'u' as u32 {
                    Some(4)
                } else if a == 'f' as u32 && b == 'r' as u32 && c == 'i' as u32 {
                    Some(5)
                } else if a == 's' as u32 && b == 'a' as u32 && c == 't' as u32 {
                    Some(6)
                } else {
                    None
                }
            },
            _ => None,
        }
    }

    /// Reads the characters of `s` from `from` up to `to` as a value of this
    /// kind of field.
    pub fn read_value(self, s: &[char], from: usize, to: usize) -> (r: Option<u32>)
        requires
            from <= to <= s.len(),
        ensures
            r == self.value(s@.subrange(from as int, to as int)),
    {
        let read = match read_number(s, from, to) {
            Some(n) => Some(n),
            None => self.read_name(s, from, to),
        };
        match read {
            Some(v) => {
                if self.min_value() <= v && v <= self.max_value() {
                    Some(v)
                } else {
                    None
                }
            },
            None => None,
        }
    }

    /// Reads `s` as an item of this kind of field.
    pub fn read_item(self, s: &[char]) -> (r: Option<Span>)
        ensures
            r == self.item(s@),
    {
        let n: usize = s.len();
        let slash: usize = find(s, '/');
        assert(s@.subrange(0, n as int) =~= s@);
        if slash < n {
            let step = read_number(s, slash + 1, n);
            match step {
                None => None,
                Some(k) => {
                    if k == 0 {
                        None
                    } else if slash == 1 && s[0] == '*' {
                        Some(Span { first: self.min_value(), last: self.max_value(), step: k })
                    } else {
                        match self.read_value(s, 0, slash) {
                            Some(a) => Some(Span { first: a, last: self.max_value(), step: k }),
                            None => None,
                        }
                    }
                },
            }
        } else if n == 1 && s[0] == '*' {
            Some(Span { first: self.min_value(), last: self.max_value(), step: 1 })
        } else {
            let dash: usize = find(s, '-');
            if dash < n {
                let a = self.read_value(s, 0, dash);
                let b = self.read_value(s, dash + 1, n);
                match (a, b) {
                    (Some(x), Some(y)) => {
                        if x <= y {
                            Some(Span { first: x, last: y, step: 1 })
                        } else {
                            None
                        }
                    },
                    _ => None,
                }
            } else {
                match self.read_value(s, 0, n) {
                    Some(v) => Some(Span { first: v, last: v, step: 1 }),
                    None => None,
                }
            }
        }
    }
}

/// The code point of `c`, or of its lower-case form where `c` is an
/// ASCII capital.
pub open spec fn lower(c: char) -> u32 {
    if 'A' as u32 <= c as u32 <= 'Z' as u32 {
        (c as u32 + 32) as u32
    } else {
        c as u32
    }
}

/// Whether `s` is the three letters `a`, `b`, `c` in any mix of case.
pub open spec fn is_name(s: Seq<char>, a: char, b: char, c: char) -> bool {
    s.len() == 3 && lower(s[0]) == a as u32 && lower(s[1]) == b as u32 && lower(s[2]) == c as u32
}

/// Whether `s` is the single character `*`.
pub open spec fn is_star(s: Seq<char>) -> bool {
    s.len() == 1 && s[0] == '*'
}

/// The code point of `c`, or of its lower-case form where `c` is an
/// ASCII capital.
pub fn lower_case(c: char) -> (r: u32)
    ensures
        r == lower(c),
{
    let p: u32 = c as u32;
    if 'A' as u32 <= p && p <= 'Z' as u32 {
        p + 32
    } else {
        p
    }
}

/// The values `first`, `first + step`, `first + 2 * step`, ... up to `last`.
#[derive(Clone, Copy, Debug, PartialEq, Eq, Structural)]
pub struct Span {
    pub first: u32,
    pub last: u32,
    pub step: u32,
}

impl Span {
    pub open spec fn contains(self, v: int) -> bool {
        self.step > 0 && self.first <= v <= self.last && (v - self.first) % (self.step as int) == 0
    }

    /// Whether `v` is one of the values.
    pub fn has(self, v: u32) -> (r: bool)
        ensures
            r == self.contains(v as int),
    {
        self.step > 0 && self.first <= v && v <= self.last && (v - self.first) % self.step == 0
    }
}

} // verus!
