//! Cron schedules: the sets of values that each field admits, read from
//! the text of a cron expression.

use vstd::prelude::*;
use crate::field::{is_star, FieldKind, Span};
use crate::text::{
    chars_of, lemma_find_from, pieces, split_pieces, split_words, views, words,
};

verus! {

/// The values that one field of a schedule admits.
#[derive(Debug)]
pub struct FieldSet {
    allowed: Vec<bool>,
}

impl View for FieldSet {
    type V = Set<int>;

    closed spec fn view(&self) -> Set<int> {
        Set::new(|v: int| 0 <= v < self.allowed@.len() && self.allowed@[v])
    }
}

impl FieldSet {
    #[verifier::type_invariant]
    spec fn bounded(&self) -> bool {
        self.allowed@.len() <= u32::MAX
    }

    /// One more than the greatest value that the set can hold.
    pub closed spec fn limit(&self) -> int {
        self.allowed@.len() as int
    }

    /// Every member lies under the limit.
    pub proof fn lemma_members_bounded(&self)
        ensures
            forall|v: int| #[trigger] self@.contains(v) ==> 0 <= v < self.limit(),
    {
    }

    /// The empty set of values under `limit`.
    pub fn new(limit: u32) -> (r: FieldSet)
        ensures
            r@ == Set::<int>::empty(),
            r.limit() == limit,
    {
        let mut allowed: Vec<bool> = Vec::new();
        let mut i: u32 = 0;
        while i < limit
            invariant
                i <= limit,
                allowed@.len() == i,
                forall|j: int| 0 <= j < i ==> !allowed@[j],
            decreases limit - i,
        {
            allowed.push(false);
            i = i + 1;
        }
        let r = FieldSet { allowed };
        assert(r@ =~= Set::<int>::empty());
        r
    }

    /// Whether `v` is a member.
    pub fn contains(&self, v: u32) -> (r: bool)
        ensures
            r == self@.contains(v as int),
    {
        (v as usize) < self.allowed.len() && self.allowed[v as usize]
    }

    /// Adds the values of `span`.
    pub fn add_span(&mut self, span: Span)
        requires
            span.last < old(self).limit(),
        ensures
            final(self).limit() == old(self).limit(),
            forall|v: int| #[trigger]
                final(self)@.contains(v) <==> old(self)@.contains(v) || span.contains(v),
    {
        proof {
            use_type_invariant(&*self);
        }
        let n: usize = self.allowed.len();
        let mut merged: Vec<bool> = Vec::new();
        let mut i: usize = 0;
        while i < n
            invariant
                i <= n,
                n == self.allowed@.len(),
                n <= u32::MAX,
                merged@.len() == i,
                forall|j: int|
                    0 <= j < i ==> #[trigger] merged@[j] == (self.allowed@[j] || span.contains(j)),
            decreases n - i,
        {
            let bit: bool = self.allowed[i] || span.has(i as u32);
            merged.push(bit);
            i = i + 1;
        }
        self.allowed = merged;
        assert forall|v: int| #[trigger]
            self@.contains(v) <==> old(self)@.contains(v) || span.contains(v) by {
            if 0 <= v < n {
                assert(self.allowed@[v] == (old(self).allowed@[v] || span.contains(v)));
            }
        }
    }

    /// The least member that is at least `from`.
    pub fn first_from(&self, from: u32) -> (r: Option<u32>)
        ensures
            match r {
                Some(v) => from <= v && self@.contains(v as int) && forall|u: int|
                    from <= u < v ==> !self@.contains(u),
                None => forall|u: int| from <= u ==> !self@.contains(u),
            },
    {
        proof {
            use_type_invariant(self);
        }
        let n: usize = self.allowed.len();
        let mut i: usize = from as usize;
        while i < n
            invariant
                from <= i,
                n == self.allowed@.len(),
                n <= u32::MAX,
                forall|u: int| from <= u < i ==> !self@.contains(u),
            decreases n - i,
        {
            if self.allowed[i] {
                return Some(i as u32);
            }
            i = i + 1;
        }
        None
    }
}

/// The values that the first `upto` of `items` admit together in a field
/// of kind `kind`.
pub open spec fn union_of_items(kind: FieldKind, items: Seq<Seq<char>>, upto: int) -> Set<int> {
    Set::new(
        |v: int|
            exists|k: int|
                0 <= k < upto && k < items.len() && (#[trigger] kind.item(items[k])).is_some()
                    && kind.item(items[k]).unwrap().contains(v),
    )
}

/// The values that the field `s` of kind `kind` admits: those of its
/// items, which commas part. No set where an item is malformed or out of
/// range.
pub open spec fn field_values(kind: FieldKind, s: Seq<char>) -> Option<Set<int>> {
    let items = pieces(s, ',');
    if forall|k: int| 0 <= k < items.len() ==> (#[trigger] kind.item(items[k])).is_some() {
        Some(union_of_items(kind, items, items.len() as int))
    } else {
        None
    }
}

/// A field that is read admits a value, and only values of its range.
pub proof fn lemma_field_values(kind: FieldKind, s: Seq<char>)
    requires
        field_values(kind, s).is_some(),
    ensures
        exists|v: int| field_values(kind, s).unwrap().contains(v),
        forall|v: int| #[trigger]
            field_values(kind, s).unwrap().contains(v) ==> kind.lo() <= v <= kind.hi(),
{
    let items = pieces(s, ',');
    lemma_find_from(s, ',', 0);
    assert(items.len() >= 1);
    assert(kind.item(items[0]).is_some());
    let span = kind.item(items[0]).unwrap();
    assert(0int % (span.step as int) == 0) by (nonlinear_arith)
        requires
            span.step > 0,
    ;
    assert(span.contains(span.first as int));
    assert(field_values(kind, s).unwrap().contains(span.first as int));
}

/// Reads `s` as a field of kind `kind`.
pub fn read_field(kind: FieldKind, s: &[char]) -> (r: Option<FieldSet>)
    ensures
        match r {
            Some(f) => field_values(kind, s@) == Some(f@) && f.limit() == kind.hi() + 1,
            None => field_values(kind, s@).is_none(),
        },
{
    let items = split_pieces(s, ',');
    let ghost texts = views(items@);
    let mut set = FieldSet::new(kind.max_value() + 1);
    let mut k: usize = 0;
    while k < items.len()
        invariant
            k <= items.len(),
            texts == views(items@),
            texts == pieces(s@, ','),
            set.limit() == kind.hi() + 1,
            forall|j: int| 0 <= j < k ==> (#[trigger] kind.item(texts[j])).is_some(),
            set@ =~= union_of_items(kind, texts, k as int),
        decreases items.len() - k,
    {
        assert(texts[k as int] == items@[k as int]@);
        match kind.read_item(items[k].as_slice()) {
            None => {
                return None;
            },
            Some(span) => {
                let ghost before = set@;
                set.add_span(span);
                proof {
                    assert forall|v: int|
                        set@.contains(v) == union_of_items(kind, texts, k + 1).contains(v) by {
                        if before.contains(v) {
                            let j = choose|j: int|
                                0 <= j < k && j < texts.len() && (#[trigger] kind.item(
                                    texts[j],
                                )).is_some() && kind.item(texts[j]).unwrap().contains(v);
                            assert(0 <= j < k + 1);
                        }
                        if span.contains(v) {
                            assert(kind.item(texts[k as int]).unwrap().contains(v));
                        }
                    }
                }
                k = k + 1;
            },
        }
    }
    Some(set)
}

/// A schedule as the contracts see it: the values that each field admits,
/// and whether the year field and the two day fields were written as `*`.
pub ghost struct ScheduleView {
    pub seconds: Set<int>,
    pub minutes: Set<int>,
    pub hours: Set<int>,
    pub days_of_month: Set<int>,
    pub months: Set<int>,
    pub days_of_week: Set<int>,
    pub years: Set<int>,
    /// Whether the schedule fires in every year: the year field is `*`, or
    /// there is none.
    pub any_year: bool,
    pub any_day_of_month: bool,
    pub any_day_of_week: bool,
}

/// The days of the week with Sunday written as 0 alone: where `days`
/// holds 7, which is Sunday too, the result holds 0 in its place.
pub open spec fn sunday_folded(days: Set<int>) -> Set<int> {
    Set::new(|v: int| (v != 7 && days.contains(v)) || (v == 0 && days.contains(7)))
}

/// Writes Sunday as 0 alone.
pub fn fold_sunday(days: &FieldSet) -> (r: FieldSet)
    requires
        days.limit() == 8,
    ensures
        r@ == sunday_folded(days@),
        r.limit() == 7,
{
    let mut out = FieldSet::new(7);
    let mut v: u32 = 0;
    while v < 7
        invariant
            v <= 7,
            out.limit() == 7,
            forall|u: int| #[trigger] out@.contains(u) <==> 0 <= u < v && sunday_folded(days@).contains(u),
        decreases 7 - v,
    {
        if days.contains(v) || (v == 0 && days.contains(7)) {
            out.add_span(Span { first: v, last: v, step: 1 });
        }
        v = v + 1;
    }
    proof {
        days.lemma_members_bounded();
        out.lemma_members_bounded();
        assert forall|u: int| out@.contains(u) == sunday_folded(days@).contains(u) by {
            if sunday_folded(days@).contains(u) {
                assert(0 <= u < 7);
            }
        }
        assert(out@ =~= sunday_folded(days@));
    }
    out
}

/// Why a text is no cron expression.
#[derive(Clone, Copy, Debug, PartialEq, Eq, Structural)]
pub enum ParseError {
    /// The text has neither six nor seven fields.
    FieldCount,
    /// The field of this kind is malformed or out of range; the fields
    /// before it are not.
    Field(FieldKind),
}

/// The text of the year field: the seventh field, or `*` where there are six.
pub open spec fn year_text(fields: Seq<Seq<char>>) -> Seq<char> {
    if fields.len() == 7 {
        fields[6]
    } else {
        seq!['*']
    }
}

/// What a cron expression means.
///
/// The text is six or seven fields that white space parts: seconds,
/// minutes, hours, day of month, month, day of week and, optionally, year.
#[verifier::opaque]
pub open spec fn parse_text(text: Seq<char>) -> Result<ScheduleView, ParseError> {
    let f = words(text);
    if f.len() != 6 && f.len() != 7 {
        Err(ParseError::FieldCount)
    } else if field_values(FieldKind::Second, f[0]).is_none() {
        Err(ParseError::Field(FieldKind::Second))
    } else if field_values(FieldKind::Minute, f[1]).is_none() {
        Err(ParseError::Field(FieldKind::Minute))
    } else if field_values(FieldKind::Hour, f[2]).is_none() {
        Err(ParseError::Field(FieldKind::Hour))
    } else if field_values(FieldKind::DayOfMonth, f[3]).is_none() {
        Err(ParseError::Field(FieldKind::DayOfMonth))
    } else if field_values(FieldKind::Month, f[4]).is_none() {
        Err(ParseError::Field(FieldKind::Month))
    } else if field_values(FieldKind::DayOfWeek, f[5]).is_none() {
        Err(ParseError::Field(FieldKind::DayOfWeek))
    } else if field_values(FieldKind::Year, year_text(f)).is_none() {
        Err(ParseError::Field(FieldKind::Year))
    } else {
        Ok(
            ScheduleView {
                seconds: field_values(FieldKind::Second, f[0]).unwrap(),
                minutes: field_values(FieldKind::Minute, f[1]).unwrap(),
                hours: field_values(FieldKind::Hour, f[2]).unwrap(),
                days_of_month: field_values(FieldKind::DayOfMonth, f[3]).unwrap(),
                months: field_values(FieldKind::Month, f[4]).unwrap(),
                days_of_week: sunday_folded(field_values(FieldKind::DayOfWeek, f[5]).unwrap()),
                years: field_values(FieldKind::Year, year_text(f)).unwrap(),
                any_year: is_star(year_text(f)),
                any_day_of_month: is_star(f[3]),
                any_day_of_week: is_star(f[5]),
            },
        )
    }
}

/// A parsed cron expression.
#[derive(Debug)]
pub struct CronSchedule {
    seconds: FieldSet,
    minutes: FieldSet,
    hours: FieldSet,
    days_of_month: FieldSet,
    months: FieldSet,
    days_of_week: FieldSet,
    years: FieldSet,
    any_year: bool,
    any_day_of_month: bool,
    any_day_of_week: bool,
}

impl View for CronSchedule {
    type V = ScheduleView;

    closed spec fn view(&self) -> ScheduleView {
        ScheduleView {
            seconds: self.seconds@,
            minutes: self.minutes@,
            hours: self.hours@,
            days_of_month: self.days_of_month@,
            months: self.months@,
            days_of_week: self.days_of_week@,
            years: self.years@,
            any_year: self.any_year,
            any_day_of_month: self.any_day_of_month,
            any_day_of_week: self.any_day_of_week,
        }
    }
}

impl ScheduleView {
    /// Every field admits a value, and only values of its range.
    pub open spec fn is_valid(self) -> bool {
        &&& field_is_valid(FieldKind::Second, self.seconds)
        &&& field_is_valid(FieldKind::Minute, self.minutes)
        &&& field_is_valid(FieldKind::Hour, self.hours)
        &&& field_is_valid(FieldKind::DayOfMonth, self.days_of_month)
        &&& field_is_valid(FieldKind::Month, self.months)
        &&& days_of_week_are_valid(self.days_of_week)
        &&& field_is_valid(FieldKind::Year, self.years)
    }
}

/// The set admits a day of the week, and only days from 0, Sunday, to 6.
pub open spec fn days_of_week_are_valid(days: Set<int>) -> bool {
    &&& exists|v: int| days.contains(v)
    &&& forall|v: int| #[trigger] days.contains(v) ==> 0 <= v <= 6
}

/// The set admits a value, and only values of the range of `kind`.
pub open spec fn field_is_valid(kind: FieldKind, values: Set<int>) -> bool {
    &&& exists|v: int| values.contains(v)
    &&& forall|v: int| #[trigger] values.contains(v) ==> kind.lo() <= v <= kind.hi()
}

/// Every cron expression that is read is a valid schedule: no field of
/// it is empty.
pub proof fn lemma_parsed_is_valid(text: Seq<char>)
    requires
        parse_text(text).is_ok(),
    ensures
        parse_text(text).unwrap().is_valid(),
{
    reveal(parse_text);
    let f = words(text);
    lemma_field_values(FieldKind::Second, f[0]);
    lemma_field_values(FieldKind::Minute, f[1]);
    lemma_field_values(FieldKind::Hour, f[2]);
    lemma_field_values(FieldKind::DayOfMonth, f[3]);
    lemma_field_values(FieldKind::Month, f[4]);
    lemma_field_values(FieldKind::DayOfWeek, f[5]);
    lemma_field_values(FieldKind::Year, year_text(f));
    let written = field_values(FieldKind::DayOfWeek, f[5]).unwrap();
    let day = choose|v: int| written.contains(v);
    if day == 7 {
        assert(sunday_folded(written).contains(0));
    } else {
        assert(sunday_folded(written).contains(day));
    }
}

impl CronSchedule {
    #[verifier::type_invariant]
    spec fn well_formed(&self) -> bool {
        &&& self@.is_valid()
        &&& self.seconds.limit() == 60
        &&& self.minutes.limit() == 60
        &&& self.hours.limit() == 24
    }

    /// Reads a cron expression.
    pub fn parse(text: &str) -> (r: Result<CronSchedule, ParseError>)
        ensures
            match r {
                Ok(s) => parse_text(text@) == Ok::<ScheduleView, ParseError>(s@),
                Err(e) => parse_text(text@) == Err::<ScheduleView, ParseError>(e),
            },
    {
        let chars = chars_of(text);
        CronSchedule::parse_chars(chars.as_slice())
    }

    /// Reads a cron expression from its characters.
    pub fn parse_chars(text: &[char]) -> (r: Result<CronSchedule, ParseError>)
        ensures
            match r {
                Ok(s) => parse_text(text@) == Ok::<ScheduleView, ParseError>(s@),
                Err(e) => parse_text(text@) == Err::<ScheduleView, ParseError>(e),
            },
    {
        proof {
            reveal(parse_text);
        }
        let fields = split_words(text);
        let ghost f = words(text@);
        if fields.len() != 6 && fields.len() != 7 {
            return Err(ParseError::FieldCount);
        }
        assert(forall|i: int| 0 <= i < f.len() ==> f[i] == #[trigger] fields@[i]@);
        let seconds = match read_field(FieldKind::Second, fields[0].as_slice()) {
            Some(set) => set,
            None => {
                return Err(ParseError::Field(FieldKind::Second));
            },
        };
        let minutes = match read_field(FieldKind::Minute, fields[1].as_slice()) {
            Some(set) => set,
            None => {
                return Err(ParseError::Field(FieldKind::Minute));
            },
        };
        let hours = match read_field(FieldKind::Hour, fields[2].as_slice()) {
            Some(set) => set,
            None => {
                return Err(ParseError::Field(FieldKind::Hour));
            },
        };
        let days_of_month = match read_field(FieldKind::DayOfMonth, fields[3].as_slice()) {
            Some(set) => set,
            None => {
                return Err(ParseError::Field(FieldKind::DayOfMonth));
            },
        };
        let months = match read_field(FieldKind::Month, fields[4].as_slice()) {
            Some(set) => set,
            None => {
                return Err(ParseError::Field(FieldKind::Month));
            },
        };
        let days_of_week = match read_field(FieldKind::DayOfWeek, fields[5].as_slice()) {
            Some(set) => fold_sunday(&set),
            None => {
                return Err(ParseError::Field(FieldKind::DayOfWeek));
            },
        };
        let mut star: Vec<char> = Vec::new();
        star.push('*');
        assert(star@ =~= seq!['*']);
        let year_field = if fields.len() == 7 {
            read_field(FieldKind::Year, fields[6].as_slice())
        } else {
            read_field(FieldKind::Year, star.as_slice())
        };
        let years = match year_field {
            Some(set) => set,
            None => {
                return Err(ParseError::Field(FieldKind::Year));
            },
        };
        let any_year = fields.len() == 6 || (fields[6].len() == 1 && fields[6][0] == '*');
        let any_day_of_month = fields[3].len() == 1 && fields[3][0] == '*';
        let any_day_of_week = fields[5].len() == 1 && fields[5][0] == '*';
        proof {
            lemma_parsed_is_valid(text@);
        }
        Ok(
            CronSchedule {
                seconds,
                minutes,
                hours,
                days_of_month,
                months,
                days_of_week,
                years,
                any_year,
                any_day_of_month,
                any_day_of_week,
            },
        )
    }

    /// The seconds at which the schedule fires.
    pub fn seconds(&self) -> (r: &FieldSet)
        ensures
            r@ == self@.seconds,
            r.limit() == 60,
    {
        proof {
            use_type_invariant(self);
        }
        &self.seconds
    }

    /// The minutes at which the schedule fires.
    pub fn minutes(&self) -> (r: &FieldSet)
        ensures
            r@ == self@.minutes,
            r.limit() == 60,
    {
        proof {
            use_type_invariant(self);
        }
        &self.minutes
    }

    /// The hours at which the schedule fires.
    pub fn hours(&self) -> (r: &FieldSet)
        ensures
            r@ == self@.hours,
            r.limit() == 24,
    {
        proof {
            use_type_invariant(self);
        }
        &self.hours
    }

    /// The days of the month on which the schedule fires.
    pub fn days_of_month(&self) -> (r: &FieldSet)
        ensures
            r@ == self@.days_of_month,
    {
        &self.days_of_month
    }

    /// The months in which the schedule fires.
    pub fn months(&self) -> (r: &FieldSet)
        ensures
            r@ == self@.months,
    {
        &self.months
    }

    /// The days of the week on which the schedule fires; 0 is Sunday.
    pub fn days_of_week(&self) -> (r: &FieldSet)
        ensures
            r@ == self@.days_of_week,
    {
        &self.days_of_week
    }

    /// The years that the year field admits.
    pub fn years(&self) -> (r: &FieldSet)
        ensures
            r@ == self@.years,
            field_is_valid(FieldKind::Year, r@),
    {
        proof {
            use_type_invariant(self);
        }
        &self.years
    }

    /// Whether the schedule fires in every year.
    pub fn any_year(&self) -> (r: bool)
        ensures
            r == self@.any_year,
    {
        self.any_year
    }

    /// Whether the day-of-month field was written as `*`.
    pub fn any_day_of_month(&self) -> (r: bool)
        ensures
            r == self@.any_day_of_month,
    {
        self.any_day_of_month
    }

    /// Whether the day-of-week field was written as `*`.
    pub fn any_day_of_week(&self) -> (r: bool)
        ensures
            r == self@.any_day_of_week,
    {
        self.any_day_of_week
    }
}

} // verus!
