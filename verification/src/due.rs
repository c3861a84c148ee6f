//! When a task is due: never, at a moment, or within an interval.
use crate::moment::{
    civil_order, datetime_to_str, earlier, moment_text, parse_datetime, read_moment, Civil, Moment,
};
use crate::text::{chars_of, find, find_char, string_of};
use std::cmp::Ordering;
use vstd::prelude::*;
use vstd::slice::slice_subrange;
use vstd::string::StringExecFns;

verus! {

/// When a task is due. An interval is meant to start no later than it ends;
/// the type does not enforce it.
#[derive(Clone, Copy, Debug, PartialEq, Eq, Structural)]
pub enum Due {
    /// No deadline.
    Never,
    /// Due at that moment; midnight stands for the whole day.
    Day(Moment),
    /// Due at some time from the first moment to the second.
    Interval(Moment, Moment),
}

/// What a `Due` holds, with the moments as their fields.
pub enum DueModel {
    Never,
    Day(Civil),
    Interval(Civil, Civil),
}

impl View for Due {
    type V = DueModel;

    open spec fn view(&self) -> DueModel {
        match *self {
            Due::Never => DueModel::Never,
            Due::Day(t) => DueModel::Day(t@),
            Due::Interval(a, b) => DueModel::Interval(a@, b@),
        }
    }
}

/// An interval that starts no later than it ends; every other value is
/// ordered as it stands.
pub open spec fn ordered(d: DueModel) -> bool {
    match d {
        DueModel::Interval(a, b) => !earlier(b, a),
        _ => true,
    }
}

/// The moment at which `d` starts, for a `d` other than `Never`.
pub open spec fn start_of(d: DueModel) -> Civil {
    match d {
        DueModel::Never => arbitrary(),
        DueModel::Day(t) => t,
        DueModel::Interval(a, _) => a,
    }
}

/// The order of due values. `Never` comes after everything else. Two other
/// values go by their starts; two intervals that start together go by their
/// ends.
pub open spec fn due_order(a: DueModel, b: DueModel) -> Ordering {
    match (a, b) {
        (DueModel::Never, DueModel::Never) => Ordering::Equal,
        (DueModel::Never, _) => Ordering::Greater,
        (_, DueModel::Never) => Ordering::Less,
        (DueModel::Interval(x, c), DueModel::Interval(y, d)) => if civil_order(x, y)
            == Ordering::Equal {
            civil_order(c, d)
        } else {
            civil_order(x, y)
        },
        _ => civil_order(start_of(a), start_of(b)),
    }
}

/// Whether `a` comes after `b` in the order of due values.
pub open spec fn due_later(a: DueModel, b: DueModel) -> bool {
    due_order(a, b) == Ordering::Greater
}

/// The same two values compared the other way round.
pub open spec fn reversed(o: Ordering) -> Ordering {
    match o {
        Ordering::Less => Ordering::Greater,
        Ordering::Equal => Ordering::Equal,
        Ordering::Greater => Ordering::Less,
    }
}

/// Whether `d` falls within the span from `begin` to `end`, both included.
pub open spec fn active(d: DueModel, begin: Civil, end: Civil) -> bool {
    match d {
        DueModel::Never => false,
        DueModel::Day(t) => !earlier(t, begin) && !earlier(end, t),
        DueModel::Interval(a, b) => !earlier(b, begin) && !earlier(end, a),
    }
}

/// The due value that `when` names. Without a hyphen it is one moment; with
/// one hyphen it is the interval between the moments on either side of it;
/// with more hyphens, or where a moment cannot be read, it is nothing.
pub open spec fn read_due(when: Seq<char>) -> Option<DueModel> {
    let i = find(when, '-') as int;
    if i == when.len() {
        match read_moment(when) {
            Some(t) => Some(DueModel::Day(t)),
            None => None,
        }
    } else {
        let tail = when.skip(i + 1);
        if find(tail, '-') < tail.len() {
            None
        } else {
            match (read_moment(when.take(i)), read_moment(tail)) {
                (Some(a), Some(b)) => Some(DueModel::Interval(a, b)),
                _ => None,
            }
        }
    }
}

/// The written form of `d`: nothing for `Never`, the moment for a day, and
/// the two moments with a hyphen between them for an interval.
pub open spec fn due_text(d: DueModel) -> Seq<char> {
    match d {
        DueModel::Never => Seq::empty(),
        DueModel::Day(t) => moment_text(t),
        DueModel::Interval(a, b) => moment_text(a) + seq!['-'] + moment_text(b),
    }
}

/// Whether `a` is no later than `b`.
fn no_later(a: &Moment, b: &Moment) -> (r: bool)
    ensures
        r == !earlier(b@, a@),
{
    match a.cmp(b) {
        Ordering::Greater => false,
        _ => true,
    }
}

impl Due {
    /// Reads a due value from `<moment>` or `<moment>-<moment>`.
    pub fn parse(when: &str) -> (r: Option<Due>)
        ensures
            match r {
                Some(d) => read_due(when@) == Some(d@),
                None => read_due(when@) is None,
            },
    {
        let chars = chars_of(when);
        let i = find_char(chars.as_slice(), '-');
        if i == chars.len() {
            match parse_datetime(when) {
                Some(t) => Some(Due::Day(t)),
                None => None,
            }
        } else {
            let head = slice_subrange(chars.as_slice(), 0, i);
            let tail = slice_subrange(chars.as_slice(), i + 1, chars.len());
            if find_char(tail, '-') < tail.len() {
                None
            } else {
                let first = string_of(head);
                let second = string_of(tail);
                match parse_datetime(first.as_str()) {
                    Some(a) => match parse_datetime(second.as_str()) {
                        Some(b) => Some(Due::Interval(a, b)),
                        None => None,
                    },
                    None => None,
                }
            }
        }
    }

    /// Whether this falls within the span from `begin` to `end`, both
    /// included. `Never` falls within no span.
    pub fn active_on(&self, begin: &Moment, end: &Moment) -> (r: bool)
        ensures
            r == active(self@, begin@, end@),
    {
        match self {
            Due::Never => false,
            Due::Day(t) => no_later(begin, t) && no_later(t, end),
            Due::Interval(a, b) => no_later(begin, b) && no_later(a, end),
        }
    }

    /// How this stands to `other` in the order of due values.
    pub fn cmp(&self, other: &Due) -> (r: Ordering)
        ensures
            r == due_order(self@, other@),
    {
        match (self, other) {
            (Due::Never, Due::Never) => Ordering::Equal,
            (Due::Never, _) => Ordering::Greater,
            (_, Due::Never) => Ordering::Less,
            (Due::Day(a), Due::Day(b)) => a.cmp(b),
            (Due::Day(a), Due::Interval(b, _)) => a.cmp(b),
            (Due::Interval(a, _), Due::Day(b)) => a.cmp(b),
            (Due::Interval(a, c), Due::Interval(b, d)) => match a.cmp(b) {
                Ordering::Equal => c.cmp(d),
                o => o,
            },
        }
    }

    /// The written form: empty for `Never`, `<moment>` for a day and
    /// `<moment>-<moment>` for an interval.
    pub fn to_string(&self) -> (r: String)
        ensures
            r@ == due_text(self@),
    {
        match self {
            Due::Never => String::new(),
            Due::Day(t) => datetime_to_str(t),
            Due::Interval(a, b) => {
                let mut out = datetime_to_str(a);
                out.push('-');
                let end = datetime_to_str(b);
                out.append(end.as_str());
                out
            },
        }
    }
}

impl PartialOrd for Due {
    fn partial_cmp(&self, other: &Due) -> (r: Option<Ordering>) {
        Some(self.cmp(other))
    }
}

impl vstd::std_specs::cmp::PartialOrdSpecImpl for Due {
    open spec fn obeys_partial_cmp_spec() -> bool {
        true
    }

    open spec fn partial_cmp_spec(&self, other: &Due) -> Option<Ordering> {
        Some(due_order(self@, other@))
    }
}

/// Any two due values compare, and comparing them the other way round gives
/// the reverse; a value compared with itself is equal.
pub proof fn lemma_order_total(a: DueModel, b: DueModel)
    ensures
        due_order(b, a) == reversed(due_order(a, b)),
        due_order(a, a) == Ordering::Equal,
{
}

/// Of two due values at most one comes after the other.
pub proof fn lemma_later_one_way(a: DueModel, b: DueModel)
    ensures
        due_later(a, b) ==> !due_later(b, a),
{
}

/// `Never` is the greatest: every day and every interval comes before it.
pub proof fn lemma_never_is_greatest(d: DueModel)
    requires
        !(d is Never),
    ensures
        due_order(d, DueModel::Never) == Ordering::Less,
        due_order(DueModel::Never, d) == Ordering::Greater,
{
}

/// A day or an ordered interval is active on the span that begins and ends
/// at its own start.
pub proof fn lemma_active_at_own_start(d: DueModel)
    requires
        !(d is Never),
        ordered(d),
    ensures
        active(d, start_of(d), start_of(d)),
{
}

/// The order is transitive but for one case: an interval, then a day at
/// the start of that interval, then an interval with the same start that
/// ends earlier. There the day equals both intervals, which differ.
pub proof fn lemma_order_transitive(a: DueModel, b: DueModel, c: DueModel)
    requires
        !(a is Interval && b is Day && c is Interval && start_of(a) == start_of(b) && start_of(b)
            == start_of(c) && due_order(a, c) == Ordering::Greater),
        due_order(a, b) != Ordering::Greater,
        due_order(b, c) != Ordering::Greater,
    ensures
        due_order(a, c) != Ordering::Greater,
{
}

} // verus!
