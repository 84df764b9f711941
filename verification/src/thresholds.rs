use crate::num::{dec_scaled, num_le, Dec, Num};
use vstd::prelude::*;

verus! {

/// An alerting interval with an inside/outside polarity.
///
/// A value triggers an alert when it lies inside `[start, end]` (both ends
/// inclusive) and `alert_inside` is set, or outside that interval when it
/// is not.
#[derive(Copy, Clone, Debug, PartialEq, Eq)]
pub struct ThresholdRange {
    /// Alert when the value is inside the interval rather than outside it.
    pub alert_inside: bool,
    /// The lower endpoint of the interval.
    pub start: Num,
    /// The upper endpoint of the interval.
    pub end: Num,
}

impl ThresholdRange {
    /// A well-formed range has canonical endpoints in order; a range lying
    /// entirely at positive infinity has no textual form and is excluded.
    pub open spec fn wf(self) -> bool {
        &&& self.start.wf()
        &&& self.end.wf()
        &&& num_le(self.start, self.end)
        &&& !(self.start is PosInf && self.end is PosInf)
    }
}

/// The range the constructors build: the endpoints are swapped when given
/// in descending order (permissive canonicalization, not an error).
pub open spec fn spec_range(alert_inside: bool, start: Num, end: Num) -> ThresholdRange {
    if num_le(start, end) {
        ThresholdRange { alert_inside, start, end }
    } else {
        ThresholdRange { alert_inside, start: end, end: start }
    }
}

/// Whether `v` triggers an alert for range `r`: inside the interval when
/// `alert_inside` is set, outside it otherwise.
pub open spec fn spec_is_alert(r: ThresholdRange, v: Dec) -> bool {
    let inside = num_le(r.start, Num::Fin(v)) && num_le(Num::Fin(v), r.end);
    if r.alert_inside {
        inside
    } else {
        !inside
    }
}

impl Num {
    /// `self <= other` over the extended number line.
    pub fn le(&self, other: &Num) -> (r: bool)
        requires
            self.wf(),
            other.wf(),
        ensures
            r == num_le(*self, *other),
    {
        match (self, other) {
            (Num::NegInf, _) => true,
            (_, Num::PosInf) => true,
            (Num::Fin(x), Num::Fin(y)) => x.le(y),
            _ => false,
        }
    }
}

impl ThresholdRange {
    /// The canonicalizing constructor shared by all named constructors.
    fn new(alert_inside: bool, start: Num, end: Num) -> (r: ThresholdRange)
        requires
            start.wf(),
            end.wf(),
            !(start is PosInf && end is PosInf),
        ensures
            r == spec_range(alert_inside, start, end),
            r.wf(),
    {
        if start.le(&end) {
            ThresholdRange { alert_inside, start, end }
        } else {
            ThresholdRange { alert_inside, start: end, end: start }
        }
    }

    /// Alert when the value is outside `[start, end]`.
    pub fn outside(start: Num, end: Num) -> (r: ThresholdRange)
        requires
            start.wf(),
            end.wf(),
            !(start is PosInf && end is PosInf),
        ensures
            r == spec_range(false, start, end),
            r.wf(),
    {
        Self::new(false, start, end)
    }

    /// Alert when the value is inside `[start, end]`.
    pub fn inside(start: Num, end: Num) -> (r: ThresholdRange)
        requires
            start.wf(),
            end.wf(),
            !(start is PosInf && end is PosInf),
        ensures
            r == spec_range(true, start, end),
            r.wf(),
    {
        Self::new(true, start, end)
    }

    /// Alert when the value is outside `[0, limit]`; written `limit` in
    /// range notation.
    pub fn above_pos(limit_top: Dec) -> (r: ThresholdRange)
        requires
            limit_top.wf(),
        ensures
            r == spec_range(false, Num::Fin(crate::num::spec_dec_zero()), Num::Fin(limit_top)),
            r.wf(),
    {
        Self::new(false, Num::Fin(Dec::zero()), Num::Fin(limit_top))
    }

    /// Alert when the value is below the limit; written `limit:` in range
    /// notation.
    pub fn below(limit_bottom: Dec) -> (r: ThresholdRange)
        requires
            limit_bottom.wf(),
        ensures
            r == spec_range(false, Num::Fin(limit_bottom), Num::PosInf),
            r.wf(),
    {
        Self::new(false, Num::Fin(limit_bottom), Num::PosInf)
    }

    /// Alert when the value is above the limit; written `~:limit` in range
    /// notation.
    pub fn above(limit_top: Dec) -> (r: ThresholdRange)
        requires
            limit_top.wf(),
        ensures
            r == spec_range(false, Num::NegInf, Num::Fin(limit_top)),
            r.wf(),
    {
        Self::new(false, Num::NegInf, Num::Fin(limit_top))
    }

    /// Whether `value` triggers an alert for this range.
    pub fn is_alert(&self, value: Dec) -> (r: bool)
        requires
            self.wf(),
            value.wf(),
        ensures
            r == spec_is_alert(*self, value),
    {
        let v = Num::Fin(value);
        let is_inside = self.start.le(&v) && v.le(&self.end);
        if self.alert_inside {
            is_inside
        } else {
            !is_inside
        }
    }
}

/// For every pair of endpoints and every value, the outside-alerting range
/// alerts exactly where the inside-alerting range over the same endpoints
/// does not.
pub proof fn lemma_outside_inside_complement(start: Num, end: Num, v: Dec)
    ensures
        spec_is_alert(spec_range(false, start, end), v) == !spec_is_alert(
            spec_range(true, start, end),
            v,
        ),
{
}

/// Constructing an outside-alerting range with descending endpoints gives
/// exactly the range of the ascending pair: construction canonicalizes the
/// endpoint order.
pub proof fn lemma_outside_swap_equivalent(a: Num, b: Num)
    requires
        !num_le(b, a),
    ensures
        spec_range(false, a, b) == spec_range(false, b, a),
{
}

} // verus!
