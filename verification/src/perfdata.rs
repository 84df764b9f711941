use crate::monitoring_status::MonitoringStatus;
use crate::num::Dec;
use crate::thresholds::{spec_is_alert, ThresholdRange};
use vstd::prelude::*;

verus! {

/// A measured value tagged with its unit of measurement, or the
/// `Undetermined` sentinel for a measurement that could not be obtained.
#[derive(Copy, Clone, Debug, PartialEq, Eq)]
pub enum Unit {
    /// A plain number of things: no unit.
    Unitless(Dec),
    /// A percentage, written with the `%` suffix.
    Percentage(Dec),
    /// Seconds, written with the `s` suffix.
    Seconds(Dec),
    /// Bytes, written with the `b` suffix.
    Bytes(Dec),
    /// A continuously increasing counter, written with the `c` suffix.
    Counter(Dec),
    /// The value could not be determined; written as the literal `U`.
    Undetermined,
}

impl Unit {
    /// A unit-tagged value is well-formed when its decimal payload is.
    pub open spec fn wf(self) -> bool {
        match self {
            Unit::Unitless(d) => d.wf(),
            Unit::Percentage(d) => d.wf(),
            Unit::Seconds(d) => d.wf(),
            Unit::Bytes(d) => d.wf(),
            Unit::Counter(d) => d.wf(),
            Unit::Undetermined => true,
        }
    }

    /// The numeric payload; `None` only for `Undetermined`.
    pub open spec fn spec_value(self) -> Option<Dec> {
        match self {
            Unit::Unitless(d) => Some(d),
            Unit::Percentage(d) => Some(d),
            Unit::Seconds(d) => Some(d),
            Unit::Bytes(d) => Some(d),
            Unit::Counter(d) => Some(d),
            Unit::Undetermined => None,
        }
    }
}

/// The mathematical view of a [`Perfdata`] record: the label as a
/// character sequence beside the plain data fields.
pub struct PerfdataView {
    /// The label characters.
    pub label: Seq<char>,
    /// The unit-tagged value.
    pub unit: Unit,
    /// The warning threshold range, if any.
    pub warn: Option<ThresholdRange>,
    /// The critical threshold range, if any.
    pub crit: Option<ThresholdRange>,
    /// The minimum display bound, if any.
    pub min: Option<Dec>,
    /// The maximum display bound, if any.
    pub max: Option<Dec>,
}

impl PerfdataView {
    /// Well-formedness of the numeric parts of a record.
    pub open spec fn wf(self) -> bool {
        &&& self.unit.wf()
        &&& (self.warn matches Some(w) ==> w.wf())
        &&& (self.crit matches Some(c) ==> c.wf())
        &&& (self.min matches Some(m) ==> m.wf())
        &&& (self.max matches Some(m) ==> m.wf())
    }

    /// Whether the record's label survives a round trip through the text
    /// form: non-empty, no single quote, no equals sign.
    pub open spec fn label_ok(self) -> bool {
        &&& self.label.len() > 0
        &&& forall|i: int|
            0 <= i < self.label.len() ==> self.label[i] != '\'' && self.label[i] != '='
    }

    /// Whether the record triggers its warning range.
    pub open spec fn spec_is_warn(self) -> bool {
        match (self.unit.spec_value(), self.warn) {
            (Some(v), Some(w)) => spec_is_alert(w, v),
            _ => false,
        }
    }

    /// Whether the record triggers its critical range.
    pub open spec fn spec_is_crit(self) -> bool {
        match (self.unit.spec_value(), self.crit) {
            (Some(v), Some(c)) => spec_is_alert(c, v),
            _ => false,
        }
    }

    /// The worst status the record reports: critical wins over warning.
    pub open spec fn spec_status(self) -> MonitoringStatus {
        if self.spec_is_crit() {
            MonitoringStatus::Critical
        } else if self.spec_is_warn() {
            MonitoringStatus::Warning
        } else {
            MonitoringStatus::OK
        }
    }
}

/// A single named measurement: a label, a unit-tagged value, optional
/// warning and critical threshold ranges, and optional display bounds.
#[derive(Debug, PartialEq, Eq)]
pub struct Perfdata {
    /// The measurement's name.
    pub label: String,
    /// The measured value and its unit, or the undetermined sentinel.
    pub unit: Unit,
    /// The warning threshold range, if any.
    pub warn: Option<ThresholdRange>,
    /// The critical threshold range, if any.
    pub crit: Option<ThresholdRange>,
    /// The minimum display bound, if any.
    pub min: Option<Dec>,
    /// The maximum display bound, if any.
    pub max: Option<Dec>,
}

impl View for Perfdata {
    type V = PerfdataView;

    open spec fn view(&self) -> PerfdataView {
        PerfdataView {
            label: self.label@,
            unit: self.unit,
            warn: self.warn,
            crit: self.crit,
            min: self.min,
            max: self.max,
        }
    }
}

impl Clone for Perfdata {
    /// An exact copy of the record.
    fn clone(&self) -> (r: Self)
        ensures
            r == *self,
    {
        Perfdata {
            label: self.label.clone(),
            unit: self.unit,
            warn: self.warn,
            crit: self.crit,
            min: self.min,
            max: self.max,
        }
    }
}

impl Perfdata {
    /// Shorthand for the view's well-formedness.
    pub open spec fn wf(self) -> bool {
        self@.wf()
    }

    fn new(label: &str, unit: Unit) -> (pd: Perfdata)
        ensures
            pd@ == (PerfdataView {
                label: label@,
                unit,
                warn: None,
                crit: None,
                min: None,
                max: None,
            }),
    {
        Perfdata {
            label: label.to_owned(),
            unit,
            warn: None,
            crit: None,
            min: None,
            max: None,
        }
    }

    /// A record without a unit.
    pub fn unit(label: &str, value: Dec) -> (pd: Perfdata)
        requires
            value.wf(),
        ensures
            pd@ == (PerfdataView {
                label: label@,
                unit: Unit::Unitless(value),
                warn: None,
                crit: None,
                min: None,
                max: None,
            }),
            pd.wf(),
    {
        Self::new(label, Unit::Unitless(value))
    }

    /// A record measured in percent.
    pub fn percentage(label: &str, value: Dec) -> (pd: Perfdata)
        requires
            value.wf(),
        ensures
            pd@ == (PerfdataView {
                label: label@,
                unit: Unit::Percentage(value),
                warn: None,
                crit: None,
                min: None,
                max: None,
            }),
            pd.wf(),
    {
        Self::new(label, Unit::Percentage(value))
    }

    /// A record measured in seconds.
    pub fn seconds(label: &str, value: Dec) -> (pd: Perfdata)
        requires
            value.wf(),
        ensures
            pd@ == (PerfdataView {
                label: label@,
                unit: Unit::Seconds(value),
                warn: None,
                crit: None,
                min: None,
                max: None,
            }),
            pd.wf(),
    {
        Self::new(label, Unit::Seconds(value))
    }

    /// A record measured in bytes.
    pub fn bytes(label: &str, value: Dec) -> (pd: Perfdata)
        requires
            value.wf(),
        ensures
            pd@ == (PerfdataView {
                label: label@,
                unit: Unit::Bytes(value),
                warn: None,
                crit: None,
                min: None,
                max: None,
            }),
            pd.wf(),
    {
        Self::new(label, Unit::Bytes(value))
    }

    /// A record holding an increasing counter.
    pub fn counter(label: &str, value: Dec) -> (pd: Perfdata)
        requires
            value.wf(),
        ensures
            pd@ == (PerfdataView {
                label: label@,
                unit: Unit::Counter(value),
                warn: None,
                crit: None,
                min: None,
                max: None,
            }),
            pd.wf(),
    {
        Self::new(label, Unit::Counter(value))
    }

    /// A record whose value could not be determined.
    pub fn undetermined(label: &str) -> (pd: Perfdata)
        ensures
            pd@ == (PerfdataView {
                label: label@,
                unit: Unit::Undetermined,
                warn: None,
                crit: None,
                min: None,
                max: None,
            }),
            pd.wf(),
    {
        Self::new(label, Unit::Undetermined)
    }

    /// The record with its minimum display bound set.
    pub fn with_min(self, value: Dec) -> (pd: Perfdata)
        requires
            value.wf(),
        ensures
            pd@ == (PerfdataView { min: Some(value), ..self@ }),
            self.wf() ==> pd.wf(),
    {
        Perfdata { min: Some(value), ..self }
    }

    /// The record with its maximum display bound set.
    pub fn with_max(self, value: Dec) -> (pd: Perfdata)
        requires
            value.wf(),
        ensures
            pd@ == (PerfdataView { max: Some(value), ..self@ }),
            self.wf() ==> pd.wf(),
    {
        Perfdata { max: Some(value), ..self }
    }

    /// The record with its warning threshold range set.
    pub fn with_warn(self, range: ThresholdRange) -> (pd: Perfdata)
        requires
            range.wf(),
        ensures
            pd@ == (PerfdataView { warn: Some(range), ..self@ }),
            self.wf() ==> pd.wf(),
    {
        Perfdata { warn: Some(range), ..self }
    }

    /// The record with its critical threshold range set.
    pub fn with_crit(self, range: ThresholdRange) -> (pd: Perfdata)
        requires
            range.wf(),
        ensures
            pd@ == (PerfdataView { crit: Some(range), ..self@ }),
            self.wf() ==> pd.wf(),
    {
        Perfdata { crit: Some(range), ..self }
    }

    /// The numeric value of the record; `None` only for an undetermined
    /// measurement.
    pub fn value(&self) -> (v: Option<Dec>)
        ensures
            v == self@.unit.spec_value(),
    {
        match self.unit {
            Unit::Unitless(d) => Some(d),
            Unit::Percentage(d) => Some(d),
            Unit::Seconds(d) => Some(d),
            Unit::Bytes(d) => Some(d),
            Unit::Counter(d) => Some(d),
            Unit::Undetermined => None,
        }
    }

    /// The record's label.
    pub fn label(&self) -> (l: &str)
        ensures
            l@ == self@.label,
    {
        self.label.as_str()
    }

    /// Whether the value lies in the warning range; false when the value
    /// is undetermined or no warning range is set.
    pub fn is_warn(&self) -> (r: bool)
        requires
            self.wf(),
        ensures
            r == self@.spec_is_warn(),
    {
        match self.value() {
            Some(value) => match &self.warn {
                Some(range) => range.is_alert(value),
                None => false,
            },
            None => false,
        }
    }

    /// Whether the value lies in the critical range; false when the value
    /// is undetermined or no critical range is set.
    pub fn is_crit(&self) -> (r: bool)
        requires
            self.wf(),
        ensures
            r == self@.spec_is_crit(),
    {
        match self.value() {
            Some(value) => match &self.crit {
                Some(range) => range.is_alert(value),
                None => false,
            },
            None => false,
        }
    }

    /// Whether any of the warning, critical, minimum or maximum fields is
    /// set.
    pub fn has_any_thresholds(&self) -> (r: bool)
        ensures
            r == (self@.warn is Some || self@.crit is Some || self@.min is Some
                || self@.max is Some),
    {
        self.warn.is_some() || self.crit.is_some() || self.min.is_some() || self.max.is_some()
    }

    /// The status the record reports: critical is checked before warning.
    pub fn status(&self) -> (s: MonitoringStatus)
        requires
            self.wf(),
        ensures
            s == self@.spec_status(),
    {
        if self.is_crit() {
            MonitoringStatus::Critical
        } else if self.is_warn() {
            MonitoringStatus::Warning
        } else {
            MonitoringStatus::OK
        }
    }
}

} // verus!
