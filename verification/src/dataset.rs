use crate::monitoring_status::MonitoringStatus;
use crate::perfdata::{Perfdata, PerfdataView};
use vstd::prelude::*;

verus! {

/// An ordered collection of measurement records. Insertion order is kept
/// and labels are not deduplicated.
#[derive(Debug, PartialEq, Eq)]
pub struct PerfdataSet {
    /// The records, in insertion order.
    pub data: Vec<Perfdata>,
}

impl View for PerfdataSet {
    type V = Seq<PerfdataView>;

    open spec fn view(&self) -> Seq<PerfdataView> {
        self.data@.map_values(|pd: Perfdata| pd@)
    }
}

/// The records of `s` that trigger their critical range, in order.
pub open spec fn spec_critical(s: Seq<PerfdataView>) -> Seq<PerfdataView>
    decreases s.len(),
{
    if s.len() == 0 {
        Seq::empty()
    } else {
        spec_critical(s.drop_last()) + if s.last().spec_is_crit() {
            seq![s.last()]
        } else {
            Seq::empty()
        }
    }
}

/// The records of `s` that trigger their warning range, in order.
pub open spec fn spec_warning(s: Seq<PerfdataView>) -> Seq<PerfdataView>
    decreases s.len(),
{
    if s.len() == 0 {
        Seq::empty()
    } else {
        spec_warning(s.drop_last()) + if s.last().spec_is_warn() {
            seq![s.last()]
        } else {
            Seq::empty()
        }
    }
}

/// The worst status over a sequence of records: critical beats warning
/// beats OK.
pub open spec fn spec_set_status(s: Seq<PerfdataView>) -> MonitoringStatus {
    if exists|i: int| 0 <= i < s.len() && s[i].spec_is_crit() {
        MonitoringStatus::Critical
    } else if exists|i: int| 0 <= i < s.len() && s[i].spec_is_warn() {
        MonitoringStatus::Warning
    } else {
        MonitoringStatus::OK
    }
}

impl PerfdataSet {
    /// Every record in the set is well-formed.
    pub open spec fn wf(self) -> bool {
        forall|i: int| 0 <= i < self@.len() ==> (#[trigger] self@[i]).wf()
    }

    /// An empty set.
    pub fn new() -> (s: PerfdataSet)
        ensures
            s@ == Seq::<PerfdataView>::empty(),
            s.wf(),
    {
        let s = PerfdataSet { data: Vec::new() };
        proof {
            assert(s@ =~= Seq::<PerfdataView>::empty());
        }
        s
    }

    /// Appends a record at the end of the set.
    pub fn add(&mut self, pd: Perfdata)
        requires
            pd.wf(),
        ensures
            final(self)@ == old(self)@.push(pd@),
            old(self).wf() ==> final(self).wf(),
    {
        self.data.push(pd);
        proof {
            assert(self@ =~= old(self)@.push(pd@));
        }
    }

    /// Whether the set holds no records.
    pub fn is_empty(&self) -> (r: bool)
        ensures
            r == (self@.len() == 0),
    {
        self.data.len() == 0
    }

    /// The records of the set, in insertion order.
    pub fn data(&self) -> (d: &Vec<Perfdata>)
        ensures
            d@.map_values(|pd: Perfdata| pd@) == self@,
    {
        &self.data
    }

    /// The records that trigger their critical range, in order.
    pub fn critical(&self) -> (r: Vec<Perfdata>)
        requires
            self.wf(),
        ensures
            r@.map_values(|pd: Perfdata| pd@) == spec_critical(self@),
    {
        let mut out: Vec<Perfdata> = Vec::new();
        let mut i: usize = 0;
        proof {
            assert(out@.map_values(|pd: Perfdata| pd@) =~= spec_critical(self@.take(0)));
        }
        while i < self.data.len()
            invariant
                i <= self.data.len(),
                self.wf(),
                out@.map_values(|pd: Perfdata| pd@) == spec_critical(self@.take(i as int)),
            decreases self.data.len() - i,
        {
            proof {
                assert(self@[i as int] == self.data@[i as int]@);
                assert(self@.take(i + 1).drop_last() =~= self@.take(i as int));
                assert(self@.take(i + 1).last() == self@[i as int]);
            }
            if self.data[i].is_crit() {
                out.push(self.data[i].clone());
            }
            proof {
                assert(out@.map_values(|pd: Perfdata| pd@) =~= spec_critical(
                    self@.take(i + 1),
                ));
            }
            i = i + 1;
        }
        proof {
            assert(self@.take(self.data.len() as int) =~= self@);
        }
        out
    }

    /// The records that trigger their warning range, in order.
    pub fn warning(&self) -> (r: Vec<Perfdata>)
        requires
            self.wf(),
        ensures
            r@.map_values(|pd: Perfdata| pd@) == spec_warning(self@),
    {
        let mut out: Vec<Perfdata> = Vec::new();
        let mut i: usize = 0;
        proof {
            assert(out@.map_values(|pd: Perfdata| pd@) =~= spec_warning(self@.take(0)));
        }
        while i < self.data.len()
            invariant
                i <= self.data.len(),
                self.wf(),
                out@.map_values(|pd: Perfdata| pd@) == spec_warning(self@.take(i as int)),
            decreases self.data.len() - i,
        {
            proof {
                assert(self@[i as int] == self.data@[i as int]@);
                assert(self@.take(i + 1).drop_last() =~= self@.take(i as int));
                assert(self@.take(i + 1).last() == self@[i as int]);
            }
            if self.data[i].is_warn() {
                out.push(self.data[i].clone());
            }
            proof {
                assert(out@.map_values(|pd: Perfdata| pd@) =~= spec_warning(
                    self@.take(i + 1),
                ));
            }
            i = i + 1;
        }
        proof {
            assert(self@.take(self.data.len() as int) =~= self@);
        }
        out
    }

    /// Whether at least one record triggers its critical range.
    pub fn has_critical(&self) -> (r: bool)
        requires
            self.wf(),
        ensures
            r == exists|i: int| 0 <= i < self@.len() && (#[trigger] self@[i]).spec_is_crit(),
    {
        let mut i: usize = 0;
        while i < self.data.len()
            invariant
                i <= self.data.len(),
                self.wf(),
                forall|j: int| 0 <= j < i ==> !(#[trigger] self@[j]).spec_is_crit(),
            decreases self.data.len() - i,
        {
            proof {
                assert(self@[i as int] == self.data@[i as int]@);
            }
            if self.data[i].is_crit() {
                proof {
                    assert(self@[i as int].spec_is_crit());
                }
                return true;
            }
            i = i + 1;
        }
        false
    }

    /// Whether at least one record triggers its warning range.
    pub fn has_warning(&self) -> (r: bool)
        requires
            self.wf(),
        ensures
            r == exists|i: int| 0 <= i < self@.len() && (#[trigger] self@[i]).spec_is_warn(),
    {
        let mut i: usize = 0;
        while i < self.data.len()
            invariant
                i <= self.data.len(),
                self.wf(),
                forall|j: int| 0 <= j < i ==> !(#[trigger] self@[j]).spec_is_warn(),
            decreases self.data.len() - i,
        {
            proof {
                assert(self@[i as int] == self.data@[i as int]@);
            }
            if self.data[i].is_warn() {
                proof {
                    assert(self@[i as int].spec_is_warn());
                }
                return true;
            }
            i = i + 1;
        }
        false
    }

    /// Whether any record triggers its warning or critical range.
    pub fn is_degraded(&self) -> (r: bool)
        requires
            self.wf(),
        ensures
            r == exists|i: int|
                0 <= i < self@.len() && ((#[trigger] self@[i]).spec_is_warn()
                    || self@[i].spec_is_crit()),
    {
        let mut i: usize = 0;
        while i < self.data.len()
            invariant
                i <= self.data.len(),
                self.wf(),
                forall|j: int|
                    0 <= j < i ==> !((#[trigger] self@[j]).spec_is_warn()
                        || self@[j].spec_is_crit()),
            decreases self.data.len() - i,
        {
            proof {
                assert(self@[i as int] == self.data@[i as int]@);
            }
            if self.data[i].is_warn() || self.data[i].is_crit() {
                proof {
                    assert(self@[i as int].spec_is_warn() || self@[i as int].spec_is_crit());
                }
                return true;
            }
            i = i + 1;
        }
        false
    }

    /// The worst status over the whole set: critical beats warning beats
    /// OK.
    pub fn status(&self) -> (s: MonitoringStatus)
        requires
            self.wf(),
        ensures
            s == spec_set_status(self@),
    {
        if self.has_critical() {
            MonitoringStatus::Critical
        } else if self.has_warning() {
            MonitoringStatus::Warning
        } else {
            MonitoringStatus::OK
        }
    }

    /// A set holding exactly the given records, in their order.
    pub fn from_vec(data: Vec<Perfdata>) -> (s: PerfdataSet)
        ensures
            s@ == data@.map_values(|pd: Perfdata| pd@),
    {
        PerfdataSet { data }
    }

    /// The canonical text of the whole set: each record's text, joined
    /// by single spaces; empty for an empty set.
    #[verifier::loop_isolation(false)]
    pub fn render(&self) -> (r: String)
        requires
            self.wf(),
        ensures
            r@ == spec_fmt_set(self@),
    {
        let mut out = String::new();
        let mut i: usize = 0;
        proof {
            assert(self@.take(0) =~= Seq::<PerfdataView>::empty());
        }
        while i < self.data.len()
            invariant
                i <= self.data.len(),
                out@ == spec_fmt_set(self@.take(i as int)),
            decreases self.data.len() - i,
        {
            if i > 0 {
                proof {
                    reveal_strlit(" ");
                }
                out.append(" ");
            }
            proof {
                assert(self@[i as int] == self.data@[i as int]@);
            }
            let piece = self.data[i].render();
            out.append(piece.as_str());
            proof {
                assert(self@.take(i + 1).drop_last() =~= self@.take(i as int));
                assert(self@.take(i + 1).last() == self@[i as int]);
                assert(out@ =~= spec_fmt_set(self@.take(i + 1)));
            }
            i = i + 1;
        }
        proof {
            assert(self@.take(self.data.len() as int) =~= self@);
        }
        out
    }
}

/// The text of a sequence of records: token texts joined by single
/// spaces.
pub open spec fn spec_fmt_set(s: Seq<PerfdataView>) -> Seq<char>
    decreases s.len(),
{
    if s.len() == 0 {
        Seq::empty()
    } else if s.len() == 1 {
        crate::token_text::spec_fmt_token(s[0])
    } else {
        spec_fmt_set(s.drop_last()) + seq![' '] + crate::token_text::spec_fmt_token(s.last())
    }
}

} // verus!
