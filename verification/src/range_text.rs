use crate::error::{NumError, ParseErr, PerfdataParseError};
use crate::num::{spec_dec_zero, Dec, Num};
use crate::num_text::{
    lemma_dec_roundtrip, lemma_fmt_dec_chars, parse_dec_str, spec_fmt_dec, spec_parse_dec,
};
use crate::text::{find_char_from, is_numchar, lemma_find_concat, lemma_find_is_at,
    lemma_find_is_none, lemma_find_props, spec_find};
use crate::thresholds::{spec_range, ThresholdRange};
use vstd::prelude::*;

verus! {

/// The canonical text for a pair of range endpoints, most compact first:
/// `~:` for the whole line, `0:` for the non-negative half line, a bare
/// end for a range from zero, and `start:end` in general. An omitted
/// start is zero, an omitted end is positive infinity.
pub open spec fn spec_fmt_endpoints(start: Num, end: Num) -> Seq<char> {
    match (start, end) {
        (Num::NegInf, Num::PosInf) => seq!['~', ':'],
        (Num::NegInf, Num::NegInf) => seq!['~', ':', '~'],
        (Num::NegInf, Num::Fin(e)) => seq!['~', ':'] + spec_fmt_dec(e),
        (Num::Fin(s), Num::PosInf) => if s == spec_dec_zero() {
            seq!['0', ':']
        } else {
            spec_fmt_dec(s) + seq![':']
        },
        (Num::Fin(s), Num::Fin(e)) => if s == spec_dec_zero() {
            spec_fmt_dec(e)
        } else {
            spec_fmt_dec(s) + seq![':'] + spec_fmt_dec(e)
        },
        // A well-formed range never has these endpoint pairs.
        _ => seq!['~', ':'],
    }
}

/// The canonical text of a threshold range: `@` for an inside-alerting
/// range, then the endpoints.
pub open spec fn spec_fmt_range(r: ThresholdRange) -> Seq<char> {
    let sign: Seq<char> = if r.alert_inside {
        seq!['@']
    } else {
        Seq::empty()
    };
    sign + spec_fmt_endpoints(r.start, r.end)
}

/// One endpoint of a range: empty means the given default, `~` means
/// negative infinity, anything else must be a decimal.
pub open spec fn spec_parse_bound(t: Seq<char>, dflt: Num) -> Result<Num, NumError> {
    if t.len() == 0 {
        Ok(dflt)
    } else if t.len() == 1 && t[0] == '~' {
        Ok(Num::NegInf)
    } else {
        match spec_parse_dec(t) {
            Ok(d) => Ok(Num::Fin(d)),
            Err(e) => Err(e),
        }
    }
}

/// Parsing a threshold range: a leading `@` flips the polarity to
/// inside-alerting; an empty remainder is an error; one `:` separates
/// the endpoints, and without one the whole text is the end with a zero
/// start.
pub open spec fn spec_parse_range(s: Seq<char>) -> Result<ThresholdRange, ParseErr> {
    let inside = s.len() > 0 && s[0] == '@';
    let range = if inside {
        s.skip(1)
    } else {
        s
    };
    if range.len() == 0 {
        Err(ParseErr::ThresholdEmpty)
    } else {
        match spec_find(range, ':') {
            Some(i) => match spec_parse_bound(range.take(i), Num::Fin(spec_dec_zero())) {
                Err(e) => Err(ParseErr::ParseValueError(e)),
                Ok(start) => match spec_parse_bound(range.skip(i + 1), Num::PosInf) {
                    Err(e) => Err(ParseErr::ParseValueError(e)),
                    Ok(end) => Ok(spec_range(inside, start, end)),
                },
            },
            None => match spec_parse_bound(range, Num::PosInf) {
                Err(e) => Err(ParseErr::ParseValueError(e)),
                Ok(end) => Ok(spec_range(inside, Num::Fin(spec_dec_zero()), end)),
            },
        }
    }
}

/// The view of an exec range-parse result: the error replaced by its
/// model.
pub open spec fn range_res_view(r: Result<ThresholdRange, PerfdataParseError>) -> Result<
    ThresholdRange,
    ParseErr,
> {
    match r {
        Ok(t) => Ok(t),
        Err(e) => Err(e@),
    }
}

/// One endpoint, verified against [`spec_parse_bound`].
fn parse_bound(seg: &str, dflt: Num) -> (r: Result<Num, NumError>)
    requires
        dflt.wf(),
    ensures
        r == spec_parse_bound(seg@, dflt),
        r matches Ok(v) ==> v.wf(),
{
    let n = seg.unicode_len();
    if n == 0 {
        Ok(dflt)
    } else if n == 1 && seg.get_char(0) == '~' {
        Ok(Num::NegInf)
    } else {
        match parse_dec_str(seg) {
            Ok(d) => Ok(Num::Fin(d)),
            Err(e) => Err(e),
        }
    }
}

impl ThresholdRange {
    /// Parses the Nagios range notation, verified against
    /// [`spec_parse_range`].
    pub fn from_str(s: &str) -> (r: Result<ThresholdRange, PerfdataParseError>)
        ensures
            range_res_view(r) == spec_parse_range(s@),
            r matches Ok(t) ==> t.wf(),
    {
        let n = s.unicode_len();
        let inside = n > 0 && s.get_char(0) == '@';
        let base: usize = if inside {
            1
        } else {
            0
        };
        let ghost range = if inside {
            s@.skip(1)
        } else {
            s@
        };
        proof {
            assert(s@.skip(0) =~= s@);
            assert(range == s@.skip(base as int));
        }
        if n - base == 0 {
            return Err(PerfdataParseError::ThresholdEmpty);
        }
        match find_char_from(s, base, ':') {
            Some(i) => {
                proof {
                    lemma_find_props(range, ':');
                    assert(spec_find(range, ':') matches Some(k) && i == base + k);
                    assert(range.take(i - base) =~= s@.subrange(base as int, i as int));
                    assert(range.skip(i - base + 1) =~= s@.subrange(i + 1, n as int));
                }
                let start_seg = s.substring_char(base, i);
                let end_seg = s.substring_char(i + 1, n);
                let start = match parse_bound(start_seg, Num::Fin(Dec::zero())) {
                    Ok(v) => v,
                    Err(e) => {
                        return Err(PerfdataParseError::ParseValueError(e));
                    },
                };
                let end = match parse_bound(end_seg, Num::PosInf) {
                    Ok(v) => v,
                    Err(e) => {
                        return Err(PerfdataParseError::ParseValueError(e));
                    },
                };
                proof {
                    lemma_parse_bound_not_pos_inf(start_seg@, Num::Fin(spec_dec_zero()));
                }
                if inside {
                    Ok(ThresholdRange::inside(start, end))
                } else {
                    Ok(ThresholdRange::outside(start, end))
                }
            },
            None => {
                let end_seg = s.substring_char(base, n);
                proof {
                    assert(range =~= s@.subrange(base as int, n as int));
                }
                let end = match parse_bound(end_seg, Num::PosInf) {
                    Ok(v) => v,
                    Err(e) => {
                        return Err(PerfdataParseError::ParseValueError(e));
                    },
                };
                proof {
                    assert(!(end_seg@.len() == 0));
                    lemma_parse_bound_not_pos_inf(end_seg@, Num::PosInf);
                }
                if inside {
                    Ok(ThresholdRange::inside(Num::Fin(Dec::zero()), end))
                } else {
                    Ok(ThresholdRange::outside(Num::Fin(Dec::zero()), end))
                }
            },
        }
    }
}

/// Appends the canonical text of a range to a string.
pub fn append_range(s: &mut String, r: &ThresholdRange)
    requires
        r.wf(),
    ensures
        final(s)@ == old(s)@ + spec_fmt_range(*r),
{
    if r.alert_inside {
        proof {
            reveal_strlit("@");
        }
        s.append("@");
    }
    let ghost mid = s@;
    match (r.start, r.end) {
        (Num::NegInf, Num::PosInf) => {
            proof {
                reveal_strlit("~:");
            }
            s.append("~:");
        },
        (Num::NegInf, Num::NegInf) => {
            proof {
                reveal_strlit("~:~");
            }
            s.append("~:~");
        },
        (Num::NegInf, Num::Fin(e)) => {
            proof {
                reveal_strlit("~:");
            }
            s.append("~:");
            crate::num_text::append_dec(s, &e);
        },
        (Num::Fin(a), Num::PosInf) => {
            if !a.neg && a.mant == 0 && a.scale == 0 {
                proof {
                    reveal_strlit("0:");
                    assert(a == spec_dec_zero());
                }
                s.append("0:");
            } else {
                proof {
                    assert(a != spec_dec_zero());
                }
                crate::num_text::append_dec(s, &a);
                proof {
                    reveal_strlit(":");
                }
                s.append(":");
            }
        },
        (Num::Fin(a), Num::Fin(e)) => {
            if !a.neg && a.mant == 0 && a.scale == 0 {
                proof {
                    assert(a == spec_dec_zero());
                }
                crate::num_text::append_dec(s, &e);
            } else {
                proof {
                    assert(a != spec_dec_zero());
                }
                crate::num_text::append_dec(s, &a);
                proof {
                    reveal_strlit(":");
                }
                s.append(":");
                crate::num_text::append_dec(s, &e);
            }
        },
        _ => {
            proof {
                assert(false);
            }
        },
    }
    proof {
        assert(s@ =~= old(s)@ + spec_fmt_range(*r));
    }
}

impl ThresholdRange {
    /// The canonical text of this range.
    pub fn render(&self) -> (r: String)
        requires
            self.wf(),
        ensures
            r@ == spec_fmt_range(*self),
    {
        let mut out = String::new();
        append_range(&mut out, self);
        proof {
            assert(Seq::<char>::empty() + spec_fmt_range(*self) =~= spec_fmt_range(*self));
        }
        out
    }
}

/// A parsed endpoint is positive infinity only where the text was empty
/// and the default was.
proof fn lemma_parse_bound_not_pos_inf(t: Seq<char>, dflt: Num)
    ensures
        spec_parse_bound(t, dflt) matches Ok(v) && v is PosInf ==> t.len() == 0 && dflt
            is PosInf,
{
}

/// A character that can occur in range notation.
pub open spec fn is_rangechar(c: char) -> bool {
    is_numchar(c) || c == '@' || c == ':' || c == '~'
}

/// The text of a well-formed range is non-empty and holds only range
/// characters: digits, point, minus, `@`, `:` and `~`.
pub proof fn lemma_fmt_range_chars(r: ThresholdRange)
    requires
        r.wf(),
    ensures
        spec_fmt_range(r).len() >= 1,
        forall|i: int|
            0 <= i < spec_fmt_range(r).len() ==> is_rangechar(#[trigger] spec_fmt_range(r)[i]),
{
    let s = spec_fmt_range(r);
    let ep = spec_fmt_endpoints(r.start, r.end);
    let sign: Seq<char> = if r.alert_inside {
        seq!['@']
    } else {
        Seq::empty()
    };
    assert(s == sign + ep);
    match r.start {
        Num::Fin(a) => lemma_fmt_dec_chars(a),
        _ => (),
    }
    match r.end {
        Num::Fin(e) => lemma_fmt_dec_chars(e),
        _ => (),
    }
    assert(ep.len() >= 1);
    assert forall|i: int| 0 <= i < s.len() implies is_rangechar(#[trigger] s[i]) by {
        if i < sign.len() {
            assert(s[i] == '@');
        } else {
            let j = i - sign.len();
            assert(s[i] == ep[j]);
            lemma_endpoint_char(r.start, r.end, j);
        }
    }
}

proof fn lemma_endpoint_char(start: Num, end: Num, j: int)
    requires
        0 <= j < spec_fmt_endpoints(start, end).len(),
        start matches Num::Fin(a) ==> a.wf(),
        end matches Num::Fin(e) ==> e.wf(),
    ensures
        is_rangechar(spec_fmt_endpoints(start, end)[j]),
{
    let ep = spec_fmt_endpoints(start, end);
    match (start, end) {
        (Num::NegInf, Num::Fin(e)) => {
            lemma_fmt_dec_chars(e);
            if j >= 2 {
                assert(ep[j] == spec_fmt_dec(e)[j - 2]);
            }
        },
        (Num::Fin(a), Num::PosInf) => {
            if a == spec_dec_zero() {
            } else {
                lemma_fmt_dec_chars(a);
                if j < spec_fmt_dec(a).len() {
                    assert(ep[j] == spec_fmt_dec(a)[j]);
                } else {
                    assert(ep[j] == ':');
                }
            }
        },
        (Num::Fin(a), Num::Fin(e)) => {
            lemma_fmt_dec_chars(e);
            if a == spec_dec_zero() {
                assert(ep[j] == spec_fmt_dec(e)[j]);
            } else {
                lemma_fmt_dec_chars(a);
                let fa = spec_fmt_dec(a);
                let fe = spec_fmt_dec(e);
                assert(ep == fa + seq![':'] + fe);
                if j < fa.len() {
                    assert(ep[j] == fa[j]);
                } else if j == fa.len() {
                    assert(ep[j] == ':');
                } else {
                    assert(ep[j] == fe[j - fa.len() - 1]);
                }
            }
        },
        _ => {},
    }
}

/// The text of a decimal parses back as a range endpoint, whatever the
/// default is.
proof fn lemma_bound_fmt(e: Dec, dflt: Num)
    requires
        e.wf(),
    ensures
        spec_parse_bound(spec_fmt_dec(e), dflt) == Ok::<Num, NumError>(Num::Fin(e)),
{
    lemma_fmt_dec_chars(e);
    let t = spec_fmt_dec(e);
    assert(t[0] != '~');
    lemma_dec_roundtrip(e);
}

proof fn lemma_endpoint_first(start: Num, end: Num)
    requires
        start matches Num::Fin(a) ==> a.wf(),
        end matches Num::Fin(e) ==> e.wf(),
    ensures
        spec_fmt_endpoints(start, end)[0] != '@',
{
    let ep = spec_fmt_endpoints(start, end);
    match (start, end) {
        (Num::Fin(a), Num::PosInf) => {
            if a != spec_dec_zero() {
                lemma_fmt_dec_chars(a);
                assert(ep[0] == spec_fmt_dec(a)[0]);
                assert(is_numchar(spec_fmt_dec(a)[0]));
            }
        },
        (Num::Fin(a), Num::Fin(e)) => {
            lemma_fmt_dec_chars(e);
            if a == spec_dec_zero() {
                assert(ep[0] == spec_fmt_dec(e)[0]);
            } else {
                lemma_fmt_dec_chars(a);
                assert(ep == spec_fmt_dec(a) + seq![':'] + spec_fmt_dec(e));
                assert(ep[0] == spec_fmt_dec(a)[0]);
            }
        },
        _ => {},
    }
}

#[verifier::rlimit(100)]
proof fn lemma_endpoints_parse(start: Num, end: Num)
    requires
        (ThresholdRange { alert_inside: false, start, end }).wf(),
    ensures
        ({
            let ep = spec_fmt_endpoints(start, end);
            match spec_find(ep, ':') {
                Some(i) => spec_parse_bound(ep.take(i), Num::Fin(spec_dec_zero())) == Ok::<
                    Num,
                    NumError,
                >(start) && spec_parse_bound(ep.skip(i + 1), Num::PosInf) == Ok::<
                    Num,
                    NumError,
                >(end),
                None => start == Num::Fin(spec_dec_zero()) && spec_parse_bound(
                    ep,
                    Num::PosInf,
                ) == Ok::<Num, NumError>(end),
            }
        }),
{
    let ep = spec_fmt_endpoints(start, end);
    let zero = Num::Fin(spec_dec_zero());
    match (start, end) {
        (Num::NegInf, Num::PosInf) => {
            lemma_find_is_at(ep, ':', 1);
            assert(ep.take(1) =~= seq!['~']);
            assert(ep.skip(2) =~= Seq::<char>::empty());
        },
        (Num::NegInf, Num::NegInf) => {
            lemma_find_is_at(ep, ':', 1);
            assert(ep.take(1) =~= seq!['~']);
            assert(ep.skip(2) =~= seq!['~']);
        },
        (Num::NegInf, Num::Fin(e)) => {
            lemma_fmt_dec_chars(e);
            assert(ep[0] == '~' && ep[1] == ':');
            lemma_find_is_at(ep, ':', 1);
            assert(ep.take(1) =~= seq!['~']);
            assert(ep.skip(2) =~= spec_fmt_dec(e));
            lemma_bound_fmt(e, Num::PosInf);
        },
        (Num::Fin(a), Num::PosInf) => {
            if a == spec_dec_zero() {
                lemma_find_is_at(ep, ':', 1);
                assert(ep.take(1) =~= seq!['0']);
                assert(ep.skip(2) =~= Seq::<char>::empty());
                assert(seq!['0'] =~= spec_fmt_dec(spec_dec_zero())) by {
                    assert(crate::digits::digits_of(0) =~= seq!['0']);
                    assert(spec_fmt_dec(spec_dec_zero()) =~= Seq::<char>::empty()
                        + crate::digits::digits_of(0));
                }
                lemma_bound_fmt(spec_dec_zero(), zero);
            } else {
                let fa = spec_fmt_dec(a);
                lemma_fmt_dec_chars(a);
                assert forall|j: int| 0 <= j < fa.len() implies fa[j] != ':' by {
                    assert(is_numchar(fa[j]));
                }
                lemma_find_is_none(fa, ':');
                lemma_find_concat(fa, seq![':'], ':');
                lemma_find_is_at(seq![':'], ':', 0);
                assert(spec_find(ep, ':') == Some(fa.len() as int));
                assert(ep.take(fa.len() as int) =~= fa);
                assert(ep.skip(fa.len() as int + 1) =~= Seq::<char>::empty());
                lemma_bound_fmt(a, zero);
            }
        },
        (Num::Fin(a), Num::Fin(e)) => {
            lemma_fmt_dec_chars(e);
            if a == spec_dec_zero() {
                let fe = spec_fmt_dec(e);
                assert forall|j: int| 0 <= j < fe.len() implies fe[j] != ':' by {
                    assert(is_numchar(fe[j]));
                }
                lemma_find_is_none(ep, ':');
                lemma_bound_fmt(e, Num::PosInf);
            } else {
                let fa = spec_fmt_dec(a);
                let fe = spec_fmt_dec(e);
                lemma_fmt_dec_chars(a);
                assert(ep == fa + seq![':'] + fe);
                assert forall|j: int| 0 <= j < fa.len() implies fa[j] != ':' by {
                    assert(is_numchar(fa[j]));
                }
                lemma_find_is_none(fa, ':');
                lemma_find_concat(fa, seq![':'] + fe, ':');
                lemma_find_is_at(seq![':'] + fe, ':', 0);
                assert(fa + (seq![':'] + fe) =~= ep);
                assert(spec_find(ep, ':') == Some(fa.len() as int));
                assert(ep.take(fa.len() as int) =~= fa);
                assert(ep.skip(fa.len() as int + 1) =~= fe);
                lemma_bound_fmt(a, zero);
                lemma_bound_fmt(e, Num::PosInf);
            }
        },
        _ => {
            assert(false);
        },
    }
}

/// Formatting a well-formed range and parsing the text back gives the
/// same range.
pub proof fn lemma_range_roundtrip(r: ThresholdRange)
    requires
        r.wf(),
    ensures
        spec_parse_range(spec_fmt_range(r)) == Ok::<ThresholdRange, ParseErr>(r),
{
    let s = spec_fmt_range(r);
    let ep = spec_fmt_endpoints(r.start, r.end);
    let sign: Seq<char> = if r.alert_inside {
        seq!['@']
    } else {
        Seq::empty()
    };
    assert(s == sign + ep);
    // The endpoints text is non-empty and never starts with `@`, so the
    // polarity marker is recovered exactly.
    lemma_endpoint_first(r.start, r.end);
    assert(ep[0] != '@');
    assert(ep.len() >= 1);
    let inside = s.len() > 0 && s[0] == '@';
    if r.alert_inside {
        assert(s[0] == '@');
        assert(s.skip(1) =~= ep);
    } else {
        assert(s =~= ep);
        assert(s[0] == ep[0]);
    }
    assert(inside == r.alert_inside);
    let range = if inside {
        s.skip(1)
    } else {
        s
    };
    assert(range == ep);
    lemma_endpoints_parse(r.start, r.end);
    // The endpoints come back in order, so construction swaps nothing.
    match spec_find(ep, ':') {
        Some(i) => {
            assert(spec_range(inside, r.start, r.end) == r);
        },
        None => {
            assert(spec_range(inside, r.start, r.end) == r);
        },
    }
}

} // verus!
