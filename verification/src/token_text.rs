use crate::error::{ParseErr, PerfdataParseError};
use crate::num::{Dec, Num};
use crate::num_text::{spec_fmt_dec, spec_parse_dec};
use crate::perfdata::{Perfdata, PerfdataView, Unit};
use crate::range_text::{spec_fmt_range, spec_parse_range};
use crate::text::{
    find_char_from, is_numchar, spec_find, spec_trim, split_semis, split_semis_str, trim_str,
};
use crate::thresholds::ThresholdRange;
use vstd::prelude::*;

verus! {

/// One surrounding pair of single quotes is stripped from a label; a
/// single quote alone, or an unmatched one, stays.
pub open spec fn spec_unquote(t: Seq<char>) -> Seq<char> {
    if t.len() >= 2 && t[0] == '\'' && t.last() == '\'' {
        t.subrange(1, t.len() - 1)
    } else {
        t
    }
}

/// Parsing the label region: trim, strip one pair of quotes, then no
/// quote may remain and the label may not be empty.
pub open spec fn spec_parse_label(region: Seq<char>) -> Result<Seq<char>, ParseErr> {
    let u = spec_unquote(spec_trim(region));
    if exists|i: int| 0 <= i < u.len() && u[i] == '\'' {
        Err(ParseErr::LabelContainsSingleQuote)
    } else if u.len() == 0 {
        Err(ParseErr::MissingLabel)
    } else {
        Ok(u)
    }
}

/// The length of the leading run of numeric characters in `v`: the
/// value text ends at the first character that is not a digit, a point
/// or a minus sign.
pub open spec fn spec_scan_num(v: Seq<char>) -> int
    decreases v.len(),
{
    if v.len() == 0 {
        0
    } else if !is_numchar(v[0]) {
        0
    } else {
        1 + spec_scan_num(v.skip(1))
    }
}

/// What [`spec_scan_num`] returns: the first index holding a non-numeric
/// character, or the length.
pub proof fn lemma_scan_num_props(v: Seq<char>)
    ensures
        0 <= spec_scan_num(v) <= v.len(),
        forall|j: int| 0 <= j < spec_scan_num(v) ==> is_numchar(#[trigger] v[j]),
        spec_scan_num(v) < v.len() ==> !is_numchar(v[spec_scan_num(v)]),
    decreases v.len(),
{
    if v.len() > 0 && is_numchar(v[0]) {
        lemma_scan_num_props(v.skip(1));
        let i = spec_scan_num(v);
        assert forall|j: int| 0 <= j < i implies is_numchar(#[trigger] v[j]) by {
            if j > 0 {
                assert(v[j] == v.skip(1)[j - 1]);
            }
        }
        if i < v.len() {
            assert(v[i] == v.skip(1)[i - 1]);
        }
    }
}

/// A witness pins [`spec_scan_num`] down.
pub proof fn lemma_scan_num_is(v: Seq<char>, k: int)
    requires
        0 <= k <= v.len(),
        forall|j: int| 0 <= j < k ==> is_numchar(#[trigger] v[j]),
        k < v.len() ==> !is_numchar(v[k]),
    ensures
        spec_scan_num(v) == k,
{
    lemma_scan_num_props(v);
    let i = spec_scan_num(v);
    if i < k {
        assert(is_numchar(v[i]));
    } else if i > k {
        assert(is_numchar(v[k]));
    }
}

/// Parsing the value segment: the literal `U` or `u` alone means an
/// undetermined value; otherwise the leading numeric run is the value
/// and the rest must be one of the known unit suffixes.
pub open spec fn spec_parse_unit(v: Seq<char>) -> Result<Unit, ParseErr> {
    if v.len() == 1 && (v[0] == 'U' || v[0] == 'u') {
        Ok(Unit::Undetermined)
    } else {
        let i = spec_scan_num(v);
        let numtxt = v.take(i);
        let unittxt = v.skip(i);
        match spec_parse_dec(numtxt) {
            Err(e) => Err(ParseErr::ParseValueError(e)),
            Ok(d) => if unittxt.len() == 0 {
                Ok(Unit::Unitless(d))
            } else if unittxt.len() == 1 && unittxt[0] == 's' {
                Ok(Unit::Seconds(d))
            } else if unittxt.len() == 1 && unittxt[0] == 'b' {
                Ok(Unit::Bytes(d))
            } else if unittxt.len() == 1 && unittxt[0] == 'c' {
                Ok(Unit::Counter(d))
            } else if unittxt.len() == 1 && unittxt[0] == '%' {
                Ok(Unit::Percentage(d))
            } else {
                Err(ParseErr::UnknownUnit(unittxt))
            },
        }
    }
}

/// The segment at `i`, where an exhausted list and an empty segment
/// both mean absence.
pub open spec fn seg_at(segs: Seq<Seq<char>>, i: int) -> Option<Seq<char>> {
    if i < segs.len() && segs[i].len() > 0 {
        Some(segs[i])
    } else {
        None
    }
}

/// An optional threshold segment.
pub open spec fn spec_parse_opt_range(o: Option<Seq<char>>) -> Result<
    Option<ThresholdRange>,
    ParseErr,
> {
    match o {
        None => Ok(None),
        Some(t) => match spec_parse_range(t) {
            Ok(w) => Ok(Some(w)),
            Err(e) => Err(e),
        },
    }
}

/// An optional plain-number segment.
pub open spec fn spec_parse_opt_dec(o: Option<Seq<char>>) -> Result<Option<Dec>, ParseErr> {
    match o {
        None => Ok(None),
        Some(t) => match spec_parse_dec(t) {
            Ok(d) => Ok(Some(d)),
            Err(e) => Err(ParseErr::ParseValueError(e)),
        },
    }
}

/// The warn, crit, min and max segments behind the value.
pub open spec fn spec_parse_fields(label: Seq<char>, unit: Unit, segs: Seq<Seq<char>>) -> Result<
    PerfdataView,
    ParseErr,
> {
    match spec_parse_opt_range(seg_at(segs, 1)) {
        Err(e) => Err(e),
        Ok(warn) => match spec_parse_opt_range(seg_at(segs, 2)) {
            Err(e) => Err(e),
            Ok(crit) => match spec_parse_opt_dec(seg_at(segs, 3)) {
                Err(e) => Err(e),
                Ok(min) => match spec_parse_opt_dec(seg_at(segs, 4)) {
                    Err(e) => Err(e),
                    Ok(max) => Ok(PerfdataView { label, unit, warn, crit, min, max }),
                },
            },
        },
    }
}

/// Parsing one measurement token: the label before the first `=`, then
/// the data region split on `;` into value, warn, crit, min and max.
pub open spec fn spec_parse_token(s: Seq<char>) -> Result<PerfdataView, ParseErr> {
    match spec_find(s, '=') {
        None => Err(ParseErr::MissingEqualsSign),
        Some(eq) => match spec_parse_label(s.take(eq)) {
            Err(e) => Err(e),
            Ok(label) => {
                let segs = split_semis(s.skip(eq + 1));
                match seg_at(segs, 0) {
                    None => Err(ParseErr::MissingValue),
                    Some(vtxt) => match spec_parse_unit(vtxt) {
                        Err(e) => Err(e),
                        Ok(unit) => spec_parse_fields(label, unit, segs),
                    },
                }
            },
        },
    }
}

/// The value segment of a record: the value text with its unit suffix,
/// or the literal `U`.
pub open spec fn spec_fmt_unit(u: Unit) -> Seq<char> {
    match u {
        Unit::Unitless(d) => spec_fmt_dec(d),
        Unit::Percentage(d) => spec_fmt_dec(d) + seq!['%'],
        Unit::Seconds(d) => spec_fmt_dec(d) + seq!['s'],
        Unit::Bytes(d) => spec_fmt_dec(d) + seq!['b'],
        Unit::Counter(d) => spec_fmt_dec(d) + seq!['c'],
        Unit::Undetermined => seq!['U'],
    }
}

/// An optional threshold as a segment: empty when absent.
pub open spec fn spec_fmt_opt_range(o: Option<ThresholdRange>) -> Seq<char> {
    match o {
        None => Seq::empty(),
        Some(r) => spec_fmt_range(r),
    }
}

/// An optional bound as a segment: empty when absent.
pub open spec fn spec_fmt_opt_dec(o: Option<Dec>) -> Seq<char> {
    match o {
        None => Seq::empty(),
        Some(d) => spec_fmt_dec(d),
    }
}

/// The canonical text of a record: the quoted label, `=`, the value
/// with its unit and a closing `;`; the four optional segments follow,
/// each with its own `;`, only when at least one of them is set.
pub open spec fn spec_fmt_token(pd: PerfdataView) -> Seq<char> {
    let head = seq!['\''] + pd.label + seq!['\'', '='] + spec_fmt_unit(pd.unit) + seq![';'];
    if pd.warn is Some || pd.crit is Some || pd.min is Some || pd.max is Some {
        head + spec_fmt_opt_range(pd.warn) + seq![';'] + spec_fmt_opt_range(pd.crit) + seq![';']
            + spec_fmt_opt_dec(pd.min) + seq![';'] + spec_fmt_opt_dec(pd.max) + seq![';']
    } else {
        head
    }
}

/// The view of an exec token-parse result.
pub open spec fn token_res_view(r: Result<Perfdata, PerfdataParseError>) -> Result<
    PerfdataView,
    ParseErr,
> {
    match r {
        Ok(p) => Ok(p@),
        Err(e) => Err(e@),
    }
}

/// Parsing the label region, verified against [`spec_parse_label`].
fn parse_label(region: &str) -> (r: Result<String, PerfdataParseError>)
    ensures
        match r {
            Ok(l) => spec_parse_label(region@) == Ok::<Seq<char>, ParseErr>(l@),
            Err(e) => spec_parse_label(region@) == Err::<Seq<char>, ParseErr>(e@),
        },
{
    let t = trim_str(region);
    let n = t.unicode_len();
    let u: &str = if n >= 2 && t.get_char(0) == '\'' && t.get_char(n - 1) == '\'' {
        t.substring_char(1, n - 1)
    } else {
        t
    };
    proof {
        assert(u@ == spec_unquote(spec_trim(region@)));
    }
    match find_char_from(u, 0, '\'') {
        Some(_) => {
            proof {
                crate::text::lemma_find_props(u@.skip(0), '\'');
                assert(u@.skip(0) =~= u@);
            }
            Err(PerfdataParseError::LabelContainsSingleQuote)
        },
        None => {
            proof {
                crate::text::lemma_find_props(u@.skip(0), '\'');
                assert(u@.skip(0) =~= u@);
            }
            if u.unicode_len() == 0 {
                Err(PerfdataParseError::MissingLabel)
            } else {
                Ok(u.to_owned())
            }
        },
    }
}

/// Parsing the value segment, verified against [`spec_parse_unit`].
fn parse_unit_seg(v: &str) -> (r: Result<Unit, PerfdataParseError>)
    ensures
        match r {
            Ok(u) => spec_parse_unit(v@) == Ok::<Unit, ParseErr>(u),
            Err(e) => spec_parse_unit(v@) == Err::<Unit, ParseErr>(e@),
        },
        r matches Ok(u) ==> u.wf(),
{
    let n = v.unicode_len();
    if n == 1 && (v.get_char(0) == 'U' || v.get_char(0) == 'u') {
        return Ok(Unit::Undetermined);
    }
    // Scan for the first character that cannot belong to the number.
    let mut i: usize = 0;
    while i < n && crate::text::char_is_numchar(v.get_char(i))
        invariant
            0 <= i <= n,
            n == v@.len(),
            forall|j: int| 0 <= j < i ==> is_numchar(#[trigger] v@[j]),
        decreases n - i,
    {
        i = i + 1;
    }
    proof {
        lemma_scan_num_is(v@, i as int);
    }
    let numtxt = v.substring_char(0, i);
    let unittxt = v.substring_char(i, n);
    let d = match crate::num_text::parse_dec_str(numtxt) {
        Ok(d) => d,
        Err(e) => {
            return Err(PerfdataParseError::ParseValueError(e));
        },
    };
    let m = n - i;
    if m == 0 {
        Ok(Unit::Unitless(d))
    } else if m == 1 && unittxt.get_char(0) == 's' {
        Ok(Unit::Seconds(d))
    } else if m == 1 && unittxt.get_char(0) == 'b' {
        Ok(Unit::Bytes(d))
    } else if m == 1 && unittxt.get_char(0) == 'c' {
        Ok(Unit::Counter(d))
    } else if m == 1 && unittxt.get_char(0) == '%' {
        Ok(Unit::Percentage(d))
    } else {
        Err(PerfdataParseError::UnknownUnit(unittxt.to_owned()))
    }
}

/// A character that can occur in a value segment: a numeric character,
/// a unit suffix, or the undetermined marker.
pub open spec fn is_unitchar(c: char) -> bool {
    is_numchar(c) || c == '%' || c == 's' || c == 'b' || c == 'c' || c == 'U'
}

/// The value segment of a well-formed unit value is non-empty and holds
/// only value characters.
pub proof fn lemma_fmt_unit_chars(u: Unit)
    requires
        u.wf(),
    ensures
        spec_fmt_unit(u).len() >= 1,
        forall|i: int|
            0 <= i < spec_fmt_unit(u).len() ==> is_unitchar(#[trigger] spec_fmt_unit(u)[i]),
{
    let v = spec_fmt_unit(u);
    match u {
        Unit::Undetermined => {},
        Unit::Unitless(d) => {
            crate::num_text::lemma_fmt_dec_chars(d);
        },
        Unit::Percentage(d) => {
            crate::num_text::lemma_fmt_dec_chars(d);
            assert forall|i: int| 0 <= i < v.len() implies is_unitchar(#[trigger] v[i]) by {
                if i < spec_fmt_dec(d).len() {
                    assert(v[i] == spec_fmt_dec(d)[i]);
                }
            }
        },
        Unit::Seconds(d) => {
            crate::num_text::lemma_fmt_dec_chars(d);
            assert forall|i: int| 0 <= i < v.len() implies is_unitchar(#[trigger] v[i]) by {
                if i < spec_fmt_dec(d).len() {
                    assert(v[i] == spec_fmt_dec(d)[i]);
                }
            }
        },
        Unit::Bytes(d) => {
            crate::num_text::lemma_fmt_dec_chars(d);
            assert forall|i: int| 0 <= i < v.len() implies is_unitchar(#[trigger] v[i]) by {
                if i < spec_fmt_dec(d).len() {
                    assert(v[i] == spec_fmt_dec(d)[i]);
                }
            }
        },
        Unit::Counter(d) => {
            crate::num_text::lemma_fmt_dec_chars(d);
            assert forall|i: int| 0 <= i < v.len() implies is_unitchar(#[trigger] v[i]) by {
                if i < spec_fmt_dec(d).len() {
                    assert(v[i] == spec_fmt_dec(d)[i]);
                }
            }
        },
    }
}

/// The value segment of a well-formed unit value parses back to it.
proof fn lemma_unit_roundtrip(u: Unit)
    requires
        u.wf(),
    ensures
        spec_parse_unit(spec_fmt_unit(u)) == Ok::<Unit, ParseErr>(u),
{
    let v = spec_fmt_unit(u);
    match u {
        Unit::Undetermined => {},
        Unit::Unitless(d) => {
            crate::num_text::lemma_fmt_dec_chars(d);
            let f = spec_fmt_dec(d);
            assert(is_numchar(f[0]));
            assert(!(v.len() == 1 && (v[0] == 'U' || v[0] == 'u')));
            lemma_scan_num_is(v, v.len() as int);
            assert(v.take(v.len() as int) =~= f);
            assert(v.skip(v.len() as int) =~= Seq::<char>::empty());
            crate::num_text::lemma_dec_roundtrip(d);
        },
        Unit::Seconds(d) => {
            lemma_unit_roundtrip_suffix(d, 's');
        },
        Unit::Bytes(d) => {
            lemma_unit_roundtrip_suffix(d, 'b');
        },
        Unit::Counter(d) => {
            lemma_unit_roundtrip_suffix(d, 'c');
        },
        Unit::Percentage(d) => {
            lemma_unit_roundtrip_suffix(d, '%');
        },
    }
}

/// The scan cuts a decimal text with a one-character suffix exactly at
/// the suffix.
proof fn lemma_unit_roundtrip_suffix(d: Dec, suffix: char)
    requires
        d.wf(),
        !is_numchar(suffix),
        suffix != 'U' && suffix != 'u',
    ensures
        ({
            let v = spec_fmt_dec(d) + seq![suffix];
            spec_scan_num(v) == spec_fmt_dec(d).len() && v.take(spec_fmt_dec(d).len() as int)
                == spec_fmt_dec(d) && v.skip(spec_fmt_dec(d).len() as int) == seq![suffix]
                && spec_parse_dec(spec_fmt_dec(d)) == Ok::<Dec, crate::error::NumError>(d) && !(
            v.len() == 1 && (v[0] == 'U' || v[0] == 'u'))
        }),
{
    let f = spec_fmt_dec(d);
    let v = f + seq![suffix];
    crate::num_text::lemma_fmt_dec_chars(d);
    assert forall|j: int| 0 <= j < f.len() implies is_numchar(#[trigger] v[j]) by {
        assert(v[j] == f[j]);
    }
    assert(v[f.len() as int] == suffix);
    lemma_scan_num_is(v, f.len() as int);
    assert(v.take(f.len() as int) =~= f);
    assert(v.skip(f.len() as int) =~= seq![suffix]);
    crate::num_text::lemma_dec_roundtrip(d);
}

/// An optional threshold segment has no semicolons.
proof fn lemma_opt_range_chars(o: Option<ThresholdRange>)
    requires
        o matches Some(r) ==> r.wf(),
    ensures
        forall|j: int|
            0 <= j < spec_fmt_opt_range(o).len() ==> (#[trigger] spec_fmt_opt_range(o)[j])
                != ';',
        o is Some ==> spec_fmt_opt_range(o).len() >= 1,
{
    match o {
        None => {},
        Some(r) => {
            crate::range_text::lemma_fmt_range_chars(r);
            assert forall|j: int| 0 <= j < spec_fmt_opt_range(o).len() implies (
            #[trigger] spec_fmt_opt_range(o)[j]) != ';' by {
                assert(crate::range_text::is_rangechar(spec_fmt_range(r)[j]));
            }
        },
    }
}

/// An optional bound segment has no semicolons.
proof fn lemma_opt_dec_chars(o: Option<Dec>)
    requires
        o matches Some(d) ==> d.wf(),
    ensures
        forall|j: int|
            0 <= j < spec_fmt_opt_dec(o).len() ==> (#[trigger] spec_fmt_opt_dec(o)[j]) != ';',
        o is Some ==> spec_fmt_opt_dec(o).len() >= 1,
{
    match o {
        None => {},
        Some(d) => {
            crate::num_text::lemma_fmt_dec_chars(d);
            assert forall|j: int| 0 <= j < spec_fmt_opt_dec(o).len() implies (
            #[trigger] spec_fmt_opt_dec(o)[j]) != ';' by {
                assert(is_numchar(spec_fmt_dec(d)[j]));
            }
        },
    }
}

/// An optional threshold segment parses back to it.
proof fn lemma_opt_range_roundtrip(o: Option<ThresholdRange>)
    requires
        o matches Some(r) ==> r.wf(),
    ensures
        spec_parse_opt_range(
            if spec_fmt_opt_range(o).len() > 0 {
                Some(spec_fmt_opt_range(o))
            } else {
                None
            },
        ) == Ok::<Option<ThresholdRange>, ParseErr>(o),
{
    match o {
        None => {},
        Some(r) => {
            crate::range_text::lemma_fmt_range_chars(r);
            crate::range_text::lemma_range_roundtrip(r);
        },
    }
}

/// An optional bound segment parses back to it.
proof fn lemma_opt_dec_roundtrip(o: Option<Dec>)
    requires
        o matches Some(d) ==> d.wf(),
    ensures
        spec_parse_opt_dec(
            if spec_fmt_opt_dec(o).len() > 0 {
                Some(spec_fmt_opt_dec(o))
            } else {
                None
            },
        ) == Ok::<Option<Dec>, ParseErr>(o),
{
    match o {
        None => {},
        Some(d) => {
            crate::num_text::lemma_fmt_dec_chars(d);
            crate::num_text::lemma_dec_roundtrip(d);
        },
    }
}

proof fn lemma_head_parse(lab: Seq<char>, data: Seq<char>)
    requires
        lab.len() > 0,
        forall|i: int| 0 <= i < lab.len() ==> lab[i] != '\'' && lab[i] != '=',
    ensures
        ({
            let s = seq!['\''] + lab + seq!['\'', '='] + data;
            spec_find(s, '=') == Some(lab.len() as int + 2) && spec_parse_label(
                s.take(lab.len() as int + 2),
            ) == Ok::<Seq<char>, ParseErr>(lab) && s.skip(lab.len() as int + 3) == data
        }),
{
    let ll = lab.len() as int;
    let s = seq!['\''] + lab + seq!['\'', '='] + data;
    assert(s[ll + 2] == '=');
    assert forall|j: int| 0 <= j < ll + 2 implies s[j] != '=' by {
        if 1 <= j < ll + 1 {
            assert(s[j] == lab[j - 1]);
        } else if j == 0 {
            assert(s[j] == '\'');
        } else {
            assert(s[j] == '\'');
        }
    }
    crate::text::lemma_find_is_at(s, '=', ll + 2);
    let region = s.take(ll + 2);
    assert(region =~= seq!['\''] + lab + seq!['\'']);
    assert(region[0] == '\'');
    assert(region.last() == '\'');
    assert(!crate::text::is_space('\''));
    assert(crate::text::trim_start(region) == region);
    assert(crate::text::trim_end(region) == region);
    assert(spec_trim(region) == region);
    assert(spec_unquote(region) =~= lab);
    assert(spec_parse_label(region) == Ok::<Seq<char>, ParseErr>(lab));
    assert(s.skip(ll + 3) =~= data);
}

proof fn lemma_group_segs(ut: Seq<char>, w: Seq<char>, c: Seq<char>, mn: Seq<char>, mx: Seq<
    char,
>)
    requires
        forall|j: int| 0 <= j < ut.len() ==> ut[j] != ';',
        forall|j: int| 0 <= j < w.len() ==> w[j] != ';',
        forall|j: int| 0 <= j < c.len() ==> c[j] != ';',
        forall|j: int| 0 <= j < mn.len() ==> mn[j] != ';',
        forall|j: int| 0 <= j < mx.len() ==> mx[j] != ';',
    ensures
        split_semis(
            ut + seq![';'] + w + seq![';'] + c + seq![';'] + mn + seq![';'] + mx + seq![';'],
        ) == seq![ut, w, c, mn, mx, Seq::<char>::empty()],
{
    let data = ut + seq![';'] + w + seq![';'] + c + seq![';'] + mn + seq![';'] + mx + seq![';'];
    let tail1 = w + seq![';'] + c + seq![';'] + mn + seq![';'] + mx + seq![';'];
    let tail2 = c + seq![';'] + mn + seq![';'] + mx + seq![';'];
    let tail3 = mn + seq![';'] + mx + seq![';'];
    let tail4 = mx + seq![';'];
    assert(data =~= ut + seq![';'] + tail1);
    assert(tail1 =~= w + seq![';'] + tail2);
    assert(tail2 =~= c + seq![';'] + tail3);
    assert(tail3 =~= mn + seq![';'] + tail4);
    assert(tail4 =~= mx + seq![';'] + Seq::<char>::empty());
    crate::text::lemma_split_prefix(ut, tail1);
    crate::text::lemma_split_prefix(w, tail2);
    crate::text::lemma_split_prefix(c, tail3);
    crate::text::lemma_split_prefix(mn, tail4);
    crate::text::lemma_split_prefix(mx, Seq::empty());
    crate::text::lemma_split_no_semi(Seq::empty());
    assert(split_semis(data) =~~= seq![ut, w, c, mn, mx, Seq::<char>::empty()]);
}

proof fn lemma_fields_roundtrip_bare(pd: PerfdataView)
    requires
        pd.wf(),
        pd.warn is None && pd.crit is None && pd.min is None && pd.max is None,
    ensures
        spec_parse_fields(
            pd.label,
            pd.unit,
            seq![spec_fmt_unit(pd.unit), Seq::<char>::empty()],
        ) == Ok::<PerfdataView, ParseErr>(pd),
{
    let segs = seq![spec_fmt_unit(pd.unit), Seq::<char>::empty()];
    assert(seg_at(segs, 1) is None);
    assert(seg_at(segs, 2) is None);
    assert(seg_at(segs, 3) is None);
    assert(seg_at(segs, 4) is None);
}

proof fn lemma_fields_roundtrip_group(pd: PerfdataView)
    requires
        pd.wf(),
    ensures
        ({
            let segs = seq![
                spec_fmt_unit(pd.unit),
                spec_fmt_opt_range(pd.warn),
                spec_fmt_opt_range(pd.crit),
                spec_fmt_opt_dec(pd.min),
                spec_fmt_opt_dec(pd.max),
                Seq::<char>::empty(),
            ];
            spec_parse_fields(pd.label, pd.unit, segs) == Ok::<PerfdataView, ParseErr>(pd)
        }),
{
    let w = spec_fmt_opt_range(pd.warn);
    let c = spec_fmt_opt_range(pd.crit);
    let mn = spec_fmt_opt_dec(pd.min);
    let mx = spec_fmt_opt_dec(pd.max);
    let segs = seq![spec_fmt_unit(pd.unit), w, c, mn, mx, Seq::<char>::empty()];
    lemma_opt_range_chars(pd.warn);
    lemma_opt_range_chars(pd.crit);
    lemma_opt_dec_chars(pd.min);
    lemma_opt_dec_chars(pd.max);
    lemma_opt_range_roundtrip(pd.warn);
    lemma_opt_range_roundtrip(pd.crit);
    lemma_opt_dec_roundtrip(pd.min);
    lemma_opt_dec_roundtrip(pd.max);
    assert(seg_at(segs, 1) == (if w.len() > 0 {
        Some(w)
    } else {
        None
    }));
    assert(seg_at(segs, 2) == (if c.len() > 0 {
        Some(c)
    } else {
        None
    }));
    assert(seg_at(segs, 3) == (if mn.len() > 0 {
        Some(mn)
    } else {
        None
    }));
    assert(seg_at(segs, 4) == (if mx.len() > 0 {
        Some(mx)
    } else {
        None
    }));
}

#[verifier::rlimit(100)]
proof fn lemma_token_roundtrip_bare(pd: PerfdataView)
    requires
        pd.wf(),
        pd.label_ok(),
        pd.warn is None && pd.crit is None && pd.min is None && pd.max is None,
    ensures
        spec_parse_token(spec_fmt_token(pd)) == Ok::<PerfdataView, ParseErr>(pd),
{
    let s = spec_fmt_token(pd);
    let ut = spec_fmt_unit(pd.unit);
    let lab = pd.label;
    lemma_fmt_unit_chars(pd.unit);
    lemma_unit_roundtrip(pd.unit);
    assert forall|j: int| 0 <= j < ut.len() implies ut[j] != ';' by {
        assert(is_unitchar(ut[j]));
    }
    let data = ut + seq![';'];
    assert(s =~= seq!['\''] + lab + seq!['\'', '='] + data);
    lemma_head_parse(lab, data);
    assert(data =~= ut + seq![';'] + Seq::<char>::empty());
    crate::text::lemma_split_prefix(ut, Seq::empty());
    crate::text::lemma_split_no_semi(Seq::empty());
    let segs = split_semis(data);
    assert(segs =~~= seq![ut, Seq::<char>::empty()]);
    assert(seg_at(segs, 0) == Some(ut));
    lemma_fields_roundtrip_bare(pd);
}

#[verifier::rlimit(100)]
proof fn lemma_token_roundtrip_group(pd: PerfdataView)
    requires
        pd.wf(),
        pd.label_ok(),
        pd.warn is Some || pd.crit is Some || pd.min is Some || pd.max is Some,
    ensures
        spec_parse_token(spec_fmt_token(pd)) == Ok::<PerfdataView, ParseErr>(pd),
{
    let s = spec_fmt_token(pd);
    let ut = spec_fmt_unit(pd.unit);
    let lab = pd.label;
    lemma_fmt_unit_chars(pd.unit);
    lemma_unit_roundtrip(pd.unit);
    assert forall|j: int| 0 <= j < ut.len() implies ut[j] != ';' by {
        assert(is_unitchar(ut[j]));
    }
    let w = spec_fmt_opt_range(pd.warn);
    let c = spec_fmt_opt_range(pd.crit);
    let mn = spec_fmt_opt_dec(pd.min);
    let mx = spec_fmt_opt_dec(pd.max);
    lemma_opt_range_chars(pd.warn);
    lemma_opt_range_chars(pd.crit);
    lemma_opt_dec_chars(pd.min);
    lemma_opt_dec_chars(pd.max);
    let data = ut + seq![';'] + w + seq![';'] + c + seq![';'] + mn + seq![';'] + mx + seq![';'];
    assert(s =~= seq!['\''] + lab + seq!['\'', '='] + data);
    lemma_head_parse(lab, data);
    lemma_group_segs(ut, w, c, mn, mx);
    let segs = split_semis(data);
    assert(segs == seq![ut, w, c, mn, mx, Seq::<char>::empty()]);
    assert(seg_at(segs, 0) == Some(ut));
    lemma_fields_roundtrip_group(pd);
}

/// Formatting a well-formed record with a round-trippable label and
/// parsing the text back gives exactly the original record: the label,
/// the unit-tagged value and all four optional fields survive.
pub proof fn lemma_token_roundtrip(pd: PerfdataView)
    requires
        pd.wf(),
        pd.label_ok(),
    ensures
        spec_parse_token(spec_fmt_token(pd)) == Ok::<PerfdataView, ParseErr>(pd),
{
    if pd.warn is Some || pd.crit is Some || pd.min is Some || pd.max is Some {
        lemma_token_roundtrip_group(pd);
    } else {
        lemma_token_roundtrip_bare(pd);
    }
}

impl Perfdata {
    /// Parses one measurement token, verified against
    /// [`spec_parse_token`].
    #[verifier::loop_isolation(false)]
    #[verifier::rlimit(100)]
    pub fn parse(s: &str) -> (r: Result<Perfdata, PerfdataParseError>)
        ensures
            token_res_view(r) == spec_parse_token(s@),
            r matches Ok(p) ==> p.wf(),
    {
        let n = s.unicode_len();
        proof {
            assert(s@.skip(0) =~= s@);
        }
        let eq = match find_char_from(s, 0, '=') {
            Some(i) => i,
            None => {
                return Err(PerfdataParseError::MissingEqualsSign);
            },
        };
        proof {
            crate::text::lemma_find_props(s@, '=');
            assert(s@.subrange(0, eq as int) =~= s@.take(eq as int));
        }
        let label = match parse_label(s.substring_char(0, eq)) {
            Ok(l) => l,
            Err(e) => {
                return Err(e);
            },
        };
        let data = s.substring_char(eq + 1, n);
        proof {
            assert(data@ =~= s@.skip(eq + 1));
        }
        let segs = split_semis_str(data);
        let ghost segsv = split_semis(s@.skip(eq + 1));
        proof {
            assert(segs@.map_values(|x: String| x@) == segsv);
            assert(segsv.len() >= 1) by {
                crate::text::lemma_find_props(data@, ';');
            }
            assert(segs@.len() == segsv.len());
            assert forall|j: int| 0 <= j < segs@.len() implies segs@[j]@ == #[trigger] segsv[j] by {
                assert(segsv[j] == segs@.map_values(|x: String| x@)[j]);
            }
        }
        if segs[0].as_str().unicode_len() == 0 {
            return Err(PerfdataParseError::MissingValue);
        }
        let unit = match parse_unit_seg(segs[0].as_str()) {
            Ok(u) => u,
            Err(e) => {
                return Err(e);
            },
        };
        let warn: Option<ThresholdRange> = if segs.len() > 1 && segs[1].as_str().unicode_len()
            > 0 {
            match ThresholdRange::from_str(segs[1].as_str()) {
                Ok(w) => Some(w),
                Err(e) => {
                    return Err(e);
                },
            }
        } else {
            None
        };
        let crit: Option<ThresholdRange> = if segs.len() > 2 && segs[2].as_str().unicode_len()
            > 0 {
            match ThresholdRange::from_str(segs[2].as_str()) {
                Ok(c) => Some(c),
                Err(e) => {
                    return Err(e);
                },
            }
        } else {
            None
        };
        let min: Option<Dec> = if segs.len() > 3 && segs[3].as_str().unicode_len() > 0 {
            match crate::num_text::parse_dec_str(segs[3].as_str()) {
                Ok(d) => Some(d),
                Err(e) => {
                    return Err(PerfdataParseError::ParseValueError(e));
                },
            }
        } else {
            None
        };
        let max: Option<Dec> = if segs.len() > 4 && segs[4].as_str().unicode_len() > 0 {
            match crate::num_text::parse_dec_str(segs[4].as_str()) {
                Ok(d) => Some(d),
                Err(e) => {
                    return Err(PerfdataParseError::ParseValueError(e));
                },
            }
        } else {
            None
        };
        Ok(Perfdata { label, unit, warn, crit, min, max })
    }

    /// The canonical text of this record.
    #[verifier::rlimit(30)]
    pub fn render(&self) -> (r: String)
        requires
            self.wf(),
        ensures
            r@ == spec_fmt_token(self@),
    {
        let mut out = String::new();
        proof {
            reveal_strlit("'");
            reveal_strlit("'=");
            reveal_strlit(";");
        }
        out.append("'");
        out.append(self.label.as_str());
        out.append("'=");
        match self.unit {
            Unit::Unitless(d) => {
                crate::num_text::append_dec(&mut out, &d);
            },
            Unit::Percentage(d) => {
                crate::num_text::append_dec(&mut out, &d);
                proof {
                    reveal_strlit("%");
                }
                out.append("%");
            },
            Unit::Seconds(d) => {
                crate::num_text::append_dec(&mut out, &d);
                proof {
                    reveal_strlit("s");
                }
                out.append("s");
            },
            Unit::Bytes(d) => {
                crate::num_text::append_dec(&mut out, &d);
                proof {
                    reveal_strlit("b");
                }
                out.append("b");
            },
            Unit::Counter(d) => {
                crate::num_text::append_dec(&mut out, &d);
                proof {
                    reveal_strlit("c");
                }
                out.append("c");
            },
            Unit::Undetermined => {
                proof {
                    reveal_strlit("U");
                }
                out.append("U");
            },
        }
        proof {
            assert(out@ =~= seq!['\''] + self@.label + seq!['\'', '='] + spec_fmt_unit(
                self@.unit,
            ));
        }
        out.append(";");
        proof {
            assert(out@ =~= seq!['\''] + self@.label + seq!['\'', '='] + spec_fmt_unit(
                self@.unit,
            ) + seq![';']);
        }
        if self.warn.is_some() || self.crit.is_some() || self.min.is_some()
            || self.max.is_some() {
            match &self.warn {
                Some(w) => crate::range_text::append_range(&mut out, w),
                None => (),
            }
            out.append(";");
            match &self.crit {
                Some(c) => crate::range_text::append_range(&mut out, c),
                None => (),
            }
            out.append(";");
            match &self.min {
                Some(d) => crate::num_text::append_dec(&mut out, d),
                None => (),
            }
            out.append(";");
            match &self.max {
                Some(d) => crate::num_text::append_dec(&mut out, d),
                None => (),
            }
            out.append(";");
        }
        proof {
            assert(out@ =~= spec_fmt_token(self@));
        }
        out
    }
}

} // verus!
