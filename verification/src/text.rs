use vstd::prelude::*;

verus! {

/// The Unicode white-space characters, as `str::trim` sees them.
pub open spec fn is_space(c: char) -> bool {
    let u = c as int;
    ||| u == 0x09
    ||| u == 0x0A
    ||| u == 0x0B
    ||| u == 0x0C
    ||| u == 0x0D
    ||| u == 0x20
    ||| u == 0x85
    ||| u == 0xA0
    ||| u == 0x1680
    ||| (0x2000 <= u && u <= 0x200A)
    ||| u == 0x2028
    ||| u == 0x2029
    ||| u == 0x202F
    ||| u == 0x205F
    ||| u == 0x3000
}

/// Runtime test for [`is_space`].
pub fn char_is_space(c: char) -> (r: bool)
    ensures
        r == is_space(c),
{
    let u = c as u32;
    u == 0x09 || u == 0x0A || u == 0x0B || u == 0x0C || u == 0x0D || u == 0x20 || u == 0x85
        || u == 0xA0 || u == 0x1680 || (0x2000 <= u && u <= 0x200A) || u == 0x2028 || u == 0x2029
        || u == 0x202F || u == 0x205F || u == 0x3000
}

/// An ASCII decimal digit.
pub open spec fn is_digit_char(c: char) -> bool {
    48 <= c as int && c as int <= 57
}

/// Runtime test for [`is_digit_char`].
pub fn char_is_digit(c: char) -> (r: bool)
    ensures
        r == is_digit_char(c),
{
    let u = c as u32;
    48 <= u && u <= 57
}

/// A character the numeric scan of a value segment accepts: a digit, a
/// decimal point or a minus sign.
pub open spec fn is_numchar(c: char) -> bool {
    is_digit_char(c) || c == '.' || c == '-'
}

/// Runtime test for [`is_numchar`].
pub fn char_is_numchar(c: char) -> (r: bool)
    ensures
        r == is_numchar(c),
{
    char_is_digit(c) || c == '.' || c == '-'
}

/// The index of the first occurrence of `c` in `s`, if any.
pub open spec fn spec_find(s: Seq<char>, c: char) -> Option<int>
    decreases s.len(),
{
    if s.len() == 0 {
        None
    } else if s[0] == c {
        Some(0)
    } else {
        match spec_find(s.skip(1), c) {
            Some(i) => Some(i + 1),
            None => None,
        }
    }
}

/// What [`spec_find`] returns: the first index holding `c`, or nothing
/// when `c` does not occur.
pub proof fn lemma_find_props(s: Seq<char>, c: char)
    ensures
        match spec_find(s, c) {
            Some(i) => 0 <= i < s.len() && s[i] == c && forall|j: int| 0 <= j < i ==> s[j] != c,
            None => forall|j: int| 0 <= j < s.len() ==> s[j] != c,
        },
    decreases s.len(),
{
    if s.len() > 0 && s[0] != c {
        lemma_find_props(s.skip(1), c);
        match spec_find(s.skip(1), c) {
            Some(i) => {
                assert(s[i + 1] == s.skip(1)[i]);
                assert forall|j: int| 0 <= j < i + 1 implies s[j] != c by {
                    if j > 0 {
                        assert(s[j] == s.skip(1)[j - 1]);
                    }
                }
            },
            None => {
                assert forall|j: int| 0 <= j < s.len() implies s[j] != c by {
                    if j > 0 {
                        assert(s[j] == s.skip(1)[j - 1]);
                    }
                }
            },
        }
    }
}

/// A first-occurrence witness pins [`spec_find`] down.
pub proof fn lemma_find_is_at(s: Seq<char>, c: char, k: int)
    requires
        0 <= k < s.len(),
        s[k] == c,
        forall|j: int| 0 <= j < k ==> s[j] != c,
    ensures
        spec_find(s, c) == Some(k),
{
    lemma_find_props(s, c);
    match spec_find(s, c) {
        Some(i) => {
            if i < k {
                assert(s[i] == c);
            } else if i > k {
                assert(s[k] != c);
            }
        },
        None => {
            assert(s[k] != c);
        },
    }
}

/// Absence of `c` everywhere pins [`spec_find`] to `None`.
pub proof fn lemma_find_is_none(s: Seq<char>, c: char)
    requires
        forall|j: int| 0 <= j < s.len() ==> s[j] != c,
    ensures
        spec_find(s, c) is None,
{
    lemma_find_props(s, c);
    if let Some(i) = spec_find(s, c) {
        assert(s[i] != c);
    }
}

/// Finding in a concatenation: the left part is searched first.
pub proof fn lemma_find_concat(a: Seq<char>, b: Seq<char>, c: char)
    ensures
        spec_find(a + b, c) == match spec_find(a, c) {
            Some(i) => Some(i),
            None => match spec_find(b, c) {
                Some(j) => Some(a.len() + j),
                None => None::<int>,
            },
        },
{
    lemma_find_props(a, c);
    lemma_find_props(b, c);
    match spec_find(a, c) {
        Some(i) => {
            assert((a + b)[i] == c);
            lemma_find_is_at(a + b, c, i);
        },
        None => {
            match spec_find(b, c) {
                Some(j) => {
                    assert((a + b)[a.len() + j] == c);
                    assert forall|x: int| 0 <= x < a.len() + j implies (a + b)[x] != c by {
                        if x < a.len() {
                            assert(a[x] != c);
                        } else {
                            assert(b[x - a.len()] != c);
                        }
                    }
                    lemma_find_is_at(a + b, c, a.len() + j);
                },
                None => {
                    assert forall|x: int| 0 <= x < (a + b).len() implies (a + b)[x] != c by {
                        if x < a.len() {
                            assert(a[x] != c);
                        } else {
                            assert(b[x - a.len()] != c);
                        }
                    }
                    lemma_find_is_none(a + b, c);
                },
            }
        },
    }
}

/// The first occurrence of `c` in `s` at or after `from`, as an absolute
/// index.
pub fn find_char_from(s: &str, from: usize, c: char) -> (r: Option<usize>)
    requires
        from <= s@.len(),
    ensures
        r == match spec_find(s@.skip(from as int), c) {
            Some(i) => Some((from + i) as usize),
            None => None::<usize>,
        },
{
    let n = s.unicode_len();
    let mut i = from;
    while i < n
        invariant
            from <= i <= n,
            n == s@.len(),
            forall|j: int| from <= j < i ==> s@[j] != c,
        decreases n - i,
    {
        if s.get_char(i) == c {
            proof {
                assert forall|j: int| 0 <= j < i - from implies s@.skip(from as int)[j] != c by {
                    assert(s@.skip(from as int)[j] == s@[j + from]);
                }
                lemma_find_is_at(s@.skip(from as int), c, i - from);
            }
            return Some(i);
        }
        i = i + 1;
    }
    proof {
        assert forall|j: int| 0 <= j < s@.skip(from as int).len() implies s@.skip(from as int)[j]
            != c by {
            assert(s@.skip(from as int)[j] == s@[j + from]);
        }
        lemma_find_is_none(s@.skip(from as int), c);
    }
    None
}

/// `s` cut at every `;`, in order. The separators are consumed; `n`
/// semicolons give `n + 1` pieces, empty pieces included.
pub open spec fn split_semis(s: Seq<char>) -> Seq<Seq<char>>
    decreases s.len(),
{
    match spec_find(s, ';') {
        None => seq![s],
        Some(i) => if 0 <= i < s.len() {
            seq![s.take(i)] + split_semis(s.skip(i + 1))
        } else {
            seq![s]
        },
    }
}

/// A piece without semicolons is returned whole.
pub proof fn lemma_split_no_semi(a: Seq<char>)
    requires
        forall|j: int| 0 <= j < a.len() ==> a[j] != ';',
    ensures
        split_semis(a) == seq![a],
{
    lemma_find_is_none(a, ';');
}

/// Splitting one semicolon-free piece off the front.
pub proof fn lemma_split_prefix(a: Seq<char>, rest: Seq<char>)
    requires
        forall|j: int| 0 <= j < a.len() ==> a[j] != ';',
    ensures
        split_semis(a + seq![';'] + rest) == seq![a] + split_semis(rest),
{
    let s = a + seq![';'] + rest;
    lemma_find_is_none(a, ';');
    lemma_find_concat(a, seq![';'] + rest, ';');
    lemma_find_is_at(seq![';'] + rest, ';', 0);
    assert(a + (seq![';'] + rest) =~= s);
    assert(spec_find(s, ';') == Some(a.len() as int));
    assert(s.take(a.len() as int) =~= a);
    assert(s.skip(a.len() as int + 1) =~= rest);
}

/// `str::split` on `;`, collecting the pieces; verified against
/// [`split_semis`].
pub fn split_semis_str(s: &str) -> (v: Vec<String>)
    ensures
        v@.map_values(|x: String| x@) == split_semis(s@),
{
    let n = s.unicode_len();
    let mut out: Vec<String> = Vec::new();
    let mut pos: usize = 0;
    proof {
        assert(s@.skip(0) =~= s@);
        assert(out@.map_values(|x: String| x@) + split_semis(s@) =~~= split_semis(s@));
    }
    loop
        invariant
            pos <= n,
            n == s@.len(),
            split_semis(s@) == out@.map_values(|x: String| x@) + split_semis(
                s@.skip(pos as int),
            ),
        decreases n - pos,
    {
        let ghost tail = s@.skip(pos as int);
        match find_char_from(s, pos, ';') {
            Some(i) => {
                proof {
                    lemma_find_props(tail, ';');
                    assert(spec_find(tail, ';') matches Some(k) && i == pos + k);
                }
                let seg = s.substring_char(pos, i);
                let ghost out0 = out@;
                out.push(String::from_str(seg));
                proof {
                    assert(spec_find(tail, ';') == Some(i - pos));
                    assert(tail.take(i - pos) =~= s@.subrange(pos as int, i as int));
                    assert(tail.skip(i - pos + 1) =~= s@.skip(i + 1));
                    assert(split_semis(tail) == seq![seg@] + split_semis(s@.skip(i + 1)));
                    assert(out@.map_values(|x: String| x@) + split_semis(s@.skip(i + 1)) =~~= out0.map_values(
                        |x: String| x@,
                    ) + split_semis(tail));
                }
                pos = i + 1;
            },
            None => {
                let seg = s.substring_char(pos, n);
                out.push(String::from_str(seg));
                proof {
                    assert(tail =~= s@.subrange(pos as int, n as int));
                    assert(split_semis(tail) == seq![seg@]);
                }
                return out;
            },
        }
    }
}

/// `s` without leading white space.
pub open spec fn trim_start(s: Seq<char>) -> Seq<char>
    decreases s.len(),
{
    if s.len() > 0 && is_space(s[0]) {
        trim_start(s.skip(1))
    } else {
        s
    }
}

/// `s` without trailing white space.
pub open spec fn trim_end(s: Seq<char>) -> Seq<char>
    decreases s.len(),
{
    if s.len() > 0 && is_space(s.last()) {
        trim_end(s.drop_last())
    } else {
        s
    }
}

/// `s` without leading and trailing white space, as `str::trim` gives it.
pub open spec fn spec_trim(s: Seq<char>) -> Seq<char> {
    trim_end(trim_start(s))
}

proof fn lemma_trim_start_at(s: Seq<char>, k: int)
    requires
        0 <= k <= s.len(),
        forall|j: int| 0 <= j < k ==> is_space(s[j]),
        k < s.len() ==> !is_space(s[k]),
    ensures
        trim_start(s) == s.skip(k),
    decreases k,
{
    if k == 0 {
        assert(s.skip(0) =~= s);
    } else {
        assert(is_space(s[0]));
        lemma_trim_start_at(s.skip(1), k - 1);
        assert(s.skip(1).skip(k - 1) =~= s.skip(k));
    }
}

proof fn lemma_trim_end_at(s: Seq<char>, k: int)
    requires
        0 <= k <= s.len(),
        forall|j: int| k <= j < s.len() ==> is_space(s[j]),
        k > 0 ==> !is_space(s[k - 1]),
    ensures
        trim_end(s) == s.take(k),
    decreases s.len() - k,
{
    if k == s.len() {
        if s.len() > 0 && is_space(s.last()) {
            lemma_trim_end_at(s.drop_last(), k - 1);
            assert(s.drop_last().take(k - 1) =~= s.take(k - 1));
            assert(s.take(k - 1) =~= s.take(k).drop_last());
            assert(trim_end(s) == s.take(k).drop_last());
            assert(!is_space(s[k - 1]));
            assert(is_space(s.last()));
        } else {
            assert(s.take(k) =~= s);
        }
    } else {
        assert(is_space(s.last()));
        lemma_trim_end_at(s.drop_last(), k);
        assert(s.drop_last().take(k) =~= s.take(k));
    }
}

/// `str::trim`, verified against [`spec_trim`].
pub fn trim_str(s: &str) -> (r: &str)
    ensures
        r@ == spec_trim(s@),
{
    let n = s.unicode_len();
    let mut a: usize = 0;
    while a < n && char_is_space(s.get_char(a))
        invariant
            a <= n,
            n == s@.len(),
            forall|j: int| 0 <= j < a ==> is_space(s@[j]),
        decreases n - a,
    {
        a = a + 1;
    }
    proof {
        lemma_trim_start_at(s@, a as int);
    }
    if a == n {
        let r = s.substring_char(n, n);
        proof {
            assert(r@ =~= spec_trim(s@));
        }
        return r;
    }
    let mut b: usize = n;
    while b > a && char_is_space(s.get_char(b - 1))
        invariant
            a <= b <= n,
            n == s@.len(),
            forall|j: int| b <= j < n ==> is_space(s@[j]),
        decreases b,
    {
        b = b - 1;
    }
    // The character at `a` is not white space, so the scan from the right
    // stops at or after it.
    proof {
        assert(!is_space(s@[a as int]));
        assert(b > a);
        assert forall|j: int| b - a <= j < s@.skip(a as int).len() implies is_space(
            s@.skip(a as int)[j],
        ) by {
            assert(s@.skip(a as int)[j] == s@[j + a]);
        }
        assert(s@.skip(a as int)[b - a - 1] == s@[b - 1]);
        lemma_trim_end_at(s@.skip(a as int), b - a);
        assert(s@.skip(a as int).take(b - a) =~= s@.subrange(a as int, b as int));
    }
    s.substring_char(a, b)
}

} // verus!
