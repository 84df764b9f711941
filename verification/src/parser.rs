use crate::error::{ParseErr, PerfdataParseError};
use crate::perfdata::{Perfdata, PerfdataView};
use crate::text::{find_char_from, spec_find, spec_trim, trim_str};
use crate::token_text::{spec_parse_token, token_res_view};
use vstd::prelude::*;

verus! {

/// Cutting a trimmed input into token texts. Labels may contain spaces,
/// so a token runs to the first space after its `=`; labels cannot
/// contain `=`, so the next `=` always belongs to the next token. A
/// non-empty remainder without an `=` is the final token; handed to the
/// token parser it reports the missing equals sign.
pub open spec fn spec_split_tokens(rem: Seq<char>) -> Seq<Seq<char>>
    decreases rem.len(),
{
    match spec_find(rem, '=') {
        None => if rem.len() > 0 {
            seq![rem]
        } else {
            Seq::empty()
        },
        Some(eq) => match spec_find(rem.skip(eq), ' ') {
            None => seq![rem],
            Some(di) => if 1 <= eq + di && eq + di <= rem.len() {
                seq![rem.take(eq + di)] + spec_split_tokens(rem.skip(eq + di))
            } else {
                seq![rem]
            },
        },
    }
}

/// Parsing a list: trim, cut into tokens, and parse each token on its
/// own, in input order. One bad token does not disturb its neighbours;
/// trailing text without an `=` yields a final failed result.
pub open spec fn spec_parse_list(s: Seq<char>) -> Seq<Result<PerfdataView, ParseErr>> {
    spec_split_tokens(spec_trim(s)).map_values(|t: Seq<char>| spec_parse_token(t))
}

impl Perfdata {
    /// Parses a space-separated list of measurement tokens, each to its
    /// own result, in input order; verified against
    /// [`spec_parse_list`].
    #[verifier::loop_isolation(false)]
    #[verifier::rlimit(100)]
    pub fn parse_from_list(s: &str) -> (v: Vec<Result<Perfdata, PerfdataParseError>>)
        ensures
            v@.map_values(|r: Result<Perfdata, PerfdataParseError>| token_res_view(r))
                == spec_parse_list(s@),
            forall|i: int|
                0 <= i < v@.len() ==> (#[trigger] v@[i] matches Ok(p) ==> p.wf()),
    {
        let t = trim_str(s);
        let nt = t.unicode_len();
        let mut out: Vec<Result<Perfdata, PerfdataParseError>> = Vec::new();
        let mut pos: usize = 0;
        proof {
            assert(t@.skip(0) =~= t@);
            assert(out@.map_values(|r: Result<Perfdata, PerfdataParseError>| token_res_view(r))
                + spec_split_tokens(t@).map_values(|x: Seq<char>| spec_parse_token(x))
                =~~= spec_parse_list(s@));
        }
        loop
            invariant
                pos <= nt,
                out@.map_values(|r: Result<Perfdata, PerfdataParseError>| token_res_view(r))
                    + spec_split_tokens(t@.skip(pos as int)).map_values(
                    |x: Seq<char>| spec_parse_token(x),
                ) == spec_parse_list(s@),
                forall|i: int|
                    0 <= i < out@.len() ==> (#[trigger] out@[i] matches Ok(p) ==> p.wf()),
            decreases nt - pos,
        {
            let ghost rem = t@.skip(pos as int);
            let ghost out0 = out@;
            match find_char_from(t, pos, '=') {
                None => {
                    if pos == nt {
                        proof {
                            assert(spec_split_tokens(rem) =~= Seq::<Seq<char>>::empty());
                            assert(out@.map_values(
                                |r: Result<Perfdata, PerfdataParseError>| token_res_view(r),
                            ) + spec_split_tokens(rem).map_values(
                                |x: Seq<char>| spec_parse_token(x),
                            ) =~~= out@.map_values(
                                |r: Result<Perfdata, PerfdataParseError>| token_res_view(r),
                            ));
                        }
                        return out;
                    }
                    // A non-empty remainder without an `=` is the final
                    // token; its parse reports the missing equals sign.
                    proof {
                        assert(spec_split_tokens(rem) =~= seq![rem]);
                        assert(rem =~= t@.subrange(pos as int, nt as int));
                    }
                    let tok = t.substring_char(pos, nt);
                    out.push(Perfdata::parse(tok));
                    proof {
                        assert(out@.map_values(
                            |r: Result<Perfdata, PerfdataParseError>| token_res_view(r),
                        ) =~~= out0.map_values(
                            |r: Result<Perfdata, PerfdataParseError>| token_res_view(r),
                        ) + spec_split_tokens(rem).map_values(
                            |x: Seq<char>| spec_parse_token(x),
                        ));
                    }
                    return out;
                },
                Some(eqa) => {
                    proof {
                        crate::text::lemma_find_props(rem, '=');
                        assert(spec_find(rem, '=') matches Some(k) && eqa == pos + k);
                    }
                    let ghost eq = eqa - pos;
                    proof {
                        assert(rem.skip(eq) =~= t@.skip(eqa as int));
                    }
                    match find_char_from(t, eqa, ' ') {
                        Some(sp) => {
                            proof {
                                crate::text::lemma_find_props(t@.skip(eqa as int), ' ');
                                assert(spec_find(rem.skip(eq), ' ') matches Some(k2) && sp
                                    == eqa + k2);
                                assert(t@[eqa as int] == rem.skip(eq)[0]);
                                assert(sp > eqa);
                                assert(rem.take(eq + (sp - eqa)) =~= t@.subrange(
                                    pos as int,
                                    sp as int,
                                ));
                                assert(rem.skip(eq + (sp - eqa)) =~= t@.skip(sp as int));
                            }
                            let tok = t.substring_char(pos, sp);
                            out.push(Perfdata::parse(tok));
                            proof {
                                assert(out@.map_values(
                                    |r: Result<Perfdata, PerfdataParseError>| token_res_view(r),
                                ) + spec_split_tokens(t@.skip(sp as int)).map_values(
                                    |x: Seq<char>| spec_parse_token(x),
                                ) =~~= out0.map_values(
                                    |r: Result<Perfdata, PerfdataParseError>| token_res_view(r),
                                ) + spec_split_tokens(rem).map_values(
                                    |x: Seq<char>| spec_parse_token(x),
                                ));
                            }
                            pos = sp;
                        },
                        None => {
                            proof {
                                crate::text::lemma_find_props(t@.skip(eqa as int), ' ');
                                assert(spec_split_tokens(rem) =~= seq![rem]);
                                assert(rem =~= t@.subrange(pos as int, nt as int));
                            }
                            let tok = t.substring_char(pos, nt);
                            out.push(Perfdata::parse(tok));
                            proof {
                                assert(out@.map_values(
                                    |r: Result<Perfdata, PerfdataParseError>| token_res_view(r),
                                ) =~~= out0.map_values(
                                    |r: Result<Perfdata, PerfdataParseError>| token_res_view(r),
                                ) + spec_split_tokens(rem).map_values(
                                    |x: Seq<char>| spec_parse_token(x),
                                ));
                            }
                            return out;
                        },
                    }
                },
            }
        }
    }
}

} // verus!
