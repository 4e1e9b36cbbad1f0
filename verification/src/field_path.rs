//! The dotted path language: `"a.b"` names field `b` inside field `a`;
//! the marker token `[]` followed by an integer token names an array
//! element, as in `"a.[].0"`. Empty segments are tolerated and dropped,
//! so `"."` parses to the empty selector list.

use vstd::prelude::*;

verus! {

use vstd::string::StrSliceExecFns;
use vstd::string::StringExecFns;
use crate::Error;
use crate::text::all_digits;
use crate::text::dec_val;
use crate::text::parse_u64;
use crate::text::split_seq;
use crate::text::str_eq_str;
use crate::text::strs_view;
use crate::text::split_char;

/// One step of a field path: a named-field projection or an array-index
/// projection.
#[derive(Debug)]
pub enum Selector {
    Field(String),
    IntoArray(usize),
}

#[verifier::ext_equal]
pub enum SelectorView {
    Field(Seq<char>),
    IntoArray(usize),
}

impl View for Selector {
    type V = SelectorView;

    open spec fn view(&self) -> SelectorView {
        match self {
            Selector::Field(s) => SelectorView::Field(s@),
            Selector::IntoArray(i) => SelectorView::IntoArray(*i),
        }
    }
}

pub open spec fn selectors_view(v: Seq<Selector>) -> Seq<SelectorView> {
    v.map_values(|s: Selector| s@)
}

/// The marker token that introduces an array index.
pub open spec fn array_marker() -> Seq<char> {
    "[]"@
}

/// The non-empty tokens of a path: split on `.`, empty segments dropped.
pub open spec fn path_tokens(path: Seq<char>) -> Seq<Seq<char>> {
    split_seq(path, '.').filter(|t: Seq<char>| t.len() > 0)
}

/// An array-index token: a digit string whose value fits in `u32`.
pub open spec fn is_index_token(t: Seq<char>) -> bool {
    t.len() > 0 && all_digits(t) && dec_val(t) <= u32::MAX
}

/// Turns the token list into selectors: `[]` must be followed by an
/// index token, consuming both; any other token names a field.
pub open spec fn selectors_of_tokens(tokens: Seq<Seq<char>>) -> Result<Seq<SelectorView>, Error>
    decreases tokens.len(),
{
    if tokens.len() == 0 {
        Ok(Seq::empty())
    } else if tokens[0] == array_marker() {
        if tokens.len() == 1 {
            Err(Error::InvalidPath)
        } else if !is_index_token(tokens[1]) {
            Err(Error::InvalidPath)
        } else {
            match selectors_of_tokens(tokens.skip(2)) {
                Ok(rest) => Ok(
                    seq![SelectorView::IntoArray(dec_val(tokens[1]) as usize)] + rest,
                ),
                Err(e) => Err(e),
            }
        }
    } else {
        match selectors_of_tokens(tokens.skip(1)) {
            Ok(rest) => Ok(seq![SelectorView::Field(tokens[0])] + rest),
            Err(e) => Err(e),
        }
    }
}

/// What parsing a path yields: its selectors, or `InvalidPath`.
pub open spec fn parse_path_spec(path: Seq<char>) -> Result<Seq<SelectorView>, Error> {
    selectors_of_tokens(path_tokens(path))
}

/// A parsed path: its selector chain, and the original path string, kept
/// verbatim because selection uses it as the output key.
#[derive(Debug)]
pub struct FieldPath {
    pub selectors: Vec<Selector>,
    pub path_str: String,
}

impl FieldPath {
    pub open spec fn wf(&self, path: Seq<char>) -> bool {
        self.path_str@ == path && Ok::<Seq<SelectorView>, Error>(selectors_view(self.selectors@))
            == parse_path_spec(path)
    }

    /// Parses a dotted path. Succeeds exactly when every `[]` token is
    /// followed by a digit token that fits in `u32`.
    pub fn parse(path: &str) -> (r: Result<FieldPath, Error>)
        ensures
            match r {
                Ok(fp) => fp.wf(path@),
                Err(e) => parse_path_spec(path@) == Err::<Seq<SelectorView>, Error>(e),
            },
    {
        let raw = split_char(path, '.');
        let mut tokens: Vec<String> = Vec::new();
        let mut i: usize = 0;
        while i < raw.len()
            invariant
                i <= raw.len(),
                strs_view(raw@) == split_seq(path@, '.'),
                strs_view(tokens@) == strs_view(raw@).take(i as int).filter(
                    |t: Seq<char>| t.len() > 0,
                ),
            decreases raw.len() - i,
        {
            proof {
                assert(strs_view(raw@).take(i as int + 1).drop_last() =~= strs_view(raw@).take(
                    i as int,
                ));
                assert(strs_view(raw@).take(i as int + 1).last() == raw@[i as int]@);
                reveal(Seq::filter);
            }
            if raw[i].as_str().unicode_len() > 0 {
                tokens.push(raw[i].clone());
                proof {
                    assert(strs_view(tokens@) =~= strs_view(raw@).take(i as int + 1).filter(
                        |t: Seq<char>| t.len() > 0,
                    ));
                }
            } else {
                proof {
                    assert(strs_view(tokens@) =~= strs_view(raw@).take(i as int + 1).filter(
                        |t: Seq<char>| t.len() > 0,
                    ));
                }
            }
            i += 1;
        }
        proof {
            assert(strs_view(raw@).take(raw@.len() as int) =~= strs_view(raw@));
            assert(strs_view(tokens@) == path_tokens(path@));
        }
        let mut selectors: Vec<Selector> = Vec::new();
        proof {
            assert(strs_view(tokens@).skip(0) =~= strs_view(tokens@));
            assert(selectors_view(selectors@) =~= Seq::<SelectorView>::empty());
            if let Ok(all) = selectors_of_tokens(strs_view(tokens@)) {
                assert(all =~= selectors_view(selectors@) + all);
            }
        }
        let mut j: usize = 0;
        while j < tokens.len()
            invariant
                j <= tokens.len(),
                strs_view(tokens@) == path_tokens(path@),
                selectors_of_tokens(strs_view(tokens@)) matches Ok(all) ==> {
                    &&& selectors_of_tokens(strs_view(tokens@).skip(j as int)) matches Ok(rest)
                    &&& all == selectors_view(selectors@) + rest
                },
                selectors_of_tokens(strs_view(tokens@)) matches Err(e)
                    ==> selectors_of_tokens(strs_view(tokens@).skip(j as int)) == Err::<
                    Seq<SelectorView>,
                    Error,
                >(e),
            decreases tokens.len() - j,
        {
            let ghost pre = selectors_view(selectors@);
            let ghost rest = strs_view(tokens@).skip(j as int);
            if str_eq_str(tokens[j].as_str(), "[]") {
                proof {
                    assert(rest[0] == array_marker());
                }
                if j + 1 == tokens.len() {
                    proof {
                        assert(rest.len() == 1);
                    }
                    return Err(Error::InvalidPath);
                }
                proof {
                    assert(rest[1] == strs_view(tokens@)[j as int + 1]);
                }
                match parse_u64(tokens[j + 1].as_str()) {
                    Some(n) if n <= u32::MAX as u64 => {
                        selectors.push(Selector::IntoArray(n as usize));
                        proof {
                            assert(is_index_token(rest[1]));
                            assert(rest.skip(2) =~= strs_view(tokens@).skip(j as int + 2));
                            assert(selectors_view(selectors@) =~= pre + seq![
                                SelectorView::IntoArray(dec_val(rest[1]) as usize),
                            ]);
                            if let Ok(all) = selectors_of_tokens(strs_view(tokens@)) {
                                if let Ok(r2) = selectors_of_tokens(rest.skip(2)) {
                                    assert(all =~= selectors_view(selectors@) + r2);
                                }
                            }
                        }
                        j += 2;
                    }
                    _ => {
                        proof {
                            assert(!is_index_token(rest[1]));
                        }
                        return Err(Error::InvalidPath);
                    }
                }
            } else {
                proof {
                    assert(rest[0] == strs_view(tokens@)[j as int]);
                    assert(rest[0] != array_marker());
                }
                selectors.push(Selector::Field(tokens[j].clone()));
                proof {
                    assert(rest.skip(1) =~= strs_view(tokens@).skip(j as int + 1));
                    assert(selectors_view(selectors@) =~= pre + seq![
                        SelectorView::Field(rest[0]),
                    ]);
                    if let Ok(all) = selectors_of_tokens(strs_view(tokens@)) {
                        if let Ok(r2) = selectors_of_tokens(rest.skip(1)) {
                            assert(all =~= selectors_view(selectors@) + r2);
                        }
                    }
                }
                j += 1;
            }
        }
        proof {
            assert(strs_view(tokens@).skip(tokens@.len() as int) =~= Seq::<Seq<char>>::empty());
            if let Ok(all) = selectors_of_tokens(strs_view(tokens@)) {
                assert(all =~= selectors_view(selectors@));
            }
        }
        Ok(FieldPath { selectors, path_str: String::from_str(path) })
    }
}

} // verus!
