//! Command-line argument recognition.
//!
//! An argument is known by a list of names (dashes included). A raw token
//! sets the argument when it is exactly a name, or a name followed by
//! `=value`; the first name that begins the token decides, and a token that
//! goes on after the name without `=` sets nothing. The first token whose
//! value parses wins; later ones are reported as duplicates, and tokens
//! whose value does not parse are reported where they stand. Every token
//! that names the argument is marked used, so the caller can report the
//! tokens nothing recognized.

use vstd::prelude::*;
use vstd::string::*;
use crate::number::NumberLit;
use crate::number::is_float_literal;
use crate::number::is_float_literal_str;
use crate::text::is_prefix;
use crate::text::str_eq;
use crate::text::str_starts_with;

verus! {

/// Why a token's value part was refused.
#[derive(Clone, Copy, PartialEq, Eq, Structural, Debug)]
pub enum ArgValueError {
    /// The argument needs `=value` and none was given.
    MissingValue,
    /// The value is not one of the boolean words.
    InvalidBool,
    /// The value is not a numeric literal.
    InvalidNumber,
}

#[derive(Clone, Copy, PartialEq, Eq, Structural, Debug)]
pub enum ArgErrKind {
    /// The token names the argument but its value was refused.
    Value(ArgValueError),
    /// An earlier token already set the argument; this one is ignored.
    Duplicate,
}

/// A report about one token, by its position in the input.
#[derive(Clone, Copy, PartialEq, Eq, Structural, Debug)]
pub struct ArgDiag {
    pub idx: usize,
    pub err: ArgErrKind,
}

/// How a token relates to a name list: `None` when the token does not name
/// the argument; otherwise the `=value` part, when one is given.
pub open spec fn token_value(token: Seq<char>, names: Seq<Seq<char>>) -> Option<Option<Seq<char>>>
    decreases names.len(),
{
    if names.len() == 0 {
        None
    } else if is_prefix(names[0], token) {
        if token.len() == names[0].len() {
            Some(None)
        } else if token[names[0].len() as int] == '=' {
            Some(Some(token.skip(names[0].len() as int + 1)))
        } else {
            None
        }
    } else {
        token_value(token, names.drop_first())
    }
}

/// The parsed value of the first token that names the argument and whose
/// value parses.
pub open spec fn spec_scan<V>(
    tokens: Seq<Seq<char>>,
    names: Seq<Seq<char>>,
    parse: spec_fn(Option<Seq<char>>) -> Result<V, ArgValueError>,
) -> Option<V>
    decreases tokens.len(),
{
    if tokens.len() == 0 {
        None
    } else {
        let head = match token_value(tokens[0], names) {
            Some(v) => match parse(v) {
                Ok(x) => Some(x),
                Err(e) => None,
            },
            None => None,
        };
        match head {
            Some(x) => Some(x),
            None => spec_scan(tokens.drop_first(), names, parse),
        }
    }
}

/// The reports of a scan, in token order, the first token counted as
/// `idx`; `found` says whether an earlier token already set the value.
pub open spec fn spec_scan_diags<V>(
    tokens: Seq<Seq<char>>,
    names: Seq<Seq<char>>,
    parse: spec_fn(Option<Seq<char>>) -> Result<V, ArgValueError>,
    idx: int,
    found: bool,
) -> Seq<ArgDiag>
    decreases tokens.len(),
{
    if tokens.len() == 0 {
        Seq::empty()
    } else {
        let here: Seq<ArgDiag> = match token_value(tokens[0], names) {
            Some(v) => match parse(v) {
                Ok(x) => if found {
                    seq![ArgDiag { idx: idx as usize, err: ArgErrKind::Duplicate }]
                } else {
                    Seq::empty()
                },
                Err(e) => seq![ArgDiag { idx: idx as usize, err: ArgErrKind::Value(e) }],
            },
            None => Seq::empty(),
        };
        let now_found = found || (token_value(tokens[0], names) matches Some(v) && parse(v) is Ok);
        here + spec_scan_diags(tokens.drop_first(), names, parse, idx + 1, now_found)
    }
}

/// The value part of an optional raw token.
pub open spec fn opt_view(value: Option<&str>) -> Option<Seq<char>> {
    match value {
        Some(s) => Some(s@),
        None => None,
    }
}

/// An argument that can be looked for among the raw tokens.
pub trait ArgParser<T: DeepView>: Sized {
    /// The names that set the argument, dashes included.
    spec fn spec_names() -> Seq<Seq<char>>;

    /// What a value part parses to.
    spec fn spec_parse(value: Option<Seq<char>>) -> Result<T::V, ArgValueError>;

    fn names() -> (r: Vec<String>)
        ensures
            r.deep_view() == Self::spec_names(),
    ;

    fn parse_arg_value(value: Option<&str>) -> (r: Result<T, ArgValueError>)
        ensures
            match r {
                Ok(t) => Self::spec_parse(opt_view(value)) matches Ok(v) && v == t.deep_view(),
                Err(e) => Self::spec_parse(opt_view(value)) matches Err(e2) && e2 == e,
            },
    ;
}

/// The scan that every argument gets: it holds for every `ArgParser`, with
/// one shared, verified body.
pub trait ArgScan<T: DeepView>: ArgParser<T> {
    /// Scans the whole input for this argument. Returns the value of the
    /// first token that sets it, if any, and the reports on the other
    /// tokens that named it; marks every token that named it as used.
    fn try_parse(input: &Vec<String>, used: &mut Vec<bool>) -> (r: (Option<T>, Vec<ArgDiag>))
        requires
            old(used)@.len() == input@.len(),
        ensures
            r.0.deep_view() == spec_scan(
                input.deep_view(),
                Self::spec_names(),
                |v: Option<Seq<char>>| Self::spec_parse(v),
            ),
            r.1@ == spec_scan_diags(
                input.deep_view(),
                Self::spec_names(),
                |v: Option<Seq<char>>| Self::spec_parse(v),
                0,
                false,
            ),
            final(used)@.len() == old(used)@.len(),
            forall|i: int|
                0 <= i < old(used)@.len() ==> final(used)@[i] == (old(used)@[i] || token_value(
                    input.deep_view()[i],
                    Self::spec_names(),
                ) is Some),
    ;
}

/// An argument with a fallback value for when no token sets it.
pub trait DefaultArgParser<T: DeepView>: ArgParser<T> {
    /// The fallback value.
    spec fn spec_default() -> T::V;

    fn default_value() -> (r: T)
        ensures
            r.deep_view() == Self::spec_default(),
    ;
}

/// The scan with fallback that every defaulted argument gets; it holds for
/// every `DefaultArgParser`, with one shared, verified body.
pub trait DefaultArgScan<T: DeepView>: DefaultArgParser<T> {
    /// As `try_parse`, but yields the fallback value when no token sets the
    /// argument.
    fn parse(input: &Vec<String>, used: &mut Vec<bool>) -> (r: (T, Vec<ArgDiag>))
        requires
            old(used)@.len() == input@.len(),
        ensures
            r.0.deep_view() == match spec_scan(
                input.deep_view(),
                Self::spec_names(),
                |v: Option<Seq<char>>| Self::spec_parse(v),
            ) {
                Some(v) => v,
                None => Self::spec_default(),
            },
            r.1@ == spec_scan_diags(
                input.deep_view(),
                Self::spec_names(),
                |v: Option<Seq<char>>| Self::spec_parse(v),
                0,
                false,
            ),
            final(used)@.len() == old(used)@.len(),
            forall|i: int|
                0 <= i < old(used)@.len() ==> final(used)@[i] == (old(used)@[i] || token_value(
                    input.deep_view()[i],
                    Self::spec_names(),
                ) is Some),
    ;
}

/// Looks up `token` in a name list, yielding the value part when the token
/// sets the argument.
fn token_value_exec(token: &String, names: &Vec<String>) -> (r: Option<Option<String>>)
    ensures
        r.deep_view() == token_value(token@, names.deep_view()),
{
    let ghost gnames = names.deep_view();
    let mut i: usize = 0;
    proof {
        assert(gnames.skip(0) =~= gnames);
    }
    while i < names.len()
        invariant
            gnames == names.deep_view(),
            gnames.len() == names@.len(),
            i <= gnames.len(),
            token_value(token@, gnames) == token_value(token@, gnames.skip(i as int)),
        decreases gnames.len() - i,
    {
        proof {
            assert(gnames.skip(i as int)[0] == gnames[i as int]);
            assert(gnames[i as int] == names@[i as int]@);
            assert(gnames.skip(i as int).drop_first() =~= gnames.skip(i as int + 1));
        }
        let name = &names[i];
        if str_starts_with(token.as_str(), name.as_str()) {
            let nlen = name.as_str().unicode_len();
            let tlen = token.as_str().unicode_len();
            if tlen == nlen {
                return Some(None);
            } else if token.as_str().get_char(nlen) == '=' {
                let rest = token.as_str().substring_char(nlen + 1, tlen);
                return Some(Some(rest.to_owned()));
            } else {
                return None;
            }
        }
        i = i + 1;
    }
    proof {
        assert(gnames.skip(gnames.len() as int) =~= Seq::<Seq<char>>::empty());
    }
    None
}

impl<T: DeepView, P: ArgParser<T>> ArgScan<T> for P {
    fn try_parse(input: &Vec<String>, used: &mut Vec<bool>) -> (r: (Option<T>, Vec<ArgDiag>)) {
        let names = P::names();
        let ghost gnames = P::spec_names();
        let ghost gtokens = input.deep_view();
        let ghost pf: spec_fn(Option<Seq<char>>) -> Result<T::V, ArgValueError> = (|v: Option<
            Seq<char>,
        >| P::spec_parse(v));
        let mut acc: Option<T> = None;
        let mut diags: Vec<ArgDiag> = Vec::new();
        let mut i: usize = 0;
        proof {
            assert(gtokens.skip(0) =~= gtokens);
        }
        while i < input.len()
            invariant
                gnames == names.deep_view(),
                gtokens == input.deep_view(),
                gtokens.len() == input@.len(),
                pf == (|v: Option<Seq<char>>| P::spec_parse(v)),
                used@.len() == gtokens.len(),
                old(used)@.len() == gtokens.len(),
                i <= gtokens.len(),
                forall|j: int|
                    0 <= j < gtokens.len() ==> used@[j] == (old(used)@[j] || (j < i && token_value(
                        gtokens[j],
                        gnames,
                    ) is Some)),
                spec_scan(gtokens, gnames, pf) == match acc {
                    Some(t) => Some(t.deep_view()),
                    None => spec_scan(gtokens.skip(i as int), gnames, pf),
                },
                spec_scan_diags(gtokens, gnames, pf, 0, false) =~= diags@ + spec_scan_diags(
                    gtokens.skip(i as int),
                    gnames,
                    pf,
                    i as int,
                    acc is Some,
                ),
            decreases gtokens.len() - i,
        {
            proof {
                assert(gtokens.skip(i as int)[0] == gtokens[i as int]);
                assert(gtokens[i as int] == input@[i as int]@);
                assert(gtokens.skip(i as int).drop_first() =~= gtokens.skip(i as int + 1));
            }
            let ghost pre_diags = diags@;
            let tv = token_value_exec(&input[i], &names);
            match tv {
                None => {},
                Some(v) => {
                    used.set(i, true);
                    let parsed = match &v {
                        Some(s) => P::parse_arg_value(Some(s.as_str())),
                        None => P::parse_arg_value(None),
                    };
                    match parsed {
                        Ok(t) => {
                            if acc.is_none() {
                                proof {
                                    assert(spec_scan(gtokens.skip(i as int), gnames, pf) == Some(
                                        t.deep_view(),
                                    ));
                                }
                                acc = Some(t);
                            } else {
                                diags.push(ArgDiag { idx: i, err: ArgErrKind::Duplicate });
                            }
                        },
                        Err(e) => {
                            diags.push(ArgDiag { idx: i, err: ArgErrKind::Value(e) });
                        },
                    }
                },
            }
            proof {
                assert(pre_diags.push(ArgDiag { idx: i, err: ArgErrKind::Duplicate })
                    + spec_scan_diags(gtokens.skip(i as int + 1), gnames, pf, i as int + 1, true)
                    =~= pre_diags + (seq![ArgDiag { idx: i, err: ArgErrKind::Duplicate }]
                    + spec_scan_diags(gtokens.skip(i as int + 1), gnames, pf, i as int + 1, true)));
                assert forall|e: ArgValueError|
                    pre_diags.push(ArgDiag { idx: i, err: ArgErrKind::Value(e) }) + spec_scan_diags(
                        gtokens.skip(i as int + 1),
                        gnames,
                        pf,
                        i as int + 1,
                        acc is Some,
                    ) =~= pre_diags + (seq![ArgDiag { idx: i, err: ArgErrKind::Value(e) }]
                    + spec_scan_diags(
                        gtokens.skip(i as int + 1),
                        gnames,
                        pf,
                        i as int + 1,
                        acc is Some,
                    )) by {}
            }
            i = i + 1;
        }
        proof {
            assert(gtokens.skip(gtokens.len() as int) =~= Seq::<Seq<char>>::empty());
        }
        (acc, diags)
    }
}

impl<T: DeepView, P: DefaultArgParser<T>> DefaultArgScan<T> for P {
    fn parse(input: &Vec<String>, used: &mut Vec<bool>) -> (r: (T, Vec<ArgDiag>)) {
        let (value, diags) = P::try_parse(input, used);
        match value {
            Some(v) => (v, diags),
            None => (P::default_value(), diags),
        }
    }
}

/// A yes/no argument: a bare name sets it to true, and `=true`, `=t`, `=y`,
/// `=false`, `=f`, `=n` are the accepted written values.
pub trait BoolParser: Sized {
    spec fn spec_bool_names() -> Seq<Seq<char>>;

    fn bool_names() -> (r: Vec<String>)
        ensures
            r.deep_view() == Self::spec_bool_names(),
    ;
}

impl<X: BoolParser> ArgParser<bool> for X {
    open spec fn spec_names() -> Seq<Seq<char>> {
        X::spec_bool_names()
    }

    open spec fn spec_parse(value: Option<Seq<char>>) -> Result<bool, ArgValueError> {
        match value {
            None => Ok(true),
            Some(v) => if v == "true"@ || v == "t"@ || v == "y"@ {
                Ok(true)
            } else if v == "false"@ || v == "f"@ || v == "n"@ {
                Ok(false)
            } else {
                Err(ArgValueError::InvalidBool)
            },
        }
    }

    fn names() -> (r: Vec<String>) {
        Self::bool_names()
    }

    fn parse_arg_value(value: Option<&str>) -> (r: Result<bool, ArgValueError>) {
        match value {
            None => Ok(true),
            Some(v) => {
                if str_eq(v, "true") || str_eq(v, "t") || str_eq(v, "y") {
                    Ok(true)
                } else if str_eq(v, "false") || str_eq(v, "f") || str_eq(v, "n") {
                    Ok(false)
                } else {
                    Err(ArgValueError::InvalidBool)
                }
            },
        }
    }
}

impl<X: BoolParser> DefaultArgParser<bool> for X {
    open spec fn spec_default() -> bool {
        false
    }

    fn default_value() -> (r: bool) {
        false
    }
}

/// A numeric argument: the value must be given, and must be a literal the
/// numeric grammar accepts; the caller reads its numeric value.
pub trait F64Parser: Sized {
    spec fn spec_num_names() -> Seq<Seq<char>>;

    fn num_names() -> (r: Vec<String>)
        ensures
            r.deep_view() == Self::spec_num_names(),
    ;
}

impl<X: F64Parser> ArgParser<NumberLit> for X {
    open spec fn spec_names() -> Seq<Seq<char>> {
        X::spec_num_names()
    }

    open spec fn spec_parse(value: Option<Seq<char>>) -> Result<Seq<char>, ArgValueError> {
        match value {
            None => Err(ArgValueError::MissingValue),
            Some(v) => if is_float_literal(v) {
                Ok(v)
            } else {
                Err(ArgValueError::InvalidNumber)
            },
        }
    }

    fn names() -> (r: Vec<String>) {
        Self::num_names()
    }

    fn parse_arg_value(value: Option<&str>) -> (r: Result<NumberLit, ArgValueError>) {
        match value {
            None => Err(ArgValueError::MissingValue),
            Some(v) => {
                if is_float_literal_str(v) {
                    Ok(NumberLit { text: v.to_owned() })
                } else {
                    Err(ArgValueError::InvalidNumber)
                }
            },
        }
    }
}

/// A free-text argument: the value must be given and is taken as written.
pub trait StringParser: Sized {
    spec fn spec_string_names() -> Seq<Seq<char>>;

    fn string_names() -> (r: Vec<String>)
        ensures
            r.deep_view() == Self::spec_string_names(),
    ;
}

impl<X: StringParser> ArgParser<String> for X {
    open spec fn spec_names() -> Seq<Seq<char>> {
        X::spec_string_names()
    }

    open spec fn spec_parse(value: Option<Seq<char>>) -> Result<Seq<char>, ArgValueError> {
        match value {
            None => Err(ArgValueError::MissingValue),
            Some(v) => Ok(v),
        }
    }

    fn names() -> (r: Vec<String>) {
        Self::string_names()
    }

    fn parse_arg_value(value: Option<&str>) -> (r: Result<String, ArgValueError>) {
        match value {
            None => Err(ArgValueError::MissingValue),
            Some(v) => Ok(v.to_owned()),
        }
    }
}

/// A file path, held as the text it was written as; the caller turns it
/// into its platform path type.
pub struct PathValue {
    pub path: String,
}

impl DeepView for PathValue {
    type V = Seq<char>;

    open spec fn deep_view(&self) -> Seq<char> {
        self.path@
    }
}

/// A path-valued argument: the value must be given and is kept as written.
pub trait FileParser: Sized {
    spec fn spec_file_names() -> Seq<Seq<char>>;

    fn file_names() -> (r: Vec<String>)
        ensures
            r.deep_view() == Self::spec_file_names(),
    ;
}

impl<X: FileParser> ArgParser<PathValue> for X {
    open spec fn spec_names() -> Seq<Seq<char>> {
        X::spec_file_names()
    }

    open spec fn spec_parse(value: Option<Seq<char>>) -> Result<Seq<char>, ArgValueError> {
        match value {
            None => Err(ArgValueError::MissingValue),
            Some(v) => Ok(v),
        }
    }

    fn names() -> (r: Vec<String>) {
        Self::file_names()
    }

    fn parse_arg_value(value: Option<&str>) -> (r: Result<PathValue, ArgValueError>) {
        match value {
            None => Err(ArgValueError::MissingValue),
            Some(v) => Ok(PathValue { path: v.to_owned() }),
        }
    }
}

/// Marker for the `-r` / `--ratio` argument: the learning ratio of a
/// training run.
pub struct LearnRatioArg;

impl F64Parser for LearnRatioArg {
    open spec fn spec_num_names() -> Seq<Seq<char>> {
        seq!["-r"@, "--ratio"@]
    }

    fn num_names() -> (r: Vec<String>) {
        let mut r: Vec<String> = Vec::new();
        r.push(String::from_str("-r"));
        r.push(String::from_str("--ratio"));
        proof {
            assert(r.deep_view() =~= seq!["-r"@, "--ratio"@]);
        }
        r
    }
}

impl DefaultArgParser<NumberLit> for LearnRatioArg {
    open spec fn spec_default() -> Seq<char> {
        "0.00001"@
    }

    fn default_value() -> (r: NumberLit) {
        NumberLit { text: String::from_str("0.00001") }
    }
}

} // verus!
