//! The flag model: a named, typed command-line option declaration with
//! optional short aliases, and typed value extraction from a token list.

use vstd::prelude::*;

use crate::parse::parse_isize;
use crate::parse::spec_int_value;
use crate::parse::spec_valid_float;
use crate::parse::spec_valid_int;
use crate::parse::validate_float;

verus! {

/// The value type a flag declares at construction and keeps thereafter.
#[derive(Clone, PartialEq, Eq, Structural, Debug)]
pub enum FlagType {
    Bool,
    String,
    Int,
    Float,
}

/// Why a flag declaration or a value extraction was rejected.
///
/// `InvalidName` is a declaration error; `MissingValue` and `TypeError`
/// are coercion errors that can arise from user-supplied token lists.
#[derive(Clone, Copy, PartialEq, Eq, Structural, Debug)]
pub enum FlagError {
    /// The flag name starts with `-`, or contains `=` or whitespace.
    InvalidName,
    /// The flag was located but stood last, with no following value token.
    MissingValue,
    /// The token following the flag cannot be read as the declared type.
    TypeError,
}

impl FlagError {
    /// A short diagnostic for the error, fit for a fail-fast report.
    pub fn message(&self) -> (r: String)
        ensures
            match self {
                FlagError::InvalidName => r@ == "invalid flag name: it must not start with \"-\" or contain \"=\" or whitespace"@,
                FlagError::MissingValue => r@ == "the flag stands last, with no following value token"@,
                FlagError::TypeError => r@ == "the token following the flag does not read as the declared type"@,
            },
    {
        match self {
            FlagError::InvalidName => "invalid flag name: it must not start with \"-\" or contain \"=\" or whitespace".to_owned(),
            FlagError::MissingValue => "the flag stands last, with no following value token".to_owned(),
            FlagError::TypeError => "the token following the flag does not read as the declared type".to_owned(),
        }
    }
}

/// True for the characters a flag name must not contain anywhere.
pub open spec fn spec_is_whitespace(c: char) -> bool {
    c == ' ' || c == '\t' || c == '\n' || c == '\r'
}

/// A flag name must not start with `-`, and must contain neither `=` nor
/// whitespace; such a name would be unparseable or ambiguous under the
/// `--name` / `-alias` token conventions.
pub open spec fn spec_valid_name(s: Seq<char>) -> bool {
    &&& s.len() > 0 ==> s[0] != '-'
    &&& forall|i: int| 0 <= i < s.len() ==> s[i] != '=' && !spec_is_whitespace(s[i])
}

/// The typed result of resolving a flag against a token list.
///
/// A floating point value is kept as the verbatim token it was read from,
/// already checked against the decimal grammar; turning it into a machine
/// float is left to the embedding layer.
#[derive(Clone, PartialEq, Eq, Debug)]
pub enum FlagValue {
    Bool(bool),
    String(String),
    Int(isize),
    Float(String),
}

/// The mathematical shape of a `FlagValue`: strings as character sequences,
/// integers as unbounded integers.
pub enum FlagValueView {
    Bool(bool),
    String(Seq<char>),
    Int(int),
    Float(Seq<char>),
}

impl View for FlagValue {
    type V = FlagValueView;

    open spec fn view(&self) -> FlagValueView {
        match self {
            FlagValue::Bool(b) => FlagValueView::Bool(*b),
            FlagValue::String(s) => FlagValueView::String(s@),
            FlagValue::Int(n) => FlagValueView::Int(*n as int),
            FlagValue::Float(s) => FlagValueView::Float(s@),
        }
    }
}

/// The result of a resolution, lifted to the mathematical level: the typed
/// payload becomes its view, errors stay as they are.
pub open spec fn spec_value_result(r: Result<Option<FlagValue>, FlagError>) -> Result<
    Option<FlagValueView>,
    FlagError,
> {
    match r {
        Ok(Some(v)) => Ok(Some(v@)),
        Ok(None) => Ok(None),
        Err(e) => Err(e),
    }
}

/// The long-form token a flag of this name is matched by: `--name`.
pub open spec fn spec_long_form(name: Seq<char>) -> Seq<char> {
    seq!['-', '-'] + name
}

/// The short-form token an alias is matched by: `-alias`.
pub open spec fn spec_short_form(alias: Seq<char>) -> Seq<char> {
    seq!['-'] + alias
}

/// Compare a token against the long form `--name`, character by character.
fn str_eq_long(t: &str, name: &str) -> (b: bool)
    ensures
        b == (t@ == spec_long_form(name@)),
{
    proof {
        assert(spec_long_form(name@).len() == name@.len() + 2);
    }
    let tl = t.unicode_len();
    let nl = name.unicode_len();
    if tl < 2 || tl - 2 != nl {
        return false;
    }
    if t.get_char(0) != '-' || t.get_char(1) != '-' {
        return false;
    }
    let mut i: usize = 0;
    while i < nl
        invariant
            i <= nl,
            nl == name@.len(),
            tl == t@.len(),
            tl == nl + 2,
            t@[0] == '-',
            t@[1] == '-',
            forall|k: int| 0 <= k < i ==> t@[k + 2] == name@[k],
        decreases nl - i,
    {
        if t.get_char(i + 2) != name.get_char(i) {
            return false;
        }
        i += 1;
    }
    proof {
        assert(t@ =~= spec_long_form(name@));
    }
    true
}

/// Compare a token against the short form `-alias`, character by character.
fn str_eq_short(t: &str, alias: &str) -> (b: bool)
    ensures
        b == (t@ == spec_short_form(alias@)),
{
    proof {
        assert(spec_short_form(alias@).len() == alias@.len() + 1);
    }
    let tl = t.unicode_len();
    let al = alias.unicode_len();
    if tl < 1 || tl - 1 != al {
        return false;
    }
    if t.get_char(0) != '-' {
        return false;
    }
    let mut i: usize = 0;
    while i < al
        invariant
            i <= al,
            al == alias@.len(),
            tl == t@.len(),
            tl == al + 1,
            t@[0] == '-',
            forall|k: int| 0 <= k < i ==> t@[k + 1] == alias@[k],
        decreases al - i,
    {
        if t.get_char(i + 1) != alias.get_char(i) {
            return false;
        }
        i += 1;
    }
    proof {
        assert(t@ =~= spec_short_form(alias@));
    }
    true
}

/// A named, typed option flag with optional short aliases.
#[derive(Clone, Debug)]
pub struct Flag {
    /// Flag name, matched as `--name`.
    pub name: String,
    /// Free-form usage description.
    pub usage: String,
    /// The declared value type.
    pub flag_type: FlagType,
    /// Optional short aliases, each matched as `-alias`; `None` means none.
    pub alias: Option<Vec<String>>,
}

impl Flag {
    /// The flag is well formed: its name passed construction-time validation.
    pub open spec fn wf(&self) -> bool {
        spec_valid_name(self.name@)
    }

    /// The registered aliases as character sequences, in registration order;
    /// empty when none were registered.
    pub open spec fn spec_aliases(&self) -> Seq<Seq<char>> {
        match self.alias {
            Some(a) => a@.map_values(|s: String| s@),
            None => Seq::empty(),
        }
    }

    /// Token `t` selects this flag: it equals the long form `--name`, or the
    /// short form `-alias` of some registered alias.
    pub open spec fn spec_matches(&self, t: Seq<char>) -> bool {
        ||| t == spec_long_form(self.name@)
        ||| exists|j: int|
            0 <= j < self.spec_aliases().len() && t == spec_short_form(self.spec_aliases()[j])
    }

    /// Some token of `tokens` selects this flag.
    pub open spec fn spec_found(&self, tokens: Seq<String>) -> bool {
        exists|k: int| 0 <= k < tokens.len() && self.spec_matches(tokens[k]@)
    }

    /// The position of the first token that selects this flag;
    /// `tokens.len()` when none does.
    pub open spec fn spec_first_match(&self, tokens: Seq<String>) -> int
        decreases tokens.len(),
    {
        if tokens.len() == 0 {
            0
        } else if self.spec_matches(tokens[0]@) {
            0
        } else {
            1 + self.spec_first_match(tokens.drop_first())
        }
    }

    /// `spec_first_match` is sound and complete: it stays within bounds, lands
    /// strictly inside the sequence exactly when a match exists, points at a
    /// matching token, and everything before it does not match.
    pub proof fn lemma_first_match(&self, tokens: Seq<String>)
        ensures
            0 <= self.spec_first_match(tokens) <= tokens.len(),
            self.spec_found(tokens) <==> self.spec_first_match(tokens) < tokens.len(),
            self.spec_first_match(tokens) < tokens.len() ==> self.spec_matches(
                tokens[self.spec_first_match(tokens)]@,
            ),
            forall|k: int|
                0 <= k < self.spec_first_match(tokens) ==> !self.spec_matches(tokens[k]@),
        decreases tokens.len(),
    {
        if tokens.len() == 0 {
        } else if self.spec_matches(tokens[0]@) {
        } else {
            let rest = tokens.drop_first();
            let fm = self.spec_first_match(tokens);
            self.lemma_first_match(rest);
            assert(forall|k: int| 0 <= k < rest.len() ==> rest[k] == tokens[k + 1]);
            assert forall|k: int| 0 <= k < fm implies !self.spec_matches(tokens[k]@) by {
                if k > 0 {
                    assert(tokens[k] == rest[k - 1]);
                }
            }
            if self.spec_found(tokens) {
                let w = choose|w: int| 0 <= w < tokens.len() && self.spec_matches(tokens[w]@);
                assert(w != 0);
                assert(rest[w - 1] == tokens[w]);
                assert(self.spec_found(rest));
            }
            if self.spec_found(rest) {
                let w = choose|w: int| 0 <= w < rest.len() && self.spec_matches(rest[w]@);
                assert(tokens[w + 1] == rest[w]);
                assert(self.spec_found(tokens));
            }
        }
    }

    /// Token `t` selects this flag (executable form of `spec_matches`).
    fn token_matches(&self, t: &String) -> (b: bool)
        ensures
            b == self.spec_matches(t@),
    {
        if str_eq_long(t.as_str(), self.name.as_str()) {
            return true;
        }
        match &self.alias {
            None => false,
            Some(al) => {
                let mut j: usize = 0;
                while j < al.len()
                    invariant
                        j <= al.len(),
                        self.spec_aliases().len() == al@.len(),
                        forall|k: int|
                            0 <= k < al@.len() ==> self.spec_aliases()[k] == al@[k]@,
                        forall|k: int|
                            0 <= k < j ==> t@ != spec_short_form(self.spec_aliases()[k]),
                        t@ != spec_long_form(self.name@),
                    decreases al.len() - j,
                {
                    if str_eq_short(t.as_str(), al[j].as_str()) {
                        proof {
                            assert(t@ == spec_short_form(self.spec_aliases()[j as int]));
                        }
                        return true;
                    }
                    j += 1;
                }
                false
            },
        }
    }

    /// Declare a new flag. Returns `Err(FlagError::InvalidName)` exactly when
    /// `name` starts with `-`, or contains `=` or whitespace; otherwise the
    /// flag stores `name`, `usage` and `flag_type` unchanged, with no aliases.
    pub fn new(name: &str, usage: &str, flag_type: FlagType) -> (r: Result<Flag, FlagError>)
        ensures
            match r {
                Ok(f) => {
                    &&& spec_valid_name(name@)
                    &&& f.name@ == name@
                    &&& f.usage@ == usage@
                    &&& f.flag_type == flag_type
                    &&& f.alias is None
                    &&& f.wf()
                },
                Err(e) => !spec_valid_name(name@) && e == FlagError::InvalidName,
            },
    {
        let n = name.unicode_len();
        if n > 0 && name.get_char(0) == '-' {
            return Err(FlagError::InvalidName);
        }
        let mut i: usize = 0;
        while i < n
            invariant
                i <= n,
                n == name@.len(),
                name@.len() > 0 ==> name@[0] != '-',
                forall|k: int| 0 <= k < i ==> name@[k] != '=' && !spec_is_whitespace(name@[k]),
            decreases n - i,
        {
            let c = name.get_char(i);
            if c == '=' || c == ' ' || c == '\t' || c == '\n' || c == '\r' {
                return Err(FlagError::InvalidName);
            }
            i += 1;
        }
        Ok(Flag { name: name.to_owned(), usage: usage.to_owned(), flag_type, alias: None })
    }

    /// Register one more short alias, keeping everything else unchanged.
    /// Aliases append in registration order; duplicates are accepted input and
    /// are not checked here.
    pub fn alias(self, name: &str) -> (r: Flag)
        ensures
            r.name == self.name,
            r.usage == self.usage,
            r.flag_type == self.flag_type,
            r.spec_aliases() == self.spec_aliases().push(name@),
            r.wf() == self.wf(),
    {
        let ghost g = self;
        let Flag { name: flag_name, usage, flag_type, alias } = self;
        let mut al: Vec<String> = match alias {
            Some(a) => a,
            None => Vec::new(),
        };
        al.push(name.to_owned());
        proof {
            assert(al@.map_values(|s: String| s@) =~= g.spec_aliases().push(name@));
        }
        Flag { name: flag_name, usage, flag_type, alias: Some(al) }
    }

    /// The position of the first token equal to `--name`, or to `-alias` for
    /// some registered alias; `None` when no token selects this flag.
    pub fn option_index(&self, v: &Vec<String>) -> (r: Option<usize>)
        ensures
            match r {
                Some(i) => i < v@.len() && self.spec_found(v@) && i as int
                    == self.spec_first_match(v@),
                None => !self.spec_found(v@),
            },
    {
        let mut i: usize = 0;
        while i < v.len()
            invariant
                i <= v@.len(),
                forall|k: int| 0 <= k < i ==> !self.spec_matches(v@[k]@),
            decreases v@.len() - i,
        {
            if self.token_matches(&v[i]) {
                proof {
                    self.lemma_first_match(v@);
                }
                return Some(i);
            }
            i += 1;
        }
        proof {
            self.lemma_first_match(v@);
        }
        None
    }

    /// What resolving this flag against `tokens` yields, stated over views.
    ///
    /// A `Bool` flag always resolves, to whether any token selects it. The
    /// other types resolve to `Ok(None)` when no token selects the flag;
    /// otherwise the token after the first match carries the value:
    /// `MissingValue` when there is no such token, the token itself for
    /// `String`, its base-10 reading for `Int` (or `TypeError` when it is not
    /// a valid integer in range), and the verbatim token for `Float` after a
    /// check against the decimal grammar (or `TypeError`).
    pub open spec fn spec_value(&self, tokens: Seq<String>) -> Result<
        Option<FlagValueView>,
        FlagError,
    > {
        match self.flag_type {
            FlagType::Bool => Ok(Some(FlagValueView::Bool(self.spec_found(tokens)))),
            FlagType::String => if !self.spec_found(tokens) {
                Ok(None)
            } else {
                let i = self.spec_first_match(tokens);
                if i + 1 >= tokens.len() {
                    Err(FlagError::MissingValue)
                } else {
                    Ok(Some(FlagValueView::String(tokens[i + 1]@)))
                }
            },
            FlagType::Int => if !self.spec_found(tokens) {
                Ok(None)
            } else {
                let i = self.spec_first_match(tokens);
                if i + 1 >= tokens.len() {
                    Err(FlagError::MissingValue)
                } else {
                    let t = tokens[i + 1]@;
                    if spec_valid_int(t) && isize::MIN as int <= spec_int_value(t)
                        <= isize::MAX as int {
                        Ok(Some(FlagValueView::Int(spec_int_value(t))))
                    } else {
                        Err(FlagError::TypeError)
                    }
                }
            },
            FlagType::Float => if !self.spec_found(tokens) {
                Ok(None)
            } else {
                let i = self.spec_first_match(tokens);
                if i + 1 >= tokens.len() {
                    Err(FlagError::MissingValue)
                } else {
                    let t = tokens[i + 1]@;
                    if spec_valid_float(t) {
                        Ok(Some(FlagValueView::Float(t)))
                    } else {
                        Err(FlagError::TypeError)
                    }
                }
            },
        }
    }

    /// Resolve the flag's value against the token list, typed per
    /// `flag_type`; the result is exactly `spec_value` of the inputs.
    pub fn value(&self, v: &Vec<String>) -> (r: Result<Option<FlagValue>, FlagError>)
        ensures
            spec_value_result(r) == self.spec_value(v@),
    {
        match &self.flag_type {
            FlagType::Bool => {
                let found = self.option_index(v).is_some();
                Ok(Some(FlagValue::Bool(found)))
            },
            FlagType::String => match self.option_index(v) {
                None => Ok(None),
                Some(i) => {
                    let n = v.len();
                    if i + 1 >= n {
                        Err(FlagError::MissingValue)
                    } else {
                        Ok(Some(FlagValue::String(v[i + 1].clone())))
                    }
                },
            },
            FlagType::Int => match self.option_index(v) {
                None => Ok(None),
                Some(i) => {
                    let n = v.len();
                    if i + 1 >= n {
                        Err(FlagError::MissingValue)
                    } else {
                        match parse_isize(v[i + 1].as_str()) {
                            Some(n) => Ok(Some(FlagValue::Int(n))),
                            None => Err(FlagError::TypeError),
                        }
                    }
                },
            },
            FlagType::Float => match self.option_index(v) {
                None => Ok(None),
                Some(i) => {
                    let n = v.len();
                    if i + 1 >= n {
                        Err(FlagError::MissingValue)
                    } else {
                        if validate_float(v[i + 1].as_str()) {
                            Ok(Some(FlagValue::Float(v[i + 1].clone())))
                        } else {
                            Err(FlagError::TypeError)
                        }
                    }
                },
            },
        }
    }
}

/// A `Bool` flag always resolves: to true exactly when some token selects
/// the flag, to false otherwise — never to "no value" and never to an error.
pub proof fn lemma_bool_always_resolves(f: &Flag, tokens: Seq<String>)
    requires
        f.flag_type == FlagType::Bool,
    ensures
        f.spec_value(tokens) == Ok::<Option<FlagValueView>, FlagError>(
            Some(FlagValueView::Bool(f.spec_found(tokens))),
        ),
{
}

/// A non-boolean flag that no token selects resolves to "no value", which is
/// not an error: the caller decides how to fall back.
pub proof fn lemma_absent_flag_resolves_to_none(f: &Flag, tokens: Seq<String>)
    requires
        f.flag_type != FlagType::Bool,
        !f.spec_found(tokens),
    ensures
        f.spec_value(tokens) == Ok::<Option<FlagValueView>, FlagError>(None),
{
}

/// A `String` flag that is selected, with a token following the first
/// matching position, resolves to that following token verbatim.
pub proof fn lemma_string_takes_following_token(f: &Flag, tokens: Seq<String>)
    requires
        f.flag_type == FlagType::String,
        f.spec_found(tokens),
        f.spec_first_match(tokens) + 1 < tokens.len(),
    ensures
        f.spec_value(tokens) == Ok::<Option<FlagValueView>, FlagError>(
            Some(FlagValueView::String(tokens[f.spec_first_match(tokens) + 1]@)),
        ),
{
}

/// An `Int` flag whose following token is not a valid base-10 integer in
/// machine range resolves to the type coercion error.
pub proof fn lemma_int_coercion_error(f: &Flag, tokens: Seq<String>)
    requires
        f.flag_type == FlagType::Int,
        f.spec_found(tokens),
        f.spec_first_match(tokens) + 1 < tokens.len(),
        !spec_valid_int(tokens[f.spec_first_match(tokens) + 1]@),
    ensures
        f.spec_value(tokens) == Err::<Option<FlagValueView>, FlagError>(FlagError::TypeError),
{
}

/// An `Int` flag whose following token is a valid base-10 integer in machine
/// range resolves to exactly the integer that token denotes.
pub proof fn lemma_int_takes_following_value(f: &Flag, tokens: Seq<String>)
    requires
        f.flag_type == FlagType::Int,
        f.spec_found(tokens),
        f.spec_first_match(tokens) + 1 < tokens.len(),
        spec_valid_int(tokens[f.spec_first_match(tokens) + 1]@),
        isize::MIN as int <= spec_int_value(tokens[f.spec_first_match(tokens) + 1]@)
            <= isize::MAX as int,
    ensures
        f.spec_value(tokens) == Ok::<Option<FlagValueView>, FlagError>(
            Some(FlagValueView::Int(spec_int_value(tokens[f.spec_first_match(tokens) + 1]@))),
        ),
{
}

/// A `Float` flag whose following token fits the decimal grammar resolves to
/// that token verbatim; one that does not resolves to the type coercion
/// error.
pub proof fn lemma_float_resolution(f: &Flag, tokens: Seq<String>)
    requires
        f.flag_type == FlagType::Float,
        f.spec_found(tokens),
        f.spec_first_match(tokens) + 1 < tokens.len(),
    ensures
        spec_valid_float(tokens[f.spec_first_match(tokens) + 1]@) ==> f.spec_value(tokens)
            == Ok::<Option<FlagValueView>, FlagError>(
            Some(FlagValueView::Float(tokens[f.spec_first_match(tokens) + 1]@)),
        ),
        !spec_valid_float(tokens[f.spec_first_match(tokens) + 1]@) ==> f.spec_value(tokens)
            == Err::<Option<FlagValueView>, FlagError>(FlagError::TypeError),
{
}

/// A non-boolean flag whose first matching token stands last, with no
/// following value token, resolves to the missing-value coercion error.
pub proof fn lemma_missing_value_error(f: &Flag, tokens: Seq<String>)
    requires
        f.flag_type != FlagType::Bool,
        f.spec_found(tokens),
        f.spec_first_match(tokens) + 1 >= tokens.len(),
    ensures
        f.spec_value(tokens) == Err::<Option<FlagValueView>, FlagError>(FlagError::MissingValue),
{
}

/// Resolution is pure: the same flag resolved against the same token list
/// yields the same result, with no hidden state to mutate between calls.
pub proof fn lemma_value_idempotent(
    f: &Flag,
    tokens: Seq<String>,
    r1: Result<Option<FlagValue>, FlagError>,
    r2: Result<Option<FlagValue>, FlagError>,
)
    requires
        spec_value_result(r1) == f.spec_value(tokens),
        spec_value_result(r2) == f.spec_value(tokens),
    ensures
        spec_value_result(r1) == spec_value_result(r2),
{
}

} // verus!
