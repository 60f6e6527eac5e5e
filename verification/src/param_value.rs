//! Values of simulation parameters.
use vstd::prelude::*;
use crate::order::{lemma_str_le_total_order, str_le, string_le, SortKey};
use crate::text::{i64_to_string, parse_i64, parse_integer, signed_decimal};
use crate::yaml::{YamlValue, YamlView};

verus! {

/// The value of one parameter.
///
/// A float is held as an integer that orders floats as `OrderedFloat` does,
/// together with its original decimal representation, which is kept so that
/// rewriting a parameter file does not change it.
#[derive(Debug, Clone, PartialEq, Eq)]
pub enum ParamValue {
    Str(String),
    Int(i64),
    Float(u64, String),
    Bool(bool),
}

/// The mathematical value of a `ParamValue`.
pub enum ParamView {
    Str(Seq<char>),
    Int(i64),
    Float(u64, Seq<char>),
    Bool(bool),
}

impl View for ParamValue {
    type V = ParamView;

    open spec fn view(&self) -> ParamView {
        match self {
            ParamValue::Str(s) => ParamView::Str(s@),
            ParamValue::Int(i) => ParamView::Int(*i),
            ParamValue::Float(k, s) => ParamView::Float(*k, s@),
            ParamValue::Bool(b) => ParamView::Bool(*b),
        }
    }
}

/// Why a YAML value is not a parameter value.
#[derive(Debug, Clone, Copy, PartialEq, Eq)]
pub enum ParamError {
    /// A number that is neither an `i64` nor a float.
    InvalidNumber,
    /// A list where a single value was expected.
    ListValue,
}

/// The parameter value of a YAML value (`Null` and mappings have none).
pub open spec fn param_of_yaml(v: YamlView) -> Result<ParamView, ParamError> {
    match v {
        YamlView::Bool(b) => Ok(ParamView::Bool(b)),
        YamlView::Int(i) => Ok(ParamView::Int(i)),
        YamlView::UInt(_) => Err(ParamError::InvalidNumber),
        YamlView::Float(k, s) => Ok(ParamView::Float(k, s)),
        YamlView::Str(s) => Ok(ParamView::Str(s)),
        YamlView::Sequence(_) => Err(ParamError::ListValue),
        _ => Err(ParamError::ListValue),
    }
}

/// `v` can be converted without panicking (it is neither `Null` nor a mapping).
pub open spec fn convertible(v: YamlView) -> bool {
    !(v is Null) && !(v is Mapping)
}

/// The YAML value of a parameter value.
pub open spec fn yaml_of_param(p: ParamView) -> YamlView {
    match p {
        ParamView::Str(s) => YamlView::Str(s),
        ParamView::Int(i) => YamlView::Int(i),
        ParamView::Float(k, s) => YamlView::Float(k, s),
        ParamView::Bool(b) => YamlView::Bool(b),
    }
}

/// What `Display` shows of a parameter value.
pub open spec fn display_of(p: ParamView) -> Seq<char> {
    match p {
        ParamView::Str(s) => s,
        ParamView::Int(i) => signed_decimal(i as int),
        ParamView::Float(_, s) => s,
        ParamView::Bool(b) => if b {
            "true"@
        } else {
            "false"@
        },
    }
}

/// What parsing a string gives, where `float_key` tells whether (and as what) the string reads as a float.
pub open spec fn parse_param(s: Seq<char>, float_key: Option<u64>) -> ParamView {
    match parse_integer(s, true, i64::MIN as int, i64::MAX as int) {
        Some(i) => ParamView::Int(i as i64),
        None => match float_key {
            Some(k) => ParamView::Float(k, s),
            None => if s == "true"@ {
                ParamView::Bool(true)
            } else if s == "false"@ {
                ParamView::Bool(false)
            } else {
                ParamView::Str(s)
            },
        },
    }
}

/// The order of parameter values (that of the derived `Ord`: by variant
/// `Str < Int < Float < Bool`, then by content).
pub open spec fn param_le(a: ParamView, b: ParamView) -> bool {
    match (a, b) {
        (ParamView::Str(x), ParamView::Str(y)) => str_le(x, y),
        (ParamView::Str(_), _) => true,
        (ParamView::Int(_), ParamView::Str(_)) => false,
        (ParamView::Int(x), ParamView::Int(y)) => x <= y,
        (ParamView::Int(_), _) => true,
        (ParamView::Float(_, _), ParamView::Str(_)) => false,
        (ParamView::Float(_, _), ParamView::Int(_)) => false,
        (ParamView::Float(k, s), ParamView::Float(l, t)) => k < l || (k == l && str_le(s, t)),
        (ParamView::Float(_, _), ParamView::Bool(_)) => true,
        (ParamView::Bool(x), ParamView::Bool(y)) => !x || y,
        (ParamView::Bool(_), _) => false,
    }
}

impl ParamValue {
    /// The parameter value of a YAML value.
    pub fn new(v: &YamlValue) -> (r: Result<ParamValue, ParamError>)
        requires
            convertible(v@),
        ensures
            r matches Ok(p) ==> param_of_yaml(v@) == Ok::<ParamView, ParamError>(p@),
            r matches Err(e) ==> param_of_yaml(v@) == Err::<ParamView, ParamError>(e),
    {
        match v {
            YamlValue::Bool(b) => Ok(ParamValue::Bool(*b)),
            YamlValue::Int(i) => Ok(ParamValue::Int(*i)),
            YamlValue::UInt(_) => Err(ParamError::InvalidNumber),
            YamlValue::Float(k, s) => Ok(ParamValue::Float(*k, s.clone())),
            YamlValue::Str(s) => Ok(ParamValue::Str(s.clone())),
            YamlValue::Sequence(_) => Err(ParamError::ListValue),
            _ => Err(ParamError::ListValue),
        }
    }

    /// A copy of the value.
    pub fn duplicate(&self) -> (r: ParamValue)
        ensures
            r@ == self@,
    {
        match self {
            ParamValue::Str(s) => ParamValue::Str(s.clone()),
            ParamValue::Int(i) => ParamValue::Int(*i),
            ParamValue::Float(k, s) => ParamValue::Float(*k, s.clone()),
            ParamValue::Bool(b) => ParamValue::Bool(*b),
        }
    }

    /// Whether two values are equal (what `==` tells).
    pub fn same(&self, other: &ParamValue) -> (r: bool)
        ensures
            r == (self@ == other@),
    {
        match (self, other) {
            (ParamValue::Str(a), ParamValue::Str(b)) => *a == *b,
            (ParamValue::Int(a), ParamValue::Int(b)) => *a == *b,
            (ParamValue::Float(k, a), ParamValue::Float(l, b)) => *k == *l && *a == *b,
            (ParamValue::Bool(a), ParamValue::Bool(b)) => *a == *b,
            _ => false,
        }
    }

    /// The YAML value that holds this parameter value.
    pub fn to_yaml(&self) -> (r: YamlValue)
        ensures
            r@ == yaml_of_param(self@),
    {
        match self {
            ParamValue::Str(s) => YamlValue::Str(s.clone()),
            ParamValue::Int(i) => YamlValue::Int(*i),
            ParamValue::Float(k, s) => YamlValue::Float(*k, s.clone()),
            ParamValue::Bool(b) => YamlValue::Bool(*b),
        }
    }

    /// The integer held by an `Int`.
    pub fn unwrap_i64(&self) -> (r: i64)
        requires
            self is Int,
        ensures
            self@ == ParamView::Int(r),
    {
        match self {
            ParamValue::Int(i) => *i,
            _ => 0,
        }
    }

    /// The string held by a `Str`.
    pub fn unwrap_string(&self) -> (r: &str)
        requires
            self is Str,
        ensures
            self@ == ParamView::Str(r@),
    {
        match self {
            ParamValue::Str(s) => s.as_str(),
            _ => "",
        }
    }

    /// The boolean held by a `Bool`.
    pub fn unwrap_bool(&self) -> (r: bool)
        requires
            self is Bool,
        ensures
            self@ == ParamView::Bool(r),
    {
        match self {
            ParamValue::Bool(b) => *b,
            _ => false,
        }
    }

    /// What `Display` shows of the value.
    pub fn to_display_string(&self) -> (r: String)
        ensures
            r@ == display_of(self@),
    {
        match self {
            ParamValue::Str(s) => s.clone(),
            ParamValue::Int(i) => i64_to_string(*i),
            ParamValue::Float(_, s) => s.clone(),
            ParamValue::Bool(b) => {
                if *b {
                    let r = String::from_str("true");
                    proof {
                        reveal_strlit("true");
                    }
                    r
                } else {
                    let r = String::from_str("false");
                    proof {
                        reveal_strlit("false");
                    }
                    r
                }
            },
        }
    }

    /// Parses a parameter value from a string: an `i64` first, then a float
    /// (`float_key` is the order key of `s` read as a float, when it reads as one),
    /// then `true` or `false`, and otherwise the string itself.
    pub fn parse_with_float(s: &str, float_key: Option<u64>) -> (r: ParamValue)
        ensures
            r@ == parse_param(s@, float_key),
    {
        match parse_i64(s) {
            Some(i) => ParamValue::Int(i),
            None => match float_key {
                Some(k) => ParamValue::Float(k, s.to_owned()),
                None => {
                    let t = String::from_str(s);
                    let yes = String::from_str("true");
                    let no = String::from_str("false");
                    proof {
                        reveal_strlit("true");
                        reveal_strlit("false");
                    }
                    if t == yes {
                        ParamValue::Bool(true)
                    } else if t == no {
                        ParamValue::Bool(false)
                    } else {
                        ParamValue::Str(t)
                    }
                },
            },
        }
    }
}

impl SortKey for ParamValue {
    open spec fn key_le(self, other: Self) -> bool {
        param_le(self@, other@)
    }

    proof fn lemma_key_order(a: Self, b: Self, c: Self) {
        match (a@, b@, c@) {
            (ParamView::Str(x), ParamView::Str(y), ParamView::Str(z)) => {
                lemma_str_le_total_order(x, y, z);
            },
            (ParamView::Float(_, x), ParamView::Float(_, y), ParamView::Float(_, z)) => {
                lemma_str_le_total_order(x, y, z);
            },
            (ParamView::Str(x), ParamView::Str(y), _) => {
                lemma_str_le_total_order(x, y, x);
            },
            (ParamView::Float(_, x), ParamView::Float(_, y), _) => {
                lemma_str_le_total_order(x, y, x);
            },
            (ParamView::Str(x), _, _) => {
                lemma_str_le_total_order(x, x, x);
            },
            (ParamView::Float(_, x), _, _) => {
                lemma_str_le_total_order(x, x, x);
            },
            _ => {},
        }
    }

    fn key_le_exec(&self, other: &Self) -> (r: bool) {
        match (self, other) {
            (ParamValue::Str(x), ParamValue::Str(y)) => string_le(x, y),
            (ParamValue::Str(_), _) => true,
            (ParamValue::Int(_), ParamValue::Str(_)) => false,
            (ParamValue::Int(x), ParamValue::Int(y)) => *x <= *y,
            (ParamValue::Int(_), _) => true,
            (ParamValue::Float(_, _), ParamValue::Str(_)) => false,
            (ParamValue::Float(_, _), ParamValue::Int(_)) => false,
            (ParamValue::Float(k, s), ParamValue::Float(l, t)) => *k < *l || (*k == *l && string_le(
                s,
                t,
            )),
            (ParamValue::Float(_, _), ParamValue::Bool(_)) => true,
            (ParamValue::Bool(x), ParamValue::Bool(y)) => !*x || *y,
            (ParamValue::Bool(_), _) => false,
        }
    }
}

/// A scalar of a parameter file converts to a parameter value of the same
/// kind holding the same content (a float stays a float with its order key
/// and text, a text stays a text, ...), and converting back gives the scalar
/// again; every parameter value is such a conversion of its YAML value.
pub proof fn lemma_scalar_conversion(v: YamlView, p: ParamView)
    ensures
        forall|k: u64, t: Seq<char>|
            #[trigger] param_of_yaml(YamlView::Float(k, t)) == Ok::<ParamView, ParamError>(ParamView::Float(k, t)),
        forall|t: Seq<char>| #[trigger] param_of_yaml(YamlView::Str(t)) == Ok::<ParamView, ParamError>(ParamView::Str(t)),
        forall|i: i64| #[trigger] param_of_yaml(YamlView::Int(i)) == Ok::<ParamView, ParamError>(ParamView::Int(i)),
        forall|b: bool| #[trigger] param_of_yaml(YamlView::Bool(b)) == Ok::<ParamView, ParamError>(ParamView::Bool(b)),
        (v is Bool || v is Int || v is Float || v is Str) ==> (param_of_yaml(v) matches Ok(q) && yaml_of_param(q) == v),
        param_of_yaml(yaml_of_param(p)) == Ok::<ParamView, ParamError>(p),
{
}

} // verus!
