use vstd::prelude::*;

use minecraft_assets::schemas::blockstates::multipart::StateValue as OutsideValue;

use crate::text::pieces;

verus! {

/// The value of one block-state property: an unquoted boolean or a string,
/// where a string may list alternatives separated by `|`.
#[derive(Clone, Debug)]
pub enum StateValue {
    Bool(bool),
    String(String),
}

/// The mathematical model of a [`StateValue`].
pub enum ValueModel {
    Bool(bool),
    Text(Seq<char>),
}

impl View for StateValue {
    type V = ValueModel;

    open spec fn view(&self) -> ValueModel {
        match self {
            StateValue::Bool(b) => ValueModel::Bool(*b),
            StateValue::String(s) => ValueModel::Text(s@),
        }
    }
}

/// The text form of a boolean.
pub open spec fn bool_text(b: bool) -> Seq<char> {
    if b {
        "true"@
    } else {
        "false"@
    }
}

/// A text read as a boolean, where it spells one.
pub open spec fn text_as_bool(s: Seq<char>) -> Option<bool> {
    if s == "true"@ {
        Some(true)
    } else if s == "false"@ {
        Some(false)
    } else {
        None
    }
}

/// A value read as a boolean, where it is one or spells one.
pub open spec fn value_as_bool(v: ValueModel) -> Option<bool> {
    match v {
        ValueModel::Bool(b) => Some(b),
        ValueModel::Text(s) => text_as_bool(s),
    }
}

/// Whether `wanted` is one of the `|`-separated alternatives of `s`.
pub open spec fn is_alternative(s: Seq<char>, wanted: Seq<char>) -> bool {
    pieces(s, '|').contains(wanted)
}

/// Whether two values match: a boolean matches the same boolean, spelled or
/// not; two strings match when they are equal or one is an alternative of the
/// other.
pub open spec fn values_match(a: ValueModel, b: ValueModel) -> bool {
    match a {
        ValueModel::Bool(x) => value_as_bool(b) == Some(x),
        ValueModel::Text(s) => match b {
            ValueModel::Bool(y) => text_as_bool(s) == Some(y),
            ValueModel::Text(t) => s == t || is_alternative(s, t) || is_alternative(t, s),
        },
    }
}

/// Relies on the `PartialEq` impl of `minecraft_assets`'
/// `schemas::blockstates::multipart::StateValue`, which compares booleans with
/// their spelled forms and strings with `|`-separated alternatives.
#[verifier::external_body]
pub(crate) fn values_match_exec(a: &StateValue, b: &StateValue) -> (r: bool)
    ensures
        r == values_match(a@, b@),
{
    let convert = |v: &StateValue| match v {
        StateValue::Bool(b) => OutsideValue::Bool(*b),
        StateValue::String(s) => OutsideValue::String(s.clone()),
    };
    convert(a) == convert(b)
}

impl PartialEq for StateValue {
    fn eq(&self, other: &StateValue) -> (r: bool) {
        values_match_exec(self, other)
    }
}

impl vstd::std_specs::cmp::PartialEqSpecImpl for StateValue {
    open spec fn obeys_eq_spec() -> bool {
        true
    }

    open spec fn eq_spec(&self, other: &StateValue) -> bool {
        values_match(self@, other@)
    }
}

impl StateValue {
    /// A string value holding exactly `s`.
    pub fn from_text(s: &str) -> (r: StateValue)
        ensures
            r@ == ValueModel::Text(s@),
    {
        StateValue::String(s.to_owned())
    }

    /// A copy of this value.
    pub fn copied(&self) -> (r: StateValue)
        ensures
            r@ == self@,
    {
        match self {
            StateValue::Bool(b) => StateValue::Bool(*b),
            StateValue::String(s) => StateValue::String(s.clone()),
        }
    }
}

} // verus!
