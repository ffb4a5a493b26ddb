use vstd::prelude::*;

use crate::block_state::{entries_view, lookup, BlockState, Entries};
use crate::state_value::{values_match, values_match_exec, StateValue};

verus! {

/// How one model is drawn for a block in a given state.
#[derive(Clone, Debug, PartialEq, Eq)]
pub struct ModelProperties {
    /// The model's resource location, such as `minecraft:block/repeater_2tick`.
    pub model: String,
    /// Rotation about the x-axis, in degrees.
    pub x: i32,
    /// Rotation about the y-axis, in degrees.
    pub y: i32,
    /// Whether the texture keeps its orientation when the model rotates.
    pub uv_lock: bool,
    /// Relative likelihood of this model among several.
    pub weight: u32,
}

/// The visual variant chosen for a block state: one model, or several to
/// choose from by weight.
#[derive(Clone, Debug, PartialEq, Eq)]
pub enum Variant {
    Single(ModelProperties),
    Multiple(Vec<ModelProperties>),
}

/// Required values, all of which must match: property name to required value.
/// A required string may list alternatives separated by `|`.
#[derive(Clone, Debug)]
pub struct Condition {
    pub and: Vec<(String, StateValue)>,
}

/// When a case applies: when its one condition holds, or when any of several
/// conditions holds.
#[derive(Clone, Debug)]
pub enum WhenClause {
    Single(Condition),
    Or(Vec<Condition>),
}

/// One entry of a rule table: the variant to use when the clause applies. A
/// case without a clause always applies.
#[derive(Clone, Debug)]
pub struct VariantCase {
    pub when: Option<WhenClause>,
    pub apply: Variant,
}

/// Why no variant could be chosen; either way the rule table and the state
/// schema disagree.
#[derive(Clone, Copy, Debug, PartialEq, Eq, Structural)]
pub enum VariantError {
    /// No case applies to the state.
    NoMatchingVariant,
    /// More than one case applies to the state.
    MultipleMatchingVariants,
}

/// Every required property is present in the entries with a value that the
/// required value matches.
pub open spec fn condition_holds(c: Entries, e: Entries) -> bool {
    forall|i: int|
        0 <= i < c.len() ==> match lookup(e, (#[trigger] c[i]).0) {
            Some(v) => values_match(c[i].1, v),
            None => false,
        }
}

pub open spec fn condition_model(c: Condition) -> Entries {
    entries_view(c.and@)
}

/// Whether some condition of the list holds of the entries.
pub open spec fn any_condition_holds(cs: Seq<Condition>, e: Entries) -> bool {
    exists|k: int| 0 <= k < cs.len() && condition_holds(condition_model(#[trigger] cs[k]), e)
}

/// Whether a clause holds of the entries.
pub open spec fn when_holds(w: WhenClause, e: Entries) -> bool {
    match w {
        WhenClause::Single(c) => condition_holds(condition_model(c), e),
        WhenClause::Or(cs) => any_condition_holds(cs@, e),
    }
}

/// Whether a case applies to the entries.
pub open spec fn case_applies(c: VariantCase, e: Entries) -> bool {
    match c.when {
        None => true,
        Some(w) => when_holds(w, e),
    }
}

/// What choosing a variant from `rules` answers for the entries: the variant
/// of the one case that applies, or an error when none or several apply.
pub open spec fn resolved(rules: Seq<VariantCase>, e: Entries) -> Result<Variant, VariantError> {
    if forall|i: int| 0 <= i < rules.len() ==> !case_applies(#[trigger] rules[i], e) {
        Err(VariantError::NoMatchingVariant)
    } else if exists|i: int, j: int|
        0 <= i < j < rules.len() && case_applies(#[trigger] rules[i], e) && case_applies(
            #[trigger] rules[j],
            e,
        ) {
        Err(VariantError::MultipleMatchingVariants)
    } else {
        let i = choose|i: int| 0 <= i < rules.len() && case_applies(#[trigger] rules[i], e);
        Ok(rules[i].apply)
    }
}

impl Condition {
    /// Whether every required property of the condition is present in
    /// `state` with a value that the required value matches.
    pub fn applies(&self, state: &BlockState) -> (r: bool)
        ensures
            r == condition_holds(condition_model(*self), state@.entries),
    {
        let ghost c = condition_model(*self);
        let mut i: usize = 0;
        while i < self.and.len()
            invariant
                c == entries_view(self.and@),
                i <= c.len(),
                forall|k: int|
                    0 <= k < i ==> match lookup(state@.entries, (#[trigger] c[k]).0) {
                        Some(v) => values_match(c[k].1, v),
                        None => false,
                    },
            decreases c.len() - i,
        {
            assert(c[i as int] == (self.and@[i as int].0@, self.and@[i as int].1@));
            match state.get(self.and[i].0.as_str()) {
                Some(v) => {
                    if !values_match_exec(&self.and[i].1, v) {
                        return false;
                    }
                },
                None => {
                    return false;
                },
            }
            i += 1;
        }
        true
    }
}

impl WhenClause {
    /// Whether the clause holds of `state`.
    pub fn applies(&self, state: &BlockState) -> (r: bool)
        ensures
            r == when_holds(*self, state@.entries),
    {
        match self {
            WhenClause::Single(c) => c.applies(state),
            WhenClause::Or(cs) => {
                let mut k: usize = 0;
                while k < cs.len()
                    invariant
                        *self == WhenClause::Or(*cs),
                        k <= cs@.len(),
                        forall|m: int|
                            0 <= m < k ==> !condition_holds(
                                condition_model(#[trigger] cs@[m]),
                                state@.entries,
                            ),
                    decreases cs@.len() - k,
                {
                    if cs[k].applies(state) {
                        assert(condition_holds(condition_model(cs@[k as int]), state@.entries));
                        return true;
                    }
                    k += 1;
                }
                false
            },
        }
    }
}

impl VariantCase {
    /// Whether the case applies to `state`.
    pub fn applies(&self, state: &BlockState) -> (r: bool)
        ensures
            r == case_applies(*self, state@.entries),
    {
        match &self.when {
            None => true,
            Some(w) => w.applies(state),
        }
    }
}

impl BlockState {
    /// The variant of the one case of `rules` that applies to this state. When
    /// no case applies, or more than one does, the rule table is inconsistent
    /// with the schema and the matching error is returned.
    pub fn active_variant(&self, rules: Vec<VariantCase>) -> (r: Result<Variant, VariantError>)
        ensures
            r == resolved(rules@, self@.entries),
            r == Err::<Variant, VariantError>(VariantError::NoMatchingVariant) <==> forall|i: int|
                0 <= i < rules@.len() ==> !case_applies(#[trigger] rules@[i], self@.entries),
            r == Err::<Variant, VariantError>(VariantError::MultipleMatchingVariants) <==> exists|
                i: int,
                j: int,
            |
                0 <= i < j < rules@.len() && case_applies(#[trigger] rules@[i], self@.entries)
                    && case_applies(#[trigger] rules@[j], self@.entries),
            r is Ok ==> exists|i: int|
                0 <= i < rules@.len() && case_applies(#[trigger] rules@[i], self@.entries) && (
                forall|j: int|
                    0 <= j < rules@.len() && j != i ==> !case_applies(
                        #[trigger] rules@[j],
                        self@.entries,
                    )) && r == Ok::<Variant, VariantError>(rules@[i].apply),
    {
        let ghost e = self@.entries;
        let ghost cases = rules@;
        let n = rules.len();
        let mut found: Option<usize> = None;
        let mut i: usize = 0;
        while i < n
            invariant
                n == cases.len(),
                cases == rules@,
                e == self@.entries,
                i <= n,
                match found {
                    None => forall|k: int| 0 <= k < i ==> !case_applies(#[trigger] cases[k], e),
                    Some(f) => f < i && case_applies(cases[f as int], e) && forall|k: int|
                        0 <= k < i && k != f ==> !case_applies(#[trigger] cases[k], e),
                },
            decreases n - i,
        {
            if rules[i].applies(self) {
                if let Some(f) = found {
                    assert(case_applies(cases[f as int], e) && case_applies(cases[i as int], e));
                    return Err(VariantError::MultipleMatchingVariants);
                }
                found = Some(i);
            }
            i += 1;
        }
        match found {
            None => Err(VariantError::NoMatchingVariant),
            Some(f) => {
                proof {
                    assert(case_applies(cases[f as int], e));
                    assert(!exists|a: int, b: int|
                        0 <= a < b < cases.len() && case_applies(#[trigger] cases[a], e)
                            && case_applies(#[trigger] cases[b], e));
                    let c = choose|c: int| 0 <= c < cases.len() && case_applies(#[trigger] cases[c], e);
                    assert(c == f as int);
                }
                let mut rules = rules;
                let case = rules.remove(f);
                Ok(case.apply)
            },
        }
    }
}

} // verus!
