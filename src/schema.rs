use vstd::prelude::*;

use crate::state_value::{StateValue, ValueModel};
use crate::keys::{keys_unique, model_keys};
use crate::text::str_eq;

verus! {

/// The allowed values of each property of a block type, in order; the first
/// value of each list is the property's default.
pub type SchemaModel = Seq<(Seq<char>, Seq<ValueModel>)>;

/// The state schema of every block type. A block type that is not listed has
/// no properties.
pub open spec fn schema_of(block_type: Seq<char>) -> SchemaModel {
    if block_type == "repeater"@ {
        seq![
            (
                "delay"@,
                seq![
                    ValueModel::Text("1"@),
                    ValueModel::Text("2"@),
                    ValueModel::Text("3"@),
                    ValueModel::Text("4"@),
                ],
            ),
            (
                "facing"@,
                seq![
                    ValueModel::Text("south"@),
                    ValueModel::Text("north"@),
                    ValueModel::Text("east"@),
                    ValueModel::Text("west"@),
                ],
            ),
            ("locked"@, seq![ValueModel::Bool(false), ValueModel::Bool(true)]),
            ("powered"@, seq![ValueModel::Bool(false), ValueModel::Bool(true)]),
        ]
    } else if block_type == "redstone_torch"@ {
        seq![("lit"@, seq![ValueModel::Bool(false), ValueModel::Bool(true)])]
    } else {
        seq![]
    }
}

/// The model of a schema as the library hands it out.
pub open spec fn schema_view(s: Seq<(String, Vec<StateValue>)>) -> SchemaModel {
    s.map_values(|e: (String, Vec<StateValue>)| (e.0@, e.1@.map_values(|v: StateValue| v@)))
}

/// Every allowed-value list of a schema is non-empty.
pub open spec fn lists_non_empty(s: SchemaModel) -> bool {
    forall|i: int| 0 <= i < s.len() ==> #[trigger] s[i].1.len() > 0
}

pub proof fn lemma_schema_lists_non_empty(block_type: Seq<char>)
    ensures
        lists_non_empty(schema_of(block_type)),
{
}

pub proof fn lemma_schema_keys_unique(block_type: Seq<char>)
    ensures
        keys_unique(model_keys(schema_of(block_type))),
{
    reveal_strlit("delay");
    reveal_strlit("facing");
    reveal_strlit("locked");
    reveal_strlit("powered");
    let keys = model_keys(schema_of(block_type));
    if block_type == "repeater"@ {
        assert(keys =~= seq!["delay"@, "facing"@, "locked"@, "powered"@]);
        assert("delay"@.len() == 5 && "facing"@.len() == 6);
        assert("locked"@.len() == 6 && "powered"@.len() == 7);
        assert("facing"@[0] != "locked"@[0]);
        assert forall|i: int, j: int| 0 <= i < j < keys.len() implies keys[i] != keys[j] by {
            if i == 1 && j == 2 {
                assert(keys[i][0] != keys[j][0]);
            } else {
                assert(keys[i].len() != keys[j].len());
            }
        }
    }
}

fn text_values(a: &str, b: &str, c: &str, d: &str) -> (r: Vec<StateValue>)
    ensures
        r@.map_values(|v: StateValue| v@) =~= seq![
            ValueModel::Text(a@),
            ValueModel::Text(b@),
            ValueModel::Text(c@),
            ValueModel::Text(d@),
        ],
{
    let mut r: Vec<StateValue> = Vec::new();
    r.push(StateValue::from_text(a));
    r.push(StateValue::from_text(b));
    r.push(StateValue::from_text(c));
    r.push(StateValue::from_text(d));
    r
}

fn bool_values() -> (r: Vec<StateValue>)
    ensures
        r@.map_values(|v: StateValue| v@) =~= seq![ValueModel::Bool(false), ValueModel::Bool(true)],
{
    let mut r: Vec<StateValue> = Vec::new();
    r.push(StateValue::Bool(false));
    r.push(StateValue::Bool(true));
    r
}

/// The allowed values of each property of `block_type`; empty for a block
/// type without properties.
pub fn state_values_for(block_type: &str) -> (r: Vec<(String, Vec<StateValue>)>)
    ensures
        schema_view(r@) =~~= schema_of(block_type@),
{
    let mut r: Vec<(String, Vec<StateValue>)> = Vec::new();
    if str_eq(block_type, "repeater") {
        r.push(("delay".to_owned(), text_values("1", "2", "3", "4")));
        r.push(("facing".to_owned(), text_values("south", "north", "east", "west")));
        r.push(("locked".to_owned(), bool_values()));
        r.push(("powered".to_owned(), bool_values()));
    } else if str_eq(block_type, "redstone_torch") {
        r.push(("lit".to_owned(), bool_values()));
    }
    r
}

} // verus!
