use vstd::prelude::*;

use crate::block_state::{
    entries_of_pieces, entry_allowed, entry_text, lookup, parse_model, put, replace_existing,
    schema_valid, serialize_model, states_equal, update_result, updated, value_text,
    BlockStateView, Entries,
};
use crate::keys::{first_index, keys_unique, lemma_first_index, lemma_first_index_unique, model_keys};
use crate::schema::schema_of;
use crate::state_value::{bool_text, text_as_bool, ValueModel};
use crate::text::{lemma_pieces_join, lemma_pieces_single, pieces};

verus! {

/// Neither `,` nor `=` occurs in a text.
pub open spec fn separator_free(s: Seq<char>) -> bool {
    !s.contains(',') && !s.contains('=')
}

/// No property name or value text of the entries holds `,` or `=`.
pub open spec fn entries_separator_free(e: Entries) -> bool {
    forall|i: int|
        0 <= i < e.len() ==> separator_free((#[trigger] e[i]).0) && separator_free(
            value_text(e[i].1),
        )
}

/// Each entry with its value replaced by the value's text.
pub open spec fn as_text(e: Entries) -> Entries {
    e.map_values(|x: (Seq<char>, ValueModel)| (x.0, ValueModel::Text(value_text(x.1))))
}

proof fn lemma_concat_free(a: Seq<char>, b: Seq<char>, c: char)
    requires
        !a.contains(c),
        !b.contains(c),
    ensures
        !(a + b).contains(c),
{
    if (a + b).contains(c) {
        let k = choose|k: int| 0 <= k < (a + b).len() && (a + b)[k] == c;
        if k < a.len() {
            assert(a[k] == c);
        } else {
            assert(b[k - a.len()] == c);
        }
    }
}

proof fn lemma_serialized_pieces(e: Entries)
    requires
        e.len() > 0,
        entries_separator_free(e),
    ensures
        pieces(serialize_model(e), ',') == e.map_values(|x: (Seq<char>, ValueModel)| entry_text(x)),
    decreases e.len(),
{
    let m = e.map_values(|x: (Seq<char>, ValueModel)| entry_text(x));
    let last = e[e.len() - 1];
    assert(!seq!['='].contains(',')) by {
        if seq!['='].contains(',') {
            assert(seq!['='][0] == '=');
        }
    }
    lemma_concat_free(last.0, seq!['='], ',');
    lemma_concat_free(last.0 + seq!['='], value_text(last.1), ',');
    lemma_pieces_single(entry_text(last), ',');
    if e.len() == 1 {
        assert(m =~= seq![entry_text(e[0])]);
    } else {
        let init = e.drop_last();
        assert(entries_separator_free(init)) by {
            assert forall|i: int| 0 <= i < init.len() implies separator_free((#[trigger] init[i]).0)
                && separator_free(value_text(init[i].1)) by {
                assert(init[i] == e[i]);
            }
        }
        lemma_serialized_pieces(init);
        lemma_pieces_join(serialize_model(init), entry_text(e.last()), ',');
        assert(m =~= init.map_values(|x: (Seq<char>, ValueModel)| entry_text(x)).push(
            entry_text(e.last()),
        ));
    }
}

proof fn lemma_read_entries(e: Entries)
    requires
        keys_unique(model_keys(e)),
        entries_separator_free(e),
    ensures
        entries_of_pieces(e.map_values(|x: (Seq<char>, ValueModel)| entry_text(x))) == as_text(e),
    decreases e.len(),
{
    let ps = e.map_values(|x: (Seq<char>, ValueModel)| entry_text(x));
    if e.len() == 0 {
        assert(as_text(e) =~= Seq::<(Seq<char>, ValueModel)>::empty());
    } else {
        let init = e.drop_last();
        let last = e.last();
        assert(ps.drop_last() =~= init.map_values(|x: (Seq<char>, ValueModel)| entry_text(x)));
        assert(keys_unique(model_keys(init))) by {
            assert forall|i: int, j: int| 0 <= i < j < model_keys(init).len() implies model_keys(
                init,
            )[i] != model_keys(init)[j] by {
                assert(model_keys(init)[i] == model_keys(e)[i]);
                assert(model_keys(init)[j] == model_keys(e)[j]);
            }
        }
        assert(entries_separator_free(init)) by {
            assert forall|i: int| 0 <= i < init.len() implies separator_free((#[trigger] init[i]).0)
                && separator_free(value_text(init[i].1)) by {
                assert(init[i] == e[i]);
            }
        }
        lemma_read_entries(init);
        assert(separator_free(e[e.len() - 1].0));
        lemma_pieces_join(last.0, value_text(last.1), '=');
        lemma_pieces_single(last.0, '=');
        lemma_pieces_single(value_text(last.1), '=');
        let kv = pieces(ps.last(), '=');
        assert(kv =~= seq![last.0, value_text(last.1)]);
        let acc = as_text(init);
        assert(model_keys(acc) =~= model_keys(init));
        lemma_first_index(model_keys(acc), last.0);
        assert forall|i: int| 0 <= i < model_keys(acc).len() implies model_keys(acc)[i]
            != last.0 by {
            assert(model_keys(acc)[i] == model_keys(e)[i]);
            assert(model_keys(e)[e.len() - 1] == last.0);
        }
        assert(put(acc, kv[0], ValueModel::Text(kv[1])) =~= as_text(e));
    }
}

/// Reading back the serialized form of entries with unique names, none of
/// whose names or value texts holds `,` or `=`, gives an equal state.
pub proof fn lemma_round_trip_entries(st: BlockStateView)
    requires
        keys_unique(model_keys(st.entries)),
        entries_separator_free(st.entries),
    ensures
        states_equal(
            BlockStateView {
                block_type: st.block_type,
                entries: parse_model(serialize_model(st.entries)),
            },
            st,
        ),
{
    let e = st.entries;
    let parsed = parse_model(serialize_model(e));
    if e.len() == 0 {
        let ps = seq![Seq::<char>::empty()];
        assert(serialize_model(e) == Seq::<char>::empty());
        assert(pieces(Seq::<char>::empty(), ',') == ps);
        assert(ps.drop_last() =~= Seq::<Seq<char>>::empty());
        assert(pieces(ps.last(), '=').len() == 1);
        assert(entries_of_pieces(ps) == entries_of_pieces(ps.drop_last()));
        assert(parsed =~= Seq::<(Seq<char>, ValueModel)>::empty());
    } else {
        lemma_serialized_pieces(e);
        lemma_read_entries(e);
        reveal_strlit("true");
        reveal_strlit("false");
        assert(text_as_bool(bool_text(true)) == Some(true));
        assert("true"@ != "false"@) by {
            assert("true"@.len() != "false"@.len());
        }
        assert(text_as_bool(bool_text(false)) == Some(false));
        assert forall|i: int| 0 <= i < parsed.len() implies match lookup(e, (#[trigger] parsed[i]).0) {
            Some(w) => crate::state_value::values_match(parsed[i].1, w),
            None => false,
        } by {
            lemma_first_index_unique(model_keys(e), i);
            assert(model_keys(e)[i] == e[i].0);
        }
    }
}

/// No property name or allowed value text of any schema holds `,` or `=`.
pub proof fn lemma_schema_separator_free(block_type: Seq<char>)
    ensures
        forall|j: int|
            0 <= j < schema_of(block_type).len() ==> separator_free(
                (#[trigger] schema_of(block_type)[j]).0,
            ) && forall|m: int|
                0 <= m < schema_of(block_type)[j].1.len() ==> separator_free(
                    value_text(#[trigger] schema_of(block_type)[j].1[m]),
                ),
{
    reveal_strlit("delay");
    reveal_strlit("facing");
    reveal_strlit("locked");
    reveal_strlit("powered");
    reveal_strlit("lit");
    reveal_strlit("1");
    reveal_strlit("2");
    reveal_strlit("3");
    reveal_strlit("4");
    reveal_strlit("south");
    reveal_strlit("north");
    reveal_strlit("east");
    reveal_strlit("west");
    reveal_strlit("true");
    reveal_strlit("false");
    assert(separator_free(bool_text(true)) && separator_free(bool_text(false)));
}

/// Serializing a schema-valid state and reading it back under the same block
/// type gives an equal state.
pub proof fn lemma_parse_round_trip(st: BlockStateView)
    requires
        schema_valid(st),
    ensures
        states_equal(
            BlockStateView {
                block_type: st.block_type,
                entries: parse_model(serialize_model(st.entries)),
            },
            st,
        ),
{
    let s = schema_of(st.block_type);
    let e = st.entries;
    lemma_schema_separator_free(st.block_type);
    assert forall|i: int| 0 <= i < e.len() implies separator_free((#[trigger] e[i]).0)
        && separator_free(value_text(e[i].1)) by {
        assert(entry_allowed(s, e[i]));
        let j = first_index(model_keys(s), e[i].0);
        lemma_first_index(model_keys(s), e[i].0);
        assert(model_keys(s)[j] == s[j].0);
        let m = choose|m: int| 0 <= m < s[j].1.len() && s[j].1[m] == e[i].1;
        assert(separator_free(value_text(s[j].1[m])));
    }
    lemma_round_trip_entries(st);
}

/// On a schema-valid state, an accepted change of a property is read back
/// as the value given, and every other property reads as before.
pub proof fn lemma_update_then_read(st: BlockStateView, prop: Seq<char>, v: ValueModel)
    requires
        schema_valid(st),
        update_result(st, prop, v) is Ok,
    ensures
        lookup(updated(st, prop, v).entries, prop) == Some(v),
        forall|k: Seq<char>|
            k != prop ==> lookup(#[trigger] updated(st, prop, v).entries, k) == lookup(
                st.entries,
                k,
            ),
{
    let s = schema_of(st.block_type);
    let e = st.entries;
    let j = first_index(model_keys(s), prop);
    lemma_first_index(model_keys(s), prop);
    assert(model_keys(s)[j] == s[j].0);
    assert(first_index(model_keys(e), s[j].0) >= 0);
    let i = first_index(model_keys(e), prop);
    lemma_first_index(model_keys(e), prop);
    let e2 = replace_existing(e, prop, v);
    assert(e2 == e.update(i, (prop, v)));
    assert(model_keys(e2) =~= model_keys(e)) by {
        assert(model_keys(e)[i] == prop);
    }
    assert forall|k: Seq<char>| k != prop implies #[trigger] lookup(e2, k) == lookup(e, k) by {
        lemma_first_index(model_keys(e), k);
    }
}

} // verus!
