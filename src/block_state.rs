use vstd::prelude::*;
use vstd::string::*;

use crate::keys::{
    find_key, first_index, key_seq, keys_unique, lemma_first_index, lemma_first_index_unique,
    model_keys,
};
use crate::schema::{
    lemma_schema_keys_unique, lemma_schema_lists_non_empty, schema_of, schema_view,
    state_values_for, SchemaModel,
};
use crate::state_value::{bool_text, values_match, values_match_exec, StateValue, ValueModel};
use crate::text::{pieces, split_char, string_views};

verus! {

/// Property names paired with their values.
pub type Entries = Seq<(Seq<char>, ValueModel)>;

/// The mathematical model of a [`BlockState`].
pub struct BlockStateView {
    pub block_type: Seq<char>,
    pub entries: Entries,
}

/// The current state of one block: its type and the value of each of its
/// properties. No property name occurs twice.
#[derive(Clone, Debug)]
pub struct BlockState {
    pub block_type: String,
    values: Vec<(String, StateValue)>,
}

pub open spec fn entries_view(v: Seq<(String, StateValue)>) -> Entries {
    v.map_values(|e: (String, StateValue)| (e.0@, e.1@))
}

impl View for BlockState {
    type V = BlockStateView;

    closed spec fn view(&self) -> BlockStateView {
        BlockStateView { block_type: self.block_type@, entries: entries_view(self.values@) }
    }
}

pub proof fn lemma_keys_view(v: Seq<(String, StateValue)>)
    ensures
        key_seq(v) == model_keys(entries_view(v)),
{
    assert(key_seq(v) =~= model_keys(entries_view(v)));
}

/// The value of property `k`, if the entries name it.
pub open spec fn lookup(e: Entries, k: Seq<char>) -> Option<ValueModel> {
    let i = first_index(model_keys(e), k);
    if i >= 0 {
        Some(e[i].1)
    } else {
        None
    }
}

/// The entries with property `k` set to `v`, added at the end if it is new.
pub open spec fn put(e: Entries, k: Seq<char>, v: ValueModel) -> Entries {
    let i = first_index(model_keys(e), k);
    if i >= 0 {
        e.update(i, (k, v))
    } else {
        e.push((k, v))
    }
}

/// The entries with property `k` set to `v` where they name it, else unchanged.
pub open spec fn replace_existing(e: Entries, k: Seq<char>, v: ValueModel) -> Entries {
    let i = first_index(model_keys(e), k);
    if i >= 0 {
        e.update(i, (k, v))
    } else {
        e
    }
}

/// The entries read from comma-separated pieces: an empty piece or one without
/// `=` is skipped; otherwise the text before the first `=` names the property
/// and the text up to the next `=` is its string value; a later piece for the
/// same property overrides the earlier one's value.
pub open spec fn entries_of_pieces(ps: Seq<Seq<char>>) -> Entries
    decreases ps.len(),
{
    if ps.len() == 0 {
        Seq::empty()
    } else {
        let acc = entries_of_pieces(ps.drop_last());
        let kv = pieces(ps.last(), '=');
        if kv.len() < 2 {
            acc
        } else {
            put(acc, kv[0], ValueModel::Text(kv[1]))
        }
    }
}

/// The entries holding the given pairs in order, a later value for the same
/// property overriding the earlier one.
pub open spec fn entries_of_pairs(pairs: Entries) -> Entries
    decreases pairs.len(),
{
    if pairs.len() == 0 {
        Seq::empty()
    } else {
        put(entries_of_pairs(pairs.drop_last()), pairs.last().0, pairs.last().1)
    }
}

/// The entries that a serialized state such as `delay=2,facing=north` stands for.
pub open spec fn parse_model(s: Seq<char>) -> Entries {
    entries_of_pieces(pieces(s, ','))
}

/// Each property of a schema with its default, the first allowed value.
pub open spec fn default_entries(s: SchemaModel) -> Entries {
    s.map_values(|p: (Seq<char>, Seq<ValueModel>)| (p.0, p.1[0]))
}

/// The schema of the block type declares the property of `entry` and lists
/// its value among the allowed ones.
pub open spec fn entry_allowed(s: SchemaModel, entry: (Seq<char>, ValueModel)) -> bool {
    let j = first_index(model_keys(s), entry.0);
    j >= 0 && s[j].1.contains(entry.1)
}

/// A state holds exactly the properties that its type's schema declares, once
/// each, each with one of its allowed values.
pub open spec fn schema_valid(st: BlockStateView) -> bool {
    let s = schema_of(st.block_type);
    &&& keys_unique(model_keys(st.entries))
    &&& st.entries.len() == s.len()
    &&& forall|i: int| 0 <= i < st.entries.len() ==> entry_allowed(s, #[trigger] st.entries[i])
    &&& forall|j: int|
        0 <= j < s.len() ==> first_index(model_keys(st.entries), #[trigger] s[j].0) >= 0
}

/// Why a state change was refused.
#[derive(Clone, Copy, Debug, PartialEq, Eq, Structural)]
pub enum InvalidStateTransition {
    /// The block type declares no such property.
    UnknownProperty,
    /// The value is not among the property's allowed values.
    DisallowedValue,
}

/// The six faces of a block.
#[derive(Clone, Copy, Debug, PartialEq, Eq, Structural)]
pub enum BlockFace {
    Down,
    Up,
    North,
    South,
    West,
    East,
}

/// The `facing` value that names a face.
pub open spec fn face_text(face: BlockFace) -> Seq<char> {
    match face {
        BlockFace::Down => "down"@,
        BlockFace::Up => "up"@,
        BlockFace::North => "north"@,
        BlockFace::South => "south"@,
        BlockFace::West => "west"@,
        BlockFace::East => "east"@,
    }
}

/// The `facing` value that names `face`.
pub fn face_name(face: BlockFace) -> (r: &'static str)
    ensures
        r@ == face_text(face),
{
    match face {
        BlockFace::Down => "down",
        BlockFace::Up => "up",
        BlockFace::North => "north",
        BlockFace::South => "south",
        BlockFace::West => "west",
        BlockFace::East => "east",
    }
}

/// Some allowed value matches `v`.
pub open spec fn allowed_by(list: Seq<ValueModel>, v: ValueModel) -> bool {
    exists|k: int| 0 <= k < list.len() && values_match(#[trigger] list[k], v)
}

/// What setting property `prop` of `st` to `v` answers: refused when the
/// block type does not declare the property or no allowed value matches `v`.
pub open spec fn update_result(st: BlockStateView, prop: Seq<char>, v: ValueModel) -> Result<
    (),
    InvalidStateTransition,
> {
    let s = schema_of(st.block_type);
    let j = first_index(model_keys(s), prop);
    if j < 0 {
        Err(InvalidStateTransition::UnknownProperty)
    } else if !allowed_by(s[j].1, v) {
        Err(InvalidStateTransition::DisallowedValue)
    } else {
        Ok(())
    }
}

/// The state after an accepted change of property `prop` to `v`: the value
/// is replaced where the state holds the property; nothing else changes.
pub open spec fn updated(st: BlockStateView, prop: Seq<char>, v: ValueModel) -> BlockStateView {
    BlockStateView { block_type: st.block_type, entries: replace_existing(st.entries, prop, v) }
}

/// The text of a value: a boolean spelled out, a string as it is.
pub open spec fn value_text(v: ValueModel) -> Seq<char> {
    match v {
        ValueModel::Bool(b) => bool_text(b),
        ValueModel::Text(s) => s,
    }
}

/// One serialized entry, `key=value`.
pub open spec fn entry_text(e: (Seq<char>, ValueModel)) -> Seq<char> {
    e.0 + seq!['='] + value_text(e.1)
}

/// The serialized form of the entries: each entry's text, joined by commas.
pub open spec fn serialize_model(e: Entries) -> Seq<char>
    decreases e.len(),
{
    if e.len() == 0 {
        Seq::empty()
    } else if e.len() == 1 {
        entry_text(e[0])
    } else {
        serialize_model(e.drop_last()) + seq![','] + entry_text(e.last())
    }
}

/// Two states are equal when they have the same block type and the same
/// number of properties, and each property of the first is held by the
/// second with a matching value.
pub open spec fn states_equal(a: BlockStateView, b: BlockStateView) -> bool {
    &&& a.block_type == b.block_type
    &&& a.entries.len() == b.entries.len()
    &&& forall|i: int|
        0 <= i < a.entries.len() ==> match lookup(b.entries, (#[trigger] a.entries[i]).0) {
            Some(w) => values_match(a.entries[i].1, w),
            None => false,
        }
}

fn any_match(list: &Vec<StateValue>, v: &StateValue) -> (r: bool)
    ensures
        r == allowed_by(list@.map_values(|x: StateValue| x@), v@),
{
    let ghost l = list@.map_values(|x: StateValue| x@);
    let mut k: usize = 0;
    while k < list.len()
        invariant
            k <= list@.len(),
            l == list@.map_values(|x: StateValue| x@),
            forall|m: int| 0 <= m < k ==> !values_match(#[trigger] l[m], v@),
        decreases list@.len() - k,
    {
        if values_match_exec(&list[k], v) {
            assert(values_match(l[k as int], v@));
            return true;
        }
        k += 1;
    }
    false
}

fn put_entry(v: &mut Vec<(String, StateValue)>, k: String, val: StateValue)
    requires
        keys_unique(key_seq(old(v)@)),
    ensures
        entries_view(final(v)@) == put(entries_view(old(v)@), k@, val@),
        keys_unique(key_seq(final(v)@)),
{
    proof {
        lemma_keys_view(v@);
        lemma_first_index(key_seq(v@), k@);
    }
    let ghost before = v@;
    match find_key(v, k.as_str()) {
        Some(i) => {
            v.set(i, (k, val));
            assert(key_seq(v@) =~= key_seq(before));
        },
        None => {
            v.push((k, val));
            assert(key_seq(v@) =~= key_seq(before).push(k@));
        },
    }
    assert(entries_view(v@) =~= put(entries_view(before), k@, val@));
}

impl BlockState {
    /// No property name occurs twice.
    pub open spec fn well_formed(&self) -> bool {
        keys_unique(model_keys(self@.entries))
    }

    /// The state of a block of `block_type` with every property the schema
    /// declares set to its default value.
    pub fn initial_state_for(block_type: &str) -> (r: BlockState)
        ensures
            r@.block_type == block_type@,
            r@.entries == default_entries(schema_of(block_type@)),
            r.well_formed(),
            schema_valid(r@),
    {
        let allowed = state_values_for(block_type);
        let ghost s = schema_of(block_type@);
        proof {
            lemma_schema_lists_non_empty(block_type@);
            lemma_schema_keys_unique(block_type@);
        }
        let mut values: Vec<(String, StateValue)> = Vec::new();
        let mut i: usize = 0;
        while i < allowed.len()
            invariant
                schema_view(allowed@) =~~= s,
                forall|j: int| 0 <= j < s.len() ==> #[trigger] s[j].1.len() > 0,
                i <= allowed@.len(),
                entries_view(values@) =~= default_entries(s).subrange(0, i as int),
            decreases allowed@.len() - i,
        {
            let ghost before = values@;
            let name = allowed[i].0.clone();
            assert(s[i as int].1.len() > 0);
            assert(allowed@[i as int].1@.len() > 0);
            let value = allowed[i].1[0].copied();
            values.push((name, value));
            assert(entries_view(values@) =~= entries_view(before).push((name@, value@)));
            i += 1;
        }
        let r = BlockState { block_type: block_type.to_owned(), values };
        proof {
            let e = r@.entries;
            assert(e =~= default_entries(s));
            assert(model_keys(e) =~= model_keys(s));
            assert forall|k: int| 0 <= k < e.len() implies entry_allowed(s, #[trigger] e[k]) by {
                lemma_first_index_unique(model_keys(s), k);
                assert(s[k].1[0] == e[k].1);
            }
            assert forall|k: int| 0 <= k < s.len() implies first_index(
                model_keys(e),
                #[trigger] s[k].0,
            ) >= 0 by {
                lemma_first_index_unique(model_keys(s), k);
            }
        }
        r
    }

    /// A state of `block_type` holding the given property values, taken in
    /// order; a repeated property keeps the last value given for it. The
    /// values are not checked against the schema.
    pub fn with_values(block_type: &str, values: Vec<(String, StateValue)>) -> (r: BlockState)
        ensures
            r@.block_type == block_type@,
            r@.entries == entries_of_pairs(entries_view(values@)),
            r.well_formed(),
    {
        let mut out: Vec<(String, StateValue)> = Vec::new();
        let mut values = values;
        let ghost given = entries_view(values@);
        let n = values.len();
        let mut i: usize = 0;
        while i < n
            invariant
                n == given.len(),
                i <= n,
                entries_view(values@) == given.subrange(i as int, n as int),
                values@.len() == n - i,
                entries_view(out@) == entries_of_pairs(given.subrange(0, i as int)),
                keys_unique(key_seq(out@)),
            decreases n - i,
        {
            proof {
                assert(given.subrange(0, i + 1).drop_last() =~= given.subrange(0, i as int));
            }
            assert(given.subrange(i as int, n as int)[0] == given[i as int]);
            let ghost before = values@;
            let (k, v) = values.remove(0);
            assert(values@ == before.remove(0));
            assert(entries_view(values@) =~= entries_view(before).subrange(1, before.len() as int));
            proof {
                assert(given.subrange(0, i + 1).last() == given[i as int]);
                assert(entries_view(values@) =~= given.subrange(i + 1, n as int));
            }
            put_entry(&mut out, k, v);
            i += 1;
        }
        proof {
            lemma_keys_view(out@);
            assert(given.subrange(0, n as int) =~= given);
        }
        BlockState { block_type: block_type.to_owned(), values: out }
    }

    /// A state read from its serialized form, property entries `key=value`
    /// joined by commas. The values are not checked against the schema. An
    /// empty entry, or one without `=`, is skipped; a repeated property keeps
    /// the last value given for it.
    pub fn new(block_type: &str, state_values: &str) -> (r: BlockState)
        ensures
            r@.block_type == block_type@,
            r@.entries == parse_model(state_values@),
            r.well_formed(),
    {
        let values = Self::parse(state_values);
        proof {
            lemma_keys_view(values@);
        }
        BlockState { block_type: block_type.to_owned(), values }
    }

    fn parse(input: &str) -> (r: Vec<(String, StateValue)>)
        ensures
            entries_view(r@) == parse_model(input@),
            keys_unique(key_seq(r@)),
    {
        let parts = split_char(input, ',');
        let mut out: Vec<(String, StateValue)> = Vec::new();
        let mut i: usize = 0;
        while i < parts.len()
            invariant
                string_views(parts@) == pieces(input@, ','),
                i <= parts@.len(),
                entries_view(out@) == entries_of_pieces(string_views(parts@).subrange(0, i as int)),
                keys_unique(key_seq(out@)),
            decreases parts@.len() - i,
        {
            let ghost ps = string_views(parts@);
            proof {
                assert(ps.subrange(0, i + 1).drop_last() =~= ps.subrange(0, i as int));
                assert(ps.subrange(0, i + 1).last() == parts@[i as int]@);
            }
            let kv = split_char(parts[i].as_str(), '=');
            if kv.len() >= 2 {
                assert(string_views(kv@)[0] == kv@[0]@);
                assert(string_views(kv@)[1] == kv@[1]@);
                put_entry(&mut out, kv[0].clone(), StateValue::String(kv[1].clone()));
            }
            i += 1;
        }
        assert(string_views(parts@).subrange(0, parts@.len() as int) =~= string_views(parts@));
        out
    }

    /// The value of property `prop`, if the state has it.
    pub fn get(&self, prop: &str) -> (r: Option<&StateValue>)
        ensures
            match r {
                Some(v) => lookup(self@.entries, prop@) == Some(v@),
                None => lookup(self@.entries, prop@) is None,
            },
    {
        proof {
            lemma_keys_view(self.values@);
            lemma_first_index(key_seq(self.values@), prop@);
        }
        match find_key(&self.values, prop) {
            Some(i) => Some(&self.values[i].1),
            None => None,
        }
    }

    /// Sets property `prop` to `value` if the block type declares the property
    /// and one of its allowed values matches `value`; otherwise refuses and
    /// leaves the state as it was.
    pub fn update(&mut self, prop: &str, value: StateValue) -> (r: Result<(), InvalidStateTransition>)
        requires
            old(self).well_formed(),
        ensures
            final(self).well_formed(),
            r == update_result(old(self)@, prop@, value@),
            r is Ok ==> final(self)@ == updated(old(self)@, prop@, value@),
            r is Err ==> *final(self) == *old(self),
            r is Ok && lookup(old(self)@.entries, prop@) is Some ==> lookup(
                final(self)@.entries,
                prop@,
            ) == Some(value@),
            forall|k: Seq<char>|
                k != prop@ ==> lookup(#[trigger] final(self)@.entries, k) == lookup(
                    old(self)@.entries,
                    k,
                ),
    {
        let allowed = state_values_for(self.block_type.as_str());
        let ghost s = schema_of(self.block_type@);
        proof {
            assert(key_seq(allowed@) =~= model_keys(s));
            lemma_first_index(model_keys(s), prop@);
        }
        let j = match find_key(&allowed, prop) {
            Some(j) => j,
            None => {
                return Err(InvalidStateTransition::UnknownProperty);
            },
        };
        assert(allowed@[j as int].1@.map_values(|x: StateValue| x@) =~= s[j as int].1);
        if !any_match(&allowed[j].1, &value) {
            return Err(InvalidStateTransition::DisallowedValue);
        }
        proof {
            lemma_keys_view(self.values@);
            lemma_first_index(key_seq(self.values@), prop@);
        }
        let ghost before = self.values@;
        match find_key(&self.values, prop) {
            Some(i) => {
                self.values.set(i, (prop.to_owned(), value));
                proof {
                    assert(key_seq(self.values@) =~= key_seq(before));
                    assert(entries_view(self.values@) =~= entries_view(before).update(
                        i as int,
                        (prop@, value@),
                    ));
                    lemma_keys_view(self.values@);
                    let e = entries_view(self.values@);
                    assert forall|k: Seq<char>| k != prop@ implies lookup(e, k) == lookup(
                        entries_view(before),
                        k,
                    ) by {
                        lemma_first_index(model_keys(e), k);
                        lemma_first_index(model_keys(entries_view(before)), k);
                    }
                }
            },
            None => {},
        }
        Ok(())
    }

    /// Sets property `facing` to the name of `face`, on the terms of `update`.
    pub fn set_facing(&mut self, face: BlockFace) -> (r: Result<(), InvalidStateTransition>)
        requires
            old(self).well_formed(),
        ensures
            final(self).well_formed(),
            r == update_result(old(self)@, "facing"@, ValueModel::Text(face_text(face))),
            r is Ok ==> final(self)@ == updated(
                old(self)@,
                "facing"@,
                ValueModel::Text(face_text(face)),
            ),
            r is Err ==> *final(self) == *old(self),
    {
        self.update("facing", StateValue::from_text(face_name(face)))
    }

    /// The serialized form of the state: `key=value` entries joined by commas.
    pub fn serialize(&self) -> (r: String)
        ensures
            r@ == serialize_model(self@.entries),
    {
        let ghost e = self@.entries;
        proof {
            reveal_strlit(",");
            reveal_strlit("=");
            assert(","@ =~= seq![',']);
            assert("="@ =~= seq!['=']);
        }
        let mut out = String::new();
        let mut i: usize = 0;
        while i < self.values.len()
            invariant
                e == entries_view(self.values@),
                i <= e.len(),
                out@ == serialize_model(e.subrange(0, i as int)),
                ","@ == seq![','],
                "="@ == seq!['='],
            decreases e.len() - i,
        {
            let ghost prefix = out@;
            proof {
                assert(e.subrange(0, i + 1).drop_last() =~= e.subrange(0, i as int));
                assert(e.subrange(0, i + 1).last() == e[i as int]);
            }
            if i > 0 {
                out.append(",");
            }
            let ghost head = out@;
            out.append(self.values[i].0.as_str());
            out.append("=");
            match &self.values[i].1 {
                StateValue::Bool(b) => {
                    if *b {
                        out.append("true");
                    } else {
                        out.append("false");
                    }
                },
                StateValue::String(t) => {
                    out.append(t.as_str());
                },
            }
            assert(out@ =~= head + entry_text(e[i as int]));
            if i == 0 {
                assert(e.subrange(0, 1) =~= seq![e[0]]);
                assert(out@ =~= serialize_model(e.subrange(0, 1)));
            } else {
                assert(out@ =~= serialize_model(e.subrange(0, i + 1)));
            }
            i += 1;
        }
        assert(e.subrange(0, e.len() as int) =~= e);
        out
    }

    /// The block type.
    pub fn block_type(&self) -> (r: &str)
        ensures
            r@ == self@.block_type,
    {
        self.block_type.as_str()
    }

    /// The number of properties the state holds.
    pub fn len(&self) -> (r: usize)
        ensures
            r == self@.entries.len(),
    {
        self.values.len()
    }
}

impl PartialEq for BlockState {
    fn eq(&self, other: &BlockState) -> (r: bool) {
        if !(self.block_type == other.block_type) {
            return false;
        }
        if self.values.len() != other.values.len() {
            return false;
        }
        let ghost a = self@.entries;
        let mut i: usize = 0;
        while i < self.values.len()
            invariant
                a == self@.entries,
                i <= a.len(),
                a.len() == other@.entries.len(),
                self@.block_type == other@.block_type,
                forall|k: int|
                    0 <= k < i ==> match lookup(other@.entries, (#[trigger] a[k]).0) {
                        Some(w) => values_match(a[k].1, w),
                        None => false,
                    },
            decreases a.len() - i,
        {
            assert(a[i as int] == (self.values@[i as int].0@, self.values@[i as int].1@));
            match other.get(self.values[i].0.as_str()) {
                Some(w) => {
                    if !values_match_exec(&self.values[i].1, w) {
                        return false;
                    }
                },
                None => {
                    return false;
                },
            }
            i += 1;
        }
        true
    }
}

impl vstd::std_specs::cmp::PartialEqSpecImpl for BlockState {
    open spec fn obeys_eq_spec() -> bool {
        true
    }

    open spec fn eq_spec(&self, other: &BlockState) -> bool {
        states_equal(self@, other@)
    }
}

} // verus!
