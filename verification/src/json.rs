//! The structured-data target: the map re-keyed into objects whose
//! members stand in key order, handed to the JSON encoder.
use vstd::prelude::*;
use crate::encoder::{encode_pretty, json_pretty};
use crate::error::EmitError;
use crate::model::{
    module_views, names_unique, offset_views, Module, ModuleView, Offset, OffsetMap, OffsetView,
};
use crate::order::{
    chars_less, key_less, keys_distinct, lemma_key_less_asymmetric, lemma_key_less_total,
    lemma_lookup_unique, lemma_ordered, lemma_ordered_len, lemma_ordered_lookup,
    lemma_ordered_members, lemma_put_at, lookup, ordered, strictly_ordered,
};
use crate::text::chars_of;

verus! {

/// One member of an inner object: an offset's name and its value.
pub struct Member<'a> {
    pub key: &'a str,
    pub value: usize,
}

/// One member of the outer object: a module's name and its offsets.
pub struct Section<'a> {
    pub key: &'a str,
    pub members: Vec<Member<'a>>,
}

/// An inner object as plain values.
pub open spec fn members_view(members: Seq<Member>) -> Seq<(Seq<char>, nat)> {
    Seq::new(members.len(), |i: int| (members[i].key@, members[i].value as nat))
}

/// The outer object as plain values.
pub open spec fn sections_view(sections: Seq<Section>) -> Seq<(Seq<char>, Seq<(Seq<char>, nat)>)> {
    Seq::new(sections.len(), |i: int| (sections[i].key@, members_view(sections[i].members@)))
}

/// The offsets of a module as pairs of name and value, in the module's
/// own order.
pub open spec fn named_values(offsets: Seq<OffsetView>) -> Seq<(Seq<char>, nat)> {
    Seq::new(offsets.len(), |i: int| (offsets[i].name, offsets[i].value))
}

/// The inner object for a module's offsets: one member per name, in key
/// order; of two offsets with one name the later one stays.
pub open spec fn members_of(offsets: Seq<OffsetView>) -> Seq<(Seq<char>, nat)> {
    ordered(named_values(offsets))
}

/// The outer object for a map: one member per module name, in key order.
pub open spec fn sections_of(modules: Seq<ModuleView>) -> Seq<(Seq<char>, Seq<(Seq<char>, nat)>)> {
    ordered(Seq::new(modules.len(), |i: int| (modules[i].name, members_of(modules[i].offsets))))
}

/// Whether an outer object and each of its inner objects have strictly
/// increasing keys.
pub open spec fn in_key_order(doc: Seq<(Seq<char>, Seq<(Seq<char>, nat)>)>) -> bool {
    &&& strictly_ordered(doc)
    &&& forall|i: int| 0 <= i < doc.len() ==> strictly_ordered((#[trigger] doc[i]).1)
}

/// The index at which the keys that come after `key` begin, looked for
/// from the end.
fn slot_for(keys: &Vec<Vec<char>>, key: &Vec<char>) -> (slot: usize)
    ensures
        slot <= keys.len(),
        forall|j: int| slot <= j < keys.len() ==> key_less(key@, (#[trigger] keys@[j])@),
        slot > 0 ==> !key_less(key@, keys@[slot - 1]@),
{
    let mut slot: usize = keys.len();
    while slot > 0 && chars_less(key, &keys[slot - 1])
        invariant
            slot <= keys.len(),
            forall|j: int| slot <= j < keys.len() ==> key_less(key@, (#[trigger] keys@[j])@),
        decreases slot,
    {
        slot -= 1;
    }
    slot
}

/// The members for a module's offsets, in key order.
pub fn sorted_members<'a>(offsets: &'a Vec<Offset>) -> (r: Vec<Member<'a>>)
    ensures
        members_view(r@) == members_of(offset_views(offsets@)),
        strictly_ordered(members_view(r@)),
{
    let ghost entries = Seq::new(
        offsets.len() as nat,
        |i: int| (offset_views(offsets@)[i].name, offset_views(offsets@)[i].value),
    );
    let mut out: Vec<Member<'a>> = Vec::new();
    let mut keys: Vec<Vec<char>> = Vec::new();
    let mut i: usize = 0;
    proof {
        assert(entries.take(0) =~= Seq::empty());
        assert(members_view(out@) =~= Seq::empty());
    }
    while i < offsets.len()
        invariant
            i <= offsets.len(),
            entries.len() == offsets.len(),
            forall|k: int|
                0 <= k < entries.len() ==> (#[trigger] entries[k]) == (
                    offsets@[k].name@,
                    offsets@[k].value as nat,
                ),
            keys.len() == out.len(),
            forall|k: int| 0 <= k < out.len() ==> (#[trigger] keys@[k])@ == out@[k].key@,
            members_view(out@) == ordered(entries.take(i as int)),
        decreases offsets.len() - i,
    {
        let offset = &offsets[i];
        let key = chars_of(offset.name.as_str());
        let slot = slot_for(&keys, &key);
        let ghost before = members_view(out@);
        let ghost added = (offset.name@, offset.value as nat);
        proof {
            assert(entries.take(i + 1).drop_last() =~= entries.take(i as int));
            assert(entries.take(i + 1).last() == added);
            assert forall|j: int| slot <= j < before.len() implies key_less(
                key@,
                (#[trigger] before[j]).0,
            ) by {
                assert(keys@[j]@ == out@[j].key@);
            }
            lemma_put_at(before, key@, added.1, slot as int);
        }
        if slot > 0 && !chars_less(&keys[slot - 1], &key) {
            proof {
                lemma_key_less_total(key@, keys@[slot - 1]@);
            }
            out.set(slot - 1, Member { key: offset.name.as_str(), value: offset.value });
            assert(members_view(out@) =~= before.update(slot - 1, added));
        } else {
            proof {
                if slot > 0 {
                    lemma_key_less_asymmetric(keys@[slot - 1]@, key@);
                }
            }
            out.insert(slot, Member { key: offset.name.as_str(), value: offset.value });
            keys.insert(slot, key);
            assert(members_view(out@) =~= before.insert(slot as int, added));
        }
        i += 1;
    }
    proof {
        assert(entries.take(i as int) =~= entries);
        assert(entries =~= Seq::new(
            offset_views(offsets@).len(),
            |i: int| (offset_views(offsets@)[i].name, offset_views(offsets@)[i].value),
        ));
        lemma_ordered(entries);
    }
    out
}

/// The sections for a run of modules, in key order, each with its members
/// in key order.
pub fn sorted_sections<'a>(modules: &'a Vec<Module>) -> (r: Vec<Section<'a>>)
    ensures
        sections_view(r@) == sections_of(module_views(modules@)),
        in_key_order(sections_view(r@)),
{
    let ghost entries = Seq::new(
        modules.len() as nat,
        |i: int| (module_views(modules@)[i].name, members_of(module_views(modules@)[i].offsets)),
    );
    let mut out: Vec<Section<'a>> = Vec::new();
    let mut keys: Vec<Vec<char>> = Vec::new();
    let mut i: usize = 0;
    proof {
        assert(entries.take(0) =~= Seq::empty());
        assert(sections_view(out@) =~= Seq::empty());
    }
    while i < modules.len()
        invariant
            i <= modules.len(),
            entries.len() == modules.len(),
            forall|k: int|
                0 <= k < entries.len() ==> (#[trigger] entries[k]) == (
                    modules@[k].name@,
                    members_of(offset_views(modules@[k].offsets@)),
                ),
            keys.len() == out.len(),
            forall|k: int| 0 <= k < out.len() ==> (#[trigger] keys@[k])@ == out@[k].key@,
            forall|k: int|
                0 <= k < out.len() ==> strictly_ordered(members_view((#[trigger] out@[k]).members@)),
            sections_view(out@) == ordered(entries.take(i as int)),
        decreases modules.len() - i,
    {
        let module = &modules[i];
        let key = chars_of(module.name.as_str());
        let members = sorted_members(&module.offsets);
        let slot = slot_for(&keys, &key);
        let ghost before = sections_view(out@);
        let ghost added = (module.name@, members_view(members@));
        proof {
            assert(entries.take(i + 1).drop_last() =~= entries.take(i as int));
            assert(entries.take(i + 1).last() == added);
            assert forall|j: int| slot <= j < before.len() implies key_less(
                key@,
                (#[trigger] before[j]).0,
            ) by {
                assert(keys@[j]@ == out@[j].key@);
            }
            lemma_put_at(before, key@, added.1, slot as int);
        }
        if slot > 0 && !chars_less(&keys[slot - 1], &key) {
            proof {
                lemma_key_less_total(key@, keys@[slot - 1]@);
            }
            out.set(slot - 1, Section { key: module.name.as_str(), members });
            assert(sections_view(out@) =~= before.update(slot - 1, added));
        } else {
            proof {
                if slot > 0 {
                    lemma_key_less_asymmetric(keys@[slot - 1]@, key@);
                }
            }
            out.insert(slot, Section { key: module.name.as_str(), members });
            keys.insert(slot, key);
            assert(sections_view(out@) =~= before.insert(slot as int, added));
        }
        i += 1;
    }
    proof {
        assert(entries.take(i as int) =~= entries);
        assert(entries =~= Seq::new(
            module_views(modules@).len(),
            |i: int|
                (module_views(modules@)[i].name, members_of(module_views(modules@)[i].offsets)),
        ));
        lemma_ordered(entries);
        let doc = sections_view(out@);
        assert forall|k: int| 0 <= k < doc.len() implies strictly_ordered((#[trigger] doc[k]).1) by {
            assert(doc[k].1 == members_view(out@[k].members@));
        }
    }
    out
}

/// What the structured-data emitter returns for each outcome of the
/// encoder: its text, or `EmitError::Serialization` where it failed.
pub fn json_outcome(encoded: Result<String, serde_json::Error>) -> (r: Result<String, EmitError>)
    ensures
        encoded matches Ok(s) ==> r == Ok::<String, EmitError>(s),
        encoded is Err ==> r == Err::<String, EmitError>(EmitError::Serialization),
{
    match encoded {
        Ok(s) => Ok(s),
        Err(_) => Err(EmitError::Serialization),
    }
}

/// What the structured-data emitter owes for `modules`: text, for every
/// map, and the text is the encoder's for the map re-keyed in key order.
pub open spec fn encodes(modules: Seq<ModuleView>, r: Result<String, EmitError>) -> bool {
    match r {
        Ok(s) => s@ == json_pretty(sections_of(modules)),
        Err(_) => false,
    }
}

impl OffsetMap {
    /// The structured data for the map: an object with one member per
    /// module, each an object with one number per offset, members in key
    /// order. The indent width plays no part in it.
    pub fn to_json(&self, _indent_size: usize) -> (r: Result<String, EmitError>)
        ensures
            encodes(self@, r),
    {
        let doc = sorted_sections(self.modules());
        json_outcome(encode_pretty(&doc))
    }
}

/// Nothing is dropped on the way to the encoder: the outer object stands
/// in key order with each inner object in key order; every module of a
/// map with unique module names is a member of it, under its name and
/// with its own offsets; and in an inner object every offset name has the
/// value that the module recorded last under it.
pub proof fn lemma_sections_complete(modules: Seq<ModuleView>)
    requires
        names_unique(modules),
    ensures
        in_key_order(sections_of(modules)),
        sections_of(modules).len() == modules.len(),
        forall|i: int|
            0 <= i < modules.len() ==> lookup(sections_of(modules), (#[trigger] modules[i]).name)
                == Some(members_of(modules[i].offsets)),
        forall|i: int, name: Seq<char>|
            0 <= i < modules.len() ==> #[trigger] lookup(members_of(modules[i].offsets), name)
                == lookup(named_values(modules[i].offsets), name),
{
    let entries = Seq::new(
        modules.len(),
        |i: int| (modules[i].name, members_of(modules[i].offsets)),
    );
    lemma_ordered(entries);
    assert(keys_distinct(entries)) by {
        assert forall|i: int, j: int| 0 <= i < j < entries.len() implies (#[trigger] entries[i]).0
            != (#[trigger] entries[j]).0 by {
            assert(modules[i].name != modules[j].name);
        }
    }
    lemma_ordered_len(entries);
    let doc = sections_of(modules);
    assert forall|k: int| 0 <= k < doc.len() implies strictly_ordered((#[trigger] doc[k]).1) by {
        lemma_ordered_members(entries, k);
        let i = choose|i: int| 0 <= i < entries.len() && entries[i] == doc[k];
        lemma_ordered(named_values(modules[i].offsets));
    }
    assert forall|i: int| 0 <= i < modules.len() implies lookup(
        sections_of(modules),
        (#[trigger] modules[i]).name,
    ) == Some(members_of(modules[i].offsets)) by {
        lemma_ordered_lookup(entries, modules[i].name);
        lemma_lookup_unique(entries, i);
    }
    assert forall|i: int, name: Seq<char>| 0 <= i < modules.len() implies #[trigger] lookup(
        members_of(modules[i].offsets),
        name,
    ) == lookup(named_values(modules[i].offsets), name) by {
        lemma_ordered_lookup(named_values(modules[i].offsets), name);
    }
}

} // verus!
