//! The wire dictionary format: a tree of text, integers, booleans, lists and
//! dictionaries of named fields.

use vstd::prelude::*;
use crate::text::text_eq;

verus! {

/// Mathematical model of a wire value.
pub enum Wire {
    Text(Seq<char>),
    Integer(int),
    Boolean(bool),
    List(Seq<Wire>),
    Dict(Map<Seq<char>, Wire>),
}

/// A value as it travels on the wire.
#[derive(Debug, PartialEq, Eq)]
pub enum WireValue {
    Text(String),
    Integer(i128),
    Boolean(bool),
    List(Vec<WireValue>),
    /// Named fields in the order they were written; of two entries with the
    /// same name the earlier one counts.
    Dict(Vec<(String, WireValue)>),
}

/// The fields that a sequence of entries denotes: the earliest entry of each
/// name.
pub open spec fn fields_of(entries: Seq<(String, WireValue)>) -> Map<Seq<char>, Wire>
    decreases entries,
{
    if entries.len() == 0 {
        Map::empty()
    } else {
        fields_of(entries.drop_first()).insert(entries[0].0@, entries[0].1@)
    }
}

impl View for WireValue {
    type V = Wire;

    open spec fn view(&self) -> Wire
        decreases self,
    {
        match self {
            WireValue::Text(s) => Wire::Text(s@),
            WireValue::Integer(n) => Wire::Integer(*n as int),
            WireValue::Boolean(b) => Wire::Boolean(*b),
            WireValue::List(items) => Wire::List(
                Seq::new(
                    items.len() as nat,
                    |i: int|
                        if 0 <= i < items.len() {
                            items[i]@
                        } else {
                            Wire::Boolean(false)
                        },
                ),
            ),
            WireValue::Dict(entries) => Wire::Dict(fields_of(entries@)),
        }
    }
}

impl Wire {
    /// The value of the field `name`, if this is a dictionary that has one.
    pub open spec fn field(self, name: Seq<char>) -> Option<Wire> {
        match self {
            Wire::Dict(fields) => if fields.contains_key(name) {
                Some(fields[name])
            } else {
                None
            },
            _ => None,
        }
    }
}

/// An entry decides its name when no earlier entry carries that name.
proof fn lemma_fields_first(entries: Seq<(String, WireValue)>, name: Seq<char>, at: int)
    requires
        0 <= at < entries.len(),
        entries[at].0@ == name,
        forall|j: int| 0 <= j < at ==> entries[j].0@ != name,
    ensures
        fields_of(entries).contains_key(name),
        fields_of(entries)[name] == entries[at].1@,
    decreases entries.len(),
{
    let rest = entries.drop_first();
    assert(fields_of(entries) == fields_of(rest).insert(entries[0].0@, entries[0].1@));
    if at > 0 {
        assert forall|j: int| 0 <= j < at - 1 implies rest[j].0@ != name by {
            assert(rest[j] == entries[j + 1]);
        }
        lemma_fields_first(rest, name, at - 1);
    }
}

/// A name that no entry carries is not a field.
proof fn lemma_fields_absent(entries: Seq<(String, WireValue)>, name: Seq<char>)
    requires
        forall|j: int| 0 <= j < entries.len() ==> entries[j].0@ != name,
    ensures
        !fields_of(entries).contains_key(name),
    decreases entries.len(),
{
    if entries.len() > 0 {
        let rest = entries.drop_first();
        assert(fields_of(entries) == fields_of(rest).insert(entries[0].0@, entries[0].1@));
        assert forall|j: int| 0 <= j < rest.len() implies rest[j].0@ != name by {
            assert(rest[j] == entries[j + 1]);
        }
        lemma_fields_absent(rest, name);
    }
}

impl WireValue {
    /// Looks up the field `name` of a dictionary; any other value has no
    /// fields.
    pub fn get(&self, name: &str) -> (r: Option<&WireValue>)
        ensures
            match r {
                Some(v) => self@.field(name@) == Some(v@),
                None => self@.field(name@) is None,
            },
    {
        match self {
            WireValue::Dict(entries) => {
                assert(self@ == Wire::Dict(fields_of(entries@)));
                let mut i: usize = 0;
                while i < entries.len()
                    invariant
                        i <= entries.len(),
                        self@ == Wire::Dict(fields_of(entries@)),
                        forall|j: int| 0 <= j < i ==> entries@[j].0@ != name@,
                    decreases entries.len() - i,
                {
                    if text_eq(entries[i].0.as_str(), name) {
                        proof {
                            lemma_fields_first(entries@, name@, i as int);
                        }
                        return Some(&entries[i].1);
                    }
                    i += 1;
                }
                proof {
                    lemma_fields_absent(entries@, name@);
                }
                None
            },
            _ => None,
        }
    }
}

} // verus!
