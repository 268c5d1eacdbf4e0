//! Header fields: a mapping from names to values that remembers the order
//! in which the names first came.

use crate::text::{colon_space, crlf};
use vstd::prelude::*;
use vstd::string::*;

verus! {

/// One header field: its name and its value.
pub type Field = (Seq<char>, Seq<char>);

/// No two fields of `fields` have the same name.
pub open spec fn distinct_names(fields: Seq<Field>) -> bool {
    forall|i: int, j: int| 0 <= i < j < fields.len() ==> fields[i].0 != fields[j].0
}

/// `fields` holds a field named `name`.
pub open spec fn has_name(fields: Seq<Field>, name: Seq<char>) -> bool {
    exists|i: int| 0 <= i < fields.len() && fields[i].0 == name
}

/// The index of a field named `name`.
pub open spec fn slot(fields: Seq<Field>, name: Seq<char>) -> Option<int> {
    if has_name(fields, name) {
        Some(choose|i: int| 0 <= i < fields.len() && fields[i].0 == name)
    } else {
        None
    }
}

/// The value of the field named `name`.
pub open spec fn value_of(fields: Seq<Field>, name: Seq<char>) -> Option<Seq<char>> {
    match slot(fields, name) {
        Some(i) => Some(fields[i].1),
        None => None,
    }
}

/// `fields` after `name` was set to `value`: a field of that name keeps its
/// place and gets the new value, a new name goes to the end.
pub open spec fn with_field(fields: Seq<Field>, name: Seq<char>, value: Seq<char>) -> Seq<Field> {
    match slot(fields, name) {
        Some(i) => fields.update(i, (name, value)),
        None => fields.push((name, value)),
    }
}

/// The fields as a mapping from names to values.
pub open spec fn as_map(fields: Seq<Field>) -> Map<Seq<char>, Seq<char>> {
    Map::new(|name: Seq<char>| has_name(fields, name), |name: Seq<char>| value_of(fields, name)->0)
}

/// The line that one header field gives, with its line terminator.
pub open spec fn field_line(field: Field) -> Seq<char> {
    field.0 + colon_space() + field.1 + crlf()
}

/// The lines of the header fields, one after the other in their order.
pub open spec fn header_block(fields: Seq<Field>) -> Seq<char>
    decreases fields.len(),
{
    if fields.len() == 0 {
        Seq::empty()
    } else {
        header_block(fields.drop_last()) + field_line(fields.last())
    }
}

/// Among distinct names, the field at index `i` is the one that its name finds.
pub proof fn lemma_slot_is(fields: Seq<Field>, i: int)
    requires
        distinct_names(fields),
        0 <= i < fields.len(),
    ensures
        slot(fields, fields[i].0) == Some(i),
        value_of(fields, fields[i].0) == Some(fields[i].1),
{
    let name = fields[i].0;
    assert(has_name(fields, name));
    let k = choose|k: int| 0 <= k < fields.len() && fields[k].0 == name;
    if k < i {
        assert(fields[k].0 != fields[i].0);
    }
    if i < k {
        assert(fields[i].0 != fields[k].0);
    }
}

/// Setting a field keeps the names distinct.
pub proof fn lemma_with_field_distinct(fields: Seq<Field>, name: Seq<char>, value: Seq<char>)
    requires
        distinct_names(fields),
    ensures
        distinct_names(with_field(fields, name, value)),
{
    let after = with_field(fields, name, value);
    match slot(fields, name) {
        Some(at) => {
            assert forall|i: int, j: int| 0 <= i < j < after.len() implies after[i].0
                != after[j].0 by {
                assert(fields[i].0 != fields[j].0);
            }
        },
        None => {
            assert forall|i: int, j: int| 0 <= i < j < after.len() implies after[i].0
                != after[j].0 by {
                if j == fields.len() {
                    assert(!has_name(fields, name));
                    assert(fields[i].0 != name);
                } else {
                    assert(fields[i].0 != fields[j].0);
                }
            }
        },
    }
}

/// After a field was set, its name gives the new value and every other
/// name gives what it gave before.
pub proof fn lemma_with_field_value(
    fields: Seq<Field>,
    name: Seq<char>,
    value: Seq<char>,
    other: Seq<char>,
)
    requires
        distinct_names(fields),
    ensures
        value_of(with_field(fields, name, value), other) == if other == name {
            Some(value)
        } else {
            value_of(fields, other)
        },
{
    let after = with_field(fields, name, value);
    lemma_with_field_distinct(fields, name, value);
    let at = match slot(fields, name) {
        Some(i) => i,
        None => fields.len() as int,
    };
    assert(after[at] == (name, value));
    if other == name {
        lemma_slot_is(after, at);
    } else if has_name(fields, other) {
        let k = choose|k: int| 0 <= k < fields.len() && fields[k].0 == other;
        lemma_slot_is(fields, k);
        assert(after[k] == fields[k]);
        lemma_slot_is(after, k);
    } else {
        if has_name(after, other) {
            let k = choose|k: int| 0 <= k < after.len() && after[k].0 == other;
            if k != at {
                assert(fields[k].0 == other);
            }
        }
    }
}

/// Setting a field is an insertion into the mapping.
pub proof fn with_field_inserts(fields: Seq<Field>, name: Seq<char>, value: Seq<char>)
    requires
        distinct_names(fields),
    ensures
        as_map(with_field(fields, name, value)) == as_map(fields).insert(name, value),
{
    let after = with_field(fields, name, value);
    assert forall|other: Seq<char>|
        value_of(after, other) == if other == name {
            Some(value)
        } else {
            value_of(fields, other)
        } by {
        lemma_with_field_value(fields, name, value, other);
    }
    let wanted = as_map(fields).insert(name, value);
    assert forall|other: Seq<char>| as_map(after).contains_key(other) == wanted.contains_key(
        other,
    ) by {
        assert(has_name(after, other) == value_of(after, other).is_some());
        assert(has_name(fields, other) == value_of(fields, other).is_some());
    }
    assert forall|other: Seq<char>| as_map(after).contains_key(other) implies as_map(after)[other]
        == wanted[other] by {
        assert(has_name(fields, other) == value_of(fields, other).is_some());
    }
    assert(as_map(after) =~= wanted);
}

/// Header fields with distinct names, in the order in which the names were
/// first set.
#[derive(Debug)]
pub struct Headers {
    fields: Vec<(String, String)>,
}

impl View for Headers {
    type V = Seq<Field>;

    closed spec fn view(&self) -> Seq<Field> {
        Seq::new(self.fields@.len(), |i: int| (self.fields@[i].0@, self.fields@[i].1@))
    }
}

impl Headers {
    /// What holds of every value of this type: the names are distinct.
    #[verifier::type_invariant]
    pub open spec fn well_formed(&self) -> bool {
        distinct_names(self@)
    }

    /// No fields at all.
    pub fn new() -> (out: Headers)
        ensures
            out@ == Seq::<Field>::empty(),
    {
        let out = Headers { fields: Vec::new() };
        proof {
            assert(out@ =~= Seq::<Field>::empty());
        }
        out
    }

    /// How many fields there are.
    pub fn len(&self) -> (n: usize)
        ensures
            n == self@.len(),
    {
        self.fields.len()
    }

    /// The index of the field named `name`.
    fn position(&self, name: &String) -> (at: Option<usize>)
        ensures
            match at {
                Some(i) => slot(self@, name@) == Some(i as int) && i < self@.len(),
                None => slot(self@, name@) is None,
            },
    {
        proof {
            use_type_invariant(self);
        }
        let mut i: usize = 0;
        while i < self.fields.len()
            invariant
                i <= self.fields.len(),
                distinct_names(self@),
                forall|j: int| 0 <= j < i ==> self@[j].0 != name@,
            decreases self.fields.len() - i,
        {
            if self.fields[i].0 == *name {
                proof {
                    lemma_slot_is(self@, i as int);
                }
                return Some(i);
            }
            i += 1;
        }
        None
    }

    /// Sets the field named `name` to `value`.
    pub fn insert(&mut self, name: String, value: String)
        ensures
            final(self)@ == with_field(old(self)@, name@, value@),
    {
        proof {
            use_type_invariant(&*self);
            lemma_with_field_distinct(self@, name@, value@);
        }
        let at = self.position(&name);
        let mut taken = Headers::new();
        std::mem::swap(self, &mut taken);
        let mut fields = taken.fields;
        match at {
            Some(i) => {
                fields.set(i, (name, value));
            },
            None => {
                fields.push((name, value));
            },
        }
        let ghost after = Seq::new(fields@.len(), |i: int| (fields@[i].0@, fields@[i].1@));
        proof {
            assert(after =~= with_field(old(self)@, name@, value@));
        }
        *self = Headers { fields };
    }

    /// The value of the field named `name`.
    pub fn get(&self, name: &str) -> (out: Option<&String>)
        ensures
            match value_of(self@, name@) {
                Some(v) => out matches Some(s) && s@ == v,
                None => out is None,
            },
    {
        let wanted = name.to_owned();
        match self.position(&wanted) {
            Some(i) => Some(&self.fields[i].1),
            None => None,
        }
    }

    /// The name of the field at index `i`.
    pub fn name_at(&self, i: usize) -> (out: &String)
        requires
            i < self@.len(),
        ensures
            out@ == self@[i as int].0,
    {
        &self.fields[i].0
    }

    /// The value of the field at index `i`.
    pub fn value_at(&self, i: usize) -> (out: &String)
        requires
            i < self@.len(),
        ensures
            out@ == self@[i as int].1,
    {
        &self.fields[i].1
    }
}

impl Clone for Headers {
    fn clone(&self) -> (out: Headers)
        ensures
            out@ == self@,
    {
        proof {
            use_type_invariant(self);
        }
        let mut fields: Vec<(String, String)> = Vec::new();
        let mut i: usize = 0;
        while i < self.fields.len()
            invariant
                i <= self.fields.len(),
                fields@.len() == i,
                forall|j: int| 0 <= j < i ==> fields@[j] == self.fields@[j],
            decreases self.fields.len() - i,
        {
            fields.push((self.fields[i].0.clone(), self.fields[i].1.clone()));
            i += 1;
        }
        proof {
            assert(fields@ =~= self.fields@);
        }
        Headers { fields }
    }
}

} // verus!
