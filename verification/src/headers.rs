//! HTTP header fields: each name once, with its value.

use vstd::prelude::*;

use crate::text::same_text;

verus! {

/// Header fields in the order in which their names first came.
///
/// No name stands twice.
pub struct Headers {
    entries: Vec<(String, String)>,
}

/// Names and values, in order.
pub type Fields = Seq<(Seq<char>, Seq<char>)>;

/// The value that stands under `name`.
pub open spec fn lookup(fields: Fields, name: Seq<char>) -> Option<Seq<char>>
    decreases fields.len(),
{
    if fields.len() == 0 {
        None
    } else if fields[0].0 == name {
        Some(fields[0].1)
    } else {
        lookup(fields.drop_first(), name)
    }
}

/// The fields once `value` stands under `name`: in its old place where there was one, else last.
pub open spec fn put(fields: Fields, name: Seq<char>, value: Seq<char>) -> Fields
    decreases fields.len(),
{
    if fields.len() == 0 {
        seq![(name, value)]
    } else if fields[0].0 == name {
        seq![(name, value)] + fields.drop_first()
    } else {
        seq![fields[0]] + put(fields.drop_first(), name, value)
    }
}

/// The fields that come of putting the given ones in one after the other.
pub open spec fn collected(pairs: Fields) -> Fields
    decreases pairs.len(),
{
    if pairs.len() == 0 {
        seq![]
    } else {
        put(collected(pairs.drop_last()), pairs.last().0, pairs.last().1)
    }
}

/// Whether every name stands once.
pub open spec fn distinct_names(fields: Fields) -> bool {
    forall|i: int, j: int| 0 <= i < j < fields.len() ==> fields[i].0 != fields[j].0
}

/// What a list of pairs of strings stands for.
pub open spec fn fields_of(pairs: Seq<(String, String)>) -> Fields {
    pairs.map_values(|pair: (String, String)| (pair.0@, pair.1@))
}

/// Where a name stands, putting a value under it changes that place; else it adds one at the end.
proof fn lemma_put(fields: Fields, name: Seq<char>, value: Seq<char>, at: int)
    requires
        0 <= at <= fields.len(),
        forall|j: int| 0 <= j < at ==> fields[j].0 != name,
        at < fields.len() ==> fields[at].0 == name,
    ensures
        put(fields, name, value) == if at < fields.len() {
            fields.update(at, (name, value))
        } else {
            fields.push((name, value))
        },
        lookup(fields, name) == if at < fields.len() {
            Some(fields[at].1)
        } else {
            None::<Seq<char>>
        },
    decreases fields.len(),
{
    if fields.len() > 0 && at > 0 {
        let rest = fields.drop_first();
        lemma_put(rest, name, value, at - 1);
        if at < fields.len() {
            assert(seq![fields[0]] + rest.update(at - 1, (name, value)) == fields.update(
                at,
                (name, value),
            ));
        } else {
            assert(seq![fields[0]] + rest.push((name, value)) == fields.push((name, value)));
        }
    } else if fields.len() > 0 {
        assert(seq![(name, value)] + fields.drop_first() == fields.update(0, (name, value)));
    } else {
        assert(seq![(name, value)] == fields.push((name, value)));
    }
}

/// After a value is put under a name, that name has that value and every other name what it had.
pub proof fn law_lookup_after_put(
    fields: Fields,
    name: Seq<char>,
    value: Seq<char>,
    other: Seq<char>,
)
    ensures
        lookup(put(fields, name, value), other) == if other == name {
            Some(value)
        } else {
            lookup(fields, other)
        },
    decreases fields.len(),
{
    if fields.len() > 0 {
        let rest = fields.drop_first();
        law_lookup_after_put(rest, name, value, other);
        let after = put(fields, name, value);
        if fields[0].0 == name {
            assert(after.drop_first() == rest);
        } else {
            assert(after.drop_first() == put(rest, name, value));
        }
    } else {
        let after = put(fields, name, value);
        assert(after.drop_first() == fields);
    }
}

/// Of the fields put in one after the other, the last under a name is the one that stands.
pub proof fn law_last_field_stands(pairs: Fields, name: Seq<char>, value: Seq<char>)
    ensures
        lookup(collected(pairs.push((name, value))), name) == Some(value),
        forall|other: Seq<char>|
            other != name ==> #[trigger] lookup(collected(pairs.push((name, value))), other)
                == lookup(collected(pairs), other),
{
    let longer = pairs.push((name, value));
    assert(longer.drop_last() == pairs);
    law_lookup_after_put(collected(pairs), name, value, name);
    assert forall|other: Seq<char>| other != name implies #[trigger] lookup(
        collected(longer),
        other,
    ) == lookup(collected(pairs), other) by {
        law_lookup_after_put(collected(pairs), name, value, other);
    }
}

impl View for Headers {
    type V = Fields;

    closed spec fn view(&self) -> Fields {
        fields_of(self.entries@)
    }
}

impl Clone for Headers {
    fn clone(&self) -> (copy: Self)
        ensures
            copy@ == self@,
    {
        proof {
            use_type_invariant(self);
        }
        let mut entries: Vec<(String, String)> = Vec::new();
        for i in 0..self.entries.len()
            invariant
                entries@ == self.entries@.take(i as int),
        {
            let name = self.entries[i].0.clone();
            let value = self.entries[i].1.clone();
            assert(self.entries@.take(i as int).push(self.entries@[i as int])
                == self.entries@.take(i + 1));
            entries.push((name, value));
        }
        assert(self.entries@.take(self.entries@.len() as int) == self.entries@);
        Headers { entries }
    }
}

impl Headers {
    #[verifier::type_invariant]
    spec fn names_are_distinct(self) -> bool {
        distinct_names(fields_of(self.entries@))
    }

    /// No fields.
    pub fn new() -> (headers: Self)
        ensures
            headers@ == Fields::empty(),
    {
        let headers = Headers { entries: Vec::new() };
        assert(headers@ == Fields::empty());
        headers
    }

    /// The number of fields.
    pub fn len(&self) -> (count: usize)
        ensures
            count == self@.len(),
            distinct_names(self@),
    {
        proof {
            use_type_invariant(self);
        }
        self.entries.len()
    }

    /// The field at position `i`.
    pub fn field(&self, i: usize) -> (field: (&str, &str))
        requires
            i < self@.len(),
        ensures
            field.0@ == self@[i as int].0,
            field.1@ == self@[i as int].1,
    {
        (self.entries[i].0.as_str(), self.entries[i].1.as_str())
    }

    /// The position of `name`, or the number of fields where it does not stand.
    fn position(&self, name: &str) -> (at: usize)
        ensures
            at <= self@.len(),
            forall|j: int| 0 <= j < at ==> self@[j].0 != name@,
            at < self@.len() ==> self@[at as int].0 == name@,
    {
        for i in 0..self.entries.len()
            invariant
                forall|j: int| 0 <= j < i ==> self@[j].0 != name@,
        {
            if same_text(self.entries[i].0.as_str(), name) {
                return i;
            }
        }
        self.entries.len()
    }

    /// The value under `name`.
    pub fn get(&self, name: &str) -> (value: Option<&str>)
        ensures
            match value {
                Some(v) => lookup(self@, name@) == Some(v@),
                None => lookup(self@, name@) is None,
            },
    {
        let at = self.position(name);
        proof {
            lemma_put(self@, name@, Seq::empty(), at as int);
        }
        if at < self.entries.len() {
            Some(self.entries[at].1.as_str())
        } else {
            None
        }
    }

    /// Puts `value` under `name`, in place of what stood there.
    pub fn insert(&mut self, name: String, value: String)
        ensures
            final(self)@ == put(old(self)@, name@, value@),
    {
        proof {
            use_type_invariant(&*self);
        }
        let at = self.position(name.as_str());
        proof {
            lemma_put(self@, name@, value@, at as int);
        }
        let mut entries: Vec<(String, String)> = Vec::new();
        std::mem::swap(&mut entries, &mut self.entries);
        if at < entries.len() {
            let ghost before = entries@;
            entries.set(at, (name, value));
            assert(fields_of(entries@) == fields_of(before).update(at as int, (name@, value@)));
        } else {
            let ghost before = entries@;
            entries.push((name, value));
            assert(fields_of(entries@) == fields_of(before).push((name@, value@)));
        }
        self.entries = entries;
    }

    /// The fields that come of putting the given ones in one after the other.
    pub fn from_pairs(pairs: Vec<(String, String)>) -> (headers: Self)
        ensures
            headers@ == collected(fields_of(pairs@)),
    {
        let mut headers = Headers::new();
        for i in 0..pairs.len()
            invariant
                headers@ == collected(fields_of(pairs@).take(i as int)),
        {
            let name = pairs[i].0.clone();
            let value = pairs[i].1.clone();
            assert(fields_of(pairs@).take(i + 1).drop_last() == fields_of(pairs@).take(i as int));
            headers.insert(name, value);
        }
        assert(fields_of(pairs@).take(pairs@.len() as int) == fields_of(pairs@));
        headers
    }
}

/// Fields that all have different names are kept as they are, in their order.
pub proof fn law_distinct_fields_are_kept(pairs: Fields)
    requires
        distinct_names(pairs),
    ensures
        collected(pairs) == pairs,
    decreases pairs.len(),
{
    if pairs.len() > 0 {
        let front = pairs.drop_last();
        assert(distinct_names(front)) by {
            assert forall|i: int, j: int| 0 <= i < j < front.len() implies front[i].0
                != front[j].0 by {
                assert(pairs[i].0 != pairs[j].0);
            }
        }
        law_distinct_fields_are_kept(front);
        let last = pairs.last();
        assert forall|j: int| 0 <= j < front.len() implies front[j].0 != last.0 by {
            assert(pairs[j].0 != pairs[pairs.len() - 1].0);
        }
        lemma_put(front, last.0, last.1, front.len() as int);
        assert(front.push(last) == pairs);
    }
}

/// The value under a name is that of the first field of that name; where there is none, there is
/// no value.
pub proof fn law_first_field_is_found(
    front: Fields,
    name: Seq<char>,
    value: Seq<char>,
    back: Fields,
)
    requires
        forall|i: int| 0 <= i < front.len() ==> (#[trigger] front[i]).0 != name,
    ensures
        lookup(front + seq![(name, value)] + back, name) == Some(value),
        lookup(front, name) is None,
{
    let whole = front + seq![(name, value)] + back;
    assert forall|j: int| 0 <= j < front.len() implies whole[j].0 != name by {
        assert(whole[j] == front[j]);
    }
    assert(whole[front.len() as int] == (name, value));
    lemma_put(whole, name, value, front.len() as int);
    lemma_put(front, name, value, front.len() as int);
}

/// A value that is put under a name stands in the place that the name has, or last where it has
/// none; every other field stays where it is.
pub proof fn law_put_keeps_places(
    front: Fields,
    name: Seq<char>,
    old_value: Seq<char>,
    back: Fields,
    value: Seq<char>,
)
    requires
        forall|i: int| 0 <= i < front.len() ==> (#[trigger] front[i]).0 != name,
    ensures
        put(front + seq![(name, old_value)] + back, name, value) == front + seq![(name, value)]
            + back,
        put(front, name, value) == front.push((name, value)),
{
    let whole = front + seq![(name, old_value)] + back;
    assert forall|j: int| 0 <= j < front.len() implies whole[j].0 != name by {
        assert(whole[j] == front[j]);
    }
    assert(whole[front.len() as int] == (name, old_value));
    lemma_put(whole, name, value, front.len() as int);
    assert(whole.update(front.len() as int, (name, value)) == front + seq![(name, value)] + back);
    lemma_put(front, name, value, front.len() as int);
}

/// A list of pairs stands for the names and values in it, one by one.
pub proof fn law_pairs_stand_for_fields(pairs: Seq<(String, String)>, i: int)
    ensures
        fields_of(pairs).len() == pairs.len(),
        0 <= i < pairs.len() ==> fields_of(pairs)[i] == (pairs[i].0@, pairs[i].1@),
{
}

} // verus!
