use vstd::prelude::*;

verus! {

broadcast use vstd::std_specs::vec::group_vec_axioms, vstd::seq::group_seq_axioms;

/// A parsed JSON document, holding as plain values what the configuration
/// decoder reads. Numbers keep their decimal text; an object keeps its
/// members in document order.
#[derive(Debug)]
pub enum JsonValue {
    Null,
    Bool(bool),
    Number(String),
    Str(String),
    Array(Vec<JsonValue>),
    Object(Vec<(String, JsonValue)>),
}

/// Position of the first member called `name`, or -1 when there is none.
pub open spec fn field_pos(fields: Seq<(String, JsonValue)>, name: Seq<char>) -> int
    decreases fields.len(),
{
    if fields.len() == 0 {
        -1
    } else if fields[0].0@ == name {
        0
    } else {
        let p = field_pos(fields.subrange(1, fields.len() as int), name);
        if p < 0 {
            -1
        } else {
            p + 1
        }
    }
}

/// The string held by member `name`, if that member exists and is a string.
pub open spec fn str_field(fields: Seq<(String, JsonValue)>, name: Seq<char>) -> Option<Seq<char>> {
    let p = field_pos(fields, name);
    if 0 <= p < fields.len() {
        match fields[p].1 {
            JsonValue::Str(s) => Some(s@),
            _ => None,
        }
    } else {
        None
    }
}

pub proof fn lemma_field_pos(fields: Seq<(String, JsonValue)>, name: Seq<char>)
    ensures
        -1 <= field_pos(fields, name) < fields.len(),
        field_pos(fields, name) >= 0 ==> fields[field_pos(fields, name)].0@ == name,
        forall|k: int|
            0 <= k < fields.len() && (field_pos(fields, name) < 0 || k < field_pos(fields, name))
                ==> fields[k].0@ != name,
    decreases fields.len(),
{
    if fields.len() > 0 && fields[0].0@ != name {
        let rest = fields.subrange(1, fields.len() as int);
        lemma_field_pos(rest, name);
        assert forall|k: int|
            1 <= k < fields.len() && (field_pos(fields, name) < 0 || k < field_pos(fields, name))
                implies fields[k].0@ != name by {
            assert(fields[k] == rest[k - 1]);
        }
    }
}

/// Finds the first member called `name` of an object's member list.
pub fn find_field<'a>(fields: &'a Vec<(String, JsonValue)>, name: &str) -> (r: Option<&'a JsonValue>)
    ensures
        field_pos(fields@, name@) < 0 ==> r is None,
        field_pos(fields@, name@) >= 0 ==> r == Some(&fields@[field_pos(fields@, name@)].1),
{
    let wanted = name.to_owned();
    let mut i: usize = 0;
    while i < fields.len()
        invariant
            i <= fields@.len(),
            wanted@ == name@,
            forall|k: int| 0 <= k < i ==> fields@[k].0@ != name@,
        decreases fields.len() - i,
    {
        if fields[i].0 == wanted {
            proof {
                lemma_field_pos(fields@, name@);
            }
            return Some(&fields[i].1);
        }
        i += 1;
    }
    proof {
        lemma_field_pos(fields@, name@);
    }
    None
}


/// The string held by member `name`, if that member exists and is a string.
pub fn find_str_field<'a>(fields: &'a Vec<(String, JsonValue)>, name: &str) -> (r: Option<&'a String>)
    ensures
        match r {
            Some(s) => str_field(fields@, name@) == Some(s@),
            None => str_field(fields@, name@) is None,
        },
{
    proof {
        lemma_field_pos(fields@, name@);
    }
    match find_field(fields, name) {
        Some(JsonValue::Str(s)) => Some(s),
        _ => None,
    }
}

} // verus!
