//! The dynamically typed tree that a parsed appinfo database is made of,
//! together with its mathematical model.

use vstd::prelude::*;

verus! {

/// One node of a parsed database tree: an object (a list of key/value
/// fields), an array, a string, an unsigned number, a boolean, or null.
///
/// Objects keep their fields in insertion order; a key is looked up by
/// its first occurrence.
#[derive(PartialEq, Eq, Debug)]
pub enum Value {
    Null,
    Bool(bool),
    Num(u64),
    Str(String),
    Arr(Vec<Value>),
    Obj(Vec<(String, Value)>),
}

/// The mathematical model of a [`Value`]: strings are sequences of
/// characters, arrays are sequences of models, objects are sequences of
/// key/model pairs in field order.
#[verifier::ext_equal]
pub enum Val {
    Null,
    Bool(bool),
    Num(u64),
    Str(Seq<char>),
    Arr(Seq<Val>),
    Obj(Seq<(Seq<char>, Val)>),
}

impl Value {
    /// The model of this value.
    pub open spec fn val(self) -> Val
        decreases self,
    {
        match self {
            Value::Null => Val::Null,
            Value::Bool(b) => Val::Bool(b),
            Value::Num(n) => Val::Num(n),
            Value::Str(s) => Val::Str(s@),
            Value::Arr(items) => Val::Arr(arr_view(items@)),
            Value::Obj(fields) => Val::Obj(fields_view(fields@)),
        }
    }
}

impl View for Value {
    type V = Val;

    open spec fn view(&self) -> Val {
        self.val()
    }
}

/// The models of an array's items, in order.
pub open spec fn arr_view(items: Seq<Value>) -> Seq<Val>
    decreases items,
{
    if items.len() == 0 {
        Seq::empty()
    } else {
        arr_view(items.drop_last()).push(items.last().val())
    }
}

/// The models of an object's fields, in order.
pub open spec fn fields_view(fields: Seq<(String, Value)>) -> Seq<(Seq<char>, Val)>
    decreases fields,
{
    if fields.len() == 0 {
        Seq::empty()
    } else {
        fields_view(fields.drop_last()).push((fields.last().0@, fields.last().1.val()))
    }
}

/// The value under `key` in an object's field list: the first field
/// whose key is `key`, or `None` when no field has that key.
pub open spec fn lookup(fields: Seq<(Seq<char>, Val)>, key: Seq<char>) -> Option<Val>
    decreases fields.len(),
{
    if fields.len() == 0 {
        None
    } else if fields[0].0 == key {
        Some(fields[0].1)
    } else {
        lookup(fields.drop_first(), key)
    }
}

/// `arr_view` maps each item to its model, position by position.
pub proof fn lemma_arr_view_index(items: Seq<Value>)
    ensures
        arr_view(items).len() == items.len(),
        forall|i: int| 0 <= i < items.len() ==> arr_view(items)[i] == #[trigger] items[i].val(),
    decreases items.len(),
{
    if items.len() > 0 {
        lemma_arr_view_index(items.drop_last());
        assert forall|i: int| 0 <= i < items.len() implies arr_view(items)[i] == #[trigger] items[i].val() by {
            if i < items.len() - 1 {
                assert(items.drop_last()[i] == items[i]);
                assert(arr_view(items.drop_last())[i] == items.drop_last()[i].val());
            }
        }
    }
}

/// `fields_view` maps each field to its model, position by position.
pub proof fn lemma_fields_view_index(fields: Seq<(String, Value)>)
    ensures
        fields_view(fields).len() == fields.len(),
        forall|i: int| 0 <= i < fields.len() ==> #[trigger] fields_view(fields)[i] == (
        fields[i].0@,
        fields[i].1.val(),
        ),
    decreases fields.len(),
{
    if fields.len() > 0 {
        lemma_fields_view_index(fields.drop_last());
        assert forall|i: int| 0 <= i < fields.len() implies #[trigger] fields_view(fields)[i] == (
        fields[i].0@,
        fields[i].1.val(),
        ) by {
            if i < fields.len() - 1 {
                assert(fields.drop_last()[i] == fields[i]);
                assert(fields_view(fields.drop_last())[i] == (
                fields.drop_last()[i].0@,
                fields.drop_last()[i].1.val(),
                ));
            }
        }
    }
}

/// Looking up a key that no field carries yields nothing.
pub proof fn lemma_lookup_absent(fields: Seq<(Seq<char>, Val)>, key: Seq<char>)
    requires
        forall|i: int| 0 <= i < fields.len() ==> #[trigger] fields[i].0 != key,
    ensures
        lookup(fields, key) is None,
    decreases fields.len(),
{
    if fields.len() > 0 {
        assert(fields.drop_first() =~= fields.skip(1));
        assert(forall|i: int|
            0 <= i < fields.drop_first().len() ==> #[trigger] fields.drop_first()[i].0 != key);
        lemma_lookup_absent(fields.drop_first(), key);
    }
}

impl Value {
    /// A fresh deep copy: the result has the same model as `self`.
    #[verifier::loop_isolation(false)]
    pub fn dup(&self) -> (r: Value)
        ensures
            r@ == self@,
        decreases self,
    {
        match self {
            Value::Null => Value::Null,
            Value::Bool(b) => Value::Bool(*b),
            Value::Num(n) => Value::Num(*n),
            Value::Str(s) => Value::Str(s.clone()),
            Value::Arr(items) => {
                let mut out: Vec<Value> = Vec::new();
                let mut i: usize = 0;
                while i < items.len()
                    invariant
                        i <= items.len(),
                        arr_view(out@) =~= arr_view(items@.take(i as int)),
                    decreases items.len() - i,
                {
                    let item = &items[i];
                    proof {
                        assert(decreases_to!(*self => *items));
                        assert(decreases_to!(*items => items@[i as int]));
                    }
                    let copy = item.dup();
                    proof {
                        assert(items@.take(i + 1 as int).drop_last() =~= items@.take(i as int));
                        assert(items@.take(i + 1 as int).last() == items@[i as int]);
                        assert(out@.push(copy).drop_last() =~= out@);
                    }
                    out.push(copy);
                    i = i + 1;
                }
                proof {
                    assert(items@.take(items@.len() as int) =~= items@);
                }
                Value::Arr(out)
            },
            Value::Obj(fields) => {
                let mut out: Vec<(String, Value)> = Vec::new();
                let mut i: usize = 0;
                while i < fields.len()
                    invariant
                        i <= fields.len(),
                        fields_view(out@) =~= fields_view(fields@.take(i as int)),
                    decreases fields.len() - i,
                {
                    let key = fields[i].0.clone();
                    proof {
                        assert(decreases_to!(*self => *fields));
                        assert(decreases_to!(*fields => fields@[i as int]));
                        assert(decreases_to!(fields@[i as int] => fields@[i as int].1));
                    }
                    let copy = fields[i].1.dup();
                    proof {
                        assert(fields@.take(i + 1 as int).drop_last() =~= fields@.take(i as int));
                        assert(fields@.take(i + 1 as int).last() == fields@[i as int]);
                        assert(out@.push((key, copy)).drop_last() =~= out@);
                    }
                    out.push((key, copy));
                    i = i + 1;
                }
                proof {
                    assert(fields@.take(fields@.len() as int) =~= fields@);
                }
                Value::Obj(out)
            },
        }
    }
}

/// First field of `fields` whose key is `key`, if any: the executable
/// form of [`lookup`].
pub fn obj_get<'a>(fields: &'a Vec<(String, Value)>, key: &str) -> (r: Option<&'a Value>)
    ensures
        match r {
            Some(v) => lookup(fields_view(fields@), key@) == Some(v@),
            None => lookup(fields_view(fields@), key@) is None,
        },
{
    let ghost fv = fields_view(fields@);
    proof {
        lemma_fields_view_index(fields@);
        assert(fv.skip(0) =~= fv);
    }
    let mut i: usize = 0;
    while i < fields.len()
        invariant
            i <= fields.len(),
            fv == fields_view(fields@),
            fv.len() == fields@.len(),
            forall|k: int| 0 <= k < fields@.len() ==> #[trigger] fv[k] == (
            fields@[k].0@,
            fields@[k].1.val(),
            ),
            lookup(fv, key@) == lookup(fv.skip(i as int), key@),
        decreases fields.len() - i,
    {
        if crate::strutil::str_eq(fields[i].0.as_str(), key) {
            proof {
                assert(fv.skip(i as int)[0] == fv[i as int]);
            }
            return Some(&fields[i].1);
        }
        proof {
            assert(fv.skip(i as int)[0] == fv[i as int]);
            assert(fv.skip(i as int).drop_first() =~= fv.skip(i + 1 as int));
        }
        i = i + 1;
    }
    proof {
        assert(fv.skip(fields@.len() as int) =~= Seq::<(Seq<char>, Val)>::empty());
    }
    None
}

} // verus!
