//! The JSON data model that sources produce, the cache stores and responses
//! carry.

use vstd::prelude::*;

use crate::text::{same_text, split_on, split_text, texts};

verus! {

/// A JSON number. Non-negative integers are `PosInt`, negative ones `NegInt`;
/// anything else is a finite double, held as its IEEE 754 bits.
#[derive(Debug, Clone, Copy, PartialEq, Eq, Structural)]
pub enum Number {
    PosInt(u64),
    NegInt(i64),
    Float(u64),
}

/// A JSON value. An object is a list of bindings in which the last binding of
/// a key counts.
#[derive(Debug)]
pub enum Value {
    Null,
    Bool(bool),
    Number(Number),
    String(String),
    Array(Vec<Value>),
    Object(Vec<(String, Value)>),
}

/// The mathematical content of a [`Value`].
pub enum Json {
    Null,
    Bool(bool),
    Number(Number),
    Text(Seq<char>),
    Array(Seq<Json>),
    Object(Map<Seq<char>, Json>),
}

/// The bits of negative zero, the one double that equals another.
pub const NEGATIVE_ZERO: u64 = 0x8000_0000_0000_0000;

/// A number with the sign of zero dropped when `signless` is set.
pub open spec fn number_image(n: Number, signless: bool) -> Number {
    if signless && n == Number::Float(NEGATIVE_ZERO) {
        Number::Float(0)
    } else {
        n
    }
}

impl Value {
    /// The content of the value; with `signless` set, negative zero reads as zero.
    pub open spec fn image(self, signless: bool) -> Json
        decreases self,
    {
        match self {
            Value::Null => Json::Null,
            Value::Bool(b) => Json::Bool(b),
            Value::Number(n) => Json::Number(number_image(n, signless)),
            Value::String(s) => Json::Text(s@),
            Value::Array(items) => Json::Array(items_image(items@, signless)),
            Value::Object(fields) => Json::Object(fields_image(fields@, signless)),
        }
    }

    /// The content of the value.
    pub open spec fn model(self) -> Json {
        self.image(false)
    }

    /// Whether the two values count as equal: same content, where the two zeros
    /// of the doubles are one.
    pub open spec fn same(self, other: Value) -> bool {
        self.image(true) == other.image(true)
    }
}

pub open spec fn items_image(items: Seq<Value>, signless: bool) -> Seq<Json>
    decreases items,
{
    if items.len() == 0 {
        Seq::empty()
    } else {
        items_image(items.drop_last(), signless).push(items.last().image(signless))
    }
}

pub open spec fn fields_image(fields: Seq<(String, Value)>, signless: bool) -> Map<Seq<char>, Json>
    decreases fields,
{
    if fields.len() == 0 {
        Map::empty()
    } else {
        fields_image(fields.drop_last(), signless).insert(
            fields.last().0@,
            fields.last().1.image(signless),
        )
    }
}

/// The bindings that a field list stands for.
pub open spec fn fields_model(fields: Seq<(String, Value)>) -> Map<Seq<char>, Json> {
    fields_image(fields, false)
}

/// The elements that a list of values stands for.
pub open spec fn items_model(items: Seq<Value>) -> Seq<Json> {
    items_image(items, false)
}

/// The index of the binding of `key` that counts, or -1 when there is none.
pub open spec fn binding(fields: Seq<(String, Value)>, key: Seq<char>) -> int
    decreases fields.len(),
{
    if fields.len() == 0 {
        -1
    } else if fields.last().0@ == key {
        fields.len() - 1
    } else {
        binding(fields.drop_last(), key)
    }
}

/// The counting binding of a key is what the field list maps it to.
pub proof fn lemma_binding(fields: Seq<(String, Value)>, key: Seq<char>, signless: bool)
    ensures
        -1 <= binding(fields, key) < fields.len(),
        fields_image(fields, signless).contains_key(key) <==> binding(fields, key) >= 0,
        binding(fields, key) >= 0 ==> {
            &&& fields[binding(fields, key)].0@ == key
            &&& fields_image(fields, signless)[key] == fields[binding(fields, key)].1.image(
                signless,
            )
        },
    decreases fields.len(),
{
    if fields.len() > 0 {
        lemma_binding(fields.drop_last(), key, signless);
    }
}

/// A key is bound exactly when some entry of the list names it.
pub proof fn lemma_bound_keys(fields: Seq<(String, Value)>, i: int, signless: bool)
    requires
        0 <= i < fields.len(),
    ensures
        fields_image(fields, signless).contains_key(fields[i].0@),
    decreases fields.len(),
{
    if i < fields.len() - 1 {
        lemma_bound_keys(fields.drop_last(), i, signless);
        assert(fields.drop_last()[i] == fields[i]);
    }
}

pub proof fn lemma_items(items: Seq<Value>, signless: bool)
    ensures
        items_image(items, signless).len() == items.len(),
        forall|i: int|
            0 <= i < items.len() ==> #[trigger] items_image(items, signless)[i]
                == items[i].image(signless),
    decreases items.len(),
{
    if items.len() > 0 {
        lemma_items(items.drop_last(), signless);
        assert forall|i: int| 0 <= i < items.len() implies #[trigger] items_image(
            items,
            signless,
        )[i] == items[i].image(signless) by {
            if i < items.len() - 1 {
                assert(items.drop_last()[i] == items[i]);
            }
        }
    }
}

/// The index of the binding of `key` that counts.
fn find_binding(fields: &Vec<(String, Value)>, key: &str) -> (found: Option<usize>)
    ensures
        found matches Some(i) ==> i == binding(fields@, key@),
        found is None ==> binding(fields@, key@) == -1,
{
    let mut n: usize = fields.len();
    assert(fields@.take(n as int) =~= fields@);
    while n > 0
        invariant
            n <= fields@.len(),
            binding(fields@, key@) == binding(fields@.take(n as int), key@),
        decreases n,
    {
        assert(fields@.take(n as int).drop_last() =~= fields@.take(n - 1));
        if same_text(fields[n - 1].0.as_str(), key) {
            return Some(n - 1);
        }
        n -= 1;
    }
    None
}

/// The value that a field list binds to `key`.
pub fn get_field<'a>(fields: &'a Vec<(String, Value)>, key: &str) -> (found: Option<&'a Value>)
    ensures
        found is Some <==> fields_model(fields@).contains_key(key@),
        found matches Some(v) ==> v.model() == fields_model(fields@)[key@],
{
    proof {
        lemma_binding(fields@, key@, false);
    }
    match find_binding(fields, key) {
        Some(i) => Some(&fields[i].1),
        None => None,
    }
}

impl Clone for Value {
    fn clone(&self) -> (copy: Value)
        ensures
            copy.model() == self.model(),
            copy.same(*self),
        decreases self,
    {
        match self {
            Value::Null => Value::Null,
            Value::Bool(b) => Value::Bool(*b),
            Value::Number(n) => Value::Number(*n),
            Value::String(s) => Value::String(s.clone()),
            Value::Array(items) => Value::Array(clone_items(items)),
            Value::Object(fields) => Value::Object(clone_fields(fields)),
        }
    }
}

/// A copy of a list of values.
pub fn clone_items(items: &Vec<Value>) -> (out: Vec<Value>)
    ensures
        items_image(out@, false) == items_image(items@, false),
        items_image(out@, true) == items_image(items@, true),
    decreases items,
{
    let mut out: Vec<Value> = Vec::new();
    let mut i: usize = 0;
    while i < items.len()
        invariant
            i <= items@.len(),
            items_image(out@, false) == items_image(items@.take(i as int), false),
            items_image(out@, true) == items_image(items@.take(i as int), true),
        decreases items@.len() - i,
    {
        let ghost before = out@;
        assert(decreases_to!(items => items@[i as int]));
        let copy = items[i].clone();
        out.push(copy);
        assert(out@.drop_last() =~= before);
        assert(items@.take(i + 1).drop_last() =~= items@.take(i as int));
        i += 1;
    }
    assert(items@.take(i as int) =~= items@);
    out
}

/// A copy of a field list.
pub fn clone_fields(fields: &Vec<(String, Value)>) -> (out: Vec<(String, Value)>)
    ensures
        fields_image(out@, false) == fields_image(fields@, false),
        fields_image(out@, true) == fields_image(fields@, true),
        out@.len() == fields@.len(),
    decreases fields,
{
    let mut out: Vec<(String, Value)> = Vec::new();
    let mut i: usize = 0;
    while i < fields.len()
        invariant
            i <= fields@.len(),
            out@.len() == i,
            fields_image(out@, false) == fields_image(fields@.take(i as int), false),
            fields_image(out@, true) == fields_image(fields@.take(i as int), true),
        decreases fields@.len() - i,
    {
        let ghost before = out@;
        assert(decreases_to!(fields => fields@[i as int]));
        let copy = (fields[i].0.clone(), fields[i].1.clone());
        out.push(copy);
        assert(out@.drop_last() =~= before);
        assert(fields@.take(i + 1).drop_last() =~= fields@.take(i as int));
        i += 1;
    }
    assert(fields@.take(i as int) =~= fields@);
    out
}

fn same_items(a: &Vec<Value>, b: &Vec<Value>) -> (same: bool)
    ensures
        same == (items_image(a@, true) == items_image(b@, true)),
    decreases a,
{
    proof {
        lemma_items(a@, true);
        lemma_items(b@, true);
    }
    if a.len() != b.len() {
        return false;
    }
    let mut i: usize = 0;
    while i < a.len()
        invariant
            i <= a@.len(),
            a@.len() == b@.len(),
            forall|j: int| 0 <= j < i ==> a@[j].image(true) == b@[j].image(true),
            items_image(a@, true).len() == a@.len(),
            items_image(b@, true).len() == b@.len(),
            forall|j: int|
                0 <= j < a@.len() ==> #[trigger] items_image(a@, true)[j] == a@[j].image(true),
            forall|j: int|
                0 <= j < b@.len() ==> #[trigger] items_image(b@, true)[j] == b@[j].image(true),
        decreases a@.len() - i,
    {
        assert(decreases_to!(a => a@[i as int]));
        if !same_value(&a[i], &b[i]) {
            assert(items_image(a@, true)[i as int] != items_image(b@, true)[i as int]);
            return false;
        }
        i += 1;
    }
    assert(items_image(a@, true) =~= items_image(b@, true));
    true
}

fn same_fields(a: &Vec<(String, Value)>, b: &Vec<(String, Value)>) -> (same: bool)
    ensures
        same == (fields_image(a@, true) == fields_image(b@, true)),
    decreases a,
{
    let ghost am = fields_image(a@, true);
    let ghost bm = fields_image(b@, true);
    let mut i: usize = 0;
    while i < a.len()
        invariant
            i <= a@.len(),
            am == fields_image(a@, true),
            bm == fields_image(b@, true),
            forall|j: int|
                0 <= j < i ==> bm.contains_key(#[trigger] a@[j].0@) && bm[a@[j].0@] == am[a@[j].0@],
        decreases a@.len() - i,
    {
        let key = a[i].0.as_str();
        proof {
            lemma_binding(a@, key@, true);
            lemma_binding(b@, key@, true);
            lemma_bound_keys(a@, i as int, true);
        }
        match (find_binding(a, key), find_binding(b, key)) {
            (Some(x), Some(y)) => {
                assert(decreases_to!(a => a@[x as int]));
                if !same_value(&a[x].1, &b[y].1) {
                    return false;
                }
            },
            _ => {
                return false;
            },
        }
        i += 1;
    }
    let mut k: usize = 0;
    while k < b.len()
        invariant
            k <= b@.len(),
            am == fields_image(a@, true),
            bm == fields_image(b@, true),
            forall|j: int| 0 <= j < k ==> am.contains_key(#[trigger] b@[j].0@),
        decreases b@.len() - k,
    {
        let key = b[k].0.as_str();
        proof {
            lemma_binding(a@, key@, true);
            lemma_bound_keys(b@, k as int, true);
        }
        if find_binding(a, key).is_none() {
            return false;
        }
        k += 1;
    }
    proof {
        assert forall|key: Seq<char>| am.contains_key(key) <==> bm.contains_key(key) by {
            lemma_binding(a@, key, true);
            lemma_binding(b@, key, true);
        }
        assert forall|key: Seq<char>| #[trigger] am.contains_key(key) implies am[key]
            == bm[key] by {
            lemma_binding(a@, key, true);
        }
        assert(am =~= bm);
    }
    true
}

fn same_value(a: &Value, b: &Value) -> (same: bool)
    ensures
        same == a.same(*b),
    decreases a,
{
    match (a, b) {
        (Value::Null, Value::Null) => true,
        (Value::Bool(x), Value::Bool(y)) => *x == *y,
        (Value::Number(x), Value::Number(y)) => signless(*x) == signless(*y),
        (Value::String(x), Value::String(y)) => same_text(x.as_str(), y.as_str()),
        (Value::Array(x), Value::Array(y)) => same_items(x, y),
        (Value::Object(x), Value::Object(y)) => same_fields(x, y),
        _ => false,
    }
}

fn signless(n: Number) -> (out: Number)
    ensures
        out == number_image(n, true),
{
    if n == Number::Float(NEGATIVE_ZERO) {
        Number::Float(0)
    } else {
        n
    }
}

impl PartialEq for Value {
    fn eq(&self, other: &Value) -> (same: bool) {
        same_value(self, other)
    }
}

impl vstd::std_specs::cmp::PartialEqSpecImpl for Value {
    open spec fn obeys_eq_spec() -> bool {
        true
    }

    open spec fn eq_spec(&self, other: &Value) -> bool {
        self.same(*other)
    }
}

/// Values with the same content count as equal.
pub proof fn lemma_model_same(a: Value, b: Value)
    requires
        a.model() == b.model(),
    ensures
        a.same(b),
    decreases a,
{
    match (a, b) {
        (Value::Array(x), Value::Array(y)) => {
            lemma_items(x@, false);
            lemma_items(y@, false);
            lemma_items(x@, true);
            lemma_items(y@, true);
            assert forall|i: int| 0 <= i < x@.len() implies items_image(x@, true)[i] == items_image(
                y@,
                true,
            )[i] by {
                assert(items_image(x@, false)[i] == items_image(y@, false)[i]);
                assert(decreases_to!(x => x@[i]));
                lemma_model_same(x@[i], y@[i]);
            }
            assert(items_image(x@, true) =~= items_image(y@, true));
        },
        (Value::Object(x), Value::Object(y)) => {
            let xm = fields_image(x@, true);
            let ym = fields_image(y@, true);
            assert forall|key: Seq<char>|
                #![trigger xm.dom().contains(key)]
                #![trigger ym.dom().contains(key)]
                xm.dom().contains(key) == ym.dom().contains(key) && (xm.dom().contains(key)
                    ==> xm[key] == ym[key]) by {
                lemma_binding(x@, key, false);
                lemma_binding(y@, key, false);
                lemma_binding(x@, key, true);
                lemma_binding(y@, key, true);
                let i = binding(x@, key);
                let j = binding(y@, key);
                if i >= 0 {
                    assert(decreases_to!(x => x@[i]));
                    lemma_model_same(x@[i].1, y@[j].1);
                }
            }
            assert(xm =~= ym);
        },
        _ => {},
    }
}

/// Whether two contents count as equal.
pub open spec fn same_json(a: Json, b: Json) -> bool {
    exists|x: Value, y: Value| x.model() == a && y.model() == b && #[trigger] x.same(y)
}

/// Whether two optional contents count as equal.
pub open spec fn same_data(a: Option<Json>, b: Option<Json>) -> bool {
    match (a, b) {
        (Some(x), Some(y)) => same_json(x, y),
        (None, None) => true,
        _ => false,
    }
}

/// The content of an optional value.
pub open spec fn opt_model(v: Option<Value>) -> Option<Json> {
    match v {
        Some(x) => Some(x.model()),
        None => None,
    }
}

/// Equality of contents does not depend on which values stand for them.
pub proof fn lemma_same_json(a: Value, b: Value)
    ensures
        same_json(a.model(), b.model()) == a.same(b),
{
    if same_json(a.model(), b.model()) {
        let (x, y) = choose|x: Value, y: Value|
            x.model() == a.model() && y.model() == b.model() && #[trigger] x.same(y);
        lemma_model_same(x, a);
        lemma_model_same(y, b);
    }
}

/// Whether two optional values count as equal.
pub fn same_optional(a: &Option<Value>, b: &Option<Value>) -> (same: bool)
    ensures
        same == same_data(opt_model(*a), opt_model(*b)),
{
    match (a, b) {
        (Some(x), Some(y)) => {
            proof {
                lemma_same_json(*x, *y);
            }
            same_value(x, y)
        },
        (None, None) => true,
        _ => false,
    }
}

/// A copy of an optional value.
pub fn copy_optional(v: &Option<Value>) -> (out: Option<Value>)
    ensures
        opt_model(out) == opt_model(*v),
{
    match v {
        Some(x) => Some(x.clone()),
        None => None,
    }
}

/// Binds `key` to `value` at the end of a field list.
pub fn put_field(fields: &mut Vec<(String, Value)>, key: &str, value: Value)
    ensures
        fields_model(final(fields)@) == fields_model(old(fields)@).insert(key@, value.model()),
{
    let ghost before = fields@;
    fields.push((key.to_owned(), value));
    assert(fields@.drop_last() =~= before);
}

/// Adds `value` at the end of a list of values.
pub fn push_item(items: &mut Vec<Value>, value: Value)
    ensures
        items_model(final(items)@) == items_model(old(items)@).push(value.model()),
{
    let ghost before = items@;
    items.push(value);
    assert(items@.drop_last() =~= before);
}

/// A list without bindings stands for the empty map, and only it does.
pub proof fn lemma_empty_fields(fields: Seq<(String, Value)>)
    ensures
        fields_model(fields) == Map::<Seq<char>, Json>::empty() <==> fields.len() == 0,
{
    if fields.len() > 0 {
        lemma_bound_keys(fields, 0, false);
    }
}

/// What a dotted path addresses: the first segment names a field, and each
/// further segment a member of the object reached so far.
pub open spec fn path_lookup(fields: Map<Seq<char>, Json>, path: Seq<Seq<char>>) -> Option<Json>
    decreases path.len(),
{
    if path.len() == 0 || !fields.contains_key(path[0]) {
        None
    } else if path.len() == 1 {
        Some(fields[path[0]])
    } else {
        match fields[path[0]] {
            Json::Object(inner) => path_lookup(inner, path.drop_first()),
            _ => None,
        }
    }
}

/// Walks the dotted `path` through nested objects.
pub fn lookup_path<'a>(fields: &'a Vec<(String, Value)>, path: &str) -> (found: Option<&'a Value>)
    ensures
        found is Some <==> path_lookup(fields_model(fields@), split_on(path@, '.')) is Some,
        found matches Some(v) ==> Some(v.model()) == path_lookup(
            fields_model(fields@),
            split_on(path@, '.'),
        ),
{
    let parts = split_text(path, '.');
    let ghost want = path_lookup(fields_model(fields@), split_on(path@, '.'));
    let mut here: &'a Vec<(String, Value)> = fields;
    let mut i: usize = 0;
    assert(texts(parts@).skip(0) =~= texts(parts@));
    loop
        invariant
            i < parts@.len(),
            want == path_lookup(fields_model(here@), texts(parts@).skip(i as int)),
            want == path_lookup(fields_model(fields@), split_on(path@, '.')),
        decreases parts@.len() - i,
    {
        let ghost rest = texts(parts@).skip(i as int);
        assert(rest[0] == parts@[i as int]@);
        match get_field(here, parts[i].as_str()) {
            None => {
                return None;
            },
            Some(v) => {
                if i == parts.len() - 1 {
                    return Some(v);
                }
                match v {
                    Value::Object(inner) => {
                        assert(rest.drop_first() =~= texts(parts@).skip(i + 1));
                        here = inner;
                        i += 1;
                    },
                    _ => {
                        return None;
                    },
                }
            },
        }
    }
}

/// What a value holds: a scalar itself, a list its items in order, and an object
/// for each key that some binding names the value of the last such binding.
pub proof fn law_content_of_a_value(v: Value)
    ensures
        match v {
            Value::Null => v.model() == Json::Null,
            Value::Bool(b) => v.model() == Json::Bool(b),
            Value::Number(n) => v.model() == Json::Number(n),
            Value::String(s) => v.model() == Json::Text(s@),
            Value::Array(items) => v.model() matches Json::Array(list) && list.len()
                == items@.len() && forall|i: int|
                0 <= i < list.len() ==> #[trigger] list[i] == items@[i].model(),
            Value::Object(fields) => v.model() matches Json::Object(members) && (forall|key:
                Seq<char>|
                #![trigger members.contains_key(key)]
                members.contains_key(key) <==> exists|i: int|
                    0 <= i < fields@.len() && (#[trigger] fields@[i]).0@ == key) && (forall|i: int|
                0 <= i < fields@.len() && (forall|j: int|
                    i < j < fields@.len() ==> (#[trigger] fields@[j]).0@ != fields@[i].0@)
                    ==> members[(#[trigger] fields@[i]).0@] == fields@[i].1.model()),
        },
{
    match v {
        Value::Array(items) => {
            lemma_items(items@, false);
        },
        Value::Object(fields) => {
            let members = fields_model(fields@);
            assert forall|key: Seq<char>|
                #![trigger members.contains_key(key)]
                members.contains_key(key) <==> exists|i: int|
                    0 <= i < fields@.len() && (#[trigger] fields@[i]).0@ == key by {
                lemma_binding(fields@, key, false);
                if exists|i: int| 0 <= i < fields@.len() && (#[trigger] fields@[i]).0@ == key {
                    let i = choose|i: int|
                        0 <= i < fields@.len() && (#[trigger] fields@[i]).0@ == key;
                    lemma_bound_keys(fields@, i, false);
                }
            }
            assert forall|i: int|
                0 <= i < fields@.len() && (forall|j: int|
                    i < j < fields@.len() ==> (#[trigger] fields@[j]).0@ != fields@[i].0@) implies members[(
            #[trigger] fields@[i]).0@] == fields@[i].1.model() by {
                lemma_last_binding(fields@, i);
                lemma_binding(fields@, fields@[i].0@, false);
            }
        },
        _ => {},
    }
}

proof fn lemma_last_binding(fields: Seq<(String, Value)>, i: int)
    requires
        0 <= i < fields.len(),
        forall|j: int| i < j < fields.len() ==> (#[trigger] fields[j]).0@ != fields[i].0@,
    ensures
        binding(fields, fields[i].0@) == i,
    decreases fields.len(),
{
    if i < fields.len() - 1 {
        assert(fields[fields.len() - 1].0@ != fields[i].0@);
        let init = fields.drop_last();
        assert forall|j: int| i < j < init.len() implies (#[trigger] init[j]).0@ != init[i].0@ by {
            assert(init[j] == fields[j]);
        }
        lemma_last_binding(init, i);
    }
}

/// Whether a number is one of the two zeros of the doubles.
pub open spec fn is_double_zero(n: Number) -> bool {
    n == Number::Float(0) || n == Number::Float(0x8000_0000_0000_0000)
}

/// Which values count as equal. Values of different kinds never do. Two booleans,
/// texts or numbers do exactly if they are equal, but for the two zeros of the
/// doubles, which are one. Two lists do exactly if they are as long as each other
/// and their items do one by one. Two objects do exactly if they have the same keys
/// and the values of each key do.
pub proof fn law_equal_values(a: Value, b: Value)
    ensures
        a.same(b) <==> match (a, b) {
            (Value::Null, Value::Null) => true,
            (Value::Bool(x), Value::Bool(y)) => x == y,
            (Value::Number(x), Value::Number(y)) => x == y || (is_double_zero(x)
                && is_double_zero(y)),
            (Value::String(x), Value::String(y)) => x@ == y@,
            (Value::Array(x), Value::Array(y)) => x@.len() == y@.len() && forall|i: int|
                0 <= i < x@.len() ==> (#[trigger] x@[i]).same(y@[i]),
            (Value::Object(x), Value::Object(y)) => forall|key: Seq<char>|
                #![trigger binding(x@, key)]
                (binding(x@, key) >= 0 <==> binding(y@, key) >= 0) && (binding(x@, key) >= 0
                    ==> x@[binding(x@, key)].1.same(y@[binding(y@, key)].1)),
            _ => false,
        },
{
    match (a, b) {
        (Value::Array(x), Value::Array(y)) => {
            lemma_items(x@, true);
            lemma_items(y@, true);
            if a.same(b) {
                assert forall|i: int| 0 <= i < x@.len() implies (#[trigger] x@[i]).same(
                    y@[i],
                ) by {
                    assert(items_image(x@, true)[i] == items_image(y@, true)[i]);
                }
            } else if x@.len() == y@.len() {
                assert(!(items_image(x@, true) =~= items_image(y@, true)));
            }
        },
        (Value::Object(x), Value::Object(y)) => {
            let xm = fields_image(x@, true);
            let ym = fields_image(y@, true);
            assert forall|key: Seq<char>|
                #![trigger binding(x@, key)]
                #![trigger xm.dom().contains(key)]
                (xm.dom().contains(key) <==> binding(x@, key) >= 0) && (ym.dom().contains(key)
                    <==> binding(y@, key) >= 0) && (binding(x@, key) >= 0 ==> xm[key]
                    == x@[binding(x@, key)].1.image(true)) && (binding(y@, key) >= 0 ==> ym[key]
                    == y@[binding(y@, key)].1.image(true)) by {
                lemma_binding(x@, key, true);
                lemma_binding(y@, key, true);
            }
            if forall|key: Seq<char>|
                #![trigger binding(x@, key)]
                (binding(x@, key) >= 0 <==> binding(y@, key) >= 0) && (binding(x@, key) >= 0
                    ==> x@[binding(x@, key)].1.same(y@[binding(y@, key)].1)) {
                assert forall|key: Seq<char>|
                    #![trigger xm.dom().contains(key)]
                    #![trigger ym.dom().contains(key)]
                    xm.dom().contains(key) == ym.dom().contains(key) && (xm.dom().contains(key)
                        ==> xm[key] == ym[key]) by {
                    assert(binding(x@, key) >= 0 <==> binding(y@, key) >= 0);
                }
                assert(xm =~= ym);
            }
        },
        _ => {},
    }
}

/// The binding of a key that counts is the last one that names it.
pub proof fn law_last_binding_counts(fields: Seq<(String, Value)>, key: Seq<char>)
    ensures
        match binding(fields, key) {
            at => if at >= 0 {
                &&& at < fields.len()
                &&& fields[at].0@ == key
                &&& forall|j: int| at < j < fields.len() ==> (#[trigger] fields[j]).0@ != key
            } else {
                forall|j: int| 0 <= j < fields.len() ==> (#[trigger] fields[j]).0@ != key
            },
        },
    decreases fields.len(),
{
    if fields.len() > 0 && fields.last().0@ != key {
        let init = fields.drop_last();
        law_last_binding_counts(init, key);
        assert forall|j: int| binding(fields, key) < j < fields.len() && 0 <= j implies (
        #[trigger] fields[j]).0@ != key by {
            if j < init.len() {
                assert(init[j] == fields[j]);
            }
        }
    }
}

/// Data that counts as the same is told apart by kind and content: a boolean, a
/// text or null only counts as itself, a number only as itself or as the other zero,
/// and lists and objects only as ones whose parts count as the same.
pub proof fn law_same_data_is_equal(a: Json, b: Json)
    requires
        same_json(a, b),
    ensures
        match a {
            Json::Null => b == Json::Null,
            Json::Bool(x) => b == Json::Bool(x),
            Json::Text(x) => b == Json::Text(x),
            Json::Number(x) => b matches Json::Number(y) && (x == y || (is_double_zero(x)
                && is_double_zero(y))),
            Json::Array(x) => b matches Json::Array(y) && x.len() == y.len() && forall|i: int|
                0 <= i < x.len() ==> same_json(#[trigger] x[i], y[i]),
            Json::Object(x) => b matches Json::Object(y) && forall|key: Seq<char>|
                #![trigger x.contains_key(key)]
                (x.contains_key(key) <==> y.contains_key(key)) && (x.contains_key(key)
                    ==> same_json(x[key], y[key])),
        },
{
    let (v, w) = choose|v: Value, w: Value|
        v.model() == a && w.model() == b && #[trigger] v.same(w);
    law_equal_values(v, w);
    match (v, w) {
        (Value::Array(x), Value::Array(y)) => {
            lemma_items(x@, false);
            lemma_items(y@, false);
            assert forall|i: int| 0 <= i < x@.len() implies same_json(
                #[trigger] items_model(x@)[i],
                items_model(y@)[i],
            ) by {
                assert(x@[i].same(y@[i]));
                lemma_same_json(x@[i], y@[i]);
            }
        },
        (Value::Object(x), Value::Object(y)) => {
            let xm = fields_model(x@);
            let ym = fields_model(y@);
            assert forall|key: Seq<char>|
                #![trigger xm.contains_key(key)]
                (xm.contains_key(key) <==> ym.contains_key(key)) && (xm.contains_key(key)
                    ==> same_json(xm[key], ym[key])) by {
                lemma_binding(x@, key, false);
                lemma_binding(y@, key, false);
                assert(binding(x@, key) >= 0 <==> binding(y@, key) >= 0);
                if binding(x@, key) >= 0 {
                    lemma_same_json(x@[binding(x@, key)].1, y@[binding(y@, key)].1);
                }
            }
        },
        _ => {},
    }
}

/// Data is the same as nothing only if it is nothing, and as itself always.
pub proof fn law_missing_data_is_told_apart(a: Option<Value>, b: Option<Value>)
    ensures
        opt_model(a) == match a {
            Some(v) => Some(v.model()),
            None => None,
        },
        same_data(opt_model(a), opt_model(b)) ==> (a is None <==> b is None),
        a is None && b is None ==> same_data(opt_model(a), opt_model(b)),
        a == b ==> same_data(opt_model(a), opt_model(b)),
        a is Some && b is Some ==> (same_data(opt_model(a), opt_model(b)) <==> a->0.same(b->0)),
{
    if a is Some && b is Some {
        lemma_same_json(a->0, b->0);
    }
}

/// Whether a value holds the negative zero of the doubles, at any depth.
pub open spec fn holds_negative_zero(v: Value) -> bool
    decreases v,
{
    match v {
        Value::Number(n) => n == Number::Float(0x8000_0000_0000_0000),
        Value::Array(items) => exists|i: int|
            0 <= i < items@.len() && holds_negative_zero(#[trigger] items@[i]),
        Value::Object(fields) => exists|i: int|
            0 <= i < fields@.len() && holds_negative_zero((#[trigger] fields@[i]).1),
        _ => false,
    }
}

/// Values without a negative zero count as equal exactly if their content is.
pub proof fn law_equal_content(a: Value, b: Value)
    requires
        !holds_negative_zero(a),
        !holds_negative_zero(b),
    ensures
        a.same(b) <==> a.model() == b.model(),
    decreases a,
{
    reveal_with_fuel(holds_negative_zero, 2);
    if a.model() == b.model() {
        lemma_model_same(a, b);
    }
    if a.same(b) {
        law_equal_values(a, b);
        match (a, b) {
            (Value::Array(x), Value::Array(y)) => {
                lemma_items(x@, false);
                lemma_items(y@, false);
                assert forall|i: int| 0 <= i < x@.len() implies items_model(x@)[i] == items_model(
                    y@,
                )[i] by {
                    assert(x@[i].same(y@[i]));
                    assert(!holds_negative_zero(x@[i]) && !holds_negative_zero(y@[i]));
                    assert(decreases_to!(x => x@[i]));
                    law_equal_content(x@[i], y@[i]);
                }
                assert(items_model(x@) =~= items_model(y@));
            },
            (Value::Object(x), Value::Object(y)) => {
                let xm = fields_model(x@);
                let ym = fields_model(y@);
                assert forall|key: Seq<char>|
                    #![trigger xm.dom().contains(key)]
                    #![trigger ym.dom().contains(key)]
                    xm.dom().contains(key) == ym.dom().contains(key) && (xm.dom().contains(key)
                        ==> xm[key] == ym[key]) by {
                    lemma_binding(x@, key, false);
                    lemma_binding(y@, key, false);
                    let i = binding(x@, key);
                    let j = binding(y@, key);
                    if i >= 0 {
                        assert(!holds_negative_zero(x@[i].1) && !holds_negative_zero(y@[j].1));
                        assert(decreases_to!(x => x@[i]));
                        law_equal_content(x@[i].1, y@[j].1);
                    }
                }
                assert(xm =~= ym);
            },
            _ => {},
        }
    }
}

/// A path of one segment addresses the field of that name.
pub proof fn law_short_path_addresses_a_field(fields: Map<Seq<char>, Json>, key: Seq<char>)
    ensures
        path_lookup(fields, seq![key]) == if fields.contains_key(key) {
            Some(fields[key])
        } else {
            None
        },
{
}

/// A path leads to a value exactly if the path without its last segment leads to an
/// object that has the value under that segment.
pub proof fn law_path_leads_through_objects(fields: Map<Seq<char>, Json>, path: Seq<Seq<char>>)
    requires
        path.len() >= 2,
    ensures
        path_lookup(fields, path) == match path_lookup(fields, path.drop_last()) {
            Some(Json::Object(inner)) => if inner.contains_key(path.last()) {
                Some(inner[path.last()])
            } else {
                None
            },
            _ => None,
        },
    decreases path.len(),
{
    let rest = path.drop_first();
    assert(path.drop_last()[0] == path[0]);
    if path.len() == 2 {
        assert(rest[0] == path.last());
        assert(path_lookup(fields, path.drop_last()) == if fields.contains_key(path[0]) {
            Some(fields[path[0]])
        } else {
            None
        });
        if fields.contains_key(path[0]) {
            if let Json::Object(inner) = fields[path[0]] {
                assert(path_lookup(inner, rest) == if inner.contains_key(rest[0]) {
                    Some(inner[rest[0]])
                } else {
                    None
                });
            }
        }
    } else {
        assert(path.drop_last().drop_first() =~= rest.drop_last());
        assert(rest.last() == path.last());
        if fields.contains_key(path[0]) {
            if let Json::Object(inner) = fields[path[0]] {
                law_path_leads_through_objects(inner, rest);
            }
        }
    }
}

} // verus!
