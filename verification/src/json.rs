//! JSON values, and the bridge to `serde_json`, which reads and writes them.

use crate::text::same_str;
use vstd::prelude::*;

verus! {

/// A JSON value. Where an object names a key twice, the later one counts.
#[derive(Debug)]
pub enum Json {
    Null,
    Bool(bool),
    Number(JsonNumber),
    Str(String),
    Array(Vec<Json>),
    Object(Vec<(String, Json)>),
}

/// A JSON number, as `serde_json` holds it.
#[derive(Debug)]
pub struct JsonNumber {
    value: serde_json::Value,
}

/// The mathematical value of a [`Json`]. A number is its text.
pub enum JsonView {
    Null,
    Bool(bool),
    Number(Seq<char>),
    Str(Seq<char>),
    Array(Seq<JsonView>),
    Object(Map<Seq<char>, JsonView>),
}

/// A row of keys and values as a map; a later value replaces an earlier one.
pub open spec fn map_of(pairs: Seq<(Seq<char>, JsonView)>) -> Map<Seq<char>, JsonView>
    decreases pairs.len(),
{
    if pairs.len() == 0 {
        Map::empty()
    } else {
        map_of(pairs.drop_last()).insert(pairs.last().0, pairs.last().1)
    }
}

/// The text of a number.
pub open spec fn number_part(v: JsonView) -> Seq<char> {
    match v {
        JsonView::Number(t) => t,
        _ => Seq::empty(),
    }
}

impl JsonNumber {
    #[verifier::type_invariant]
    spec fn is_number(self) -> bool {
        json_of(self.value) is Number
    }

    /// The text of the number.
    pub closed spec fn text(self) -> Seq<char> {
        number_part(json_of(self.value))
    }
}

/// The mathematical value of a JSON value.
pub open spec fn model_of(j: Json) -> JsonView
    decreases j,
{
    match j {
        Json::Null => JsonView::Null,
        Json::Bool(b) => JsonView::Bool(b),
        Json::Number(n) => JsonView::Number(n.text()),
        Json::Str(s) => JsonView::Str(s@),
        Json::Array(v) => JsonView::Array(models_of(v@)),
        Json::Object(m) => JsonView::Object(map_of(fields_of(m@))),
    }
}

/// The mathematical values of a row of JSON values.
pub open spec fn models_of(v: Seq<Json>) -> Seq<JsonView>
    decreases v,
{
    if v.len() == 0 {
        Seq::empty()
    } else {
        models_of(v.drop_last()).push(model_of(v.last()))
    }
}

/// The mathematical values of a row of keys and JSON values.
pub open spec fn fields_of(v: Seq<(String, Json)>) -> Seq<(Seq<char>, JsonView)>
    decreases v,
{
    if v.len() == 0 {
        Seq::empty()
    } else {
        fields_of(v.drop_last()).push((v.last().0@, model_of(v.last().1)))
    }
}

/// The values of a row stand in the order of the row.
pub proof fn lemma_models_of(v: Seq<Json>)
    ensures
        models_of(v).len() == v.len(),
        forall|i: int| 0 <= i < v.len() ==> #[trigger] models_of(v)[i] == model_of(v[i]),
    decreases v.len(),
{
    if v.len() > 0 {
        lemma_models_of(v.drop_last());
    }
}

/// The fields of a row stand in the order of the row.
pub proof fn lemma_fields_of(v: Seq<(String, Json)>)
    ensures
        fields_of(v).len() == v.len(),
        forall|i: int|
            0 <= i < v.len() ==> #[trigger] fields_of(v)[i] == (v[i].0@, model_of(v[i].1)),
    decreases v.len(),
{
    if v.len() > 0 {
        lemma_fields_of(v.drop_last());
    }
}

impl View for Json {
    type V = JsonView;

    open spec fn view(&self) -> JsonView {
        model_of(*self)
    }
}

// ── serde_json ─────────────────────────────────────────────────────────────

/// `serde_json::Value`, a tree of JSON nodes.
#[verifier::external_type_specification]
#[verifier::external_body]
pub struct ExValue(serde_json::Value);

/// What a `serde_json::Value` holds.
pub uninterp spec fn json_of(v: serde_json::Value) -> JsonView;

/// One layer of a `serde_json::Value`.
pub enum JsonLayer {
    Null,
    Bool(bool),
    Number(serde_json::Value),
    Str(String),
    Array(Vec<serde_json::Value>),
    Object(Vec<(String, serde_json::Value)>),
}

/// What the values of an array layer hold.
pub open spec fn items_of(v: Seq<serde_json::Value>) -> Seq<JsonView> {
    v.map_values(|x: serde_json::Value| json_of(x))
}

/// What the keys and values of an object layer hold.
pub open spec fn pairs_of(v: Seq<(String, serde_json::Value)>) -> Seq<(Seq<char>, JsonView)> {
    v.map_values(|p: (String, serde_json::Value)| (p.0@, json_of(p.1)))
}

/// Whether a row of pairs holds no key twice.
pub open spec fn distinct_keys(v: Seq<(String, serde_json::Value)>) -> bool {
    forall|i: int, j: int| 0 <= i < j < v.len() ==> (#[trigger] v[i]).0@ != (#[trigger] v[j]).0@
}

impl JsonLayer {
    /// What the layer and the values below it hold.
    pub open spec fn model(self) -> JsonView {
        match self {
            JsonLayer::Null => JsonView::Null,
            JsonLayer::Bool(b) => JsonView::Bool(b),
            JsonLayer::Number(n) => json_of(n),
            JsonLayer::Str(s) => JsonView::Str(s@),
            JsonLayer::Array(v) => JsonView::Array(items_of(v@)),
            JsonLayer::Object(m) => JsonView::Object(map_of(pairs_of(m@))),
        }
    }

    /// Whether a number layer holds a number, and an object layer no key twice.
    pub open spec fn wf(self) -> bool {
        match self {
            JsonLayer::Number(n) => json_of(n) is Number,
            JsonLayer::Object(m) => distinct_keys(m@),
            _ => true,
        }
    }
}

/// Tells the variants of `serde_json::Value` apart. A map of `serde_json` holds
/// each key once.
#[verifier::external_body]
fn open_value(v: serde_json::Value) -> (r: JsonLayer)
    ensures
        r.model() == json_of(v),
        r.wf(),
{
    match v {
        serde_json::Value::Null => JsonLayer::Null,
        serde_json::Value::Bool(b) => JsonLayer::Bool(b),
        serde_json::Value::Number(n) => JsonLayer::Number(serde_json::Value::Number(n)),
        serde_json::Value::String(s) => JsonLayer::Str(s),
        serde_json::Value::Array(a) => JsonLayer::Array(a),
        serde_json::Value::Object(m) => JsonLayer::Object(m.into_iter().collect()),
    }
}

/// Makes the variant of `serde_json::Value` for a layer. Collecting pairs of different
/// keys into a map of `serde_json` keeps each of them.
#[verifier::external_body]
fn close_value(layer: JsonLayer) -> (r: serde_json::Value)
    requires
        layer.wf(),
    ensures
        json_of(r) == layer.model(),
{
    match layer {
        JsonLayer::Null => serde_json::Value::Null,
        JsonLayer::Bool(b) => serde_json::Value::Bool(b),
        JsonLayer::Number(n) => n,
        JsonLayer::Str(s) => serde_json::Value::String(s),
        JsonLayer::Array(v) => serde_json::Value::Array(v),
        JsonLayer::Object(m) => serde_json::Value::Object(m.into_iter().collect()),
    }
}

/// `serde_json::Value::clone` gives a value that holds the same.
pub assume_specification[ <serde_json::Value as Clone>::clone ](v: &serde_json::Value) -> (r:
    serde_json::Value)
    ensures
        json_of(r) == json_of(*v),
;

/// What `serde_json::from_slice` reads from bytes, if they are a JSON text.
pub uninterp spec fn json_parsed(bytes: Seq<u8>) -> Option<JsonView>;

/// Calls `serde_json::from_slice`.
#[verifier::external_body]
fn read_value(bytes: &[u8]) -> (r: Option<serde_json::Value>)
    ensures
        match r {
            Some(v) => json_parsed(bytes@) == Some(json_of(v)),
            None => json_parsed(bytes@) is None,
        },
{
    serde_json::from_slice(bytes).ok()
}

/// The compact text that `serde_json` writes for a value.
pub uninterp spec fn json_text(v: JsonView) -> Seq<char>;

/// Calls `serde_json::Value::to_string`, the compact writer. A number is
/// written as its text.
#[verifier::external_body]
fn write_value(v: &serde_json::Value) -> (r: String)
    ensures
        r@ == json_text(json_of(*v)),
        json_of(*v) is Number ==> r@ == number_part(json_of(*v)),
{
    v.to_string()
}

/// The indented text that `serde_json` writes for a value.
pub uninterp spec fn json_pretty_text(v: JsonView) -> Seq<char>;

/// Calls `serde_json::to_string_pretty`, which writes every value.
#[verifier::external_body]
fn write_value_pretty(v: &serde_json::Value) -> (r: String)
    ensures
        r@ == json_pretty_text(json_of(*v)),
{
    serde_json::to_string_pretty(v).unwrap_or_default()
}

// ── Values ─────────────────────────────────────────────────────────────────

proof fn lemma_map_of_distinct(pairs: Seq<(Seq<char>, JsonView)>, i: int)
    requires
        0 <= i < pairs.len(),
        forall|a: int, b: int| 0 <= a < b < pairs.len() ==> (#[trigger] pairs[a]).0 != (
        #[trigger] pairs[b]).0,
    ensures
        map_of(pairs).dom().contains(pairs[i].0),
        map_of(pairs)[pairs[i].0] == pairs[i].1,
    decreases pairs.len(),
{
    if i < pairs.len() - 1 {
        assert forall|a: int, b: int| 0 <= a < b < pairs.drop_last().len() implies (
        #[trigger] pairs.drop_last()[a]).0 != (#[trigger] pairs.drop_last()[b]).0 by {
            assert(pairs[a].0 != pairs[b].0);
        }
        lemma_map_of_distinct(pairs.drop_last(), i);
        assert(pairs[i].0 != pairs[pairs.len() - 1].0);
    }
}

proof fn lemma_map_of_finite(pairs: Seq<(Seq<char>, JsonView)>)
    ensures
        map_of(pairs).dom().finite(),
    decreases pairs.len(),
{
    if pairs.len() > 0 {
        lemma_map_of_finite(pairs.drop_last());
    }
}

/// The value of the last of `pairs` with the key, if there is one.
pub open spec fn last_with_key(pairs: Seq<(Seq<char>, JsonView)>, key: Seq<char>) -> Option<
    JsonView,
>
    decreases pairs.len(),
{
    if pairs.len() == 0 {
        None
    } else if pairs.last().0 == key {
        Some(pairs.last().1)
    } else {
        last_with_key(pairs.drop_last(), key)
    }
}

proof fn lemma_last_with_key(pairs: Seq<(Seq<char>, JsonView)>, key: Seq<char>)
    ensures
        map_of(pairs).dom().contains(key) == last_with_key(pairs, key).is_some(),
        map_of(pairs).dom().contains(key) ==> last_with_key(pairs, key) == Some(map_of(pairs)[key]),
    decreases pairs.len(),
{
    if pairs.len() > 0 {
        lemma_last_with_key(pairs.drop_last(), key);
    }
}

/// The field of an object, if the value is an object that has it.
pub open spec fn field_of(v: JsonView, key: Seq<char>) -> Option<JsonView> {
    match v {
        JsonView::Object(m) => if m.dom().contains(key) {
            Some(m[key])
        } else {
            None
        },
        _ => None,
    }
}

/// The item of an array, if the value is an array that has it.
pub open spec fn item_of(v: JsonView, i: int) -> Option<JsonView> {
    match v {
        JsonView::Array(s) => if 0 <= i < s.len() {
            Some(s[i])
        } else {
            None
        },
        _ => None,
    }
}

/// The view of an optional reference to a value.
pub open spec fn opt_json(o: Option<&Json>) -> Option<JsonView> {
    match o {
        Some(v) => Some(v@),
        None => None,
    }
}

impl JsonNumber {
    /// The number that a JSON text spells, if the text is that of a number.
    pub fn parse(text: &str) -> (r: Option<JsonNumber>)
        ensures
            match r {
                Some(n) => json_parsed(vstd::utf8::encode_utf8(text@)) == Some(JsonView::Number(n.text())),
                None => !(json_parsed(vstd::utf8::encode_utf8(text@)) matches Some(JsonView::Number(_))),
            },
    {
        match read_value(text.as_bytes()) {
            Some(v) => match open_value(v) {
                JsonLayer::Number(n) => Some(JsonNumber { value: n }),
                _ => None,
            },
            None => None,
        }
    }

    /// The text of the number.
    pub fn to_text(&self) -> (r: String)
        ensures
            r@ == self.text(),
    {
        proof {
            use_type_invariant(self);
        }
        write_value(&self.value)
    }
}

proof fn lemma_map_of_removed(pairs: Seq<(Seq<char>, JsonView)>, p: int, v: JsonView)
    requires
        0 <= p < pairs.len(),
    ensures
        map_of(pairs.remove(p)).insert(pairs[p].0, v) == map_of(pairs).insert(pairs[p].0, v),
    decreases pairs.len(),
{
    let sub = pairs.drop_last();
    let k = pairs[p].0;
    if p == pairs.len() - 1 {
        assert(pairs.remove(p) =~= sub);
        assert(map_of(pairs).insert(k, v) =~= map_of(sub).insert(k, v));
    } else {
        lemma_map_of_removed(sub, p, v);
        let last = pairs.last();
        assert(sub.remove(p).push(last).drop_last() =~= sub.remove(p));
        assert(pairs.remove(p) =~= sub.remove(p).push(last));
        let x = map_of(sub.remove(p));
        let y = map_of(sub);
        assert(x.insert(k, v) == y.insert(k, v));
        assert forall|q: Seq<char>| q != k implies #[trigger] x.contains_key(q) == y.contains_key(q)
            && (x.contains_key(q) ==> x[q] == y[q]) by {
            assert(x.insert(k, v).contains_key(q) == y.insert(k, v).contains_key(q));
            assert(x.insert(k, v)[q] == y.insert(k, v)[q]);
        }
        assert(x.insert(last.0, last.1).insert(k, v) =~= y.insert(last.0, last.1).insert(k, v));
    }
}

/// Sets the value of a key in a row of pairs that holds no key twice.
fn set_pair(pairs: &mut Vec<(String, serde_json::Value)>, key: String, value: serde_json::Value)
    requires
        distinct_keys(old(pairs)@),
    ensures
        distinct_keys(final(pairs)@),
        map_of(pairs_of(final(pairs)@)) == map_of(pairs_of(old(pairs)@)).insert(
            key@,
            json_of(value),
        ),
{
    let ghost before = pairs@;
    let mut p: usize = 0;
    while p < pairs.len() && !same_str(pairs[p].0.as_str(), key.as_str())
        invariant
            p <= pairs@.len(),
            pairs@ == before,
            forall|j: int| 0 <= j < p ==> (#[trigger] before[j]).0@ != key@,
        decreases pairs@.len() - p,
    {
        p += 1;
    }
    if p < pairs.len() {
        let gone = pairs.remove(p);
        proof {
            lemma_map_of_removed(pairs_of(before), p as int, json_of(value));
            assert(pairs_of(pairs@) =~= pairs_of(before).remove(p as int));
            assert(pairs_of(before)[p as int].0 == key@);
        }
    }
    let ghost rest = pairs@;
    pairs.push((key, value));
    assert(pairs_of(pairs@) =~= pairs_of(rest).push((key@, json_of(value))));
    assert(pairs_of(pairs@).drop_last() =~= pairs_of(rest));
}

impl Json {
    /// The field of an object.
    pub fn get(&self, key: &str) -> (r: Option<&Json>)
        ensures
            opt_json(r) == field_of(self@, key@),
    {
        match self {
            Json::Object(m) => {
                let ghost pairs = fields_of(m@);
                proof {
                    lemma_fields_of(m@);
                    lemma_last_with_key(pairs, key@);
                    assert(pairs.take(pairs.len() as int) =~= pairs);
                }
                let mut n: usize = m.len();
                while n > 0
                    invariant
                        n <= m@.len(),
                        pairs.len() == m@.len(),
                        forall|i: int|
                            0 <= i < m@.len() ==> #[trigger] pairs[i] == (m@[i].0@, m@[i].1@),
                        last_with_key(pairs.take(n as int), key@) == last_with_key(pairs, key@),
                        field_of(self@, key@) == last_with_key(pairs, key@),
                    decreases n,
                {
                    assert(pairs.take(n as int).last() == pairs[n as int - 1]);
                    if same_str(m[n - 1].0.as_str(), key) {
                        return Some(&m[n - 1].1);
                    }
                    assert(pairs.take(n as int).drop_last() =~= pairs.take(n as int - 1));
                    n -= 1;
                }
                None
            },
            _ => None,
        }
    }

    /// The item of an array.
    pub fn at(&self, i: usize) -> (r: Option<&Json>)
        ensures
            opt_json(r) == item_of(self@, i as int),
    {
        match self {
            Json::Array(v) => {
                proof {
                    lemma_models_of(v@);
                }
                if i < v.len() {
                    Some(&v[i])
                } else {
                    None
                }
            },
            _ => None,
        }
    }

    /// The text of a string value.
    pub fn as_str(&self) -> (r: Option<&str>)
        ensures
            match r {
                Some(s) => self@ == JsonView::Str(s@),
                None => !(self@ is Str),
            },
    {
        match self {
            Json::Str(s) => Some(s.as_str()),
            _ => None,
        }
    }

    /// The value as `serde_json` holds it.
    fn to_value(&self) -> (r: serde_json::Value)
        ensures
            json_of(r) == self@,
        decreases self,
    {
        match self {
            Json::Null => close_value(JsonLayer::Null),
            Json::Bool(b) => close_value(JsonLayer::Bool(*b)),
            Json::Number(n) => {
                proof {
                    use_type_invariant(n);
                }
                n.value.clone()
            },
            Json::Str(s) => close_value(JsonLayer::Str(s.clone())),
            Json::Array(v) => {
                let mut out: Vec<serde_json::Value> = Vec::new();
                let mut i: usize = 0;
                while i < v.len()
                    invariant
                        i <= v@.len(),
                        *self == Json::Array(*v),
                        out@.len() == i,
                        forall|j: int| 0 <= j < i ==> json_of(#[trigger] out@[j]) == v@[j]@,
                    decreases v@.len() - i,
                {
                    assert(decreases_to!(*self => self->Array_0));
                    assert(decreases_to!(*v => v@));
                    assert(decreases_to!(v@ => v@[i as int]));
                    out.push(v[i].to_value());
                    i += 1;
                }
                let layer = JsonLayer::Array(out);
                proof {
                    lemma_models_of(v@);
                    assert(items_of(out@) =~= models_of(v@));
                }
                close_value(layer)
            },
            Json::Object(m) => {
                let ghost fields = fields_of(m@);
                proof {
                    lemma_fields_of(m@);
                }
                let mut out: Vec<(String, serde_json::Value)> = Vec::new();
                let mut i: usize = 0;
                assert(pairs_of(out@) =~= fields.take(0));
                while i < m.len()
                    invariant
                        i <= m@.len(),
                        *self == Json::Object(*m),
                        fields.len() == m@.len(),
                        forall|j: int|
                            0 <= j < m@.len() ==> #[trigger] fields[j] == (m@[j].0@, m@[j].1@),
                        distinct_keys(out@),
                        map_of(pairs_of(out@)) == map_of(fields.take(i as int)),
                    decreases m@.len() - i,
                {
                    assert(decreases_to!(*self => self->Object_0));
                    assert(decreases_to!(*m => m@));
                    assert(decreases_to!(m@ => m@[i as int]));
                    assert(decreases_to!(m@[i as int] => m@[i as int].1));
                    let value = m[i].1.to_value();
                    set_pair(&mut out, m[i].0.clone(), value);
                    assert(fields.take(i as int + 1).drop_last() =~= fields.take(i as int));
                    assert(fields.take(i as int + 1).last() == fields[i as int]);
                    i += 1;
                }
                assert(fields.take(fields.len() as int) =~= fields);
                let layer = JsonLayer::Object(out);
                close_value(layer)
            },
        }
    }

    /// The value that a `serde_json::Value` holds.
    fn from_value(v: serde_json::Value) -> (r: Json)
        ensures
            r@ == json_of(v),
        decreases json_of(v),
    {
        let ghost whole = json_of(v);
        match open_value(v) {
            JsonLayer::Null => Json::Null,
            JsonLayer::Bool(b) => Json::Bool(b),
            JsonLayer::Number(n) => Json::Number(JsonNumber { value: n }),
            JsonLayer::Str(s) => Json::Str(s),
            JsonLayer::Array(items) => {
                let ghost all = items@;
                let mut items = items;
                let mut out: Vec<Json> = Vec::new();
                while items.len() > 0
                    invariant
                        whole == JsonView::Array(items_of(all)),
                        json_of(v) == whole,
                        out@.len() + items@.len() == all.len(),
                        items@ == all.skip(out@.len() as int),
                        forall|j: int|
                            0 <= j < out@.len() ==> (#[trigger] out@[j])@ == json_of(all[j]),
                    decreases items@.len(),
                {
                    let ghost k = out@.len() as int;
                    let x = items.remove(0);
                    assert(items@ =~= all.skip(k + 1));
                    assert(items_of(all)[k] == json_of(x));
                    assert(decreases_to!(whole => whole->Array_0));
                    assert(decreases_to!(whole->Array_0 => whole->Array_0[k]));
                    out.push(Json::from_value(x));
                }
                let r = Json::Array(out);
                proof {
                    lemma_models_of(out@);
                    assert(models_of(out@) =~= items_of(all));
                }
                r
            },
            JsonLayer::Object(items) => {
                let ghost all = items@;
                let mut items = items;
                let mut out: Vec<(String, Json)> = Vec::new();
                while items.len() > 0
                    invariant
                        whole == JsonView::Object(map_of(pairs_of(all))),
                        json_of(v) == whole,
                        forall|i: int, j: int|
                            0 <= i < j < all.len() ==> (#[trigger] all[i]).0@ != (
                            #[trigger] all[j]).0@,
                        out@.len() + items@.len() == all.len(),
                        items@ == all.skip(out@.len() as int),
                        forall|j: int|
                            0 <= j < out@.len() ==> (#[trigger] out@[j]).0@ == all[j].0@
                                && out@[j].1@ == json_of(all[j].1),
                    decreases items@.len(),
                {
                    let ghost k = out@.len() as int;
                    let x = items.remove(0);
                    assert(items@ =~= all.skip(k + 1));
                    proof {
                        let pairs = pairs_of(all);
                        assert forall|a: int, b: int| 0 <= a < b < pairs.len() implies (
                        #[trigger] pairs[a]).0 != (#[trigger] pairs[b]).0 by {
                            assert(all[a].0@ != all[b].0@);
                        }
                        lemma_map_of_distinct(pairs, k);
                        lemma_map_of_finite(pairs);
                        assert(pairs[k].1 == json_of(x.1));
                        assert(decreases_to!(whole => whole->Object_0));
                        assert(decreases_to!(whole->Object_0 => whole->Object_0[pairs[k].0]));
                    }
                    out.push((x.0, Json::from_value(x.1)));
                }
                let r = Json::Object(out);
                proof {
                    lemma_fields_of(out@);
                    assert(fields_of(out@) =~= pairs_of(all));
                }
                r
            },
        }
    }

    /// Reads a JSON text.
    pub fn parse(bytes: &[u8]) -> (r: Option<Json>)
        ensures
            match r {
                Some(v) => json_parsed(bytes@) == Some(v@),
                None => json_parsed(bytes@) is None,
            },
    {
        match read_value(bytes) {
            Some(v) => Some(Json::from_value(v)),
            None => None,
        }
    }

    /// The compact text of the value.
    pub fn to_text(&self) -> (r: String)
        ensures
            r@ == json_text(self@),
    {
        write_value(&self.to_value())
    }

    /// The indented text of the value.
    pub fn to_pretty(&self) -> (r: String)
        ensures
            r@ == json_pretty_text(self@),
    {
        write_value_pretty(&self.to_value())
    }
}

} // verus!
