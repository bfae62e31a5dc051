//! JSON values as the service reads and writes them.
use crate::text::{optional_text, optional_view, same, texts};
use vstd::prelude::*;

verus! {

/// A JSON value. Fields of an object are held in the order in which they were set; where a
/// name was set twice, the later value counts.
#[derive(Debug, PartialEq, Eq)]
pub enum Json {
    Null,
    Bool(bool),
    Int(i128),
    /// A number that is no integer, by the bits of its double-precision form.
    Float(u64),
    Str(String),
    Array(Vec<Json>),
    Object(Vec<(String, Json)>),
}

/// What a JSON value stands for.
pub enum JsonView {
    Null,
    Bool(bool),
    Int(int),
    Float(u64),
    Str(Seq<char>),
    Array(Seq<JsonView>),
    Object(Map<Seq<char>, JsonView>),
}

impl View for Json {
    type V = JsonView;

    open spec fn view(&self) -> JsonView {
        json_view(*self)
    }
}

/// The value that `json` stands for.
pub open spec fn json_view(json: Json) -> JsonView
    decreases json,
{
    match json {
        Json::Null => JsonView::Null,
        Json::Bool(b) => JsonView::Bool(b),
        Json::Int(n) => JsonView::Int(n as int),
        Json::Float(bits) => JsonView::Float(bits),
        Json::Str(s) => JsonView::Str(s@),
        Json::Array(items) => JsonView::Array(array_view(items@)),
        Json::Object(fields) => JsonView::Object(object_view(fields@)),
    }
}

/// The values that the items of an array stand for.
pub open spec fn array_view(items: Seq<Json>) -> Seq<JsonView>
    decreases items,
{
    if items.len() == 0 {
        Seq::empty()
    } else {
        array_view(items.drop_last()).push(json_view(items.last()))
    }
}

/// The fields of an object by name.
pub open spec fn object_view(fields: Seq<(String, Json)>) -> Map<Seq<char>, JsonView>
    decreases fields,
{
    if fields.len() == 0 {
        Map::empty()
    } else {
        object_view(fields.drop_last()).insert(fields.last().0@, json_view(fields.last().1))
    }
}

/// The field `name` of an object.
pub open spec fn field(json: JsonView, name: Seq<char>) -> Option<JsonView> {
    match json {
        JsonView::Object(fields) => if fields.dom().contains(name) {
            Some(fields[name])
        } else {
            None
        },
        _ => None,
    }
}

/// The text of a string value.
pub open spec fn text_value(json: Option<JsonView>) -> Option<Seq<char>> {
    match json {
        Some(JsonView::Str(s)) => Some(s),
        _ => None,
    }
}

/// The text of the field `name`; nothing where there is no such field or it is no string.
pub open spec fn text_at(json: JsonView, name: Seq<char>) -> Seq<char> {
    match text_value(field(json, name)) {
        Some(s) => s,
        None => Seq::empty(),
    }
}

/// The items of an array value; none where it is no array.
pub open spec fn items_of(json: Option<JsonView>) -> Seq<JsonView> {
    match json {
        Some(JsonView::Array(items)) => items,
        _ => Seq::empty(),
    }
}

/// Whether a value is `true`.
pub open spec fn is_true(json: Option<JsonView>) -> bool {
    json == Some(JsonView::Bool(true))
}

/// The 64-bit integer that a value holds.
pub open spec fn i64_value(json: Option<JsonView>) -> Option<i64> {
    match json {
        Some(JsonView::Int(n)) => if i64::MIN <= n <= i64::MAX {
            Some(n as i64)
        } else {
            None
        },
        _ => None,
    }
}

/// A number: an integer, or the bits of a double-precision number.
#[derive(Clone, Copy, Debug, PartialEq, Eq)]
pub enum Number {
    Int(i128),
    Float(u64),
}

/// A number, with an integer as a mathematical one.
pub enum NumberView {
    Int(int),
    Float(u64),
}

impl View for Number {
    type V = NumberView;

    open spec fn view(&self) -> NumberView {
        match self {
            Number::Int(n) => NumberView::Int(*n as int),
            Number::Float(bits) => NumberView::Float(*bits),
        }
    }
}

/// A number that may be absent.
pub open spec fn optional_number(number: Option<Number>) -> Option<NumberView> {
    match number {
        Some(n) => Some(n@),
        None => None,
    }
}

/// The number that a value holds.
pub open spec fn number_value(json: Option<JsonView>) -> Option<NumberView> {
    match json {
        Some(JsonView::Int(n)) => Some(NumberView::Int(n)),
        Some(JsonView::Float(bits)) => Some(NumberView::Float(bits)),
        _ => None,
    }
}

/// The strings of a list of texts.
pub open spec fn string_items(v: Seq<Seq<char>>) -> Seq<JsonView> {
    v.map_values(|s: Seq<char>| JsonView::Str(s))
}

/// A string, or null where there is none.
pub open spec fn string_or_null(s: Option<String>) -> JsonView {
    match s {
        Some(s) => JsonView::Str(s@),
        None => JsonView::Null,
    }
}

/// The view of an array has the items' views in their places.
pub proof fn lemma_array_view(items: Seq<Json>)
    ensures
        array_view(items).len() == items.len(),
        forall|i: int| 0 <= i < items.len() ==> #[trigger] array_view(items)[i] == items[i]@,
    decreases items.len(),
{
    if items.len() > 0 {
        lemma_array_view(items.drop_last());
        assert forall|i: int| 0 <= i < items.len() implies #[trigger] array_view(items)[i]
            == items[i]@ by {
            if i < items.len() - 1 {
                assert(items.drop_last()[i] == items[i]);
            }
        }
    }
}

/// Sets the field `name`.
pub fn put(fields: &mut Vec<(String, Json)>, name: &str, value: Json)
    ensures
        object_view(final(fields)@) == object_view(old(fields)@).insert(name@, value@),
{
    let ghost before = fields@;
    fields.push((name.to_owned(), value));
    proof {
        assert(fields@.drop_last() =~= before);
    }
}

/// Sets the field `name` to a string.
pub fn put_text(fields: &mut Vec<(String, Json)>, name: &str, value: &str)
    ensures
        object_view(final(fields)@) == object_view(old(fields)@).insert(
            name@,
            JsonView::Str(value@),
        ),
{
    put(fields, name, string(value));
}

/// Appends an item.
pub fn append(items: &mut Vec<Json>, value: Json)
    ensures
        array_view(final(items)@) == array_view(old(items)@).push(value@),
{
    let ghost before = items@;
    items.push(value);
    proof {
        assert(items@.drop_last() =~= before);
    }
}

/// An array of one item.
pub fn array_of_one(item: Json) -> (r: Json)
    ensures
        r@ == JsonView::Array(seq![item@]),
{
    let mut items: Vec<Json> = Vec::new();
    let ghost view = item@;
    append(&mut items, item);
    proof {
        assert(array_view(items@) =~= seq![view]);
    }
    Json::Array(items)
}

/// A string value.
pub fn string(s: &str) -> (r: Json)
    ensures
        r@ == JsonView::Str(s@),
{
    Json::Str(s.to_owned())
}

/// A string, or null where there is none.
pub fn optional_string(s: &Option<String>) -> (r: Json)
    ensures
        r@ == string_or_null(*s),
{
    match s {
        Some(s) => string(s.as_str()),
        None => Json::Null,
    }
}

/// An array of strings.
pub fn string_array(v: &Vec<String>) -> (r: Json)
    ensures
        r@ == JsonView::Array(string_items(texts(v@))),
{
    let mut items: Vec<Json> = Vec::new();
    let mut i: usize = 0;
    while i < v.len()
        invariant
            i <= v@.len(),
            array_view(items@) == string_items(texts(v@).take(i as int)),
        decreases v@.len() - i,
    {
        append(&mut items, string(v[i].as_str()));
        proof {
            assert(texts(v@).take(i + 1) =~= texts(v@).take(i as int).push(v@[i as int]@));
            assert(string_items(texts(v@).take(i + 1)) =~= string_items(
                texts(v@).take(i as int),
            ).push(JsonView::Str(v@[i as int]@)));
        }
        i += 1;
    }
    proof {
        assert(texts(v@).take(i as int) =~= texts(v@));
    }
    Json::Array(items)
}

/// An array of integers.
pub fn integer_array(v: &Vec<i64>) -> (r: Json)
    ensures
        r@ == JsonView::Array(v@.map_values(|n: i64| JsonView::Int(n as int))),
{
    let mut items: Vec<Json> = Vec::new();
    let mut i: usize = 0;
    while i < v.len()
        invariant
            i <= v@.len(),
            array_view(items@) == v@.take(i as int).map_values(|n: i64| JsonView::Int(n as int)),
        decreases v@.len() - i,
    {
        append(&mut items, Json::Int(v[i] as i128));
        proof {
            assert(v@.take(i + 1).map_values(|n: i64| JsonView::Int(n as int)) =~= v@.take(
                i as int,
            ).map_values(|n: i64| JsonView::Int(n as int)).push(
                JsonView::Int(v@[i as int] as int),
            ));
        }
        i += 1;
    }
    proof {
        assert(v@.take(i as int) =~= v@);
    }
    Json::Array(items)
}

/// What the last field of a given name adds to the fields before it.
proof fn lemma_object_view_last(fields: Seq<(String, Json)>, at: int, name: Seq<char>)
    requires
        0 <= at <= fields.len(),
        forall|j: int| at <= j < fields.len() ==> (#[trigger] fields[j]).0@ != name,
    ensures
        object_view(fields).dom().contains(name) == object_view(fields.take(at)).dom().contains(
            name,
        ),
        object_view(fields.take(at)).dom().contains(name) ==> object_view(fields)[name]
            == object_view(fields.take(at))[name],
    decreases fields.len(),
{
    if at < fields.len() {
        lemma_object_view_last(fields.drop_last(), at, name);
        assert(fields.drop_last().take(at) =~= fields.take(at));
        assert(fields.last() == fields[fields.len() - 1]);
    } else {
        assert(fields.take(at) =~= fields);
    }
}

impl Json {
    /// The field `name`, where this is an object that has it.
    pub fn get(&self, name: &str) -> (r: Option<&Json>)
        ensures
            match r {
                Some(v) => field(self@, name@) == Some(v@),
                None => field(self@, name@) is None,
            },
    {
        match self {
            Json::Object(fields) => {
                let mut i: usize = fields.len();
                while i > 0
                    invariant
                        i <= fields@.len(),
                        self@ == JsonView::Object(object_view(fields@)),
                        forall|j: int| i <= j < fields@.len() ==> (#[trigger] fields@[j]).0@
                            != name@,
                    decreases i,
                {
                    i -= 1;
                    if same(fields[i].0.as_str(), name) {
                        proof {
                            lemma_object_view_last(fields@, i + 1, name@);
                            assert(fields@.take(i + 1).drop_last() =~= fields@.take(i as int));
                            assert(fields@.take(i + 1).last() == fields@[i as int]);
                        }
                        return Some(&fields[i].1);
                    }
                }
                proof {
                    lemma_object_view_last(fields@, 0, name@);
                    assert(fields@.take(0) =~= Seq::empty());
                }
                None
            },
            _ => None,
        }
    }

    /// The text of a string.
    pub fn as_str(&self) -> (r: Option<&str>)
        ensures
            optional_view(r) == text_value(Some(self@)),
    {
        match self {
            Json::Str(s) => Some(s.as_str()),
            _ => None,
        }
    }

    /// The text of the field `name`, if there is one and it is a string.
    pub fn get_str(&self, name: &str) -> (r: Option<String>)
        ensures
            optional_text(r) == text_value(field(self@, name@)),
    {
        match self.get(name) {
            Some(v) => match v.as_str() {
                Some(s) => Some(s.to_owned()),
                None => None,
            },
            None => None,
        }
    }

    /// The text of the field `name`; nothing where there is no such field or it is no string.
    pub fn get_text(&self, name: &str) -> (r: String)
        ensures
            r@ == text_at(self@, name@),
    {
        match self.get_str(name) {
            Some(s) => s,
            None => String::new(),
        }
    }

    /// Whether the field `name` is `true`.
    pub fn get_flag(&self, name: &str) -> (r: bool)
        ensures
            r == is_true(field(self@, name@)),
    {
        match self.get(name) {
            Some(Json::Bool(b)) => *b,
            _ => false,
        }
    }

    /// The 64-bit integer in the field `name`.
    pub fn get_i64(&self, name: &str) -> (r: Option<i64>)
        ensures
            r == i64_value(field(self@, name@)),
    {
        match self.get(name) {
            Some(Json::Int(n)) => if i64::MIN as i128 <= *n && *n <= i64::MAX as i128 {
                Some(*n as i64)
            } else {
                None
            },
            _ => None,
        }
    }

    /// The number in the field `name`.
    pub fn get_number(&self, name: &str) -> (r: Option<Number>)
        ensures
            optional_number(r) == number_value(field(self@, name@)),
    {
        match self.get(name) {
            Some(Json::Int(n)) => Some(Number::Int(*n)),
            Some(Json::Float(bits)) => Some(Number::Float(*bits)),
            _ => None,
        }
    }

    /// The items of an array.
    pub fn as_array(&self) -> (r: Option<&Vec<Json>>)
        ensures
            match r {
                Some(items) => self@ == JsonView::Array(array_view(items@)),
                None => !(self@ is Array),
            },
    {
        match self {
            Json::Array(items) => Some(items),
            _ => None,
        }
    }

    /// A copy of this value.
    pub fn duplicate(&self) -> (r: Json)
        ensures
            r@ == self@,
        decreases self,
    {
        match self {
            Json::Null => Json::Null,
            Json::Bool(b) => Json::Bool(*b),
            Json::Int(n) => Json::Int(*n),
            Json::Float(bits) => Json::Float(*bits),
            Json::Str(s) => string(s.as_str()),
            Json::Array(items) => {
                let mut out: Vec<Json> = Vec::new();
                let mut i: usize = 0;
                #[verifier::loop_isolation(false)]
                while i < items.len()
                    invariant
                        *self == Json::Array(*items),
                        i <= items@.len(),
                        array_view(out@) == array_view(items@.take(i as int)),
                    decreases items@.len() - i,
                {
                    proof {
                        assert(decreases_to!(items@ => items@[i as int]));
                    }
                    append(&mut out, items[i].duplicate());
                    proof {
                        assert(items@.take(i + 1).drop_last() =~= items@.take(i as int));
                    }
                    i += 1;
                }
                proof {
                    assert(items@.take(i as int) =~= items@);
                }
                Json::Array(out)
            },
            Json::Object(fields) => {
                let mut out: Vec<(String, Json)> = Vec::new();
                let mut i: usize = 0;
                #[verifier::loop_isolation(false)]
                while i < fields.len()
                    invariant
                        *self == Json::Object(*fields),
                        i <= fields@.len(),
                        object_view(out@) == object_view(fields@.take(i as int)),
                    decreases fields@.len() - i,
                {
                    proof {
                        assert(decreases_to!(fields@ => fields@[i as int]));
                        assert(decreases_to!(fields@[i as int] => fields@[i as int].1));
                    }
                    put(&mut out, fields[i].0.as_str(), fields[i].1.duplicate());
                    proof {
                        assert(fields@.take(i + 1).drop_last() =~= fields@.take(i as int));
                    }
                    i += 1;
                }
                proof {
                    assert(fields@.take(i as int) =~= fields@);
                }
                Json::Object(out)
            },
        }
    }
}

/// A field reads back as what it was set to, whatever it was before, and setting it leaves the
/// others as they were. What is no object has no fields.
pub proof fn law_field_reads_back(
    fields: Map<Seq<char>, JsonView>,
    name: Seq<char>,
    value: JsonView,
    other: Seq<char>,
)
    ensures
        field(JsonView::Object(fields.insert(name, value)), name) == Some(value),
        other != name ==> field(JsonView::Object(fields.insert(name, value)), other) == field(
            JsonView::Object(fields),
            other,
        ),
        field(JsonView::Object(Map::empty()), name) is None,
        !(value is Object) ==> field(value, name) is None,
{
}

/// Of the fields that an object is written with, the last one of a name counts.
pub proof fn law_last_field_counts(
    fields: Seq<(String, Json)>,
    name: String,
    value: Json,
    rest: Seq<(String, Json)>,
)
    requires
        forall|i: int| 0 <= i < rest.len() ==> (#[trigger] rest[i]).0@ != name@,
    ensures
        field(JsonView::Object(object_view(fields.push((name, value)) + rest)), name@) == Some(
            value@,
        ),
        field(JsonView::Object(object_view(rest)), name@) is None,
    decreases rest.len(),
{
    let all = fields.push((name, value)) + rest;
    lemma_object_view_last(all, fields.len() as int + 1, name@);
    assert(all.take(fields.len() as int + 1) =~= fields.push((name, value)));
    assert(fields.push((name, value)).drop_last() =~= fields);
    lemma_object_view_last(rest, 0, name@);
    assert(rest.take(0) =~= Seq::empty());
}

/// A value is read as what it is, and as nothing else.
pub proof fn law_values_are_read(
    text: Seq<char>,
    n: int,
    bits: u64,
    flag: bool,
    items: Seq<JsonView>,
    fields: Map<Seq<char>, JsonView>,
)
    ensures
        text_value(Some(JsonView::Str(text))) == Some(text),
        text_value(Some(JsonView::Int(n))) is None,
        text_value(Some(JsonView::Float(bits))) is None,
        text_value(Some(JsonView::Bool(flag))) is None,
        text_value(Some(JsonView::Null)) is None,
        text_value(Some(JsonView::Array(items))) is None,
        text_value(Some(JsonView::Object(fields))) is None,
        text_value(None) is None,
        items_of(Some(JsonView::Array(items))) == items,
        items_of(Some(JsonView::Object(fields))).len() == 0,
        items_of(Some(JsonView::Str(text))).len() == 0,
        items_of(None).len() == 0,
        is_true(Some(JsonView::Bool(flag))) == flag,
        !is_true(Some(JsonView::Str(text))),
        !is_true(Some(JsonView::Int(n))),
        !is_true(None),
        i64::MIN <= n <= i64::MAX ==> i64_value(Some(JsonView::Int(n))) == Some(n as i64),
        !(i64::MIN <= n <= i64::MAX) ==> i64_value(Some(JsonView::Int(n))) is None,
        i64_value(Some(JsonView::Float(bits))) is None,
        i64_value(Some(JsonView::Str(text))) is None,
        i64_value(None) is None,
        number_value(Some(JsonView::Int(n))) == Some(NumberView::Int(n)),
        number_value(Some(JsonView::Float(bits))) == Some(NumberView::Float(bits)),
        number_value(Some(JsonView::Str(text))) is None,
        number_value(None) is None,
{
}

/// The text of a field is that of the string which the field holds, and empty where the field is
/// missing or holds something else.
pub proof fn law_text_of_field(
    fields: Map<Seq<char>, JsonView>,
    name: Seq<char>,
    text: Seq<char>,
    value: JsonView,
)
    ensures
        text_at(JsonView::Object(fields.insert(name, JsonView::Str(text))), name) == text,
        !(value is Str) ==> text_at(JsonView::Object(fields.insert(name, value)), name).len() == 0,
        text_at(JsonView::Object(fields.remove(name)), name).len() == 0,
        !(value is Object) ==> text_at(value, name).len() == 0,
{
}

/// A list of strings holds the texts in their order.
pub proof fn law_string_items(v: Seq<Seq<char>>, i: int)
    requires
        0 <= i < v.len(),
    ensures
        string_items(v).len() == v.len(),
        string_items(v)[i] == JsonView::Str(v[i]),
{
}

/// What a value stands for, by its kind.
pub proof fn law_value_stands_for(
    flag: bool,
    n: i128,
    bits: u64,
    s: String,
    items: Vec<Json>,
    fields: Vec<(String, Json)>,
    i: int,
)
    ensures
        Json::Null@ == JsonView::Null,
        Json::Bool(flag)@ == JsonView::Bool(flag),
        Json::Int(n)@ == JsonView::Int(n as int),
        Json::Float(bits)@ == JsonView::Float(bits),
        Json::Str(s)@ == JsonView::Str(s@),
        Json::Array(items)@ matches JsonView::Array(views) && views.len() == items@.len() && (0 <= i
            < items@.len() ==> views[i] == items@[i]@),
        Json::Object(fields)@ == JsonView::Object(object_view(fields@)),
        Number::Int(n)@ == NumberView::Int(n as int),
        Number::Float(bits)@ == NumberView::Float(bits),
        optional_number(None) is None,
        optional_number(Some(Number::Int(n))) == Some(NumberView::Int(n as int)),
{
    lemma_array_view(items@);
}

/// A text that may be missing is a string, or null where it is.
pub proof fn law_missing_text_is_null(s: String)
    ensures
        string_or_null(Some(s)) == JsonView::Str(s@),
        string_or_null(None) == JsonView::Null,
{
}

} // verus!
