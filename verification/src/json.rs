//! JSON values, as the router and the controller exchange them.

use vstd::prelude::*;

use crate::text::{same, to_decimal};

verus! {

/// A JSON value. A number is held as the text that spells it.
#[derive(Debug)]
pub enum Json {
    Null,
    Bool(bool),
    Number(String),
    Text(String),
    List(Vec<Json>),
    Object(Vec<(String, Json)>),
}

/// What a JSON value says.
pub enum JsonView {
    Null,
    Bool(bool),
    Number(Seq<char>),
    Text(Seq<char>),
    List(Seq<JsonView>),
    Object(Seq<(Seq<char>, JsonView)>),
}

/// What `j` says.
pub open spec fn said(j: Json) -> JsonView
    decreases j,
{
    match j {
        Json::Null => JsonView::Null,
        Json::Bool(b) => JsonView::Bool(b),
        Json::Number(s) => JsonView::Number(s@),
        Json::Text(s) => JsonView::Text(s@),
        Json::List(v) => JsonView::List(
            Seq::new(
                v@.len(),
                |i: int|
                    if 0 <= i < v@.len() {
                        said(v@[i])
                    } else {
                        JsonView::Null
                    },
            ),
        ),
        Json::Object(v) => JsonView::Object(
            Seq::new(
                v@.len(),
                |i: int|
                    if 0 <= i < v@.len() {
                        (v@[i].0@, said(v@[i].1))
                    } else {
                        (Seq::empty(), JsonView::Null)
                    },
            ),
        ),
    }
}

impl View for Json {
    type V = JsonView;

    open spec fn view(&self) -> JsonView {
        said(*self)
    }
}

/// What each of `v` says.
pub open spec fn views(v: Seq<Json>) -> Seq<JsonView> {
    Seq::new(v.len(), |i: int| v[i]@)
}

/// The value under `key`: the first field of that name in an object.
pub open spec fn field_of(fields: Seq<(Seq<char>, JsonView)>, key: Seq<char>) -> Option<JsonView>
    decreases fields.len(),
{
    if fields.len() == 0 {
        None
    } else if fields[0].0 == key {
        Some(fields[0].1)
    } else {
        field_of(fields.skip(1), key)
    }
}

impl JsonView {
    /// The value under `key`, if this is an object that has it.
    pub open spec fn get(self, key: Seq<char>) -> Option<JsonView> {
        match self {
            JsonView::Object(fields) => field_of(fields, key),
            _ => None,
        }
    }

    /// The rows of a list; nothing of any other value.
    pub open spec fn rows(self) -> Seq<JsonView> {
        match self {
            JsonView::List(v) => v,
            _ => Seq::empty(),
        }
    }

    /// An object with one field more.
    pub open spec fn put(self, key: Seq<char>, value: JsonView) -> JsonView {
        match self {
            JsonView::Object(fields) => JsonView::Object(fields.push((key, value))),
            other => other,
        }
    }

    /// The whole number this is, if it is one that is not negative.
    pub open spec fn whole(self) -> Option<nat> {
        match self {
            JsonView::Number(s) if s.len() > 0 && s[0] != '+' => crate::text::unsigned(
                s,
                10,
                u64::MAX as nat,
            ),
            _ => None,
        }
    }
}

/// `serde_json::Value` is what serde_json parses any JSON text to.
#[verifier::external_type_specification]
#[verifier::external_body]
pub struct ExValue(serde_json::Value);

/// What `serde_json::from_str` reads out of a text: a value, or the message of
/// the error it reports.
pub uninterp spec fn parsed_text(text: Seq<char>) -> Result<JsonView, Seq<char>>;

/// What `serde_json::Value`'s `Display` writes for a value: compact JSON.
pub uninterp spec fn rendered_text(value: JsonView) -> Seq<char>;

/// The value as one of this library's: variant for variant, numbers as the text
/// `serde_json::Number` displays, object fields in the order serde_json keeps
/// them. Nothing is claimed of the result beyond its type.
#[verifier::external_body]
fn from_value(v: serde_json::Value) -> Json {
    match v {
        serde_json::Value::Null => Json::Null,
        serde_json::Value::Bool(b) => Json::Bool(b),
        serde_json::Value::Number(n) => Json::Number(n.to_string()),
        serde_json::Value::String(s) => Json::Text(s),
        serde_json::Value::Array(a) => Json::List(a.into_iter().map(from_value).collect()),
        serde_json::Value::Object(m) => Json::Object(
            m.into_iter().map(|(k, v)| (k, from_value(v))).collect(),
        ),
    }
}

/// The value as one of serde_json's, variant for variant. A number is what
/// serde_json reads out of its text, or null where it reads nothing. Nothing is
/// claimed of the result beyond its type.
#[verifier::external_body]
fn to_value(j: &Json) -> serde_json::Value {
    match j {
        Json::Null => serde_json::Value::Null,
        Json::Bool(b) => serde_json::Value::Bool(*b),
        Json::Number(s) => serde_json::from_str(s).unwrap_or(serde_json::Value::Null),
        Json::Text(s) => serde_json::Value::String(s.clone()),
        Json::List(v) => serde_json::Value::Array(v.iter().map(to_value).collect()),
        Json::Object(v) => serde_json::Value::Object(
            v.iter().map(|(k, x)| (k.clone(), to_value(x))).collect(),
        ),
    }
}

/// `serde_json::from_str` into a `serde_json::Value`. The result depends on the
/// text alone; what it is has the name `parsed_text`.
#[verifier::external_body]
fn parse_text(text: &str) -> (r: Result<Json, String>)
    ensures
        match r {
            Ok(v) => parsed_text(text@) == Ok::<JsonView, Seq<char>>(v@),
            Err(e) => parsed_text(text@) == Err::<JsonView, Seq<char>>(e@),
        },
{
    match serde_json::from_str::<serde_json::Value>(text) {
        Ok(v) => Ok(from_value(v)),
        Err(e) => Err(e.to_string()),
    }
}

/// `serde_json::Value`'s `Display`. The result depends on the value alone; what
/// it is has the name `rendered_text`.
#[verifier::external_body]
fn render_text(j: &Json) -> (r: String)
    ensures
        r@ == rendered_text(j@),
{
    to_value(j).to_string()
}

impl Json {
    /// Reads a JSON text. The error is the message of what is wrong with it.
    pub fn parse(text: &str) -> (r: Result<Json, String>)
        ensures
            match r {
                Ok(v) => parsed_text(text@) == Ok::<JsonView, Seq<char>>(v@),
                Err(e) => parsed_text(text@) == Err::<JsonView, Seq<char>>(e@),
            },
    {
        parse_text(text)
    }

    /// The value as compact JSON text.
    pub fn render(&self) -> (r: String)
        ensures
            r@ == rendered_text(self@),
    {
        render_text(self)
    }

    /// An object without fields.
    pub fn object() -> (r: Json)
        ensures
            r@ == JsonView::Object(Seq::empty()),
    {
        let r = Json::Object(Vec::new());
        proof {
            assert(r@->Object_0 =~= Seq::empty());
        }
        r
    }

    pub fn text(s: &str) -> (r: Json)
        ensures
            r@ == JsonView::Text(s@),
    {
        Json::Text(s.to_owned())
    }

    /// A whole number.
    pub fn number(n: u64) -> (r: Json)
        ensures
            r@ == JsonView::Number(crate::text::decimal(n as nat)),
    {
        Json::Number(to_decimal(n as u128))
    }

    /// A list.
    pub fn list(items: Vec<Json>) -> (r: Json)
        ensures
            r@ == JsonView::List(views(items@)),
    {
        let r = Json::List(items);
        proof {
            assert(r@->List_0 =~= views(items@));
        }
        r
    }

    /// A list of texts.
    pub fn texts(items: &Vec<String>) -> (r: Json)
        ensures
            r@ == JsonView::List(
                Seq::new(items@.len(), |i: int| JsonView::Text(crate::text::views(items@)[i])),
            ),
    {
        let mut out: Vec<Json> = Vec::new();
        let mut i: usize = 0;
        while i < items.len()
            invariant
                i <= items@.len(),
                out@.len() == i,
                forall|k: int| 0 <= k < i ==> (#[trigger] out@[k])@ == JsonView::Text(items@[k]@),
            decreases items@.len() - i,
        {
            out.push(Json::text(items[i].as_str()));
            i = i + 1;
        }
        proof {
            assert(views(out@) =~= Seq::new(
                items@.len(),
                |i: int| JsonView::Text(crate::text::views(items@)[i]),
            ));
        }
        Json::list(out)
    }

    /// This object with one field more.
    pub fn with(self, key: &str, value: Json) -> (r: Json)
        ensures
            r@ == self@.put(key@, value@),
    {
        let ghost before = self@;
        match self {
            Json::Object(mut fields) => {
                fields.push((key.to_owned(), value));
                let r = Json::Object(fields);
                proof {
                    assert(r@->Object_0 =~= before->Object_0.push((key@, value@)));
                }
                r
            },
            other => other,
        }
    }

    /// The value under `key`, if this is an object that has it.
    pub fn get(&self, key: &str) -> (r: Option<&Json>)
        ensures
            match r {
                Some(v) => self@.get(key@) == Some(v@),
                None => self@.get(key@) is None,
            },
    {
        match self {
            Json::Object(fields) => {
                let ghost all = self@->Object_0;
                let mut i: usize = 0;
                proof {
                    assert(all.skip(0) =~= all);
                }
                while i < fields.len()
                    invariant
                        i <= fields@.len(),
                        self@ == JsonView::Object(all),
                        all.len() == fields@.len(),
                        forall|k: int|
                            0 <= k < fields@.len() ==> #[trigger] all[k] == (
                                fields@[k].0@,
                                fields@[k].1@,
                            ),
                        field_of(all, key@) == field_of(all.skip(i as int), key@),
                    decreases fields@.len() - i,
                {
                    proof {
                        assert(all[i as int] == (fields@[i as int].0@, fields@[i as int].1@));
                        assert(all.skip(i as int).skip(1) =~= all.skip(i + 1));
                    }
                    if same(fields[i].0.as_str(), key) {
                        return Some(&fields[i].1);
                    }
                    i = i + 1;
                }
                None
            },
            _ => None,
        }
    }

    /// The number of rows of a list; none for any other value.
    pub fn row_count(&self) -> (r: usize)
        ensures
            r == self@.rows().len(),
    {
        match self {
            Json::List(v) => v.len(),
            _ => 0,
        }
    }

    /// Row `i` of a list.
    pub fn row(&self, i: usize) -> (r: &Json)
        requires
            i < self@.rows().len(),
        ensures
            r@ == self@.rows()[i as int],
    {
        match self {
            Json::List(v) => &v[i],
            _ => self,
        }
    }

    pub fn is_list(&self) -> (r: bool)
        ensures
            r == (self@ is List),
    {
        match self {
            Json::List(_) => true,
            _ => false,
        }
    }

    pub fn as_str(&self) -> (r: Option<&str>)
        ensures
            match r {
                Some(s) => self@ == JsonView::Text(s@),
                None => !(self@ is Text),
            },
    {
        match self {
            Json::Text(s) => Some(s.as_str()),
            _ => None,
        }
    }

    /// The whole number this is, if it is one that is not negative.
    pub fn as_u64(&self) -> (r: Option<u64>)
        ensures
            match r {
                Some(n) => self@.whole() == Some(n as nat),
                None => self@.whole() is None,
            },
    {
        match self {
            Json::Number(s) => {
                if s.as_str().is_empty() || crate::text::starts_with(s.as_str(), "+") {
                    proof {
                        reveal_strlit("+");
                        if s@.len() > 0 {
                            assert(s@.take(1)[0] == s@[0]);
                        }
                    }
                    return None;
                }
                proof {
                    reveal_strlit("+");
                    if s@[0] == '+' {
                        assert(s@.take(1) =~= "+"@);
                    }
                }
                crate::text::parse_u64(s.as_str())
            },
            _ => None,
        }
    }

    /// A value that says the same.
    pub fn duplicate(&self) -> (r: Json)
        ensures
            r@ == self@,
        decreases self,
    {
        match self {
            Json::Null => Json::Null,
            Json::Bool(b) => Json::Bool(*b),
            Json::Number(s) => Json::Number(s.clone()),
            Json::Text(s) => Json::Text(s.clone()),
            Json::List(v) => {
                let mut out: Vec<Json> = Vec::new();
                let mut i: usize = 0;
                while i < v.len()
                    invariant
                        i <= v@.len(),
                        out@.len() == i,
                        decreases_to!(*self => *v),
                        forall|k: int| 0 <= k < i ==> (#[trigger] out@[k])@ == v@[k]@,
                    decreases v@.len() - i,
                {
                    proof {
                        assert(decreases_to!(*v => v@));
                        assert(decreases_to!(v@ => v@[i as int]));
                    }
                    out.push(v[i].duplicate());
                    i = i + 1;
                }
                let r = Json::List(out);
                proof {
                    assert(r@->List_0 =~= self@->List_0);
                }
                r
            },
            Json::Object(v) => {
                let mut out: Vec<(String, Json)> = Vec::new();
                let mut i: usize = 0;
                while i < v.len()
                    invariant
                        i <= v@.len(),
                        out@.len() == i,
                        decreases_to!(*self => *v),
                        forall|k: int|
                            0 <= k < i ==> (#[trigger] out@[k]).0@ == v@[k].0@ && out@[k].1@
                                == v@[k].1@,
                    decreases v@.len() - i,
                {
                    proof {
                        assert(decreases_to!(*v => v@));
                        assert(decreases_to!(v@ => v@[i as int]));
                        assert(decreases_to!(v@[i as int] => v@[i as int].1));
                    }
                    out.push((v[i].0.clone(), v[i].1.duplicate()));
                    i = i + 1;
                }
                let r = Json::Object(out);
                proof {
                    assert(r@->Object_0 =~= self@->Object_0);
                }
                r
            },
        }
    }
}

/// A field that is put into an object is found there, unless one of that name
/// was there before; what else was there is still there.
pub proof fn lemma_put(j: JsonView, name: Seq<char>, value: JsonView)
    requires
        j is Object,
    ensures
        j.put(name, value) is Object,
        forall|key: Seq<char>| #[trigger]
            j.put(name, value).get(key) == (if j.get(key) is Some {
                j.get(key)
            } else if key == name {
                Some(value)
            } else {
                None
            }),
{
    assert forall|key: Seq<char>| #[trigger] j.put(name, value).get(key) == (if j.get(
        key,
    ) is Some {
        j.get(key)
    } else if key == name {
        Some(value)
    } else {
        None
    }) by {
        lemma_field_pushed(j->Object_0, name, value, key);
    }
}

proof fn lemma_field_pushed(
    fields: Seq<(Seq<char>, JsonView)>,
    name: Seq<char>,
    value: JsonView,
    key: Seq<char>,
)
    ensures
        field_of(fields.push((name, value)), key) == (if field_of(fields, key) is Some {
            field_of(fields, key)
        } else if key == name {
            Some(value)
        } else {
            None
        }),
    decreases fields.len(),
{
    let all = fields.push((name, value));
    if fields.len() == 0 {
        assert(all.skip(1) =~= Seq::empty());
        reveal_with_fuel(field_of, 2);
    } else {
        assert(all.skip(1) =~= fields.skip(1).push((name, value)));
        lemma_field_pushed(fields.skip(1), name, value, key);
    }
}

/// An object without fields has none to find.
pub proof fn lemma_no_fields(key: Seq<char>)
    ensures
        JsonView::Object(Seq::empty()).get(key) is None,
{
}

/// Looking up a name in an object finds a value exactly when some field bears
/// it, and then that of the first that does.
pub proof fn law_lookup_finds_the_first(fields: Seq<(Seq<char>, JsonView)>, key: Seq<char>)
    ensures
        JsonView::Object(fields).get(key) is None <==> forall|i: int|
            0 <= i < fields.len() ==> (#[trigger] fields[i]).0 != key,
        JsonView::Object(fields).get(key) matches Some(v) ==> exists|i: int|
            0 <= i < fields.len() && (#[trigger] fields[i]).0 == key && fields[i].1 == v && forall|
                k: int,
            |
                0 <= k < i ==> (#[trigger] fields[k]).0 != key,
    decreases fields.len(),
{
    if fields.len() > 0 {
        let rest = fields.skip(1);
        if fields[0].0 != key {
            law_lookup_finds_the_first(rest, key);
            assert(forall|i: int| 0 <= i < rest.len() ==> #[trigger] rest[i] == fields[i + 1]);
            match field_of(rest, key) {
                Some(v) => {
                    let i = choose|i: int|
                        0 <= i < rest.len() && (#[trigger] rest[i]).0 == key && rest[i].1 == v
                            && forall|k: int| 0 <= k < i ==> (#[trigger] rest[k]).0 != key;
                    assert(fields[i + 1].0 == key && fields[i + 1].1 == v);
                    assert forall|k: int| 0 <= k < i + 1 implies (#[trigger] fields[k]).0
                        != key by {
                        if k > 0 {
                            assert(rest[k - 1].0 != key);
                        }
                    }
                },
                None => {
                    assert forall|i: int| 0 <= i < fields.len() implies (#[trigger] fields[i]).0
                        != key by {
                        if i > 0 {
                            assert(rest[i - 1].0 != key);
                        }
                    }
                },
            }
        }
    }
}

/// The first field of a name is the one that is found.
pub proof fn lemma_field_at(fields: Seq<(Seq<char>, JsonView)>, k: int)
    requires
        0 <= k < fields.len(),
        forall|i: int| 0 <= i < k ==> (#[trigger] fields[i]).0 != fields[k].0,
    ensures
        JsonView::Object(fields).get(fields[k].0) == Some(fields[k].1),
    decreases k,
{
    if k > 0 {
        let rest = fields.skip(1);
        assert(fields[0].0 != fields[k].0);
        assert forall|i: int| 0 <= i < k - 1 implies (#[trigger] rest[i]).0 != rest[k - 1].0 by {
            assert(rest[i] == fields[i + 1]);
        }
        assert(rest[k - 1] == fields[k]);
        lemma_field_at(rest, k - 1);
    }
}

} // verus!
