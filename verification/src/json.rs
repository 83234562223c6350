//! JSON texts of flat objects and of lists of them.
use vstd::prelude::*;

verus! {

/// A value in a flat object.
pub enum Scalar {
    Null,
    Bool(bool),
    Int(i64),
    Text(String),
}

pub enum ScalarView {
    Null,
    Bool(bool),
    Int(i64),
    Text(Seq<char>),
}

impl View for Scalar {
    type V = ScalarView;

    open spec fn view(&self) -> ScalarView {
        match *self {
            Scalar::Null => ScalarView::Null,
            Scalar::Bool(b) => ScalarView::Bool(b),
            Scalar::Int(n) => ScalarView::Int(n),
            Scalar::Text(t) => ScalarView::Text(t@),
        }
    }
}

/// The fields of an object: names and values.
pub struct Fields {
    pub list: Vec<(String, Scalar)>,
}

impl View for Fields {
    type V = Seq<(Seq<char>, ScalarView)>;

    open spec fn view(&self) -> Seq<(Seq<char>, ScalarView)> {
        Seq::new(self.list@.len(), |i: int| (self.list@[i].0@, self.list@[i].1@))
    }
}

pub open spec fn fields_views(v: Seq<Fields>) -> Seq<Seq<(Seq<char>, ScalarView)>> {
    Seq::new(v.len(), |i: int| v[i]@)
}

impl Fields {
    pub fn new() -> (r: Fields)
        ensures
            r@ == Seq::<(Seq<char>, ScalarView)>::empty(),
    {
        let r = Fields { list: Vec::new() };
        assert(r@ =~= Seq::<(Seq<char>, ScalarView)>::empty());
        r
    }

    /// Adds a field at the end.
    pub fn put(&mut self, name: &str, value: Scalar)
        ensures
            final(self)@ == old(self)@.push((name@, value@)),
    {
        self.list.push((name.to_owned(), value));
        assert(self@ =~= old(self)@.push((name@, value@)));
    }

    /// Adds a text.
    pub fn put_text(&mut self, name: &str, value: &str)
        ensures
            final(self)@ == old(self)@.push((name@, ScalarView::Text(value@))),
    {
        self.put(name, Scalar::Text(value.to_owned()));
    }

    /// Adds a whole number.
    pub fn put_int(&mut self, name: &str, value: i64)
        ensures
            final(self)@ == old(self)@.push((name@, ScalarView::Int(value))),
    {
        self.put(name, Scalar::Int(value));
    }

    /// Adds a truth value.
    pub fn put_bool(&mut self, name: &str, value: bool)
        ensures
            final(self)@ == old(self)@.push((name@, ScalarView::Bool(value))),
    {
        self.put(name, Scalar::Bool(value));
    }

    /// Adds a text or, where there is none, null.
    pub fn put_opt_text(&mut self, name: &str, value: &Option<String>)
        ensures
            final(self)@ == old(self)@.push(
                (
                    name@,
                    match *value {
                        Some(t) => ScalarView::Text(t@),
                        None => ScalarView::Null,
                    },
                ),
            ),
    {
        match value {
            Some(t) => self.put_text(name, t.as_str()),
            None => self.put(name, Scalar::Null),
        }
    }
}

/// The JSON text of an object with these fields.
pub uninterp spec fn object_json(fields: Seq<(Seq<char>, ScalarView)>) -> Seq<char>;

/// The JSON text of an object whose only field is a list of objects.
pub uninterp spec fn listing_json(
    name: Seq<char>,
    rows: Seq<Seq<(Seq<char>, ScalarView)>>,
) -> Seq<char>;

/// `serde_json::Value::to_string` of the object with these fields, the later
/// one where a name comes twice. The text is a function of the fields; how it
/// is laid out and escaped is left to that function.
#[verifier::external_body]
pub(crate) fn object_text(fields: &Fields) -> (r: String)
    ensures
        r@ == object_json(fields@),
{
    let mut map = serde_json::Map::new();
    for (name, value) in &fields.list {
        let value = match value {
            Scalar::Null => serde_json::Value::Null,
            Scalar::Bool(b) => serde_json::Value::from(*b),
            Scalar::Int(n) => serde_json::Value::from(*n),
            Scalar::Text(t) => serde_json::Value::from(t.as_str()),
        };
        map.insert(name.clone(), value);
    }
    serde_json::Value::Object(map).to_string()
}

/// `serde_json::Value::to_string` of an object with one field, a list of
/// objects. The text is a function of the name and the rows; how it is laid
/// out and escaped is left to that function.
#[verifier::external_body]
pub(crate) fn listing_text(name: &str, rows: &Vec<Fields>) -> (r: String)
    ensures
        r@ == listing_json(name@, fields_views(rows@)),
{
    let value = |v: &Scalar| match v {
        Scalar::Null => serde_json::Value::Null,
        Scalar::Bool(b) => serde_json::Value::from(*b),
        Scalar::Int(n) => serde_json::Value::from(*n),
        Scalar::Text(t) => serde_json::Value::from(t.as_str()),
    };
    let row = |f: &Fields| f.list.iter().map(|(k, v)| (k.clone(), value(v))).collect();
    let list = rows.iter().map(|f| serde_json::Value::Object(row(f))).collect();
    let mut map = serde_json::Map::new();
    map.insert(name.to_string(), serde_json::Value::Array(list));
    serde_json::Value::Object(map).to_string()
}

/// The body of an answer that reports an error.
pub open spec fn error_body(msg: Seq<char>) -> Seq<char> {
    object_json(seq![("ok"@, ScalarView::Bool(false)), ("error"@, ScalarView::Text(msg))])
}

pub fn err_json(msg: &str) -> (r: String)
    ensures
        r@ == error_body(msg@),
{
    let mut f = Fields::new();
    f.put_bool("ok", false);
    f.put_text("error", msg);
    assert(f@ =~= seq![("ok"@, ScalarView::Bool(false)), ("error"@, ScalarView::Text(msg@))]);
    object_text(&f)
}

/// What went wrong is told as such, with the reason.
pub proof fn errors_say_what_went_wrong(msg: Seq<char>)
    ensures
        error_body(msg) == object_json(
            seq![("ok"@, ScalarView::Bool(false)), ("error"@, ScalarView::Text(msg))],
        ),
{
}

} // verus!
