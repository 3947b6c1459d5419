//! JSON values, as the logic reads them.
use vstd::prelude::*;
use crate::text;

verus! {

/// A JSON value. The members of an object are in the order in which the parser
/// hands them out; a key stands in it once.
#[derive(Debug, PartialEq, Eq)]
pub enum Json {
    Null,
    Bool(bool),
    /// A whole number that is not negative.
    UInt(u64),
    /// A negative whole number.
    NegInt(i64),
    /// Any other number, as it is written.
    Fraction(String),
    Str(String),
    Array(Vec<Json>),
    Object(Vec<(String, Json)>),
}

/// The parser's own value type.
#[verifier::external_type_specification]
#[verifier::external_body]
pub struct ExValue(serde_json::Value);

/// What the parser makes of a text: a value, or the error's message.
pub uninterp spec fn parsed_json(text: Seq<char>) -> Result<Json, Seq<char>>;

/// A parsed value in the library's own type: each kind of `serde_json::Value`
/// becomes the variant of the same meaning.
#[verifier::external_body]
fn json_of(v: serde_json::Value) -> Json {
    match v {
        serde_json::Value::Null => Json::Null,
        serde_json::Value::Bool(b) => Json::Bool(b),
        serde_json::Value::Number(n) => match (n.as_u64(), n.as_i64()) {
            (Some(u), _) => Json::UInt(u),
            (None, Some(i)) => Json::NegInt(i),
            (None, None) => Json::Fraction(n.to_string()),
        },
        serde_json::Value::String(s) => Json::Str(s),
        serde_json::Value::Array(a) => Json::Array(a.into_iter().map(json_of).collect()),
        serde_json::Value::Object(m) => {
            Json::Object(m.into_iter().map(|(k, v)| (k, json_of(v))).collect())
        },
    }
}

/// `serde_json::from_str` into `serde_json::Value`. The grammar is named and
/// not spelled out.
#[verifier::external_body]
pub(crate) fn parse_json(text: &str) -> (r: Result<Json, String>)
    ensures
        match r {
            Ok(j) => parsed_json(text@) == Ok::<Json, Seq<char>>(j),
            Err(e) => parsed_json(text@) == Err::<Json, Seq<char>>(e@),
        },
{
    serde_json::from_str::<serde_json::Value>(text).map(json_of).map_err(|e| e.to_string())
}

/// What the serializer writes of a value, on one line.
pub uninterp spec fn json_text(j: Json) -> Seq<char>;

/// What the serializer writes of a value, indented over several lines.
pub uninterp spec fn json_pretty(j: Json) -> Seq<char>;

/// A value in the parser's own type: each variant becomes the kind of
/// `serde_json::Value` of the same meaning.
#[verifier::external_body]
fn value_of(j: &Json) -> serde_json::Value {
    match j {
        Json::Null => serde_json::Value::Null,
        Json::Bool(b) => serde_json::Value::Bool(*b),
        Json::UInt(n) => serde_json::Value::from(*n),
        Json::NegInt(n) => serde_json::Value::from(*n),
        Json::Fraction(s) => serde_json::from_str(s).unwrap_or_default(),
        Json::Str(s) => serde_json::Value::from(s.as_str()),
        Json::Array(a) => serde_json::Value::Array(a.iter().map(value_of).collect()),
        Json::Object(m) => {
            serde_json::Value::Object(m.iter().map(|(k, v)| (k.clone(), value_of(v))).collect())
        },
    }
}

/// `serde_json::Value::to_string`. What is written is named and not spelled out.
#[verifier::external_body]
pub(crate) fn print_json(j: &Json) -> (r: String)
    ensures
        r@ == json_text(*j),
{
    value_of(j).to_string()
}

/// `serde_json::to_string_pretty`, which writes every `serde_json::Value`. What
/// is written is named and not spelled out.
#[verifier::external_body]
pub(crate) fn print_json_pretty(j: &Json) -> (r: String)
    ensures
        r@ == json_pretty(*j),
{
    serde_json::to_string_pretty(&value_of(j)).unwrap_or_default()
}

/// The value of a key among the members of an object.
pub open spec fn member(members: Seq<(String, Json)>, key: Seq<char>) -> Option<Json>
    decreases members.len(),
{
    if members.len() == 0 {
        None
    } else if members[0].0@ == key {
        Some(members[0].1)
    } else {
        member(members.skip(1), key)
    }
}

/// The value of a key, where the value is an object that has it.
pub open spec fn field(j: Json, key: Seq<char>) -> Option<Json> {
    match j {
        Json::Object(m) => member(m@, key),
        _ => None,
    }
}

/// The text of a key, where it is a string.
pub open spec fn str_field(j: Json, key: Seq<char>) -> Option<Seq<char>> {
    match field(j, key) {
        Some(Json::Str(s)) => Some(s@),
        _ => None,
    }
}

/// The number of a key, where it is a whole number that is not negative.
pub open spec fn uint_field(j: Json, key: Seq<char>) -> Option<u64> {
    match field(j, key) {
        Some(Json::UInt(n)) => Some(n),
        _ => None,
    }
}

/// The truth value of a key, where it has one.
pub open spec fn bool_field(j: Json, key: Seq<char>) -> Option<bool> {
    match field(j, key) {
        Some(Json::Bool(b)) => Some(b),
        _ => None,
    }
}

/// Whether two values are built alike and hold the same texts and numbers.
pub open spec fn same_json(a: Json, b: Json) -> bool
    decreases a,
{
    match (a, b) {
        (Json::Null, Json::Null) => true,
        (Json::Bool(x), Json::Bool(y)) => x == y,
        (Json::UInt(x), Json::UInt(y)) => x == y,
        (Json::NegInt(x), Json::NegInt(y)) => x == y,
        (Json::Fraction(x), Json::Fraction(y)) => x@ == y@,
        (Json::Str(x), Json::Str(y)) => x@ == y@,
        (Json::Array(x), Json::Array(y)) => same_list(x@, y@),
        (Json::Object(x), Json::Object(y)) => same_members(x@, y@),
        _ => false,
    }
}

/// Whether the values of two lists are the same, one by one.
pub open spec fn same_list(a: Seq<Json>, b: Seq<Json>) -> bool
    decreases a,
{
    if a.len() == 0 || b.len() == 0 {
        a.len() == b.len()
    } else {
        same_json(a.last(), b.last()) && same_list(a.drop_last(), b.drop_last())
    }
}

/// Whether the members of two objects are the same, one by one.
pub open spec fn same_members(a: Seq<(String, Json)>, b: Seq<(String, Json)>) -> bool
    decreases a,
{
    if a.len() == 0 || b.len() == 0 {
        a.len() == b.len()
    } else {
        &&& a.last().0@ == b.last().0@
        &&& same_json(a.last().1, b.last().1)
        &&& same_members(a.drop_last(), b.drop_last())
    }
}

/// Whether a value is a text.
pub open spec fn is_text(j: Json, t: Seq<char>) -> bool {
    j matches Json::Str(s) && s@ == t
}

/// A copy of a value.
pub fn copy_json(j: &Json) -> (r: Json)
    ensures
        same_json(*j, r),
    decreases j,
{
    match j {
        Json::Null => Json::Null,
        Json::Bool(b) => Json::Bool(*b),
        Json::UInt(n) => Json::UInt(*n),
        Json::NegInt(n) => Json::NegInt(*n),
        Json::Fraction(s) => Json::Fraction(s.clone()),
        Json::Str(s) => Json::Str(s.clone()),
        Json::Array(list) => {
            let mut out: Vec<Json> = Vec::new();
            let mut i: usize = 0;
            while i < list.len()
                invariant
                    i <= list.len(),
                    *j == Json::Array(*list),
                    same_list(list@.take(i as int), out@),
                decreases list.len() - i,
            {
                assert(decreases_to!(*j => j->Array_0));
                assert(decreases_to!(j->Array_0 => j->Array_0@));
                assert(decreases_to!(j->Array_0@ => j->Array_0@[i as int]));
                let ghost before = out@;
                out.push(copy_json(&list[i]));
                assert(out@.drop_last() =~= before);
                assert(list@.take(i + 1).drop_last() =~= list@.take(i as int));
                i += 1;
            }
            assert(list@.take(list@.len() as int) =~= list@);
            Json::Array(out)
        },
        Json::Object(list) => {
            let mut out: Vec<(String, Json)> = Vec::new();
            let mut i: usize = 0;
            while i < list.len()
                invariant
                    i <= list.len(),
                    *j == Json::Object(*list),
                    same_members(list@.take(i as int), out@),
                decreases list.len() - i,
            {
                assert(decreases_to!(*j => j->Object_0));
                assert(decreases_to!(j->Object_0 => j->Object_0@));
                assert(decreases_to!(j->Object_0@ => j->Object_0@[i as int]));
                assert(decreases_to!(j->Object_0@[i as int] => j->Object_0@[i as int].1));
                let ghost before = out@;
                out.push((list[i].0.clone(), copy_json(&list[i].1)));
                assert(out@.drop_last() =~= before);
                assert(list@.take(i + 1).drop_last() =~= list@.take(i as int));
                i += 1;
            }
            assert(list@.take(list@.len() as int) =~= list@);
            Json::Object(out)
        },
    }
}

impl Json {
    /// The value of a key, where this is an object that has it.
    pub fn get(&self, key: &str) -> (r: Option<&Json>)
        ensures
            match r {
                Some(v) => field(*self, key@) == Some(*v),
                None => field(*self, key@) is None,
            },
    {
        match self {
            Json::Object(m) => {
                let mut i: usize = 0;
                assert(m@.skip(0) =~= m@);
                while i < m.len()
                    invariant
                        i <= m.len(),
                        field(*self, key@) == member(m@, key@),
                        member(m@.skip(i as int), key@) == member(m@, key@),
                    decreases m.len() - i,
                {
                    proof {
                        assert(m@.skip(i as int).skip(1) =~= m@.skip(i + 1));
                        assert(m@.skip(i as int)[0] == m@[i as int]);
                    }
                    if text::same(&m[i].0, key) {
                        return Some(&m[i].1);
                    }
                    i += 1;
                }
                None
            },
            _ => None,
        }
    }

    /// Hands out the value of a key, where this is an object that has it.
    pub fn take(self, key: &str) -> (r: Option<Json>)
        ensures
            r == field(self, key@),
    {
        match self {
            Json::Object(m) => {
                let mut members = m;
                let mut i: usize = 0;
                assert(members@.skip(0) =~= members@);
                while i < members.len()
                    invariant
                        i <= members.len(),
                        members == m,
                        field(self, key@) == member(m@, key@),
                        member(m@.skip(i as int), key@) == member(m@, key@),
                    decreases members.len() - i,
                {
                    proof {
                        assert(m@.skip(i as int).skip(1) =~= m@.skip(i + 1));
                        assert(m@.skip(i as int)[0] == m@[i as int]);
                    }
                    if text::same(&members[i].0, key) {
                        return Some(members.remove(i).1);
                    }
                    i += 1;
                }
                None
            },
            _ => None,
        }
    }

    /// The text of a key, where it is a string.
    pub fn get_str(&self, key: &str) -> (r: Option<String>)
        ensures
            text::opt_view(r) == str_field(*self, key@),
    {
        match self.get(key) {
            Some(Json::Str(s)) => Some(s.clone()),
            _ => None,
        }
    }

    /// The number of a key, where it is a whole number that is not negative.
    pub fn get_u64(&self, key: &str) -> (r: Option<u64>)
        ensures
            r == uint_field(*self, key@),
    {
        match self.get(key) {
            Some(Json::UInt(n)) => Some(*n),
            _ => None,
        }
    }

    /// The truth value of a key, where it has one.
    pub fn get_bool(&self, key: &str) -> (r: Option<bool>)
        ensures
            r == bool_field(*self, key@),
    {
        match self.get(key) {
            Some(Json::Bool(b)) => Some(*b),
            _ => None,
        }
    }
}

} // verus!
