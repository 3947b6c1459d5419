//! The arguments of the tools: how they are advertised and how they are read.
use vstd::prelude::*;
use vstd::string::StringExecFns;
use crate::json::{field, str_field, Json};
use crate::text;
use crate::tools::{object_schema, prop};

verus! {

/// One argument of a tool, as it is advertised.
#[derive(Debug)]
pub struct Param {
    pub name: &'static str,
    pub ty: &'static str,
    pub description: &'static str,
    /// The values that are accepted, where only some are.
    pub choices: Vec<&'static str>,
}

/// One argument of a tool, as text.
#[verifier::ext_equal]
pub struct ParamView {
    pub name: Seq<char>,
    pub ty: Seq<char>,
    pub description: Seq<char>,
    pub choices: Seq<Seq<char>>,
}

impl View for Param {
    type V = ParamView;

    open spec fn view(&self) -> ParamView {
        ParamView {
            name: self.name@,
            ty: self.ty@,
            description: self.description@,
            choices: str_views(self.choices@),
        }
    }
}

/// An argument that accepts any value of its type.
pub open spec fn param(name: Seq<char>, ty: Seq<char>, description: Seq<char>) -> ParamView {
    ParamView { name, ty, description, choices: Seq::empty() }
}

/// An argument that only accepts some values.
pub open spec fn choice(
    name: Seq<char>,
    ty: Seq<char>,
    description: Seq<char>,
    choices: Seq<Seq<char>>,
) -> ParamView {
    ParamView { name, ty, description, choices }
}

/// Whether a value is a list of texts.
pub open spec fn is_texts(j: Json, texts: Seq<Seq<char>>) -> bool {
    j matches Json::Array(list) && list@.len() == texts.len() && forall|i: int|
        0 <= i < list@.len() ==> (#[trigger] list@[i] matches Json::Str(s) && s@ == texts[i])
}

/// Whether a schema's property advertises an argument.
pub open spec fn is_property(j: Json, p: ParamView) -> bool {
    &&& str_field(j, "type"@) == Some(p.ty)
    &&& str_field(j, "description"@) == Some(p.description)
    &&& if p.choices.len() == 0 {
        field(j, "enum"@) is None
    } else {
        field(j, "enum"@) matches Some(list) && is_texts(list, p.choices)
    }
}

/// Whether a schema advertises arguments, of which some are required.
pub open spec fn is_schema(j: Json, params: Seq<ParamView>, required: Seq<Seq<char>>) -> bool {
    &&& str_field(j, "type"@) == Some("object"@)
    &&& field(j, "properties"@) matches Some(Json::Object(m)) && m@.len() == params.len()
        && forall|i: int|
        0 <= i < m@.len() ==> (#[trigger] m@[i]).0@ == params[i].name && is_property(
            m@[i].1,
            params[i],
        )
    &&& field(j, "required"@) matches Some(list) && is_texts(list, required)
}

/// A property that only accepts some values.
fn choice_prop(ty: &str, description: &str, choices: &Vec<&'static str>) -> (r: Json)
    ensures
        str_field(r, "type"@) == Some(ty@),
        str_field(r, "description"@) == Some(description@),
        field(r, "enum"@) matches Some(list) && is_texts(list, str_views(choices@)),
{
    let mut list: Vec<Json> = Vec::new();
    let mut i: usize = 0;
    while i < choices.len()
        invariant
            i <= choices@.len(),
            list@.len() == i,
            forall|k: int|
                0 <= k < i ==> (#[trigger] list@[k] matches Json::Str(s) && s@ == choices@[k]@),
        decreases choices.len() - i,
    {
        list.push(Json::Str(choices[i].to_owned()));
        i += 1;
    }
    let mut members: Vec<(String, Json)> = Vec::new();
    members.push(("description".to_owned(), Json::Str(description.to_owned())));
    members.push(("enum".to_owned(), Json::Array(list)));
    members.push(("type".to_owned(), Json::Str(ty.to_owned())));
    proof {
        reveal_strlit("description");
        reveal_strlit("enum");
        reveal_strlit("type");
        assert("description"@.len() == 11 && "enum"@.len() == 4 && "type"@.len() == 4);
        assert("enum"@[0] == 'e' && "type"@[0] == 't');
        reveal_with_fuel(crate::json::member, 4);
        assert(members@.skip(1)[0] == members@[1]);
        assert(members@.skip(1).skip(1)[0] == members@[2]);
    }
    Json::Object(members)
}

/// The arguments of a list, as text.
pub open spec fn param_views(params: Seq<Param>) -> Seq<ParamView> {
    params.map_values(|p: Param| p@)
}

pub open spec fn str_views(list: Seq<&'static str>) -> Seq<Seq<char>> {
    list.map_values(|s: &'static str| s@)
}

/// The schema of a tool's arguments.
pub fn schema(params: Vec<Param>, required: Vec<&'static str>) -> (r: Json)
    ensures
        is_schema(r, param_views(params@), str_views(required@)),
{
    let mut props: Vec<(String, Json)> = Vec::new();
    let mut i: usize = 0;
    while i < params.len()
        invariant
            i <= params@.len(),
            props@.len() == i,
            forall|k: int|
                0 <= k < i ==> (#[trigger] props@[k]).0@ == params@[k].name@ && is_property(
                    props@[k].1,
                    params@[k]@,
                ),
        decreases params.len() - i,
    {
        let p = &params[i];
        let value = if p.choices.len() == 0 {
            prop(p.ty, p.description)
        } else {
            choice_prop(p.ty, p.description, &p.choices)
        };
        props.push((p.name.to_owned(), value));
        i += 1;
    }
    let mut names: Vec<String> = Vec::new();
    let mut k: usize = 0;
    while k < required.len()
        invariant
            k <= required@.len(),
            names@.len() == k,
            forall|j: int| 0 <= j < k ==> (#[trigger] names@[j])@ == required@[j]@,
        decreases required.len() - k,
    {
        names.push(required[k].to_owned());
        k += 1;
    }
    object_schema(props, &names)
}

/// A text argument, or what is said where it is missing.
pub open spec fn required_text(args: Json, key: Seq<char>) -> Result<Seq<char>, Seq<char>> {
    match str_field(args, key) {
        Some(s) => Ok(s),
        None => Err("missing required string argument `"@ + key + "`"@),
    }
}

/// The views of a text and of what is said where there is none.
pub open spec fn result_view(r: Result<String, String>) -> Result<Seq<char>, Seq<char>> {
    match r {
        Ok(s) => Ok(s@),
        Err(e) => Err(e@),
    }
}

/// Pull a required string argument, with a message the model can act on.
pub fn arg_str(args: &Json, key: &str) -> (r: Result<String, String>)
    ensures
        result_view(r) == required_text(*args, key@),
{
    match args.get_str(key) {
        Some(s) => Ok(s),
        None => {
            let mut e = "missing required string argument `".to_owned();
            e.append(key);
            e.append("`");
            Err(e)
        },
    }
}

/// A text argument, or a default.
pub open spec fn text_or(args: Json, key: Seq<char>, default: Seq<char>) -> Seq<char> {
    match str_field(args, key) {
        Some(s) => s,
        None => default,
    }
}

/// A text argument, or a default.
pub fn arg_str_or(args: &Json, key: &str, default: &str) -> (r: String)
    ensures
        r@ == text_or(*args, key@, default@),
{
    match args.get_str(key) {
        Some(s) => s,
        None => default.to_owned(),
    }
}

/// A number argument, as a size of this machine.
pub open spec fn size_arg(args: Json, key: Seq<char>) -> Option<usize> {
    match crate::json::uint_field(args, key) {
        Some(n) => Some(n as usize),
        None => None,
    }
}

pub fn arg_usize(args: &Json, key: &str) -> (r: Option<usize>)
    ensures
        r == size_arg(*args, key@),
{
    match args.get_u64(key) {
        Some(n) => Some(n as usize),
        None => None,
    }
}

/// A truth argument; absent means false.
pub open spec fn flag_arg(args: Json, key: Seq<char>) -> bool {
    crate::json::bool_field(args, key) == Some(true)
}

pub fn arg_bool(args: &Json, key: &str) -> (r: bool)
    ensures
        r == flag_arg(*args, key@),
{
    match args.get_bool(key) {
        Some(b) => b,
        None => false,
    }
}

/// The form of a word that goes with a number.
pub open spec fn plural(n: nat, one: Seq<char>, many: Seq<char>) -> Seq<char> {
    if n == 1 {
        one
    } else {
        many
    }
}

/// A number followed by the word that goes with it.
pub open spec fn counted(n: nat, one: Seq<char>, many: Seq<char>) -> Seq<char> {
    text::decimal(n) + plural(n, one, many)
}

/// A number followed by the word that goes with it.
pub fn count_text(n: usize, one: &str, many: &str) -> (r: String)
    ensures
        r@ == counted(n as nat, one@, many@),
{
    let mut out = text::number(n as u64);
    out.append(if n == 1 { one } else { many });
    out
}

} // verus!
