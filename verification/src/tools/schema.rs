//! What a tool tells of its input, and how it reads it.

use vstd::prelude::*;
use vstd::string::*;

use crate::json::{
    as_text, at, entry_of, get, law_lookup_finds_the_first_entry, models, text_at, Json, JsonModel,
};
use crate::text::search::slice_texts;

verus! {

broadcast use {
    vstd::string::group_string_axioms,
    vstd::seq_lib::group_seq_properties,
};

/// One parameter of a tool.
#[derive(Clone, Copy, Debug)]
pub struct Parameter<'a> {
    pub name: &'a str,
    pub kind: &'a str,
    pub description: &'a str,
}

/// What a [`Parameter`] stands for: its name, type and description.
pub ghost struct ParameterModel {
    pub name: Seq<char>,
    pub kind: Seq<char>,
    pub description: Seq<char>,
}

impl<'a> View for Parameter<'a> {
    type V = ParameterModel;

    open spec fn view(&self) -> ParameterModel {
        ParameterModel {
            name: self.name@,
            kind: self.kind@,
            description: self.description@,
        }
    }
}

/// What a list of parameters stands for.
pub open spec fn parameter_models(parameters: Seq<Parameter>) -> Seq<ParameterModel> {
    parameters.map_values(|p: Parameter| p@)
}

/// A parameter.
pub fn parameter<'a>(name: &'a str, kind: &'a str, description: &'a str) -> (p: Parameter<'a>)
    ensures
        p@ == parameter_model(name@, kind@, description@),
{
    Parameter { name, kind, description }
}

/// A parameter.
pub open spec fn parameter_model(
    name: Seq<char>,
    kind: Seq<char>,
    description: Seq<char>,
) -> ParameterModel {
    ParameterModel { name, kind, description }
}

/// The entry of a parameter among the properties of a schema.
pub open spec fn property_model(p: ParameterModel) -> (Seq<char>, JsonModel) {
    (
        p.name,
        JsonModel::Object(
            seq![
                ("type"@, JsonModel::Text(p.kind)),
                ("description"@, JsonModel::Text(p.description)),
            ],
        ),
    )
}

/// The JSON schema of an object with parameters, some of which are required.
pub open spec fn schema_model(
    parameters: Seq<ParameterModel>,
    required: Seq<Seq<char>>,
) -> JsonModel {
    let shape = seq![
        ("type"@, JsonModel::Text("object"@)),
        (
            "properties"@,
            JsonModel::Object(parameters.map_values(|p: ParameterModel| property_model(p))),
        ),
    ];
    if required.len() == 0 {
        JsonModel::Object(shape)
    } else {
        JsonModel::Object(
            shape.push(
                (
                    "required"@,
                    JsonModel::Array(required.map_values(|r: Seq<char>| JsonModel::Text(r))),
                ),
            ),
        )
    }
}

/// The JSON schema of an object with parameters, some of which are required.
pub fn schema(parameters: &[Parameter], required: &[&str]) -> (document: Json)
    ensures
        document@ == schema_model(parameter_models(parameters@), slice_texts(required@)),
{
    let ghost all = parameter_models(parameters@);
    let ghost entries = all.map_values(|p: ParameterModel| property_model(p));
    let mut properties: Json = Json::object();
    let mut i: usize = 0;
    assert(entries.take(0) == Seq::<(Seq<char>, JsonModel)>::empty());
    while i < parameters.len()
        invariant
            i <= parameters@.len(),
            all == parameter_models(parameters@),
            entries == all.map_values(|p: ParameterModel| property_model(p)),
            properties@ == JsonModel::Object(entries.take(i as int)),
        decreases parameters@.len() - i,
    {
        let p: &Parameter = &parameters[i];
        let about: Json = Json::object().with("type", Json::text(p.kind)).with(
            "description",
            Json::text(p.description),
        );
        assert(about@->Object_0 == property_model(p@).1->Object_0);
        properties = properties.with(p.name, about);
        assert(entries.take(i + 1) == entries.take(i as int).push(entries[i as int]));
        i += 1;
    }
    assert(entries.take(i as int) == entries);
    let shape: Json = Json::object().with("type", Json::text("object")).with(
        "properties",
        properties,
    );
    if required.len() == 0 {
        assert(shape@->Object_0 == schema_model(all, slice_texts(required@))->Object_0);
        return shape;
    }
    let mut names: Vec<Json> = Vec::new();
    let mut k: usize = 0;
    while k < required.len()
        invariant
            k <= required@.len(),
            names@.len() == k,
            forall|j: int|
                0 <= j < k ==> (#[trigger] names@[j])@ == JsonModel::Text(required@[j]@),
        decreases required@.len() - k,
    {
        names.push(Json::text(required[k]));
        k += 1;
    }
    assert(models(names@) == slice_texts(required@).map_values(|r: Seq<char>| JsonModel::Text(r)));
    let document: Json = shape.with("required", Json::array(names));
    assert(document@->Object_0 == schema_model(all, slice_texts(required@))->Object_0);
    document
}

/// The words for a parameter that is missing.
pub open spec fn missing_words(key: Seq<char>) -> Seq<char> {
    "missing required parameter: "@ + key
}

/// The text of a parameter that must be there.
pub fn required_str<'a>(input: &'a Json, key: &str) -> (res: Result<&'a str, String>)
    ensures
        match res {
            Ok(text) => as_text(at(input@, key@)) == Some(text@),
            Err(error) => {
                &&& as_text(at(input@, key@)) is None
                &&& error@ == missing_words(key@)
            },
        },
{
    match text_at(input.get(key)) {
        Some(text) => Ok(text),
        None => Err("missing required parameter: ".to_owned().concat(key)),
    }
}

/// The text of a parameter, or a default.
pub open spec fn text_or(m: JsonModel, default: Seq<char>) -> Seq<char> {
    match as_text(m) {
        Some(text) => text,
        None => default,
    }
}

/// The text of a parameter, or a default.
pub fn optional_str(input: &Json, key: &str, default: &str) -> (text: String)
    ensures
        text@ == text_or(at(input@, key@), default@),
{
    match text_at(input.get(key)) {
        Some(text) => text.to_owned(),
        None => default.to_owned(),
    }
}

/// A schema tells of each parameter its type and what it is for, under its
/// name, and lists just the required ones as required.
pub proof fn law_schema_tells_of_each_parameter(
    parameters: Seq<ParameterModel>,
    required: Seq<Seq<char>>,
)
    requires
        forall|i: int, j: int|
            0 <= i < j < parameters.len() ==> (#[trigger] parameters[i]).name != (
            #[trigger] parameters[j]).name,
    ensures
        ({
            let told = schema_model(parameters, required);
            &&& at(told, "type"@) == JsonModel::Text("object"@)
            &&& forall|i: int|
                0 <= i < parameters.len() ==> {
                    let property = at(at(told, "properties"@), (#[trigger] parameters[i]).name);
                    &&& at(property, "type"@) == JsonModel::Text(parameters[i].kind)
                    &&& at(property, "description"@) == JsonModel::Text(parameters[i].description)
                }
            &&& at(told, "properties"@) matches JsonModel::Object(entries) && entries.len()
                == parameters.len()
            &&& required.len() == 0 ==> get(told, "required"@) is None
            &&& required.len() > 0 ==> (at(told, "required"@) matches JsonModel::Array(names) && {
                &&& names.len() == required.len()
                &&& forall|i: int|
                    0 <= i < required.len() ==> names[i] == JsonModel::Text(#[trigger] required[i])
            })
        }),
{
    reveal_strlit("type");
    reveal_strlit("properties");
    reveal_strlit("required");
    reveal_strlit("description");
    assert("type"@.len() == 4 && "properties"@.len() == 10 && "required"@.len() == 8);
    assert("description"@.len() == 11);
    reveal_with_fuel(entry_of, 4);
    let told = schema_model(parameters, required);
    let entries = parameters.map_values(|p: ParameterModel| property_model(p));
    assert(at(told, "properties"@) == JsonModel::Object(entries));
    assert forall|i: int| 0 <= i < parameters.len() implies {
        let property = at(at(told, "properties"@), (#[trigger] parameters[i]).name);
        &&& at(property, "type"@) == JsonModel::Text(parameters[i].kind)
        &&& at(property, "description"@) == JsonModel::Text(parameters[i].description)
    } by {
        let name = parameters[i].name;
        law_lookup_finds_the_first_entry(JsonModel::Object(entries), name);
        assert(entries[i].0 == name);
        let value = get(JsonModel::Object(entries), name)->Some_0;
        let k = choose|k: int|
            {
                &&& 0 <= k < entries.len()
                &&& (#[trigger] entries[k]).0 == name
                &&& entries[k].1 == value
                &&& forall|j: int| 0 <= j < k ==> (#[trigger] entries[j]).0 != name
            };
        assert(parameters[k].name == name);
        assert(k == i);
    }
}

/// A text that must be there is taken as it is, and missed by its name; one that
/// need not be is taken as it is, or the default is.
pub proof fn law_parameters_are_taken_as_they_are(
    input: Json,
    key: &str,
    res: Result<&str, String>,
    default: &str,
    text: String,
)
    requires
        call_ensures(required_str, (&input, key), res),
        call_ensures(optional_str, (&input, key, default), text),
    ensures
        at(input@, key@) matches JsonModel::Text(given) ==> (res matches Ok(taken) && taken@
            == given) && text@ == given,
        !(at(input@, key@) is Text) ==> (res matches Err(words) && words@
            == "missing required parameter: "@ + key@) && text@ == default@,
{
}

} // verus!
