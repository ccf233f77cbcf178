//! What a model is told of the tools it can call.

use vstd::prelude::*;
use vstd::string::*;

use crate::json::{empty_object, Json, JsonModel};

verus! {

/// A tool as it is announced: its name, its label, what it does, and the
/// schema of its arguments.
#[derive(Debug, PartialEq)]
pub struct ToolSpec {
    pub name: String,
    pub label: String,
    pub description: String,
    pub parameters: Json,
}

pub struct ToolModel {
    pub name: Seq<char>,
    pub label: Seq<char>,
    pub description: Seq<char>,
    pub parameters: JsonModel,
}

impl View for ToolSpec {
    type V = ToolModel;

    open spec fn view(&self) -> ToolModel {
        ToolModel {
            name: self.name@,
            label: self.label@,
            description: self.description@,
            parameters: self.parameters@,
        }
    }
}

/// The schema of an object with one required text member.
pub open spec fn one_text_schema(key: Seq<char>, description: Seq<char>) -> JsonModel {
    empty_object().with("type"@, JsonModel::Text("object"@)).with(
        "required"@,
        JsonModel::Array(seq![JsonModel::Text(key)]),
    ).with(
        "properties"@,
        empty_object().with(
            key,
            empty_object().with("type"@, JsonModel::Text("string"@)).with(
                "description"@,
                JsonModel::Text(description),
            ),
        ),
    )
}

/// A tool that takes one text.
pub open spec fn tool_model(
    name: Seq<char>,
    label: Seq<char>,
    description: Seq<char>,
    key: Seq<char>,
    key_description: Seq<char>,
) -> ToolModel {
    ToolModel { name, label, description, parameters: one_text_schema(key, key_description) }
}

/// A tool that takes one text.
pub(crate) fn one_text_tool(
    name: &str,
    label: &str,
    description: &str,
    key: &str,
    key_description: &str,
) -> (r: ToolSpec)
    ensures
        r@ == tool_model(name@, label@, description@, key@, key_description@),
{
    let member = Json::object().with("type", Json::text_of("string")).with(
        "description",
        Json::text_of(key_description),
    );
    let parameters = Json::object().with("type", Json::text_of("object")).with(
        "required",
        Json::one_text(key),
    ).with("properties", Json::object().with(key, member));
    ToolSpec {
        name: name.to_owned(),
        label: label.to_owned(),
        description: description.to_owned(),
        parameters,
    }
}

/// The text argument `key` of a call, or the complaint where it is missing.
pub open spec fn argument_model(args: JsonModel, key: Seq<char>, complaint: Seq<char>) -> Result<
    Seq<char>,
    Seq<char>,
> {
    match args.text_member(key) {
        Some(s) => Ok(s),
        None => Err(complaint),
    }
}

/// What a call of a tool comes to, in terms of models.
pub open spec fn text_result(r: Result<String, String>) -> Result<Seq<char>, Seq<char>> {
    match r {
        Ok(s) => Ok(s@),
        Err(e) => Err(e@),
    }
}

pub(crate) fn text_argument(args: &Json, key: &str, complaint: &str) -> (r: Result<String, String>)
    ensures
        text_result(r) == argument_model(args@, key@, complaint@),
{
    match args.text_member(key) {
        Some(s) => Ok(s.to_owned()),
        None => Err(complaint.to_owned()),
    }
}

/// A tool is announced under the name, the label and the description given, and
/// asks for one text, under the key given: that and nothing else is required,
/// and described as given.
pub proof fn law_a_tool_asks_for_its_argument(
    name: Seq<char>,
    label: Seq<char>,
    description: Seq<char>,
    key: Seq<char>,
    key_description: Seq<char>,
)
    ensures
        ({
            let tool = tool_model(name, label, description, key, key_description);
            let properties = tool.parameters.member("properties"@);
            &&& tool.name == name
            &&& tool.label == label
            &&& tool.description == description
            &&& tool.parameters.text_member("type"@) == Some("object"@)
            &&& tool.parameters.member("required"@) == Some(
                JsonModel::Array(seq![JsonModel::Text(key)]),
            )
            &&& forall|k: Seq<char>|
                tool.parameters.member(k) is Some ==> k == "type"@ || k == "required"@ || k
                    == "properties"@
            &&& properties is Some
            &&& forall|k: Seq<char>| (properties->0).member(k) is Some <==> k == key
            &&& (properties->0).member(key)->0.text_member("type"@) == Some("string"@)
            &&& (properties->0).member(key)->0.text_member("description"@) == Some(
                key_description,
            )
            &&& forall|k: Seq<char>|
                (properties->0).member(key)->0.member(k) is Some ==> k == "type"@ || k
                    == "description"@
        }),
{
    reveal_strlit("type");
    reveal_strlit("required");
    reveal_strlit("properties");
    reveal_strlit("description");
    assert("type"@.len() != "required"@.len());
    assert("type"@.len() != "properties"@.len());
    assert("required"@.len() != "properties"@.len());
    assert("type"@.len() != "description"@.len());
}

/// The argument of a call is the text that the caller put under the key, as it
/// is; without a text there, the call is refused with the complaint.
pub proof fn law_the_argument_is_what_was_given(
    args: JsonModel,
    key: Seq<char>,
    complaint: Seq<char>,
    given: Seq<char>,
)
    ensures
        args.member(key) == Some(JsonModel::Text(given)) ==> argument_model(args, key, complaint)
            == Ok::<Seq<char>, Seq<char>>(given),
        args.member(key) is None || !(args.member(key)->0 is Text) ==> argument_model(
            args,
            key,
            complaint,
        ) == Err::<Seq<char>, Seq<char>>(complaint),
{
}

/// Nothing of a tool, or of what a call comes to, is left out of what is said
/// of it.
pub proof fn law_tools_are_told_apart(a: ToolSpec, b: ToolSpec, s: String, t: String)
    ensures
        a@ == b@ ==> a.name@ == b.name@ && a.label@ == b.label@ && a.description@
            == b.description@ && a.parameters@ == b.parameters@,
        text_result(Ok(s)) == Ok::<Seq<char>, Seq<char>>(s@),
        text_result(Err(t)) == Err::<Seq<char>, Seq<char>>(t@),
{
}

} // verus!
