//! The parts that tool descriptions are made of.
use vstd::prelude::*;
use vstd::string::*;

use crate::schema::{JsonSchema, ResponsesApiTool, Schema, SchemaMap, ToolSpec};
use crate::text::{opt_texts, owned};

verus! {

/// A text with a description.
pub open spec fn a_text(description: &str) -> Schema {
    Schema::Text { description: Some(description@), choices: None }
}

/// One of some texts.
pub open spec fn one_of(choices: Seq<Seq<char>>, description: &str) -> Schema {
    Schema::Text { description: Some(description@), choices: Some(choices) }
}

/// A number with a description.
pub open spec fn a_number(description: &str) -> Schema {
    Schema::Number { description: Some(description@) }
}

/// True or false, with a description.
pub open spec fn a_flag(description: &str) -> Schema {
    Schema::Boolean { description: Some(description@) }
}

/// A list of such values.
pub open spec fn a_list(items: Schema, description: &str) -> Schema {
    Schema::List { items: Box::new(items), description: Some(description@) }
}

/// A list of texts.
pub open spec fn some_texts(description: &str) -> Schema {
    a_list(Schema::Text { description: None, choices: None }, description)
}

/// Named values and no others.
pub open spec fn a_record(
    properties: Map<Seq<char>, Schema>,
    required: Option<Seq<Seq<char>>>,
) -> Schema {
    Schema::Record { properties, required, additional_properties: Some(false) }
}

/// What an optional schema describes.
pub open spec fn opt_model(schema: Option<JsonSchema>) -> Option<Schema> {
    match schema {
        Some(held) => Some(held.model()),
        None => None,
    }
}

/// Whether `tool` is the function of this name, description, parameters and output. It is neither
/// strict nor loaded late, and takes no other parameters.
pub open spec fn is_function(
    tool: ToolSpec,
    name: &str,
    description: Seq<char>,
    properties: Map<Seq<char>, Schema>,
    required: Option<Seq<Seq<char>>>,
    output: Option<Schema>,
) -> bool {
    &&& tool matches ToolSpec::Function(function)
    &&& function.name@ == name@
    &&& function.description@ == description
    &&& !function.strict
    &&& function.defer_loading is None
    &&& function.parameters.model() == a_record(properties, required)
    &&& opt_model(function.output_schema) == output
}

/// A text with a description.
pub fn text_schema(description: &str) -> (r: JsonSchema)
    ensures
        r.model() == a_text(description),
{
    JsonSchema::string(Some(owned(description)))
}

/// A number with a description.
pub fn number_schema(description: &str) -> (r: JsonSchema)
    ensures
        r.model() == a_number(description),
{
    JsonSchema::number(Some(owned(description)))
}

/// True or false, with a description.
pub fn flag_schema(description: &str) -> (r: JsonSchema)
    ensures
        r.model() == a_flag(description),
{
    JsonSchema::boolean(Some(owned(description)))
}

/// A list of texts.
pub fn texts_schema(description: &str) -> (r: JsonSchema)
    ensures
        r.model() == some_texts(description),
{
    JsonSchema::array(JsonSchema::string(None), Some(owned(description)))
}

/// The function of this name, description, parameters and output.
pub fn function_tool(
    name: &str,
    description: &str,
    properties: SchemaMap,
    required: Option<Vec<String>>,
    output_schema: Option<JsonSchema>,
) -> (r: ToolSpec)
    ensures
        is_function(
            r,
            name,
            description@,
            properties@,
            opt_texts(required),
            opt_model(output_schema),
        ),
{
    ToolSpec::Function(
        ResponsesApiTool {
            name: owned(name),
            description: owned(description),
            strict: false,
            defer_loading: None,
            parameters: JsonSchema::object(properties, required, Some(false)),
            output_schema,
        },
    )
}

} // verus!
