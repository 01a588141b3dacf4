//! Rendering a template source with tera against an export context: the
//! context is laid out as the JSON object templates read, then tera
//! parses the source and renders it.
use vstd::prelude::*;
use crate::error::AtlasError;
use crate::export::view::{ExportContext, SymbolView};
use crate::text::concat;

verus! {

#[verifier::external_type_specification]
#[verifier::external_body]
pub struct ExJsonValue(serde_json::Value);

#[verifier::external_type_specification]
#[verifier::external_body]
pub struct ExTeraContext(tera::Context);

#[verifier::external_type_specification]
#[verifier::external_body]
pub struct ExTera(tera::Tera);

/// Calls `serde_json::Value::from(&str)`: a JSON string.
#[verifier::external_body]
fn json_text(s: &str) -> serde_json::Value {
    serde_json::Value::from(s)
}

/// Calls `serde_json::Value::from(i64)`: a JSON number.
#[verifier::external_body]
fn json_i64(n: i64) -> serde_json::Value {
    serde_json::Value::from(n)
}

/// Calls `serde_json::Value::from(bool)`: a JSON boolean.
#[verifier::external_body]
fn json_bool(b: bool) -> serde_json::Value {
    serde_json::Value::from(b)
}

/// Calls `serde_json::Value::from(Option<u32>)`: `null` or a JSON number.
#[verifier::external_body]
fn json_opt_u32(v: Option<u32>) -> serde_json::Value {
    serde_json::Value::from(v)
}

/// Calls `serde_json::Value::from(Option<String>)`: `null` or a JSON string.
#[verifier::external_body]
fn json_opt_text(v: Option<String>) -> serde_json::Value {
    serde_json::Value::from(v)
}

/// Calls `serde_json::Value::from(Vec<Value>)`: a JSON array of the items.
#[verifier::external_body]
fn json_array(items: Vec<serde_json::Value>) -> serde_json::Value {
    serde_json::Value::from(items)
}

/// Calls `serde_json::Value::from_iter` on key and value pairs: a JSON
/// object with those members.
#[verifier::external_body]
fn json_object(members: Vec<(String, serde_json::Value)>) -> serde_json::Value {
    members.into_iter().collect()
}

/// Calls `tera::Tera::default`: an engine with no templates and tera's
/// built-in filters, tests and functions.
#[verifier::external_body]
fn tera_new() -> tera::Tera {
    tera::Tera::default()
}

/// Calls `tera::Tera::add_raw_template`: parses `source` under `name`, or
/// gives tera's error as text. Nothing is claimed of the engine's state.
#[verifier::external_body]
fn tera_add_template(tera: &mut tera::Tera, name: &str, source: &str) -> Result<(), String> {
    match tera.add_raw_template(name, source) {
        Ok(()) => Ok(()),
        Err(e) => Err(format!("{e}")),
    }
}

/// Calls `tera::Context::from_value`: the context whose variables are the
/// members of the object, or tera's error as text when the value is not
/// an object.
#[verifier::external_body]
fn tera_context(v: serde_json::Value) -> Result<tera::Context, String> {
    match tera::Context::from_value(v) {
        Ok(c) => Ok(c),
        Err(e) => Err(format!("{e}")),
    }
}

/// Calls `tera::Tera::render`: the rendered text, or tera's error as text.
/// Nothing is claimed of the text: a template can read the time, the
/// environment or random numbers.
#[verifier::external_body]
fn tera_render(tera: &tera::Tera, name: &str, ctx: &tera::Context) -> Result<String, String> {
    match tera.render(name, ctx) {
        Ok(s) => Ok(s),
        Err(e) => Err(format!("{e}")),
    }
}

/// A symbol as a JSON object, one member per field of the view.
fn symbol_json(s: SymbolView) -> serde_json::Value {
    let mut m: Vec<(String, serde_json::Value)> = Vec::new();
    m.push((String::from_str("id_hex"), json_text(s.id_hex.as_str())));
    m.push((String::from_str("fqn"), json_text(s.fqn.as_str())));
    m.push((String::from_str("name"), json_text(s.name.as_str())));
    m.push((String::from_str("kind"), json_text(s.kind.as_str())));
    m.push((String::from_str("kind_i"), json_i64(s.kind_i)));
    m.push((String::from_str("module"), json_text(s.module.as_str())));
    m.push((String::from_str("size"), json_opt_u32(s.size)));
    m.push((String::from_str("align"), json_opt_u32(s.align)));
    m.push((String::from_str("offset"), json_opt_u32(s.offset)));
    m.push((String::from_str("offset_hex"), json_opt_text(s.offset_hex)));
    m.push((String::from_str("vtable_slot"), json_opt_u32(s.vtable_slot)));
    m.push((String::from_str("vtable_slot_hex"), json_opt_text(s.vtable_slot_hex)));
    m.push((String::from_str("parent_fqn"), json_opt_text(s.parent_fqn)));
    m.push((String::from_str("type_display"), json_opt_text(s.type_display)));
    m.push((String::from_str("todo_chain"), json_bool(s.todo_chain)));
    json_object(m)
}

/// The context as the JSON object templates read: one member per field,
/// the symbols as an array of objects.
fn context_json(ctx: ExportContext) -> serde_json::Value {
    let ExportContext {
        atlas_version,
        generated_at,
        game_id,
        game_version,
        dump_id,
        project_name,
        trainer_class_name,
        process_name,
        symbols,
    } = ctx;
    let mut items: Vec<serde_json::Value> = Vec::new();
    let mut rest = symbols;
    while rest.len() > 0
        decreases rest.len(),
    {
        let s = rest.remove(0);
        items.push(symbol_json(s));
    }
    let mut m: Vec<(String, serde_json::Value)> = Vec::new();
    m.push((String::from_str("atlas_version"), json_text(atlas_version.as_str())));
    m.push((String::from_str("generated_at"), json_text(generated_at.as_str())));
    m.push((String::from_str("game_id"), json_text(game_id.as_str())));
    m.push((String::from_str("game_version"), json_text(game_version.as_str())));
    m.push((String::from_str("dump_id"), json_i64(dump_id)));
    m.push((String::from_str("project_name"), json_text(project_name.as_str())));
    m.push((String::from_str("trainer_class_name"), json_text(trainer_class_name.as_str())));
    m.push((String::from_str("process_name"), json_text(process_name.as_str())));
    m.push((String::from_str("symbols"), json_array(items)));
    json_object(m)
}

/// An export failure message: the stage that failed, then tera's words.
pub open spec fn export_failure(m: Seq<char>) -> bool {
    exists|d: Seq<char>|
        #![trigger "add_template: "@ + d]
        #![trigger "context serialize: "@ + d]
        #![trigger "render: "@ + d]
        m == "add_template: "@ + d || m == "context serialize: "@ + d || m == "render: "@ + d
}

/// Renders a template source, under `template_name`, against a context.
/// A failure is an export error naming the stage that failed: the source
/// does not parse (`add_template`), the context is not an object
/// (`context serialize`), or the rendering fails (`render`).
pub fn render_to_string(template_name: &str, source: &str, ctx: ExportContext) -> (r: Result<
    String,
    AtlasError,
>)
    ensures
        r matches Err(e) ==> (e matches AtlasError::Export(m) && export_failure(m@)),
{
    let mut tera = tera_new();
    if let Err(d) = tera_add_template(&mut tera, template_name, source) {
        return Err(stage_error("add_template: ", d));
    }
    let context = match tera_context(context_json(ctx)) {
        Ok(c) => c,
        Err(d) => {
            return Err(stage_error("context serialize: ", d));
        },
    };
    match tera_render(&tera, template_name, &context) {
        Ok(s) => Ok(s),
        Err(d) => Err(stage_error("render: ", d)),
    }
}

/// The export error for a failed stage: the stage's prefix, then tera's
/// words.
fn stage_error(stage: &str, d: String) -> (r: AtlasError)
    requires
        stage@ == "add_template: "@ || stage@ == "context serialize: "@ || stage@ == "render: "@,
    ensures
        r matches AtlasError::Export(m) && m@ == stage@ + d@ && export_failure(m@),
{
    let m = concat(stage, d.as_str());
    assert(m@ == stage@ + d@);
    AtlasError::Export(m)
}

} // verus!
