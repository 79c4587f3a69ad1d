//! Tools with a name, a description and an input schema, held as JSON text.
use vstd::prelude::*;
use crate::error::Error;
use crate::server::simple_prompt::opt_view;
use crate::text::{extend_chars, string_of};

verus! {

/// The description of a tool.
#[derive(Debug, Clone)]
pub struct ToolInfo {
    /// Tool name
    pub name: String,
    /// Tool description
    pub description: Option<String>,
    /// Input schema, as JSON text
    pub input_schema: String,
}

/// The schema of a tool that accepts any object.
pub open spec fn open_object_schema() -> Seq<char> {
    "{\"additionalProperties\":true,\"properties\":{},\"type\":\"object\"}"@
}

/// The schema of a tool that accepts any object, as JSON text.
pub fn default_input_schema() -> (s: String)
    ensures
        s@ == open_object_schema(),
{
    "{\"additionalProperties\":true,\"properties\":{},\"type\":\"object\"}".to_owned()
}

/// The error for arguments that do not fit a tool's input type.
pub fn invalid_tool_arguments(tool: &str, detail: &str) -> (e: Error)
    ensures
        e matches Error::Validation(m) && m@ == "Invalid arguments for tool '"@ + tool@ + "': "@
            + detail@,
{
    let mut v: Vec<char> = Vec::new();
    extend_chars(&mut v, "Invalid arguments for tool '");
    extend_chars(&mut v, tool);
    extend_chars(&mut v, "': ");
    extend_chars(&mut v, detail);
    Error::Validation(string_of(v.as_slice()))
}

fn clone_opt(s: &Option<String>) -> (r: Option<String>)
    ensures
        opt_view(r) == opt_view(*s),
{
    match s {
        Some(t) => Some(t.clone()),
        None => None,
    }
}

/// A tool with an asynchronous handler.
pub struct SimpleTool<F> {
    name: String,
    description: Option<String>,
    input_schema: String,
    handler: F,
}

/// A tool with a synchronous handler.
pub struct SyncTool<F> {
    name: String,
    description: Option<String>,
    input_schema: String,
    handler: F,
}

impl<F> SimpleTool<F> {
    /// Name, description and schema.
    pub closed spec fn parts(&self) -> (Seq<char>, Option<Seq<char>>, Seq<char>) {
        (self.name@, opt_view(self.description), self.input_schema@)
    }

    /// The handler.
    pub closed spec fn handler_fn(&self) -> F {
        self.handler
    }

    /// Create a new tool that accepts any object.
    pub fn new(name: String, handler: F) -> (t: SimpleTool<F>)
        ensures
            t.parts() == (name@, None::<Seq<char>>, open_object_schema()),
            t.handler_fn() == handler,
    {
        SimpleTool { name, description: None, input_schema: default_input_schema(), handler }
    }

    /// Set the description for this tool.
    pub fn with_description(self, description: String) -> (t: SimpleTool<F>)
        ensures
            t.handler_fn() == self.handler_fn(),
            t.parts() == (self.parts().0, Some(description@), self.parts().2),
    {
        SimpleTool { description: Some(description), ..self }
    }

    /// Set the input schema for this tool, as JSON text.
    pub fn with_schema(self, schema: String) -> (t: SimpleTool<F>)
        ensures
            t.handler_fn() == self.handler_fn(),
            t.parts() == (self.parts().0, self.parts().1, schema@),
    {
        SimpleTool { input_schema: schema, ..self }
    }

    /// The tool's description.
    pub fn metadata(&self) -> (i: Option<ToolInfo>)
        ensures
            i matches Some(info) && (info.name@, opt_view(info.description), info.input_schema@)
                == self.parts(),
    {
        Some(ToolInfo {
            name: self.name.clone(),
            description: clone_opt(&self.description),
            input_schema: self.input_schema.clone(),
        })
    }

    /// The handler.
    pub fn handler(&self) -> (h: &F)
        ensures
            *h == self.handler_fn(),
    {
        &self.handler
    }
}

impl<F> SyncTool<F> {
    /// Name, description and schema.
    pub closed spec fn parts(&self) -> (Seq<char>, Option<Seq<char>>, Seq<char>) {
        (self.name@, opt_view(self.description), self.input_schema@)
    }

    /// The handler.
    pub closed spec fn handler_fn(&self) -> F {
        self.handler
    }

    /// Create a new synchronous tool that accepts any object.
    pub fn new(name: String, handler: F) -> (t: SyncTool<F>)
        ensures
            t.parts() == (name@, None::<Seq<char>>, open_object_schema()),
            t.handler_fn() == handler,
    {
        SyncTool { name, description: None, input_schema: default_input_schema(), handler }
    }

    /// Set the description for this tool.
    pub fn with_description(self, description: String) -> (t: SyncTool<F>)
        ensures
            t.handler_fn() == self.handler_fn(),
            t.parts() == (self.parts().0, Some(description@), self.parts().2),
    {
        SyncTool { description: Some(description), ..self }
    }

    /// Set the input schema for this tool, as JSON text.
    pub fn with_schema(self, schema: String) -> (t: SyncTool<F>)
        ensures
            t.handler_fn() == self.handler_fn(),
            t.parts() == (self.parts().0, self.parts().1, schema@),
    {
        SyncTool { input_schema: schema, ..self }
    }

    /// The tool's description.
    pub fn metadata(&self) -> (i: Option<ToolInfo>)
        ensures
            i matches Some(info) && (info.name@, opt_view(info.description), info.input_schema@)
                == self.parts(),
    {
        Some(ToolInfo {
            name: self.name.clone(),
            description: clone_opt(&self.description),
            input_schema: self.input_schema.clone(),
        })
    }

    /// The handler.
    pub fn handler(&self) -> (h: &F)
        ensures
            *h == self.handler_fn(),
    {
        &self.handler
    }
}

} // verus!
