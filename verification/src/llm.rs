//! Model call options that the library decides on: tool selection,
//! response formats, tool definitions, and the name of the extraction tool
//! of structured output.
use vstd::prelude::*;
use crate::text::{push_char, to_owned_string};

verus! {

/// Tool selection strategy
#[derive(Clone, Debug)]
pub enum ToolChoice {
    /// Automatically decide whether to call tools
    Auto,
    /// Do not call any tools
    NoTool,
    /// Must call at least one tool
    Required,
    /// Must call the specified tool
    Specific {
        /// Name of the tool to call
        name: String,
    },
}

/// Response format for structured output
#[derive(Clone, Debug)]
pub enum ResponseFormat {
    /// JSON object (model outputs valid JSON)
    JsonObject,
    /// JSON Schema with strict validation
    JsonSchema {
        /// Name of the schema
        name: String,
        /// JSON Schema definition
        schema: serde_json::Value,
        /// Whether to use strict mode
        strict: bool,
    },
}

/// Tool definition for function calling
#[derive(Clone, Debug)]
pub struct ToolDefinition {
    /// Tool name
    pub name: String,
    /// Tool description
    pub description: String,
    /// JSON Schema for parameters
    pub parameters: serde_json::Value,
}

/// `s` with each `::` replaced by `_`, left to right.
pub open spec fn replace_paths(s: Seq<char>) -> Seq<char>
    decreases s.len(),
{
    if s.len() == 0 {
        Seq::empty()
    } else if s.len() >= 2 && s[0] == ':' && s[1] == ':' {
        seq!['_'] + replace_paths(s.skip(2))
    } else {
        seq![s[0]] + replace_paths(s.skip(1))
    }
}

/// A character of a tool name: generic brackets and commas become `_`.
pub open spec fn tool_char(c: char) -> char {
    if c == '<' || c == '>' || c == ',' {
        '_'
    } else {
        c
    }
}

/// `s` with its characters mapped by `tool_char` and its spaces left out.
pub open spec fn tidy(s: Seq<char>) -> Seq<char>
    decreases s.len(),
{
    if s.len() == 0 {
        Seq::empty()
    } else if s.last() == ' ' {
        tidy(s.drop_last())
    } else {
        tidy(s.drop_last()).push(tool_char(s.last()))
    }
}

/// The name of the tool that extracts a value of the named type:
/// `extract_`, then the type name with `::` as `_`, generic brackets and
/// commas as `_`, and no spaces.
pub open spec fn extraction_tool_text(rust_type: Seq<char>) -> Seq<char> {
    "extract_"@ + tidy(replace_paths(rust_type))
}

/// `replace_paths` over a prefix that ends before a `::` or at a single
/// character.
proof fn lemma_replace_paths_step(s: Seq<char>, i: int)
    requires
        0 <= i < s.len(),
    ensures
        i + 1 < s.len() && s[i] == ':' && s[i + 1] == ':' ==> replace_paths(s.skip(i)) == seq!['_'] + replace_paths(
            s.skip(i + 2),
        ),
        !(i + 1 < s.len() && s[i] == ':' && s[i + 1] == ':') ==> replace_paths(s.skip(i)) == seq![s[i]]
            + replace_paths(s.skip(i + 1)),
{
    assert(s.skip(i)[0] == s[i]);
    if i + 1 < s.len() {
        assert(s.skip(i)[1] == s[i + 1]);
    }
    if i + 2 <= s.len() {
        assert(s.skip(i).skip(2) =~= s.skip(i + 2));
    }
    assert(s.skip(i).skip(1) =~= s.skip(i + 1));
}

/// Replaces each `::` by `_`, left to right.
fn replace_path_separators(v: &Vec<char>) -> (r: Vec<char>)
    ensures
        r@ == replace_paths(v@),
{
    let mut out: Vec<char> = Vec::new();
    let mut i: usize = 0;
    assert(v@.skip(0) =~= v@);
    while i < v.len()
        invariant
            i <= v.len(),
            out@ + replace_paths(v@.skip(i as int)) == replace_paths(v@),
        decreases v.len() - i,
    {
        proof {
            lemma_replace_paths_step(v@, i as int);
        }
        if i + 1 < v.len() && v[i] == ':' && v[i + 1] == ':' {
            let ghost before = out@;
            out.push('_');
            assert(out@ + replace_paths(v@.skip(i + 2)) =~= before + (seq!['_'] + replace_paths(v@.skip(i + 2))));
            i += 2;
        } else {
            let ghost before = out@;
            out.push(v[i]);
            assert(out@ + replace_paths(v@.skip(i + 1)) =~= before + (seq![v@[i as int]] + replace_paths(
                v@.skip(i + 1),
            )));
            i += 1;
        }
    }
    assert(v@.skip(v.len() as int) =~= Seq::<char>::empty());
    assert(out@ + Seq::<char>::empty() =~= out@);
    out
}

/// The name of the tool that extracts a value of the named type.
pub fn extraction_tool_name(rust_type: &str) -> (s: String)
    ensures
        s@ == extraction_tool_text(rust_type@),
{
    let chars = crate::text::chars_of(rust_type);
    let replaced = replace_path_separators(&chars);
    let mut s = to_owned_string("extract_");
    let ghost start = s@;
    let mut i: usize = 0;
    assert(replaced@.take(0) =~= Seq::<char>::empty());
    while i < replaced.len()
        invariant
            i <= replaced.len(),
            start == "extract_"@,
            s@ == start + tidy(replaced@.take(i as int)),
        decreases replaced.len() - i,
    {
        let c = replaced[i];
        assert(replaced@.take(i + 1).drop_last() =~= replaced@.take(i as int));
        assert(replaced@.take(i + 1).last() == c);
        if c != ' ' {
            if c == '<' || c == '>' || c == ',' {
                push_char(&mut s, '_');
            } else {
                push_char(&mut s, c);
            }
        }
        i += 1;
    }
    assert(replaced@.take(replaced.len() as int) =~= replaced@);
    s
}

} // verus!
