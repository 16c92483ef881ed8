//! Tools the agent can offer to the model, and their registry.
use vstd::prelude::*;
use crate::text::{chars_equal, chars_of};

verus! {

/// `serde_json::Value`, the JSON schema of a tool's input and a result's
/// metadata.
#[verifier::external_type_specification]
#[verifier::external_body]
pub struct ExJsonValue(serde_json::Value);

/// `Value::clone` (derived in serde_json): nothing is stated of the copy.
pub assume_specification[<serde_json::Value as Clone>::clone](v: &serde_json::Value) -> (r: serde_json::Value);

/// A tool: its name, what it does, and the JSON schema of its input.
#[derive(Debug, Clone)]
pub struct Tool {
    pub name: String,
    pub description: String,
    pub input_schema: serde_json::Value,
}

/// What a tool call produced.
#[derive(Debug, Clone)]
pub struct ToolResult {
    pub content: String,
    pub metadata: Option<serde_json::Value>,
}

/// The registered tools, in the order of registration.
pub struct ToolRegistry {
    tools: Vec<Tool>,
}

impl View for ToolRegistry {
    type V = Seq<Tool>;

    closed spec fn view(&self) -> Seq<Tool> {
        self.tools@
    }
}

/// The position of the first tool named `name`, if any.
pub open spec fn first_named(ts: Seq<Tool>, name: Seq<char>) -> Option<int>
    decreases ts.len(),
{
    if ts.len() == 0 {
        None
    } else {
        match first_named(ts.drop_last(), name) {
            Some(i) => Some(i),
            None => if ts.last().name@ == name {
                Some(ts.len() - 1)
            } else {
                None
            },
        }
    }
}

/// A lookup by name finds a tool of that name with no earlier tool of that
/// name; it finds none exactly when no tool has that name.
pub proof fn law_first_named(ts: Seq<Tool>, name: Seq<char>)
    ensures
        match first_named(ts, name) {
            Some(i) => 0 <= i < ts.len() && ts[i].name@ == name && forall|j: int|
                0 <= j < i ==> (#[trigger] ts[j]).name@ != name,
            None => forall|j: int| 0 <= j < ts.len() ==> (#[trigger] ts[j]).name@ != name,
        },
    decreases ts.len(),
{
    if ts.len() > 0 {
        let init = ts.drop_last();
        law_first_named(init, name);
        assert forall|j: int| 0 <= j < ts.len() - 1 implies ts[j] == #[trigger] init[j] by {}
        assert(ts.last() == ts[ts.len() - 1]);
        match first_named(init, name) {
            Some(i) => {
                assert forall|j: int| 0 <= j < i implies (#[trigger] ts[j]).name@ != name by {
                    assert(ts[j] == init[j]);
                }
            },
            None => {
                assert forall|j: int| 0 <= j < ts.len() - 1 implies (#[trigger] ts[j]).name@ != name by {
                    assert(ts[j] == init[j]);
                }
            },
        }
    }
}

/// What `first_named` finds in a prefix it finds in the whole.
proof fn lemma_first_named_prefix(ts: Seq<Tool>, k: int, name: Seq<char>)
    requires
        0 <= k <= ts.len(),
        first_named(ts.take(k), name) is Some,
    ensures
        first_named(ts, name) == first_named(ts.take(k), name),
    decreases ts.len() - k,
{
    if k == ts.len() {
        assert(ts.take(k) =~= ts);
    } else {
        assert(ts.drop_last().take(k) =~= ts.take(k));
        lemma_first_named_prefix(ts.drop_last(), k, name);
    }
}

impl ToolRegistry {
    /// An empty registry.
    pub fn new() -> (r: Self)
        ensures
            r@ == Seq::<Tool>::empty(),
    {
        ToolRegistry { tools: Vec::new() }
    }

    /// Adds a tool after those registered before.
    pub fn register(&mut self, tool: Tool)
        ensures
            final(self)@ == old(self)@.push(tool),
    {
        self.tools.push(tool);
    }

    /// All registered tools, in order.
    pub fn list_tools(&self) -> (r: &[Tool])
        ensures
            r@ == self@,
    {
        self.tools.as_slice()
    }

    /// The first registered tool with the given name.
    pub fn get_tool(&self, name: &str) -> (r: Option<&Tool>)
        ensures
            match first_named(self@, name@) {
                Some(i) => r == Some(&self@[i]),
                None => r is None,
            },
    {
        let wanted = chars_of(name);
        let mut i: usize = 0;
        while i < self.tools.len()
            invariant
                i <= self.tools.len(),
                wanted@ == name@,
                first_named(self.tools@.take(i as int), name@) is None,
            decreases self.tools.len() - i,
        {
            assert(self.tools@.take(i + 1).drop_last() =~= self.tools@.take(i as int));
            if chars_equal(&chars_of(self.tools[i].name.as_str()), &wanted) {
                proof {
                    lemma_first_named_prefix(self.tools@, i + 1, name@);
                }
                return Some(&self.tools[i]);
            }
            i = i + 1;
        }
        assert(self.tools@.take(i as int) =~= self.tools@);
        None
    }
}

impl Default for ToolRegistry {
    /// An empty registry.
    fn default() -> (r: Self)
        ensures
            r@ == Seq::<Tool>::empty(),
    {
        Self::new()
    }
}

/// After a tool is registered, looking its name up finds a tool of that
/// name; when no tool of that name was registered before, it finds the new
/// one, and a lookup of any other name finds what it found before.
pub proof fn law_register_then_get(before: Seq<Tool>, tool: Tool, other: Seq<char>)
    ensures
        first_named(before.push(tool), tool.name@) is Some,
        first_named(before, tool.name@) is None ==> first_named(before.push(tool), tool.name@)
            == Some(before.len() as int),
        other != tool.name@ ==> first_named(before.push(tool), other) == first_named(before, other),
{
    assert(before.push(tool).drop_last() =~= before);
}

} // verus!
