//! In-process tools and their registry.
//!
//! A [`Tool`] is a named, schema-described capability accepting JSON
//! arguments and returning a JSON result; implementations live outside the
//! library. Registration snapshots a tool's name, description and parameter
//! schema into a [`RegisteredTool`], so every contract about resolution and
//! definitions speaks about those snapshots. The [`ToolRegistry`] owns
//! tools by name: the last registration under a name wins silently, and
//! listing keeps registration order, a re-registered name counting as newly
//! registered.

use vstd::prelude::*;

use crate::errors::AgentError;
use crate::json::JsonValue;
use crate::model::{ToolDefinition, ToolDefinitionData};

verus! {

/// An in-process tool: a name, a description, a JSON parameter schema, and
/// the work itself. A failure is reported as text and surfaces as a
/// tool-execution error.
pub trait Tool: Sized {
    fn name(&self) -> String;

    fn description(&self) -> String;

    fn parameters(&self) -> JsonValue;

    fn execute(&self, arguments: &JsonValue) -> Result<JsonValue, String>;
}

/// A tool as the registry holds it: the identity read off at registration,
/// and the implementation behind it.
pub struct RegisteredTool<T> {
    pub name: String,
    pub description: String,
    pub parameters: JsonValue,
    pub tool: T,
}

impl<T: Tool> RegisteredTool<T> {
    /// Snapshots a tool's identity for registration.
    pub fn new(tool: T) -> (r: RegisteredTool<T>)
        ensures
            r.tool == tool,
    {
        RegisteredTool {
            name: tool.name(),
            description: tool.description(),
            parameters: tool.parameters(),
            tool,
        }
    }

    /// Runs the tool; its reported failure becomes a tool-execution error.
    pub fn execute(&self, arguments: &JsonValue) -> (r: Result<JsonValue, AgentError>)
        ensures
            r matches Err(e) ==> e is ToolExecution,
    {
        match self.tool.execute(arguments) {
            Ok(v) => Ok(v),
            Err(m) => Err(AgentError::ToolExecution(m)),
        }
    }

    /// The provider-visible definition of this tool.
    pub fn definition(&self) -> (r: ToolDefinition)
        ensures
            r.deep_view() == self.definition_data(),
    {
        ToolDefinition {
            kind: {
                let k = "function";
                k.to_owned()
            },
            name: self.name.clone(),
            description: self.description.clone(),
            parameters: self.parameters.duplicate(),
        }
    }

    /// The definition this tool materializes as.
    pub open spec fn definition_data(&self) -> ToolDefinitionData {
        ToolDefinitionData {
            kind: "function"@,
            name: self.name@,
            description: self.description@,
            parameters: self.parameters.deep_view(),
        }
    }
}

impl ToolDefinition {
    /// Materializes the provider-visible definition of one registered tool.
    pub fn from_tool<T: Tool>(tool: &RegisteredTool<T>) -> (r: ToolDefinition)
        ensures
            r.deep_view() == tool.definition_data(),
    {
        tool.definition()
    }
}

/// The definitions visible to the model, one per tool, in order.
pub open spec fn definitions_of<T: Tool>(tools: Seq<RegisteredTool<T>>) -> Seq<
    ToolDefinitionData,
> {
    tools.map(|i: int, t: RegisteredTool<T>| t.definition_data())
}

/// The local tool registry: a name-to-tool ownership map.
pub struct ToolRegistry<T> {
    pub tools: Vec<RegisteredTool<T>>,
}

/// The first position holding a tool of the given name, or the sequence
/// length when there is none.
pub open spec fn first_with_name<T>(tools: Seq<RegisteredTool<T>>, name: Seq<char>, i: int) -> int
    decreases tools.len() - i,
{
    if i < 0 || i >= tools.len() {
        tools.len() as int
    } else if tools[i].name@ == name {
        i
    } else {
        first_with_name(tools, name, i + 1)
    }
}

impl<T: Tool> ToolRegistry<T> {
    /// The registered tools, in registration order.
    pub open spec fn spec_tools(&self) -> Seq<RegisteredTool<T>> {
        self.tools@
    }

    /// Tool names are unique: each name owns at most one slot.
    pub open spec fn wf(&self) -> bool {
        forall|i: int, j: int|
            0 <= i < j < self.tools@.len() ==> (#[trigger] self.tools@[i].name@) != (
            #[trigger] self.tools@[j].name@)
    }

    /// The tool registered under a name, if any.
    pub open spec fn spec_get(&self, name: Seq<char>) -> Option<RegisteredTool<T>> {
        let i = first_with_name(self.spec_tools(), name, 0);
        if i < self.tools@.len() {
            Some(self.tools@[i])
        } else {
            None
        }
    }

    /// True when some tool is registered under the name.
    pub open spec fn has_tool(&self, name: Seq<char>) -> bool {
        self.spec_get(name) is Some
    }

    pub fn new() -> (r: ToolRegistry<T>)
        ensures
            r.wf(),
            r.spec_tools().len() == 0,
    {
        ToolRegistry { tools: Vec::new() }
    }

    /// Reads a tool's identity off and stores it by name, silently
    /// replacing any tool already registered under the same name; the
    /// newest registration stands last.
    pub fn register_tool(&mut self, tool: T)
        requires
            old(self).wf(),
        ensures
            final(self).wf(),
            final(self).spec_tools().len() >= 1,
            final(self).spec_tools().len() <= old(self).spec_tools().len() + 1,
            ({
                let stored = final(self).spec_tools().last();
                &&& stored.tool == tool
                &&& final(self).spec_get(stored.name@) == Some(stored)
                &&& forall|n: Seq<char>|
                    n != stored.name@ ==> final(self).spec_get(n) == old(self).spec_get(n)
            }),
    {
        let registered = RegisteredTool::new(tool);
        self.register_snapshot(registered);
    }

    /// Stores a snapshotted tool by its name.
    fn register_snapshot(&mut self, registered: RegisteredTool<T>)
        requires
            old(self).wf(),
        ensures
            final(self).wf(),
            final(self).spec_get(registered.name@) == Some(registered),
            forall|n: Seq<char>|
                n != registered.name@ ==> final(self).spec_get(n) == old(self).spec_get(n),
            final(self).spec_tools().len() >= 1,
            final(self).spec_tools().len() <= old(self).spec_tools().len() + 1,
            final(self).spec_tools().last() == registered,
    {
        let ghost oldtools = self.tools@;
        let ghost rval = registered;
        let mut k: usize = 0;
        while k < self.tools.len()
            invariant
                0 <= k <= self.tools@.len(),
                self.tools@ == oldtools,
                oldtools == old(self).tools@,
                old(self).wf(),
                forall|i: int| 0 <= i < k ==> (#[trigger] oldtools[i].name@) != rval.name@,
                rval == registered,
            decreases self.tools@.len() - k,
        {
            if self.tools[k].name == registered.name {
                self.tools.remove(k);
                self.tools.push(registered);
                proof {
                    assert(self.tools@ =~= oldtools.remove(k as int).push(rval));
                    lemma_first_with_name_after_move(oldtools, rval, k as int);
                }
                return ;
            }
            k += 1;
        }
        self.tools.push(registered);
        proof {
            assert(self.tools@ =~= oldtools.push(rval));
            lemma_first_with_name_push(oldtools, rval);
        }
    }

    /// The tool registered under a name.
    pub fn get_tool<'a>(&'a self, name: &str) -> (r: Option<&'a RegisteredTool<T>>)
        ensures
            match r {
                Some(t) => self.spec_get(name@) == Some(*t),
                None => self.spec_get(name@) is None,
            },
    {
        let mut k: usize = 0;
        while k < self.tools.len()
            invariant
                0 <= k <= self.tools@.len(),
                first_with_name(self.spec_tools(), name@, 0) == first_with_name(
                    self.spec_tools(),
                    name@,
                    k as int,
                ),
            decreases self.tools@.len() - k,
        {
            if self.tools[k].name == name.to_owned() {
                return Some(&self.tools[k]);
            }
            k += 1;
        }
        None
    }

    /// The registered tools, in registration order.
    pub fn get_tools<'a>(&'a self) -> (r: &'a Vec<RegisteredTool<T>>)
        ensures
            r@ == self.spec_tools(),
    {
        &self.tools
    }

    /// The provider-visible definitions of all registered tools, in order.
    pub fn definitions(&self) -> (r: Vec<ToolDefinition>)
        ensures
            r.deep_view() =~= definitions_of(self.spec_tools()),
    {
        let mut out: Vec<ToolDefinition> = Vec::new();
        let mut k: usize = 0;
        while k < self.tools.len()
            invariant
                0 <= k <= self.tools@.len(),
                out@.len() == k,
                forall|i: int|
                    0 <= i < k ==> (#[trigger] out@[i]).deep_view() == definitions_of(
                        self.spec_tools(),
                    )[i],
            decreases self.tools@.len() - k,
        {
            out.push(self.tools[k].definition());
            k += 1;
        }
        proof {
            assert(out.deep_view() =~= definitions_of(self.spec_tools()));
        }
        out
    }
}

/// Replacing the slot that owned a name with a fresh registration at the
/// tail keeps every other lookup unchanged and makes the name resolve to
/// the new tool.
proof fn lemma_first_with_name_after_move<T>(
    tools: Seq<RegisteredTool<T>>,
    tool: RegisteredTool<T>,
    k: int,
)
    requires
        0 <= k < tools.len(),
        tools[k].name@ == tool.name@,
        forall|i: int| 0 <= i < k ==> (#[trigger] tools[i].name@) != tool.name@,
        forall|i: int, j: int|
            0 <= i < j < tools.len() ==> (#[trigger] tools[i].name@) != (
            #[trigger] tools[j].name@),
    ensures
        ({
            let up = tools.remove(k).push(tool);
            &&& forall|i: int, j: int|
                0 <= i < j < up.len() ==> (#[trigger] up[i].name@) != (#[trigger] up[j].name@)
            &&& first_with_name(up, tool.name@, 0) == up.len() - 1
            &&& up.len() == tools.len()
            &&& up[up.len() - 1] == tool
            &&& forall|n: Seq<char>|
                n != tool.name@ ==> ((first_with_name(up, n, 0) < up.len() <==> first_with_name(
                    tools,
                    n,
                    0,
                ) < tools.len()) && (first_with_name(up, n, 0) < up.len() ==> up[#[trigger]
                first_with_name(up, n, 0)] == tools[first_with_name(tools, n, 0)]))
        }),
{
    let removed = tools.remove(k);
    let up = removed.push(tool);
    assert(forall|i: int| 0 <= i < k ==> (#[trigger] removed[i]) == tools[i]);
    assert(forall|i: int| k <= i < removed.len() ==> (#[trigger] removed[i]) == tools[i + 1]);
    assert(forall|i: int| 0 <= i < removed.len() ==> (#[trigger] up[i]) == removed[i]);
    assert(forall|i: int| 0 <= i < up.len() - 1 ==> (#[trigger] up[i].name@) != tool.name@);
    lemma_first_with_name_tail(up, tool.name@, 0);
    assert forall|n: Seq<char>| n != tool.name@ implies ((first_with_name(up, n, 0) < up.len()
        <==> first_with_name(tools, n, 0) < tools.len()) && (first_with_name(up, n, 0) < up.len()
        ==> up[#[trigger] first_with_name(up, n, 0)] == tools[first_with_name(tools, n, 0)])) by {
        lemma_first_with_name_bounds(up, n, 0);
        lemma_first_with_name_bounds(tools, n, 0);
        lemma_first_with_name_found(up, n, 0);
        lemma_first_with_name_found(tools, n, 0);
        let fu = first_with_name(up, n, 0);
        let ft = first_with_name(tools, n, 0);
        if ft < tools.len() {
            assert(tools[ft].name@ == n);
            assert(ft != k);
            let shifted = if ft < k {
                ft
            } else {
                ft - 1
            };
            assert(up[shifted].name@ == n);
            lemma_first_with_name_unique_slot(up, n, shifted);
            assert(fu == shifted);
            assert(up[fu] == tools[ft]);
        } else {
            if fu < up.len() {
                assert(up[fu].name@ == n);
                assert(fu < up.len() - 1);
                let back = if fu < k {
                    fu
                } else {
                    fu + 1
                };
                assert(tools[back].name@ == n);
                lemma_first_with_name_unique_slot(tools, n, back);
            }
        }
    }
}

/// In a sequence with unique names, a scan from the start lands exactly on
/// any slot known to hold the name.
proof fn lemma_first_with_name_unique_slot<T>(tools: Seq<RegisteredTool<T>>, n: Seq<char>, k: int)
    requires
        0 <= k < tools.len(),
        tools[k].name@ == n,
        forall|i: int, j: int|
            0 <= i < j < tools.len() ==> (#[trigger] tools[i].name@) != (
            #[trigger] tools[j].name@),
    ensures
        first_with_name(tools, n, 0) == k,
{
    assert(forall|i: int| 0 <= i < k ==> (#[trigger] tools[i].name@) != n);
    lemma_first_with_name_prefix(tools, n, 0, k);
}

/// A scan lands between its start and the sequence length.
proof fn lemma_first_with_name_bounds<T>(tools: Seq<RegisteredTool<T>>, n: Seq<char>, s: int)
    requires
        0 <= s <= tools.len(),
    ensures
        s <= first_with_name(tools, n, s) <= tools.len(),
    decreases tools.len() - s,
{
    if s < tools.len() && tools[s].name@ != n {
        lemma_first_with_name_bounds(tools, n, s + 1);
    }
}

/// A successful scan lands on its name.
proof fn lemma_first_with_name_found<T>(tools: Seq<RegisteredTool<T>>, n: Seq<char>, s: int)
    requires
        0 <= s <= tools.len(),
    ensures
        first_with_name(tools, n, s) < tools.len() ==> tools[first_with_name(tools, n, s)].name@
            == n,
    decreases tools.len() - s,
{
    if s < tools.len() && tools[s].name@ != n {
        lemma_first_with_name_found(tools, n, s + 1);
    }
}

/// A scan finds the slot right after a name-free prefix.
proof fn lemma_first_with_name_prefix<T>(
    tools: Seq<RegisteredTool<T>>,
    name: Seq<char>,
    s: int,
    k: int,
)
    requires
        0 <= s <= k < tools.len(),
        tools[k].name@ == name,
        forall|i: int| s <= i < k ==> (#[trigger] tools[i].name@) != name,
    ensures
        first_with_name(tools, name, s) == k,
    decreases k - s,
{
    if s < k {
        lemma_first_with_name_prefix(tools, name, s + 1, k);
    }
}

/// A scan for a name that only the last slot carries lands on that slot.
proof fn lemma_first_with_name_tail<T>(tools: Seq<RegisteredTool<T>>, name: Seq<char>, s: int)
    requires
        tools.len() >= 1,
        tools[tools.len() - 1].name@ == name,
        forall|i: int| 0 <= i < tools.len() - 1 ==> (#[trigger] tools[i].name@) != name,
        0 <= s <= tools.len() - 1,
    ensures
        first_with_name(tools, name, s) == tools.len() - 1,
    decreases tools.len() - s,
{
    if s < tools.len() - 1 {
        lemma_first_with_name_tail(tools, name, s + 1);
    }
}

/// Appending a fresh name leaves earlier lookups unchanged and makes the
/// new slot the owner of its name.
proof fn lemma_first_with_name_push<T>(tools: Seq<RegisteredTool<T>>, tool: RegisteredTool<T>)
    requires
        forall|i: int| 0 <= i < tools.len() ==> (#[trigger] tools[i].name@) != tool.name@,
        forall|i: int, j: int|
            0 <= i < j < tools.len() ==> (#[trigger] tools[i].name@) != (
            #[trigger] tools[j].name@),
    ensures
        ({
            let up = tools.push(tool);
            &&& forall|i: int, j: int|
                0 <= i < j < up.len() ==> (#[trigger] up[i].name@) != (#[trigger] up[j].name@)
            &&& first_with_name(up, tool.name@, 0) == tools.len()
            &&& forall|n: Seq<char>|
                n != tool.name@ ==> ((#[trigger] first_with_name(up, n, 0) < up.len()
                    <==> first_with_name(tools, n, 0) < tools.len()) && (first_with_name(up, n, 0)
                    < up.len() ==> first_with_name(up, n, 0) == first_with_name(tools, n, 0) && up[
                first_with_name(up, n, 0)] == tools[first_with_name(tools, n, 0)]))
        }),
{
    let up = tools.push(tool);
    lemma_first_with_name_prefix(up, tool.name@, 0, tools.len() as int);
    assert forall|n: Seq<char>| n != tool.name@ implies ((#[trigger] first_with_name(up, n, 0)
        < up.len() <==> first_with_name(tools, n, 0) < tools.len()) && (first_with_name(up, n, 0)
        < up.len() ==> first_with_name(up, n, 0) == first_with_name(tools, n, 0) && up[
    first_with_name(up, n, 0)] == tools[first_with_name(tools, n, 0)])) by {
        lemma_first_with_name_bounds(tools, n, 0);
        lemma_first_with_name_skip_last(tools, up, n, 0);
    }
}

/// A scan for a name that the appended slot does not carry finds the same
/// slot as before, or runs off the end in both sequences.
proof fn lemma_first_with_name_skip_last<T>(
    tools: Seq<RegisteredTool<T>>,
    up: Seq<RegisteredTool<T>>,
    n: Seq<char>,
    s: int,
)
    requires
        up.len() == tools.len() + 1,
        forall|i: int| 0 <= i < tools.len() ==> up[i] == tools[i],
        up[tools.len() as int].name@ != n,
        0 <= s <= tools.len(),
    ensures
        first_with_name(tools, n, s) < tools.len() ==> first_with_name(up, n, s)
            == first_with_name(tools, n, s),
        first_with_name(tools, n, s) == tools.len() ==> first_with_name(up, n, s) == up.len(),
    decreases tools.len() - s,
{
    if s < tools.len() {
        lemma_first_with_name_skip_last(tools, up, n, s + 1);
    } else {
        assert(first_with_name(up, n, s + 1) == up.len());
    }
}

} // verus!
