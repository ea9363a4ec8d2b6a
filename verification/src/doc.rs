use vstd::prelude::*;

verus! {

/// The failures a persistence or import operation can report.
#[derive(Clone, Copy, PartialEq, Eq, Structural, Debug)]
pub enum StreamError {
    /// No registered document has the given id.
    NotFound,
    /// The target name, or the file at its path, is already taken.
    NameCollision,
    /// A derived or requested logical name is empty or malformed.
    InvalidName,
    /// The file has the wrong extension or its content could not be parsed.
    InvalidFormat,
}

/// One agent of a stream document. Agents are opaque to this layer beyond
/// their identity.
#[derive(Clone, Copy, PartialEq, Eq, Structural, Debug)]
pub struct AgentSpec {
    pub id: u64,
}

/// One channel of a stream document, connecting the agents whose ids are
/// `source` and `target`.
#[derive(Clone, Copy, PartialEq, Eq, Structural, Debug)]
pub struct ChannelSpec {
    pub id: u64,
    pub source: u64,
    pub target: u64,
}

/// A stream document: a named graph of agents and channels, plus the flag
/// that lets the orchestration engine auto-launch it.
#[derive(Clone, Debug)]
pub struct StreamDoc {
    pub name: String,
    pub agents: Vec<AgentSpec>,
    pub channels: Vec<ChannelSpec>,
    pub run_on_start: bool,
}

/// The mathematical content of a stream document.
pub ghost struct DocModel {
    pub name: Seq<char>,
    pub agents: Seq<AgentSpec>,
    pub channels: Seq<ChannelSpec>,
    pub run_on_start: bool,
}

impl View for StreamDoc {
    type V = DocModel;

    open spec fn view(&self) -> DocModel {
        DocModel {
            name: self.name@,
            agents: self.agents@,
            channels: self.channels@,
            run_on_start: self.run_on_start,
        }
    }
}

/// Every internal identifier of a document: its agents' ids followed by its
/// channels' ids.
pub open spec fn part_ids(d: DocModel) -> Seq<u64> {
    d.agents.map_values(|a: AgentSpec| a.id) + d.channels.map_values(|c: ChannelSpec| c.id)
}

/// All internal identifiers of the document lie below the bound.
pub open spec fn parts_below(d: DocModel, bound: u64) -> bool {
    forall|i: int| 0 <= i < part_ids(d).len() ==> #[trigger] part_ids(d)[i] < bound
}

/// All internal identifiers of the document lie at or above the bound.
pub open spec fn parts_at_or_above(d: DocModel, bound: u64) -> bool {
    forall|i: int| 0 <= i < part_ids(d).len() ==> #[trigger] part_ids(d)[i] >= bound
}

} // verus!
