//! Data model of the symbol graph: nodes, edges, graphs, and the run-scoped
//! configuration records.

use vstd::prelude::*;
use vstd::string::StringExecFns;

use crate::text;

verus! {

/// Kind of a definition node.
#[derive(Debug, Clone, Copy, PartialEq, Eq, Structural)]
pub enum ScipSymbolKind {
    File,
    Module,
    Class,
    Method,
    Function,
    Variable,
    Interface,
}

/// Lowercase label of a node kind, as it appears in serialized output.
pub open spec fn kind_label(k: ScipSymbolKind) -> Seq<char> {
    match k {
        ScipSymbolKind::File => "file"@,
        ScipSymbolKind::Module => "module"@,
        ScipSymbolKind::Class => "class"@,
        ScipSymbolKind::Method => "method"@,
        ScipSymbolKind::Function => "function"@,
        ScipSymbolKind::Variable => "variable"@,
        ScipSymbolKind::Interface => "interface"@,
    }
}

impl ScipSymbolKind {
    /// Executable form of `kind_label`.
    pub fn label(&self) -> (r: &'static str)
        ensures
            r@ == kind_label(*self),
    {
        match self {
            ScipSymbolKind::File => "file",
            ScipSymbolKind::Module => "module",
            ScipSymbolKind::Class => "class",
            ScipSymbolKind::Method => "method",
            ScipSymbolKind::Function => "function",
            ScipSymbolKind::Variable => "variable",
            ScipSymbolKind::Interface => "interface",
        }
    }
}

/// Kind of a reference edge.
#[derive(Debug, Clone, Copy, PartialEq, Eq, Structural)]
pub enum EdgeType {
    Calls,
    References,
    Imports,
}

/// Order in which edge types are grouped in adjacency output.
pub open spec fn edge_type_rank(t: EdgeType) -> int {
    match t {
        EdgeType::Calls => 0,
        EdgeType::References => 1,
        EdgeType::Imports => 2,
    }
}

impl EdgeType {
    /// Executable form of `edge_type_rank`.
    pub fn rank(&self) -> (r: u8)
        ensures
            r as int == edge_type_rank(*self),
    {
        match self {
            EdgeType::Calls => 0,
            EdgeType::References => 1,
            EdgeType::Imports => 2,
        }
    }
}

/// Mathematical view of a definition node: every text field as a character
/// sequence, the preconditions as a sequence of sequences.
#[verifier::ext_equal]
pub ghost struct NodeV {
    pub id: Seq<char>,
    pub name: Seq<char>,
    pub kind: ScipSymbolKind,
    pub parent_id: Option<Seq<char>>,
    pub documentation: Option<Seq<char>>,
    pub signature: Option<Seq<char>>,
    pub logic: Option<Seq<Seq<char>>>,
}

/// Mathematical view of a reference edge.
#[verifier::ext_equal]
pub ghost struct EdgeV {
    pub from: Seq<char>,
    pub to: Seq<char>,
    pub edge_type: EdgeType,
}

/// Guard-clause preconditions lifted from a definition's body.
#[derive(Debug)]
#[verifier::ext_equal]
pub struct LogicMetadata {
    pub preconditions: Vec<String>,
}

impl Clone for LogicMetadata {
    fn clone(&self) -> (r: Self)
        ensures
            r.preconditions.deep_view() == self.preconditions.deep_view(),
    {
        let mut pre: Vec<String> = Vec::new();
        let mut i: usize = 0;
        while i < self.preconditions.len()
            invariant
                i <= self.preconditions@.len(),
                pre@ == self.preconditions@.subrange(0, i as int),
            decreases self.preconditions.len() - i,
        {
            pre.push(self.preconditions[i].clone());
            proof {
                assert(pre@ =~= self.preconditions@.subrange(0, i + 1));
            }
            i += 1;
        }
        proof {
            assert(pre@ =~= self.preconditions@);
            assert(pre.deep_view() =~~= self.preconditions.deep_view());
        }
        LogicMetadata { preconditions: pre }
    }
}

/// A deduplicated definition node of the symbol graph.
#[derive(Debug)]
#[verifier::ext_equal]
pub struct SymbolNode {
    pub id: String,
    pub name: String,
    pub kind: ScipSymbolKind,
    pub parent_id: Option<String>,
    pub documentation: Option<String>,
    pub signature: Option<String>,
    pub logic: Option<LogicMetadata>,
}

fn clone_opt_string(s: &Option<String>) -> (r: Option<String>)
    ensures
        r == *s,
{
    match s {
        Some(x) => Some(x.clone()),
        None => None,
    }
}

impl View for SymbolNode {
    type V = NodeV;

    open spec fn view(&self) -> NodeV {
        NodeV {
            id: self.id@,
            name: self.name@,
            kind: self.kind,
            parent_id: self.parent_id.deep_view(),
            documentation: self.documentation.deep_view(),
            signature: self.signature.deep_view(),
            logic: match self.logic {
                Some(l) => Some(l.preconditions.deep_view()),
                None => None,
            },
        }
    }
}

impl DeepView for SymbolNode {
    type V = NodeV;

    open spec fn deep_view(&self) -> NodeV {
        self.view()
    }
}

impl Clone for SymbolNode {
    fn clone(&self) -> (r: Self)
        ensures
            r@ == (*self)@,
    {
        let r = SymbolNode {
            id: self.id.clone(),
            name: self.name.clone(),
            kind: self.kind,
            parent_id: clone_opt_string(&self.parent_id),
            documentation: clone_opt_string(&self.documentation),
            signature: clone_opt_string(&self.signature),
            logic: match &self.logic {
                Some(l) => Some(l.clone()),
                None => None,
            },
        };
        proof {
            assert(r@ =~~= (*self)@);
        }
        r
    }
}

/// A typed reference edge between two nodes, identified by their anchors.
#[derive(Debug)]
#[verifier::ext_equal]
pub struct ReferenceEdge {
    pub from: String,
    pub to: String,
    pub edge_type: EdgeType,
}

impl View for ReferenceEdge {
    type V = EdgeV;

    open spec fn view(&self) -> EdgeV {
        EdgeV { from: self.from@, to: self.to@, edge_type: self.edge_type }
    }
}

impl DeepView for ReferenceEdge {
    type V = EdgeV;

    open spec fn deep_view(&self) -> EdgeV {
        self.view()
    }
}

impl Clone for ReferenceEdge {
    fn clone(&self) -> (r: Self)
        ensures
            r@ == (*self)@,
            r == *self,
    {
        ReferenceEdge { from: self.from.clone(), to: self.to.clone(), edge_type: self.edge_type }
    }
}

/// Name and version stamped into every serialized graph.
#[derive(Debug)]
#[verifier::ext_equal]
pub struct ProjectMetadata {
    pub name: String,
    pub version: String,
}

impl Clone for ProjectMetadata {
    fn clone(&self) -> (r: Self)
        ensures
            r == *self,
    {
        ProjectMetadata { name: self.name.clone(), version: self.version.clone() }
    }
}

impl Default for ProjectMetadata {
    fn default() -> (r: Self)
        ensures
            r.name@ == Seq::<char>::empty(),
            r.version@ == Seq::<char>::empty(),
    {
        ProjectMetadata { name: String::new(), version: String::new() }
    }
}

/// The flat graph: ordered node list plus a sorted edge list.
#[derive(Debug)]
#[verifier::ext_equal]
pub struct YcgGraph {
    pub metadata: ProjectMetadata,
    pub definitions: Vec<SymbolNode>,
    pub references: Vec<ReferenceEdge>,
}

/// Destinations of one source node for one edge type, sorted.
#[derive(Debug)]
#[verifier::ext_equal]
pub struct AdjacencyGroup {
    pub edge_type: EdgeType,
    pub targets: Vec<String>,
}

/// All outgoing edges of one source node, grouped by edge type.
#[derive(Debug)]
#[verifier::ext_equal]
pub struct AdjacencyEntry {
    pub from: String,
    pub groups: Vec<AdjacencyGroup>,
}

/// Mathematical view of an adjacency group.
#[verifier::ext_equal]
pub ghost struct GroupV {
    pub edge_type: EdgeType,
    pub targets: Seq<Seq<char>>,
}

impl View for AdjacencyGroup {
    type V = GroupV;

    open spec fn view(&self) -> GroupV {
        GroupV { edge_type: self.edge_type, targets: self.targets.deep_view() }
    }
}

impl DeepView for AdjacencyGroup {
    type V = GroupV;

    open spec fn deep_view(&self) -> GroupV {
        self.view()
    }
}

/// Mathematical view of an adjacency entry.
#[verifier::ext_equal]
pub ghost struct EntryV {
    pub from: Seq<char>,
    pub groups: Seq<GroupV>,
}

impl View for AdjacencyEntry {
    type V = EntryV;

    open spec fn view(&self) -> EntryV {
        EntryV { from: self.from@, groups: self.groups.deep_view() }
    }
}

impl DeepView for AdjacencyEntry {
    type V = EntryV;

    open spec fn deep_view(&self) -> EntryV {
        self.view()
    }
}

/// The compacted graph: nodes unchanged, edges regrouped as an adjacency list
/// ordered by source anchor, edge type, and destination anchor.
#[derive(Debug)]
#[verifier::ext_equal]
pub struct YcgGraphOptimized {
    pub metadata: ProjectMetadata,
    pub definitions: Vec<SymbolNode>,
    pub adjacency: Vec<AdjacencyEntry>,
}

/// The ad-hoc graph: one pipe-delimited string per node plus the adjacency list.
#[derive(Debug)]
#[verifier::ext_equal]
pub struct YcgGraphAdHoc {
    pub metadata: ProjectMetadata,
    pub definitions: Vec<String>,
    pub adjacency: Vec<AdjacencyEntry>,
}

/// Contents of a configuration file, before merging with command-line values.
#[derive(Debug, Clone)]
pub struct YcgConfigFile {
    pub output: OutputConfig,
    pub ignore: IgnoreConfig,
    pub include_patterns: Vec<String>,
}

/// Output settings of a configuration file.
#[derive(Debug, Clone)]
pub struct OutputConfig {
    pub format: Option<String>,
    pub compact: Option<bool>,
    pub ignore_framework_noise: Option<bool>,
    pub adhoc_granularity: Option<String>,
}

impl Default for OutputConfig {
    fn default() -> (r: Self)
        ensures
            r.format is None,
            r.compact is None,
            r.ignore_framework_noise is None,
            r.adhoc_granularity is None,
    {
        OutputConfig {
            format: None,
            compact: None,
            ignore_framework_noise: None,
            adhoc_granularity: None,
        }
    }
}

/// Ignore settings of a configuration file.
#[derive(Debug, Clone)]
pub struct IgnoreConfig {
    pub use_gitignore: Option<bool>,
    pub custom_patterns: Option<Vec<String>>,
}

impl Default for IgnoreConfig {
    fn default() -> (r: Self)
        ensures
            r.use_gitignore is None,
            r.custom_patterns is None,
    {
        IgnoreConfig { use_gitignore: None, custom_patterns: None }
    }
}

/// Output format of a run.
#[derive(Debug, Clone, Copy, PartialEq, Eq, Structural)]
pub enum OutputFormat {
    Yaml,
    AdHoc,
}

impl Default for OutputFormat {
    fn default() -> (r: Self)
        ensures
            r == OutputFormat::Yaml,
    {
        OutputFormat::Yaml
    }
}

/// File filtering configuration handed to the file filter.
#[derive(Debug, Clone)]
pub struct FileFilterConfig {
    pub include_patterns: Vec<String>,
    pub exclude_patterns: Vec<String>,
    pub use_gitignore: bool,
}

impl Default for FileFilterConfig {
    fn default() -> (r: Self)
        ensures
            r.include_patterns@.len() == 0,
            r.exclude_patterns@.len() == 0,
            r.use_gitignore == false,
    {
        FileFilterConfig { include_patterns: Vec::new(), exclude_patterns: Vec::new(), use_gitignore: false }
    }
}

/// Granularity of the ad-hoc format: which fields each definition carries.
#[derive(Debug, Clone, Copy, PartialEq, Eq, Structural)]
pub enum AdHocGranularity {
    Default,
    InlineSignatures,
    InlineLogic,
}

impl Default for AdHocGranularity {
    fn default() -> (r: Self)
        ensures
            r == AdHocGranularity::Default,
    {
        AdHocGranularity::Default
    }
}

/// The granularity a configuration string names, compared case-insensitively.
pub open spec fn granularity_of(s: Seq<char>) -> Option<AdHocGranularity> {
    let l = text::lower_ascii(s);
    if l == "default"@ {
        Some(AdHocGranularity::Default)
    } else if l == "signatures"@ {
        Some(AdHocGranularity::InlineSignatures)
    } else if l == "logic"@ {
        Some(AdHocGranularity::InlineLogic)
    } else {
        None
    }
}

/// The message reported for a granularity string that names no level.
pub open spec fn granularity_err_msg(s: Seq<char>) -> Seq<char> {
    "Invalid adhocGranularity value: '"@ + s
        + "'. Valid values are: 'default', 'signatures', 'logic'"@
}

impl AdHocGranularity {
    /// Parse a configuration string into a granularity level.
    pub fn from_str(s: &str) -> (r: Result<Self, String>)
        ensures
            match r {
                Ok(g) => granularity_of(s@) == Some(g),
                Err(e) => granularity_of(s@) is None && e@ == granularity_err_msg(s@),
            },
    {
        let chars = text::chars_of(s);
        let lowered = text::lower_ascii_exec(&chars);
        if text::chars_eq(&lowered, &text::chars_of("default")) {
            Ok(AdHocGranularity::Default)
        } else if text::chars_eq(&lowered, &text::chars_of("signatures")) {
            Ok(AdHocGranularity::InlineSignatures)
        } else if text::chars_eq(&lowered, &text::chars_of("logic")) {
            Ok(AdHocGranularity::InlineLogic)
        } else {
            let mut msg = String::from_str("Invalid adhocGranularity value: '");
            msg.append(s);
            msg.append("'. Valid values are: 'default', 'signatures', 'logic'");
            Err(msg)
        }
    }

    /// String form of a granularity level, the inverse of `from_str`.
    pub fn to_str(&self) -> (r: &'static str)
        ensures
            match *self {
                AdHocGranularity::Default => r@ == "default"@,
                AdHocGranularity::InlineSignatures => r@ == "signatures"@,
                AdHocGranularity::InlineLogic => r@ == "logic"@,
            },
    {
        match self {
            AdHocGranularity::Default => "default",
            AdHocGranularity::InlineSignatures => "signatures",
            AdHocGranularity::InlineLogic => "logic",
        }
    }
}

/// Which kinds of definitions are retained in the graph.
#[derive(Debug, Clone, Copy, PartialEq, Eq, Structural)]
pub enum LevelOfDetail {
    Low,
    Medium,
    High,
}

/// The merged, run-scoped configuration the conversion consumes.
#[derive(Debug, Clone)]
pub struct YcgConfig {
    pub lod: LevelOfDetail,
    pub project_root: String,
    pub compact: bool,
    pub output_format: OutputFormat,
    pub ignore_framework_noise: bool,
    pub file_filter: FileFilterConfig,
    pub adhoc_granularity: AdHocGranularity,
}

} // verus!
