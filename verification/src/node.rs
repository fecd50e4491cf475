//! Nodes of the binary dependency graph: one per discovered artifact.

use vstd::prelude::*;
use vstd::string::StringExecFns;

use crate::numfmt::{dec_str, u64_to_string};

verus! {

/// The container format of a discovered artifact.
#[derive(Debug, Clone, Copy, PartialEq, Eq, Structural)]
pub enum NodeType {
    ELFBinary,
    ELFLibrary,
    PortableExecutable,
    InterpretedExecutable,
}

impl NodeType {
    /// The tag under which this variant appears in the JSON report.
    pub fn tag(&self) -> (r: String)
        ensures
            r@ == spec_tag(*self),
    {
        match self {
            NodeType::ELFBinary => String::from_str("elf_binary"),
            NodeType::ELFLibrary => String::from_str("elf_library"),
            NodeType::PortableExecutable => String::from_str("pe"),
            NodeType::InterpretedExecutable => String::from_str("interp"),
        }
    }

    /// The GraphViz fill color used for this variant.
    pub fn color(&self) -> (r: String)
        ensures
            r@ == spec_color(*self),
    {
        match self {
            NodeType::ELFBinary => String::from_str("blue"),
            NodeType::ELFLibrary => String::from_str("green"),
            NodeType::PortableExecutable => String::from_str("pink"),
            NodeType::InterpretedExecutable => String::from_str("red"),
        }
    }
}

/// The JSON tag of each [`NodeType`] variant.
pub open spec fn spec_tag(t: NodeType) -> Seq<char> {
    match t {
        NodeType::ELFBinary => "elf_binary"@,
        NodeType::ELFLibrary => "elf_library"@,
        NodeType::PortableExecutable => "pe"@,
        NodeType::InterpretedExecutable => "interp"@,
    }
}

/// The GraphViz fill color of each [`NodeType`] variant.
pub open spec fn spec_color(t: NodeType) -> Seq<char> {
    match t {
        NodeType::ELFBinary => "blue"@,
        NodeType::ELFLibrary => "green"@,
        NodeType::PortableExecutable => "pink"@,
        NodeType::InterpretedExecutable => "red"@,
    }
}

/// How a stored centrality score renders in the GraphViz tooltip: the
/// rendered score itself, or `0` while the score is unset.
pub open spec fn opt_score_str(c: Option<Seq<char>>) -> Seq<char> {
    match c {
        Some(s) => s,
        None => "0"@,
    }
}

/// Mathematical value of a [`BinNode`].
#[verifier::ext_equal]
pub struct NodeV {
    pub name: Seq<char>,
    pub absolute_path: Seq<char>,
    pub node_type: NodeType,
    pub dependencies: Seq<Seq<char>>,
    pub in_degree: nat,
    pub out_degree: nat,
    pub betweenness_centrality: Option<Seq<char>>,
    pub katz_centrality: Option<Seq<char>>,
    pub eigen_centrality: Option<Seq<char>>,
    pub closeness_centrality: Option<Seq<char>>,
}

/// One discovered artifact: its identity, declared dependencies, degree
/// bookkeeping, and the rendered centrality scores once they are known.
///
/// The `name` (the filename component of the path) is the key under which
/// dependencies are resolved; the absolute path is informational only.
#[derive(Debug)]
pub struct BinNode {
    name: String,
    absolute_path: String,
    node_type: NodeType,
    dependencies: Vec<String>,
    in_degree: u32,
    out_degree: u32,
    betweenness_centrality: Option<String>,
    katz_centrality: Option<String>,
    eigen_centrality: Option<String>,
    closeness_centrality: Option<String>,
}

impl View for BinNode {
    type V = NodeV;

    closed spec fn view(&self) -> NodeV {
        NodeV {
            name: self.name@,
            absolute_path: self.absolute_path@,
            node_type: self.node_type,
            dependencies: self.dependencies.deep_view(),
            in_degree: self.in_degree as nat,
            out_degree: self.out_degree as nat,
            betweenness_centrality: self.betweenness_centrality.deep_view(),
            katz_centrality: self.katz_centrality.deep_view(),
            eigen_centrality: self.eigen_centrality.deep_view(),
            closeness_centrality: self.closeness_centrality.deep_view(),
        }
    }
}

impl DeepView for BinNode {
    type V = NodeV;

    open spec fn deep_view(&self) -> NodeV {
        self.view()
    }
}

/// An element-by-element copy of a list of strings.
fn clone_string_vec(v: &Vec<String>) -> (r: Vec<String>)
    ensures
        r@ == v@,
{
    let mut r: Vec<String> = Vec::new();
    let mut i: usize = 0;
    while i < v.len()
        invariant
            i <= v@.len(),
            r@.len() == i,
            forall|t: int| 0 <= t < i ==> r@[t] == v@[t],
        decreases v@.len() - i,
    {
        r.push(v[i].clone());
        i += 1;
    }
    proof {
        assert(r@ =~= v@);
    }
    r
}

/// A copy of an optional string.
fn clone_opt_string(v: &Option<String>) -> (r: Option<String>)
    ensures
        r == *v,
{
    match v {
        Some(s) => Some(s.clone()),
        None => None,
    }
}

/// The one GraphViz node statement a node renders to: its name, a fill
/// color keyed by its type, and a tooltip with its path, its declared
/// dependency count, its in-degree and its four scores.
pub open spec fn gv_node_stmt(n: NodeV) -> Seq<char> {
    "  \""@ + n.name + "\" [style=filled, color=\""@ + spec_color(n.node_type)
        + "\", tooltip=\"Absolute Path: "@ + n.absolute_path + "\\nOutdegree: "@ + dec_str(
        n.dependencies.len(),
    ) + "\\nIndegree: "@ + dec_str(n.in_degree) + "\\nBetweeness: "@ + opt_score_str(
        n.betweenness_centrality,
    ) + "\\nKatz: "@ + opt_score_str(n.katz_centrality) + "\\nEigen: "@ + opt_score_str(
        n.eigen_centrality,
    ) + "\\nCloseness: "@ + opt_score_str(n.closeness_centrality) + "\"];\n"@
}

impl Clone for BinNode {
    /// An exact copy: the clone has the same mathematical value as the
    /// original.
    fn clone(&self) -> (r: Self)
        ensures
            r@ == self@,
    {
        BinNode {
            name: self.name.clone(),
            absolute_path: self.absolute_path.clone(),
            node_type: self.node_type,
            dependencies: clone_string_vec(&self.dependencies),
            in_degree: self.in_degree,
            out_degree: self.out_degree,
            betweenness_centrality: clone_opt_string(&self.betweenness_centrality),
            katz_centrality: clone_opt_string(&self.katz_centrality),
            eigen_centrality: clone_opt_string(&self.eigen_centrality),
            closeness_centrality: clone_opt_string(&self.closeness_centrality),
        }
    }
}

impl BinNode {
    /// A fresh node for a parsed artifact: no resolved edges yet, no
    /// centrality scores yet.
    pub fn new(name: String, absolute_path: String, node_type: NodeType, dependencies: Vec<
        String,
    >) -> (r: BinNode)
        ensures
            r@ == (NodeV {
                name: name@,
                absolute_path: absolute_path@,
                node_type,
                dependencies: dependencies.deep_view(),
                in_degree: 0,
                out_degree: 0,
                betweenness_centrality: None,
                katz_centrality: None,
                eigen_centrality: None,
                closeness_centrality: None,
            }),
    {
        BinNode {
            name,
            absolute_path,
            node_type,
            dependencies,
            in_degree: 0,
            out_degree: 0,
            betweenness_centrality: None,
            katz_centrality: None,
            eigen_centrality: None,
            closeness_centrality: None,
        }
    }

    pub fn name(&self) -> (r: String)
        ensures
            r@ == self@.name,
    {
        self.name.clone()
    }

    /// Whether this node's name is exactly `other`: the match criterion of
    /// dependency resolution (case-sensitive, no version-suffix stripping).
    pub fn name_matches(&self, other: &String) -> (r: bool)
        ensures
            r == (self@.name == other@),
    {
        self.name == *other
    }

    pub fn absolute_path(&self) -> (r: &String)
        ensures
            r@ == self@.absolute_path,
    {
        &self.absolute_path
    }

    pub fn node_type(&self) -> (r: NodeType)
        ensures
            r == self@.node_type,
    {
        self.node_type
    }

    pub fn get_dependencies(&self) -> (r: &Vec<String>)
        ensures
            r.deep_view() == self@.dependencies,
    {
        &self.dependencies
    }

    pub fn get_in_degree(&self) -> (r: u32)
        ensures
            r as nat == self@.in_degree,
    {
        self.in_degree
    }

    pub fn get_out_degree(&self) -> (r: u32)
        ensures
            r as nat == self@.out_degree,
    {
        self.out_degree
    }

    /// Renders this node as its GraphViz node statement.
    pub fn format_graphviz(&self) -> (r: String)
        ensures
            r@ == gv_node_stmt(self@),
    {
        let mut r = String::from_str("  \"");
        r.append(self.name.as_str());
        r.append("\" [style=filled, color=\"");
        let col = self.node_type.color();
        r.append(col.as_str());
        r.append("\", tooltip=\"Absolute Path: ");
        r.append(self.absolute_path.as_str());
        r.append("\\nOutdegree: ");
        let od = u64_to_string(self.dependencies.len() as u64);
        r.append(od.as_str());
        r.append("\\nIndegree: ");
        let id = u64_to_string(self.in_degree as u64);
        r.append(id.as_str());
        r.append("\\nBetweeness: ");
        match &self.betweenness_centrality {
            Some(s) => r.append(s.as_str()),
            None => r.append("0"),
        }
        r.append("\\nKatz: ");
        match &self.katz_centrality {
            Some(s) => r.append(s.as_str()),
            None => r.append("0"),
        }
        r.append("\\nEigen: ");
        match &self.eigen_centrality {
            Some(s) => r.append(s.as_str()),
            None => r.append("0"),
        }
        r.append("\\nCloseness: ");
        match &self.closeness_centrality {
            Some(s) => r.append(s.as_str()),
            None => r.append("0"),
        }
        r.append("\"];\n");
        proof {
            assert(r@ =~= gv_node_stmt(self@));
        }
        r
    }

    pub fn get_betweenness_centrality(&self) -> (r: &Option<String>)
        ensures
            r.deep_view() == self@.betweenness_centrality,
    {
        &self.betweenness_centrality
    }

    pub fn get_katz_centrality(&self) -> (r: &Option<String>)
        ensures
            r.deep_view() == self@.katz_centrality,
    {
        &self.katz_centrality
    }

    pub fn get_eigen_centrality(&self) -> (r: &Option<String>)
        ensures
            r.deep_view() == self@.eigen_centrality,
    {
        &self.eigen_centrality
    }

    pub fn get_closeness_centrality(&self) -> (r: &Option<String>)
        ensures
            r.deep_view() == self@.closeness_centrality,
    {
        &self.closeness_centrality
    }

    pub fn set_in_degree(&mut self, v: u32)
        ensures
            final(self)@ == (NodeV { in_degree: v as nat, ..old(self)@ }),
    {
        self.in_degree = v;
    }

    pub fn set_out_degree(&mut self, v: u32)
        ensures
            final(self)@ == (NodeV { out_degree: v as nat, ..old(self)@ }),
    {
        self.out_degree = v;
    }

    pub fn set_betweeness_centrality(&mut self, c: String)
        ensures
            final(self)@ == (NodeV { betweenness_centrality: Some(c@), ..old(self)@ }),
    {
        self.betweenness_centrality = Some(c);
    }

    pub fn set_katz_centrality(&mut self, c: String)
        ensures
            final(self)@ == (NodeV { katz_centrality: Some(c@), ..old(self)@ }),
    {
        self.katz_centrality = Some(c);
    }

    pub fn set_eigen_centrality(&mut self, c: String)
        ensures
            final(self)@ == (NodeV { eigen_centrality: Some(c@), ..old(self)@ }),
    {
        self.eigen_centrality = Some(c);
    }

    pub fn set_closeness_centrality(&mut self, c: String)
        ensures
            final(self)@ == (NodeV { closeness_centrality: Some(c@), ..old(self)@ }),
    {
        self.closeness_centrality = Some(c);
    }
}

} // verus!
