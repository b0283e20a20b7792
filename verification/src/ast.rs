//! The RNMDL abstract syntax tree (GN-Z11) and its mathematical view.
use vstd::prelude::*;
use crate::text::{unicode_lowercase, is_ascii, ascii_lowercase, to_lowercase, str_eq, chars_of, string_of, copy_string, append_str};

verus! {

#[derive(Debug, Clone)]
pub struct ModuleDeclaration {
    pub version: String,
    pub modules: Vec<String>,
    pub line: usize,
}

#[derive(Debug, Clone)]
pub struct DocumentHeader {
    pub declarations: Vec<ModuleDeclaration>,
    pub implement_bugfixsets: bool,
}

#[derive(Debug)]
pub enum Node {
    Document { header: DocumentHeader, children: Vec<Node> },
    Container { id: Option<String>, children: Vec<Node>, line: usize },
    Section { id: Option<String>, children: Vec<Node>, line: usize },
    Heading { level: u8, text: String, line: usize },
    Paragraph { text: String, line: usize },
    Image { path: String, alt: String, line: usize },
    Comment { content: String, line: usize },
}

// ─── Views ──────────────────────────────────────────────────

pub struct SpecModuleDecl {
    pub version: Seq<char>,
    pub modules: Seq<Seq<char>>,
    pub line: nat,
}

pub struct SpecHeader {
    pub declarations: Seq<SpecModuleDecl>,
    pub implement_bugfixsets: bool,
}

pub enum SpecNode {
    Document { header: SpecHeader, children: Seq<SpecNode> },
    Container { id: Option<Seq<char>>, children: Seq<SpecNode>, line: nat },
    Section { id: Option<Seq<char>>, children: Seq<SpecNode>, line: nat },
    Heading { level: u8, text: Seq<char>, line: nat },
    Paragraph { text: Seq<char>, line: nat },
    Image { path: Seq<char>, alt: Seq<char>, line: nat },
    Comment { content: Seq<char>, line: nat },
}

pub open spec fn strings_view(v: Seq<String>) -> Seq<Seq<char>> {
    v.map_values(|s: String| s@)
}

pub open spec fn opt_string_view(o: Option<String>) -> Option<Seq<char>> {
    match o {
        Some(s) => Some(s@),
        None => None,
    }
}

impl View for ModuleDeclaration {
    type V = SpecModuleDecl;

    open spec fn view(&self) -> SpecModuleDecl {
        SpecModuleDecl {
            version: self.version@,
            modules: strings_view(self.modules@),
            line: self.line as nat,
        }
    }
}

impl View for DocumentHeader {
    type V = SpecHeader;

    open spec fn view(&self) -> SpecHeader {
        SpecHeader {
            declarations: self.declarations@.map_values(|d: ModuleDeclaration| d@),
            implement_bugfixsets: self.implement_bugfixsets,
        }
    }
}

pub open spec fn node_view(n: Node) -> SpecNode
    decreases n,
{
    match n {
        Node::Document { header, children } => SpecNode::Document {
            header: header@,
            children: nodes_view(children@),
        },
        Node::Container { id, children, line } => SpecNode::Container {
            id: opt_string_view(id),
            children: nodes_view(children@),
            line: line as nat,
        },
        Node::Section { id, children, line } => SpecNode::Section {
            id: opt_string_view(id),
            children: nodes_view(children@),
            line: line as nat,
        },
        Node::Heading { level, text, line } => SpecNode::Heading {
            level,
            text: text@,
            line: line as nat,
        },
        Node::Paragraph { text, line } => SpecNode::Paragraph { text: text@, line: line as nat },
        Node::Image { path, alt, line } => SpecNode::Image {
            path: path@,
            alt: alt@,
            line: line as nat,
        },
        Node::Comment { content, line } => SpecNode::Comment {
            content: content@,
            line: line as nat,
        },
    }
}

pub open spec fn nodes_view(v: Seq<Node>) -> Seq<SpecNode>
    decreases v,
{
    if v.len() == 0 {
        seq![]
    } else {
        seq![node_view(v[0])] + nodes_view(v.drop_first())
    }
}

impl View for Node {
    type V = SpecNode;

    open spec fn view(&self) -> SpecNode {
        node_view(*self)
    }
}

pub proof fn lemma_nodes_view(v: Seq<Node>)
    ensures
        nodes_view(v).len() == v.len(),
        forall|i: int| 0 <= i < v.len() ==> #[trigger] nodes_view(v)[i] == node_view(v[i]),
    decreases v.len(),
{
    if v.len() > 0 {
        lemma_nodes_view(v.drop_first());
        assert forall|i: int| 0 <= i < v.len() implies #[trigger] nodes_view(v)[i] == node_view(
            v[i],
        ) by {
            if i > 0 {
                assert(v.drop_first()[i - 1] == v[i]);
            }
        }
    }
}

pub proof fn lemma_nodes_view_push(v: Seq<Node>, n: Node)
    ensures
        nodes_view(v.push(n)) == nodes_view(v).push(node_view(n)),
{
    lemma_nodes_view(v);
    lemma_nodes_view(v.push(n));
    assert(nodes_view(v.push(n)) =~= nodes_view(v).push(node_view(n)));
}

// ─── Versions ───────────────────────────────────────────────

#[derive(Debug, Clone)]
pub enum RnmdlVersion {
    GnZ11,
    MilkyWay,
    Sol,
    Luna,
    Andromeda,
    Pallas,
    Halley,
    Ceres,
    Chiron,
    Numeric(String),
    Unknown(String),
}

pub enum SpecVersion {
    GnZ11,
    MilkyWay,
    Sol,
    Luna,
    Andromeda,
    Pallas,
    Halley,
    Ceres,
    Chiron,
    Numeric(Seq<char>),
    Unknown(Seq<char>),
}

impl View for RnmdlVersion {
    type V = SpecVersion;

    open spec fn view(&self) -> SpecVersion {
        match self {
            RnmdlVersion::GnZ11 => SpecVersion::GnZ11,
            RnmdlVersion::MilkyWay => SpecVersion::MilkyWay,
            RnmdlVersion::Sol => SpecVersion::Sol,
            RnmdlVersion::Luna => SpecVersion::Luna,
            RnmdlVersion::Andromeda => SpecVersion::Andromeda,
            RnmdlVersion::Pallas => SpecVersion::Pallas,
            RnmdlVersion::Halley => SpecVersion::Halley,
            RnmdlVersion::Ceres => SpecVersion::Ceres,
            RnmdlVersion::Chiron => SpecVersion::Chiron,
            RnmdlVersion::Numeric(v) => SpecVersion::Numeric(v@),
            RnmdlVersion::Unknown(v) => SpecVersion::Unknown(v@),
        }
    }
}

/// The version a declared name stands for, matched on its lowercase form.
pub open spec fn version_named(l: Seq<char>) -> SpecVersion {
    if l == "gn-z11"@ || l == "gnz11"@ || l == "v0.0.0"@ {
        SpecVersion::GnZ11
    } else if l == "milky-way"@ || l == "milkyway"@ || l == "v1.0.0"@ {
        SpecVersion::MilkyWay
    } else if l == "sol"@ || l == "v1.1.0"@ {
        SpecVersion::Sol
    } else if l == "luna"@ || l == "v1.1.1"@ {
        SpecVersion::Luna
    } else if l == "andromeda"@ || l == "v2.0.0"@ {
        SpecVersion::Andromeda
    } else if l == "pallas"@ {
        SpecVersion::Pallas
    } else if l == "halley"@ {
        SpecVersion::Halley
    } else if l == "ceres"@ {
        SpecVersion::Ceres
    } else if l == "chiron"@ {
        SpecVersion::Chiron
    } else if l.len() > 0 && l[0] == 'v' {
        SpecVersion::Numeric(l)
    } else {
        SpecVersion::Unknown(l)
    }
}

/// The display name of a version.
pub open spec fn version_display(v: SpecVersion) -> Seq<char> {
    match v {
        SpecVersion::GnZ11 => "GN-Z11 (v0.0.0)"@,
        SpecVersion::MilkyWay => "MILKY-WAY (v1.0.0)"@,
        SpecVersion::Sol => "SOL (v1.1.0)"@,
        SpecVersion::Luna => "LUNA (v1.1.1)"@,
        SpecVersion::Andromeda => "ANDROMEDA (v2.0.0)"@,
        SpecVersion::Pallas => "PALLAS (bugfixset)"@,
        SpecVersion::Halley => "HALLEY (bugfixset)"@,
        SpecVersion::Ceres => "CERES (bugfixset)"@,
        SpecVersion::Chiron => "CHIRON (bugfixset)"@,
        SpecVersion::Numeric(v) => v,
        SpecVersion::Unknown(v) => "UNKNOWN("@ + v + ")"@,
    }
}

impl RnmdlVersion {
    /// The version named by `s`, ignoring case.
    pub fn from_str(s: &str) -> (r: Self)
        ensures
            r@ == version_named(unicode_lowercase(s@)),
            is_ascii(s@) ==> r@ == version_named(ascii_lowercase(s@)),
    {
        let lower = to_lowercase(s);
        let l = lower.as_str();
        if str_eq(l, "gn-z11") || str_eq(l, "gnz11") || str_eq(l, "v0.0.0") {
            RnmdlVersion::GnZ11
        } else if str_eq(l, "milky-way") || str_eq(l, "milkyway") || str_eq(l, "v1.0.0") {
            RnmdlVersion::MilkyWay
        } else if str_eq(l, "sol") || str_eq(l, "v1.1.0") {
            RnmdlVersion::Sol
        } else if str_eq(l, "luna") || str_eq(l, "v1.1.1") {
            RnmdlVersion::Luna
        } else if str_eq(l, "andromeda") || str_eq(l, "v2.0.0") {
            RnmdlVersion::Andromeda
        } else if str_eq(l, "pallas") {
            RnmdlVersion::Pallas
        } else if str_eq(l, "halley") {
            RnmdlVersion::Halley
        } else if str_eq(l, "ceres") {
            RnmdlVersion::Ceres
        } else if str_eq(l, "chiron") {
            RnmdlVersion::Chiron
        } else {
            let cs = chars_of(l);
            if cs.len() > 0 && cs[0] == 'v' {
                RnmdlVersion::Numeric(string_of(l))
            } else {
                RnmdlVersion::Unknown(string_of(l))
            }
        }
    }

    /// The name shown to readers, such as "GN-Z11 (v0.0.0)".
    pub fn display_name(&self) -> (r: String)
        ensures
            r@ == version_display(self@),
    {
        match self {
            RnmdlVersion::GnZ11 => string_of("GN-Z11 (v0.0.0)"),
            RnmdlVersion::MilkyWay => string_of("MILKY-WAY (v1.0.0)"),
            RnmdlVersion::Sol => string_of("SOL (v1.1.0)"),
            RnmdlVersion::Luna => string_of("LUNA (v1.1.1)"),
            RnmdlVersion::Andromeda => string_of("ANDROMEDA (v2.0.0)"),
            RnmdlVersion::Pallas => string_of("PALLAS (bugfixset)"),
            RnmdlVersion::Halley => string_of("HALLEY (bugfixset)"),
            RnmdlVersion::Ceres => string_of("CERES (bugfixset)"),
            RnmdlVersion::Chiron => string_of("CHIRON (bugfixset)"),
            RnmdlVersion::Numeric(v) => copy_string(v),
            RnmdlVersion::Unknown(v) => {
                let mut r = string_of("UNKNOWN(");
                append_str(&mut r, v.as_str());
                append_str(&mut r, ")");
                r
            },
        }
    }
}


/// The name a version's display name starts with, before the space.
pub open spec fn version_word(v: SpecVersion) -> Seq<char> {
    match v {
        SpecVersion::GnZ11 => "GN-Z11"@,
        SpecVersion::MilkyWay => "MILKY-WAY"@,
        SpecVersion::Sol => "SOL"@,
        SpecVersion::Luna => "LUNA"@,
        SpecVersion::Andromeda => "ANDROMEDA"@,
        SpecVersion::Pallas => "PALLAS"@,
        SpecVersion::Halley => "HALLEY"@,
        SpecVersion::Ceres => "CERES"@,
        SpecVersion::Chiron => "CHIRON"@,
        _ => seq![],
    }
}

} // verus!
