//! The GN-Z11 tag registry: which tags exist, which module each needs, and
//! which version introduced each tag and module. Frozen at GN-Z11.
use vstd::prelude::*;
use crate::text::str_eq;

verus! {

/// A tag available in this version.
#[derive(Debug, Clone, Copy)]
pub struct TagInfo {
    /// The tag name as it appears in the document, e.g. "h1".
    pub name: &'static str,
    /// The module that must be declared to use this tag.
    pub module: &'static str,
}

/// The module a GN-Z11 tag belongs to; `None` for a tag GN-Z11 does not have.
pub open spec fn tag_module(name: Seq<char>) -> Option<Seq<char>> {
    if name == "container"@ || name == "section"@ || name == "h1"@ || name == "h2"@ || name
        == "h3"@ || name == "heading"@ || name == "paragraph"@ || name == "p"@ {
        Some("text"@)
    } else if name == "image"@ {
        Some("images"@)
    } else {
        None
    }
}

/// Whether a module exists in GN-Z11.
pub open spec fn gn_z11_module(m: Seq<char>) -> bool {
    m == "text"@ || m == "images"@
}

/// The version that introduced a module, for error messages.
pub open spec fn module_introduction(m: Seq<char>) -> Option<Seq<char>> {
    if m == "text"@ || m == "images"@ {
        Some("GN-Z11 (v0.0.0)"@)
    } else if m == "links"@ || m == "lists"@ || m == "tables"@ {
        Some("MILKY-WAY (v1.0.0)"@)
    } else if m == "styling"@ || m == "layout"@ {
        Some("SOL (v1.1.0)"@)
    } else if m == "forms"@ {
        Some("LUNA (v1.1.1)"@)
    } else if m == "embeds"@ {
        Some("ANDROMEDA (v2.0.0)"@)
    } else {
        None
    }
}

/// The version that introduced a tag, for error messages.
pub open spec fn tag_introduction(t: Seq<char>) -> Option<Seq<char>> {
    if tag_module(t) is Some {
        Some("GN-Z11 (v0.0.0)"@)
    } else if t == "link"@ || t == "ul"@ || t == "ol"@ || t == "li"@ || t == "table"@ || t
        == "tr"@ || t == "td"@ || t == "th"@ {
        Some("MILKY-WAY (v1.0.0)"@)
    } else {
        None
    }
}

fn tag(name: &'static str, module: &'static str) -> (t: TagInfo)
    ensures
        t.name@ == name@,
        t.module@ == module@,
{
    TagInfo { name, module }
}

/// Look up a tag by name; `None` when GN-Z11 does not have it.
pub fn get_tag(name: &str) -> (r: Option<TagInfo>)
    ensures
        match tag_module(name@) {
            Some(m) => r matches Some(t) && t.name@ == name@ && t.module@ == m,
            None => r is None,
        },
{
    if str_eq(name, "container") {
        Some(tag("container", "text"))
    } else if str_eq(name, "section") {
        Some(tag("section", "text"))
    } else if str_eq(name, "h1") {
        Some(tag("h1", "text"))
    } else if str_eq(name, "h2") {
        Some(tag("h2", "text"))
    } else if str_eq(name, "h3") {
        Some(tag("h3", "text"))
    } else if str_eq(name, "heading") {
        Some(tag("heading", "text"))
    } else if str_eq(name, "paragraph") {
        Some(tag("paragraph", "text"))
    } else if str_eq(name, "p") {
        Some(tag("p", "text"))
    } else if str_eq(name, "image") {
        Some(tag("image", "images"))
    } else {
        None
    }
}

/// Whether a module exists in GN-Z11.
pub fn is_module(m: &str) -> (b: bool)
    ensures
        b == gn_z11_module(m@),
{
    str_eq(m, "text") || str_eq(m, "images")
}

/// The version that introduced a module.
pub fn module_introduced_in(module: &str) -> (r: Option<&'static str>)
    ensures
        match module_introduction(module@) {
            Some(v) => r matches Some(s) && s@ == v,
            None => r is None,
        },
{
    if str_eq(module, "text") || str_eq(module, "images") {
        Some("GN-Z11 (v0.0.0)")
    } else if str_eq(module, "links") || str_eq(module, "lists") || str_eq(module, "tables") {
        Some("MILKY-WAY (v1.0.0)")
    } else if str_eq(module, "styling") || str_eq(module, "layout") {
        Some("SOL (v1.1.0)")
    } else if str_eq(module, "forms") {
        Some("LUNA (v1.1.1)")
    } else if str_eq(module, "embeds") {
        Some("ANDROMEDA (v2.0.0)")
    } else {
        None
    }
}

/// The version that introduced a tag.
pub fn tag_introduced_in(t: &str) -> (r: Option<&'static str>)
    ensures
        match tag_introduction(t@) {
            Some(v) => r matches Some(s) && s@ == v,
            None => r is None,
        },
{
    if get_tag(t).is_some() {
        Some("GN-Z11 (v0.0.0)")
    } else if str_eq(t, "link") || str_eq(t, "ul") || str_eq(t, "ol") || str_eq(t, "li")
        || str_eq(t, "table") || str_eq(t, "tr") || str_eq(t, "td") || str_eq(t, "th") {
        Some("MILKY-WAY (v1.0.0)")
    } else {
        None
    }
}

} // verus!
