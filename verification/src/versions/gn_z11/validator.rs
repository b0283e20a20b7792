//! Strict validation rules for GN-Z11 documents.
//!
//! The spec functions below list, in order, the errors a document gets; the
//! set of declared modules and the IDs seen so far are threaded through the
//! document as sequences of names.
use vstd::prelude::*;
use crate::ast::{Node, DocumentHeader, SpecNode, SpecHeader, SpecModuleDecl, node_view, nodes_view, lemma_nodes_view, strings_view};
use crate::text::{trim, unicode_lowercase, unicode_alphanumeric, ascii_alphabetic, utf8_len, decimal, string_of, append_str, append_decimal, str_eq, chars_of, trim_string, to_lowercase, is_ascii_alphabetic, is_alphanumeric, str_utf8_len, copy_string};
use crate::versions::{ValidationError, SpecValidationError, errors_view};
use super::tags::{tag_module, gn_z11_module, module_introduction, tag_introduction, get_tag, is_module, module_introduced_in, tag_introduced_in};

verus! {

pub open spec fn verr(message: Seq<char>, line: nat) -> SpecValidationError {
    SpecValidationError { message, line }
}

// ─── Messages ───────────────────────────────────────────────

pub open spec fn introduced_note(v: Option<Seq<char>>) -> Seq<char> {
    match v {
        Some(x) => " It was introduced in "@ + x + "."@,
        None => " It does not exist in any known version."@,
    }
}

pub open spec fn msg_unknown_module(m: Seq<char>) -> Seq<char> {
    "The declared module '"@ + m + "' does not exist in GN-Z11 (v0.0.0)."@ + introduced_note(
        module_introduction(m),
    )
}

pub open spec fn msg_duplicate_module(m: Seq<char>) -> Seq<char> {
    "The declared module '"@ + m
        + "' is declared more than once. Each module may only be declared from one version."@
}

pub open spec fn msg_no_declaration() -> Seq<char> {
    "Document must have at least one module declaration. Example: 'from gn-z11 declare text, images'"@
}

pub open spec fn msg_unsupported_tag(t: Seq<char>) -> Seq<char> {
    "The declared version GN-Z11 (v0.0.0) does not support tag '["@ + t + "]'."@
        + introduced_note(tag_introduction(t))
}

pub open spec fn msg_undeclared_module(m: Seq<char>, t: Seq<char>) -> Seq<char> {
    "The declared modules do not include '"@ + m + "', which is required by tag '["@ + t
        + "]'. Add 'from gn-z11 declare "@ + m + "' to your document header."@
}

// ─── Header ─────────────────────────────────────────────────

/// Errors and declared set after checking the modules `ms` of one declaration on `line`.
pub open spec fn check_modules(ms: Seq<Seq<char>>, line: nat, declared: Seq<Seq<char>>) -> (
    Seq<SpecValidationError>,
    Seq<Seq<char>>,
)
    decreases ms.len(),
{
    if ms.len() == 0 {
        (seq![], declared)
    } else {
        let m = ms[0];
        let (e1, d1) = if !gn_z11_module(m) {
            (seq![verr(msg_unknown_module(m), line)], declared)
        } else if declared.contains(m) {
            (seq![verr(msg_duplicate_module(m), line)], declared)
        } else {
            (seq![], declared.push(m))
        };
        let (e2, d2) = check_modules(ms.drop_first(), line, d1);
        (e1 + e2, d2)
    }
}

/// Errors and declared set after checking the declarations `ds`.
pub open spec fn check_decls(ds: Seq<SpecModuleDecl>, declared: Seq<Seq<char>>) -> (
    Seq<SpecValidationError>,
    Seq<Seq<char>>,
)
    decreases ds.len(),
{
    if ds.len() == 0 {
        (seq![], declared)
    } else {
        let (e1, d1) = check_modules(ds[0].modules, ds[0].line, declared);
        let (e2, d2) = check_decls(ds.drop_first(), d1);
        (e1 + e2, d2)
    }
}

/// The header's errors and the modules it declares.
pub open spec fn check_header(h: SpecHeader) -> (Seq<SpecValidationError>, Seq<Seq<char>>) {
    if h.declarations.len() == 0 {
        (seq![verr(msg_no_declaration(), 1)], seq![])
    } else {
        check_decls(h.declarations, seq![])
    }
}

// ─── Content ────────────────────────────────────────────────

/// Errors for a use of tag `t` on `line` given the declared modules.
pub open spec fn check_tag(t: Seq<char>, declared: Seq<Seq<char>>, line: nat) -> Seq<
    SpecValidationError,
> {
    match tag_module(t) {
        None => seq![verr(msg_unsupported_tag(t), line)],
        Some(m) => if declared.contains(m) {
            seq![]
        } else {
            seq![verr(msg_undeclared_module(m, t), line)]
        },
    }
}

/// Whether a string of characters is made of letters, digits and hyphens only.
pub open spec fn id_chars_ok(s: Seq<char>) -> bool {
    forall|i: int| 0 <= i < s.len() ==> (unicode_alphanumeric(#[trigger] s[i]) || s[i] == '-')
}

/// Errors for an ID, and the IDs seen after it.
pub open spec fn check_id(id: Option<Seq<char>>, line: nat, ids: Seq<Seq<char>>) -> (
    Seq<SpecValidationError>,
    Seq<Seq<char>>,
) {
    match id {
        None => (seq![], ids),
        Some(s) => {
            let e1 = if s.len() > 0 && ascii_alphabetic(s[0]) {
                seq![]
            } else {
                seq![verr("ID '"@ + s + "' must start with a letter"@, line)]
            };
            let e2 = if id_chars_ok(s) {
                seq![]
            } else {
                seq![
                    verr(
                        "ID '"@ + s
                            + "' contains invalid characters. Only letters, numbers, and hyphens allowed."@,
                        line,
                    ),
                ]
            };
            let e3 = if utf8_len(s) > 64 {
                seq![verr("ID '"@ + s + "' exceeds maximum length of 64 characters"@, line)]
            } else {
                seq![]
            };
            if ids.contains(s) {
                (
                    e1 + e2 + e3 + seq![
                        verr(
                            "Duplicate ID '"@ + s
                                + "'. All IDs must be unique within the document."@,
                            line,
                        ),
                    ],
                    ids,
                )
            } else {
                (e1 + e2 + e3, ids.push(s))
            }
        },
    }
}

/// Alt texts that say nothing about the image.
pub open spec fn generic_alt(alt: Seq<char>) -> bool {
    let l = unicode_lowercase(alt);
    l == "image"@ || l == "photo"@ || l == "picture"@ || l == "pic"@ || l == "img"@ || l
        == "photo here"@ || l == "image here"@ || l == "picture here"@ || l == "screenshot"@ || l
        == "diagram"@ || l == "figure"@ || l == "an image"@ || l == "a photo"@ || l
        == "a picture"@
}

pub open spec fn ends_with(s: Seq<char>, suffix: Seq<char>) -> bool {
    s.len() >= suffix.len() && s.subrange(s.len() - suffix.len(), s.len() as int) == suffix
}

/// Image file names GN-Z11 accepts, ignoring case.
pub open spec fn supported_image(path: Seq<char>) -> bool {
    let l = unicode_lowercase(path);
    ends_with(l, ".jpg"@) || ends_with(l, ".jpeg"@) || ends_with(l, ".png"@) || ends_with(
        l,
        ".gif"@,
    ) || ends_with(l, ".webp"@)
}

/// Errors for an image's attributes.
pub open spec fn check_image(path: Seq<char>, alt: Seq<char>, line: nat) -> Seq<SpecValidationError> {
    let e_path = if trim(path).len() == 0 {
        seq![verr("Image 'path' attribute is required and must not be empty"@, line)]
    } else {
        seq![]
    };
    let a = trim(alt);
    let e_alt = if a.len() == 0 {
        seq![
            verr(
                "Image 'alt' attribute is required. Provide a meaningful description of the image."@,
                line,
            ),
        ]
    } else if a.len() < 5 {
        seq![
            verr(
                "Image alt text '"@ + a
                    + "' is too short (minimum 5 characters). Describe what the image shows."@,
                line,
            ),
        ]
    } else if generic_alt(a) {
        seq![
            verr(
                "Image alt text '"@ + a
                    + "' is not meaningful. Describe the actual image content."@,
                line,
            ),
        ]
    } else {
        seq![]
    };
    let e_ext = if trim(path).len() != 0 && !supported_image(path) {
        seq![
            verr(
                "Image '"@ + path
                    + "' has unsupported format. Supported formats: jpg, jpeg, png, gif, webp"@,
                line,
            ),
        ]
    } else {
        seq![]
    };
    e_path + e_alt + e_ext
}

/// Errors of a node and the IDs seen after it.
pub open spec fn check_node(n: SpecNode, ids: Seq<Seq<char>>, declared: Seq<Seq<char>>) -> (
    Seq<SpecValidationError>,
    Seq<Seq<char>>,
)
    decreases n,
{
    match n {
        SpecNode::Container { id, children, line } => {
            let e1 = check_tag("container"@, declared, line);
            let (e2, i2) = check_id(id, line, ids);
            let (e3, i3) = check_children(children, i2, declared);
            (e1 + e2 + e3, i3)
        },
        SpecNode::Section { id, children, line } => {
            let e1 = check_tag("section"@, declared, line);
            let (e2, i2) = check_id(id, line, ids);
            let (e3, i3) = check_children(children, i2, declared);
            (e1 + e2 + e3, i3)
        },
        SpecNode::Heading { level, text, line } => {
            let e1 = check_tag("h"@ + decimal(level as nat), declared, line);
            let e2 = if level < 1 || level > 3 {
                seq![
                    verr(
                        "Heading level must be 1, 2, or 3. Got '"@ + decimal(level as nat) + "'"@,
                        line,
                    ),
                ]
            } else {
                seq![]
            };
            let e3 = if trim(text).len() == 0 {
                seq![verr("Heading must not be empty"@, line)]
            } else {
                seq![]
            };
            (e1 + e2 + e3, ids)
        },
        SpecNode::Paragraph { text, line } => {
            let e1 = check_tag("paragraph"@, declared, line);
            let e2 = if trim(text).len() == 0 {
                seq![verr("Paragraph must not be empty"@, line)]
            } else {
                seq![]
            };
            (e1 + e2, ids)
        },
        SpecNode::Image { path, alt, line } => (
            check_tag("image"@, declared, line) + check_image(path, alt, line),
            ids,
        ),
        SpecNode::Comment { .. } => (seq![], ids),
        SpecNode::Document { .. } => (seq![verr("Nested document nodes are not allowed"@, 0)], ids),
    }
}

/// Errors of a list of nodes, in order, and the IDs seen after them.
pub open spec fn check_children(cs: Seq<SpecNode>, ids: Seq<Seq<char>>, declared: Seq<Seq<char>>) -> (
    Seq<SpecValidationError>,
    Seq<Seq<char>>,
)
    decreases cs,
{
    if cs.len() == 0 {
        (seq![], ids)
    } else {
        let (e1, i1) = check_node(cs[0], ids, declared);
        let (e2, i2) = check_children(cs.drop_first(), i1, declared);
        (e1 + e2, i2)
    }
}

/// All GN-Z11 errors of a document, in the order they are reported.
pub open spec fn validate_spec(n: SpecNode) -> Seq<SpecValidationError> {
    match n {
        SpecNode::Document { header, children } => {
            let (e1, declared) = check_header(header);
            let (e2, _) = check_children(children, seq![], declared);
            e1 + e2
        },
        _ => seq![verr("Root node must be a Document"@, 0)],
    }
}

// ─── Executable ─────────────────────────────────────────────

fn contains_str(v: &Vec<String>, s: &str) -> (r: bool)
    ensures
        r == strings_view(v@).contains(s@),
{
    let mut i: usize = 0;
    while i < v.len()
        invariant
            i <= v.len(),
            forall|k: int| 0 <= k < i ==> #[trigger] v@[k]@ != s@,
        decreases v.len() - i,
    {
        if str_eq(v[i].as_str(), s) {
            assert(strings_view(v@)[i as int] == s@);
            return true;
        }
        i = i + 1;
    }
    assert forall|k: int| 0 <= k < strings_view(v@).len() implies strings_view(v@)[k] != s@ by {
        assert(strings_view(v@)[k] == v@[k]@);
    }
    false
}

fn push_error(errors: &mut Vec<ValidationError>, message: String, line: usize)
    ensures
        errors_view(final(errors)@) == errors_view(old(errors)@).push(verr(message@, line as nat)),
{
    let e = ValidationError::new(message, line);
    let ghost ev = e@;
    errors.push(e);
    assert(errors_view(errors@) =~= errors_view(old(errors)@).push(ev));
}

fn push_string(v: &mut Vec<String>, s: String)
    ensures
        strings_view(final(v)@) == strings_view(old(v)@).push(s@),
{
    let ghost sv = s@;
    v.push(s);
    assert(strings_view(v@) =~= strings_view(old(v)@).push(sv));
}

fn introduced_suffix(v: Option<&'static str>) -> (r: String)
    ensures
        r@ == introduced_note(
            match v {
                Some(x) => Some(x@),
                None => None,
            },
        ),
{
    match v {
        Some(x) => {
            let mut r = string_of(" It was introduced in ");
            append_str(&mut r, x);
            append_str(&mut r, ".");
            r
        },
        None => string_of(" It does not exist in any known version."),
    }
}

fn check_modules_exec(
    modules: &Vec<String>,
    line: usize,
    errors: &mut Vec<ValidationError>,
    declared: &mut Vec<String>,
)
    ensures
        ({
            let (e, d) = check_modules(
                strings_view(modules@),
                line as nat,
                strings_view(old(declared)@),
            );
            &&& errors_view(final(errors)@) == errors_view(old(errors)@) + e
            &&& strings_view(final(declared)@) == d
        }),
{
    let ghost ms = strings_view(modules@);
    let ghost e0 = errors_view(errors@);
    let ghost all = check_modules(ms, line as nat, strings_view(declared@));
    let mut i: usize = 0;
    assert(ms.skip(0) =~= ms);
    assert(errors_view(errors@).skip(e0.len() as int) + all.0 =~= all.0);
    assert(errors_view(errors@).take(e0.len() as int) =~= e0);
    while i < modules.len()
        invariant
            i <= modules.len(),
            ms == strings_view(modules@),
            ({
                let rest = check_modules(ms.skip(i as int), line as nat, strings_view(declared@));
                &&& all.0 == errors_view(errors@).skip(e0.len() as int) + rest.0
                &&& all.1 == rest.1
                &&& errors_view(errors@).len() >= e0.len()
                &&& errors_view(errors@).take(e0.len() as int) == e0
            }),
        decreases modules.len() - i,
    {
        let m = &modules[i];
        let ghost mv = m@;
        let ghost before = errors_view(errors@);
        let ghost d0 = strings_view(declared@);
        proof {
            assert(ms.skip(i as int)[0] == mv);
            assert(ms.skip(i as int).drop_first() =~= ms.skip(i + 1));
        }
        if !is_module(m.as_str()) {
            let mut msg = string_of("The declared module '");
            append_str(&mut msg, m.as_str());
            append_str(&mut msg, "' does not exist in GN-Z11 (v0.0.0).");
            let suffix = introduced_suffix(module_introduced_in(m.as_str()));
            append_str(&mut msg, suffix.as_str());
            push_error(errors, msg, line);
        } else if contains_str(declared, m.as_str()) {
            let mut msg = string_of("The declared module '");
            append_str(&mut msg, m.as_str());
            append_str(
                &mut msg,
                "' is declared more than once. Each module may only be declared from one version.",
            );
            push_error(errors, msg, line);
        } else {
            push_string(declared, copy_string(m));
        }
        proof {
            let added = errors_view(errors@).skip(before.len() as int);
            assert(errors_view(errors@).skip(e0.len() as int) =~= before.skip(e0.len() as int)
                + added);
            assert(errors_view(errors@).take(e0.len() as int) =~= e0);
        }
        i = i + 1;
        proof {
            let rest = check_modules(ms.skip(i as int), line as nat, strings_view(declared@));
            assert(errors_view(errors@).skip(e0.len() as int) + rest.0 =~= before.skip(
                e0.len() as int,
            ) + check_modules(ms.skip(i - 1), line as nat, d0).0);
        }
    }
    proof {
        assert(ms.skip(i as int) =~= seq![]);
        assert(errors_view(errors@) =~= e0 + errors_view(errors@).skip(e0.len() as int));
    }
}

fn validate_header(header: &DocumentHeader, errors: &mut Vec<ValidationError>) -> (r: Vec<String>)
    ensures
        ({
            let (e, d) = check_header(header@);
            &&& errors_view(final(errors)@) == errors_view(old(errors)@) + e
            &&& strings_view(r@) == d
        }),
{
    let mut declared: Vec<String> = Vec::new();
    if header.declarations.len() == 0 {
        push_error(
            errors,
            string_of(
                "Document must have at least one module declaration. Example: 'from gn-z11 declare text, images'",
            ),
            1,
        );
        assert(strings_view(declared@) =~= seq![]);
        return declared;
    }
    let ghost ds = header@.declarations;
    let ghost e0 = errors_view(errors@);
    let ghost all = check_decls(ds, seq![]);
    assert(strings_view(declared@) =~= seq![]);
    let mut i: usize = 0;
    assert(ds.skip(0) =~= ds);
    assert(errors_view(errors@).skip(e0.len() as int) + all.0 =~= all.0);
    assert(errors_view(errors@).take(e0.len() as int) =~= e0);
    while i < header.declarations.len()
        invariant
            i <= header.declarations.len(),
            ds == header@.declarations,
            ds.len() == header.declarations.len(),
            ({
                let rest = check_decls(ds.skip(i as int), strings_view(declared@));
                &&& all.0 == errors_view(errors@).skip(e0.len() as int) + rest.0
                &&& all.1 == rest.1
                &&& errors_view(errors@).len() >= e0.len()
                &&& errors_view(errors@).take(e0.len() as int) == e0
            }),
        decreases header.declarations.len() - i,
    {
        let decl = &header.declarations[i];
        let ghost before = errors_view(errors@);
        let ghost d0 = strings_view(declared@);
        proof {
            assert(ds.skip(i as int)[0] == decl@);
            assert(ds.skip(i as int).drop_first() =~= ds.skip(i + 1));
        }
        check_modules_exec(&decl.modules, decl.line, errors, &mut declared);
        proof {
            assert(errors_view(errors@).skip(e0.len() as int) =~= before.skip(e0.len() as int)
                + errors_view(errors@).skip(before.len() as int));
            assert(errors_view(errors@).take(e0.len() as int) =~= e0);
        }
        i = i + 1;
        proof {
            let rest = check_decls(ds.skip(i as int), strings_view(declared@));
            assert(errors_view(errors@).skip(e0.len() as int) + rest.0 =~= before.skip(
                e0.len() as int,
            ) + check_decls(ds.skip(i - 1), d0).0);
        }
    }
    proof {
        assert(ds.skip(i as int) =~= seq![]);
        assert(errors_view(errors@) =~= e0 + errors_view(errors@).skip(e0.len() as int));
    }
    declared
}

fn check_tag_exec(
    tag_name: &str,
    declared: &Vec<String>,
    line: usize,
    errors: &mut Vec<ValidationError>,
)
    ensures
        errors_view(final(errors)@) == errors_view(old(errors)@) + check_tag(
            tag_name@,
            strings_view(declared@),
            line as nat,
        ),
{
    match get_tag(tag_name) {
        None => {
            let mut msg = string_of("The declared version GN-Z11 (v0.0.0) does not support tag '[");
            append_str(&mut msg, tag_name);
            append_str(&mut msg, "]'.");
            let suffix = introduced_suffix(tag_introduced_in(tag_name));
            append_str(&mut msg, suffix.as_str());
            push_error(errors, msg, line);
            assert(errors_view(errors@) =~= errors_view(old(errors)@) + check_tag(
                tag_name@,
                strings_view(declared@),
                line as nat,
            ));
        },
        Some(info) => {
            if !contains_str(declared, info.module) {
                let mut msg = string_of("The declared modules do not include '");
                append_str(&mut msg, info.module);
                append_str(&mut msg, "', which is required by tag '[");
                append_str(&mut msg, tag_name);
                append_str(&mut msg, "]'. Add 'from gn-z11 declare ");
                append_str(&mut msg, info.module);
                append_str(&mut msg, "' to your document header.");
                push_error(errors, msg, line);
                assert(errors_view(errors@) =~= errors_view(old(errors)@) + check_tag(
                    tag_name@,
                    strings_view(declared@),
                    line as nat,
                ));
            } else {
                assert(errors_view(errors@) =~= errors_view(old(errors)@) + check_tag(
                    tag_name@,
                    strings_view(declared@),
                    line as nat,
                ));
            }
        },
    }
}

fn msg_id(a: &str, id: &str, b: &str) -> (r: String)
    ensures
        r@ == a@ + id@ + b@,
{
    let mut m = string_of(a);
    append_str(&mut m, id);
    append_str(&mut m, b);
    m
}

fn validate_id(
    id: &Option<String>,
    line: usize,
    errors: &mut Vec<ValidationError>,
    ids: &mut Vec<String>,
)
    ensures
        ({
            let (e, i) = check_id(
                match id {
                    Some(s) => Some(s@),
                    None => None,
                },
                line as nat,
                strings_view(old(ids)@),
            );
            &&& errors_view(final(errors)@) == errors_view(old(errors)@) + e
            &&& strings_view(final(ids)@) == i
        }),
{
    match id {
        None => {
            assert(errors_view(errors@) =~= errors_view(old(errors)@) + seq![]);
        },
        Some(id_str) => {
            let s = id_str.as_str();
            let cs = chars_of(s);
            let ghost e0 = errors_view(errors@);
            if !(cs.len() > 0 && is_ascii_alphabetic(cs[0])) {
                push_error(errors, msg_id("ID '", s, "' must start with a letter"), line);
            }
            let ghost e1 = errors_view(errors@);
            let mut ok = true;
            let mut k: usize = 0;
            while k < cs.len()
                invariant
                    k <= cs.len(),
                    cs@ == s@,
                    ok == (forall|j: int|
                        0 <= j < k ==> (unicode_alphanumeric(#[trigger] cs@[j]) || cs@[j] == '-')),
                decreases cs.len() - k,
            {
                let c = cs[k];
                if !(is_alphanumeric(c) || c == '-') {
                    ok = false;
                }
                k = k + 1;
            }
            if !ok {
                push_error(
                    errors,
                    msg_id(
                        "ID '",
                        s,
                        "' contains invalid characters. Only letters, numbers, and hyphens allowed.",
                    ),
                    line,
                );
            }
            let ghost e2 = errors_view(errors@);
            let long = if cs.len() > 64 {
                true
            } else {
                proof {
                    crate::text::lemma_utf8_len_bounds(s@);
                }
                str_utf8_len(s) > 64
            };
            proof {
                crate::text::lemma_utf8_len_bounds(s@);
            }
            if long {
                push_error(
                    errors,
                    msg_id("ID '", s, "' exceeds maximum length of 64 characters"),
                    line,
                );
            }
            let ghost e3 = errors_view(errors@);
            if contains_str(ids, s) {
                push_error(
                    errors,
                    msg_id("Duplicate ID '", s, "'. All IDs must be unique within the document."),
                    line,
                );
            } else {
                push_string(ids, copy_string(id_str));
            }
            proof {
                let (e, i) = check_id(Some(s@), line as nat, strings_view(old(ids)@));
                assert(errors_view(errors@) =~= errors_view(old(errors)@) + e);
            }
        },
    }
}

fn is_generic_alt(alt: &str) -> (b: bool)
    ensures
        b == generic_alt(alt@),
{
    let lower = to_lowercase(alt);
    let l = lower.as_str();
    str_eq(l, "image") || str_eq(l, "photo") || str_eq(l, "picture") || str_eq(l, "pic") || str_eq(
        l,
        "img",
    ) || str_eq(l, "photo here") || str_eq(l, "image here") || str_eq(l, "picture here")
        || str_eq(l, "screenshot") || str_eq(l, "diagram") || str_eq(l, "figure") || str_eq(
        l,
        "an image",
    ) || str_eq(l, "a photo") || str_eq(l, "a picture")
}

fn ends_with_exec(s: &Vec<char>, suffix: &str) -> (b: bool)
    ensures
        b == ends_with(s@, suffix@),
{
    let suf = chars_of(suffix);
    if s.len() < suf.len() {
        return false;
    }
    let off = s.len() - suf.len();
    let mut k: usize = 0;
    while k < suf.len()
        invariant
            suf@ == suffix@,
            off + suf.len() == s.len(),
            k <= suf.len(),
            forall|j: int| 0 <= j < k ==> s@[off + j] == suf@[j],
        decreases suf.len() - k,
    {
        if s[off + k] != suf[k] {
            assert(s@.subrange(off as int, s.len() as int)[k as int] != suffix@[k as int]);
            return false;
        }
        k = k + 1;
    }
    assert(s@.subrange(off as int, s.len() as int) =~= suffix@);
    true
}

fn check_image_exec(path: &String, alt: &String, line: usize, errors: &mut Vec<ValidationError>)
    ensures
        errors_view(final(errors)@) == errors_view(old(errors)@) + check_image(
            path@,
            alt@,
            line as nat,
        ),
{
    let path_trimmed = trim_string(path.as_str());
    let path_blank = path_trimmed.as_str().is_empty();
    if path_blank {
        push_error(
            errors,
            string_of("Image 'path' attribute is required and must not be empty"),
            line,
        );
    }
    let ghost e1 = errors_view(errors@);
    let a = trim_string(alt.as_str());
    let at = a.as_str();
    if at.is_empty() {
        push_error(
            errors,
            string_of(
                "Image 'alt' attribute is required. Provide a meaningful description of the image.",
            ),
            line,
        );
    } else {
        let short = chars_of(at).len() < 5;
        if short {
            push_error(
                errors,
                msg_id(
                    "Image alt text '",
                    at,
                    "' is too short (minimum 5 characters). Describe what the image shows.",
                ),
                line,
            );
        } else if is_generic_alt(at) {
            push_error(
                errors,
                msg_id(
                    "Image alt text '",
                    at,
                    "' is not meaningful. Describe the actual image content.",
                ),
                line,
            );
        }
    }
    let ghost e2 = errors_view(errors@);
    let lower = chars_of(to_lowercase(path.as_str()).as_str());
    let valid_ext = ends_with_exec(&lower, ".jpg") || ends_with_exec(&lower, ".jpeg")
        || ends_with_exec(&lower, ".png") || ends_with_exec(&lower, ".gif") || ends_with_exec(
        &lower,
        ".webp",
    );
    if !path_blank && !valid_ext {
        push_error(
            errors,
            msg_id(
                "Image '",
                path.as_str(),
                "' has unsupported format. Supported formats: jpg, jpeg, png, gif, webp",
            ),
            line,
        );
    }
    assert(errors_view(errors@) =~= errors_view(old(errors)@) + check_image(
        path@,
        alt@,
        line as nat,
    ));
}

fn heading_tag(level: u8) -> (r: String)
    ensures
        r@ == "h"@ + decimal(level as nat),
{
    let mut t = string_of("h");
    append_decimal(&mut t, level as usize);
    t
}

#[verifier::rlimit(40)]
fn validate_node(
    node: &Node,
    errors: &mut Vec<ValidationError>,
    ids: &mut Vec<String>,
    declared: &Vec<String>,
)
    ensures
        ({
            let (e, i) = check_node(node@, strings_view(old(ids)@), strings_view(declared@));
            &&& errors_view(final(errors)@) == errors_view(old(errors)@) + e
            &&& strings_view(final(ids)@) == i
        }),
    decreases node,
{
    let ghost e0 = errors_view(errors@);
    let ghost i0 = strings_view(ids@);
    let ghost d = strings_view(declared@);
    match node {
        Node::Container { id, children, line } => {
            check_tag_exec("container", declared, *line, errors);
            let ghost e1 = errors_view(errors@);
            validate_id(id, *line, errors, ids);
            let ghost e2 = errors_view(errors@);
            validate_children(children, errors, ids, declared);
            proof {
                let (x2, i2) = check_id(crate::ast::opt_string_view(*id), *line as nat, i0);
                let (x3, i3) = check_children(nodes_view(children@), i2, d);
                assert(errors_view(errors@) =~= e0 + (check_tag("container"@, d, *line as nat)
                    + x2 + x3));
            }
        },
        Node::Section { id, children, line } => {
            check_tag_exec("section", declared, *line, errors);
            validate_id(id, *line, errors, ids);
            validate_children(children, errors, ids, declared);
            proof {
                let (x2, i2) = check_id(crate::ast::opt_string_view(*id), *line as nat, i0);
                let (x3, i3) = check_children(nodes_view(children@), i2, d);
                assert(errors_view(errors@) =~= e0 + (check_tag("section"@, d, *line as nat) + x2
                    + x3));
            }
        },
        Node::Heading { level, text, line } => {
            let tag = heading_tag(*level);
            check_tag_exec(tag.as_str(), declared, *line, errors);
            if *level < 1 || *level > 3 {
                let mut msg = string_of("Heading level must be 1, 2, or 3. Got '");
                append_decimal(&mut msg, *level as usize);
                append_str(&mut msg, "'");
                push_error(errors, msg, *line);
            }
            let t = trim_string(text.as_str());
            if t.as_str().is_empty() {
                push_error(errors, string_of("Heading must not be empty"), *line);
            }
            proof {
                assert(errors_view(errors@) =~= e0 + check_node(node@, i0, d).0);
            }
        },
        Node::Paragraph { text, line } => {
            check_tag_exec("paragraph", declared, *line, errors);
            let t = trim_string(text.as_str());
            if t.as_str().is_empty() {
                push_error(errors, string_of("Paragraph must not be empty"), *line);
            }
            proof {
                assert(errors_view(errors@) =~= e0 + check_node(node@, i0, d).0);
            }
        },
        Node::Image { path, alt, line } => {
            check_tag_exec("image", declared, *line, errors);
            check_image_exec(path, alt, *line, errors);
            proof {
                assert(errors_view(errors@) =~= e0 + check_node(node@, i0, d).0);
            }
        },
        Node::Comment { .. } => {
            assert(errors_view(errors@) =~= e0 + seq![]);
        },
        Node::Document { .. } => {
            push_error(errors, string_of("Nested document nodes are not allowed"), 0);
        },
    }
}

fn validate_children(
    children: &Vec<Node>,
    errors: &mut Vec<ValidationError>,
    ids: &mut Vec<String>,
    declared: &Vec<String>,
)
    ensures
        ({
            let (e, i) = check_children(
                nodes_view(children@),
                strings_view(old(ids)@),
                strings_view(declared@),
            );
            &&& errors_view(final(errors)@) == errors_view(old(errors)@) + e
            &&& strings_view(final(ids)@) == i
        }),
    decreases children,
{
    let ghost cs = nodes_view(children@);
    let ghost d = strings_view(declared@);
    let ghost e0 = errors_view(errors@);
    let ghost all = check_children(cs, strings_view(ids@), d);
    proof {
        lemma_nodes_view(children@);
    }
    let mut i: usize = 0;
    assert(cs.skip(0) =~= cs);
    assert(errors_view(errors@).skip(e0.len() as int) + all.0 =~= all.0);
    assert(errors_view(errors@).take(e0.len() as int) =~= e0);
    while i < children.len()
        invariant
            i <= children.len(),
            cs == nodes_view(children@),
            cs.len() == children.len(),
            d == strings_view(declared@),
            forall|k: int| 0 <= k < children.len() ==> #[trigger] cs[k] == node_view(children@[k]),
            ({
                let rest = check_children(cs.skip(i as int), strings_view(ids@), d);
                &&& all.0 == errors_view(errors@).skip(e0.len() as int) + rest.0
                &&& all.1 == rest.1
                &&& errors_view(errors@).len() >= e0.len()
                &&& errors_view(errors@).take(e0.len() as int) == e0
            }),
        decreases children.len() - i,
    {
        let ghost before = errors_view(errors@);
        let ghost i0 = strings_view(ids@);
        proof {
            assert(cs.skip(i as int)[0] == cs[i as int]);
            assert(cs.skip(i as int).drop_first() =~= cs.skip(i + 1));
        }
        validate_node(&children[i], errors, ids, declared);
        proof {
            assert(errors_view(errors@).skip(e0.len() as int) =~= before.skip(e0.len() as int)
                + errors_view(errors@).skip(before.len() as int));
            assert(errors_view(errors@).take(e0.len() as int) =~= e0);
        }
        i = i + 1;
        proof {
            let rest = check_children(cs.skip(i as int), strings_view(ids@), d);
            assert(errors_view(errors@).skip(e0.len() as int) + rest.0 =~= before.skip(
                e0.len() as int,
            ) + check_children(cs.skip(i - 1), i0, d).0);
        }
    }
    proof {
        assert(cs.skip(i as int) =~= seq![]);
        assert(errors_view(errors@) =~= e0 + errors_view(errors@).skip(e0.len() as int));
    }
}

/// All GN-Z11 errors of a document, in order; empty when it is valid.
pub fn validate(document: &Node) -> (r: Vec<ValidationError>)
    ensures
        errors_view(r@) == validate_spec(document@),
{
    let mut errors: Vec<ValidationError> = Vec::new();
    assert(errors_view(errors@) =~= seq![]);
    match document {
        Node::Document { header, children } => {
            let declared = validate_header(header, &mut errors);
            let mut ids: Vec<String> = Vec::new();
            assert(strings_view(ids@) =~= seq![]);
            validate_children(children, &mut errors, &mut ids, &declared);
        },
        _ => {
            push_error(&mut errors, string_of("Root node must be a Document"), 0);
        },
    }
    errors
}

} // verus!
