//! The GN-Z11 rules as properties of a document, and the proof that a document the
//! validator finds no fault with has them.
use vstd::prelude::*;
use crate::ast::{SpecNode, SpecModuleDecl, SpecVersion};
use crate::versions::{SpecValidationError, declared_version};
use crate::text::{trim, ascii_alphabetic, utf8_len, decimal};
use super::tags::{tag_module, gn_z11_module};
use super::validator::{
    check_modules, check_decls, check_tag, check_id, check_node, check_children, id_chars_ok, generic_alt,
    supported_image, validate_spec,
};

verus! {

/// The modules of the declarations `ds`, in order.
pub open spec fn all_modules(ds: Seq<SpecModuleDecl>) -> Seq<Seq<char>>
    decreases ds.len(),
{
    if ds.len() == 0 {
        seq![]
    } else {
        ds[0].modules + all_modules(ds.drop_first())
    }
}

/// Tag `t` exists in GN-Z11 and its module is declared.
pub open spec fn tag_allowed(t: Seq<char>, declared: Seq<Seq<char>>) -> bool {
    tag_module(t) matches Some(m) && declared.contains(m)
}

/// An ID, when there is one, starts with a letter, holds only letters, digits and hyphens,
/// and is at most 64 bytes long in UTF-8.
pub open spec fn id_allowed(id: Option<Seq<char>>) -> bool {
    id matches Some(s) ==> s.len() > 0 && ascii_alphabetic(s[0]) && id_chars_ok(s) && utf8_len(s) <= 64
}

/// The rules on one node and everything in it: tags of declared modules, headings of level
/// 1 to 3 and paragraphs with text, images with a path of a supported format and an alt text
/// of at least five characters that says something, well-formed IDs, and no document inside.
pub open spec fn node_allowed(n: SpecNode, declared: Seq<Seq<char>>) -> bool
    decreases n,
{
    match n {
        SpecNode::Container { id, children, .. } => tag_allowed("container"@, declared) && id_allowed(id)
            && children_allowed(children, declared),
        SpecNode::Section { id, children, .. } => tag_allowed("section"@, declared) && id_allowed(id)
            && children_allowed(children, declared),
        SpecNode::Heading { level, text, .. } => tag_allowed("h"@ + decimal(level as nat), declared) && 1
            <= level <= 3 && trim(text).len() > 0,
        SpecNode::Paragraph { text, .. } => tag_allowed("paragraph"@, declared) && trim(text).len() > 0,
        SpecNode::Image { path, alt, .. } => tag_allowed("image"@, declared) && trim(path).len() > 0
            && trim(alt).len() >= 5 && !generic_alt(trim(alt)) && supported_image(path),
        SpecNode::Comment { .. } => true,
        SpecNode::Document { .. } => false,
    }
}

pub open spec fn children_allowed(cs: Seq<SpecNode>, declared: Seq<Seq<char>>) -> bool
    decreases cs,
{
    if cs.len() == 0 {
        true
    } else {
        node_allowed(cs[0], declared) && children_allowed(cs.drop_first(), declared)
    }
}

/// The IDs of a node and everything in it, in document order.
pub open spec fn node_ids(n: SpecNode) -> Seq<Seq<char>>
    decreases n,
{
    match n {
        SpecNode::Container { id, children, .. } => match id {
            Some(s) => seq![s] + children_ids(children),
            None => children_ids(children),
        },
        SpecNode::Section { id, children, .. } => match id {
            Some(s) => seq![s] + children_ids(children),
            None => children_ids(children),
        },
        _ => seq![],
    }
}

pub open spec fn children_ids(cs: Seq<SpecNode>) -> Seq<Seq<char>>
    decreases cs,
{
    if cs.len() == 0 {
        seq![]
    } else {
        node_ids(cs[0]) + children_ids(cs.drop_first())
    }
}

/// Checking modules without error declares them all, each once, after `declared`.
pub proof fn lemma_modules_clean(ms: Seq<Seq<char>>, line: nat, declared: Seq<Seq<char>>)
    requires
        declared.no_duplicates(),
        check_modules(ms, line, declared).0.len() == 0,
    ensures
        check_modules(ms, line, declared).1 == declared + ms,
        (declared + ms).no_duplicates(),
        forall|i: int| 0 <= i < ms.len() ==> gn_z11_module(#[trigger] ms[i]),
    decreases ms.len(),
{
    if ms.len() > 0 {
        let m = ms[0];
        let d1 = declared.push(m);
        let rest = ms.drop_first();
        assert(gn_z11_module(m) && !declared.contains(m));
        assert(d1.no_duplicates()) by {
            assert forall|i: int, j: int| 0 <= i < d1.len() && 0 <= j < d1.len() && i != j implies d1[i]
                != d1[j] by {
                if i == declared.len() as int {
                    assert(d1[j] == declared[j]);
                } else if j == declared.len() as int {
                    assert(d1[i] == declared[i]);
                }
            }
        }
        lemma_modules_clean(rest, line, d1);
        assert(d1 + rest =~= declared + ms);
        assert forall|i: int| 0 <= i < ms.len() implies gn_z11_module(#[trigger] ms[i]) by {
            if i > 0 {
                assert(ms[i] == rest[i - 1]);
            }
        }
    } else {
        assert(declared + ms =~= declared);
    }
}

/// Checking declarations without error declares all their modules, each once.
pub proof fn lemma_decls_clean(ds: Seq<SpecModuleDecl>, declared: Seq<Seq<char>>)
    requires
        declared.no_duplicates(),
        check_decls(ds, declared).0.len() == 0,
    ensures
        check_decls(ds, declared).1 == declared + all_modules(ds),
        (declared + all_modules(ds)).no_duplicates(),
        forall|i: int| 0 <= i < all_modules(ds).len() ==> gn_z11_module(#[trigger] all_modules(ds)[i]),
    decreases ds.len(),
{
    if ds.len() > 0 {
        let ms = ds[0].modules;
        lemma_modules_clean(ms, ds[0].line, declared);
        let d1 = declared + ms;
        lemma_decls_clean(ds.drop_first(), d1);
        let rest = all_modules(ds.drop_first());
        assert(d1 + rest =~= declared + all_modules(ds));
        assert forall|i: int| 0 <= i < all_modules(ds).len() implies gn_z11_module(
            #[trigger] all_modules(ds)[i],
        ) by {
            if i < ms.len() {
                assert(all_modules(ds)[i] == ms[i]);
            } else {
                assert(all_modules(ds)[i] == rest[i - ms.len()]);
            }
        }
    } else {
        assert(declared + all_modules(ds) =~= declared);
    }
}

proof fn lemma_push_distinct(ids: Seq<Seq<char>>, s: Seq<char>)
    requires
        ids.no_duplicates(),
        !ids.contains(s),
    ensures
        ids.push(s).no_duplicates(),
{
    let d = ids.push(s);
    assert forall|i: int, j: int| 0 <= i < d.len() && 0 <= j < d.len() && i != j implies d[i] != d[j] by {
        if i == ids.len() as int {
            assert(d[j] == ids[j]);
        } else if j == ids.len() as int {
            assert(d[i] == ids[i]);
        }
    }
}

/// An ID checked without error is well formed and new, and joins the IDs seen.
proof fn lemma_id_clean(id: Option<Seq<char>>, line: nat, ids: Seq<Seq<char>>)
    requires
        ids.no_duplicates(),
        check_id(id, line, ids).0.len() == 0,
    ensures
        id_allowed(id),
        check_id(id, line, ids).1 == ids + match id {
            Some(s) => seq![s],
            None => Seq::<Seq<char>>::empty(),
        },
        check_id(id, line, ids).1.no_duplicates(),
{
    match id {
        Some(s) => {
            assert(!ids.contains(s));
            lemma_push_distinct(ids, s);
            assert(ids.push(s) =~= ids + seq![s]);
        },
        None => {
            assert(ids + Seq::<Seq<char>>::empty() =~= ids);
        },
    }
}

/// A node checked without error keeps the rules, and its IDs, all new, join the IDs seen.
pub proof fn lemma_node_clean(n: SpecNode, ids: Seq<Seq<char>>, declared: Seq<Seq<char>>)
    requires
        ids.no_duplicates(),
        check_node(n, ids, declared).0.len() == 0,
    ensures
        node_allowed(n, declared),
        check_node(n, ids, declared).1 == ids + node_ids(n),
        (ids + node_ids(n)).no_duplicates(),
    decreases n,
{
    match n {
        SpecNode::Container { id, children, line } => {
            let (e2, i2) = check_id(id, line, ids);
            lemma_id_clean(id, line, ids);
            lemma_children_clean(children, i2, declared);
            match id {
                Some(s) => assert(i2 + children_ids(children) =~= ids + node_ids(n)),
                None => assert(i2 + children_ids(children) =~= ids + node_ids(n)),
            }
        },
        SpecNode::Section { id, children, line } => {
            let (e2, i2) = check_id(id, line, ids);
            lemma_id_clean(id, line, ids);
            lemma_children_clean(children, i2, declared);
            match id {
                Some(s) => assert(i2 + children_ids(children) =~= ids + node_ids(n)),
                None => assert(i2 + children_ids(children) =~= ids + node_ids(n)),
            }
        },
        _ => {
            assert(ids + node_ids(n) =~= ids);
        },
    }
}

/// Nodes checked without error keep the rules, and their IDs, all new, join the IDs seen.
pub proof fn lemma_children_clean(cs: Seq<SpecNode>, ids: Seq<Seq<char>>, declared: Seq<Seq<char>>)
    requires
        ids.no_duplicates(),
        check_children(cs, ids, declared).0.len() == 0,
    ensures
        children_allowed(cs, declared),
        check_children(cs, ids, declared).1 == ids + children_ids(cs),
        (ids + children_ids(cs)).no_duplicates(),
    decreases cs,
{
    if cs.len() > 0 {
        let (e1, i1) = check_node(cs[0], ids, declared);
        lemma_node_clean(cs[0], ids, declared);
        lemma_children_clean(cs.drop_first(), i1, declared);
        assert(i1 + children_ids(cs.drop_first()) =~= ids + children_ids(cs));
    } else {
        assert(ids + children_ids(cs) =~= ids);
    }
}


// ─── Documents that keep the rules pass ────────────────────

/// The GN-Z11 rules on a whole document: at least one module declaration, from a version
/// that is known and implemented; every declared module exists in GN-Z11 and is declared
/// once; every node keeps the rules for the declared modules; and no ID is used twice.
pub open spec fn keeps_gn_z11_rules(doc: SpecNode) -> bool {
    doc matches SpecNode::Document { header, children } && {
        let modules = all_modules(header.declarations);
        &&& header.declarations.len() > 0
        &&& declared_version(doc) matches (SpecVersion::GnZ11 | SpecVersion::Pallas | SpecVersion::Halley
            | SpecVersion::Ceres | SpecVersion::Chiron | SpecVersion::MilkyWay)
        &&& modules.no_duplicates()
        &&& forall|i: int| 0 <= i < modules.len() ==> gn_z11_module(#[trigger] modules[i])
        &&& children_allowed(children, modules)
        &&& children_ids(children).no_duplicates()
    }
}

/// The front of a sequence without repeats has none.
proof fn lemma_no_dup_front(a: Seq<Seq<char>>, b: Seq<Seq<char>>)
    requires
        (a + b).no_duplicates(),
    ensures
        a.no_duplicates(),
{
    assert forall|i: int, j: int| 0 <= i < a.len() && 0 <= j < a.len() && i != j implies a[i] != a[j] by {
        assert((a + b)[i] == a[i] && (a + b)[j] == a[j]);
    }
}

/// A value that follows `a` in a sequence without repeats is not in `a`.
proof fn lemma_no_dup_fresh(a: Seq<Seq<char>>, s: Seq<char>, b: Seq<Seq<char>>)
    requires
        (a + seq![s] + b).no_duplicates(),
    ensures
        !a.contains(s),
{
    let whole = a + seq![s] + b;
    if a.contains(s) {
        let k = choose|k: int| 0 <= k < a.len() && a[k] == s;
        assert(whole[k] == s && whole[a.len() as int] == s);
    }
}

/// Modules of GN-Z11 not declared before and not repeated are declared without error.
proof fn lemma_modules_ok(ms: Seq<Seq<char>>, line: nat, declared: Seq<Seq<char>>)
    requires
        (declared + ms).no_duplicates(),
        forall|i: int| 0 <= i < ms.len() ==> gn_z11_module(#[trigger] ms[i]),
    ensures
        check_modules(ms, line, declared) == (Seq::<SpecValidationError>::empty(), declared + ms),
    decreases ms.len(),
{
    if ms.len() > 0 {
        let m = ms[0];
        let rest = ms.drop_first();
        assert(gn_z11_module(ms[0]));
        assert(declared + ms =~= declared + seq![m] + rest);
        lemma_no_dup_fresh(declared, m, rest);
        let d1 = declared.push(m);
        assert(d1 + rest =~= declared + ms);
        assert forall|i: int| 0 <= i < rest.len() implies gn_z11_module(#[trigger] rest[i]) by {
            assert(rest[i] == ms[i + 1]);
        }
        lemma_modules_ok(rest, line, d1);
        assert(Seq::<SpecValidationError>::empty() + Seq::<SpecValidationError>::empty()
            =~= Seq::<SpecValidationError>::empty());
    } else {
        assert(declared + ms =~= declared);
    }
}

/// Declarations of GN-Z11 modules, none repeated, are checked without error.
proof fn lemma_decls_ok(ds: Seq<SpecModuleDecl>, declared: Seq<Seq<char>>)
    requires
        (declared + all_modules(ds)).no_duplicates(),
        forall|i: int| 0 <= i < all_modules(ds).len() ==> gn_z11_module(#[trigger] all_modules(ds)[i]),
    ensures
        check_decls(ds, declared) == (Seq::<SpecValidationError>::empty(), declared + all_modules(ds)),
    decreases ds.len(),
{
    if ds.len() > 0 {
        let ms = ds[0].modules;
        let rest = all_modules(ds.drop_first());
        assert(all_modules(ds) == ms + rest);
        assert(declared + all_modules(ds) =~= (declared + ms) + rest);
        lemma_no_dup_front(declared + ms, rest);
        assert forall|i: int| 0 <= i < ms.len() implies gn_z11_module(#[trigger] ms[i]) by {
            assert(all_modules(ds)[i] == ms[i]);
        }
        lemma_modules_ok(ms, ds[0].line, declared);
        assert forall|i: int| 0 <= i < rest.len() implies gn_z11_module(#[trigger] rest[i]) by {
            assert(all_modules(ds)[ms.len() + i] == rest[i]);
        }
        lemma_decls_ok(ds.drop_first(), declared + ms);
        assert(Seq::<SpecValidationError>::empty() + Seq::<SpecValidationError>::empty()
            =~= Seq::<SpecValidationError>::empty());
    } else {
        assert(declared + all_modules(ds) =~= declared);
    }
}

/// A well-formed ID not seen before is checked without error and joins the IDs seen.
proof fn lemma_id_ok(id: Option<Seq<char>>, line: nat, ids: Seq<Seq<char>>)
    requires
        id_allowed(id),
        id matches Some(s) ==> !ids.contains(s),
    ensures
        check_id(id, line, ids) == (Seq::<SpecValidationError>::empty(), ids + match id {
            Some(s) => seq![s],
            None => Seq::<Seq<char>>::empty(),
        }),
{
    match id {
        Some(s) => {
            assert(ids.push(s) =~= ids + seq![s]);
            assert(Seq::<SpecValidationError>::empty() + Seq::<SpecValidationError>::empty()
                + Seq::<SpecValidationError>::empty() =~= Seq::<SpecValidationError>::empty());
        },
        None => {
            assert(ids + Seq::<Seq<char>>::empty() =~= ids);
        },
    }
}

/// A node that keeps the rules, with IDs not seen before and not repeated, is checked
/// without error and its IDs join the IDs seen.
pub proof fn lemma_node_ok(n: SpecNode, ids: Seq<Seq<char>>, declared: Seq<Seq<char>>)
    requires
        node_allowed(n, declared),
        (ids + node_ids(n)).no_duplicates(),
    ensures
        check_node(n, ids, declared) == (Seq::<SpecValidationError>::empty(), ids + node_ids(n)),
    decreases n,
{
    let none = Seq::<SpecValidationError>::empty();
    match n {
        SpecNode::Container { id, children, line } => {
            let i2 = ids + match id {
                Some(s) => seq![s],
                None => Seq::<Seq<char>>::empty(),
            };
            assert(i2 + children_ids(children) =~= ids + node_ids(n));
            if let Some(s) = id {
                assert(ids + node_ids(n) =~= ids + seq![s] + children_ids(children));
                lemma_no_dup_fresh(ids, s, children_ids(children));
            }
            lemma_id_ok(id, line, ids);
            lemma_children_ok(children, i2, declared);
            assert(none + none + none =~= none);
        },
        SpecNode::Section { id, children, line } => {
            let i2 = ids + match id {
                Some(s) => seq![s],
                None => Seq::<Seq<char>>::empty(),
            };
            assert(i2 + children_ids(children) =~= ids + node_ids(n));
            if let Some(s) = id {
                assert(ids + node_ids(n) =~= ids + seq![s] + children_ids(children));
                lemma_no_dup_fresh(ids, s, children_ids(children));
            }
            lemma_id_ok(id, line, ids);
            lemma_children_ok(children, i2, declared);
            assert(none + none + none =~= none);
        },
        SpecNode::Heading { .. } => {
            assert(ids + node_ids(n) =~= ids);
            assert(none + none + none =~= none);
        },
        SpecNode::Paragraph { .. } => {
            assert(ids + node_ids(n) =~= ids);
            assert(none + none =~= none);
        },
        SpecNode::Image { alt, .. } => {
            assert(ids + node_ids(n) =~= ids);
            assert(trim(alt).len() > 0);
            assert(none + none + none =~= none);
            assert(none + none =~= none);
        },
        _ => {
            assert(ids + node_ids(n) =~= ids);
        },
    }
}

/// Nodes that keep the rules, with IDs not seen before and not repeated, are checked
/// without error and their IDs join the IDs seen.
pub proof fn lemma_children_ok(cs: Seq<SpecNode>, ids: Seq<Seq<char>>, declared: Seq<Seq<char>>)
    requires
        children_allowed(cs, declared),
        (ids + children_ids(cs)).no_duplicates(),
    ensures
        check_children(cs, ids, declared) == (Seq::<SpecValidationError>::empty(), ids + children_ids(cs)),
    decreases cs,
{
    if cs.len() > 0 {
        let first = node_ids(cs[0]);
        let rest = children_ids(cs.drop_first());
        assert(ids + children_ids(cs) =~= (ids + first) + rest);
        lemma_no_dup_front(ids + first, rest);
        lemma_node_ok(cs[0], ids, declared);
        lemma_children_ok(cs.drop_first(), ids + first, declared);
        assert(Seq::<SpecValidationError>::empty() + Seq::<SpecValidationError>::empty()
            =~= Seq::<SpecValidationError>::empty());
    } else {
        assert(ids + children_ids(cs) =~= ids);
    }
}

/// A document that keeps the rules has no GN-Z11 errors.
pub proof fn lemma_document_ok(doc: SpecNode)
    requires
        keeps_gn_z11_rules(doc),
    ensures
        validate_spec(doc).len() == 0,
{
    if let SpecNode::Document { header, children } = doc {
        let modules = all_modules(header.declarations);
        assert(Seq::<Seq<char>>::empty() + modules =~= modules);
        lemma_decls_ok(header.declarations, Seq::empty());
        assert(Seq::<Seq<char>>::empty() + children_ids(children) =~= children_ids(children));
        lemma_children_ok(children, Seq::empty(), modules);
    }
}
} // verus!
