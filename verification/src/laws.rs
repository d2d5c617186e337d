//! Properties relating the extraction pass and the removal pass: which
//! leaves removal excises, how the survivors keep their order, and why a
//! second pass with the same targets changes nothing.

use vstd::prelude::*;

verus! {

use crate::model::BookmarkView;
use crate::tree::FieldView;
use crate::tree::NodeView;
use crate::tree::extracted;
use crate::tree::lemma_children_scan;
use crate::tree::lemma_obj_get_scan;
use crate::tree::extracted_from_children;
use crate::tree::extracted_from_elems;
use crate::tree::extracted_from_fields;
use crate::tree::is_marked;
use crate::tree::leaf_entry;
use crate::tree::obj_get;
use crate::tree::prune_count;
use crate::tree::prune_count_elems;
use crate::tree::prune_count_fields;
use crate::tree::pruned;
use crate::tree::pruned_elems;
use crate::tree::pruned_fields;

/// Whether an object carries the URL discriminator: its `type` field is
/// the string `url`.
pub open spec fn url_marked(fields: Seq<FieldView>) -> bool {
    obj_get(fields, "type"@) == Some(NodeView::Str("url"@))
}

/// No object reachable from `n` by the removal pass carries the URL
/// discriminator.
pub open spec fn url_free(n: NodeView) -> bool
    decreases n,
{
    match n {
        NodeView::Str(_) => true,
        NodeView::Other(_) => true,
        NodeView::Array(elems) => url_free_elems(elems),
        NodeView::Object(fields) => !url_marked(fields) && url_free_fields(fields),
    }
}

/// Every element of an array is url-free.
pub open spec fn url_free_elems(elems: Seq<NodeView>) -> bool
    decreases elems,
{
    if elems.len() == 0 {
        true
    } else {
        url_free(elems.first()) && url_free_elems(elems.drop_first())
    }
}

/// Every field value the removal pass visits is url-free: the elements
/// of `children` arrays, and the values of all other fields.
pub open spec fn url_free_fields(fields: Seq<FieldView>) -> bool
    decreases fields,
{
    if fields.len() == 0 {
        true
    } else {
        let f = fields.first();
        let head = if f.key == "children"@ {
            match f.value {
                NodeView::Array(elems) => url_free_elems(elems),
                _ => true,
            }
        } else {
            url_free(f.value)
        };
        head && url_free_fields(fields.drop_first())
    }
}

/// A url-free node is untouched by the removal pass and yields no
/// bookmarks.
pub proof fn lemma_url_free_node(n: NodeView, t: Set<Seq<char>>)
    requires
        url_free(n),
    ensures
        !is_marked(n, t),
        pruned(n, t) == n,
        prune_count(n, t) == 0,
        extracted(n) == Seq::<BookmarkView>::empty(),
    decreases n,
{
    match n {
        NodeView::Str(_) => {},
        NodeView::Other(_) => {},
        NodeView::Array(elems) => {
            lemma_url_free_elems(elems, t);
        },
        NodeView::Object(fields) => {
            lemma_url_free_fields(fields, t);
            assert(leaf_entry(fields) =~= Seq::<BookmarkView>::empty());
            assert(extracted(n) =~= Seq::<BookmarkView>::empty());
        },
    }
}

/// Array version of [`lemma_url_free_node`].
pub proof fn lemma_url_free_elems(elems: Seq<NodeView>, t: Set<Seq<char>>)
    requires
        url_free_elems(elems),
    ensures
        pruned_elems(elems, t) == elems,
        prune_count_elems(elems, t) == 0,
        extracted_from_elems(elems) == Seq::<BookmarkView>::empty(),
    decreases elems,
{
    if elems.len() > 0 {
        lemma_url_free_node(elems.first(), t);
        lemma_url_free_elems(elems.drop_first(), t);
        assert(pruned_elems(elems, t) =~= elems);
        assert(extracted_from_elems(elems) =~= Seq::<BookmarkView>::empty());
    }
}

/// Field version of [`lemma_url_free_node`].
pub proof fn lemma_url_free_fields(fields: Seq<FieldView>, t: Set<Seq<char>>)
    requires
        url_free_fields(fields),
    ensures
        pruned_fields(fields, t) == fields,
        prune_count_fields(fields, t) == 0,
        extracted_from_children(fields) == Seq::<BookmarkView>::empty(),
        extracted_from_fields(fields) == Seq::<BookmarkView>::empty(),
    decreases fields,
{
    if fields.len() > 0 {
        let f = fields.first();
        lemma_url_free_fields(fields.drop_first(), t);
        if f.key == "children"@ {
            match f.value {
                NodeView::Array(elems) => {
                    lemma_url_free_elems(elems, t);
                    assert(FieldView {
                        key: f.key,
                        value: NodeView::Array(pruned_elems(elems, t)),
                    } == f);
                },
                _ => {},
            }
        } else {
            lemma_url_free_node(f.value, t);
            assert(FieldView { key: f.key, value: pruned(f.value, t) } == f);
        }
        assert(pruned_fields(fields, t) =~= fields);
        assert(extracted_from_fields(fields) =~= Seq::<BookmarkView>::empty());
    }
}


/// Whether no two fields of an object share a key, as in any object
/// parsed from a JSON document.
pub open spec fn keys_unique(fields: Seq<FieldView>) -> bool {
    forall|i: int, j: int|
        0 <= i < j < fields.len() ==> (#[trigger] fields[i]).key != (#[trigger] fields[j]).key
}

/// A conformant tree: object keys are unique, and an object that carries
/// the URL discriminator is a proper leaf — its `name` and `url` fields
/// are strings and nothing below it carries the discriminator again.
pub open spec fn conformant(n: NodeView) -> bool
    decreases n,
{
    match n {
        NodeView::Str(_) => true,
        NodeView::Other(_) => true,
        NodeView::Array(elems) => conformant_elems(elems),
        NodeView::Object(fields) => keys_unique(fields) && (if url_marked(fields) {
            &&& obj_get(fields, "name"@) matches Some(NodeView::Str(_))
            &&& obj_get(fields, "url"@) matches Some(NodeView::Str(_))
            &&& url_free_fields(fields)
        } else {
            conformant_children(fields) && conformant_fields(fields)
        }),
    }
}

/// Every element of an array is conformant.
pub open spec fn conformant_elems(elems: Seq<NodeView>) -> bool
    decreases elems,
{
    if elems.len() == 0 {
        true
    } else {
        conformant(elems.first()) && conformant_elems(elems.drop_first())
    }
}

/// The first `children` field, when it is an array, holds conformant
/// elements.
pub open spec fn conformant_children(fields: Seq<FieldView>) -> bool
    decreases fields,
{
    if fields.len() == 0 {
        true
    } else if fields.first().key == "children"@ {
        match fields.first().value {
            NodeView::Array(elems) => conformant_elems(elems),
            _ => true,
        }
    } else {
        conformant_children(fields.drop_first())
    }
}

/// Every field other than `children` has a conformant value.
pub open spec fn conformant_fields(fields: Seq<FieldView>) -> bool
    decreases fields,
{
    if fields.len() == 0 {
        true
    } else {
        let f = fields.first();
        (f.key == "children"@ || conformant(f.value)) && conformant_fields(fields.drop_first())
    }
}

/// A sequence of fields none of which has the `children` key holds
/// conformant children trivially.
proof fn lemma_conformant_children_absent(fields: Seq<FieldView>)
    requires
        forall|j: int| 0 <= j < fields.len() ==> (#[trigger] fields[j]).key != "children"@,
    ensures
        conformant_children(fields),
    decreases fields,
{
    if fields.len() > 0 {
        assert(fields[0].key != "children"@);
        lemma_conformant_children_absent(fields.drop_first());
    }
}

/// Key uniqueness carries over to the tail of the field list.
proof fn lemma_keys_unique_drop(fields: Seq<FieldView>)
    requires
        keys_unique(fields),
        fields.len() > 0,
    ensures
        keys_unique(fields.drop_first()),
{
    assert forall|i: int, j: int|
        0 <= i < j < fields.drop_first().len() implies (#[trigger] fields.drop_first()[i]).key != (
    #[trigger] fields.drop_first()[j]).key by {
        assert(fields.drop_first()[i] == fields[i + 1]);
        assert(fields.drop_first()[j] == fields[j + 1]);
    }
}

/// The shape of `pruned_fields` at a nonempty field list: its head and
/// its tail, by the case of the first field.
proof fn lemma_pruned_fields_first(fields: Seq<FieldView>, t: Set<Seq<char>>)
    requires
        fields.len() > 0,
    ensures
        ({
            let f = fields.first();
            let rest = pruned_fields(fields.drop_first(), t);
            let pf = pruned_fields(fields, t);
            if f.key == "children"@ {
                match f.value {
                    NodeView::Array(elems) => pf.len() == rest.len() + 1 && pf.first()
                        == FieldView {
                        key: f.key,
                        value: NodeView::Array(pruned_elems(elems, t)),
                    } && pf.drop_first() == rest,
                    _ => pf.len() == rest.len() + 1 && pf.first() == f && pf.drop_first() == rest,
                }
            } else if is_marked(f.value, t) {
                pf == rest
            } else {
                pf.len() == rest.len() + 1 && pf.first() == FieldView {
                    key: f.key,
                    value: pruned(f.value, t),
                } && pf.drop_first() == rest
            }
        }),
{
    let f = fields.first();
    let rest = pruned_fields(fields.drop_first(), t);
    if f.key == "children"@ {
        match f.value {
            NodeView::Array(elems) => {
                let hd = FieldView { key: f.key, value: NodeView::Array(pruned_elems(elems, t)) };
                assert((seq![hd] + rest).first() == hd);
                assert((seq![hd] + rest).drop_first() =~= rest);
            },
            _ => {
                assert((seq![f] + rest).first() == f);
                assert((seq![f] + rest).drop_first() =~= rest);
            },
        }
    } else if !is_marked(f.value, t) {
        let hd = FieldView { key: f.key, value: pruned(f.value, t) };
        assert((seq![hd] + rest).first() == hd);
        assert((seq![hd] + rest).drop_first() =~= rest);
    }
}

/// A key that no field carries is still absent after the removal pass.
proof fn lemma_obj_get_pruned_none(fields: Seq<FieldView>, t: Set<Seq<char>>, key: Seq<char>)
    requires
        obj_get(fields, key) is None,
    ensures
        obj_get(pruned_fields(fields, t), key) is None,
    decreases fields,
{
    if fields.len() > 0 {
        let f = fields.first();
        assert(f.key != key);
        lemma_obj_get_pruned_none(fields.drop_first(), t, key);
        lemma_pruned_fields_first(fields, t);
    }
}

/// The removal pass neither adds nor removes the URL discriminator on an
/// object whose keys are unique.
proof fn lemma_url_marked_pruned(fields: Seq<FieldView>, t: Set<Seq<char>>)
    requires
        keys_unique(fields),
    ensures
        url_marked(pruned_fields(fields, t)) == url_marked(fields),
    decreases fields,
{
    if fields.len() == 0 {
    } else {
        let f = fields.first();
        lemma_pruned_fields_first(fields, t);
        if f.key == "type"@ {
            assert forall|j: int|
                0 <= j < fields.drop_first().len() implies (
            #[trigger] fields.drop_first()[j]).key != "type"@ by {
                assert(fields.drop_first()[j] == fields[j + 1]);
            }
            lemma_obj_get_scan(fields.drop_first(), "type"@, fields.drop_first().len() as int);
            assert(obj_get(fields.drop_first(), "type"@) is None);
            match f.value {
                NodeView::Str(_) => {
                    assert(!is_marked(f.value, t));
                    assert(pruned(f.value, t) == f.value);
                },
                _ => {
                    assert(!url_marked(fields));
                    if is_marked(f.value, t) {
                        lemma_obj_get_pruned_none(fields.drop_first(), t, "type"@);
                        assert(!url_marked(pruned_fields(fields, t)));
                    } else {
                        assert(!(pruned(f.value, t) is Str));
                    }
                },
            }
        } else {
            lemma_keys_unique_drop(fields);
            lemma_url_marked_pruned(fields.drop_first(), t);
        }
    }
}

/// With no `children` key present, the `children` part of extraction is
/// empty.
proof fn lemma_no_children_extracted(fields: Seq<FieldView>)
    requires
        forall|j: int| 0 <= j < fields.len() ==> (#[trigger] fields[j]).key != "children"@,
    ensures
        extracted_from_children(fields) == Seq::<BookmarkView>::empty(),
{
    lemma_children_scan(fields, fields.len() as int);
    assert(fields.subrange(fields.len() as int, fields.len() as int).len() == 0);
}

/// `extracted_from_elems` unfolds over an explicit head element.
proof fn lemma_extracted_elems_cons(x: NodeView, rest: Seq<NodeView>)
    ensures
        extracted_from_elems(seq![x] + rest) == extracted(x) + extracted_from_elems(rest),
{
    assert((seq![x] + rest).first() == x);
    assert((seq![x] + rest).drop_first() =~= rest);
}

/// `extracted_from_fields` unfolds over an explicit head field.
proof fn lemma_extracted_fields_cons(f: FieldView, rest: Seq<FieldView>)
    ensures
        extracted_from_fields(seq![f] + rest) == (if f.key == "children"@ {
            extracted_from_fields(rest)
        } else {
            extracted(f.value) + extracted_from_fields(rest)
        }),
{
    assert((seq![f] + rest).first() == f);
    assert((seq![f] + rest).drop_first() =~= rest);
}

/// The bookmarks of `bs` whose URL is outside the target set, in their
/// original order.
pub open spec fn kept_bookmarks(bs: Seq<BookmarkView>, t: Set<Seq<char>>) -> Seq<BookmarkView>
    decreases bs,
{
    if bs.len() == 0 {
        Seq::empty()
    } else if t.contains(bs.first().url) {
        kept_bookmarks(bs.drop_first(), t)
    } else {
        seq![bs.first()] + kept_bookmarks(bs.drop_first(), t)
    }
}

/// How many bookmarks of `bs` have their URL in the target set.
pub open spec fn slated_count(bs: Seq<BookmarkView>, t: Set<Seq<char>>) -> nat
    decreases bs,
{
    if bs.len() == 0 {
        0
    } else if t.contains(bs.first().url) {
        1 + slated_count(bs.drop_first(), t)
    } else {
        slated_count(bs.drop_first(), t)
    }
}

/// `kept_bookmarks` distributes over concatenation.
pub proof fn lemma_kept_concat(a: Seq<BookmarkView>, b: Seq<BookmarkView>, t: Set<Seq<char>>)
    ensures
        kept_bookmarks(a + b, t) == kept_bookmarks(a, t) + kept_bookmarks(b, t),
    decreases a,
{
    if a.len() == 0 {
        assert(a + b =~= b);
        assert(kept_bookmarks(a, t) + kept_bookmarks(b, t) =~= kept_bookmarks(b, t));
    } else {
        assert((a + b).first() == a.first());
        assert((a + b).drop_first() =~= a.drop_first() + b);
        lemma_kept_concat(a.drop_first(), b, t);
        assert(kept_bookmarks(a + b, t) =~= kept_bookmarks(a, t) + kept_bookmarks(b, t));
    }
}

/// `slated_count` distributes over concatenation.
pub proof fn lemma_slated_concat(a: Seq<BookmarkView>, b: Seq<BookmarkView>, t: Set<Seq<char>>)
    ensures
        slated_count(a + b, t) == slated_count(a, t) + slated_count(b, t),
    decreases a,
{
    if a.len() == 0 {
        assert(a + b =~= b);
    } else {
        assert((a + b).first() == a.first());
        assert((a + b).drop_first() =~= a.drop_first() + b);
        lemma_slated_concat(a.drop_first(), b, t);
    }
}

/// A conformant node that is marked holds exactly one bookmark, and that
/// bookmark's URL is in the target set.
pub proof fn lemma_marked_extract(n: NodeView, t: Set<Seq<char>>)
    requires
        conformant(n),
        is_marked(n, t),
    ensures
        kept_bookmarks(extracted(n), t) == Seq::<BookmarkView>::empty(),
        slated_count(extracted(n), t) == 1,
{
    match n {
        NodeView::Object(fields) => {
            lemma_url_free_fields(fields, t);
            match (obj_get(fields, "name"@), obj_get(fields, "url"@)) {
                (Some(NodeView::Str(nm)), Some(NodeView::Str(u))) => {
                    let b = BookmarkView { name: nm, url: u };
                    assert(leaf_entry(fields) == seq![b]);
                    assert(t.contains(u));
                    assert(extracted(n) =~= seq![b]);
                    assert(seq![b].drop_first() =~= Seq::<BookmarkView>::empty());
                    assert(kept_bookmarks(Seq::<BookmarkView>::empty(), t)
                        =~= Seq::<BookmarkView>::empty());
                    assert(slated_count(Seq::<BookmarkView>::empty(), t) == 0);
                },
                _ => {
                    assert(false);
                },
            }
        },
        _ => {
            assert(false);
        },
    }
}

/// The heart of the removal law: on a conformant tree that is not itself
/// excised, removal keeps exactly the bookmarks whose URL is outside the
/// target set, in their original order, and counts exactly the bookmarks
/// whose URL is in it.
pub proof fn lemma_removal_matches_extraction(n: NodeView, t: Set<Seq<char>>)
    requires
        conformant(n),
        !is_marked(n, t),
    ensures
        extracted(pruned(n, t)) == kept_bookmarks(extracted(n), t),
        prune_count(n, t) == slated_count(extracted(n), t),
    decreases n,
{
    match n {
        NodeView::Str(_) => {},
        NodeView::Other(_) => {},
        NodeView::Array(elems) => {
            lemma_removal_matches_extraction_elems(elems, t);
        },
        NodeView::Object(fields) => {
            let pfs = pruned_fields(fields, t);
            let leaf = leaf_entry(fields);
            let ch = extracted_from_children(fields);
            let flds = extracted_from_fields(fields);
            lemma_url_marked_pruned(fields, t);

            // The object's own entry is preserved, and it survives.
            if url_marked(fields) {
                // A conformant leaf has nothing below it: removal leaves
                // its fields alone.
                lemma_url_free_fields(fields, t);
                match (obj_get(fields, "name"@), obj_get(fields, "url"@)) {
                    (Some(NodeView::Str(nm)), Some(NodeView::Str(u))) => {
                        let b = BookmarkView { name: nm, url: u };
                        assert(leaf == seq![b]);
                        assert(leaf_entry(pfs) == seq![b]);
                        assert(!t.contains(u));
                        assert(seq![b].drop_first() =~= Seq::<BookmarkView>::empty());
                        assert(kept_bookmarks(Seq::<BookmarkView>::empty(), t)
                            =~= Seq::<BookmarkView>::empty());
                        assert(slated_count(Seq::<BookmarkView>::empty(), t) == 0);
                        assert(kept_bookmarks(leaf, t) =~= leaf);
                        assert(slated_count(leaf, t) == 0);
                    },
                    _ => {
                        assert(false);
                    },
                }
            } else {
                lemma_removal_children(fields, t);
                lemma_removal_fields(fields, t);
                lemma_removal_count_fields(fields, t);
                assert(leaf =~= Seq::<BookmarkView>::empty());
                assert(leaf_entry(pfs) =~= Seq::<BookmarkView>::empty());
            }
            assert(leaf_entry(pfs) == kept_bookmarks(leaf, t));
            assert(slated_count(leaf, t) == 0);

            // Assemble the three parts.
            assert(extracted(pruned(n, t)) == leaf_entry(pfs) + extracted_from_children(pfs)
                + extracted_from_fields(pfs));
            lemma_kept_concat(leaf, ch, t);
            lemma_kept_concat(leaf + ch, flds, t);
            lemma_slated_concat(leaf, ch, t);
            lemma_slated_concat(leaf + ch, flds, t);
            assert(extracted(n) == leaf + ch + flds);
            assert(extracted(pruned(n, t)) =~= kept_bookmarks(extracted(n), t));
            assert(prune_count(n, t) == slated_count(extracted(n), t));
        },
    }
}

/// Array version of [`lemma_removal_matches_extraction`].
pub proof fn lemma_removal_matches_extraction_elems(elems: Seq<NodeView>, t: Set<Seq<char>>)
    requires
        conformant_elems(elems),
    ensures
        extracted_from_elems(pruned_elems(elems, t)) == kept_bookmarks(
            extracted_from_elems(elems),
            t,
        ),
        prune_count_elems(elems, t) == slated_count(extracted_from_elems(elems), t),
    decreases elems,
{
    if elems.len() == 0 {
        assert(extracted_from_elems(elems) =~= Seq::<BookmarkView>::empty());
        assert(pruned_elems(elems, t) =~= Seq::<NodeView>::empty());
        assert(extracted_from_elems(pruned_elems(elems, t)) =~= Seq::<BookmarkView>::empty());
        assert(kept_bookmarks(extracted_from_elems(elems), t) =~= Seq::<BookmarkView>::empty());
        assert(slated_count(extracted_from_elems(elems), t) == 0);
    } else {
        let x = elems.first();
        let rest = elems.drop_first();
        lemma_removal_matches_extraction_elems(rest, t);
        lemma_kept_concat(extracted(x), extracted_from_elems(rest), t);
        lemma_slated_concat(extracted(x), extracted_from_elems(rest), t);
        assert(extracted_from_elems(elems) == extracted(x) + extracted_from_elems(rest));
        if is_marked(x, t) {
            lemma_marked_extract(x, t);
            assert(prune_count(x, t) == 1);
            assert(pruned_elems(elems, t) == pruned_elems(rest, t));
            assert(kept_bookmarks(extracted_from_elems(elems), t) =~= kept_bookmarks(
                extracted_from_elems(rest),
                t,
            ));
        } else {
            lemma_removal_matches_extraction(x, t);
            lemma_extracted_elems_cons(pruned(x, t), pruned_elems(rest, t));
            assert(pruned_elems(elems, t) == seq![pruned(x, t)] + pruned_elems(rest, t));
            assert(extracted_from_elems(pruned_elems(elems, t)) =~= kept_bookmarks(
                extracted_from_elems(elems),
                t,
            ));
        }
    }
}

/// Removal commutes with the `children` part of extraction.
proof fn lemma_removal_children(fields: Seq<FieldView>, t: Set<Seq<char>>)
    requires
        conformant_children(fields),
    ensures
        extracted_from_children(pruned_fields(fields, t)) == kept_bookmarks(
            extracted_from_children(fields),
            t,
        ),
    decreases fields,
{
    if fields.len() == 0 {
    } else {
        let f = fields.first();
        let rest = fields.drop_first();
        let prest = pruned_fields(rest, t);
        lemma_pruned_fields_first(fields, t);
        if f.key == "children"@ {
            match f.value {
                NodeView::Array(elems) => {
                    lemma_removal_matches_extraction_elems(elems, t);
                    assert(extracted_from_children(pruned_fields(fields, t))
                        == extracted_from_elems(pruned_elems(elems, t)));
                },
                _ => {
                    assert(extracted_from_children(pruned_fields(fields, t))
                        =~= Seq::<BookmarkView>::empty());
                    assert(extracted_from_children(fields) =~= Seq::<BookmarkView>::empty());
                },
            }
        } else {
            lemma_removal_children(rest, t);
            assert(extracted_from_children(fields) == extracted_from_children(rest));
            if is_marked(f.value, t) {
                assert(pruned_fields(fields, t) == prest);
            } else {
                assert(extracted_from_children(pruned_fields(fields, t))
                    == extracted_from_children(prest));
            }
        }
    }
}

/// Removal commutes with the non-`children` part of extraction.
proof fn lemma_removal_fields(fields: Seq<FieldView>, t: Set<Seq<char>>)
    requires
        conformant_fields(fields),
    ensures
        extracted_from_fields(pruned_fields(fields, t)) == kept_bookmarks(
            extracted_from_fields(fields),
            t,
        ),
    decreases fields,
{
    if fields.len() == 0 {
    } else {
        let f = fields.first();
        let rest = fields.drop_first();
        let prest = pruned_fields(rest, t);
        lemma_pruned_fields_first(fields, t);
        lemma_removal_fields(rest, t);
        if f.key == "children"@ {
            assert(extracted_from_fields(fields) == extracted_from_fields(rest));
            assert(extracted_from_fields(pruned_fields(fields, t)) == extracted_from_fields(
                prest,
            ));
        } else {
            assert(extracted_from_fields(fields) == extracted(f.value) + extracted_from_fields(
                rest,
            ));
            lemma_kept_concat(extracted(f.value), extracted_from_fields(rest), t);
            if is_marked(f.value, t) {
                lemma_marked_extract(f.value, t);
                assert(pruned_fields(fields, t) == prest);
                assert(kept_bookmarks(extracted_from_fields(fields), t) =~= kept_bookmarks(
                    extracted_from_fields(rest),
                    t,
                ));
            } else {
                lemma_removal_matches_extraction(f.value, t);
                let hd = FieldView { key: f.key, value: pruned(f.value, t) };
                lemma_extracted_fields_cons(hd, prest);
                assert(pruned_fields(fields, t) == seq![hd] + prest);
                assert(extracted_from_fields(pruned_fields(fields, t)) =~= kept_bookmarks(
                    extracted_from_fields(fields),
                    t,
                ));
            }
        }
    }
}

/// The matches removal counts under an object's fields are exactly the
/// extracted bookmarks slated for removal, children part and field part.
proof fn lemma_removal_count_fields(fields: Seq<FieldView>, t: Set<Seq<char>>)
    requires
        keys_unique(fields),
        conformant_children(fields),
        conformant_fields(fields),
    ensures
        prune_count_fields(fields, t) == slated_count(extracted_from_children(fields), t)
            + slated_count(extracted_from_fields(fields), t),
    decreases fields,
{
    if fields.len() == 0 {
    } else {
        let f = fields.first();
        let rest = fields.drop_first();
        lemma_keys_unique_drop(fields);
        if f.key == "children"@ {
            // Key uniqueness: no further `children` field below.
            assert forall|j: int| 0 <= j < rest.len() implies (#[trigger] rest[j]).key
                != "children"@ by {
                assert(rest[j] == fields[j + 1]);
            }
            lemma_conformant_children_absent(rest);
            lemma_removal_count_fields(rest, t);
            lemma_no_children_extracted(rest);
            assert(extracted_from_fields(fields) == extracted_from_fields(rest));
            match f.value {
                NodeView::Array(elems) => {
                    lemma_removal_matches_extraction_elems(elems, t);
                    assert(extracted_from_children(fields) == extracted_from_elems(elems));
                    assert(prune_count_fields(fields, t) == prune_count_elems(elems, t)
                        + prune_count_fields(rest, t));
                },
                _ => {
                    assert(extracted_from_children(fields) =~= Seq::<BookmarkView>::empty());
                    assert(prune_count_fields(fields, t) == prune_count_fields(rest, t));
                },
            }
        } else {
            lemma_removal_count_fields(rest, t);
            assert(extracted_from_children(fields) == extracted_from_children(rest));
            assert(extracted_from_fields(fields) == extracted(f.value) + extracted_from_fields(
                rest,
            ));
            lemma_slated_concat(extracted(f.value), extracted_from_fields(rest), t);
            if is_marked(f.value, t) {
                lemma_marked_extract(f.value, t);
                assert(prune_count(f.value, t) == 1);
                assert(prune_count_fields(fields, t) == 1 + prune_count_fields(rest, t));
            } else {
                lemma_removal_matches_extraction(f.value, t);
                assert(prune_count_fields(fields, t) == prune_count(f.value, t)
                    + prune_count_fields(rest, t));
            }
        }
    }
}

/// The elements of an array that removal does not excise, untouched and
/// in their original order.
pub open spec fn surviving_elems(elems: Seq<NodeView>, t: Set<Seq<char>>) -> Seq<NodeView>
    decreases elems,
{
    if elems.len() == 0 {
        Seq::empty()
    } else if is_marked(elems.first(), t) {
        surviving_elems(elems.drop_first(), t)
    } else {
        seq![elems.first()] + surviving_elems(elems.drop_first(), t)
    }
}

/// Removal preserves the relative order of surviving siblings: the
/// children of a pruned array are exactly the surviving children of the
/// original, each pruned in place, in their original relative order.
pub proof fn lemma_sibling_order(elems: Seq<NodeView>, t: Set<Seq<char>>)
    ensures
        pruned_elems(elems, t).len() == surviving_elems(elems, t).len(),
        forall|i: int|
            0 <= i < pruned_elems(elems, t).len() ==> pruned_elems(elems, t)[i] == pruned(
                #[trigger] surviving_elems(elems, t)[i],
                t,
            ),
    decreases elems,
{
    if elems.len() == 0 {
    } else {
        let x = elems.first();
        let rest = elems.drop_first();
        lemma_sibling_order(rest, t);
        if !is_marked(x, t) {
            let p = pruned_elems(elems, t);
            let sv = surviving_elems(elems, t);
            assert(p == seq![pruned(x, t)] + pruned_elems(rest, t));
            assert(sv == seq![x] + surviving_elems(rest, t));
            assert forall|i: int| 0 <= i < p.len() implies p[i] == pruned(
                #[trigger] sv[i],
                t,
            ) by {
                if i == 0 {
                    assert(p[0] == pruned(x, t));
                    assert(sv[0] == x);
                } else {
                    assert(p[i] == pruned_elems(rest, t)[i - 1]);
                    assert(sv[i] == surviving_elems(rest, t)[i - 1]);
                }
            }
        }
    }
}

/// `pruned_elems` unfolds over an explicit head element.
proof fn lemma_pruned_elems_cons(x: NodeView, rest: Seq<NodeView>, t: Set<Seq<char>>)
    ensures
        pruned_elems(seq![x] + rest, t) == (if is_marked(x, t) {
            pruned_elems(rest, t)
        } else {
            seq![pruned(x, t)] + pruned_elems(rest, t)
        }),
        prune_count_elems(seq![x] + rest, t) == prune_count(x, t) + prune_count_elems(rest, t),
{
    assert((seq![x] + rest).first() == x);
    assert((seq![x] + rest).drop_first() =~= rest);
}

/// `pruned_fields` unfolds over an explicit head field.
proof fn lemma_pruned_fields_cons(f: FieldView, rest: Seq<FieldView>, t: Set<Seq<char>>)
    ensures
        pruned_fields(seq![f] + rest, t) == (if f.key == "children"@ {
            match f.value {
                NodeView::Array(elems) => seq![
                    FieldView { key: f.key, value: NodeView::Array(pruned_elems(elems, t)) },
                ] + pruned_fields(rest, t),
                _ => seq![f] + pruned_fields(rest, t),
            }
        } else if is_marked(f.value, t) {
            pruned_fields(rest, t)
        } else {
            seq![FieldView { key: f.key, value: pruned(f.value, t) }] + pruned_fields(rest, t)
        }),
        prune_count_fields(seq![f] + rest, t) == (if f.key == "children"@ {
            match f.value {
                NodeView::Array(elems) => prune_count_elems(elems, t),
                _ => 0,
            }
        } else {
            prune_count(f.value, t)
        }) + prune_count_fields(rest, t),
{
    assert((seq![f] + rest).first() == f);
    assert((seq![f] + rest).drop_first() =~= rest);
}

/// Running removal a second time with the same target set changes
/// nothing and counts nothing: on a conformant tree whose root is not
/// itself a removal target, removal is idempotent.
pub proof fn lemma_removal_idempotent(n: NodeView, t: Set<Seq<char>>)
    requires
        conformant(n),
        !is_marked(n, t),
    ensures
        pruned(pruned(n, t), t) == pruned(n, t),
        prune_count(pruned(n, t), t) == 0,
        !is_marked(pruned(n, t), t),
    decreases n,
{
    match n {
        NodeView::Str(_) => {},
        NodeView::Other(_) => {},
        NodeView::Array(elems) => {
            lemma_removal_idempotent_elems(elems, t);
        },
        NodeView::Object(fields) => {
            let pfs = pruned_fields(fields, t);
            lemma_url_marked_pruned(fields, t);
            if url_marked(fields) {
                lemma_url_free_fields(fields, t);
                assert(pruned(n, t) == n);
                match obj_get(fields, "url"@) {
                    Some(NodeView::Str(u)) => {
                        assert(!t.contains(u));
                    },
                    _ => {},
                }
            } else {
                lemma_removal_idempotent_fields(fields, t);
                assert(!url_marked(pfs));
                assert(pruned(pruned(n, t), t) == NodeView::Object(
                    pruned_fields(pfs, t),
                ));
            }
        },
    }
}

/// Array version of [`lemma_removal_idempotent`].
pub proof fn lemma_removal_idempotent_elems(elems: Seq<NodeView>, t: Set<Seq<char>>)
    requires
        conformant_elems(elems),
    ensures
        pruned_elems(pruned_elems(elems, t), t) == pruned_elems(elems, t),
        prune_count_elems(pruned_elems(elems, t), t) == 0,
    decreases elems,
{
    if elems.len() == 0 {
    } else {
        let x = elems.first();
        let rest = elems.drop_first();
        lemma_removal_idempotent_elems(rest, t);
        if is_marked(x, t) {
            assert(pruned_elems(elems, t) == pruned_elems(rest, t));
        } else {
            lemma_removal_idempotent(x, t);
            assert(pruned_elems(elems, t) == seq![pruned(x, t)] + pruned_elems(rest, t));
            lemma_pruned_elems_cons(pruned(x, t), pruned_elems(rest, t), t);
        }
    }
}

/// Field version of [`lemma_removal_idempotent`].
pub proof fn lemma_removal_idempotent_fields(fields: Seq<FieldView>, t: Set<Seq<char>>)
    requires
        keys_unique(fields),
        conformant_children(fields),
        conformant_fields(fields),
    ensures
        pruned_fields(pruned_fields(fields, t), t) == pruned_fields(fields, t),
        prune_count_fields(pruned_fields(fields, t), t) == 0,
    decreases fields,
{
    if fields.len() == 0 {
    } else {
        let f = fields.first();
        let rest = fields.drop_first();
        let prest = pruned_fields(rest, t);
        lemma_keys_unique_drop(fields);
        lemma_pruned_fields_first(fields, t);
        if f.key == "children"@ {
            assert forall|j: int| 0 <= j < rest.len() implies (#[trigger] rest[j]).key
                != "children"@ by {
                assert(rest[j] == fields[j + 1]);
            }
            lemma_conformant_children_absent(rest);
            lemma_removal_idempotent_fields(rest, t);
            match f.value {
                NodeView::Array(elems) => {
                    lemma_removal_idempotent_elems(elems, t);
                    let hd = FieldView {
                        key: f.key,
                        value: NodeView::Array(pruned_elems(elems, t)),
                    };
                    assert(pruned_fields(fields, t) == seq![hd] + prest);
                    lemma_pruned_fields_cons(hd, prest, t);
                },
                _ => {
                    assert(pruned_fields(fields, t) == seq![f] + prest);
                    lemma_pruned_fields_cons(f, prest, t);
                },
            }
        } else {
            lemma_removal_idempotent_fields(rest, t);
            if is_marked(f.value, t) {
                assert(pruned_fields(fields, t) == prest);
            } else {
                lemma_removal_idempotent(f.value, t);
                let hd = FieldView { key: f.key, value: pruned(f.value, t) };
                assert(pruned_fields(fields, t) == seq![hd] + prest);
                lemma_pruned_fields_cons(hd, prest, t);
            }
        }
    }
}

} // verus!
