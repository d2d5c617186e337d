//! The tree model: a recursive, heterogeneous bookmark tree, the traversal
//! that extracts URL leaves from it, and the mutation pass that removes a
//! target set of leaves while preserving the structure around them.
//!
//! A node is either a string, some other scalar carried opaquely, an ordered
//! array of nodes, or an object holding an ordered list of named fields.
//! A leaf is an object whose `type` field is the string `url`; its `name`
//! and `url` fields carry the bookmark data. An object's `children` field,
//! when it is an array, holds the node's ordered children.

use vstd::prelude::*;

verus! {

use crate::cleaner::TargetSet;
use crate::model::Bookmark;
use crate::model::BookmarkView;

/// One node of the bookmark tree.
///
/// Scalars other than strings never influence traversal or mutation; they
/// are carried as opaque rendered text so a caller can reconstruct the
/// exact document after a mutation pass.
#[derive(Debug, PartialEq, Eq)]
pub enum Node {
    /// A string value.
    Str(String),
    /// Any other scalar (number, boolean, null), carried as opaque text.
    Other(String),
    /// An ordered sequence of nodes.
    Array(Vec<Node>),
    /// An object: an ordered list of named fields.
    Object(Vec<Field>),
}

/// One named field of an object node.
#[derive(Debug, PartialEq, Eq)]
pub struct Field {
    pub key: String,
    pub value: Node,
}

/// Mathematical image of a [`Node`].
pub ghost enum NodeView {
    Str(Seq<char>),
    Other(Seq<char>),
    Array(Seq<NodeView>),
    Object(Seq<FieldView>),
}

/// Mathematical image of a [`Field`].
pub ghost struct FieldView {
    pub key: Seq<char>,
    pub value: NodeView,
}

/// The image of an exec node.
pub open spec fn node_view(n: Node) -> NodeView
    decreases n,
{
    match n {
        Node::Str(s) => NodeView::Str(s@),
        Node::Other(raw) => NodeView::Other(raw@),
        Node::Array(elems) => NodeView::Array(node_views(elems@)),
        Node::Object(fields) => NodeView::Object(field_views(fields@)),
    }
}

/// The images of a sequence of exec nodes, in order.
pub open spec fn node_views(ns: Seq<Node>) -> Seq<NodeView>
    decreases ns,
{
    if ns.len() == 0 {
        Seq::empty()
    } else {
        seq![node_view(ns.first())] + node_views(ns.drop_first())
    }
}

/// The images of a sequence of exec fields, in order.
pub open spec fn field_views(fs: Seq<Field>) -> Seq<FieldView>
    decreases fs,
{
    if fs.len() == 0 {
        Seq::empty()
    } else {
        seq![FieldView { key: fs.first().key@, value: node_view(fs.first().value) }]
            + field_views(fs.drop_first())
    }
}

impl View for Node {
    type V = NodeView;

    open spec fn view(&self) -> NodeView {
        node_view(*self)
    }
}

impl View for Field {
    type V = FieldView;

    open spec fn view(&self) -> FieldView {
        FieldView { key: self.key@, value: node_view(self.value) }
    }
}

/// `node_views` maps the sequence element by element.
pub proof fn lemma_node_views_index(ns: Seq<Node>)
    ensures
        node_views(ns).len() == ns.len(),
        forall|i: int| 0 <= i < ns.len() ==> node_views(ns)[i] == node_view(#[trigger] ns[i]),
    decreases ns,
{
    if ns.len() > 0 {
        lemma_node_views_index(ns.drop_first());
        assert forall|i: int| 0 <= i < ns.len() implies node_views(ns)[i] == node_view(
            #[trigger] ns[i],
        ) by {
            if i > 0 {
                assert(ns.drop_first()[i - 1] == ns[i]);
            }
        }
    }
}

/// `field_views` maps the sequence element by element.
pub proof fn lemma_field_views_index(fs: Seq<Field>)
    ensures
        field_views(fs).len() == fs.len(),
        forall|i: int| 0 <= i < fs.len() ==> field_views(fs)[i] == (#[trigger] fs[i])@,
    decreases fs,
{
    if fs.len() > 0 {
        lemma_field_views_index(fs.drop_first());
        assert forall|i: int| 0 <= i < fs.len() implies field_views(fs)[i] == (
        #[trigger] fs[i])@ by {
            if i > 0 {
                assert(fs.drop_first()[i - 1] == fs[i]);
            }
        }
    }
}

/// Looks a key up among an object's fields: the first field with that key.
pub open spec fn obj_get(fields: Seq<FieldView>, key: Seq<char>) -> Option<NodeView>
    decreases fields,
{
    if fields.len() == 0 {
        None
    } else if fields.first().key == key {
        Some(fields.first().value)
    } else {
        obj_get(fields.drop_first(), key)
    }
}

/// The bookmark an object emits for itself: one entry when its `type`
/// field is the string `url` and both `name` and `url` are strings,
/// nothing otherwise.
pub open spec fn leaf_entry(fields: Seq<FieldView>) -> Seq<BookmarkView> {
    if obj_get(fields, "type"@) == Some(NodeView::Str("url"@)) {
        match (obj_get(fields, "name"@), obj_get(fields, "url"@)) {
            (Some(NodeView::Str(name)), Some(NodeView::Str(url))) => {
                seq![BookmarkView { name, url }]
            },
            _ => Seq::empty(),
        }
    } else {
        Seq::empty()
    }
}

/// Every bookmark below `n`, in extraction order: depth-first and
/// pre-order, with an object's own entry first, then the entries under
/// its `children` array, then the entries under its other fields in
/// field order.
pub open spec fn extracted(n: NodeView) -> Seq<BookmarkView>
    decreases n,
{
    match n {
        NodeView::Str(_) => Seq::empty(),
        NodeView::Other(_) => Seq::empty(),
        NodeView::Array(elems) => extracted_from_elems(elems),
        NodeView::Object(fields) => leaf_entry(fields) + extracted_from_children(fields)
            + extracted_from_fields(fields),
    }
}

/// The bookmarks below each element of an array, concatenated in order.
pub open spec fn extracted_from_elems(elems: Seq<NodeView>) -> Seq<BookmarkView>
    decreases elems,
{
    if elems.len() == 0 {
        Seq::empty()
    } else {
        extracted(elems.first()) + extracted_from_elems(elems.drop_first())
    }
}

/// The bookmarks under an object's `children` field: those below the
/// elements of the first `children` field when it is an array, nothing
/// when it is absent or not an array.
pub open spec fn extracted_from_children(fields: Seq<FieldView>) -> Seq<BookmarkView>
    decreases fields,
{
    if fields.len() == 0 {
        Seq::empty()
    } else if fields.first().key == "children"@ {
        match fields.first().value {
            NodeView::Array(elems) => extracted_from_elems(elems),
            _ => Seq::empty(),
        }
    } else {
        extracted_from_children(fields.drop_first())
    }
}

/// The bookmarks below an object's fields other than `children`,
/// concatenated in field order.
pub open spec fn extracted_from_fields(fields: Seq<FieldView>) -> Seq<BookmarkView>
    decreases fields,
{
    if fields.len() == 0 {
        Seq::empty()
    } else if fields.first().key == "children"@ {
        extracted_from_fields(fields.drop_first())
    } else {
        extracted(fields.first().value) + extracted_from_fields(fields.drop_first())
    }
}


/// The images of a sequence of exec bookmarks, in order.
pub open spec fn bookmark_views(bs: Seq<Bookmark>) -> Seq<BookmarkView> {
    bs.map_values(|b: Bookmark| b@)
}

/// A key lookup may skip any prefix of fields whose keys all differ
/// from the key looked up.
pub proof fn lemma_obj_get_scan(fields: Seq<FieldView>, key: Seq<char>, i: int)
    requires
        0 <= i <= fields.len(),
        forall|j: int| 0 <= j < i ==> (#[trigger] fields[j]).key != key,
    ensures
        obj_get(fields, key) == obj_get(fields.subrange(i, fields.len() as int), key),
    decreases i,
{
    if i > 0 {
        assert(fields.first().key != key);
        lemma_obj_get_scan(fields.drop_first(), key, i - 1);
        assert(fields.drop_first().subrange(i - 1, fields.drop_first().len() as int) =~= fields
            .subrange(i, fields.len() as int));
    } else {
        assert(fields.subrange(0, fields.len() as int) =~= fields);
    }
}

/// Finds the first field with the given key, if any.
pub fn find_field_index(fields: &Vec<Field>, key: &String) -> (r: Option<usize>)
    ensures
        match r {
            Some(i) => {
                &&& i < fields@.len()
                &&& fields@[i as int].key@ == key@
                &&& forall|j: int| 0 <= j < i ==> (#[trigger] fields@[j]).key@ != key@
                &&& obj_get(field_views(fields@), key@) == Some(
                    node_view(fields@[i as int].value),
                )
            },
            None => {
                &&& forall|j: int|
                    0 <= j < fields@.len() ==> (#[trigger] fields@[j]).key@ != key@
                &&& obj_get(field_views(fields@), key@) is None
            },
        },
{
    proof {
        lemma_field_views_index(fields@);
    }
    let ghost views = field_views(fields@);
    let n = fields.len();
    let mut i: usize = 0;
    while i < n
        invariant
            n == fields@.len(),
            views == field_views(fields@),
            0 <= i <= n,
            forall|j: int| 0 <= j < i ==> (#[trigger] fields@[j]).key@ != key@,
            views.len() == fields@.len(),
            forall|j: int| 0 <= j < fields@.len() ==> views[j] == (#[trigger] fields@[j])@,
        decreases n - i,
    {
        if fields[i].key.eq(key) {
            proof {
                assert forall|j: int| 0 <= j < i implies (#[trigger] views[j]).key != key@ by {
                    assert(views[j] == fields@[j]@);
                }
                lemma_obj_get_scan(views, key@, i as int);
                assert(views.subrange(i as int, views.len() as int).first() == views[i as int]);
            }
            return Some(i);
        }
        i += 1;
    }
    proof {
        assert forall|j: int| 0 <= j < n implies (#[trigger] views[j]).key != key@ by {
            assert(views[j] == fields@[j]@);
        }
        lemma_obj_get_scan(views, key@, n as int);
        assert(views.subrange(n as int, views.len() as int).len() == 0);
    }
    None
}


/// Appending an element to an array appends its bookmarks to the result.
pub proof fn lemma_extracted_elems_push(elems: Seq<NodeView>, x: NodeView)
    ensures
        extracted_from_elems(elems.push(x)) == extracted_from_elems(elems) + extracted(x),
    decreases elems,
{
    if elems.len() == 0 {
        assert(elems.push(x).first() == x);
        assert(elems.push(x).drop_first() =~= elems);
        assert(extracted_from_elems(elems) =~= Seq::<BookmarkView>::empty());
        assert(extracted_from_elems(elems.push(x)) =~= extracted_from_elems(elems) + extracted(x));
    } else {
        assert(elems.push(x).first() == elems.first());
        assert(elems.push(x).drop_first() =~= elems.drop_first().push(x));
        lemma_extracted_elems_push(elems.drop_first(), x);
        assert(extracted(elems.first()) + (extracted_from_elems(elems.drop_first()) + extracted(x))
            =~= (extracted(elems.first()) + extracted_from_elems(elems.drop_first())) + extracted(
            x,
        ));
    }
}

/// Appending a field to an object appends its bookmarks to the part
/// gathered from non-`children` fields.
pub proof fn lemma_extracted_fields_push(fields: Seq<FieldView>, f: FieldView)
    ensures
        extracted_from_fields(fields.push(f)) == extracted_from_fields(fields) + (if f.key
            == "children"@ {
            Seq::<BookmarkView>::empty()
        } else {
            extracted(f.value)
        }),
    decreases fields,
{
    let tail = if f.key == "children"@ {
        Seq::<BookmarkView>::empty()
    } else {
        extracted(f.value)
    };
    if fields.len() == 0 {
        assert(fields.push(f).first() == f);
        assert(fields.push(f).drop_first() =~= fields);
        assert(extracted_from_fields(fields) =~= Seq::<BookmarkView>::empty());
        assert(extracted_from_fields(fields.push(f)) =~= extracted_from_fields(fields) + tail);
    } else {
        assert(fields.push(f).first() == fields.first());
        assert(fields.push(f).drop_first() =~= fields.drop_first().push(f));
        lemma_extracted_fields_push(fields.drop_first(), f);
        if fields.first().key == "children"@ {
        } else {
            assert(extracted(fields.first().value) + (extracted_from_fields(fields.drop_first())
                + tail) =~= (extracted(fields.first().value) + extracted_from_fields(
                fields.drop_first(),
            )) + tail);
        }
    }
}

/// The `children` part may skip any prefix of fields whose keys are not
/// `children`.
pub proof fn lemma_children_scan(fields: Seq<FieldView>, i: int)
    requires
        0 <= i <= fields.len(),
        forall|j: int| 0 <= j < i ==> (#[trigger] fields[j]).key != "children"@,
    ensures
        extracted_from_children(fields) == extracted_from_children(
            fields.subrange(i, fields.len() as int),
        ),
    decreases i,
{
    if i > 0 {
        assert(fields.first().key != "children"@);
        lemma_children_scan(fields.drop_first(), i - 1);
        assert(fields.drop_first().subrange(i - 1, fields.drop_first().len() as int) =~= fields
            .subrange(i, fields.len() as int));
    } else {
        assert(fields.subrange(0, fields.len() as int) =~= fields);
    }
}

/// Walks one node and appends every bookmark below it, in extraction
/// order, to `collected`.
pub fn collect_nodes(node: &Node, collected: &mut Vec<Bookmark>)
    ensures
        bookmark_views(final(collected)@) == bookmark_views(old(collected)@) + extracted(node@),
    decreases *node,
{
    match node {
        Node::Str(_) => {
            proof {
                assert(bookmark_views(collected@) =~= bookmark_views(collected@) + extracted(
                    node@,
                ));
            }
        },
        Node::Other(_) => {
            proof {
                assert(bookmark_views(collected@) =~= bookmark_views(collected@) + extracted(
                    node@,
                ));
            }
        },
        Node::Array(elems) => {
            let ghost init = collected@;
            let ghost views = node_views(elems@);
            proof {
                lemma_node_views_index(elems@);
            }
            let n = elems.len();
            let mut j: usize = 0;
            while j < n
                invariant
                    n == elems@.len(),
                    views == node_views(elems@),
                    views.len() == elems@.len(),
                    forall|k: int|
                        0 <= k < elems@.len() ==> views[k] == node_view(#[trigger] elems@[k]),
                    0 <= j <= n,
                    bookmark_views(collected@) == bookmark_views(init) + extracted_from_elems(
                        views.subrange(0, j as int),
                    ),
                    node == &Node::Array(*elems),
                decreases n - j,
            {
                proof {
                    assert(decreases_to!(*node => (*node)->Array_0));
                    assert((*node)->Array_0 == *elems);
                    assert(decreases_to!(*elems => elems@));
                    assert(decreases_to!(elems@ => elems@[j as int]));
                }
                collect_nodes(&elems[j], collected);
                proof {
                    assert(views.subrange(0, j + 1) =~= views.subrange(0, j as int).push(
                        views[j as int],
                    ));
                    lemma_extracted_elems_push(views.subrange(0, j as int), views[j as int]);
                    assert(bookmark_views(init) + (extracted_from_elems(
                        views.subrange(0, j as int),
                    ) + extracted(views[j as int])) =~= bookmark_views(init)
                        + extracted_from_elems(views.subrange(0, j + 1)));
                }
                j += 1;
            }
            proof {
                assert(views.subrange(0, n as int) =~= views);
            }
        },
        Node::Object(fields) => {
            let ghost init = collected@;
            let ghost views = field_views(fields@);
            proof {
                lemma_field_views_index(fields@);
            }
            let type_key: String = "type".to_owned();
            let name_key: String = "name".to_owned();
            let url_key: String = "url".to_owned();
            let children_key: String = "children".to_owned();

            // The object's own entry, when it is a URL leaf.
            let is_leaf = match find_field_index(fields, &type_key) {
                Some(ti) => match &fields[ti].value {
                    Node::Str(tv) => tv.eq(&url_key),
                    _ => false,
                },
                None => false,
            };
            if is_leaf {
                match (find_field_index(fields, &name_key), find_field_index(fields, &url_key)) {
                    (Some(ni), Some(ui)) => {
                        match (&fields[ni].value, &fields[ui].value) {
                            (Node::Str(name), Node::Str(url)) => {
                                collected.push(Bookmark { name: name.clone(), url: url.clone() });
                            },
                            _ => {},
                        }
                    },
                    _ => {},
                }
            }
            proof {
                assert(bookmark_views(collected@) =~= bookmark_views(init) + leaf_entry(views));
            }

            // The entries under the `children` array, element-wise.
            let ghost after_leaf = collected@;
            match find_field_index(fields, &children_key) {
                Some(ci) => {
                    match &fields[ci].value {
                        Node::Array(elems) => {
                            let ghost evs = node_views(elems@);
                            proof {
                                lemma_node_views_index(elems@);
                                assert forall|j: int|
                                    0 <= j < ci implies (#[trigger] views[j]).key
                                    != "children"@ by {
                                    assert(views[j] == fields@[j]@);
                                }
                                lemma_children_scan(views, ci as int);
                                assert(views.subrange(ci as int, views.len() as int).first()
                                    == views[ci as int]);
                                assert(extracted_from_children(views) == extracted_from_elems(
                                    evs,
                                ));
                            }
                            let n = elems.len();
                            let mut j: usize = 0;
                            while j < n
                                invariant
                                    n == elems@.len(),
                                    evs == node_views(elems@),
                                    evs.len() == elems@.len(),
                                    forall|k: int|
                                        0 <= k < elems@.len() ==> evs[k] == node_view(
                                            #[trigger] elems@[k],
                                        ),
                                    0 <= j <= n,
                                    bookmark_views(collected@) == bookmark_views(after_leaf)
                                        + extracted_from_elems(evs.subrange(0, j as int)),
                                    node == &Node::Object(*fields),
                                    ci < fields@.len(),
                                    fields@[ci as int].value == Node::Array(*elems),
                                decreases n - j,
                            {
                                proof {
                                    assert(decreases_to!(*node => (*node)->Object_0));
                                    assert((*node)->Object_0 == *fields);
                                    assert(decreases_to!(*fields => fields@));
                                    assert(decreases_to!(fields@ => fields@[ci as int]));
                                    assert(decreases_to!(fields@[ci as int] => fields@[ci
                                        as int].value));
                                    let cv = fields@[ci as int].value;
                                    assert(decreases_to!(cv => cv->Array_0));
                                    assert(cv->Array_0 == *elems);
                                    assert(decreases_to!(*elems => elems@));
                                    assert(decreases_to!(elems@ => elems@[j as int]));
                                }
                                collect_nodes(&elems[j], collected);
                                proof {
                                    assert(evs.subrange(0, j + 1) =~= evs.subrange(0, j as int)
                                        .push(evs[j as int]));
                                    lemma_extracted_elems_push(
                                        evs.subrange(0, j as int),
                                        evs[j as int],
                                    );
                                    assert(bookmark_views(after_leaf) + (extracted_from_elems(
                                        evs.subrange(0, j as int),
                                    ) + extracted(evs[j as int])) =~= bookmark_views(after_leaf)
                                        + extracted_from_elems(evs.subrange(0, j + 1)));
                                }
                                j += 1;
                            }
                            proof {
                                assert(evs.subrange(0, n as int) =~= evs);
                            }
                        },
                        _ => {
                            proof {
                                assert forall|j: int|
                                    0 <= j < ci implies (#[trigger] views[j]).key
                                    != "children"@ by {
                                    assert(views[j] == fields@[j]@);
                                }
                                lemma_children_scan(views, ci as int);
                                assert(views.subrange(ci as int, views.len() as int).first()
                                    == views[ci as int]);
                                assert(extracted_from_children(views)
                                    =~= Seq::<BookmarkView>::empty());
                            }
                        },
                    }
                },
                None => {
                    proof {
                        assert forall|j: int|
                            0 <= j < views.len() implies (#[trigger] views[j]).key
                            != "children"@ by {
                            assert(views[j] == fields@[j]@);
                        }
                        lemma_children_scan(views, views.len() as int);
                        assert(views.subrange(views.len() as int, views.len() as int).len() == 0);
                        assert(extracted_from_children(views) =~= Seq::<BookmarkView>::empty());
                    }
                },
            }
            proof {
                assert(bookmark_views(collected@) =~= bookmark_views(init) + leaf_entry(views)
                    + extracted_from_children(views));
            }

            // The entries under every other field, in field order.
            let ghost after_children = collected@;
            let n = fields.len();
            let mut k: usize = 0;
            while k < n
                invariant
                    n == fields@.len(),
                    views == field_views(fields@),
                    views.len() == fields@.len(),
                    forall|i: int| 0 <= i < fields@.len() ==> views[i] == (#[trigger] fields@[i])@,
                    0 <= k <= n,
                    bookmark_views(collected@) == bookmark_views(after_children)
                        + extracted_from_fields(views.subrange(0, k as int)),
                    node == &Node::Object(*fields),
                    children_key@ == "children"@,
                decreases n - k,
            {
                let skip = fields[k].key.eq(&children_key);
                if !skip {
                    proof {
                        assert(decreases_to!(*node => (*node)->Object_0));
                        assert((*node)->Object_0 == *fields);
                        assert(decreases_to!(*fields => fields@));
                        assert(decreases_to!(fields@ => fields@[k as int]));
                        assert(decreases_to!(fields@[k as int] => fields@[k as int].value));
                    }
                    collect_nodes(&fields[k].value, collected);
                }
                proof {
                    assert(views.subrange(0, k + 1) =~= views.subrange(0, k as int).push(
                        views[k as int],
                    ));
                    lemma_extracted_fields_push(views.subrange(0, k as int), views[k as int]);
                    if skip {
                        assert(bookmark_views(collected@) =~= bookmark_views(after_children)
                            + extracted_from_fields(views.subrange(0, k + 1)));
                    } else {
                        assert(bookmark_views(after_children) + (extracted_from_fields(
                            views.subrange(0, k as int),
                        ) + extracted(views[k as int].value)) =~= bookmark_views(after_children)
                            + extracted_from_fields(views.subrange(0, k + 1)));
                    }
                }
                k += 1;
            }
            proof {
                assert(views.subrange(0, n as int) =~= views);
                assert(bookmark_views(collected@) =~= bookmark_views(init) + (leaf_entry(views)
                    + extracted_from_children(views) + extracted_from_fields(views)));
            }
        },
    }
}

/// Extracts every bookmark below `root`, in extraction order: depth-first
/// and pre-order, an object's own entry first, then its `children`, then
/// its other fields.
pub fn extract_bookmarks(root: &Node) -> (r: Vec<Bookmark>)
    ensures
        bookmark_views(r@) == extracted(root@),
{
    let mut collected: Vec<Bookmark> = Vec::new();
    collect_nodes(root, &mut collected);
    proof {
        assert(bookmark_views(Seq::<Bookmark>::empty()) + extracted(root@) =~= extracted(root@));
    }
    collected
}

/// Whether a node is marked for removal by its parent: an object whose
/// `type` field is the string `url` and whose `url` field is a string
/// in the target set.
pub open spec fn is_marked(n: NodeView, targets: Set<Seq<char>>) -> bool {
    match n {
        NodeView::Object(fields) => obj_get(fields, "type"@) == Some(NodeView::Str("url"@))
            && match obj_get(fields, "url"@) {
            Some(NodeView::Str(url)) => targets.contains(url),
            _ => false,
        },
        _ => false,
    }
}

/// The node after the removal pass, when the node itself is not excised
/// by its parent. A marked node is returned unchanged: excising it is its
/// parent's task, and the pass never excises the root it was given.
pub open spec fn pruned(n: NodeView, targets: Set<Seq<char>>) -> NodeView
    decreases n,
{
    if is_marked(n, targets) {
        n
    } else {
        match n {
            NodeView::Str(_) => n,
            NodeView::Other(_) => n,
            NodeView::Array(elems) => NodeView::Array(pruned_elems(elems, targets)),
            NodeView::Object(fields) => NodeView::Object(pruned_fields(fields, targets)),
        }
    }
}

/// The elements of an array after the removal pass: marked elements are
/// excised, the survivors are pruned in place, and their relative order
/// is preserved.
pub open spec fn pruned_elems(elems: Seq<NodeView>, targets: Set<Seq<char>>) -> Seq<NodeView>
    decreases elems,
{
    if elems.len() == 0 {
        Seq::empty()
    } else if is_marked(elems.first(), targets) {
        pruned_elems(elems.drop_first(), targets)
    } else {
        seq![pruned(elems.first(), targets)] + pruned_elems(elems.drop_first(), targets)
    }
}

/// The fields of an object after the removal pass. A `children` field
/// that is an array has its elements processed element-wise; a `children`
/// field of any other shape is left untouched; every other field has its
/// value processed, and the field is excised when the value is marked.
pub open spec fn pruned_fields(fields: Seq<FieldView>, targets: Set<Seq<char>>) -> Seq<FieldView>
    decreases fields,
{
    if fields.len() == 0 {
        Seq::empty()
    } else {
        let f = fields.first();
        let rest = pruned_fields(fields.drop_first(), targets);
        if f.key == "children"@ {
            match f.value {
                NodeView::Array(elems) => seq![
                    FieldView { key: f.key, value: NodeView::Array(pruned_elems(elems, targets)) },
                ] + rest,
                _ => seq![f] + rest,
            }
        } else if is_marked(f.value, targets) {
            rest
        } else {
            seq![FieldView { key: f.key, value: pruned(f.value, targets) }] + rest
        }
    }
}

/// How many leaf matches the removal pass counts below a node that is not
/// itself excised; a marked node counts as one match, whatever is below it.
pub open spec fn prune_count(n: NodeView, targets: Set<Seq<char>>) -> nat
    decreases n,
{
    if is_marked(n, targets) {
        1
    } else {
        match n {
            NodeView::Str(_) => 0,
            NodeView::Other(_) => 0,
            NodeView::Array(elems) => prune_count_elems(elems, targets),
            NodeView::Object(fields) => prune_count_fields(fields, targets),
        }
    }
}

/// The matches counted across the elements of an array.
pub open spec fn prune_count_elems(elems: Seq<NodeView>, targets: Set<Seq<char>>) -> nat
    decreases elems,
{
    if elems.len() == 0 {
        0
    } else {
        prune_count(elems.first(), targets) + prune_count_elems(elems.drop_first(), targets)
    }
}

/// The matches counted across the fields of an object.
pub open spec fn prune_count_fields(fields: Seq<FieldView>, targets: Set<Seq<char>>) -> nat
    decreases fields,
{
    if fields.len() == 0 {
        0
    } else {
        let f = fields.first();
        let rest = prune_count_fields(fields.drop_first(), targets);
        if f.key == "children"@ {
            (match f.value {
                NodeView::Array(elems) => prune_count_elems(elems, targets),
                _ => 0,
            }) + rest
        } else {
            prune_count(f.value, targets) + rest
        }
    }
}

/// `field_views` distributes over concatenation.
pub proof fn lemma_field_views_concat(a: Seq<Field>, b: Seq<Field>)
    ensures
        field_views(a + b) == field_views(a) + field_views(b),
    decreases a,
{
    if a.len() == 0 {
        assert(a + b =~= b);
        assert(field_views(a) + field_views(b) =~= field_views(b));
    } else {
        assert((a + b).first() == a.first());
        assert((a + b).drop_first() =~= a.drop_first() + b);
        lemma_field_views_concat(a.drop_first(), b);
        assert(field_views(a + b) =~= field_views(a) + field_views(b));
    }
}

/// `node_views` distributes over concatenation.
pub proof fn lemma_node_views_concat(a: Seq<Node>, b: Seq<Node>)
    ensures
        node_views(a + b) == node_views(a) + node_views(b),
    decreases a,
{
    if a.len() == 0 {
        assert(a + b =~= b);
        assert(node_views(a) + node_views(b) =~= node_views(b));
    } else {
        assert((a + b).first() == a.first());
        assert((a + b).drop_first() =~= a.drop_first() + b);
        lemma_node_views_concat(a.drop_first(), b);
        assert(node_views(a + b) =~= node_views(a) + node_views(b));
    }
}

/// `pruned_elems` distributes over concatenation.
pub proof fn lemma_pruned_elems_concat(a: Seq<NodeView>, b: Seq<NodeView>, targets: Set<Seq<char>>)
    ensures
        pruned_elems(a + b, targets) == pruned_elems(a, targets) + pruned_elems(b, targets),
    decreases a,
{
    if a.len() == 0 {
        assert(a + b =~= b);
        assert(pruned_elems(a, targets) + pruned_elems(b, targets) =~= pruned_elems(b, targets));
    } else {
        assert((a + b).first() == a.first());
        assert((a + b).drop_first() =~= a.drop_first() + b);
        lemma_pruned_elems_concat(a.drop_first(), b, targets);
        assert(pruned_elems(a + b, targets) =~= pruned_elems(a, targets) + pruned_elems(
            b,
            targets,
        ));
    }
}

/// `prune_count_elems` distributes over concatenation.
pub proof fn lemma_prune_count_elems_concat(
    a: Seq<NodeView>,
    b: Seq<NodeView>,
    targets: Set<Seq<char>>,
)
    ensures
        prune_count_elems(a + b, targets) == prune_count_elems(a, targets) + prune_count_elems(
            b,
            targets,
        ),
    decreases a,
{
    if a.len() == 0 {
        assert(a + b =~= b);
    } else {
        assert((a + b).first() == a.first());
        assert((a + b).drop_first() =~= a.drop_first() + b);
        lemma_prune_count_elems_concat(a.drop_first(), b, targets);
    }
}

/// `pruned_fields` distributes over concatenation.
pub proof fn lemma_pruned_fields_concat(
    a: Seq<FieldView>,
    b: Seq<FieldView>,
    targets: Set<Seq<char>>,
)
    ensures
        pruned_fields(a + b, targets) == pruned_fields(a, targets) + pruned_fields(b, targets),
    decreases a,
{
    if a.len() == 0 {
        assert(a + b =~= b);
        assert(pruned_fields(a, targets) + pruned_fields(b, targets) =~= pruned_fields(
            b,
            targets,
        ));
    } else {
        assert((a + b).first() == a.first());
        assert((a + b).drop_first() =~= a.drop_first() + b);
        lemma_pruned_fields_concat(a.drop_first(), b, targets);
        assert(pruned_fields(a + b, targets) =~= pruned_fields(a, targets) + pruned_fields(
            b,
            targets,
        ));
    }
}

/// `prune_count_fields` distributes over concatenation.
pub proof fn lemma_prune_count_fields_concat(
    a: Seq<FieldView>,
    b: Seq<FieldView>,
    targets: Set<Seq<char>>,
)
    ensures
        prune_count_fields(a + b, targets) == prune_count_fields(a, targets) + prune_count_fields(
            b,
            targets,
        ),
    decreases a,
{
    if a.len() == 0 {
        assert(a + b =~= b);
    } else {
        assert((a + b).first() == a.first());
        assert((a + b).drop_first() =~= a.drop_first() + b);
        lemma_prune_count_fields_concat(a.drop_first(), b, targets);
    }
}

/// Processes one node of the removal pass. The returned pair is the
/// number of leaf matches counted below (and at) the node, and whether
/// the node itself is marked, in which case it was left unchanged and
/// the caller excises it.
pub fn remove_node(node: &mut Node, targets: &TargetSet) -> (r: (usize, bool))
    requires
        prune_count(old(node)@, targets@) <= usize::MAX,
    ensures
        r.1 == is_marked(old(node)@, targets@),
        r.1 ==> *final(node) == *old(node) && r.0 == 1,
        !r.1 ==> final(node)@ == pruned(old(node)@, targets@) && r.0 as nat == prune_count(
            old(node)@,
            targets@,
        ),
    decreases *old(node),
{
    match node {
        Node::Str(_) => (0, false),
        Node::Other(_) => (0, false),
        Node::Array(elems) => {
            let ghost es0: Seq<Node> = elems@;
            let ghost vs0: Seq<NodeView> = node_views(es0);
            proof {
                lemma_node_views_index(es0);
                assert(old(node)@ == NodeView::Array(vs0));
            }
            let mut removed: usize = 0;
            let mut i: usize = 0;
            let ghost mut g: int = 0;
            while i < elems.len()
                invariant
                    prune_count(old(node)@, targets@) <= usize::MAX,
                    old(node)@ == NodeView::Array(vs0),
                    !is_marked(old(node)@, targets@),
                    *old(node) is Array,
                    ((*old(node))->Array_0)@ == es0,
                    vs0 == node_views(es0),
                    vs0.len() == es0.len(),
                    forall|k: int| 0 <= k < es0.len() ==> vs0[k] == node_view(#[trigger] es0[k]),
                    0 <= g <= es0.len(),
                    i as int <= elems@.len(),
                    elems@.len() - i == es0.len() - g,
                    elems@.subrange(i as int, elems@.len() as int) == es0.subrange(
                        g,
                        es0.len() as int,
                    ),
                    node_views(elems@.subrange(0, i as int)) == pruned_elems(
                        node_views(es0.subrange(0, g)),
                        targets@,
                    ),
                    i as int == pruned_elems(node_views(es0.subrange(0, g)), targets@).len(),
                    removed as nat == prune_count_elems(node_views(es0.subrange(0, g)), targets@),
                decreases elems@.len() - i,
            {
                let ghost pre = elems@;
                proof {
                    assert(pre.subrange(i as int, pre.len() as int)[0] == pre[i as int]);
                    assert(pre[i as int] == es0[g]);
                }
                let mut child = elems.remove(i);
                proof {
                    assert(child == es0[g]);
                    assert(decreases_to!(*old(node) => (*old(node))->Array_0));
                    assert(decreases_to!((*old(node))->Array_0 => es0));
                    assert(decreases_to!(es0 => es0[g]));
                    assert(es0.subrange(0, g + 1) =~= es0.subrange(0, g) + seq![es0[g]]);
                    lemma_node_views_concat(es0.subrange(0, g), seq![es0[g]]);
                    assert(seq![es0[g]].drop_first() =~= Seq::<Node>::empty());
                    assert(node_views(Seq::<Node>::empty()) =~= Seq::<NodeView>::empty());
                    assert(node_views(seq![es0[g]]) =~= seq![node_view(es0[g])]);
                    lemma_prune_count_elems_concat(
                        node_views(es0.subrange(0, g)),
                        seq![node_view(es0[g])],
                        targets@,
                    );
                    assert(es0 =~= es0.subrange(0, g + 1) + es0.subrange(g + 1, es0.len() as int));
                    lemma_node_views_concat(
                        es0.subrange(0, g + 1),
                        es0.subrange(g + 1, es0.len() as int),
                    );
                    lemma_prune_count_elems_concat(
                        node_views(es0.subrange(0, g + 1)),
                        node_views(es0.subrange(g + 1, es0.len() as int)),
                        targets@,
                    );
                    assert(seq![node_view(es0[g])].drop_first() =~= Seq::<NodeView>::empty());
                    assert(prune_count_elems(Seq::<NodeView>::empty(), targets@) == 0);
                    assert(prune_count_elems(seq![node_view(es0[g])], targets@) == prune_count(
                        node_view(es0[g]),
                        targets@,
                    ));
                    assert(prune_count(child@, targets@) <= usize::MAX);
                }
                let (c, marked) = remove_node(&mut child, targets);
                removed = removed + c;
                let ghost mid = elems@;
                let ghost i0 = i as int;
                if !marked {
                    elems.insert(i, child);
                    proof {
                        assert(elems@ =~= mid.insert(i as int, child));
                    }
                    i += 1;
                }
                proof {
                    g = g + 1;
                    lemma_pruned_elems_concat(
                        node_views(es0.subrange(0, g - 1)),
                        seq![node_view(es0[g - 1])],
                        targets@,
                    );
                    assert(seq![node_view(es0[g - 1])].drop_first() =~= Seq::<NodeView>::empty());
                    assert(pruned_elems(Seq::<NodeView>::empty(), targets@)
                        =~= Seq::<NodeView>::empty());
                    assert(es0.subrange(0, g) =~= es0.subrange(0, g - 1) + seq![es0[g - 1]]);
                    assert(pre.subrange(i0, pre.len() as int) == es0.subrange(
                        g - 1,
                        es0.len() as int,
                    ));
                    if !marked {
                        assert(elems@ == mid.insert(i0, child));
                        assert(mid == pre.remove(i0));
                        assert forall|k: int|
                            i as int <= k < elems@.len() implies elems@[k] == es0[g + (k
                            - i as int)] by {
                            assert(elems@[k] == mid[k - 1]);
                            assert(mid[k - 1] == pre[k]);
                            assert(pre.subrange(i0, pre.len() as int)[k - i0] == pre[k]);
                            assert(es0.subrange(g - 1, es0.len() as int)[k - i0] == es0[g - 1 + (k
                                - i0)]);
                            assert(pre[k] == es0[g - 1 + (k - i0)]);
                        }
                        assert(elems@.subrange(i as int, elems@.len() as int) =~= es0.subrange(
                            g,
                            es0.len() as int,
                        ));
                        assert(elems@.subrange(0, i as int) =~= pre.subrange(0, i0).push(child));
                        lemma_node_views_concat(pre.subrange(0, i0), seq![child]);
                        assert(pre.subrange(0, i0).push(child) =~= pre.subrange(0, i0)
                            + seq![child]);
                        assert(seq![child].drop_first() =~= Seq::<Node>::empty());
                        assert(node_views(Seq::<Node>::empty()) =~= Seq::<NodeView>::empty());
                        assert(node_views(seq![child]) =~= seq![node_view(child)]);
                    } else {
                        assert(elems@ == pre.remove(i0));
                        assert forall|k: int|
                            i as int <= k < elems@.len() implies elems@[k] == es0[g + (k
                            - i as int)] by {
                            assert(elems@[k] == pre[k + 1]);
                            assert(pre.subrange(i0, pre.len() as int)[k + 1 - i0] == pre[k + 1]);
                            assert(es0.subrange(g - 1, es0.len() as int)[k + 1 - i0] == es0[g - 1
                                + (k + 1 - i0)]);
                            assert(pre[k + 1] == es0[g - 1 + (k + 1 - i0)]);
                        }
                        assert(elems@.subrange(i as int, elems@.len() as int) =~= es0.subrange(
                            g,
                            es0.len() as int,
                        ));
                        assert(elems@.subrange(0, i as int) =~= pre.subrange(0, i0));
                    }
                    assert(node_views(elems@.subrange(0, i as int)) =~= pruned_elems(
                        node_views(es0.subrange(0, g)),
                        targets@,
                    ));
                }
            }
            proof {
                assert(es0.subrange(0, es0.len() as int) =~= es0);
                assert(elems@.subrange(0, elems@.len() as int) =~= elems@);
                assert(node_views(elems@) == pruned_elems(vs0, targets@));
            }
            (removed, false)
        },
        Node::Object(fields) => {
            let ghost fs0: Seq<Field> = fields@;
            let ghost vs0: Seq<FieldView> = field_views(fs0);
            proof {
                lemma_field_views_index(fs0);
                assert(old(node)@ == NodeView::Object(vs0));
            }
            let type_key: String = "type".to_owned();
            let url_key: String = "url".to_owned();
            let children_key: String = "children".to_owned();

            let mut marked = false;
            match find_field_index(fields, &type_key) {
                Some(ti) => {
                    let is_url_type = match &fields[ti].value {
                        Node::Str(tv) => tv.eq(&url_key),
                        _ => false,
                    };
                    if is_url_type {
                        match find_field_index(fields, &url_key) {
                            Some(ui) => {
                                match &fields[ui].value {
                                    Node::Str(u) => {
                                        if targets.contains(u) {
                                            marked = true;
                                        }
                                    },
                                    _ => {},
                                }
                            },
                            None => {},
                        }
                    }
                },
                None => {},
            }
            proof {
                assert(marked == is_marked(old(node)@, targets@));
            }
            if marked {
                return (1, true);
            }

            let mut removed: usize = 0;
            let mut i: usize = 0;
            let ghost mut g: int = 0;
            while i < fields.len()
                invariant
                    prune_count(old(node)@, targets@) <= usize::MAX,
                    old(node)@ == NodeView::Object(vs0),
                    !is_marked(old(node)@, targets@),
                    *old(node) is Object,
                    ((*old(node))->Object_0)@ == fs0,
                    vs0 == field_views(fs0),
                    vs0.len() == fs0.len(),
                    forall|k: int| 0 <= k < fs0.len() ==> vs0[k] == (#[trigger] fs0[k])@,
                    children_key@ == "children"@,
                    0 <= g <= fs0.len(),
                    i as int <= fields@.len(),
                    fields@.len() - i == fs0.len() - g,
                    fields@.subrange(i as int, fields@.len() as int) == fs0.subrange(
                        g,
                        fs0.len() as int,
                    ),
                    field_views(fields@.subrange(0, i as int)) == pruned_fields(
                        field_views(fs0.subrange(0, g)),
                        targets@,
                    ),
                    i as int == pruned_fields(field_views(fs0.subrange(0, g)), targets@).len(),
                    removed as nat == prune_count_fields(field_views(fs0.subrange(0, g)), targets@),
                decreases fields@.len() - i,
            {
                let ghost pre = fields@;
                proof {
                    assert(pre.subrange(i as int, pre.len() as int)[0] == pre[i as int]);
                    assert(pre[i as int] == fs0[g]);
                }
                let mut f = fields.remove(i);
                proof {
                    assert(f == fs0[g]);
                    assert(decreases_to!(*old(node) => (*old(node))->Object_0));
                    assert(decreases_to!((*old(node))->Object_0 => fs0));
                    assert(decreases_to!(fs0 => fs0[g]));
                    assert(decreases_to!(fs0[g] => fs0[g].value));
                    assert(fs0.subrange(0, g + 1) =~= fs0.subrange(0, g) + seq![fs0[g]]);
                    lemma_field_views_concat(fs0.subrange(0, g), seq![fs0[g]]);
                    assert(seq![fs0[g]].drop_first() =~= Seq::<Field>::empty());
                    assert(field_views(Seq::<Field>::empty()) =~= Seq::<FieldView>::empty());
                    assert(field_views(seq![fs0[g]]) =~= seq![fs0[g]@]);
                    assert(seq![fs0[g]@].drop_first() =~= Seq::<FieldView>::empty());
                    assert(prune_count_fields(Seq::<FieldView>::empty(), targets@) == 0);
                    assert(pruned_fields(Seq::<FieldView>::empty(), targets@)
                        =~= Seq::<FieldView>::empty());
                    lemma_prune_count_fields_concat(
                        field_views(fs0.subrange(0, g)),
                        seq![fs0[g]@],
                        targets@,
                    );
                    assert(fs0 =~= fs0.subrange(0, g + 1) + fs0.subrange(g + 1, fs0.len() as int));
                    lemma_field_views_concat(
                        fs0.subrange(0, g + 1),
                        fs0.subrange(g + 1, fs0.len() as int),
                    );
                    lemma_prune_count_fields_concat(
                        field_views(fs0.subrange(0, g + 1)),
                        field_views(fs0.subrange(g + 1, fs0.len() as int)),
                        targets@,
                    );
                }
                let is_children = f.key.eq(&children_key);
                let ghost i0 = i as int;
                let ghost fv0 = f@;
                let mut kept = true;
                if is_children {
                    let is_array = matches!(f.value, Node::Array(_));
                    if is_array {
                        proof {
                            assert(prune_count(f.value@, targets@) == prune_count_fields(
                                seq![fs0[g]@],
                                targets@,
                            ));
                            assert(prune_count(f.value@, targets@) <= usize::MAX);
                        }
                        let (c, _child_marked) = remove_node(&mut f.value, targets);
                        removed = removed + c;
                    }
                    let ghost mid = fields@;
                    fields.insert(i, f);
                    proof {
                        assert(fields@ =~= mid.insert(i as int, f));
                    }
                    i += 1;
                } else {
                    proof {
                        assert(prune_count(f.value@, targets@) == prune_count_fields(
                            seq![fs0[g]@],
                            targets@,
                        ));
                        assert(prune_count(f.value@, targets@) <= usize::MAX);
                    }
                    let (c, child_marked) = remove_node(&mut f.value, targets);
                    removed = removed + c;
                    if !child_marked {
                        let ghost mid = fields@;
                        fields.insert(i, f);
                        proof {
                            assert(fields@ =~= mid.insert(i as int, f));
                        }
                        i += 1;
                    } else {
                        kept = false;
                    }
                }
                proof {
                    g = g + 1;
                    lemma_pruned_fields_concat(
                        field_views(fs0.subrange(0, g - 1)),
                        seq![fs0[g - 1]@],
                        targets@,
                    );
                    assert(fs0.subrange(0, g) =~= fs0.subrange(0, g - 1) + seq![fs0[g - 1]]);
                    assert(pre.subrange(i0, pre.len() as int) == fs0.subrange(
                        g - 1,
                        fs0.len() as int,
                    ));
                    let step_part = pruned_fields(seq![fs0[g - 1]@], targets@);
                    if kept {
                        assert(fields@ == pre.remove(i0).insert(i0, f));
                        assert forall|k: int|
                            i as int <= k < fields@.len() implies fields@[k] == fs0[g + (k
                            - i as int)] by {
                            assert(fields@[k] == pre.remove(i0)[k - 1]);
                            assert(pre.remove(i0)[k - 1] == pre[k]);
                            assert(pre.subrange(i0, pre.len() as int)[k - i0] == pre[k]);
                            assert(fs0.subrange(g - 1, fs0.len() as int)[k - i0] == fs0[g - 1 + (k
                                - i0)]);
                            assert(pre[k] == fs0[g - 1 + (k - i0)]);
                        }
                        assert(fields@.subrange(i as int, fields@.len() as int) =~= fs0.subrange(
                            g,
                            fs0.len() as int,
                        ));
                        assert(fields@.subrange(0, i as int) =~= pre.subrange(0, i0).push(f));
                        lemma_field_views_concat(pre.subrange(0, i0), seq![f]);
                        assert(pre.subrange(0, i0).push(f) =~= pre.subrange(0, i0) + seq![f]);
                        assert(seq![f].drop_first() =~= Seq::<Field>::empty());
                        assert(field_views(Seq::<Field>::empty()) =~= Seq::<FieldView>::empty());
                        assert(field_views(seq![f]) =~= seq![f@]);
                        if fv0.key == "children"@ {
                            match fv0.value {
                                NodeView::Array(cels) => {
                                    assert(f@ == FieldView {
                                        key: fv0.key,
                                        value: NodeView::Array(pruned_elems(cels, targets@)),
                                    });
                                    assert(step_part =~= seq![f@]);
                                },
                                _ => {
                                    assert(f@ == fv0);
                                    assert(step_part =~= seq![f@]);
                                },
                            }
                        } else {
                            assert(f@ == FieldView {
                                key: fv0.key,
                                value: pruned(fv0.value, targets@),
                            });
                            assert(step_part =~= seq![f@]);
                        }
                    } else {
                        assert(fields@ == pre.remove(i0));
                        assert forall|k: int|
                            i as int <= k < fields@.len() implies fields@[k] == fs0[g + (k
                            - i as int)] by {
                            assert(fields@[k] == pre[k + 1]);
                            assert(pre.subrange(i0, pre.len() as int)[k + 1 - i0] == pre[k + 1]);
                            assert(fs0.subrange(g - 1, fs0.len() as int)[k + 1 - i0] == fs0[g - 1
                                + (k + 1 - i0)]);
                            assert(pre[k + 1] == fs0[g - 1 + (k + 1 - i0)]);
                        }
                        assert(fields@.subrange(i as int, fields@.len() as int) =~= fs0.subrange(
                            g,
                            fs0.len() as int,
                        ));
                        assert(fields@.subrange(0, i as int) =~= pre.subrange(0, i0));
                        assert(is_marked(fv0.value, targets@));
                        assert(step_part =~= Seq::<FieldView>::empty());
                    }
                    assert(field_views(fields@.subrange(0, i as int)) =~= pruned_fields(
                        field_views(fs0.subrange(0, g)),
                        targets@,
                    ));
                }
            }
            proof {
                assert(fs0.subrange(0, fs0.len() as int) =~= fs0);
                assert(fields@.subrange(0, fields@.len() as int) =~= fields@);
                assert(field_views(fields@) == pruned_fields(vs0, targets@));
            }
            (removed, false)
        },
    }
}

/// Removes every leaf whose `url` is in the target set, excising marked
/// entries from their parents and keeping the survivors in their
/// original relative order. Returns how many matches were counted; the
/// root itself is never excised.
pub fn remove_targets(root: &mut Node, targets: &TargetSet) -> (removed: usize)
    requires
        prune_count(old(root)@, targets@) <= usize::MAX,
    ensures
        final(root)@ == pruned(old(root)@, targets@),
        removed as nat == prune_count(old(root)@, targets@),
{
    let r = remove_node(root, targets);
    r.0
}

} // verus!
