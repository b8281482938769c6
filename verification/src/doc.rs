//! The format-preserving document and its edits.
//!
//! The document itself is `toml_edit`'s tree, which keeps comments,
//! whitespace and ordering of everything an edit does not touch. This
//! module reads and rewrites that tree one slot at a time through a small
//! set of trusted wrappers — a child is taken out of its table slot,
//! edited, and put back into the same slot, so keys keep their places —
//! and makes every decision — how a dotted path resolves, when a missing
//! table is created, when an edit fails — in verified code, against the
//! tree model of [`crate::model`].

use vstd::prelude::*;

use crate::errors::EditError;
use crate::keypath::{Entry, Key};
use crate::model::{
    lemma_assign_into_fresh, ops_applied, tree_assigned, tree_deleted, Applied, OpDesc, Tree,
};
use toml_edit::{DocumentMut, Item};

verus! {

#[verifier::external_type_specification]
#[verifier::external_body]
pub struct ExDocumentMut(DocumentMut);

#[verifier::external_type_specification]
#[verifier::external_body]
pub struct ExItem(Item);

/// What a `toml_edit` item holds, as a tree of plain values: `Item::None`
/// is the absent marker, `Item::Table` a table of its children, and any
/// other item a leaf.
pub uninterp spec fn item_tree(i: Item) -> Tree;

/// What a `toml_edit` document holds: the tree of its root table.
pub uninterp spec fn doc_tree(d: DocumentMut) -> Tree;

/// The text a `toml_edit` document renders to.
pub uninterp spec fn doc_text(d: DocumentMut) -> Seq<char>;

/// What parsing a text as TOML yields: `None` when the text is not a valid
/// document, otherwise the tree of the parsed document.
pub uninterp spec fn toml_tree(s: Seq<char>) -> Option<Tree>;

/// Relies on `toml_edit::DocumentMut`'s `FromStr`: it parses TOML text into
/// a document whose root is a table, keeping the comments, whitespace and
/// order of what it read. Its round-trip is not byte-for-byte on every
/// input — the crate documents that a missing trailing newline and the
/// order of dotted keys are not preserved — so nothing is claimed here of
/// the parsed document's rendering.
#[verifier::external_body]
fn parse_doc(s: &str) -> (r: Result<DocumentMut, String>)
    ensures
        r is Ok <==> toml_tree(s@) is Some,
        r matches Ok(d) ==> (toml_tree(s@) matches Some(t) && doc_tree(d) == t) && doc_tree(d)
            is Table,
{
    match s.parse::<DocumentMut>() {
        Ok(d) => Ok(d),
        Err(e) => Err(e.to_string()),
    }
}

/// Relies on the `std::fmt::Display` impl of `toml_edit::DocumentMut`: it
/// renders the document to text.
#[verifier::external_body]
fn render_doc(d: &DocumentMut) -> (r: String)
    ensures
        r@ == doc_text(*d),
{
    d.to_string()
}

/// Relies on `toml_edit::DocumentMut::as_table_mut`, `Table::entry` and
/// `OccupiedEntry::insert`: takes the root table's child under `key` out
/// of its slot, leaving the absent marker in that slot, so that the key
/// keeps its place and its own formatting. A missing key changes nothing.
#[verifier::external_body]
fn doc_take_child(d: &mut DocumentMut, key: &str) -> (r: Option<Item>)
    requires
        doc_tree(*old(d)) is Table,
    ensures
        doc_tree(*old(d))->Table_0.contains_key(key@) ==> (r matches Some(c) && item_tree(c)
            == doc_tree(*old(d))->Table_0[key@]) && doc_tree(*final(d)) == Tree::Table(
            doc_tree(*old(d))->Table_0.insert(key@, Tree::Absent),
        ),
        !doc_tree(*old(d))->Table_0.contains_key(key@) ==> r is None && *final(d) == *old(d),
{
    match d.as_table_mut().entry(key) {
        toml_edit::Entry::Occupied(mut e) => Some(e.insert(Item::None)),
        toml_edit::Entry::Vacant(_) => None,
    }
}

/// Relies on `toml_edit::DocumentMut::as_table_mut`, `Table::entry`,
/// `OccupiedEntry::insert` and `VacantEntry::insert`: puts `child` under
/// `key` in the root table, into the key's existing slot where there is
/// one — keys never move — and at the end where the key is new.
#[verifier::external_body]
fn doc_put_child(d: &mut DocumentMut, key: &str, child: Item)
    requires
        doc_tree(*old(d)) is Table,
    ensures
        doc_tree(*final(d)) == Tree::Table(
            doc_tree(*old(d))->Table_0.insert(key@, item_tree(child)),
        ),
{
    match d.as_table_mut().entry(key) {
        toml_edit::Entry::Occupied(mut e) => {
            e.insert(child);
        },
        toml_edit::Entry::Vacant(e) => {
            e.insert(child);
        },
    }
}

/// Relies on `toml_edit::Item::is_table`: true exactly for a table item.
#[verifier::external_body]
fn item_is_table(i: &Item) -> (r: bool)
    ensures
        r <==> item_tree(*i) is Table,
{
    i.is_table()
}

/// Relies on `toml_edit::Item::is_none`: true exactly for the absent
/// marker.
#[verifier::external_body]
fn item_is_absent(i: &Item) -> (r: bool)
    ensures
        r <==> item_tree(*i) is Absent,
{
    i.is_none()
}

/// Relies on `toml_edit::Item::as_table_mut`, `Table::entry` and
/// `OccupiedEntry::insert`: takes the table item's child under `key` out
/// of its slot, leaving the absent marker in that slot, so that the key
/// keeps its place and its own formatting. A missing key changes nothing.
#[verifier::external_body]
fn item_take_child(i: &mut Item, key: &str) -> (r: Option<Item>)
    requires
        item_tree(*old(i)) is Table,
    ensures
        item_tree(*old(i))->Table_0.contains_key(key@) ==> (r matches Some(c) && item_tree(c)
            == item_tree(*old(i))->Table_0[key@]) && item_tree(*final(i)) == Tree::Table(
            item_tree(*old(i))->Table_0.insert(key@, Tree::Absent),
        ),
        !item_tree(*old(i))->Table_0.contains_key(key@) ==> r is None && *final(i) == *old(i),
{
    match i.as_table_mut() {
        Some(t) => match t.entry(key) {
            toml_edit::Entry::Occupied(mut e) => Some(e.insert(Item::None)),
            toml_edit::Entry::Vacant(_) => None,
        },
        None => None,
    }
}

/// Relies on `toml_edit::Item::as_table_mut`, `Table::entry`,
/// `OccupiedEntry::insert` and `VacantEntry::insert`: puts `child` under
/// `key` in the table item, into the key's existing slot where there is
/// one — keys never move — and at the end where the key is new.
#[verifier::external_body]
fn item_put_child(i: &mut Item, key: &str, child: Item)
    requires
        item_tree(*old(i)) is Table,
    ensures
        item_tree(*final(i)) == Tree::Table(
            item_tree(*old(i))->Table_0.insert(key@, item_tree(child)),
        ),
{
    if let Some(t) = i.as_table_mut() {
        match t.entry(key) {
            toml_edit::Entry::Occupied(mut e) => {
                e.insert(child);
            },
            toml_edit::Entry::Vacant(e) => {
                e.insert(child);
            },
        }
    }
}

/// Relies on `toml_edit::table()`: an item that is an empty table.
#[verifier::external_body]
fn new_table_item() -> (r: Item)
    ensures
        item_tree(r) == Tree::Table(Map::<Seq<char>, Tree>::empty()),
{
    toml_edit::table()
}

/// Relies on `toml_edit::value()`: an item that is a string value.
#[verifier::external_body]
fn new_value_item(v: &str) -> (r: Item)
    ensures
        item_tree(r) == Tree::Value(v@),
{
    toml_edit::value(v)
}

/// Relies on the `toml_edit::Item::None` variant: the absent marker, which
/// renders as nothing.
#[verifier::external_body]
fn new_absent_item() -> (r: Item)
    ensures
        item_tree(r) == Tree::Absent,
{
    Item::None
}

/// One edit against a resolved node: remove it, or replace it with a string
/// value.
pub(crate) enum EditOp {
    Delete,
    Assign(String),
}

/// The tree after applying `op` at `path`, or `None` when the path cannot
/// be resolved for that operation.
pub(crate) open spec fn op_applied(t: Tree, path: Seq<Seq<char>>, op: EditOp) -> Option<Tree> {
    match op {
        EditOp::Delete => tree_deleted(t, path),
        EditOp::Assign(v) => tree_assigned(t, path, v@),
    }
}

/// Resolves `path[i..]` against `item` and applies `op` at the resolved
/// node, descending one segment at a time. Every step takes the next
/// child out of its slot, recurses into it as an owned value, and puts it
/// back into the same slot, so that no key moves and every child keeps
/// its own formatting. When the path cannot be resolved, the item is left
/// as it was.
fn apply_at(item: &mut Item, path: &Vec<String>, i: usize, op: &EditOp) -> (ok: bool)
    requires
        i <= path.len(),
    ensures
        ({
            let p = path.deep_view().skip(i as int);
            match op_applied(item_tree(*old(item)), p, *op) {
                Some(t) => ok && item_tree(*final(item)) == t,
                None => !ok && item_tree(*final(item)) == item_tree(*old(item)),
            }
        }),
    decreases path.len() - i,
{
    proof {
        assert(path.deep_view().len() == path@.len());
    }
    let ghost p = path.deep_view().skip(i as int);
    if i == path.len() {
        match op {
            EditOp::Delete => {
                if item_is_absent(item) {
                    false
                } else {
                    *item = new_absent_item();
                    true
                }
            },
            EditOp::Assign(v) => {
                if item_is_absent(item) {
                    false
                } else {
                    *item = new_value_item(v.as_str());
                    true
                }
            },
        }
    } else {
        if !item_is_table(item) {
            return false;
        }
        let seg: &String = &path[i];
        let ghost m = item_tree(*item)->Table_0;
        proof {
            assert(p[0] == path.deep_view()[i as int]);
            assert(p.skip(1) =~~= path.deep_view().skip(i as int + 1));
        }
        match item_take_child(item, seg.as_str()) {
            None => {
                match op {
                    EditOp::Delete => false,
                    EditOp::Assign(_) => {
                        let mut child = new_table_item();
                        proof {
                            lemma_assign_into_fresh(p.skip(1), (*op)->Assign_0@);
                        }
                        let ok = apply_at(&mut child, path, i + 1, op);
                        item_put_child(item, seg.as_str(), child);
                        ok
                    },
                }
            },
            Some(child_in) => {
                let mut child = child_in;
                let ghost child_model = item_tree(child);
                let replace = match op {
                    EditOp::Delete => false,
                    EditOp::Assign(_) => item_is_absent(&child),
                };
                if replace {
                    child = new_table_item();
                    proof {
                        lemma_assign_into_fresh(p.skip(1), (*op)->Assign_0@);
                    }
                }
                let ok = apply_at(&mut child, path, i + 1, op);
                let ghost child_after = item_tree(child);
                item_put_child(item, seg.as_str(), child);
                proof {
                    assert(m.insert(seg@, Tree::Absent).insert(seg@, child_after) =~= m.insert(
                        seg@,
                        child_after,
                    ));
                    if !ok {
                        assert(m.insert(seg@, Tree::Absent).insert(seg@, child_model) =~= m);
                    }
                }
                ok
            },
        }
    }
}

/// A parsed document: `toml_edit`'s tree, with the formatting of everything
/// an edit does not touch. Its view is the tree model of its contents.
pub struct TomlDoc {
    d: DocumentMut,
}

impl View for TomlDoc {
    type V = Tree;

    closed spec fn view(&self) -> Tree {
        doc_tree(self.d)
    }
}

impl TomlDoc {
    /// The text this document renders to.
    pub closed spec fn text(self) -> Seq<char> {
        doc_text(self.d)
    }

    /// A document's root is a table.
    pub open spec fn wf(self) -> bool {
        self@ is Table
    }

    /// Parses TOML text into a document, keeping its formatting; fails with
    /// `Parse` exactly when the text is not a valid document. Rendering a
    /// freshly parsed document reproduces the input text up to the
    /// underlying crate's own limits: a missing final newline is added,
    /// and interleaved dotted keys are grouped.
    pub fn parse(s: &str) -> (r: Result<TomlDoc, EditError>)
        ensures
            r is Ok <==> toml_tree(s@) is Some,
            r matches Ok(doc) ==> (toml_tree(s@) matches Some(t) && doc@ == t) && doc.wf(),
            r matches Err(e) ==> e is Parse,
    {
        match parse_doc(s) {
            Ok(d) => Ok(TomlDoc { d }),
            Err(m) => Err(EditError::Parse(m)),
        }
    }

    /// Renders the document to text.
    pub fn render(&self) -> (r: String)
        ensures
            r@ == self.text(),
    {
        render_doc(&self.d)
    }

    /// Resolves `path` from the root and applies `op` at the resolved node.
    /// The first segment is handled against the root table, the rest by the
    /// item-level descent.
    fn apply_op(&mut self, path: &Vec<String>, op: &EditOp) -> (ok: bool)
        requires
            old(self).wf(),
            path.len() >= 1,
        ensures
            match op_applied(old(self)@, path.deep_view(), *op) {
                Some(t) => ok && final(self)@ == t && final(self).wf(),
                None => !ok && final(self)@ == old(self)@ && final(self).wf(),
            },
    {
        let seg: &String = &path[0];
        let ghost m = doc_tree(self.d)->Table_0;
        let ghost p = path.deep_view();
        proof {
            assert(p.len() == path@.len());
            assert(p[0] == seg@);
            assert(p.skip(1) =~~= path.deep_view().skip(1));
        }
        match doc_take_child(&mut self.d, seg.as_str()) {
            None => {
                match op {
                    EditOp::Delete => false,
                    EditOp::Assign(_) => {
                        let mut child = new_table_item();
                        proof {
                            lemma_assign_into_fresh(p.skip(1), (*op)->Assign_0@);
                        }
                        let ok = apply_at(&mut child, path, 1, op);
                        doc_put_child(&mut self.d, seg.as_str(), child);
                        ok
                    },
                }
            },
            Some(child_in) => {
                let mut child = child_in;
                let ghost child_model = item_tree(child);
                let replace = match op {
                    EditOp::Delete => false,
                    EditOp::Assign(_) => item_is_absent(&child),
                };
                if replace {
                    child = new_table_item();
                    proof {
                        lemma_assign_into_fresh(p.skip(1), (*op)->Assign_0@);
                    }
                }
                let ok = apply_at(&mut child, path, 1, op);
                let ghost child_after = item_tree(child);
                doc_put_child(&mut self.d, seg.as_str(), child);
                proof {
                    assert(m.insert(seg@, Tree::Absent).insert(seg@, child_after) =~= m.insert(
                        seg@,
                        child_after,
                    ));
                    if !ok {
                        assert(m.insert(seg@, Tree::Absent).insert(seg@, child_model) =~= m);
                    }
                }
                ok
            },
        }
    }

    /// Deletes the node addressed by `key`. Every step of the path must
    /// find an existing child, and the resolved node must not already be
    /// absent; otherwise the document is unchanged and the error carries
    /// the raw key string.
    ///
    /// Deletion replaces the node with the absent marker, which renders as
    /// nothing: a deleted table loses its own header, while a parent table
    /// emptied by the deletion keeps its header in the output.
    pub fn delete_key(&mut self, key: &Key) -> (r: Result<(), EditError>)
        requires
            old(self).wf(),
            key.wf(),
        ensures
            match tree_deleted(old(self)@, key.segments.deep_view()) {
                Some(t) => r is Ok && final(self)@ == t && final(self).wf(),
                None => (r matches Err(e) && e matches EditError::KeyNotFound(raw) && raw@
                    == key.raw@) && final(self)@ == old(self)@ && final(self).wf(),
            },
    {
        let op = EditOp::Delete;
        if self.apply_op(&key.segments, &op) {
            Ok(())
        } else {
            Err(EditError::KeyNotFound(key.raw.clone()))
        }
    }

    /// Assigns the entry's value at the node addressed by its key, creating
    /// empty intermediate tables in place of missing or absent children,
    /// and replacing whatever the resolved node held. A non-table node in
    /// the middle of the path fails the edit, leaves the document
    /// unchanged, and the error carries the raw key string.
    pub fn assign_entry(&mut self, entry: &Entry) -> (r: Result<(), EditError>)
        requires
            old(self).wf(),
            entry.wf(),
        ensures
            match tree_assigned(old(self)@, entry.key.segments.deep_view(), entry.value@) {
                Some(t) => r is Ok && final(self)@ == t && final(self).wf(),
                None => (r matches Err(e) && e matches EditError::KeyNotFound(raw) && raw@
                    == entry.key.raw@) && final(self)@ == old(self)@ && final(self).wf(),
            },
    {
        let op = EditOp::Assign(entry.value.clone());
        if self.apply_op(&entry.key.segments, &op) {
            Ok(())
        } else {
            Err(EditError::KeyNotFound(entry.key.raw.clone()))
        }
    }

    /// Applies every deletion, then every assignment, each in the order
    /// given and each against the document the earlier edits produced, and
    /// stops at the first edit that fails, leaving the document as the
    /// edits up to that point left it. With nothing to do, the document is
    /// untouched.
    pub fn apply_edits(&mut self, deletes: &Vec<Key>, entries: &Vec<Entry>) -> (r: Result<
        (),
        EditError,
    >)
        requires
            old(self).wf(),
            forall|j: int| 0 <= j < deletes.len() ==> (#[trigger] deletes[j]).wf(),
            forall|j: int| 0 <= j < entries.len() ==> (#[trigger] entries[j]).wf(),
        ensures
            match ops_applied(old(self)@, edit_descs(deletes@, entries@)) {
                Applied::Done(t) => r is Ok && final(self)@ == t && final(self).wf(),
                Applied::Failed(raw, t) => (r matches Err(e) && e matches EditError::KeyNotFound(
                    rs,
                ) && rs@ == raw) && final(self)@ == t && final(self).wf(),
            },
            deletes.len() == 0 && entries.len() == 0 ==> *final(self) == *old(self),
    {
        let ghost ops = edit_descs(deletes@, entries@);
        proof {
            assert(ops.len() == deletes.len() + entries.len());
        }
        if deletes.len() == 0 && entries.len() == 0 {
            proof {
                assert(ops_applied(old(self)@, ops) == Applied::Done(old(self)@));
            }
            return Ok(());
        }
        let mut di: usize = 0;
        proof {
            assert(ops.skip(0) =~~= ops);
        }
        while di < deletes.len()
            invariant
                self.wf(),
                di <= deletes.len(),
                ops == edit_descs(deletes@, entries@),
                ops.len() == deletes.len() + entries.len(),
                forall|j: int| 0 <= j < deletes.len() ==> (#[trigger] deletes[j]).wf(),
                forall|j: int| 0 <= j < entries.len() ==> (#[trigger] entries[j]).wf(),
                ops_applied(old(self)@, ops) == ops_applied(self@, ops.skip(di as int)),
            decreases deletes.len() - di,
        {
            let ghost t_before = self@;
            proof {
                assert(ops.skip(di as int)[0] == ops[di as int]);
                assert(ops[di as int] == delete_desc(deletes@[di as int]));
                assert(ops.skip(di as int).skip(1) =~~= ops.skip(di as int + 1));
            }
            match self.delete_key(&deletes[di]) {
                Ok(_) => {},
                Err(e) => {
                    proof {
                        assert(ops_applied(t_before, ops.skip(di as int)) == Applied::Failed(
                            deletes@[di as int].raw@,
                            t_before,
                        ));
                    }
                    return Err(e);
                },
            }
            di = di + 1;
        }
        let mut ei: usize = 0;
        while ei < entries.len()
            invariant
                self.wf(),
                ei <= entries.len(),
                ops == edit_descs(deletes@, entries@),
                ops.len() == deletes.len() + entries.len(),
                forall|j: int| 0 <= j < entries.len() ==> (#[trigger] entries[j]).wf(),
                ops_applied(old(self)@, ops) == ops_applied(
                    self@,
                    ops.skip(deletes.len() + ei as int),
                ),
            decreases entries.len() - ei,
        {
            let ghost t_before = self@;
            let ghost at = deletes.len() + ei as int;
            proof {
                assert(ops.skip(at)[0] == ops[at]);
                assert(ops[at] == assign_desc(entries@[ei as int]));
                assert(ops.skip(at).skip(1) =~~= ops.skip(at + 1));
            }
            match self.assign_entry(&entries[ei]) {
                Ok(_) => {},
                Err(e) => {
                    proof {
                        assert(ops_applied(t_before, ops.skip(at)) == Applied::Failed(
                            entries@[ei as int].key.raw@,
                            t_before,
                        ));
                    }
                    return Err(e);
                },
            }
            ei = ei + 1;
        }
        proof {
            assert(ops.skip(deletes.len() + entries.len() as int) =~~= Seq::<OpDesc>::empty());
        }
        Ok(())
    }
}

/// The description of one deletion, for the contracts.
pub open spec fn delete_desc(k: Key) -> OpDesc {
    OpDesc {
        delete: true,
        path: k.segments.deep_view(),
        raw: k.raw@,
        value: Seq::<char>::empty(),
    }
}

/// The description of one assignment, for the contracts.
pub open spec fn assign_desc(e: Entry) -> OpDesc {
    OpDesc { delete: false, path: e.key.segments.deep_view(), raw: e.key.raw@, value: e.value@ }
}

/// All requested edits in the order they are applied: the deletions first,
/// then the assignments.
pub open spec fn edit_descs(deletes: Seq<Key>, entries: Seq<Entry>) -> Seq<OpDesc> {
    deletes.map(|j: int, k: Key| delete_desc(k)) + entries.map(|j: int, e: Entry| assign_desc(e))
}

/// One whole run against one document: parse the text and apply the edits,
/// returning the edited document, whose tree is pinned here and whose text
/// `render` then gives. Fails with `Parse` exactly when the text is not a
/// valid document, and with `KeyNotFound` on the first edit whose path
/// does not resolve.
pub fn edit_document(text: &str, deletes: &Vec<Key>, entries: &Vec<Entry>) -> (r: Result<
    TomlDoc,
    EditError,
>)
    requires
        forall|j: int| 0 <= j < deletes.len() ==> (#[trigger] deletes[j]).wf(),
        forall|j: int| 0 <= j < entries.len() ==> (#[trigger] entries[j]).wf(),
    ensures
        toml_tree(text@) is None ==> (r matches Err(e) && e is Parse),
        toml_tree(text@) matches Some(t0) ==> match ops_applied(
            t0,
            edit_descs(deletes@, entries@),
        ) {
            Applied::Done(t) => r matches Ok(doc) && doc@ == t && doc.wf(),
            Applied::Failed(raw, t) => r matches Err(e) && e matches EditError::KeyNotFound(rs)
                && rs@ == raw,
        },
{
    let mut doc = match TomlDoc::parse(text) {
        Ok(doc) => doc,
        Err(e) => {
            return Err(e);
        },
    };
    match doc.apply_edits(deletes, entries) {
        Ok(_) => Ok(doc),
        Err(e) => Err(e),
    }
}

} // verus!
