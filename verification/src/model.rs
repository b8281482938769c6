//! The mathematical model of a document tree: nested tables of string keys,
//! string-valued leaves, and an explicit absent marker, together with the
//! effect of deleting or assigning at a dotted key path.

use vstd::prelude::*;

verus! {

/// A document tree, as the contracts see it: a table maps each key to a
/// child tree, a value holds the characters of a leaf, and `Absent` is the
/// distinguished "no value here" marker.
pub enum Tree {
    Absent,
    Value(Seq<char>),
    Table(Map<Seq<char>, Tree>),
}

/// A table with no children.
pub open spec fn empty_table() -> Tree {
    Tree::Table(Map::empty())
}

/// The tree after deleting at `path`, or `None` when the path cannot be
/// resolved: every step must find an existing child of a table, and the
/// resolved node must not already be absent. Deletion replaces the resolved
/// node with the absent marker.
pub open spec fn tree_deleted(t: Tree, path: Seq<Seq<char>>) -> Option<Tree>
    decreases path.len(),
{
    if path.len() == 0 {
        if t is Absent {
            None
        } else {
            Some(Tree::Absent)
        }
    } else {
        match t {
            Tree::Table(m) => {
                if m.contains_key(path[0]) {
                    match tree_deleted(m[path[0]], path.skip(1)) {
                        Some(c) => Some(Tree::Table(m.insert(path[0], c))),
                        None => None,
                    }
                } else {
                    None
                }
            },
            _ => None,
        }
    }
}

/// The tree after assigning the value `v` at `path`, or `None` when the path
/// cannot be resolved: descending creates an empty table in place of a
/// missing or absent child, but a leaf in the middle of the path is an
/// error, never overwritten. Assignment replaces the resolved node with a
/// fresh leaf, whatever was there before.
pub open spec fn tree_assigned(t: Tree, path: Seq<Seq<char>>, v: Seq<char>) -> Option<Tree>
    decreases path.len(),
{
    if path.len() == 0 {
        if t is Absent {
            None
        } else {
            Some(Tree::Value(v))
        }
    } else {
        match t {
            Tree::Table(m) => {
                let child = if m.contains_key(path[0]) && !(m[path[0]] is Absent) {
                    m[path[0]]
                } else {
                    empty_table()
                };
                match tree_assigned(child, path.skip(1), v) {
                    Some(c) => Some(Tree::Table(m.insert(path[0], c))),
                    None => None,
                }
            },
            _ => None,
        }
    }
}

/// Assigning into an empty table always succeeds: every missing step is
/// created on the way down.
pub proof fn lemma_assign_into_fresh(path: Seq<Seq<char>>, v: Seq<char>)
    ensures
        tree_assigned(empty_table(), path, v) is Some,
    decreases path.len(),
{
    if path.len() > 0 {
        lemma_assign_into_fresh(path.skip(1), v);
    }
}

/// The node at `path`, or `None` when some step of the path does not find
/// an existing child of a table.
pub open spec fn tree_at(t: Tree, path: Seq<Seq<char>>) -> Option<Tree>
    decreases path.len(),
{
    if path.len() == 0 {
        Some(t)
    } else {
        match t {
            Tree::Table(m) => {
                if m.contains_key(path[0]) {
                    tree_at(m[path[0]], path.skip(1))
                } else {
                    None
                }
            },
            _ => None,
        }
    }
}

/// A successful assignment leaves exactly the assigned value at its path,
/// whatever stood there before.
pub proof fn lemma_assign_puts_value(t: Tree, path: Seq<Seq<char>>, v: Seq<char>)
    requires
        tree_assigned(t, path, v) is Some,
    ensures
        tree_at(tree_assigned(t, path, v)->Some_0, path) == Some(Tree::Value(v)),
    decreases path.len(),
{
    if path.len() > 0 {
        let m = t->Table_0;
        let child = if m.contains_key(path[0]) && !(m[path[0]] is Absent) {
            m[path[0]]
        } else {
            empty_table()
        };
        lemma_assign_puts_value(child, path.skip(1), v);
    }
}

/// A successful assignment leaves a table at every proper prefix of its
/// path: the missing intermediates were created as empty tables on the
/// way down, and the existing ones stayed tables.
pub proof fn lemma_assign_creates_tables(t: Tree, path: Seq<Seq<char>>, v: Seq<char>, k: int)
    requires
        tree_assigned(t, path, v) is Some,
        0 <= k < path.len(),
    ensures
        tree_at(tree_assigned(t, path, v)->Some_0, path.take(k)) matches Some(tt) && tt is Table,
    decreases k,
{
    let t2 = tree_assigned(t, path, v)->Some_0;
    let m = t->Table_0;
    let child = if m.contains_key(path[0]) && !(m[path[0]] is Absent) {
        m[path[0]]
    } else {
        empty_table()
    };
    if k == 0 {
        assert(path.take(0) =~~= Seq::<Seq<char>>::empty());
        assert(tree_at(t2, path.take(0)) == Some(t2));
    } else {
        assert(path.take(k)[0] == path[0]);
        assert(path.take(k).skip(1) =~~= path.skip(1).take(k - 1));
        lemma_assign_creates_tables(child, path.skip(1), v, k - 1);
    }
}

/// Deleting at a path and then assigning at that path, or anywhere below
/// it, always succeeds: the deletion leaves every table along the path in
/// place and the addressed node absent, and the assignment recreates the
/// absent node as a fresh table on its way down. Afterwards the assigned
/// value stands at the assignment's path, and the deleted node, when
/// assigned below, stands again as a table.
pub proof fn lemma_delete_then_assign(t: Tree, p: Seq<Seq<char>>, q: Seq<Seq<char>>, v: Seq<char>)
    requires
        p.len() >= 1,
        tree_deleted(t, p) is Some,
    ensures
        tree_assigned(tree_deleted(t, p)->Some_0, p + q, v) is Some,
        tree_at(
            tree_assigned(tree_deleted(t, p)->Some_0, p + q, v)->Some_0,
            p + q,
        ) == Some(Tree::Value(v)),
        q.len() >= 1 ==> (tree_at(
            tree_assigned(tree_deleted(t, p)->Some_0, p + q, v)->Some_0,
            p,
        ) matches Some(tt) && tt is Table),
    decreases p.len(),
{
    let m = t->Table_0;
    let c = tree_deleted(m[p[0]], p.skip(1))->Some_0;
    let t1 = tree_deleted(t, p)->Some_0;
    assert(t1 == Tree::Table(m.insert(p[0], c)));
    assert((p + q).len() >= 1);
    assert((p + q)[0] == p[0]);
    assert((p + q).skip(1) =~~= p.skip(1) + q);
    if p.len() == 1 {
        assert(c is Absent);
        assert(p.skip(1) + q =~~= q);
        lemma_assign_into_fresh(q, v);
    } else {
        assert(!(c is Absent));
        lemma_delete_then_assign(m[p[0]], p.skip(1), q, v);
    }
    lemma_assign_puts_value(t1, p + q, v);
    if q.len() >= 1 {
        assert((p + q).take(p.len() as int) =~~= p);
        lemma_assign_creates_tables(t1, p + q, v, p.len() as int);
    }
}

/// One requested edit, as the contracts see it: a delete or an assignment,
/// with the path it addresses, the raw key string it came from, and (for an
/// assignment) the value to set.
pub struct OpDesc {
    pub delete: bool,
    pub path: Seq<Seq<char>>,
    pub raw: Seq<char>,
    pub value: Seq<char>,
}

/// The tree after one edit, or `None` when its path cannot be resolved.
pub open spec fn op_desc_applied(t: Tree, d: OpDesc) -> Option<Tree> {
    if d.delete {
        tree_deleted(t, d.path)
    } else {
        tree_assigned(t, d.path, d.value)
    }
}

/// The outcome of a sequence of edits: either every edit resolved and this
/// is the final tree, or the first failing edit's raw key, with the tree as
/// it stood when that edit failed.
pub enum Applied {
    Done(Tree),
    Failed(Seq<char>, Tree),
}

/// Applies edits in order, each against the tree the earlier ones produced,
/// stopping at the first that fails.
pub open spec fn ops_applied(t: Tree, ops: Seq<OpDesc>) -> Applied
    decreases ops.len(),
{
    if ops.len() == 0 {
        Applied::Done(t)
    } else {
        match op_desc_applied(t, ops[0]) {
            Some(t2) => ops_applied(t2, ops.skip(1)),
            None => Applied::Failed(ops[0].raw, t),
        }
    }
}

} // verus!
