//! The meaning of the file system operations over the store's view: how a
//! path resolves, which permissions a node ends up with, and what each
//! operation leaves behind.

use vstd::prelude::*;
use crate::error::FsError;
use crate::node::{Entries, NodeId, NodeView, NodePermissions, child_of, entries_insert, entries_remove};
use crate::store::StoreView;
use crate::vfs::{Permissions, VfsMetadata, VfsNodeType};
use crate::snapshot::{SnapshotView, SnapshotEntry, VfsSnapshotNode};
use crate::handle::OpenFileMode;
use crate::vfs::VfsOpenOptions;

verus! {

/// The names of a sequence of strings.
pub open spec fn views(names: Seq<String>) -> Seq<Seq<char>> {
    names.map_values(|s: String| s@)
}

/// Read and write access, the neutral element of permission resolution.
pub open spec fn rw() -> Permissions {
    Permissions { bits: 3 }
}

/// The node that `names` leads to, walking down from `root`; the final
/// node itself is not looked up.
pub open spec fn resolve(s: StoreView, root: NodeId, names: Seq<Seq<char>>) -> Result<NodeId, FsError>
    decreases names.len(),
{
    if names.len() == 0 {
        Ok(root)
    } else {
        match resolve(s, root, names.drop_last()) {
            Err(e) => Err(e),
            Ok(cur) => match s.lookup(cur) {
                Err(e) => Err(e),
                Ok(n) => if n.is_dir() {
                    match child_of(n.entries(), names.last()) {
                        Some(c) => Ok(c),
                        None => Err(FsError::PathNotFound),
                    }
                } else {
                    Err(FsError::NotADirectory)
                },
            },
        }
    }
}

/// The node `names` leads to, looked up.
pub open spec fn find(s: StoreView, root: NodeId, names: Seq<Seq<char>>) -> Result<(NodeView, NodeId), FsError> {
    match resolve(s, root, names) {
        Err(e) => Err(e),
        Ok(id) => match s.lookup(id) {
            Err(e) => Err(e),
            Ok(n) => Ok((n, id)),
        },
    }
}

/// The permissions found by walking up from `id` through at most `fuel`
/// parents, intersecting `acc` with every explicit setting on the way.
pub open spec fn permissions_from(s: StoreView, id: NodeId, acc: Permissions, fuel: nat) -> Result<Permissions, FsError>
    decreases fuel,
{
    match s.lookup(id) {
        Err(e) => Err(e),
        Ok(n) => {
            let acc2 = match n.permissions {
                NodePermissions::Explicit(v) => Permissions { bits: acc.bits & v.bits },
                NodePermissions::Inherited => acc,
            };
            match n.parent {
                None => Ok(acc2),
                Some(p) => if fuel == 0 {
                    Err(FsError::TooDeep)
                } else {
                    permissions_from(s, p, acc2, (fuel - 1) as nat)
                },
            }
        },
    }
}

/// The effective permissions of a node: the intersection of its own
/// explicit setting with those of every directory above it.
pub open spec fn effective_permissions(s: StoreView, id: NodeId) -> Result<Permissions, FsError> {
    permissions_from(s, id, rw(), usize::MAX as nat)
}

/// Whether `p` grants the operation (`true` for writing, `false` for reading).
pub open spec fn grants(p: Permissions, write: bool) -> bool {
    if write { p.spec_can_write() } else { p.spec_can_read() }
}

/// The error for an operation refused on a node of type `ty`.
pub open spec fn denied(ty: VfsNodeType) -> FsError {
    match ty {
        VfsNodeType::Directory => FsError::DirectoryAccessDenied,
        _ => FsError::FileAccessDenied,
    }
}

/// Whether reading (`write == false`) or writing (`write == true`) is
/// permitted on `id`.
pub open spec fn check(s: StoreView, id: NodeId, write: bool) -> Result<(), FsError> {
    match effective_permissions(s, id) {
        Err(e) => Err(e),
        Ok(p) => if grants(p, write) {
            Ok(())
        } else {
            Err(denied(s.node(id).ty()))
        },
    }
}

/// The store after adding `n` as `name` into the live directory `parent`,
/// and the new node's handle.
pub open spec fn add_node(s: StoreView, parent: NodeId, name: Seq<char>, n: NodeView) -> (StoreView, Result<NodeId, FsError>) {
    let (s1, r) = s.after_insert(NodeView { parent: Some(parent), ..n });
    match r {
        Err(e) => (s1, Err(e)),
        Ok(id) => (
            s1.with_node(parent.index as int, s1.node(parent).with_entries(entries_insert(s1.node(parent).entries(), name, id))),
            Ok(id),
        ),
    }
}

/// The handles of a directory's entries, in order.
pub open spec fn child_ids(n: NodeView) -> Seq<NodeId> {
    n.entries().map_values(|e: (Seq<char>, NodeId)| e.1)
}

/// Forgets the value of a successful outcome.
pub open spec fn unit<T>(r: Result<T, FsError>) -> Result<(), FsError> {
    match r {
        Ok(_) => Ok(()),
        Err(e) => Err(e),
    }
}

/// `create_dir`: adds an empty directory as the last name into the
/// (writable) directory the other names lead to, unless the name is taken.
pub open spec fn create_dir(s: StoreView, root: NodeId, names: Seq<Seq<char>>) -> (StoreView, Result<(), FsError>) {
    if names.len() == 0 {
        (s, Err(FsError::NoFileName))
    } else {
        match find(s, root, names.drop_last()) {
            Err(e) => (s, Err(e)),
            Ok((p, pid)) => if !p.is_dir() {
                (s, Err(FsError::NotADirectory))
            } else {
                match check(s, pid, true) {
                    Err(e) => (s, Err(e)),
                    Ok(_) => if child_of(p.entries(), names.last()) is Some {
                        (s, Err(FsError::AlreadyExists))
                    } else {
                        let (s1, r) = add_node(s, pid, names.last(), NodeView::new_dir(None));
                        (s1, unit(r))
                    },
                }
            },
        }
    }
}

/// One step of `create_dir_all` from the directory `cur`: descend into the
/// entry `name`, creating it as an empty directory if it is missing.
pub open spec fn create_dir_step(s: StoreView, cur: NodeId, name: Seq<char>) -> (StoreView, Result<NodeId, FsError>) {
    match s.lookup(cur) {
        Err(e) => (s, Err(e)),
        Ok(n) => if !n.is_dir() {
            (s, Err(FsError::NotADirectory))
        } else {
            match check(s, cur, true) {
                Err(e) => (s, Err(e)),
                Ok(_) => match child_of(n.entries(), name) {
                    Some(c) => (s, Ok(c)),
                    None => add_node(s, cur, name, NodeView::new_dir(None)),
                },
            }
        },
    }
}

/// `create_dir_all` over the first `k` names: every missing directory on
/// the way is created, every directory passed must be writable.
pub open spec fn create_dir_all(s: StoreView, root: NodeId, names: Seq<Seq<char>>, k: nat) -> (StoreView, Result<NodeId, FsError>)
    decreases k,
{
    if k == 0 {
        (s, Ok(root))
    } else {
        let (s1, r) = create_dir_all(s, root, names, (k - 1) as nat);
        match r {
            Err(e) => (s1, Err(e)),
            Ok(cur) => create_dir_step(s1, cur, names[k - 1]),
        }
    }
}

/// `write`: replaces the contents of the file the names lead to, creating
/// it empty first if the parent directory has no such entry; as with
/// `std::fs::write`, the parent must be writable before anything is created.
pub open spec fn write(s: StoreView, root: NodeId, names: Seq<Seq<char>>, data: Seq<u8>) -> (StoreView, Result<(), FsError>) {
    if names.len() == 0 {
        (s, Err(FsError::NoFileName))
    } else {
        match find(s, root, names.drop_last()) {
            Err(e) => (s, Err(e)),
            Ok((p, pid)) => if !p.is_dir() {
                (s, Err(FsError::NotADirectory))
            } else {
                match check(s, pid, true) {
                    Err(e) => (s, Err(e)),
                    Ok(_) => {
                        let (s1, t) = match child_of(p.entries(), names.last()) {
                            Some(c) => (s, Ok(c)),
                            None => add_node(s, pid, names.last(), NodeView::new_file(Seq::empty(), None)),
                        };
                        match t {
                            Err(e) => (s1, Err(e)),
                            Ok(tid) => match s1.lookup(tid) {
                                Err(e) => (s1, Err(e)),
                                Ok(tn) => match check(s1, tid, true) {
                                    Err(e) => (s1, Err(e)),
                                    Ok(_) => if !tn.is_file() {
                                        (s1, Err(FsError::IsADirectory))
                                    } else {
                                        (s1.with_node(tid.index as int, tn.with_data(data)), Ok(()))
                                    },
                                },
                            },
                        }
                    },
                }
            },
        }
    }
}

/// `remove_file`: unlinks the file the names lead to from its (writable)
/// parent and frees its node.
pub open spec fn remove_file(s: StoreView, root: NodeId, names: Seq<Seq<char>>) -> (StoreView, Result<(), FsError>) {
    if names.len() == 0 {
        (s, Err(FsError::NoFileName))
    } else {
        match find(s, root, names.drop_last()) {
            Err(e) => (s, Err(e)),
            Ok((p, pid)) => if !p.is_dir() {
                (s, Err(FsError::NotADirectory))
            } else {
                match check(s, pid, true) {
                    Err(e) => (s, Err(e)),
                    Ok(_) => match find(s, root, names) {
                        Err(e) => (s, Err(e)),
                        Ok((t, tid)) => if !t.is_file() {
                            (s, Err(FsError::IsADirectory))
                        } else {
                            match check(s, tid, true) {
                                Err(e) => (s, Err(e)),
                                Ok(_) => {
                                    let s1 = s.with_node(pid.index as int, p.with_entries(entries_remove(p.entries(), names.last())));
                                    s1.after_remove(tid)
                                },
                            }
                        },
                    },
                }
            },
        }
    }
}

/// The nodes a depth-first walk visits, in visiting order: the last handle
/// of `to_visit` is taken next; a live node must be writable and, if it is
/// a directory, its entries are queued; stale handles are visited but not
/// descended into. At most `fuel` handles are taken.
pub open spec fn descendants_walk(s: StoreView, to_visit: Seq<NodeId>, visited: Seq<NodeId>, fuel: nat) -> Result<Seq<NodeId>, FsError>
    decreases fuel,
{
    if to_visit.len() == 0 {
        Ok(visited)
    } else if fuel == 0 {
        Err(FsError::TooDeep)
    } else {
        let cur = to_visit.last();
        let rest = to_visit.drop_last();
        match s.lookup(cur) {
            Err(_) => descendants_walk(s, rest, visited.push(cur), (fuel - 1) as nat),
            Ok(n) => match check(s, cur, true) {
                Err(e) => Err(e),
                Ok(_) => descendants_walk(s, rest + child_ids(n), visited.push(cur), (fuel - 1) as nat),
            },
        }
    }
}

/// Removes the handles of `ids` from the last to the first, stopping at the
/// first failure.
pub open spec fn remove_each(s: StoreView, ids: Seq<NodeId>) -> (StoreView, Result<(), FsError>)
    decreases ids.len(),
{
    if ids.len() == 0 {
        (s, Ok(()))
    } else {
        let (s1, r) = s.after_remove(ids.last());
        match r {
            Err(e) => (s1, Err(e)),
            Ok(_) => remove_each(s1, ids.drop_last()),
        }
    }
}

/// `remove_all_descendants`: frees every node below the directory `id`
/// (the directory itself stays), provided all of them are writable.
pub open spec fn remove_all_descendants(s: StoreView, id: NodeId) -> (StoreView, Result<(), FsError>) {
    match s.lookup(id) {
        Err(e) => (s, Err(e)),
        Ok(n) => if !n.is_dir() {
            (s, Ok(()))
        } else {
            match check(s, id, true) {
                Err(e) => (s, Err(e)),
                Ok(_) => match descendants_walk(s, child_ids(n), Seq::empty(), usize::MAX as nat) {
                    Err(e) => (s, Err(e)),
                    Ok(del) => remove_each(s, del),
                },
            }
        },
    }
}

/// `remove_dir`: unlinks the directory the names lead to from its
/// (writable) parent, then frees everything below it.
pub open spec fn remove_dir(s: StoreView, root: NodeId, names: Seq<Seq<char>>) -> (StoreView, Result<(), FsError>) {
    if names.len() == 0 {
        (s, Err(FsError::CannotRemoveRoot))
    } else {
        match find(s, root, names.drop_last()) {
            Err(e) => (s, Err(e)),
            Ok((p, pid)) => if !p.is_dir() {
                (s, Err(FsError::NotADirectory))
            } else {
                match check(s, pid, true) {
                    Err(e) => (s, Err(e)),
                    Ok(_) => match find(s, root, names) {
                        Err(e) => (s, Err(e)),
                        Ok((t, tid)) => if !t.is_dir() {
                            (s, Err(FsError::NotADirectory))
                        } else {
                            match check(s, tid, true) {
                                Err(e) => (s, Err(e)),
                                Ok(_) => {
                                    let s1 = s.with_node(pid.index as int, p.with_entries(entries_remove(p.entries(), names.last())));
                                    remove_all_descendants(s1, tid)
                                },
                            }
                        },
                    },
                }
            },
        }
    }
}

/// Whether an error means that the node or path does not exist.
pub open spec fn is_not_found(e: FsError) -> bool {
    e == FsError::SlotNotFound || e == FsError::PathNotFound
}

/// `rename_file`: moves the file `from` to `to`. An existing file `to`
/// receives `from`'s contents and `from` is removed; otherwise a new file
/// with those contents is added as `to` and `from`'s node is freed.
pub open spec fn rename_file(s: StoreView, root: NodeId, from: Seq<Seq<char>>, to: Seq<Seq<char>>) -> (StoreView, Result<(), FsError>) {
    if from == to {
        (s, Ok(()))
    } else {
        match find(s, root, from) {
            Err(e) => (s, Err(e)),
            Ok((fnode, fid)) => if !fnode.is_file() {
                (s, Err(FsError::IsADirectory))
            } else {
                match find(s, root, to) {
                    Ok((tnode, tid)) => match check(s, fid, false) {
                        Err(e) => (s, Err(e)),
                        Ok(_) => match check(s, tid, true) {
                            Err(e) => (s, Err(e)),
                            Ok(_) => if !tnode.is_file() {
                                (s, Err(FsError::IsADirectory))
                            } else {
                                remove_file(s.with_node(tid.index as int, tnode.with_data(fnode.data())), root, from)
                            },
                        },
                    },
                    Err(e) => if !is_not_found(e) {
                        (s, Err(e))
                    } else if from.len() == 0 || to.len() == 0 {
                        (s, Err(FsError::NoFileName))
                    } else {
                        match find(s, root, from.drop_last()) {
                            Err(e) => (s, Err(e)),
                            Ok((fp, fpid)) => match find(s, root, to.drop_last()) {
                                Err(e) => (s, Err(e)),
                                Ok((tp, tpid)) => if !fp.is_dir() || !tp.is_dir() {
                                    (s, Err(FsError::NotADirectory))
                                } else {
                                    match check(s, fid, false) {
                                        Err(e) => (s, Err(e)),
                                        Ok(_) => match check(s, fpid, true) {
                                            Err(e) => (s, Err(e)),
                                            Ok(_) => match check(s, tpid, true) {
                                                Err(e) => (s, Err(e)),
                                                Ok(_) => {
                                                    let (s1, r) = add_node(s, tpid, to.last(), NodeView::new_file(fnode.data(), None));
                                                    match r {
                                                        Err(e) => (s1, Err(e)),
                                                        Ok(_) => {
                                                            let s2 = s1.with_node(fpid.index as int, s1.node(fpid).with_entries(entries_remove(s1.node(fpid).entries(), from.last())));
                                                            s2.after_remove(fid)
                                                        },
                                                    }
                                                },
                                            },
                                        },
                                    }
                                },
                            },
                        }
                    },
                }
            },
        }
    }
}

/// The breadth-first walk of `set_permissions_recursive`: the first handle
/// of `queue` is taken next; a live node queues its entries and, unless it
/// is `target`, must be writable and has its setting reset to inherited.
/// At most `fuel` handles are taken.
pub open spec fn inherit_walk(s: StoreView, target: NodeId, queue: Seq<NodeId>, fuel: nat) -> (StoreView, Result<(), FsError>)
    decreases fuel,
{
    if queue.len() == 0 {
        (s, Ok(()))
    } else if fuel == 0 {
        (s, Err(FsError::TooDeep))
    } else {
        let nid = queue[0];
        let rest = queue.drop_first();
        match s.lookup(nid) {
            Err(_) => inherit_walk(s, target, rest, (fuel - 1) as nat),
            Ok(n) => {
                let q2 = rest + child_ids(n);
                if nid == target {
                    inherit_walk(s, target, q2, (fuel - 1) as nat)
                } else {
                    match check(s, nid, true) {
                        Err(e) => (s, Err(e)),
                        Ok(_) => inherit_walk(
                            s.with_node(nid.index as int, n.with_permissions(NodePermissions::Inherited)),
                            target,
                            q2,
                            (fuel - 1) as nat,
                        ),
                    }
                }
            },
        }
    }
}

/// `set_permissions_recursive`: every node below the target inherits again,
/// and the target gets `perms`. The root may only be targeted while it is
/// writable.
pub open spec fn set_permissions_recursive(s: StoreView, root: NodeId, names: Seq<Seq<char>>, perms: Permissions) -> (StoreView, Result<(), FsError>) {
    let t = if names.len() == 0 {
        match effective_permissions(s, root) {
            Err(e) => Err(e),
            Ok(p) => if !p.spec_can_write() { Err(FsError::ReadOnlyDirectory) } else { Ok(root) },
        }
    } else {
        resolve(s, root, names)
    };
    match t {
        Err(e) => (s, Err(e)),
        Ok(tid) => {
            let (s1, r) = inherit_walk(s, tid, seq![tid], usize::MAX as nat);
            match r {
                Err(e) => (s1, Err(e)),
                Ok(_) => match s1.lookup(tid) {
                    Err(e) => (s1, Err(e)),
                    Ok(tn) => (s1.with_node(tid.index as int, tn.with_permissions(NodePermissions::Explicit(perms))), Ok(())),
                },
            }
        },
    }
}

/// `set_permissions`: gives the node the names lead to the setting `perms`;
/// below the root, its parent must be writable.
pub open spec fn set_permissions(s: StoreView, root: NodeId, names: Seq<Seq<char>>, perms: Permissions) -> (StoreView, Result<(), FsError>) {
    match find(s, root, names) {
        Err(e) => (s, Err(e)),
        Ok((n, id)) => {
            let s1 = s.with_node(id.index as int, n.with_permissions(NodePermissions::Explicit(perms)));
            if names.len() == 0 {
                (s1, Ok(()))
            } else {
                match resolve(s, root, names.drop_last()) {
                    Err(e) => (s, Err(e)),
                    Ok(pid) => match effective_permissions(s, pid) {
                        Err(e) => (s, Err(e)),
                        Ok(p) => if !p.spec_can_write() { (s, Err(FsError::ReadOnlyDirectory)) } else { (s1, Ok(())) },
                    },
                }
            }
        },
    }
}

/// The metadata of the node `id`: its effective permissions, size and type.
pub open spec fn node_metadata(s: StoreView, id: NodeId) -> Result<VfsMetadata, FsError> {
    match s.lookup(id) {
        Err(e) => Err(e),
        Ok(n) => match effective_permissions(s, id) {
            Err(e) => Err(e),
            Ok(p) => Ok(VfsMetadata { mode: p, size: n.data().len() as u64, ty: n.ty() }),
        },
    }
}

/// The names of the directory holding the entry `names` (the root for the root).
pub open spec fn parent_names(names: Seq<Seq<char>>) -> Seq<Seq<char>> {
    if names.len() == 0 { names } else { names.drop_last() }
}

/// `exists`: whether the names lead to a node; the directory holding it
/// must be readable.
pub open spec fn path_exists(s: StoreView, root: NodeId, names: Seq<Seq<char>>) -> Result<bool, FsError> {
    match resolve(s, root, parent_names(names)) {
        Err(e) => Err(e),
        Ok(pid) => match check(s, pid, false) {
            Err(e) => Err(e),
            Ok(_) => match find(s, root, names) {
                Ok(_) => Ok(true),
                Err(e) => if is_not_found(e) { Ok(false) } else { Err(e) },
            },
        },
    }
}

/// `metadata`: the metadata of the node the names lead to; the directory
/// holding it must be readable.
pub open spec fn metadata(s: StoreView, root: NodeId, names: Seq<Seq<char>>) -> Result<VfsMetadata, FsError> {
    match resolve(s, root, parent_names(names)) {
        Err(e) => Err(e),
        Ok(pid) => match check(s, pid, false) {
            Err(e) => Err(e),
            Ok(_) => match resolve(s, root, names) {
                Err(e) => Err(e),
                Ok(tid) => node_metadata(s, tid),
            },
        },
    }
}

/// `read`: the contents of the (readable) file the names lead to.
pub open spec fn read(s: StoreView, root: NodeId, names: Seq<Seq<char>>) -> Result<Seq<u8>, FsError> {
    match find(s, root, names) {
        Err(e) => Err(e),
        Ok((n, id)) => match check(s, id, false) {
            Err(e) => Err(e),
            Ok(_) => if !n.is_file() { Err(FsError::IsADirectory) } else { Ok(n.data()) },
        },
    }
}

/// `wipe`: every node but the root is freed and the root loses its entries.
pub open spec fn wipe(s: StoreView, root: NodeId) -> (StoreView, Result<(), FsError>) {
    let s1 = s.after_clear(root);
    match s1.lookup(root) {
        Err(e) => (s1, Err(e)),
        Ok(n) => if !n.is_dir() {
            (s1, Err(FsError::NotADirectory))
        } else {
            (s1.with_node(root.index as int, n.with_entries(Seq::empty())), Ok(()))
        },
    }
}

/// `remove_dir`: removes the directory the names lead to, which must be empty.
pub open spec fn remove_empty_dir(s: StoreView, root: NodeId, names: Seq<Seq<char>>) -> (StoreView, Result<(), FsError>) {
    match find(s, root, names) {
        Err(e) => (s, Err(e)),
        Ok((n, _)) => if !n.is_dir() {
            (s, Err(FsError::NotADirectory))
        } else if n.entries().len() != 0 {
            (s, Err(FsError::RemoveNonEmptyDirectory))
        } else {
            remove_dir(s, root, names)
        },
    }
}

/// `rename` of a directory `from` (given as its normalized path and names)
/// to `to`: `to` must be an empty directory or missing (it is then created
/// first); `to`'s node is freed and `from`'s node is moved into `to`'s
/// place. The moved node keeps its record of the directory it was created
/// in. Files are renamed by `rename_file`.
pub open spec fn rename(
    s: StoreView,
    root: NodeId,
    from_path: Seq<char>,
    from: Seq<Seq<char>>,
    to_path: Seq<char>,
    to: Seq<Seq<char>>,
) -> (StoreView, Result<(), FsError>) {
    if from_path == to_path {
        (s, Ok(()))
    } else if from.len() == 0 {
        (s, Err(FsError::NoFileName))
    } else {
        match find(s, root, from) {
            Err(e) => (s, Err(e)),
            Ok((fnode, fid)) => if fnode.is_file() {
                rename_file(s, root, from, to)
            } else {
                let (s1, t) = match find(s, root, to) {
                    Ok(found) => (s, Ok(found)),
                    Err(e) => if !is_not_found(e) {
                        (s, Err(e))
                    } else if to.len() == 0 {
                        (s, Err(FsError::NoFileName))
                    } else {
                        match find(s, root, to.drop_last()) {
                            Err(e2) => (s, Err(e2)),
                            Ok((tp, tpid)) => if !tp.is_dir() {
                                (s, Err(FsError::NotADirectory))
                            } else {
                                let (s2, r) = add_node(s, tpid, to.last(), NodeView::new_dir(None));
                                match r {
                                    Err(e3) => (s2, Err(e3)),
                                    Ok(_) => (s2, find(s2, root, to)),
                                }
                            },
                        }
                    },
                };
                match t {
                    Err(e) => (s1, Err(e)),
                    Ok((tn, tid)) => if !tn.is_dir() {
                        (s1, Err(FsError::NotADirectory))
                    } else if tn.entries().len() != 0 {
                        (s1, Err(FsError::DirectoryNotEmpty))
                    } else {
                        match check(s1, tid, true) {
                            Err(e) => (s1, Err(e)),
                            Ok(_) => match check(s1, fid, false) {
                                Err(e) => (s1, Err(e)),
                                Ok(_) => {
                                    let (s2, r) = s1.after_remove(tid);
                                    match r {
                                        Err(e) => (s2, Err(e)),
                                        Ok(_) => match find(s2, root, from.drop_last()) {
                                            Err(e) => (s2, Err(e)),
                                            Ok((fp, fpid)) => if !fp.is_dir() {
                                                (s2, Err(FsError::NotADirectory))
                                            } else {
                                                let s3 = s2.with_node(fpid.index as int, fp.with_entries(entries_remove(fp.entries(), from.last())));
                                                if to.len() == 0 {
                                                    (s3, Err(FsError::NoFileName))
                                                } else {
                                                    match find(s3, root, to.drop_last()) {
                                                        Err(e) => (s3, Err(e)),
                                                        Ok((tp, tpid)) => if !tp.is_dir() {
                                                            (s3, Err(FsError::NotADirectory))
                                                        } else {
                                                            (s3.with_node(tpid.index as int, tp.with_entries(entries_insert(tp.entries(), to.last(), fid))), Ok(()))
                                                        },
                                                    }
                                                }
                                            },
                                        },
                                    }
                                },
                            },
                        }
                    },
                }
            },
        }
    }
}

/// The deepest nesting a snapshot may have below its root directory.
pub open spec fn max_snapshot_depth() -> int {
    50
}

/// The snapshot of the node the names lead to, at nesting level `depth`:
/// every node carries its effective permissions; deeper than the limit, the
/// snapshot fails.
pub open spec fn snapshot_of(s: StoreView, root: NodeId, names: Seq<Seq<char>>, depth: int) -> Result<SnapshotView, FsError>
    decreases 51 - depth, 1int, 0int,
{
    if depth < 0 || depth > max_snapshot_depth() {
        Err(FsError::TooDeep)
    } else {
        match find(s, root, names) {
            Err(e) => Err(e),
            Ok((n, id)) => match effective_permissions(s, id) {
                Err(e) => Err(e),
                Ok(p) => if n.is_dir() {
                    match snapshot_entries(s, root, names, n.entries(), n.entries().len(), depth) {
                        Err(e) => Err(e),
                        Ok(m) => Ok(SnapshotView::Directory(m, p)),
                    }
                } else {
                    Ok(SnapshotView::File(n.data(), p))
                },
            },
        }
    }
}

/// The snapshots of the first `k` entries of the directory the names lead
/// to, by name.
pub open spec fn snapshot_entries(
    s: StoreView,
    root: NodeId,
    names: Seq<Seq<char>>,
    entries: Entries,
    k: nat,
    depth: int,
) -> Result<Map<Seq<char>, SnapshotView>, FsError>
    decreases 51 - depth, 0int, k,
{
    if depth < 0 || depth > max_snapshot_depth() {
        Err(FsError::TooDeep)
    } else if k == 0 {
        Ok(Map::empty())
    } else {
        match snapshot_entries(s, root, names, entries, (k - 1) as nat, depth) {
            Err(e) => Err(e),
            Ok(m) => match snapshot_of(s, root, names.push(entries[k - 1].0), depth + 1) {
                Err(e) => Err(e),
                Ok(c) => Ok(m.insert(entries[k - 1].0, c)),
            },
        }
    }
}

/// Gives the live node `id` the explicit setting `p`.
pub open spec fn finish_permissions(s: StoreView, id: NodeId, p: Permissions) -> (StoreView, Result<(), FsError>) {
    match s.lookup(id) {
        Err(e) => (s, Err(e)),
        Ok(n) => (s.with_node(id.index as int, n.with_permissions(NodePermissions::Explicit(p))), Ok(())),
    }
}

/// Adds the snapshot `node` as `name` into the directory `parent`, at
/// nesting level `depth`: entries are added in their order, each node then
/// gets the snapshot's permissions.
pub open spec fn apply_node(s: StoreView, parent: NodeId, name: Seq<char>, node: VfsSnapshotNode, depth: int) -> (StoreView, Result<(), FsError>)
    decreases node, 0int,
{
    if depth > max_snapshot_depth() {
        (s, Err(FsError::TooDeep))
    } else {
        match s.lookup(parent) {
            Err(e) => (s, Err(e)),
            Ok(p) => if !p.is_dir() {
                (s, Err(FsError::NotADirectory))
            } else {
                match node {
                    VfsSnapshotNode::File { data, permissions } => {
                        let (s1, r) = add_node(s, parent, name, NodeView::new_file(data@, None));
                        match r {
                            Err(e) => (s1, Err(e)),
                            Ok(id) => finish_permissions(s1, id, permissions),
                        }
                    },
                    VfsSnapshotNode::Directory { children, permissions } => {
                        let (s1, r) = add_node(s, parent, name, NodeView::new_dir(None));
                        match r {
                            Err(e) => (s1, Err(e)),
                            Ok(id) => {
                                let (s2, r2) = apply_entries(s1, id, children@, children@.len(), depth + 1);
                                match r2 {
                                    Err(e) => (s2, Err(e)),
                                    Ok(_) => finish_permissions(s2, id, permissions),
                                }
                            },
                        }
                    },
                }
            },
        }
    }
}

/// Adds the first `k` snapshot entries into the directory `parent`, in order.
pub open spec fn apply_entries(s: StoreView, parent: NodeId, entries: Seq<SnapshotEntry>, k: nat, depth: int) -> (StoreView, Result<(), FsError>)
    decreases entries, k,
{
    if k == 0 || k > entries.len() {
        (s, Ok(()))
    } else {
        let (s1, r) = apply_entries(s, parent, entries, (k - 1) as nat, depth);
        match r {
            Err(e) => (s1, Err(e)),
            Ok(_) => apply_node(s1, parent, entries[k - 1].name@, entries[k - 1].node, depth),
        }
    }
}

/// Once the snapshots of a prefix of the entries fail, those of every
/// longer prefix fail the same way.
pub proof fn lemma_snapshot_entries_error_persists(
    s: StoreView,
    root: NodeId,
    names: Seq<Seq<char>>,
    entries: Entries,
    k: nat,
    m: nat,
    depth: int,
)
    requires
        k <= m,
        0 <= depth <= max_snapshot_depth(),
    ensures
        snapshot_entries(s, root, names, entries, k, depth) is Err ==>
            snapshot_entries(s, root, names, entries, m, depth) == snapshot_entries(s, root, names, entries, k, depth),
    decreases m - k,
{
    if k < m {
        lemma_snapshot_entries_error_persists(s, root, names, entries, k, (m - 1) as nat, depth);
    }
}

/// Once applying a prefix of the entries fails, applying every longer
/// prefix fails the same way, leaving the same store.
pub proof fn lemma_apply_entries_error_persists(
    s: StoreView,
    parent: NodeId,
    entries: Seq<SnapshotEntry>,
    k: nat,
    m: nat,
    depth: int,
)
    requires
        k <= m <= entries.len(),
    ensures
        apply_entries(s, parent, entries, k, depth).1 is Err ==>
            apply_entries(s, parent, entries, m, depth) == apply_entries(s, parent, entries, k, depth),
    decreases m - k,
{
    if k < m {
        lemma_apply_entries_error_persists(s, parent, entries, k, (m - 1) as nat, depth);
    }
}

/// `apply_from_snapshot`: the file system is wiped, the snapshot's entries
/// are added below the root in their order, and the root gets the
/// snapshot's permissions.
pub open spec fn apply_snapshot(s: StoreView, root: NodeId, snapshot: VfsSnapshotNode) -> (StoreView, Result<(), FsError>) {
    match snapshot {
        VfsSnapshotNode::File { .. } => (s, Err(FsError::SnapshotRootNotDirectory)),
        VfsSnapshotNode::Directory { children, permissions } => {
            let (s1, r) = wipe(s, root);
            match r {
                Err(e) => (s1, Err(e)),
                Ok(_) => {
                    let (s2, r2) = apply_entries(s1, root, children@, children@.len(), 0);
                    match r2 {
                        Err(e) => (s2, Err(e)),
                        Ok(_) => finish_permissions(s2, root, permissions),
                    }
                },
            }
        },
    }
}

/// The contents `hash` digests: those of the (readable) file the names
/// lead to; a directory is reported before permissions are checked.
pub open spec fn hash_input(s: StoreView, root: NodeId, names: Seq<Seq<char>>) -> Result<Seq<u8>, FsError> {
    match find(s, root, names) {
        Err(e) => Err(e),
        Ok((n, id)) => if !n.is_file() {
            Err(FsError::IsADirectory)
        } else {
            match check(s, id, false) {
                Err(e) => Err(e),
                Ok(_) => Ok(n.data()),
            }
        },
    }
}

/// The node `open` works on: the one the names lead to, or, when the
/// options ask to create and nothing is there, a new empty file added to
/// the (writable) parent directory.
pub open spec fn open_target(s: StoreView, root: NodeId, names: Seq<Seq<char>>, o: VfsOpenOptions) -> (StoreView, Result<NodeId, FsError>) {
    match resolve(s, root, names) {
        Ok(id) => if o.create_new { (s, Err(FsError::AlreadyExists)) } else { (s, Ok(id)) },
        Err(e) => if !is_not_found(e) || (!o.create && !o.create_new) {
            (s, Err(e))
        } else if names.len() == 0 {
            (s, Err(FsError::NoFileName))
        } else {
            match find(s, root, names.drop_last()) {
                Err(e2) => (s, Err(e2)),
                Ok((p, pid)) => if !p.is_dir() {
                    (s, Err(FsError::NotADirectory))
                } else {
                    match check(s, pid, true) {
                        Err(e2) => (s, Err(e2)),
                        Ok(_) => add_node(s, pid, names.last(), NodeView::new_file(Seq::empty(), None)),
                    }
                },
            }
        },
    }
}

/// The mode `open` grants on the node `id`: reading when asked to read,
/// else writing when asked to write or append, each checked against the
/// node's permissions; truncating or creating needs write access.
pub open spec fn open_mode(s: StoreView, id: NodeId, o: VfsOpenOptions) -> Result<OpenFileMode, FsError> {
    if o.truncate && !o.write {
        Err(FsError::TruncateWithoutWrite)
    } else if (o.create || o.create_new) && !(o.write || o.append) {
        Err(FsError::CreateWithoutWrite)
    } else if o.read {
        match check(s, id, false) {
            Err(e) => Err(e),
            Ok(_) => Ok(OpenFileMode::Read),
        }
    } else if o.write || o.append {
        match check(s, id, true) {
            Err(e) => Err(e),
            Ok(_) => Ok(OpenFileMode::Write),
        }
    } else {
        Err(FsError::UnknownAccess)
    }
}

/// `open`: the store afterwards (a created file stays even when opening
/// then fails), and the file node with the mode granted on it.
pub open spec fn open(s: StoreView, root: NodeId, names: Seq<Seq<char>>, o: VfsOpenOptions) -> (StoreView, Result<(NodeId, OpenFileMode), FsError>) {
    let (s1, t) = open_target(s, root, names, o);
    match t {
        Err(e) => (s1, Err(e)),
        Ok(id) => match open_mode(s1, id, o) {
            Err(e) => (s1, Err(e)),
            Ok(m) => match s1.lookup(id) {
                Err(e) => (s1, Err(e)),
                Ok(n) => if !n.is_file() { (s1, Err(FsError::IsADirectory)) } else { (s1, Ok((id, m))) },
            },
        },
    }
}

/// The contents a file opened in mode `m` starts with: the file's data,
/// or nothing when a file opened for writing is truncated.
pub open spec fn opened_contents(data: Seq<u8>, m: OpenFileMode, o: VfsOpenOptions) -> Seq<u8> {
    if m == OpenFileMode::Write && o.truncate { Seq::empty() } else { data }
}

/// The position a file opened in mode `m` starts at: the end when a file
/// opened for writing appends, else the start.
pub open spec fn opened_position(data: Seq<u8>, m: OpenFileMode, o: VfsOpenOptions) -> int {
    if m == OpenFileMode::Write && o.append { opened_contents(data, m, o).len() as int } else { 0 }
}

/// `read_dir`: the entries of the readable directory the names lead to.
pub open spec fn read_dir(s: StoreView, root: NodeId, names: Seq<Seq<char>>) -> Result<Entries, FsError> {
    match find(s, root, names) {
        Err(e) => Err(e),
        Ok((n, id)) => if !n.is_dir() {
            Err(FsError::NotADirectory)
        } else {
            match check(s, id, false) {
                Err(e) => Err(e),
                Ok(_) => Ok(n.entries()),
            }
        },
    }
}

} // verus!
