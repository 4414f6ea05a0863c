//! Paths: normalization of Unix or Windows paths to absolute Unix paths,
//! and the names below the root that a normalized path consists of. The
//! parsing itself is done by `typed_path`.

use vstd::prelude::*;
use typed_path::{Utf8TypedPath, Utf8UnixComponent, Utf8UnixPath};
use crate::error::FsError;
use crate::model::views;

verus! {

/// A component of a Unix path.
#[derive(Debug)]
pub enum PathComponent {
    RootDir,
    CurDir,
    ParentDir,
    Normal(String),
}

/// A component of a Unix path, as the specifications see it.
pub enum ComponentView {
    RootDir,
    CurDir,
    ParentDir,
    Normal(Seq<char>),
}

impl View for PathComponent {
    type V = ComponentView;

    open spec fn view(&self) -> ComponentView {
        match self {
            PathComponent::RootDir => ComponentView::RootDir,
            PathComponent::CurDir => ComponentView::CurDir,
            PathComponent::ParentDir => ComponentView::ParentDir,
            PathComponent::Normal(s) => ComponentView::Normal(s@),
        }
    }
}

/// The path `typed_path` makes of `path`: it is read as a Windows path if
/// it starts with `\` or a Windows prefix (converted to Unix form) and as a
/// Unix path otherwise, then normalized.
pub uninterp spec fn typed_normalized(path: Seq<char>) -> Seq<char>;

/// The components `typed_path` splits the Unix path `path` into.
pub uninterp spec fn unix_components_of(path: Seq<char>) -> Seq<ComponentView>;

/// The Unix path `typed_path` makes by adjoining `name` to `path`.
pub uninterp spec fn unix_joined(path: Seq<char>, name: Seq<char>) -> Seq<char>;

/// The Unix path `typed_path` makes by adjoining `name` to `path` after
/// checking that `name` is a safe relative path; `None` if it is not.
pub uninterp spec fn unix_joined_checked(path: Seq<char>, name: Seq<char>) -> Option<Seq<char>>;

/// Calls `Utf8TypedPath::derive(path)`, `with_unix_encoding` (which turns
/// a Windows path into Unix form) and `normalize`; the result is named
/// `typed_normalized(path)`.
#[verifier::external_body]
fn typed_normalize(path: &str) -> (r: String)
    ensures
        r@ == typed_normalized(path@),
{
    Utf8TypedPath::derive(path).with_unix_encoding().normalize().into_string()
}

/// Calls `Utf8UnixPath::is_absolute`, which for Unix paths holds exactly
/// when the path starts with `/`.
#[verifier::external_body]
fn unix_is_absolute(path: &str) -> (b: bool)
    ensures
        b == (path@.len() > 0 && path@[0] == '/'),
{
    Utf8UnixPath::new(path).is_absolute()
}

/// Calls `Utf8UnixPath::is_valid`: every component is valid, and only a
/// normal component can be invalid, by holding `/` or NUL; as components
/// never hold `/`, this is exactly the absence of NUL.
#[verifier::external_body]
fn unix_is_valid(path: &str) -> (b: bool)
    ensures
        b == !path@.contains('\0'),
{
    Utf8UnixPath::new(path).is_valid()
}

/// Calls `Utf8UnixPath::components` and converts each component.
#[verifier::external_body]
pub(crate) fn unix_components(path: &str) -> (r: Vec<PathComponent>)
    ensures
        r@.map_values(|c: PathComponent| c@) == unix_components_of(path@),
{
    Utf8UnixPath::new(path).components().map(|c| match c {
        Utf8UnixComponent::RootDir => PathComponent::RootDir,
        Utf8UnixComponent::CurDir => PathComponent::CurDir,
        Utf8UnixComponent::ParentDir => PathComponent::ParentDir,
        Utf8UnixComponent::Normal(s) => PathComponent::Normal(s.to_string()),
    }).collect()
}

/// Calls `Utf8UnixPath::join`.
#[verifier::external_body]
fn unix_join(path: &str, name: &str) -> (r: String)
    ensures
        r@ == unix_joined(path@, name@),
{
    Utf8UnixPath::new(path).join(name).into_string()
}

/// Calls `Utf8UnixPath::join_checked`, mapping its error to `None`.
#[verifier::external_body]
fn unix_join_checked(path: &str, name: &str) -> (r: Option<String>)
    ensures
        match r {
            Some(s) => unix_joined_checked(path@, name@) == Some(s@),
            None => unix_joined_checked(path@, name@) is None,
        },
{
    match Utf8UnixPath::new(path).join_checked(name) {
        Ok(p) => Some(p.into_string()),
        Err(_) => None,
    }
}

/// The directory `typed_path` makes of the Unix path `path` by dropping its
/// final component.
pub uninterp spec fn unix_parent_of(path: Seq<char>) -> Option<Seq<char>>;

/// The final component of the Unix path `path`, when it is a normal one.
pub open spec fn unix_file_name_of(path: Seq<char>) -> Option<Seq<char>> {
    let cs = unix_components_of(path);
    if cs.len() == 0 {
        None
    } else {
        match cs.last() {
            ComponentView::Normal(s) => Some(s),
            _ => None,
        }
    }
}

/// Calls `Utf8UnixPath::file_name`, which gives the final component when
/// it is a normal one and nothing otherwise.
#[verifier::external_body]
pub(crate) fn unix_file_name(path: &str) -> (r: Option<String>)
    ensures
        match r {
            Some(s) => unix_file_name_of(path@) == Some(s@),
            None => unix_file_name_of(path@) is None,
        },
{
    match Utf8UnixPath::new(path).file_name() {
        Some(s) => Some(s.to_string()),
        None => None,
    }
}

/// Calls `Utf8UnixPath::parent`; the path it gives is named
/// `unix_parent_of(path)`, and it gives none exactly when the path has no
/// components or ends in the root.
#[verifier::external_body]
pub(crate) fn unix_parent(path: &str) -> (r: Option<String>)
    ensures
        match r {
            Some(s) => unix_parent_of(path@) == Some(s@),
            None => unix_parent_of(path@) is None,
        },
        r is None <==> (unix_components_of(path@).len() == 0 || unix_components_of(path@).last() is RootDir),
{
    match Utf8UnixPath::new(path).parent() {
        Some(p) => Some(p.as_str().to_string()),
        None => None,
    }
}

/// The outcome of normalizing `path`: the normalized Unix path, unless it
/// is relative or holds a NUL character.
pub open spec fn normalized(path: Seq<char>) -> Result<Seq<char>, FsError> {
    let n = typed_normalized(path);
    if !(n.len() > 0 && n[0] == '/') {
        Err(FsError::RelativePath)
    } else if n.contains('\0') {
        Err(FsError::InvalidPath)
    } else {
        Ok(n)
    }
}

/// The names of the normal components, in order.
pub open spec fn normal_names(cs: Seq<ComponentView>) -> Seq<Seq<char>>
    decreases cs.len(),
{
    if cs.len() == 0 {
        Seq::empty()
    } else {
        let prev = normal_names(cs.drop_last());
        match cs.last() {
            ComponentView::Normal(s) => prev.push(s),
            _ => prev,
        }
    }
}

/// The names below the root that the Unix path `path` consists of.
pub open spec fn names_of(path: Seq<char>) -> Seq<Seq<char>> {
    normal_names(unix_components_of(path))
}

/// The names below the root that `path` leads to once normalized, or why
/// it cannot be used.
pub open spec fn path_names(path: Seq<char>) -> Result<Seq<Seq<char>>, FsError> {
    match normalized(path) {
        Err(e) => Err(e),
        Ok(n) => Ok(names_of(n)),
    }
}

/// Normalizes a Unix or Windows path to an absolute Unix path, rejecting
/// relative paths and paths holding NUL.
pub fn normalize(path: &str) -> (r: Result<String, FsError>)
    ensures
        match r {
            Ok(s) => normalized(path@) == Ok::<Seq<char>, FsError>(s@),
            Err(e) => normalized(path@) == Err::<Seq<char>, FsError>(e),
        },
{
    let p = typed_normalize(path);
    if !unix_is_absolute(p.as_str()) {
        return Err(FsError::RelativePath);
    }
    if !unix_is_valid(p.as_str()) {
        return Err(FsError::InvalidPath);
    }
    Ok(p)
}

/// The names below the root of the Unix path `path`.
pub fn names(path: &str) -> (r: Vec<String>)
    ensures
        views(r@) == names_of(path@),
{
    let cs = unix_components(path);
    let ghost cv = cs@.map_values(|c: PathComponent| c@);
    let mut out: Vec<String> = Vec::new();
    let mut i: usize = 0;
    while i < cs.len()
        invariant
            0 <= i <= cs@.len(),
            cv == cs@.map_values(|c: PathComponent| c@),
            cv == unix_components_of(path@),
            views(out@) == normal_names(cv.take(i as int)),
        decreases cs@.len() - i,
    {
        proof {
            assert(cv.take(i + 1).drop_last() =~= cv.take(i as int));
        }
        let ghost before = out@;
        match &cs[i] {
            PathComponent::Normal(s) => {
                out.push(s.clone());
                proof {
                    assert(views(out@) =~= views(before).push(s@));
                }
            },
            _ => {},
        }
        i = i + 1;
    }
    assert(cv.take(cs@.len() as int) =~= cv);
    out
}

/// Normalizes `path` and splits it into its names below the root.
pub fn resolve_path(path: &str) -> (r: Result<(String, Vec<String>), FsError>)
    ensures
        match r {
            Ok((s, ns)) => normalized(path@) == Ok::<Seq<char>, FsError>(s@) && path_names(path@) == Ok::<Seq<Seq<char>>, FsError>(views(ns@)),
            Err(e) => path_names(path@) == Err::<Seq<Seq<char>>, FsError>(e) && normalized(path@) == Err::<Seq<char>, FsError>(e),
        },
{
    let s = normalize(path)?;
    let ns = names(s.as_str());
    Ok((s, ns))
}

/// `path` with `name` adjoined.
pub fn join(path: &str, name: &str) -> (r: String)
    ensures
        r@ == unix_joined(path@, name@),
{
    unix_join(path, name)
}

/// `path` with `name` adjoined, provided `name` is a safe relative path.
pub fn join_checked(path: &str, name: &str) -> (r: Result<String, FsError>)
    ensures
        match r {
            Ok(s) => unix_joined_checked(path@, name@) == Some(s@),
            Err(e) => unix_joined_checked(path@, name@) is None && e == FsError::InvalidJoin,
        },
{
    match unix_join_checked(path, name) {
        Some(s) => Ok(s),
        None => Err(FsError::InvalidJoin),
    }
}

} // verus!
