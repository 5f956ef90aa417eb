//! What to do about a request to watch a file, and about what the watcher
//! then reports.

use vstd::prelude::*;

verus! {

/// The kinds of change that a watcher reports.
#[derive(Debug, Clone, Copy, PartialEq, Eq)]
pub enum ChangeKind {
    Any,
    Access,
    Create,
    Modify,
    Remove,
    Other,
}

/// Whether a change of this kind is passed on to the editor: only a
/// modification is.
pub fn is_announced(kind: ChangeKind) -> (announced: bool)
    ensures
        announced == (kind is Modify),
{
    match kind {
        ChangeKind::Modify => true,
        _ => false,
    }
}

/// The paths to tell the editor about after a change of the given kind to
/// the given paths.
pub fn paths_to_announce(kind: ChangeKind, paths: Vec<String>) -> (announced: Vec<String>)
    ensures
        announced@ == if kind is Modify {
            paths@
        } else {
            Seq::<String>::empty()
        },
{
    if is_announced(kind) {
        paths
    } else {
        Vec::new()
    }
}

/// What a request to watch a path calls for.
#[derive(Debug, Clone, PartialEq, Eq)]
pub struct WatchPlan {
    /// The one watcher of the process does not exist yet and is to be made.
    pub create_watcher: bool,
    /// The path that was watched so far and is to be watched no longer.
    pub release: Option<String>,
    /// The path of the request is to be registered with the watcher.
    pub register_path: bool,
    /// The path that is watched once the plan is carried out.
    pub watched: Option<String>,
}

pub open spec fn text_of(path: Option<String>) -> Option<Seq<char>> {
    match path {
        Some(path) => Some(path@),
        None => None,
    }
}

/// Plans a request to watch `path`, while `watched` is watched. The
/// watcher is made on the first request. A path that exists takes the
/// place of the one watched so far, so that one path at most is watched
/// at any time; a path that does not exist changes nothing.
pub fn plan_watch(watcher_exists: bool, watched: Option<String>, path: &str, path_exists: bool) -> (plan:
    WatchPlan)
    ensures
        plan.create_watcher == !watcher_exists,
        plan.register_path == path_exists,
        text_of(plan.watched) == if path_exists {
            Some(path@)
        } else {
            text_of(watched)
        },
        text_of(plan.release) == if path_exists && watched is Some && watched->Some_0@ != path@ {
            text_of(watched)
        } else {
            None
        },
{
    if !path_exists {
        return WatchPlan {
            create_watcher: !watcher_exists,
            release: None,
            register_path: false,
            watched,
        };
    }
    let target = path.to_owned();
    let release = match watched {
        Some(old) => if old == target {
            None
        } else {
            Some(old)
        },
        None => None,
    };
    WatchPlan { create_watcher: !watcher_exists, release, register_path: true, watched: Some(target) }
}

/// The path that is watched after a request to watch `path` no longer:
/// none where it was the one, else the one as before.
pub fn plan_unwatch(watched: Option<String>, path: &str) -> (still: Option<String>)
    ensures
        text_of(still) == if watched is Some && watched->Some_0@ == path@ {
            None
        } else {
            text_of(watched)
        },
{
    let target = path.to_owned();
    match watched {
        Some(old) => if old == target {
            None
        } else {
            Some(old)
        },
        None => None,
    }
}

} // verus!
