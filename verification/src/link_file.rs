//! How a file of the store gets to where it is needed.
use crate::config::PackageImportMethod;
use crate::paths;
use crate::text;
use vstd::prelude::*;
use vstd::string::*;

verus! {

/// Why a file could not be brought to where it is needed.
#[allow(inconsistent_fields)]
#[derive(Debug)]
pub enum LinkFileError {
    CreateDir { dirname: String, error: String },
    CreateLink { from: String, to: String, error: String },
    CloneUnsupported { from: String, to: String, error: String },
}

/// What was found out about the means that work here. Once one has worked, it
/// is used from then on.
#[derive(Debug, Clone, Copy, PartialEq, Eq, Structural)]
pub enum AutoMethod {
    Undecided,
    Clone,
    Hardlink,
    Copy,
}

/// One attempt to bring a file to where it is needed.
#[derive(Debug, Clone, Copy, PartialEq, Eq, Structural)]
pub enum Attempt {
    Clone,
    Hardlink,
    Copy,
    CloneOrCopy,
}

/// Where the work on a file stands: the method that was asked for, whether the
/// means that work here are being found out, the attempt at hand, and what the
/// failed attempt before it said, where that is told along.
#[derive(Debug)]
pub struct LinkState {
    pub method: PackageImportMethod,
    pub probing: bool,
    pub attempt: Attempt,
    pub earlier_error: Option<String>,
}

/// What comes after an attempt.
#[derive(Debug)]
pub enum LinkNext {
    Done { learned: Option<AutoMethod> },
    Again { state: LinkState, remove_target: bool },
    Failed { error: LinkFileError },
}

/// Whether anything has to be done for a file: not where it is linked already,
/// and not where something else is in its place.
pub fn needs_link(same_file: bool, target_exists: bool) -> (yes: bool)
    ensures
        yes == (!same_file && !target_exists),
{
    !same_file && !target_exists
}

/// The directory that has to be there first.
pub fn target_dir(target_link: &str, on_windows: bool) -> (dir: Option<String>)
    ensures
        dir.deep_view() == paths::parent(target_link@, on_windows),
{
    paths::parent_path(target_link, on_windows)
}

/// The error for a directory that could not be made.
pub fn create_dir_error(dirname: &str, error: &str) -> (failure: LinkFileError)
    ensures
        failure is CreateDir,
        failure->dirname@ == dirname@,
        failure->CreateDir_error@ == error@,
{
    LinkFileError::CreateDir { dirname: text::copy(dirname), error: text::copy(error) }
}

/// The attempt that something that has worked stands for.
pub open spec fn attempt_of(auto: AutoMethod) -> Attempt {
    match auto {
        AutoMethod::Hardlink => Attempt::Hardlink,
        AutoMethod::Copy => Attempt::Copy,
        _ => Attempt::Clone,
    }
}

/// The first attempt for a file.
pub open spec fn first_attempt(method: PackageImportMethod, auto: AutoMethod, on_windows: bool) -> (
    bool,
    Attempt,
) {
    match method {
        PackageImportMethod::Auto => if auto is Undecided {
            (
                true,
                if on_windows {
                    Attempt::Hardlink
                } else {
                    Attempt::Clone
                },
            )
        } else {
            (false, attempt_of(auto))
        },
        PackageImportMethod::Hardlink => (false, Attempt::Hardlink),
        PackageImportMethod::Copy => (false, Attempt::Copy),
        PackageImportMethod::Clone => (false, Attempt::Clone),
        PackageImportMethod::CloneOrCopy => (false, Attempt::CloneOrCopy),
    }
}

/// How the work on a file starts. Where nothing is known of the means that work
/// here, cloning is tried first, then a hard link, then a copy; on Windows
/// cloning is left out.
pub fn link_start(method: PackageImportMethod, auto: AutoMethod, on_windows: bool) -> (state:
    LinkState)
    ensures
        state.method == method,
        (state.probing, state.attempt) == first_attempt(method, auto, on_windows),
        state.earlier_error is None,
        is_state(state),
{
    let (probing, attempt) = match method {
        PackageImportMethod::Auto => match auto {
            AutoMethod::Undecided => (
                true,
                if on_windows {
                    Attempt::Hardlink
                } else {
                    Attempt::Clone
                },
            ),
            AutoMethod::Clone => (false, Attempt::Clone),
            AutoMethod::Hardlink => (false, Attempt::Hardlink),
            AutoMethod::Copy => (false, Attempt::Copy),
        },
        PackageImportMethod::Hardlink => (false, Attempt::Hardlink),
        PackageImportMethod::Copy => (false, Attempt::Copy),
        PackageImportMethod::Clone => (false, Attempt::Clone),
        PackageImportMethod::CloneOrCopy => (false, Attempt::CloneOrCopy),
    };
    LinkState { method, probing, attempt, earlier_error: None }
}

/// A state that the work on a file can be in.
pub open spec fn is_state(state: LinkState) -> bool {
    &&& state.probing ==> state.method is Auto && !(state.attempt is CloneOrCopy)
    &&& state.earlier_error is Some ==> state.method is Hardlink && state.attempt is Copy
}

/// How many more attempts there can be.
pub open spec fn attempts_left(state: LinkState) -> nat {
    if state.probing {
        match state.attempt {
            Attempt::Clone => 2,
            Attempt::Hardlink => 1,
            _ => 0,
        }
    } else if state.method is Hardlink && state.attempt is Hardlink {
        1
    } else {
        0
    }
}

/// What was learned from an attempt that has worked.
pub open spec fn learned_from(state: LinkState) -> Option<AutoMethod> {
    if state.probing {
        Some(
            match state.attempt {
                Attempt::Clone => AutoMethod::Clone,
                Attempt::Hardlink => AutoMethod::Hardlink,
                _ => AutoMethod::Copy,
            },
        )
    } else {
        None
    }
}

/// What is told about the last failed attempt.
pub open spec fn failure_text(state: LinkState, error: Seq<char>) -> Seq<char> {
    match state.earlier_error {
        Some(earlier) => earlier@ + "; fallback copy failed: "@ + error,
        None => error,
    }
}

/// The error of the last failed attempt.
pub open spec fn is_failure(
    failure: LinkFileError,
    state: LinkState,
    from: Seq<char>,
    to: Seq<char>,
    error: Seq<char>,
) -> bool {
    match failure {
        LinkFileError::CreateDir { .. } => false,
        LinkFileError::CreateLink { from: source, to: target, error: said } => {
            &&& !(state.method is Clone)
            &&& source@ == from && target@ == to && said@ == failure_text(state, error)
        },
        LinkFileError::CloneUnsupported { from: source, to: target, error: said } => {
            &&& state.method is Clone
            &&& source@ == from && target@ == to && said@ == error
        },
    }
}

/// What comes after a failed attempt.
pub open spec fn after_failure(
    next: LinkNext,
    state: LinkState,
    from: Seq<char>,
    to: Seq<char>,
    error: Seq<char>,
) -> bool {
    match next {
        LinkNext::Done { .. } => false,
        LinkNext::Again { state: then_state, remove_target } => {
            &&& attempts_left(state) > 0
            &&& then_state.method == state.method
            &&& then_state.probing == state.probing
            &&& then_state.attempt == (if state.attempt is Clone {
                Attempt::Hardlink
            } else {
                Attempt::Copy
            })
            &&& remove_target == (state.attempt is Clone)
            &&& then_state.earlier_error.deep_view() == (if state.probing {
                None
            } else {
                Some(error)
            })
        },
        LinkNext::Failed { error: failure } => attempts_left(state) == 0 && is_failure(
            failure,
            state,
            from,
            to,
            error,
        ),
    }
}

/// What comes after an attempt.
pub fn link_next(state: LinkState, from: &str, to: &str, outcome: Result<(), String>) -> (next:
    LinkNext)
    requires
        is_state(state),
    ensures
        match outcome {
            Ok(_) => next is Done && next->learned == learned_from(state),
            Err(error) => after_failure(next, state, from@, to@, error@),
        },
        next is Again ==> is_state(next->state),
{
    let error = match outcome {
        Ok(_) => {
            let learned = if state.probing {
                Some(
                    match state.attempt {
                        Attempt::Clone => AutoMethod::Clone,
                        Attempt::Hardlink => AutoMethod::Hardlink,
                        _ => AutoMethod::Copy,
                    },
                )
            } else {
                None
            };
            return LinkNext::Done { learned };
        },
        Err(error) => error,
    };
    if state.probing {
        match state.attempt {
            Attempt::Clone => {
                return LinkNext::Again {
                    state: LinkState {
                        method: state.method,
                        probing: true,
                        attempt: Attempt::Hardlink,
                        earlier_error: None,
                    },
                    remove_target: true,
                };
            },
            Attempt::Hardlink => {
                return LinkNext::Again {
                    state: LinkState {
                        method: state.method,
                        probing: true,
                        attempt: Attempt::Copy,
                        earlier_error: None,
                    },
                    remove_target: false,
                };
            },
            _ => {},
        }
    }
    match (state.method, state.attempt) {
        (PackageImportMethod::Hardlink, Attempt::Hardlink) => LinkNext::Again {
            state: LinkState {
                method: state.method,
                probing: false,
                attempt: Attempt::Copy,
                earlier_error: Some(error),
            },
            remove_target: false,
        },
        (PackageImportMethod::Clone, _) => LinkNext::Failed {
            error: LinkFileError::CloneUnsupported {
                from: text::copy(from),
                to: text::copy(to),
                error,
            },
        },
        _ => {
            let said = match &state.earlier_error {
                Some(earlier) => earlier.clone().concat("; fallback copy failed: ").concat(
                    error.as_str(),
                ),
                None => error,
            };
            LinkNext::Failed {
                error: LinkFileError::CreateLink {
                    from: text::copy(from),
                    to: text::copy(to),
                    error: said,
                },
            }
        },
    }
}

/// What is known of the means that work here, once one was learned.
pub fn remember(auto: AutoMethod, learned: Option<AutoMethod>) -> (known: AutoMethod)
    ensures
        known == (match learned {
            Some(learned) => learned,
            None => auto,
        }),
{
    match learned {
        Some(learned) => learned,
        None => auto,
    }
}

/// Where every file of a package goes.
pub open spec fn file_targets(
    dir_path: Seq<char>,
    files: Seq<(Seq<char>, Seq<char>)>,
    on_windows: bool,
) -> Seq<
    (Seq<char>, Seq<char>),
> {
    files.map_values(
        |file: (Seq<char>, Seq<char>)| (file.1, paths::joined(dir_path, file.0, on_windows)),
    )
}

/// Where every file of a package goes: from its place in the store to its place
/// in the directory of the package. Only the method that finds out for itself
/// what works here is taken for that.
pub fn create_cas_files(
    import_method: PackageImportMethod,
    dir_path: &str,
    cas_paths: &Vec<(String, String)>,
    on_windows: bool,
) -> (links: Vec<(String, String)>)
    requires
        import_method is Auto,
    ensures
        links.deep_view() == file_targets(dir_path@, cas_paths.deep_view(), on_windows),
{
    let ghost all = file_targets(dir_path@, cas_paths.deep_view(), on_windows);
    let mut links: Vec<(String, String)> = Vec::new();
    let mut i: usize = 0;
    while i < cas_paths.len()
        invariant
            i <= cas_paths@.len(),
            all == file_targets(dir_path@, cas_paths.deep_view(), on_windows),
            links.deep_view() == all.take(i as int),
        decreases cas_paths@.len() - i,
    {
        let ghost before = links.deep_view();
        let target = paths::join_paths(dir_path, cas_paths[i].0.as_str(), on_windows);
        proof {
            assert(cas_paths.deep_view()[i as int] == (
                cas_paths@[i as int].0@,
                cas_paths@[i as int].1@,
            ));
            assert(all.take(i + 1) =~= all.take(i as int).push(all[i as int]));
        }
        links.push((cas_paths[i].1.clone(), target));
        assert(links.deep_view() =~= before.push(all[i as int]));
        i = i + 1;
    }
    assert(all.take(i as int) =~= all);
    links
}

/// What was found out to work here is kept: no later attempt changes it, and it
/// is what is tried from then on.
pub proof fn law_found_means_are_kept(auto: AutoMethod, on_windows: bool, state: LinkState)
    requires
        !(auto is Undecided),
        state.method is Auto,
        (state.probing, state.attempt) == first_attempt(state.method, auto, on_windows),
    ensures
        learned_from(state) is None,
        state.attempt == attempt_of(auto),
{
}

/// The means that has worked is the one that is tried for the next file.
pub proof fn law_next_file_uses_what_worked(state: LinkState, on_windows: bool)
    requires
        is_state(state),
        state.probing,
    ensures
        learned_from(state) is Some,
        !(learned_from(state)->0 is Undecided),
        first_attempt(PackageImportMethod::Auto, learned_from(state)->0, on_windows) == (
            false,
            state.attempt,
        ),
{
}

/// The attempts for a file come to an end.
pub proof fn law_attempts_come_to_an_end(
    state: LinkState,
    next: LinkNext,
    from: Seq<char>,
    to: Seq<char>,
    error: Seq<char>,
)
    requires
        is_state(state),
        after_failure(next, state, from, to, error),
    ensures
        next is Again ==> attempts_left(next->state) < attempts_left(state),
{
}

/// A file is brought into place by the means that the settings name. Where they name none,
/// what worked before is used, and before anything did, cloning is tried first, or on
/// Windows a hard link.
pub proof fn law_first_means(
    method: PackageImportMethod,
    auto: AutoMethod,
    on_windows: bool,
    state: LinkState,
)
    requires
        (state.probing, state.attempt) == first_attempt(method, auto, on_windows),
    ensures
        method is Hardlink ==> state.attempt is Hardlink,
        method is Copy ==> state.attempt is Copy,
        method is Clone ==> state.attempt is Clone,
        method is CloneOrCopy ==> state.attempt is CloneOrCopy,
        method is Auto && auto is Hardlink ==> state.attempt is Hardlink,
        method is Auto && auto is Copy ==> state.attempt is Copy,
        method is Auto && auto is Clone ==> state.attempt is Clone,
        method is Auto && auto is Undecided ==> state.probing && (if on_windows {
            state.attempt is Hardlink
        } else {
            state.attempt is Clone
        }),
        !(method is Auto && auto is Undecided) ==> !state.probing,
{
}

/// Where an attempt fails: while the means are looked for, cloning gives way to a hard link
/// and that to a copy; a hard link that the settings ask for gives way to a copy; nothing
/// else is tried, and what cloning cannot do is told as such where the settings ask for it.
pub proof fn law_next_means(
    next: LinkNext,
    state: LinkState,
    from: Seq<char>,
    to: Seq<char>,
    error: Seq<char>,
)
    requires
        is_state(state),
        after_failure(next, state, from, to, error),
    ensures
        state.probing && state.attempt is Clone ==> next is Again && next->state.attempt is Hardlink
            && next->remove_target,
        state.probing && state.attempt is Hardlink ==> next is Again && next->state.attempt is Copy,
        state.method is Hardlink && state.attempt is Hardlink ==> next is Again
            && next->state.attempt is Copy,
        state.attempt is Copy || state.attempt is CloneOrCopy ==> next is Failed,
        state.method is Clone && state.attempt is Clone ==> next is Failed
            && next->Failed_error is CloneUnsupported,
        state.method is Copy && state.attempt is Copy ==> next is Failed
            && next->Failed_error is CreateLink,
{
}

/// Every file of a package is brought to where its name says in the directory of the
/// package, from where the store has it.
pub proof fn law_files_go_to_their_names(
    links: Seq<(Seq<char>, Seq<char>)>,
    dir_path: Seq<char>,
    files: Seq<(Seq<char>, Seq<char>)>,
    on_windows: bool,
    i: int,
)
    requires
        links == file_targets(dir_path, files, on_windows),
        0 <= i < files.len(),
    ensures
        links.len() == files.len(),
        links[i].0 == files[i].1,
        links[i].1 == paths::joined(dir_path, files[i].0, on_windows),
{
}

} // verus!
