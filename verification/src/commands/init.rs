//! Initializing a store.
use vstd::prelude::*;
use crate::commands::PadzPaths;
use crate::error::PadzError;
use crate::model::Scope;
use crate::text::{append_chars, chars_of, lit, string_from_chars};

verus! {

/// What store initialization or link maintenance did.
#[derive(Debug, PartialEq, Eq)]
pub enum InitializationOutcome {
    Initialized { scope: Scope, store_path: String },
    Linked { target: String },
    Unlinked,
}

/// The initialization of `scope`: its directory, which the caller lays out
/// with one directory per bucket. A project scope without a project
/// directory is a store error.
pub fn run(paths: &PadzPaths, scope: Scope) -> (r: Result<InitializationOutcome, PadzError>)
    ensures
        match scope {
            Scope::Project => match paths.project {
                Some(p) => r matches Ok(InitializationOutcome::Initialized { scope: s, store_path }) && s == scope
                    && store_path@ == p@,
                None => r matches Err(e) && e is Store,
            },
            Scope::Global => r matches Ok(InitializationOutcome::Initialized { scope: s, store_path }) && s == scope
                && store_path@ == paths.global@,
        },
{
    let dir = match paths.scope_dir(scope) {
        Ok(d) => d,
        Err(e) => return Err(e),
    };
    Ok(InitializationOutcome::Initialized { scope, store_path: dir })
}

/// Why linking to `target` (a `.padz` directory) is refused, if it is: a
/// project cannot link to itself, the target must have been initialized,
/// and links do not chain.
pub open spec fn link_refusal(local: Option<Seq<char>>, target: Seq<char>, initialized: bool, is_link: bool) -> Option<
    Seq<char>,
> {
    if local == Some(target) {
        Some("Cannot link '"@ + target + "' to itself."@)
    } else if !initialized {
        Some("Target '"@ + target + "' has not been initialized. Run `padz init` there first."@)
    } else if is_link {
        Some("Target '"@ + target + "' is itself a link. Chained links are not supported."@)
    } else {
        None
    }
}

fn quoted_message(before: &str, target: &String, after: &str) -> (r: String)
    ensures
        r@ == before@ + target@ + after@,
{
    let mut m = lit(before);
    append_chars(&mut m, &chars_of(target.as_str()));
    append_chars(&mut m, &lit(after));
    string_from_chars(&m)
}

/// Decides a link from this project's `.padz` directory to `target_padz`,
/// given the canonical local directory (when it exists), whether the target
/// has been initialized and whether it is itself a link. A refused link is a
/// store error with its reason (see [`link_refusal`]); otherwise the
/// outcome names the target, and the caller writes the link.
pub fn check_link(
    local_canonical: Option<String>,
    target_padz: String,
    target_initialized: bool,
    target_is_link: bool,
) -> (r: Result<InitializationOutcome, PadzError>)
    ensures
        match link_refusal(
            match local_canonical {
                Some(l) => Some(l@),
                None => None,
            },
            target_padz@,
            target_initialized,
            target_is_link,
        ) {
            Some(m) => r matches Err(PadzError::Store(x)) && x@ == m,
            None => r matches Ok(InitializationOutcome::Linked { target }) && target@ == target_padz@,
        },
{
    let same = match &local_canonical {
        Some(l) => crate::text::str_eq(l.as_str(), target_padz.as_str()),
        None => false,
    };
    if same {
        return Err(PadzError::Store(quoted_message("Cannot link '", &target_padz, "' to itself.")));
    }
    if !target_initialized {
        return Err(
            PadzError::Store(
                quoted_message("Target '", &target_padz, "' has not been initialized. Run `padz init` there first."),
            ),
        );
    }
    if target_is_link {
        return Err(
            PadzError::Store(
                quoted_message("Target '", &target_padz, "' is itself a link. Chained links are not supported."),
            ),
        );
    }
    Ok(InitializationOutcome::Linked { target: target_padz })
}

/// Decides removing this project's link: without a link it is a store
/// error; otherwise the outcome is that the project is unlinked, and the
/// caller removes the link.
pub fn check_unlink(link_exists: bool) -> (r: Result<InitializationOutcome, PadzError>)
    ensures
        if link_exists {
            r matches Ok(o) && o == InitializationOutcome::Unlinked
        } else {
            r matches Err(PadzError::Store(x)) && x@ == "No link exists in this project."@
        },
{
    if !link_exists {
        return Err(PadzError::Store(string_from_chars(&lit("No link exists in this project."))));
    }
    Ok(InitializationOutcome::Unlinked)
}

} // verus!
