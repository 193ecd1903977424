//! A lock file held in memory: read it with `from_string`, change it with
//! `bump` or `freeze`, write it back with `to_string`.
use vstd::prelude::*;

use crate::bump::{all_wf, bumped, git_bump, simple_bump, BumpType};
use crate::dependencies::{FrozenDependency, LockedDependency};
use crate::dump::{dump, dump_text, lines_of};
use crate::error::Error;
use crate::locate::malformed;
use crate::parse::{entries_of, parse, parse_text};
use crate::update::{all_frozen_ok, opt_view, reconciled, UpdateOptions, Updater};
use crate::text::{append, chars_of, string_of};

verus! {

#[derive(Debug)]
pub struct Lock {
    dependencies: Vec<LockedDependency>,
    python_version: Option<String>,
    sys_platform: Option<String>,
}

impl Lock {
    #[verifier::type_invariant]
    spec fn inv(&self) -> bool {
        all_wf(self.dependencies@)
    }

    /// The entries of the lock, in the order they were read or added.
    pub closed spec fn entries(&self) -> Seq<LockedDependency> {
        self.dependencies@
    }

    /// The Python-version marker put on entries that `freeze` adds.
    pub closed spec fn marker_python_version(&self) -> Option<Seq<char>> {
        opt_view(self.python_version)
    }

    /// The platform marker put on entries that `freeze` adds.
    pub closed spec fn marker_sys_platform(&self) -> Option<Seq<char>> {
        opt_view(self.sys_platform)
    }

    /// Reads a lock from its text.
    pub fn from_string(string: &str) -> (r: Result<Self, Error>)
        ensures
            match parse_text(string@) {
                Ok(v) => r matches Ok(lock) && entries_of(lock.entries(), v)
                    && lock.marker_python_version() is None && lock.marker_sys_platform() is None,
                Err((n, why)) => r matches Err(e) && malformed(e, n, why),
            },
    {
        let dependencies = parse(string)?;
        Ok(Lock { dependencies, python_version: None, sys_platform: None })
    }

    /// The text of the lock.
    pub fn to_string(&self) -> (r: String)
        ensures
            r@ == dump_text(lines_of(self.entries())),
    {
        dump(self.dependencies.as_slice())
    }

    /// Entries added by `freeze` will be specific to this Python version.
    pub fn python_version(&mut self, python_version: &str)
        ensures
            final(self).entries() == old(self).entries(),
            final(self).marker_python_version() == Some(python_version@),
            final(self).marker_sys_platform() == old(self).marker_sys_platform(),
    {
        proof {
            use_type_invariant(&*self);
        }
        self.python_version = Some(string_of(&chars_of(python_version)));
    }

    /// Entries added by `freeze` will be specific to this platform.
    pub fn sys_platform(&mut self, sys_platform: &str)
        ensures
            final(self).entries() == old(self).entries(),
            final(self).marker_sys_platform() == Some(sys_platform@),
            final(self).marker_python_version() == old(self).marker_python_version(),
    {
        proof {
            use_type_invariant(&*self);
        }
        self.sys_platform = Some(string_of(&chars_of(sys_platform)));
    }

    /// Bumps the dependency `name` to the new `version`; returns whether the
    /// lock changed.
    pub fn bump(&mut self, name: &str, version: &str) -> (r: Result<bool, Error>)
        ensures
            bumped(old(self).entries(), final(self).entries(), name@, version@, BumpType::Simple, r),
            final(self).marker_python_version() == old(self).marker_python_version(),
            final(self).marker_sys_platform() == old(self).marker_sys_platform(),
    {
        proof {
            use_type_invariant(&*self);
        }
        let mut deps: Vec<LockedDependency> = Vec::new();
        std::mem::swap(&mut deps, &mut self.dependencies);
        let r = simple_bump(&mut deps, name, version);
        std::mem::swap(&mut deps, &mut self.dependencies);
        r
    }

    /// Bumps the git dependency `name` to the new `git_ref`; returns whether
    /// the lock changed.
    pub fn git_bump(&mut self, name: &str, git_ref: &str) -> (r: Result<bool, Error>)
        ensures
            bumped(old(self).entries(), final(self).entries(), name@, git_ref@, BumpType::Git, r),
            final(self).marker_python_version() == old(self).marker_python_version(),
            final(self).marker_sys_platform() == old(self).marker_sys_platform(),
    {
        proof {
            use_type_invariant(&*self);
        }
        let mut deps: Vec<LockedDependency> = Vec::new();
        std::mem::swap(&mut deps, &mut self.dependencies);
        let r = git_bump(&mut deps, name, git_ref);
        std::mem::swap(&mut deps, &mut self.dependencies);
        r
    }

    /// Merges `pip freeze` output into the lock: see `Updater::update`.
    pub fn freeze(&mut self, deps: &[FrozenDependency])
        requires
            all_frozen_ok(deps@),
        ensures
            reconciled(
                old(self).entries(),
                final(self).entries(),
                deps@,
                old(self).marker_python_version(),
                old(self).marker_sys_platform(),
            ),
            final(self).marker_python_version() == old(self).marker_python_version(),
            final(self).marker_sys_platform() == old(self).marker_sys_platform(),
    {
        proof {
            use_type_invariant(&*self);
        }
        let mut updater = Updater::new();
        updater.set_options(
            UpdateOptions {
                python_version: match &self.python_version {
                    Some(p) => Some(p.clone()),
                    None => None,
                },
                sys_platform: match &self.sys_platform {
                    Some(p) => Some(p.clone()),
                    None => None,
                },
            },
        );
        let mut locked: Vec<LockedDependency> = Vec::new();
        std::mem::swap(&mut locked, &mut self.dependencies);
        updater.update(&mut locked, deps);
        std::mem::swap(&mut locked, &mut self.dependencies);
    }
}

/// What the lock records about how it was generated.
#[derive(Debug)]
pub struct Metadata {
    pub dmenv_version: String,
    pub python_platform: String,
    pub python_version: String,
}

/// The comment line put at the top of a lock file.
pub open spec fn header_line(m: Metadata) -> Seq<char> {
    "# Generated with dmenv "@ + m.dmenv_version@ + ", python "@ + m.python_version@ + ", on "@
        + m.python_platform@ + "\n"@
}

/// The text to write to a lock file: a comment that says how it was
/// generated, then `lock_contents`.
pub fn lock_file_contents(metadata: &Metadata, lock_contents: &str) -> (r: String)
    ensures
        r@ == header_line(*metadata) + lock_contents@,
{
    let mut res = chars_of("# Generated with dmenv ");
    append(&mut res, &chars_of(metadata.dmenv_version.as_str()));
    append(&mut res, &chars_of(", python "));
    append(&mut res, &chars_of(metadata.python_version.as_str()));
    append(&mut res, &chars_of(", on "));
    append(&mut res, &chars_of(metadata.python_platform.as_str()));
    append(&mut res, &chars_of("\n"));
    append(&mut res, &chars_of(lock_contents));
    string_of(&res)
}

} // verus!
