//! Where a project keeps its virtualenv and its lock: the parts of the rule
//! that do not depend on the file system.
use vstd::prelude::*;

use crate::text::{append, chars_of, string_of};

verus! {

/// Variables that change where the virtualenv goes and how it is made.
#[derive(Debug, Clone, Copy)]
pub struct Settings {
    pub venv_from_stdlib: bool,
    pub venv_outside_project: bool,
    pub production: bool,
    pub system_site_packages: bool,
}

impl Default for Settings {
    fn default() -> (r: Settings)
        ensures
            r.venv_from_stdlib,
            !r.venv_outside_project,
            !r.production,
            !r.system_site_packages,
    {
        Settings {
            venv_from_stdlib: true,
            venv_outside_project: false,
            production: false,
            system_site_packages: false,
        }
    }
}

impl Settings {
    /// The settings from the command line (`production`,
    /// `system_site_packages`) and from the environment: whether
    /// `DMENV_NO_VENV_STDLIB` and `DMENV_VENV_OUTSIDE_PROJECT` are set.
    pub fn from_shell(
        production: bool,
        system_site_packages: bool,
        no_venv_stdlib_set: bool,
        venv_outside_project_set: bool,
    ) -> (r: Settings)
        ensures
            r.production == production,
            r.system_site_packages == system_site_packages,
            r.venv_from_stdlib == !no_venv_stdlib_set,
            r.venv_outside_project == venv_outside_project_set,
    {
        Settings {
            venv_from_stdlib: !no_venv_stdlib_set,
            venv_outside_project: venv_outside_project_set,
            production,
            system_site_packages,
        }
    }
}

/// Computes the locations that depend on the settings and the Python
/// version, so that incompatible virtualenvs never share a directory.
#[derive(Debug)]
pub struct PathsResolver {
    pub venv_outside_project: bool,
    pub production: bool,
    pub system_site_packages: bool,
    pub python_version: String,
    pub project_path: String,
}

/// `prod` or `dev`, `-system` when the virtualenv sees the system packages,
/// then `/` and the Python version.
pub open spec fn sub_dir_of(production: bool, system_site_packages: bool, python_version: Seq<char>) -> Seq<
    char,
> {
    (if production {
        "prod"@
    } else {
        "dev"@
    }) + (if system_site_packages {
        "-system"@
    } else {
        Seq::empty()
    }) + "/"@ + python_version
}

pub open spec fn lock_name_of(production: bool) -> Seq<char> {
    if production {
        "production.lock"@
    } else {
        "requirements.lock"@
    }
}

impl PathsResolver {
    pub fn new(project_path: String, python_version: String, settings: &Settings) -> (r: Self)
        ensures
            r.project_path == project_path,
            r.python_version == python_version,
            r.venv_outside_project == settings.venv_outside_project,
            r.production == settings.production,
            r.system_site_packages == settings.system_site_packages,
    {
        PathsResolver {
            venv_outside_project: settings.venv_outside_project,
            project_path,
            python_version,
            production: settings.production,
            system_site_packages: settings.system_site_packages,
        }
    }

    /// The directory of the virtualenv under `.venv` of the project, or
    /// under the user's cache.
    pub fn sub_dir(&self) -> (r: String)
        ensures
            r@ == sub_dir_of(self.production, self.system_site_packages, self.python_version@),
    {
        let mut res = if self.production {
            chars_of("prod")
        } else {
            chars_of("dev")
        };
        if self.system_site_packages {
            append(&mut res, &chars_of("-system"));
        }
        append(&mut res, &chars_of("/"));
        append(&mut res, &chars_of(self.python_version.as_str()));
        string_of(&res)
    }

    /// The file name of the lock in the project.
    pub fn lock_file_name(&self) -> (r: String)
        ensures
            r@ == lock_name_of(self.production),
    {
        if self.production {
            string_of(&chars_of("production.lock"))
        } else {
            string_of(&chars_of("requirements.lock"))
        }
    }
}

} // verus!
