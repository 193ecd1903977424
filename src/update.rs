//! Freeze/reconcile engine: merges `pip freeze` output into the lock.
use vstd::prelude::*;

use crate::bump::all_wf;
use crate::dependencies::{
    frozen_line, frozen_ok, python_version_marker, splice, sys_platform_marker, with_marker,
    FrozenDependency, LockedDependency, SimpleDependency,
};
use crate::locate::{simple_name, simple_range};
use crate::text::{byte_pos, chars_of, seq_eq};

verus! {

/// Markers to put on the entries that a reconcile adds.
#[derive(Debug)]
pub struct UpdateOptions {
    pub python_version: Option<String>,
    pub sys_platform: Option<String>,
}

/// Applies `pip freeze` output to the entries of a lock.
#[derive(Debug)]
pub struct Updater {
    python_version: Option<String>,
    sys_platform: Option<String>,
}

pub open spec fn opt_view(o: Option<String>) -> Option<Seq<char>> {
    match o {
        Some(s) => Some(s@),
        None => None,
    }
}

/// The first frozen dependency at or after `i` named `name`.
pub open spec fn first_frozen_from(frozen: Seq<FrozenDependency>, name: Seq<char>, i: int) -> Option<
    int,
>
    decreases frozen.len() - i,
{
    if i < 0 || i >= frozen.len() {
        None
    } else if frozen[i].name@ == name {
        Some(i)
    } else {
        first_frozen_from(frozen, name, i + 1)
    }
}

/// What the patch pass makes of the entry `old`: a simple entry named like a
/// frozen dependency takes the version of the first such one; anything else
/// is kept.
pub open spec fn patched(old: LockedDependency, new: LockedDependency, frozen: Seq<FrozenDependency>) -> bool {
    match old {
        LockedDependency::Simple(s) => match first_frozen_from(frozen, s.name@, 0) {
            Some(k) if frozen[k].version@ != s.version.value@ => {
                &&& new is Simple
                &&& new.wf()
                &&& new.spec_name() == old.spec_name()
                &&& new.spec_line() == splice(
                    old.spec_line(),
                    old.spec_start(),
                    old.spec_end(),
                    frozen[k].version@,
                )
                &&& new.spec_value() == frozen[k].version@
                &&& new.spec_start() == old.spec_start()
            },
            _ => new == old,
        },
        LockedDependency::Git(_) => new == old,
    }
}

pub open spec fn is_known(deps: Seq<LockedDependency>, name: Seq<char>) -> bool {
    exists|i: int| 0 <= i < deps.len() && (#[trigger] deps[i]).spec_name() == name
}

/// The frozen dependencies that no entry of `deps` is named like, in order.
pub open spec fn missing(deps: Seq<LockedDependency>, frozen: Seq<FrozenDependency>) -> Seq<
    FrozenDependency,
>
    decreases frozen.len(),
{
    if frozen.len() == 0 {
        seq![]
    } else {
        let m = missing(deps, frozen.drop_last());
        if is_known(deps, frozen.last().name@) {
            m
        } else {
            m.push(frozen.last())
        }
    }
}

/// The line of the entry added for `f`, with the markers asked for.
pub open spec fn added_line(
    f: FrozenDependency,
    python_version: Option<Seq<char>>,
    sys_platform: Option<Seq<char>>,
) -> Seq<char> {
    let base = frozen_line(f);
    let with_python = match python_version {
        Some(p) => with_marker(base, python_version_marker(p)),
        None => base,
    };
    match sys_platform {
        Some(p) => with_marker(with_python, sys_platform_marker(p)),
        None => with_python,
    }
}

/// The entry `d` is the one added for `f`.
pub open spec fn added(
    d: LockedDependency,
    f: FrozenDependency,
    python_version: Option<Seq<char>>,
    sys_platform: Option<Seq<char>>,
) -> bool {
    &&& d is Simple
    &&& d.wf()
    &&& d.spec_line() == added_line(f, python_version, sys_platform)
    &&& d.spec_name() == simple_name(frozen_line(f))
    &&& simple_range(frozen_line(f)) matches Some((cs, ce)) && d.spec_start() == byte_pos(
        frozen_line(f),
        cs,
    ) && d.spec_end() == byte_pos(frozen_line(f), ce) && d.spec_value() == frozen_line(f).subrange(
        cs,
        ce,
    )
}

/// The result of a reconcile of `old` with `frozen`: every entry patched in
/// place, then an entry added for each frozen dependency not in `old`.
pub open spec fn reconciled(
    old: Seq<LockedDependency>,
    new: Seq<LockedDependency>,
    frozen: Seq<FrozenDependency>,
    python_version: Option<Seq<char>>,
    sys_platform: Option<Seq<char>>,
) -> bool {
    let m = missing(old, frozen);
    &&& new.len() == old.len() + m.len()
    &&& forall|i: int| 0 <= i < old.len() ==> patched(old[i], #[trigger] new[i], frozen)
    &&& forall|j: int|
        0 <= j < m.len() ==> added(#[trigger] new[old.len() + j], m[j], python_version, sys_platform)
}

pub open spec fn all_frozen_ok(frozen: Seq<FrozenDependency>) -> bool {
    forall|i: int| 0 <= i < frozen.len() ==> frozen_ok(#[trigger] frozen[i])
}

impl Updater {
    pub closed spec fn spec_python_version(&self) -> Option<Seq<char>> {
        opt_view(self.python_version)
    }

    pub closed spec fn spec_sys_platform(&self) -> Option<Seq<char>> {
        opt_view(self.sys_platform)
    }

    /// An updater that adds no markers.
    pub fn new() -> (r: Self)
        ensures
            r.spec_python_version() is None,
            r.spec_sys_platform() is None,
    {
        Updater { python_version: None, sys_platform: None }
    }

    /// Sets the markers to put on added entries.
    pub fn set_options(&mut self, options: UpdateOptions)
        ensures
            final(self).spec_python_version() == opt_view(options.python_version),
            final(self).spec_sys_platform() == opt_view(options.sys_platform),
    {
        self.python_version = options.python_version;
        self.sys_platform = options.sys_platform;
    }

    /// Applies `frozen` to the entries of a lock: existing simple entries take
    /// the frozen version, git entries are kept, and frozen dependencies not in
    /// the lock are added, with the markers set. Nothing is removed.
    pub fn update(&self, locked: &mut Vec<LockedDependency>, frozen: &[FrozenDependency])
        requires
            all_wf(old(locked)@),
            all_frozen_ok(frozen@),
        ensures
            all_wf(final(locked)@),
            reconciled(
                old(locked)@,
                final(locked)@,
                frozen@,
                self.spec_python_version(),
                self.spec_sys_platform(),
            ),
    {
        let ghost old_deps = locked@;
        self.patch_existing_deps(locked, frozen);
        let ghost patched_deps = locked@;
        self.add_missing_deps(locked, frozen);
        proof {
            assert forall|j: int| 0 <= j < frozen@.len() implies is_known(old_deps, frozen@[j].name@)
                == is_known(patched_deps, frozen@[j].name@) by {
                let name = frozen@[j].name@;
                if is_known(old_deps, name) {
                    let i = choose|i: int| 0 <= i < old_deps.len() && old_deps[i].spec_name() == name;
                    assert(patched_deps[i].spec_name() == name);
                }
                if is_known(patched_deps, name) {
                    let i = choose|i: int|
                        0 <= i < patched_deps.len() && patched_deps[i].spec_name() == name;
                    assert(old_deps[i].spec_name() == name);
                }
            }
            lemma_missing_same(old_deps, patched_deps, frozen@, frozen@.len() as int);
        }
    }

    /// The first frozen dependency named `name`.
    fn find_frozen(frozen: &[FrozenDependency], name: &String) -> (r: Option<usize>)
        ensures
            match r {
                Some(k) => first_frozen_from(frozen@, name@, 0) == Some(k as int) && k
                    < frozen@.len(),
                None => first_frozen_from(frozen@, name@, 0) is None,
            },
    {
        let wanted = chars_of(name.as_str());
        let mut k: usize = 0;
        while k < frozen.len()
            invariant
                k <= frozen.len(),
                wanted@ == name@,
                first_frozen_from(frozen@, name@, 0) == first_frozen_from(frozen@, name@, k as int),
            decreases frozen.len() - k,
        {
            if seq_eq(&chars_of(frozen[k].name.as_str()), &wanted) {
                return Some(k);
            }
            k = k + 1;
        }
        None
    }

    /// Patch pass: every simple entry takes the version of the frozen
    /// dependency of the same name.
    fn patch_existing_deps(&self, locked: &mut Vec<LockedDependency>, frozen: &[FrozenDependency])
        requires
            all_wf(old(locked)@),
        ensures
            final(locked)@.len() == old(locked)@.len(),
            all_wf(final(locked)@),
            forall|i: int|
                0 <= i < old(locked)@.len() ==> patched(old(locked)@[i], #[trigger] final(locked)@[i], frozen@),
    {
        let ghost d0 = locked@;
        let mut i: usize = 0;
        while i < locked.len()
            invariant
                i <= locked.len(),
                locked@.len() == d0.len(),
                all_wf(locked@),
                forall|k: int| 0 <= k < i ==> patched(d0[k], #[trigger] locked@[k], frozen@),
                forall|k: int| i <= k < d0.len() ==> #[trigger] locked@[k] == d0[k],
            decreases locked.len() - i,
        {
            let found = match &locked[i] {
                LockedDependency::Git(_) => None,
                LockedDependency::Simple(s) => match Self::find_frozen(frozen, &s.name) {
                    Some(k) => {
                        if seq_eq(
                            &chars_of(frozen[k].version.as_str()),
                            &chars_of(s.version.value.as_str()),
                        ) {
                            None
                        } else {
                            Some(k)
                        }
                    },
                    None => None,
                },
            };
            if let Some(k) = found {
                let ghost before = locked@;
                let _ = locked[i].simple_bump(frozen[k].version.as_str());
                assert forall|j: int| 0 <= j < locked@.len() implies (#[trigger] locked@[j]).wf() by {
                    if j != i {
                        assert(locked@[j] == before[j]);
                    }
                }
            }
            i = i + 1;
        }
    }

    /// Append pass: an entry for each frozen dependency that the lock lacks.
    fn add_missing_deps(&self, locked: &mut Vec<LockedDependency>, frozen: &[FrozenDependency])
        requires
            all_wf(old(locked)@),
            all_frozen_ok(frozen@),
        ensures
            all_wf(final(locked)@),
            final(locked)@.len() == old(locked)@.len() + missing(old(locked)@, frozen@).len(),
            forall|i: int| 0 <= i < old(locked)@.len() ==> #[trigger] final(locked)@[i] == old(locked)@[i],
            forall|j: int|
                0 <= j < missing(old(locked)@, frozen@).len() ==> added(
                    #[trigger] final(locked)@[old(locked)@.len() + j],
                    missing(old(locked)@, frozen@)[j],
                    self.spec_python_version(),
                    self.spec_sys_platform(),
                ),
    {
        let ghost d0 = locked@;
        let n0 = locked.len();
        let mut known: Vec<Vec<char>> = Vec::new();
        let mut i: usize = 0;
        while i < n0
            invariant
                i <= n0,
                n0 == d0.len(),
                locked@ == d0,
                known.len() == i,
                forall|k: int| 0 <= k < i ==> (#[trigger] known[k])@ == d0[k].spec_name(),
            decreases n0 - i,
        {
            known.push(chars_of(locked[i].name().as_str()));
            i = i + 1;
        }
        let mut j: usize = 0;
        while j < frozen.len()
            invariant
                j <= frozen.len(),
                n0 == d0.len(),
                known.len() == n0,
                forall|k: int| 0 <= k < n0 ==> (#[trigger] known[k])@ == d0[k].spec_name(),
                all_wf(locked@),
                all_frozen_ok(frozen@),
                locked@.len() == n0 + missing(d0, frozen@.subrange(0, j as int)).len(),
                forall|k: int| 0 <= k < n0 ==> #[trigger] locked@[k] == d0[k],
                forall|k: int|
                    0 <= k < missing(d0, frozen@.subrange(0, j as int)).len() ==> added(
                        #[trigger] locked@[n0 + k],
                        missing(d0, frozen@.subrange(0, j as int))[k],
                        self.spec_python_version(),
                        self.spec_sys_platform(),
                    ),
            decreases frozen.len() - j,
        {
            let f = &frozen[j];
            let name = chars_of(f.name.as_str());
            let mut seen = false;
            let mut k: usize = 0;
            while k < n0 && !seen
                invariant
                    k <= n0,
                    n0 == d0.len(),
                    known.len() == n0,
                    seen ==> is_known(d0, name@),
                    !seen ==> forall|m: int| 0 <= m < k ==> d0[m].spec_name() != name@,
                    forall|m: int| 0 <= m < n0 ==> (#[trigger] known[m])@ == d0[m].spec_name(),
                decreases n0 - k,
            {
                if seq_eq(&known[k], &name) {
                    seen = true;
                    assert(d0[k as int].spec_name() == name@);
                    assert(is_known(d0, name@));
                }
                k = k + 1;
            }
            let ghost prev = missing(d0, frozen@.subrange(0, j as int));
            assert(frozen@.subrange(0, j + 1).drop_last() =~= frozen@.subrange(0, j as int));
            assert(frozen@.subrange(0, j + 1).last() == frozen@[j as int]);
            if !seen {
                let mut dep = SimpleDependency::from_frozen(f);
                if let Some(python_version) = &self.python_version {
                    dep.python_version(python_version.as_str());
                }
                if let Some(sys_platform) = &self.sys_platform {
                    dep.sys_platform(sys_platform.as_str());
                }
                let ghost before = locked@;
                locked.push(LockedDependency::Simple(dep));
                assert(missing(d0, frozen@.subrange(0, j + 1)) =~= prev.push(*f));
                assert forall|m: int| 0 <= m < locked@.len() implies (#[trigger] locked@[m]).wf() by {
                    if m < before.len() {
                        assert(locked@[m] == before[m]);
                    }
                }
                assert forall|m: int|
                    0 <= m < missing(d0, frozen@.subrange(0, j + 1)).len() implies added(
                    #[trigger] locked@[n0 + m],
                    missing(d0, frozen@.subrange(0, j + 1))[m],
                    self.spec_python_version(),
                    self.spec_sys_platform(),
                ) by {
                    if m < prev.len() {
                        assert(locked@[n0 + m] == before[n0 + m]);
                    }
                }
            } else {
                assert(missing(d0, frozen@.subrange(0, j + 1)) =~= prev);
            }
            j = j + 1;
        }
        assert(frozen@.subrange(0, frozen@.len() as int) =~= frozen@);
    }
}

/// Whether some frozen dependency is named `name`.
pub open spec fn is_installed(frozen: Seq<FrozenDependency>, name: Seq<char>) -> bool {
    exists|i: int| 0 <= i < frozen.len() && (#[trigger] frozen[i]).name@ == name
}

/// The entries of `deps` that are installed (`keep`) or not (`!keep`), in order.
pub open spec fn select(deps: Seq<LockedDependency>, frozen: Seq<FrozenDependency>, keep: bool) -> Seq<
    LockedDependency,
>
    decreases deps.len(),
{
    if deps.len() == 0 {
        seq![]
    } else {
        let s = select(deps.drop_last(), frozen, keep);
        if is_installed(frozen, deps.last().spec_name()) == keep {
            s.push(deps.last())
        } else {
            s
        }
    }
}

/// Splits the entries of a lock into those that `frozen` (a fresh install)
/// still holds, to keep, and the others, to remove; both in lock order.
pub fn tidy_deps(deps: Vec<LockedDependency>, frozen: &[FrozenDependency]) -> (r: (
    Vec<LockedDependency>,
    Vec<LockedDependency>,
))
    ensures
        r.0@ == select(deps@, frozen@, true),
        r.1@ == select(deps@, frozen@, false),
{
    let ghost d0 = deps@;
    let mut keep: Vec<LockedDependency> = Vec::new();
    let mut remove: Vec<LockedDependency> = Vec::new();
    let mut names: Vec<Vec<char>> = Vec::new();
    let mut k: usize = 0;
    while k < frozen.len()
        invariant
            k <= frozen.len(),
            names.len() == k,
            forall|m: int| 0 <= m < k ==> (#[trigger] names[m])@ == frozen@[m].name@,
        decreases frozen.len() - k,
    {
        names.push(chars_of(frozen[k].name.as_str()));
        k = k + 1;
    }
    let mut rest = deps;
    let mut i: usize = 0;
    let n = rest.len();
    assert(rest@ =~= d0.subrange(0, n as int));
    while rest.len() > 0
        invariant
            n == d0.len(),
            rest.len() + i == n,
            rest@ == d0.subrange(i as int, n as int),
            names.len() == frozen@.len(),
            forall|m: int| 0 <= m < names.len() ==> (#[trigger] names[m])@ == frozen@[m].name@,
            keep@ == select(d0.subrange(0, i as int), frozen@, true),
            remove@ == select(d0.subrange(0, i as int), frozen@, false),
        decreases rest.len(),
    {
        let dep = rest.remove(0);
        assert(dep == d0[i as int]);
        assert(rest@ =~= d0.subrange(i + 1, n as int));
        let name = chars_of(dep.name().as_str());
        let mut found = false;
        let mut m: usize = 0;
        while m < names.len() && !found
            invariant
                m <= names.len(),
                names.len() == frozen@.len(),
                forall|j: int| 0 <= j < names.len() ==> (#[trigger] names[j])@ == frozen@[j].name@,
                found ==> is_installed(frozen@, name@),
                !found ==> forall|j: int| 0 <= j < m ==> frozen@[j].name@ != name@,
            decreases names.len() - m,
        {
            if seq_eq(&names[m], &name) {
                found = true;
                assert(frozen@[m as int].name@ == name@);
            }
            m = m + 1;
        }
        assert(d0.subrange(0, i + 1).drop_last() =~= d0.subrange(0, i as int));
        assert(d0.subrange(0, i + 1).last() == dep);
        if found {
            keep.push(dep);
        } else {
            remove.push(dep);
        }
        i = i + 1;
    }
    assert(d0.subrange(0, n as int) =~= d0);
    (keep, remove)
}

/// No frozen dependency that a reconcile adds is named like an entry that
/// was in the lock.
pub proof fn lemma_missing_unknown(deps: Seq<LockedDependency>, frozen: Seq<FrozenDependency>)
    ensures
        forall|j: int|
            0 <= j < missing(deps, frozen).len() ==> !is_known(
                deps,
                (#[trigger] missing(deps, frozen)[j]).name@,
            ),
    decreases frozen.len(),
{
    if frozen.len() > 0 {
        lemma_missing_unknown(deps, frozen.drop_last());
        let m = missing(deps, frozen.drop_last());
        if !is_known(deps, frozen.last().name@) {
            assert forall|j: int| 0 <= j < m.push(frozen.last()).len() implies !is_known(
                deps,
                (#[trigger] m.push(frozen.last())[j]).name@,
            ) by {
                if j < m.len() {
                    assert(m.push(frozen.last())[j] == m[j]);
                }
            }
        }
    }
}

proof fn lemma_missing_same(
    a: Seq<LockedDependency>,
    b: Seq<LockedDependency>,
    frozen: Seq<FrozenDependency>,
    n: int,
)
    requires
        0 <= n <= frozen.len(),
        forall|j: int| 0 <= j < frozen.len() ==> is_known(a, frozen[j].name@) == is_known(b, #[trigger] frozen[j].name@),
    ensures
        missing(a, frozen.subrange(0, n)) == missing(b, frozen.subrange(0, n)),
        n == frozen.len() ==> missing(a, frozen) == missing(b, frozen),
    decreases n,
{
    if n > 0 {
        assert(frozen.subrange(0, n).drop_last() =~= frozen.subrange(0, n - 1));
        lemma_missing_same(a, b, frozen, n - 1);
    }
    assert(frozen.subrange(0, frozen.len() as int) =~= frozen);
}

} // verus!
