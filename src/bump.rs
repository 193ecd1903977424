//! Bump engine: sets the value of one named entry of the lock.
use vstd::prelude::*;

use crate::dependencies::{splice, LockedDependency};
use crate::error::Error;
use crate::text::{chars_of, seq_eq};

verus! {

/// Which kind of entry a bump is meant for.
#[derive(Debug, Clone, Copy, PartialEq, Eq, Structural)]
pub enum BumpType {
    Git,
    Simple,
}

/// The number of entries of `deps` named `name`.
pub open spec fn count_named(deps: Seq<LockedDependency>, name: Seq<char>) -> nat
    decreases deps.len(),
{
    if deps.len() == 0 {
        0
    } else {
        count_named(deps.drop_last(), name) + if deps.last().spec_name() == name {
            1nat
        } else {
            0nat
        }
    }
}

pub open spec fn all_wf(deps: Seq<LockedDependency>) -> bool {
    forall|i: int| 0 <= i < deps.len() ==> (#[trigger] deps[i]).wf()
}

pub open spec fn kind_matches(d: LockedDependency, kind: BumpType) -> bool {
    match kind {
        BumpType::Git => d is Git,
        BumpType::Simple => d is Simple,
    }
}

pub open spec fn kind_name(kind: BumpType) -> Seq<char> {
    match kind {
        BumpType::Git => "git"@,
        BumpType::Simple => "simple"@,
    }
}

/// `new` is `old` with the value of entry `i` set to `value`: the line is
/// spliced at the located range, everything else is kept.
pub open spec fn replaced_at(
    old: Seq<LockedDependency>,
    new: Seq<LockedDependency>,
    i: int,
    value: Seq<char>,
) -> bool {
    &&& new.len() == old.len()
    &&& forall|j: int| 0 <= j < old.len() && j != i ==> new[j] == old[j]
    &&& (new[i] is Git <==> old[i] is Git)
    &&& new[i].spec_name() == old[i].spec_name()
    &&& new[i].spec_line() == splice(
        old[i].spec_line(),
        old[i].spec_start(),
        old[i].spec_end(),
        value,
    )
    &&& new[i].spec_value() == value
    &&& new[i].spec_start() == old[i].spec_start()
}

/// What a bump of `name` to `value` does to `old`, giving `new` and `r`.
pub open spec fn bumped(
    old: Seq<LockedDependency>,
    new: Seq<LockedDependency>,
    name: Seq<char>,
    value: Seq<char>,
    kind: BumpType,
    r: Result<bool, Error>,
) -> bool {
    let c = count_named(old, name);
    &&& all_wf(new)
    &&& c == 0 ==> new == old && (r matches Err(Error::NothingToBump { name: n }) && n@ == name)
    &&& c > 1 ==> new == old && (r matches Err(Error::MultipleBumps { name: n }) && n@ == name)
    &&& c == 1 ==> forall|i: int|
        0 <= i < old.len() && #[trigger] old[i].spec_name() == name ==> {
            if old[i].spec_value() == value {
                new == old && r == Ok::<bool, Error>(false)
            } else if !kind_matches(old[i], kind) {
                new == old && (r matches Err(Error::IncorrectLockedType { name: n, expected_type: t })
                    && n@ == name && t@ == kind_name(kind))
            } else {
                replaced_at(old, new, i, value) && r == Ok::<bool, Error>(true)
            }
        }
}

pub(crate) proof fn lemma_count_prefix(deps: Seq<LockedDependency>, name: Seq<char>, k: int)
    requires
        0 <= k < deps.len(),
    ensures
        count_named(deps.subrange(0, k + 1), name) == count_named(deps.subrange(0, k), name)
            + if deps[k].spec_name() == name {
            1nat
        } else {
            0nat
        },
{
    assert(deps.subrange(0, k + 1).drop_last() =~= deps.subrange(0, k));
}

/// With a single entry named `name`, it is the one at `idx`.
proof fn lemma_count_one(deps: Seq<LockedDependency>, name: Seq<char>, idx: int, k: int)
    requires
        0 <= idx < k <= deps.len(),
        deps[idx].spec_name() == name,
        count_named(deps.subrange(0, k), name) == 1,
    ensures
        forall|j: int| 0 <= j < k && j != idx ==> deps[j].spec_name() != name,
    decreases k,
{
    lemma_count_prefix(deps, name, k - 1);
    if idx < k - 1 {
        if deps[k - 1].spec_name() == name {
            lemma_count_pos(deps, name, idx, k - 1);
        }
        lemma_count_one(deps, name, idx, k - 1);
    } else {
        lemma_count_zero(deps, name, k - 1);
    }
}

pub(crate) proof fn lemma_count_pos(deps: Seq<LockedDependency>, name: Seq<char>, idx: int, k: int)
    requires
        0 <= idx < k <= deps.len(),
        deps[idx].spec_name() == name,
    ensures
        count_named(deps.subrange(0, k), name) >= 1,
    decreases k,
{
    lemma_count_prefix(deps, name, k - 1);
    if idx < k - 1 {
        lemma_count_pos(deps, name, idx, k - 1);
    }
}

proof fn lemma_count_zero(deps: Seq<LockedDependency>, name: Seq<char>, k: int)
    requires
        0 <= k <= deps.len(),
        count_named(deps.subrange(0, k), name) == 0,
    ensures
        forall|j: int| 0 <= j < k ==> deps[j].spec_name() != name,
{
    assert forall|j: int| 0 <= j < k implies deps[j].spec_name() != name by {
        if deps[j].spec_name() == name {
            lemma_count_pos(deps, name, j, k);
        }
    }
}

fn bump_impl(deps: &mut Vec<LockedDependency>, name: &str, version: &str, bump_type: BumpType) -> (r:
    Result<bool, Error>)
    requires
        all_wf(old(deps)@),
    ensures
        bumped(old(deps)@, final(deps)@, name@, version@, bump_type, r),
{
    let ghost d0 = deps@;
    let wanted = chars_of(name);
    let mut count: usize = 0;
    let mut idx: usize = 0;
    let mut k: usize = 0;
    while k < deps.len()
        invariant
            deps@ == d0,
            k <= deps.len(),
            wanted@ == name@,
            count <= 2,
            count < 2 ==> count == count_named(d0.subrange(0, k as int), name@),
            count == 2 ==> count_named(d0.subrange(0, k as int), name@) >= 2,
            count >= 1 ==> idx < k && d0[idx as int].spec_name() == name@,
        decreases deps.len() - k,
    {
        proof {
            lemma_count_prefix(d0, name@, k as int);
        }
        let n = deps[k].name();
        if seq_eq(&chars_of(n.as_str()), &wanted) {
            if count == 0 {
                idx = k;
            }
            if count < 2 {
                count = count + 1;
            }
        }
        k = k + 1;
    }
    assert(d0.subrange(0, d0.len() as int) =~= d0);
    if count == 0 {
        return Err(Error::NothingToBump { name: name.to_string() });
    }
    if count > 1 {
        return Err(Error::MultipleBumps { name: name.to_string() });
    }
    proof {
        lemma_count_one(d0, name@, idx as int, d0.len() as int);
    }
    let current = deps[idx].version();
    if seq_eq(&chars_of(current.as_str()), &chars_of(version)) {
        return Ok(false);
    }
    let res = match bump_type {
        BumpType::Git => deps[idx].git_bump(version),
        BumpType::Simple => deps[idx].simple_bump(version),
    };
    match res {
        Ok(()) => Ok(true),
        Err(e) => {
            assert(deps@ =~= d0);
            Err(e)
        },
    }
}

/// Sets the version of the simple entry `name` to `version`; returns whether
/// the lock changed.
pub fn simple_bump(deps: &mut Vec<LockedDependency>, name: &str, version: &str) -> (r: Result<
    bool,
    Error,
>)
    requires
        all_wf(old(deps)@),
    ensures
        bumped(old(deps)@, final(deps)@, name@, version@, BumpType::Simple, r),
{
    bump_impl(deps, name, version, BumpType::Simple)
}

/// Sets the reference of the git entry `name` to `git_ref`; returns whether
/// the lock changed.
pub fn git_bump(deps: &mut Vec<LockedDependency>, name: &str, git_ref: &str) -> (r: Result<
    bool,
    Error,
>)
    requires
        all_wf(old(deps)@),
    ensures
        bumped(old(deps)@, final(deps)@, name@, git_ref@, BumpType::Git, r),
{
    bump_impl(deps, name, git_ref, BumpType::Git)
}

} // verus!
