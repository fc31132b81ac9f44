//! The folders and files that the user has approved.
//!
//! The store only grows by an approval and only shrinks by being emptied.
//! It holds paths in resolved form, so a question put to it is answered by
//! comparing names, with no look at the disk.

use vstd::prelude::*;
use vstd::string::*;
use crate::error::{AccessError, Refusal, Stage};
use crate::path::{covers, is_canonical, segments_of, CanonicalPath};

verus! {

/// Some approved path is `path` or a folder above it.
pub open spec fn allows(approved: Seq<Seq<Seq<char>>>, path: Seq<Seq<char>>) -> bool {
    exists|i: int| 0 <= i < approved.len() && covers(#[trigger] approved[i], path)
}

/// The approved paths, in the order in which they were approved. A path
/// approved twice is held twice.
pub struct Allowlist {
    approved: Vec<CanonicalPath>,
}

impl View for Allowlist {
    type V = Seq<Seq<Seq<char>>>;

    /// The names of each approved path, in the order of approval.
    closed spec fn view(&self) -> Seq<Seq<Seq<char>>> {
        self.approved@.map_values(|path: CanonicalPath| path@)
    }
}

impl Allowlist {
    /// A store with nothing approved.
    pub fn new() -> (store: Allowlist)
        ensures
            store@ == Seq::<Seq<Seq<char>>>::empty(),
    {
        let store = Allowlist { approved: Vec::new() };
        assert(store@ =~= Seq::<Seq<Seq<char>>>::empty());
        store
    }

    /// How many approvals the store holds.
    pub fn len(&self) -> (count: usize)
        ensures
            count == self@.len(),
    {
        self.approved.len()
    }

    /// Adds `path` to the approved paths. From now on `path` and all that
    /// lies below it is allowed, and whatever was allowed before still is.
    pub fn approve(&mut self, path: CanonicalPath)
        ensures
            final(self)@ == old(self)@.push(path@),
            forall|below: Seq<Seq<char>>| covers(path@, below) ==> allows(final(self)@, below),
            forall|other: Seq<Seq<char>>|
                allows(old(self)@, other) ==> allows(final(self)@, other),
    {
        let ghost before = self@;
        let ghost names = path@;
        self.approved.push(path);
        assert(self@ =~= before.push(names));
        proof {
            assert forall|below: Seq<Seq<char>>| covers(names, below) implies allows(
                self@,
                below,
            ) by {
                law_approval_allows(before, names, below);
            }
            assert forall|other: Seq<Seq<char>>| allows(before, other) implies allows(
                self@,
                other,
            ) by {
                law_approval_keeps(before, names, other);
            }
        }
    }

    /// Whether `path` is an approved path or lies below one.
    pub fn is_allowed(&self, path: &CanonicalPath) -> (allowed: bool)
        ensures
            allowed == allows(self@, path@),
    {
        let mut i: usize = 0;
        while i < self.approved.len()
            invariant
                i <= self.approved.len(),
                forall|j: int| 0 <= j < i ==> !covers(#[trigger] self@[j], path@),
            decreases self.approved.len() - i,
        {
            assert(self@[i as int] == self.approved@[i as int]@);
            if path.is_within(&self.approved[i]) {
                return true;
            }
            i += 1;
        }
        false
    }

    /// Empties the store. Nothing is allowed afterwards.
    pub fn clear(&mut self)
        ensures
            final(self)@ == Seq::<Seq<Seq<char>>>::empty(),
            forall|path: Seq<Seq<char>>| !allows(final(self)@, path),
    {
        self.approved.clear();
        assert(self@ =~= Seq::<Seq<Seq<char>>>::empty());
    }
}

/// What resolving a path came to: the resolved text, or what the operating
/// system said when it failed.
pub open spec fn resolution(resolved: Result<String, String>) -> Result<Seq<char>, Seq<char>> {
    match resolved {
        Ok(text) => Ok(text@),
        Err(detail) => Err(detail@),
    }
}

/// What is reported of text that was given as a resolved path and is not
/// in resolved form.
pub open spec fn unresolved(text: Seq<char>) -> Refusal {
    Refusal::PathResolution { stage: Stage::Resolve, detail: "not a resolved path: "@ + text }
}

/// The resolved path that a resolution stands for, or why there is none.
pub open spec fn resolved_path(resolved: Result<Seq<char>, Seq<char>>) -> Result<
    Seq<char>,
    Refusal,
> {
    match resolved {
        Ok(text) => if is_canonical(text) {
            Ok(text)
        } else {
            Err(unresolved(text))
        },
        Err(detail) => Err(Refusal::PathResolution { stage: Stage::Resolve, detail }),
    }
}

/// The resolved path of a request that the approved paths cover, or the
/// refusal. `path` is the path as it was asked for: a refusal for want of
/// approval names it.
pub open spec fn admitted(
    approved: Seq<Seq<Seq<char>>>,
    path: Seq<char>,
    resolved: Result<Seq<char>, Seq<char>>,
) -> Result<Seq<char>, Refusal> {
    match resolved_path(resolved) {
        Ok(text) => if allows(approved, segments_of(text)) {
            Ok(text)
        } else {
            Err(Refusal::AccessDenied { path })
        },
        Err(refusal) => Err(refusal),
    }
}

/// An outcome as the text of the path that was let through, or the refusal.
pub open spec fn verdict(outcome: Result<CanonicalPath, AccessError>) -> Result<
    Seq<char>,
    Refusal,
> {
    match outcome {
        Ok(path) => Ok(path.text()),
        Err(refusal) => Err(refusal@),
    }
}

/// Reads the outcome of resolving a path.
pub fn resolve(resolved: &Result<String, String>) -> (outcome: Result<CanonicalPath, AccessError>)
    ensures
        verdict(outcome) == resolved_path(resolution(*resolved)),
        outcome matches Ok(path) ==> path@ == segments_of(path.text()),
{
    match resolved {
        Ok(text) => match CanonicalPath::parse(text.as_str()) {
            Some(path) => Ok(path),
            None => {
                let mut detail = "not a resolved path: ".to_owned();
                detail.append(text.as_str());
                Err(AccessError::PathResolution { stage: Stage::Resolve, detail })
            },
        },
        Err(detail) => Err(
            AccessError::PathResolution { stage: Stage::Resolve, detail: detail.clone() },
        ),
    }
}

/// Approves what the operating system resolved a picked path to. A path
/// that could not be resolved approves nothing and is reported.
pub fn approve_path(allowlist: &mut Allowlist, resolved: &Result<String, String>) -> (outcome:
    Result<(), AccessError>)
    ensures
        match resolved_path(resolution(*resolved)) {
            Ok(text) => {
                &&& outcome is Ok
                &&& final(allowlist)@ == old(allowlist)@.push(segments_of(text))
            },
            Err(refusal) => {
                &&& outcome matches Err(reported)
                &&& reported@ == refusal
                &&& final(allowlist)@ == old(allowlist)@
            },
        },
{
    match resolve(resolved) {
        Ok(path) => {
            allowlist.approve(path);
            Ok(())
        },
        Err(refusal) => Err(refusal),
    }
}

/// Decides whether the path asked for as `path`, which the operating system
/// resolved as `resolved` says, is an approved path or lies below one.
/// Gives the resolved path where it is.
pub fn is_path_allowed(allowlist: &Allowlist, path: &str, resolved: &Result<String, String>) -> (outcome:
    Result<CanonicalPath, AccessError>)
    ensures
        verdict(outcome) == admitted(allowlist@, path@, resolution(*resolved)),
        outcome matches Ok(canonical) ==> canonical@ == segments_of(canonical.text()),
{
    match resolve(resolved) {
        Ok(canonical) => if allowlist.is_allowed(&canonical) {
            Ok(canonical)
        } else {
            Err(AccessError::AccessDenied { path: path.to_owned() })
        },
        Err(refusal) => Err(refusal),
    }
}

/// Empties the store, so that a new session starts with nothing approved.
pub fn clear_approved_paths(allowlist: &mut Allowlist)
    ensures
        final(allowlist)@ == Seq::<Seq<Seq<char>>>::empty(),
        forall|path: Seq<Seq<char>>| !allows(final(allowlist)@, path),
{
    allowlist.clear();
}

/// Once a path is approved, it and everything below it is allowed.
pub proof fn law_approval_allows(
    approved: Seq<Seq<Seq<char>>>,
    path: Seq<Seq<char>>,
    below: Seq<Seq<char>>,
)
    requires
        covers(path, below),
    ensures
        allows(approved.push(path), path),
        allows(approved.push(path), below),
{
    let grown = approved.push(path);
    assert(covers(grown[approved.len() as int], below));
    assert(covers(grown[approved.len() as int], path));
}

/// An approval takes nothing away.
pub proof fn law_approval_keeps(
    approved: Seq<Seq<Seq<char>>>,
    path: Seq<Seq<char>>,
    other: Seq<Seq<char>>,
)
    requires
        allows(approved, other),
    ensures
        allows(approved.push(path), other),
{
    let i = choose|i: int| 0 <= i < approved.len() && covers(#[trigger] approved[i], other);
    assert(covers(approved.push(path)[i], other));
}

/// An approval allows no more than what lies at or below the approved
/// path: what was not allowed before and is not covered by it stays
/// refused.
pub proof fn law_approval_allows_no_more(
    approved: Seq<Seq<Seq<char>>>,
    path: Seq<Seq<char>>,
    other: Seq<Seq<char>>,
)
    requires
        !allows(approved, other),
        !covers(path, other),
    ensures
        !allows(approved.push(path), other),
{
    let grown = approved.push(path);
    assert forall|i: int| 0 <= i < grown.len() implies !covers(#[trigger] grown[i], other) by {
        if i < approved.len() {
            assert(grown[i] == approved[i]);
        }
    }
}

/// Approving a path a second time changes nothing about what is allowed.
pub proof fn law_second_approval_changes_nothing(
    approved: Seq<Seq<Seq<char>>>,
    path: Seq<Seq<char>>,
    other: Seq<Seq<char>>,
)
    ensures
        allows(approved.push(path).push(path), other) == allows(approved.push(path), other),
{
    let once = approved.push(path);
    let twice = once.push(path);
    if allows(twice, other) {
        let i = choose|i: int| 0 <= i < twice.len() && covers(#[trigger] twice[i], other);
        if i < once.len() {
            assert(covers(once[i], other));
        } else {
            assert(covers(once[approved.len() as int], other));
        }
    }
    if allows(once, other) {
        law_approval_keeps(once, path, other);
    }
}

/// With one folder approved, a path next to it whose text merely begins
/// with the folder's text is refused: `/a/b` approved does not allow
/// `/a/bb`.
pub proof fn law_sibling_is_refused(folder: Seq<char>, sibling: Seq<char>)
    requires
        is_canonical(folder),
        is_canonical(sibling),
        folder.len() > 1,
        sibling.len() > folder.len(),
        sibling.take(folder.len() as int) == folder,
        sibling[folder.len() as int] != '/',
    ensures
        !allows(seq![segments_of(folder)], segments_of(sibling)),
{
    crate::path::law_shared_prefix_is_not_containment(folder, sibling);
}

/// An emptied store allows nothing, whatever had been approved.
pub proof fn law_cleared_allows_nothing(path: Seq<Seq<char>>)
    ensures
        !allows(Seq::<Seq<Seq<char>>>::empty(), path),
{
}

} // verus!
