//! Where the templates are: the order in which the tool looks for its home
//! directory (the one holding `structure_templates`).
use vstd::prelude::*;

verus! {

/// A place that may be the home directory.
#[derive(Clone, Copy, Debug, PartialEq, Eq, Structural)]
pub enum HomeCandidate {
    /// The directory named by `RBX_PROJECT_HOME`, when it holds the templates.
    Override,
    /// The parent of the directory named by `RBX_PROJECT_HOME`, when that
    /// directory is the templates directory itself.
    OverrideParent,
    /// The nearest directory holding the templates, going up from the
    /// executable's directory.
    ExeAncestors,
    /// The nearest directory holding the templates, going up from the
    /// working directory.
    CwdAncestors,
    /// The directory the tool was built from, when it holds the templates.
    ManifestDir,
}

/// What to do next in the search.
#[derive(Clone, Copy, Debug, PartialEq, Eq, Structural)]
pub enum HomeSearchAction {
    /// Look at this candidate.
    Probe(HomeCandidate),
    /// This candidate is the home directory.
    Found(HomeCandidate),
    /// No candidate is.
    NotFound,
}

/// The candidates in the order they are looked at; the two that come from
/// `RBX_PROJECT_HOME` only when it is set.
pub open spec fn home_order(has_override: bool) -> Seq<HomeCandidate> {
    if has_override {
        seq![
            HomeCandidate::Override,
            HomeCandidate::OverrideParent,
            HomeCandidate::ExeAncestors,
            HomeCandidate::CwdAncestors,
            HomeCandidate::ManifestDir,
        ]
    } else {
        seq![HomeCandidate::ExeAncestors, HomeCandidate::CwdAncestors, HomeCandidate::ManifestDir]
    }
}

/// The candidate after `c` in the order, if any.
pub open spec fn after(has_override: bool, c: HomeCandidate) -> Option<HomeCandidate> {
    let order = home_order(has_override);
    let i = order.index_of(c);
    if order.contains(c) && i + 1 < order.len() {
        Some(order[i + 1])
    } else if !order.contains(c) {
        Some(order[0])
    } else {
        None
    }
}

/// The next step of the search: start with the first candidate; a candidate
/// that passes is the answer; one that fails leads to the next, and after the
/// last there is none.
pub open spec fn home_step(has_override: bool, last: Option<(HomeCandidate, bool)>) -> HomeSearchAction {
    match last {
        None => HomeSearchAction::Probe(home_order(has_override)[0]),
        Some((c, true)) => HomeSearchAction::Found(c),
        Some((c, false)) => match after(has_override, c) {
            Some(n) => HomeSearchAction::Probe(n),
            None => HomeSearchAction::NotFound,
        },
    }
}

/// Decides the next step of the home directory search from the candidate
/// just looked at and whether it passed (see `home_step`).
pub fn next_home_search(has_override: bool, last: Option<(HomeCandidate, bool)>) -> (r: HomeSearchAction)
    ensures
        r == home_step(has_override, last),
{
    proof {
        let order = home_order(has_override);
        if has_override {
            assert(order[0] == HomeCandidate::Override);
            assert(order.index_of(HomeCandidate::Override) == 0) by {
                assert(order[0] == HomeCandidate::Override);
            }
        }
    }
    match last {
        None => {
            if has_override {
                HomeSearchAction::Probe(HomeCandidate::Override)
            } else {
                HomeSearchAction::Probe(HomeCandidate::ExeAncestors)
            }
        },
        Some((c, true)) => HomeSearchAction::Found(c),
        Some((c, false)) => {
            let ghost order = home_order(has_override);
            match c {
                HomeCandidate::Override => {
                    if has_override {
                        proof { lemma_index(order, 0); }
                        HomeSearchAction::Probe(HomeCandidate::OverrideParent)
                    } else {
                        proof { lemma_absent(order, c); }
                        HomeSearchAction::Probe(HomeCandidate::ExeAncestors)
                    }
                },
                HomeCandidate::OverrideParent => {
                    if has_override {
                        proof { lemma_index(order, 1); }
                        HomeSearchAction::Probe(HomeCandidate::ExeAncestors)
                    } else {
                        proof { lemma_absent(order, c); }
                        HomeSearchAction::Probe(HomeCandidate::ExeAncestors)
                    }
                },
                HomeCandidate::ExeAncestors => {
                    proof { lemma_index(order, if has_override { 2 } else { 0 }); }
                    HomeSearchAction::Probe(HomeCandidate::CwdAncestors)
                },
                HomeCandidate::CwdAncestors => {
                    proof { lemma_index(order, if has_override { 3 } else { 1 }); }
                    HomeSearchAction::Probe(HomeCandidate::ManifestDir)
                },
                HomeCandidate::ManifestDir => {
                    proof { lemma_index(order, if has_override { 4 } else { 2 }); }
                    HomeSearchAction::NotFound
                },
            }
        },
    }
}

/// In a sequence without repeats, the index of the element at `i` is `i`.
pub(crate) proof fn lemma_index(s: Seq<HomeCandidate>, i: int)
    requires
        0 <= i < s.len(),
        s.no_duplicates(),
    ensures
        s.contains(s[i]),
        s.index_of(s[i]) == i,
{
    assert(s.contains(s[i]));
    let j = s.index_of(s[i]);
    assert(s[j] == s[i]);
}

pub(crate) proof fn lemma_absent(s: Seq<HomeCandidate>, c: HomeCandidate)
    requires
        forall|i: int| 0 <= i < s.len() ==> s[i] != c,
    ensures
        !s.contains(c),
{
}

} // verus!
