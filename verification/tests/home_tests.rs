use rbx_project::home::{next_home_search, HomeCandidate, HomeSearchAction};

fn walk(has_override: bool, results: &[bool]) -> Vec<HomeSearchAction> {
    let mut out = Vec::new();
    let mut action = next_home_search(has_override, None);
    let mut i = 0;
    loop {
        out.push(action);
        match action {
            HomeSearchAction::Probe(c) => {
                action = next_home_search(has_override, Some((c, results[i])));
                i += 1;
            }
            _ => return out,
        }
    }
}

#[test]
fn home_search_with_override_tries_everything_in_order() {
    assert_eq!(
        walk(true, &[false, false, false, false, false]),
        vec![
            HomeSearchAction::Probe(HomeCandidate::Override),
            HomeSearchAction::Probe(HomeCandidate::OverrideParent),
            HomeSearchAction::Probe(HomeCandidate::ExeAncestors),
            HomeSearchAction::Probe(HomeCandidate::CwdAncestors),
            HomeSearchAction::Probe(HomeCandidate::ManifestDir),
            HomeSearchAction::NotFound,
        ]
    );
}

#[test]
fn home_search_stops_at_first_hit() {
    assert_eq!(
        walk(false, &[false, true]),
        vec![
            HomeSearchAction::Probe(HomeCandidate::ExeAncestors),
            HomeSearchAction::Probe(HomeCandidate::CwdAncestors),
            HomeSearchAction::Found(HomeCandidate::CwdAncestors),
        ]
    );
    assert_eq!(
        walk(true, &[true]),
        vec![HomeSearchAction::Probe(HomeCandidate::Override), HomeSearchAction::Found(HomeCandidate::Override)]
    );
}
