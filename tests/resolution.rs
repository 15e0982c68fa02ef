use liq::{
    based_hash, blank_row, create_matrix, poll_result, resolve_target, trapped_voters, Plan,
    Setting, Target,
};

fn setting(voters: &[&str], plans: &[&str], votes: &[(&str, &str, f64)]) -> Setting<f64> {
    let mut s: Setting<f64> = Setting::new();
    for v in voters {
        s.add_voter(v);
    }
    for p in plans {
        s.add_plan(Plan::new(p.to_string()));
    }
    for (from, to, w) in votes {
        s.cast_vote(from, to, *w);
    }
    s
}

fn flows_of(columns: &Vec<Vec<f64>>) -> Vec<Vec<bool>> {
    columns.iter().map(|c| c.iter().map(|w| *w > 0.0).collect()).collect()
}

#[test]
fn resolve_target_prefers_voters() {
    let voters = vec!["A".to_string(), "X".to_string()];
    let plans = vec![Plan::new("X".to_string()), Plan::new("P".to_string())];
    assert_eq!(resolve_target(&voters, &plans, &"X".to_string()), Target::Voter(1));
    assert_eq!(resolve_target(&voters, &plans, &"P".to_string()), Target::Policy(1));
    assert_eq!(resolve_target(&voters, &plans, &"none".to_string()), Target::NotFound);
}

#[test]
fn blank_row_follows_voters_and_policies() {
    assert_eq!(blank_row(2, 3), 5);
    assert_eq!(blank_row(0, 0), 0);
}

#[test]
fn no_vote_goes_blank() {
    let s = setting(&["V"], &["P"], &[]);
    let m = create_matrix(&s, 0.0, 1.0);
    assert_eq!(m.columns, vec![vec![0.0, 0.0, 1.0], vec![0.0, 1.0, 0.0], vec![0.0, 0.0, 1.0]]);
    assert!(m.unknown.is_empty());
    assert_eq!(trapped_voters(&flows_of(&m.columns), 1), vec![false]);
}

#[test]
fn direct_vote() {
    let s = setting(&["V"], &["P"], &[("V", "P", 1.0)]);
    let m = create_matrix(&s, 0.0, 1.0);
    assert_eq!(m.columns[0], vec![0.0, 1.0, 0.0]);
    assert_eq!(trapped_voters(&flows_of(&m.columns), 1), vec![false]);
}

#[test]
fn chain_delegation() {
    let s = setting(&["A", "B"], &["P"], &[("A", "B", 1.0), ("B", "P", 1.0)]);
    let m = create_matrix(&s, 0.0, 1.0);
    assert_eq!(
        m.columns,
        vec![
            vec![0.0, 1.0, 0.0, 0.0],
            vec![0.0, 0.0, 1.0, 0.0],
            vec![0.0, 0.0, 1.0, 0.0],
            vec![0.0, 0.0, 0.0, 1.0],
        ]
    );
    assert_eq!(trapped_voters(&flows_of(&m.columns), 2), vec![false, false]);
}

#[test]
fn closed_cycle_is_trapped() {
    let s = setting(&["A", "B"], &["P"], &[("A", "B", 1.0), ("B", "A", 1.0)]);
    let m = create_matrix(&s, 0.0, 1.0);
    assert_eq!(m.columns[0], vec![0.0, 1.0, 0.0, 0.0]);
    assert_eq!(m.columns[1], vec![1.0, 0.0, 0.0, 0.0]);
    assert_eq!(trapped_voters(&flows_of(&m.columns), 2), vec![true, true]);
}

#[test]
fn delegating_into_a_cycle_is_trapped_but_a_way_out_is_not() {
    // C delegates into the A-B cycle; D splits between the cycle and P.
    let s = setting(
        &["A", "B", "C", "D"],
        &["P"],
        &[("A", "B", 1.0), ("B", "A", 1.0), ("C", "A", 1.0), ("D", "A", 0.5), ("D", "P", 0.5)],
    );
    let m = create_matrix(&s, 0.0, 1.0);
    assert_eq!(trapped_voters(&flows_of(&m.columns), 4), vec![true, true, true, false]);
}

#[test]
fn unknown_target_is_dropped_and_reported() {
    let s = setting(&["A"], &["P"], &[("A", "P", 2.0)]);
    let mut s = s;
    let mut t = liq::Table::new();
    t.insert("P".to_string(), 2.0);
    t.insert("ghost".to_string(), 5.0);
    s.overwrite_vote("A", t);
    let m = create_matrix(&s, 0.0, 1.0);
    assert_eq!(m.columns[0], vec![0.0, 2.0, 0.0]);
    assert_eq!(m.unknown, vec!["ghost".to_string()]);
}

#[test]
fn vote_with_only_unknown_targets_goes_blank() {
    let mut s = setting(&["A"], &["P"], &[]);
    let mut t = liq::Table::new();
    t.insert("ghost".to_string(), 5.0);
    s.overwrite_vote("A", t);
    let m = create_matrix(&s, 0.0, 1.0);
    assert_eq!(m.columns[0], vec![0.0, 0.0, 1.0]);
    assert_eq!(m.unknown, vec!["ghost".to_string()]);
}

#[test]
fn absent_voter_beside_a_voting_one() {
    let s = setting(&["A", "B"], &["P", "Q"], &[("A", "Q", 3.0)]);
    let m = create_matrix(&s, 0.0, 1.0);
    assert_eq!(m.columns[0], vec![0.0, 0.0, 0.0, 3.0, 0.0]);
    assert_eq!(m.columns[1], vec![0.0, 0.0, 0.0, 0.0, 1.0]);
    assert_eq!(m.columns[4], vec![0.0, 0.0, 0.0, 0.0, 1.0]);
}

#[test]
fn empty_poll_has_only_the_blank_sink() {
    let s = setting(&[], &[], &[]);
    let m = create_matrix(&s, 0.0, 1.0);
    assert_eq!(m.columns, vec![vec![1.0]]);
    assert_eq!(trapped_voters(&flows_of(&m.columns), 0), Vec::<bool>::new());
}

#[test]
fn poll_result_names_every_entry() {
    let voters = vec!["A".to_string(), "B".to_string()];
    let plans = vec![Plan::new("P".to_string()), Plan::new("Q".to_string())];
    let r = poll_result(&voters, &plans, &vec![2.0, 0.5, 0.25], &vec![1.0, 2.0], &vec![false, false]);
    assert_eq!(r.votes.len(), 3);
    assert_eq!(r.votes.get(&"P".to_string()), Some(&Some(2.0)));
    assert_eq!(r.votes.get(&"Q".to_string()), Some(&Some(0.5)));
    assert_eq!(r.votes.get(&"(Blank)".to_string()), Some(&Some(0.25)));
    assert_eq!(r.influence.len(), 2);
    assert_eq!(r.influence.get(&"A".to_string()), Some(&Some(1.0)));
    assert_eq!(r.influence.get(&"B".to_string()), Some(&Some(2.0)));
}

#[test]
fn poll_result_marks_trapped_influence_absent() {
    let voters = vec!["A".to_string(), "B".to_string()];
    let plans = vec![Plan::new("P".to_string())];
    let r = poll_result(&voters, &plans, &vec![0.0, 0.0], &vec![1.998, 1.998], &vec![true, true]);
    assert_eq!(r.votes.get(&"P".to_string()), Some(&Some(0.0)));
    assert_eq!(r.influence.get(&"A".to_string()), Some(&None));
    assert_eq!(r.influence.get(&"B".to_string()), Some(&None));
}

#[test]
fn poll_result_with_no_voters() {
    let r = poll_result::<f64>(&vec![], &vec![], &vec![0.0], &vec![], &vec![]);
    assert_eq!(r.votes.len(), 1);
    assert_eq!(r.votes.get(&"(Blank)".to_string()), Some(&Some(0.0)));
    assert_eq!(r.influence.len(), 0);
}

#[test]
fn based_hash_of_known_inputs() {
    assert_eq!(based_hash(b""), "GKot5hBsd81kMupNCXHaqbhv3huEbxAFMLnpcX2hniwn");
    assert_eq!(based_hash(b"{}"), "5ajuwjHoLj33yG5t5UFsJtUb3vnRaJQEMPqSLz6VyoHK");
    assert_eq!(
        based_hash(b"{\"a\":{\"p\":1.0}}"),
        "4kFrBcuFa3MEVDqkQTw7vXPUjADCHUrabmT1ZrBKGhzn"
    );
}

#[test]
fn self_delegation_alone_is_trapped() {
    let s = setting(&["A", "B"], &["P"], &[("A", "A", 1.0), ("B", "P", 1.0)]);
    let m = create_matrix(&s, 0.0, 1.0);
    assert_eq!(m.columns[0], vec![1.0, 0.0, 0.0, 0.0]);
    assert_eq!(trapped_voters(&flows_of(&m.columns), 2), vec![true, false]);
}

#[test]
fn long_chain_reaches_the_policy() {
    let s = setting(
        &["A", "B", "C", "D"],
        &["P"],
        &[("A", "B", 1.0), ("B", "C", 1.0), ("C", "D", 1.0), ("D", "P", 1.0)],
    );
    let m = create_matrix(&s, 0.0, 1.0);
    assert_eq!(trapped_voters(&flows_of(&m.columns), 4), vec![false, false, false, false]);
}

#[test]
fn trapped_voters_on_a_hand_made_graph() {
    // states 0 and 1 are voters; 0 flows to 1, 1 flows to itself; 2 is absorbing
    let flows = vec![
        vec![false, true, false],
        vec![false, true, false],
        vec![false, false, true],
    ];
    assert_eq!(trapped_voters(&flows, 2), vec![true, true]);
    let flows = vec![
        vec![false, true, false],
        vec![false, false, true],
        vec![false, false, true],
    ];
    assert_eq!(trapped_voters(&flows, 2), vec![false, false]);
}
