use liq::{Plan, Setting, Table};

fn two_voters_one_plan() -> Setting<f64> {
    let mut s: Setting<f64> = Setting::new();
    s.add_voter("A");
    s.add_voter("B");
    s.add_plan(Plan::new("P".to_string()));
    s
}

#[test]
fn plan_new_has_no_description() {
    let p = Plan::new("tax".to_string());
    assert_eq!(p.title, "tax");
    assert!(p.description.is_none());
}

#[test]
fn plans_are_equal_by_title() {
    let a = Plan::new("tax".to_string());
    let b = Plan::described("tax".to_string(), "a longer text".to_string());
    let c = Plan::new("road".to_string());
    assert!(a == b);
    assert!(a != c);
}

#[test]
fn add_voter_ignores_duplicates() {
    let mut s: Setting<f64> = Setting::new();
    s.add_voter("A");
    s.add_voter("B");
    s.add_voter("A");
    assert_eq!(s.voters(), &vec!["A".to_string(), "B".to_string()]);
}

#[test]
fn add_plan_ignores_duplicate_titles() {
    let mut s: Setting<f64> = Setting::new();
    s.add_plan(Plan::new("P".to_string()));
    s.add_plan(Plan::described("P".to_string(), "other".to_string()));
    s.add_plan(Plan::new("Q".to_string()));
    assert_eq!(s.plans().len(), 2);
    assert_eq!(s.plans()[0].title, "P");
    assert!(s.plans()[0].description.is_none());
    assert_eq!(s.plans()[1].title, "Q");
}

#[test]
fn delete_voter_removes_voter_and_vote() {
    let mut s = two_voters_one_plan();
    s.cast_vote("A", "P", 1.0);
    s.cast_vote("B", "A", 1.0);
    assert_eq!(s.delete_voter("A"), Some(0));
    assert_eq!(s.voters(), &vec!["B".to_string()]);
    assert!(!s.votes().contains(&"A".to_string()));
    // B's vote naming A stays recorded
    let b = s.votes().get(&"B".to_string()).unwrap();
    assert_eq!(b.get(&"A".to_string()), Some(&1.0));
    assert_eq!(s.delete_voter("A"), None);
}

#[test]
fn delete_plan_gives_position() {
    let mut s = two_voters_one_plan();
    s.add_plan(Plan::new("Q".to_string()));
    assert_eq!(s.delete_plan(&"Q".to_string()), Some(1));
    assert_eq!(s.delete_plan(&"Q".to_string()), None);
    assert_eq!(s.plans().len(), 1);
}

#[test]
fn get_voters_is_the_set_of_voters() {
    let s = two_voters_one_plan();
    let set = s.get_voters();
    assert_eq!(set.len(), 2);
    assert!(set.contains("A"));
    assert!(set.contains("B"));
    assert!(!set.contains("P"));
}

#[test]
fn cast_vote_records_and_replaces() {
    let mut s = two_voters_one_plan();
    s.cast_vote("A", "P", 0.5);
    s.cast_vote("A", "B", 2.0);
    s.cast_vote("A", "P", 3.0);
    let a = s.votes().get(&"A".to_string()).unwrap();
    assert_eq!(a.len(), 2);
    assert_eq!(a.get(&"P".to_string()), Some(&3.0));
    assert_eq!(a.get(&"B".to_string()), Some(&2.0));
}

#[test]
fn cast_vote_ignores_unknown_names() {
    let mut s = two_voters_one_plan();
    s.cast_vote("Z", "P", 1.0);
    s.cast_vote("A", "nowhere", 1.0);
    assert_eq!(s.votes().len(), 0);
}

#[test]
fn overwrite_vote_replaces_whole_vote() {
    let mut s = two_voters_one_plan();
    s.cast_vote("A", "P", 1.0);
    let mut t: Table<f64> = Table::new();
    t.insert("B".to_string(), 4.0);
    s.overwrite_vote("A", t);
    let a = s.votes().get(&"A".to_string()).unwrap();
    assert_eq!(a.len(), 1);
    assert_eq!(a.get(&"B".to_string()), Some(&4.0));
    let mut u: Table<f64> = Table::new();
    u.insert("P".to_string(), 1.0);
    s.overwrite_vote("nobody", u);
    assert!(!s.votes().contains(&"nobody".to_string()));
}

#[test]
fn table_keeps_insertion_order() {
    let mut t: Table<u32> = Table::new();
    t.insert("b".to_string(), 1);
    t.insert("a".to_string(), 2);
    t.insert("b".to_string(), 3);
    assert_eq!(t.len(), 2);
    assert_eq!(t.name_at(0), "b");
    assert_eq!(*t.value_at(0), 3);
    assert_eq!(t.name_at(1), "a");
    assert_eq!(t.position(&"a".to_string()), Some(1));
    assert_eq!(t.remove(&"b".to_string()), Some(3));
    assert_eq!(t.remove(&"b".to_string()), None);
    assert_eq!(t.len(), 1);
    assert_eq!(t.name_at(0), "a");
}
