use hypract::codec::{follows_convention, parse_raw, workname};
use hypract::ranker::{rank, Config, Entry};
use hypract::state::{Error, State};

fn s(x: &str) -> String {
    x.to_string()
}

fn names(v: &[Entry]) -> Vec<(u8, String)> {
    v.iter().map(|e| (e.to_u8(), e.name())).collect()
}

fn lookup(st: &State, key: &str) -> Option<String> {
    st.workspaces.iter().find(|p| p.0 == key).map(|p| p.1.clone())
}

#[test]
fn workname_formats_raw_then_activity() {
    assert_eq!(workname("default", "web"), "hact-[web]-[default]");
    assert_eq!(workname("", ""), "hact-[]-[]");
}

#[test]
fn parse_raw_round_trips() {
    for (a, w) in [("default", "web"), ("work", "1"), ("x y", "a]b"), ("a]-b", "c[d")] {
        assert_eq!(parse_raw(&workname(a, w)), Some(s(w)));
    }
}

#[test]
fn parse_raw_rejects_foreign_names() {
    assert_eq!(parse_raw("web"), None);
    assert_eq!(parse_raw("hact-[web"), None);
    assert_eq!(parse_raw("x-[y]-"), Some(s("y")));
}

#[test]
fn parse_raw_stops_at_first_closing_marker() {
    // a raw name holding "]-" is outside the convention's contract
    assert_eq!(parse_raw(&workname("act", "a]-b")), Some(s("a")));
}

#[test]
fn follows_convention_checks_prefix() {
    assert!(follows_convention("hact-[1]-[default]"));
    assert!(follows_convention("hact-["));
    assert!(!follows_convention("hact-"));
    assert!(!follows_convention("1"));
    assert!(!follows_convention("Hact-[1]-[x]"));
}

#[test]
fn default_state_is_documented_default() {
    let st = State::new_default();
    assert_eq!(st.activities, vec![s("default")]);
    assert_eq!(st.current_activity, "default");
    assert!(st.workspaces.is_empty());
    assert!(st.is_well_formed());
}

#[test]
fn switch_workspace_scenario() {
    let mut st = State::new_default();
    let sw = st.switch_workspace(&s("web"));
    assert_eq!(sw.composite, "hact-[web]-[default]");
    assert_eq!(sw.raw, "web");
    assert!(sw.activity.is_none());
    st.commit(sw);
    assert_eq!(lookup(&st, "hact-[web]-[default]"), Some(s("web")));
    assert_eq!(st.workspaces.len(), 1);
    assert_eq!(st.current_activity, "default");
}

#[test]
fn switch_workspace_twice_is_idempotent() {
    let mut st = State::new_default();
    let first = st.switch_workspace(&s("web"));
    let c1 = first.composite.clone();
    st.commit(first);
    let second = st.switch_workspace(&s("web"));
    assert_eq!(second.composite, c1);
    st.commit(second);
    assert_eq!(st.workspaces.len(), 1);
    assert_eq!(lookup(&st, &c1), Some(s("web")));
}

#[test]
fn switch_activity_scenario() {
    let mut st = State::new_default();
    let sw = st.switch_workspace(&s("web"));
    st.commit(sw);
    let sw = st.switch_activity(&s("work"), &s("hact-[web]-[default]")).unwrap();
    assert_eq!(sw.composite, "hact-[web]-[work]");
    assert_eq!(sw.raw, "web");
    assert_eq!(sw.activity, Some(s("work")));
    st.commit(sw);
    assert_eq!(lookup(&st, "hact-[web]-[work]"), Some(s("web")));
    assert_eq!(st.activities, vec![s("default"), s("work")]);
    assert_eq!(st.current_activity, "work");
}

#[test]
fn switch_activity_from_fresh_state_parses_brackets() {
    let mut st = State::new_default();
    let sw = st.switch_activity(&s("work"), &s("hact-[web]-[default]")).unwrap();
    assert_eq!(sw.composite, "hact-[web]-[work]");
    st.commit(sw);
    assert_eq!(st.current_activity, "work");
    assert_eq!(st.activities, vec![s("default"), s("work")]);
}

#[test]
fn switch_activity_on_foreign_name_fails() {
    let st = State::new_default();
    assert!(matches!(st.switch_activity(&s("work"), &s("3")), Err(Error::NameDecode)));
}

#[test]
fn set_activity_keeps_current_among_activities() {
    let mut st = State::new_default();
    assert!(st.set_activity(s("a")));
    assert!(st.set_activity(s("b")));
    assert!(st.set_activity(s("a")));
    assert!(!st.set_activity(s("a")));
    assert!(st.set_activity(s("default")));
    assert_eq!(st.activities, vec![s("default"), s("a"), s("b")]);
    assert_eq!(st.current_activity, "default");
    assert!(st.activities.contains(&st.current_activity));
    assert!(st.is_well_formed());
}

#[test]
fn add_activity_does_not_duplicate() {
    let mut st = State::new_default();
    st.add_activity(s("x"));
    st.add_activity(s("x"));
    st.add_activity(s("default"));
    assert_eq!(st.activities, vec![s("default"), s("x")]);
}

#[test]
fn add_workspace_overwrites_existing_key() {
    let mut st = State::new_default();
    st.add_workspace(s("k"), s("v1"));
    st.add_workspace(s("k"), s("v2"));
    assert_eq!(st.workspaces, vec![(s("k"), s("v2"))]);
}

#[test]
fn raw_workspace_prefers_table() {
    let mut st = State::new_default();
    st.add_workspace(s("hact-[a]-[b]"), s("a]-[c"));
    assert_eq!(st.raw_workspace(&s("hact-[a]-[b]")), Ok(s("a]-[c")));
    assert_eq!(st.raw_workspace(&s("hact-[q]-[b]")), Ok(s("q")));
    assert_eq!(st.raw_workspace(&s("plain")), Err(Error::NameDecode));
    assert_eq!(st.current_raw_workspace(&s("hact-[q]-[b]")), Ok(s("q")));
}

#[test]
fn raw_workspaces_sync_skips_undecodable() {
    let st = State::new_default();
    let live = vec![s("hact-[1]-[default]"), s("2"), s("hact-[3]-[work]")];
    assert_eq!(st.raw_workspaces_sync(&live), vec![s("1"), s("3")]);
}

#[test]
fn reconcile_tags_untagged_workspaces() {
    let mut st = State::new_default();
    let live = vec![s("1"), s("hact-[2]-[default]"), s("mail")];
    let renames = st.reconcile(&live);
    assert_eq!(
        renames,
        vec![Some(s("hact-[1]-[default]")), None, Some(s("hact-[mail]-[default]"))]
    );
    assert_eq!(st.workspaces.len(), 2);
    assert_eq!(lookup(&st, "hact-[1]-[default]"), Some(s("1")));
    assert_eq!(lookup(&st, "hact-[mail]-[default]"), Some(s("mail")));
}

#[test]
fn is_well_formed_detects_bad_states() {
    let mut st = State::new_default();
    st.current_activity = s("ghost");
    assert!(!st.is_well_formed());
    let mut st = State::new_default();
    st.activities.push(s("default"));
    assert!(!st.is_well_formed());
    let mut st = State::new_default();
    st.workspaces.push((s("k"), s("a")));
    st.workspaces.push((s("k"), s("b")));
    assert!(!st.is_well_formed());
}

#[test]
fn rank_pins_query_first() {
    let cands = vec![Entry::Activity(s("food")), Entry::Workspace(s("foobar"))];
    let scores = vec![Some(10), Some(20)];
    let r = rank(&s("foo"), &cands, &scores, 5);
    assert_eq!(
        names(&r),
        vec![(2, s("foo")), (1, s("foo")), (1, s("foobar")), (2, s("food"))]
    );
}

#[test]
fn rank_drops_exact_match() {
    let cands = vec![Entry::Activity(s("foo")), Entry::Activity(s("fool"))];
    let scores = vec![Some(50), Some(40)];
    let r = rank(&s("foo"), &cands, &scores, 10);
    assert_eq!(names(&r), vec![(2, s("foo")), (1, s("foo")), (2, s("fool"))]);
}

#[test]
fn rank_is_stable_and_discards_non_matches() {
    let cands = vec![
        Entry::Activity(s("a1")),
        Entry::Activity(s("a2")),
        Entry::Workspace(s("w1")),
        Entry::Workspace(s("w2")),
    ];
    let scores = vec![Some(5), None, Some(7), Some(5)];
    let r = rank(&s("q"), &cands, &scores, 10);
    assert_eq!(
        names(&r),
        vec![(2, s("q")), (1, s("q")), (1, s("w1")), (2, s("a1")), (1, s("w2"))]
    );
}

#[test]
fn rank_respects_bound() {
    let cands = vec![Entry::Activity(s("ab")), Entry::Activity(s("ac"))];
    let scores = vec![Some(1), Some(2)];
    for n in 0..6 {
        let r = rank(&s("a"), &cands, &scores, n);
        assert!(r.len() <= n);
        assert_eq!(r.len(), n.min(4));
    }
}

#[test]
fn rank_empty_query_is_empty() {
    let cands = vec![Entry::Activity(s("ab"))];
    assert!(rank(&s(""), &cands, &vec![Some(0)], 5).is_empty());
}

#[test]
fn get_matches_requires_prefix() {
    let st = State::new_default();
    assert!(st.get_matches(&s("foo"), &s(":ha"), 5, &vec![]).is_empty());
    assert!(st.get_matches(&s(":ha"), &s(":ha"), 5, &vec![]).is_empty());
    assert!(st.get_matches(&s(":ha   "), &s(":ha"), 5, &vec![]).is_empty());
}

#[test]
fn get_matches_trims_and_pins() {
    let mut st = State::new_default();
    st.add_activity(s("foo"));
    let live = vec![s("hact-[foobar]-[default]"), s("hact-[zzz]-[default]")];
    let r = st.get_matches(&s(":ha   foo"), &s(":ha"), 5, &live);
    assert_eq!(names(&r), vec![(2, s("foo")), (1, s("foo")), (1, s("foobar"))]);
}

#[test]
fn get_matches_bounded() {
    let mut st = State::new_default();
    st.add_activity(s("da"));
    st.add_activity(s("db"));
    let r = st.get_matches(&s(":had"), &s(":ha"), 3, &vec![]);
    assert_eq!(r.len(), 3);
    assert_eq!(names(&r)[0], (2, s("d")));
    assert_eq!(names(&r)[1], (1, s("d")));
}

#[test]
fn entry_accessors() {
    assert_eq!(Entry::Activity(s("a")).name(), "a");
    assert_eq!(Entry::Activity(s("a")).to_u8(), 2);
    assert_eq!(Entry::Workspace(s("w")).name(), "w");
    assert_eq!(Entry::Workspace(s("w")).to_u8(), 1);
}

#[test]
fn config_default_values() {
    let c = Config::default();
    assert_eq!(c.prefix, ":ha");
    assert_eq!(c.max_entries, 5);
}

#[test]
fn handle_selection_dispatches_by_kind() {
    let st = State::new_default();
    let sw = st.handle_selection(&Entry::Workspace(s("web")), &s("x")).unwrap();
    assert_eq!(sw.composite, "hact-[web]-[default]");
    assert!(sw.activity.is_none());
    let sw = st.handle_selection(&Entry::Activity(s("work")), &s("hact-[3]-[default]")).unwrap();
    assert_eq!(sw.composite, "hact-[3]-[work]");
    assert_eq!(sw.activity, Some(s("work")));
    assert!(st.handle_selection(&Entry::Activity(s("work")), &s("3")).is_err());
}
