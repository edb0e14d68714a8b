use co_scientist::elo::Winner;
use co_scientist::hypothesis::{
    parents_column, read_parents, read_state, Hypothesis, HypothesisRepo, HypothesisState,
};
use co_scientist::registry::default_allowlist;
use co_scientist::tool_catalog::{always_allowed, is_known, known_tool_names};

const ALL: [HypothesisState; 6] = [
    HypothesisState::Draft,
    HypothesisState::Reviewed,
    HypothesisState::InTournament,
    HypothesisState::Ranked,
    HypothesisState::Pinned,
    HypothesisState::Rejected,
];

fn h(id: i64, state: HypothesisState, matches_played: i64, elo: i64) -> Hypothesis {
    Hypothesis {
        id,
        session_id: "s".into(),
        state,
        elo,
        parent_ids: vec![],
        semantic_id: None,
        matches_played,
        created_at: "t".into(),
    }
}

fn board() -> HypothesisRepo {
    let mut other = h(8, HypothesisState::Ranked, 9, 2000);
    other.session_id = "other".into();
    HypothesisRepo::from_rows(
        vec![
            h(1, HypothesisState::Draft, 0, 1180),
            h(2, HypothesisState::InTournament, 2, 1300),
            h(3, HypothesisState::Ranked, 5, 1400),
            h(4, HypothesisState::Rejected, 9, 1200),
            h(5, HypothesisState::InTournament, 2, 1100),
            h(6, HypothesisState::Pinned, 1, 1090),
            h(7, HypothesisState::InTournament, 1, 1000),
            other,
        ],
        8,
    )
}

fn ids(v: &[Hypothesis]) -> Vec<i64> {
    v.iter().map(|s| s.id).collect()
}

#[test]
fn states_read_back_what_they_write() {
    for s in ALL {
        assert_eq!(HypothesisState::parse(s.as_str()), Some(s));
        assert_eq!(read_state(s.as_str()), Ok(s));
    }
    assert_eq!(HypothesisState::InTournament.as_str(), "in_tournament");
    assert_eq!(HypothesisState::parse("Draft"), None);
    assert_eq!(read_state("lost"), Err("unknown hypothesis state: lost".to_string()));
}

#[test]
fn updates_only_go_forward() {
    let draft = HypothesisState::Draft;
    let ranked = HypothesisState::Ranked;
    assert_eq!(draft.advance(ranked, false), ranked);
    assert_eq!(ranked.advance(draft, false), ranked);
    assert_eq!(ranked.advance(draft, true), draft);
    for to in ALL {
        assert_eq!(HypothesisState::Rejected.advance(to, false), HypothesisState::Rejected);
        assert_eq!(HypothesisState::Pinned.advance(to, false), HypothesisState::Pinned);
    }
}

#[test]
fn closed_states_leave_the_board() {
    assert!(HypothesisState::Draft.is_active());
    assert!(!HypothesisState::Pinned.is_active());
    assert!(!HypothesisState::Rejected.is_active());
    assert!(HypothesisState::Ranked.plays_matches());
    assert!(!HypothesisState::Reviewed.plays_matches());
    assert_eq!(board().total_count("s"), 6, "all but the rejected one");
    let mut two = HypothesisRepo::new();
    two.insert_at("s", None, &[], 1200, "now");
    let pinned = two.insert_at("s", None, &[], 1200, "now").unwrap();
    two.update_state(pinned, HypothesisState::Pinned, false);
    assert_eq!(two.total_count("s"), 2);
    assert_eq!(board().mature_count("s", 2), 3);
    assert_eq!(board().mature_count("s", 6), 0);
}

#[test]
fn the_best_come_first() {
    assert_eq!(ids(&board().top_n("s", 3)), vec![3, 2, 1]);
    assert_eq!(ids(&board().top_n("s", 99)), vec![3, 2, 1, 5, 7]);
    assert_eq!(ids(&board().list_by_session("s")), vec![3, 2, 4, 1, 5, 6, 7]);
    assert!(board().list_by_session("nobody").is_empty());
    assert!(board().top_n("s", 0).is_empty());
}

#[test]
fn those_with_few_matches_play_first() {
    assert_eq!(ids(&board().needs_matches("s", 5, 10)), vec![7, 2, 5]);
    assert_eq!(ids(&board().needs_matches("s", 5, 2)), vec![7, 2]);
    assert!(board().needs_matches("s", 1, 10).is_empty());
}

#[test]
fn new_rows_are_drafts_with_ids_of_their_own() {
    let mut t = board();
    let id = t.insert_at("s", Some(41), &[1, 2], 1200, "now").unwrap();
    assert_eq!(id, 9);
    let row = t.get(id).unwrap();
    assert_eq!(row.state, HypothesisState::Draft);
    assert_eq!((row.matches_played, row.elo), (0, 1200));
    assert_eq!(row.parent_ids, vec![1, 2]);
    assert_eq!(row.semantic_id, Some(41));
    assert_eq!(row.created_at, "now");
    assert!(t.get(99).is_none());
    assert_eq!(HypothesisRepo::new().insert_at("s", None, &[], 1200, "now"), Some(1));
    let mut full = HypothesisRepo::from_rows(vec![], i64::MAX);
    assert_eq!(full.insert_at("s", None, &[], 1200, "now"), None);
}

#[test]
fn updates_change_one_row() {
    let mut t = board();
    t.update_state(1, HypothesisState::Reviewed, false);
    t.update_state(3, HypothesisState::Draft, false);
    t.update_state(4, HypothesisState::Draft, true);
    t.update_elo(2, 900, 3);
    assert_eq!(t.get(1).unwrap().state, HypothesisState::Reviewed);
    assert_eq!(t.get(3).unwrap().state, HypothesisState::Ranked);
    assert_eq!(t.get(4).unwrap().state, HypothesisState::Draft);
    assert_eq!((t.get(2).unwrap().elo, t.get(2).unwrap().matches_played), (900, 3));
    assert_eq!((t.get(5).unwrap().elo, t.get(5).unwrap().matches_played), (1100, 2));
}

#[test]
fn parents_are_read_back_as_written() {
    assert_eq!(parents_column(&[]), None);
    assert_eq!(parents_column(&[7, -3]), Some("[7,-3]".to_string()));
    for v in [vec![], vec![1], vec![i64::MIN, 0, i64::MAX]] {
        assert_eq!(read_parents(parents_column(&v).as_deref()), v);
    }
    assert!(read_parents(Some("[1,")).is_empty());
    assert!(read_parents(Some("{}")).is_empty());
}

#[test]
fn a_match_has_two_half_points() {
    assert_eq!(Winner::A.half_points(), (2, 0));
    assert_eq!(Winner::B.half_points(), (0, 2));
    assert_eq!(Winner::Draw.half_points(), (1, 1));
}

#[test]
fn allowlists_hold_known_tools() {
    for agent in ["supervisor", "generation", "reflection", "ranking", "evolution", "metareview", "experiment"] {
        for tool in default_allowlist(agent).unwrap() {
            assert!(is_known(&tool), "{agent} {tool}");
        }
    }
    assert_eq!(default_allowlist("ranking").unwrap(), vec!["record_tournament_match"]);
    assert!(default_allowlist("nobody").is_none());
    assert_eq!(always_allowed(), vec!["noop", "none"]);
    assert!(known_tool_names().contains(&"record_system_feedback".to_string()));
    assert!(!is_known("rm"));
}
