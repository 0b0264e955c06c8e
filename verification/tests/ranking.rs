use tab_picker::ranked::Candidate;
use tab_picker::ranked::RankedList;

fn named(id: u64, name: &str) -> Candidate {
    Candidate { id, name: Some(String::from(name)) }
}

fn names_of(list: &RankedList) -> Vec<String> {
    list.ranked_view().iter().map(|c| c.name.clone().unwrap_or_default()).collect()
}

#[test]
fn set_candidates_keeps_every_candidate() {
    // The ranked view is a permutation of exactly the new set.
    let mut list = RankedList::new();
    list.set_candidates(vec![named(0, "apple"), named(1, "banana"), named(2, "cherry")]);
    assert_eq!(list.len(), 3);
    let mut ids: Vec<u64> = list.ranked_view().iter().map(|c| c.id).collect();
    ids.sort();
    assert_eq!(ids, vec![0, 1, 2]);
}

#[test]
fn empty_query_keeps_arrival_order() {
    // An empty query ties every candidate; stability keeps arrival order.
    let mut list = RankedList::new();
    list.set_candidates(vec![named(0, "zeta"), named(1, "alpha"), named(2, "mid")]);
    assert_eq!(names_of(&list), vec!["zeta", "alpha", "mid"]);
}

#[test]
fn prefix_matches_rank_ahead() {
    // Scenario: "app" ranks the app* names ahead of banana.
    let mut list = RankedList::new();
    list.set_candidates(vec![named(0, "apple"), named(1, "application"), named(2, "banana")]);
    list.push_char('a');
    list.push_char('p');
    list.push_char('p');
    let names = names_of(&list);
    assert!(names[0].starts_with("app"));
    assert!(names[1].starts_with("app"));
    assert_eq!(names[2], "banana");
}

#[test]
fn pop_char_on_empty_query_changes_nothing() {
    let mut list = RankedList::new();
    list.set_candidates(vec![named(0, "beta"), named(1, "alpha")]);
    let before = names_of(&list);
    let changed = list.pop_char();
    assert!(!changed);
    assert_eq!(names_of(&list), before);
    assert_eq!(list.query().len(), 0);
}

#[test]
fn netting_edit_pair_restores_order_without_ties() {
    // With all scores distinct under the query, a push_char/pop_char pair
    // that nets to no query change restores the ranked order exactly.
    let mut list = RankedList::new();
    list.set_candidates(vec![named(0, "apple"), named(1, "application"), named(2, "banana")]);
    list.push_char('a');
    list.push_char('p');
    list.push_char('p');
    let before = names_of(&list);
    list.push_char('l');
    list.pop_char();
    assert_eq!(names_of(&list), before);
}

#[test]
fn resorting_a_ranked_list_is_idempotent() {
    // Feeding a ranked order back in under the same query re-ranks to itself.
    let mut list = RankedList::new();
    list.push_char('a');
    list.push_char('p');
    list.set_candidates(vec![named(0, "banana"), named(1, "apple"), named(2, "apricot")]);
    let once = names_of(&list);
    let again: Vec<Candidate> =
        list.ranked_view().iter().map(|c| Candidate { id: c.id, name: c.name.clone() }).collect();
    list.set_candidates(again);
    assert_eq!(names_of(&list), once);
}

#[test]
fn unnamed_candidates_rank_last_under_a_query() {
    let mut list = RankedList::new();
    list.set_candidates(vec![
        Candidate { id: 0, name: None },
        named(1, "apple"),
        Candidate { id: 2, name: None },
    ]);
    list.push_char('a');
    let view = list.ranked_view();
    assert_eq!(view[0].id, 1);
    // The two nameless candidates tie at zero and keep arrival order.
    assert_eq!(view[1].id, 0);
    assert_eq!(view[2].id, 2);
}

#[test]
fn query_is_edited_one_character_at_a_time() {
    let mut list = RankedList::new();
    list.push_char('a');
    list.push_char('b');
    assert_eq!(list.query().iter().collect::<String>(), "ab");
    let changed = list.pop_char();
    assert!(changed);
    assert_eq!(list.query().iter().collect::<String>(), "a");
}
