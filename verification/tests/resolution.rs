use tab_picker::ranked::Candidate;
use tab_picker::resolve::resolve_candidate;
use tab_picker::resolve::Action;
use tab_picker::resolve::Error;
use tab_picker::resolve::TabEntry;

fn tab(name: &str, position: u64, active: bool) -> TabEntry {
    TabEntry { name: String::from(name), position, active }
}

#[test]
fn known_name_attaches_to_the_matching_handle() {
    let tabs = vec![tab("notes", 0, false), tab("apple", 3, true), tab("work", 1, false)];
    let c = Candidate { id: 9, name: Some(String::from("apple")) };
    match resolve_candidate(&c, &tabs) {
        Ok(Action::AttachExisting(p)) => assert_eq!(p, 3),
        _ => panic!("a known name must attach, never create"),
    }
}

#[test]
fn unknown_name_creates_with_the_derived_name() {
    let tabs = vec![tab("notes", 0, false), tab("work", 1, false)];
    let c = Candidate { id: 9, name: Some(String::from("apple")) };
    match resolve_candidate(&c, &tabs) {
        Ok(Action::CreateNew(n)) => assert_eq!(n, "apple"),
        _ => panic!("an unknown name must create"),
    }
}

#[test]
fn no_open_entries_always_creates() {
    let tabs: Vec<TabEntry> = Vec::new();
    let c = Candidate { id: 0, name: Some(String::from("apple")) };
    match resolve_candidate(&c, &tabs) {
        Ok(Action::CreateNew(n)) => assert_eq!(n, "apple"),
        _ => panic!("with nothing open, confirming must create"),
    }
}

#[test]
fn unnamed_candidate_is_a_local_error() {
    let tabs = vec![tab("notes", 0, false)];
    let c = Candidate { id: 0, name: None };
    match resolve_candidate(&c, &tabs) {
        Err(e) => assert_eq!(e, Error::UnnamedCandidate),
        Ok(_) => panic!("a nameless candidate cannot resolve"),
    }
}

#[test]
fn duplicate_names_resolve_to_the_first_match() {
    let tabs = vec![tab("apple", 7, false), tab("apple", 11, true)];
    let c = Candidate { id: 0, name: Some(String::from("apple")) };
    match resolve_candidate(&c, &tabs) {
        Ok(Action::AttachExisting(p)) => assert_eq!(p, 7),
        _ => panic!("duplicates must resolve to the first match"),
    }
}

#[test]
fn error_messages_name_the_failure() {
    assert_eq!(Error::SourceUnreadable.message(), "could not read the candidate source");
    assert_eq!(Error::UnnamedCandidate.message(), "encountered an unnamed candidate");
}
