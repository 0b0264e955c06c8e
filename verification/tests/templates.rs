use tab_picker::template::instantiate_template;

fn subst(template: &str, name: &str) -> String {
    let t: Vec<char> = template.chars().collect();
    let n: Vec<char> = name.chars().collect();
    instantiate_template(&t, &n).iter().collect()
}

#[test]
fn placeholder_is_replaced() {
    assert_eq!(subst("tab name=\"$name\"", "apple"), "tab name=\"apple\"");
}

#[test]
fn every_occurrence_is_replaced() {
    assert_eq!(subst("$name and $name", "x"), "x and x");
    assert_eq!(subst("$name$name", "ab"), "abab");
}

#[test]
fn text_without_the_placeholder_is_unchanged() {
    assert_eq!(subst("plain layout", "apple"), "plain layout");
    assert_eq!(subst("", "apple"), "");
}

#[test]
fn near_misses_are_kept() {
    assert_eq!(subst("$nam", "x"), "$nam");
    assert_eq!(subst("name", "x"), "name");
    assert_eq!(subst("$$name", "x"), "$x");
}

#[test]
fn substituted_text_is_not_scanned_again() {
    assert_eq!(subst("$name", "$name"), "$name");
    assert_eq!(subst("a$nameb", "$name"), "a$nameb");
}

#[test]
fn empty_name_erases_the_placeholder() {
    assert_eq!(subst("pre$namepost", ""), "prepost");
}
