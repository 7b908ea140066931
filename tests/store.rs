use domain_watch::store::{
    domain_list_after_removal, domain_list_with, domain_list_without, lists_of, parse_domain_list,
    stored_domains, Database,
};

#[test]
fn stored_value_splits_into_domains() {
    assert_eq!(parse_domain_list(&"a.com,,b.com,".to_string()), vec!["a.com", "b.com"]);
    assert_eq!(parse_domain_list(&"a.com,a.com".to_string()), vec!["a.com", "a.com"]);
    assert!(parse_domain_list(&"".to_string()).is_empty());
    assert!(parse_domain_list(&",,".to_string()).is_empty());
}

#[test]
fn adding_appends_to_the_list() {
    assert_eq!(domain_list_with(None, "a.com"), "a.com");
    assert_eq!(domain_list_with(Some("a.com".to_string()), "b.com"), "a.com,b.com");
    assert_eq!(domain_list_with(Some("a.com".to_string()), "a.com"), "a.com,a.com");
}

#[test]
fn removing_takes_every_copy_out() {
    assert_eq!(domain_list_without(&"a.com,b.com,a.com".to_string(), "a.com"), Some("b.com".to_string()));
    assert_eq!(domain_list_without(&"a.com".to_string(), "a.com"), Some("".to_string()));
    assert_eq!(domain_list_without(&"x.com,,y.com".to_string(), "y.com"), Some("x.com".to_string()));
}

#[test]
fn removing_an_absent_domain_gives_none() {
    assert_eq!(domain_list_without(&"a.com,b.com".to_string(), "c.com"), None);
    assert_eq!(domain_list_without(&"ab.com".to_string(), "b.com"), None);
    assert_eq!(domain_list_without(&"".to_string(), "a.com"), None);
}

#[test]
fn databases_have_their_numbers() {
    assert_eq!(Database::User.index(), 0);
    assert_eq!(Database::Domains.index(), 1);
}

#[test]
fn added_domain_is_listed_last() {
    let before = "a.com,,b.com".to_string();
    let after = domain_list_with(Some(before.clone()), "c.com");
    let mut expected = parse_domain_list(&before);
    expected.push("c.com".to_string());
    assert_eq!(parse_domain_list(&after), expected);
}

#[test]
fn removed_domain_is_no_longer_listed() {
    let after = domain_list_without(&"a.com,b.com,a.com,c.com".to_string(), "a.com").unwrap();
    assert_eq!(parse_domain_list(&after), vec!["b.com", "c.com"]);
}

#[test]
fn removal_without_a_list_gives_none() {
    assert_eq!(domain_list_after_removal(None, "a.com"), None);
    assert_eq!(domain_list_after_removal(Some("a.com,b.com".to_string()), "c.com"), None);
    assert_eq!(domain_list_after_removal(Some("a.com,b.com".to_string()), "a.com"), Some("b.com".to_string()));
}

#[test]
fn stored_value_becomes_domains_or_none() {
    assert_eq!(stored_domains(None), None);
    assert_eq!(stored_domains(Some("a.com,,b.com".to_string())), Some(vec!["a.com".to_string(), "b.com".to_string()]));
    assert_eq!(stored_domains(Some(String::new())), Some(Vec::new()));
}

#[test]
fn users_without_a_list_are_left_out() {
    let users = vec!["1".to_string(), "2".to_string(), "3".to_string()];
    let values = vec![Some("a.com,b.com".to_string()), None, Some("c.com".to_string())];
    let found = lists_of(&users, &values);
    assert_eq!(
        found,
        vec![
            ("1".to_string(), vec!["a.com".to_string(), "b.com".to_string()]),
            ("3".to_string(), vec!["c.com".to_string()]),
        ]
    );
    assert!(lists_of(&Vec::new(), &Vec::new()).is_empty());
}
