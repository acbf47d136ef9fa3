use khronos::error::Error;
use khronos::groups::groups_from_path;
use khronos::validate_group;

#[test]
fn validate_group_accepts_digits_and_lowercase() {
    assert_eq!(validate_group("abc123"), Ok("abc123"));
    assert_eq!(validate_group("0"), Ok("0"));
    assert_eq!(validate_group("z"), Ok("z"));
}

#[test]
fn validate_group_refuses_other_names() {
    for name in ["", "ABC", "a-b", "a+b", "a b", "é", "abc\n", "\nabc", "a_b"] {
        assert_eq!(
            validate_group(name),
            Err(Error::InvalidGroupFormat(name.to_string())),
            "name {:?}",
            name
        );
    }
}

#[test]
fn groups_from_path_lists_each_group() {
    assert_eq!(
        groups_from_path("work+home"),
        Ok(vec!["work".to_string(), "home".to_string()])
    );
    assert_eq!(groups_from_path("work"), Ok(vec!["work".to_string()]));
    assert_eq!(
        groups_from_path("a+b+c1"),
        Ok(vec!["a".to_string(), "b".to_string(), "c1".to_string()])
    );
}

#[test]
fn groups_from_path_refuses_first_bad_piece() {
    assert_eq!(
        groups_from_path("work+Home+BAD"),
        Err(Error::InvalidGroupFormat("Home".to_string()))
    );
    assert_eq!(
        groups_from_path("a++b"),
        Err(Error::InvalidGroupFormat(String::new()))
    );
    assert_eq!(groups_from_path(""), Err(Error::InvalidGroupFormat(String::new())));
    assert_eq!(
        groups_from_path("a+"),
        Err(Error::InvalidGroupFormat(String::new()))
    );
    assert_eq!(
        groups_from_path("+a"),
        Err(Error::InvalidGroupFormat(String::new()))
    );
}

#[test]
fn joined_groups_parse_back() {
    let groups = vec!["x1".to_string(), "team".to_string(), "42".to_string()];
    let path = groups.join("+");
    assert_eq!(groups_from_path(&path), Ok(groups.clone()));
    assert_eq!(groups_from_path(&path).unwrap().join("+"), path);
}

#[test]
fn validate_group_agrees_with_character_rule_on_short_names() {
    let alphabet = ['a', 'z', '0', '9', 'A', '-', '+', ' ', '\n', 'é', '_'];
    let mut names = vec![String::new()];
    for _ in 0..3 {
        let mut longer = Vec::new();
        for n in &names {
            for c in alphabet {
                let mut m = n.clone();
                m.push(c);
                longer.push(m);
            }
        }
        names.extend(longer);
        names.sort();
        names.dedup();
    }
    for name in &names {
        let expected = !name.is_empty()
            && name.chars().all(|c| c.is_ascii_digit() || c.is_ascii_lowercase());
        assert_eq!(validate_group(name).is_ok(), expected, "name {:?}", name);
    }
}
