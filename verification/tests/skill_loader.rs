use agent_core::skill_loader::{
    extract_yaml_list, extract_yaml_string, parse_front_matter, parse_skill, sort_skills,
};

#[test]
fn test_parse_front_matter() {
    let content = r#"---
name: weather
description: "Get weather"
keywords: [weather, forecast]
---

# Weather Skill

Use curl."#;

    let (fm, body) = parse_front_matter(content);
    assert!(fm.contains("name: weather"));
    assert!(body.contains("# Weather Skill"));
}

#[test]
fn test_parse_no_front_matter() {
    let content = "# Just a skill\n\nNo front matter.";
    let (fm, body) = parse_front_matter(content);
    assert!(fm.is_empty());
    assert_eq!(body, "# Just a skill\n\nNo front matter.");
}

#[test]
fn test_extract_yaml_string() {
    let yaml = "name: weather\ndescription: \"Get weather\"";
    assert_eq!(extract_yaml_string(yaml, "name"), Some("weather".to_string()));
    assert_eq!(extract_yaml_string(yaml, "description"), Some("Get weather".to_string()));
    assert_eq!(extract_yaml_string(yaml, "missing"), None);
}

#[test]
fn test_extract_yaml_list_inline() {
    let yaml = "keywords: [weather, forecast, \"temperature\"]";
    let items = extract_yaml_list(yaml, "keywords");
    assert_eq!(items, vec!["weather", "forecast", "temperature"]);
}

#[test]
fn test_extract_yaml_list_multiline() {
    let yaml = "keywords:\n  - weather\n  - forecast\n  - temperature";
    let items = extract_yaml_list(yaml, "keywords");
    assert_eq!(items, vec!["weather", "forecast", "temperature"]);
}

#[test]
fn test_parse_skill_file() {
    let content = r#"---
name: weather
description: "Get weather"
keywords: [weather]
---

# Weather

Use curl."#;

    let skill = parse_skill(content, Some("weather"), "skills/weather/SKILL.md");
    assert_eq!(skill.name, "weather");
    assert_eq!(skill.description, "Get weather");
    assert_eq!(skill.keywords, vec!["weather"]);
    assert!(skill.prompt_body.contains("# Weather"));
}

#[test]
fn test_load_skills_from_dir() {
    let skills = sort_skills(vec![
        parse_skill("---\nname: skill-b\n---\n# Skill B", Some("skill-b"), "b"),
        parse_skill("---\nname: skill-a\n---\n# Skill A", Some("skill-a"), "a"),
    ]);
    assert_eq!(skills.len(), 2);
    assert_eq!(skills[0].name, "skill-a");
    assert_eq!(skills[1].name, "skill-b");
}

#[test]
fn skills_of_one_name_keep_their_order() {
    let skills = sort_skills(vec![
        parse_skill("---\nname: x\n---\n1", None, "first"),
        parse_skill("---\nname: a\n---\n2", None, "second"),
        parse_skill("---\nname: x\n---\n3", None, "third"),
    ]);
    let paths: Vec<&str> = skills.iter().map(|s| s.source_path.as_str()).collect();
    assert_eq!(paths, vec!["second", "first", "third"]);
}

#[test]
fn skill_names_fall_back_to_the_directory() {
    assert_eq!(parse_skill("body", Some("dir"), "p").name, "dir");
    let s = parse_skill("body", None, "p");
    assert_eq!(s.name, "unknown");
    assert_eq!(s.description, "");
    assert!(s.keywords.is_empty());
    assert_eq!(s.prompt_body, "body");
}

#[test]
fn yaml_edges() {
    assert_eq!(extract_yaml_string("a: '", "a"), Some("'".to_string()));
    assert_eq!(extract_yaml_string("  a: 'x' \nb: y", "a"), Some("x".to_string()));
    assert_eq!(extract_yaml_string("ab: 1\na: 2", "a"), Some("2".to_string()));
    assert_eq!(
        extract_yaml_list("k:\n # note\n\n - 'a b'\nother: 1\n - c", "k"),
        vec!["a b"]
    );
    assert_eq!(extract_yaml_list("k: [a,, 'b' ]", "k"), vec!["a", "b"]);
    assert!(extract_yaml_list("k: word\nj: 1", "k").is_empty());
    let (fm, body) = parse_front_matter("---\nname: x\nno end");
    assert_eq!(fm, "");
    assert_eq!(body, "---\nname: x\nno end");
}
