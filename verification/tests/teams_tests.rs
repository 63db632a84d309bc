use site_i18n::teams::{
    index_data, kind_to_str, page_data, Team, TeamKind, TeamNotFound, WebsiteData,
};

fn team(name: &str, kind: TeamKind, sub: Option<&str>, site: Option<(&str, i64)>) -> Team {
    Team {
        name: name.to_string(),
        kind,
        subteam_of: sub.map(|s| s.to_string()),
        website_data: site.map(|(page, weight)| WebsiteData { page: page.to_string(), weight }),
    }
}

fn roster() -> Vec<Team> {
    vec![
        team("lang", TeamKind::Team, None, Some(("lang", 10))),
        team("core", TeamKind::Team, None, Some(("core", 100))),
        team("hidden", TeamKind::Team, None, None),
        team("lang-sub", TeamKind::Team, Some("lang"), Some(("lang-sub", 1))),
        team("wg-async", TeamKind::WorkingGroup, None, Some(("async", 5))),
        team("wg-lang", TeamKind::WorkingGroup, Some("lang"), Some(("wg-lang", 2))),
    ]
}

#[test]
fn kind_sections() {
    assert_eq!(kind_to_str(TeamKind::Team), "teams");
    assert_eq!(kind_to_str(TeamKind::WorkingGroup), "wgs");
}

#[test]
fn index_selects_and_sorts() {
    let data = index_data(roster());
    assert_eq!(data.teams.len(), 2);
    assert_eq!(data.teams[0].team.name, "core");
    assert_eq!(data.teams[0].url, "teams/core");
    assert_eq!(data.teams[1].team.name, "lang");
    assert_eq!(data.teams[1].url, "teams/lang");
    assert_eq!(data.wgs.len(), 1);
    assert_eq!(data.wgs[0].team.name, "wg-async");
    assert_eq!(data.wgs[0].url, "wgs/async");
}

#[test]
fn index_sorts_by_descending_weight() {
    let data = index_data(vec![
        team("a", TeamKind::Team, None, Some(("a", -3))),
        team("b", TeamKind::Team, None, Some(("b", 7))),
        team("c", TeamKind::Team, None, Some(("c", 0))),
    ]);
    let names: Vec<&str> = data.teams.iter().map(|it| it.team.name.as_str()).collect();
    assert_eq!(names, vec!["b", "c", "a"]);
}

#[test]
fn page_finds_team_and_splits_children() {
    let pd = page_data(roster(), "teams", "lang").unwrap();
    assert_eq!(pd.team.name, "lang");
    assert_eq!(pd.subteams.len(), 1);
    assert_eq!(pd.subteams[0].name, "lang-sub");
    assert_eq!(pd.wgs.len(), 1);
    assert_eq!(pd.wgs[0].name, "wg-lang");
}

#[test]
fn page_requires_matching_section() {
    assert!(matches!(page_data(roster(), "wgs", "lang"), Err(TeamNotFound)));
    assert!(matches!(page_data(roster(), "teams", "no-such"), Err(TeamNotFound)));
}

#[test]
fn not_found_message() {
    assert_eq!(TeamNotFound.message(), "team not found");
}
