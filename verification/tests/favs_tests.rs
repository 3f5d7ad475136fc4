use crabwalker::favs::check_fav;
use crabwalker::favs::get_fav_names;
use crabwalker::favs::completions;
use crabwalker::lines::parse_store;
use crabwalker::paths::base_name;
use crabwalker::paths::join_path;
use crabwalker::config::get_conf_dir;
use crabwalker::config::get_state_dir;
use crabwalker::config::home_fallback;

fn cv(s: &str) -> Vec<char> {
    s.chars().collect()
}

fn cs(v: &Vec<char>) -> String {
    v.iter().collect()
}

fn lines_of(v: &Vec<Vec<char>>) -> Vec<String> {
    v.iter().map(cs).collect()
}

fn favlist(entries: &[&str]) -> Vec<Vec<char>> {
    entries.iter().map(|e| cv(e)).collect()
}

#[test]
fn favourite_matches_base_name_case_insensitively() {
    let favs = favlist(&["/home/x/Projects"]);
    let hit = check_fav(&cv("projects"), &favs);
    assert_eq!(hit.map(|p| cs(&p)), Some("/home/x/Projects".to_string()));
    let hit_upper = check_fav(&cv("PROJECTS"), &favs);
    assert_eq!(hit_upper.map(|p| cs(&p)), Some("/home/x/Projects".to_string()));
}

#[test]
fn full_path_query_does_not_match_a_favourite() {
    let favs = favlist(&["/home/x/Projects"]);
    assert!(check_fav(&cv("/home/x/projects"), &favs).is_none());
}

#[test]
fn first_matching_favourite_wins() {
    let favs = favlist(&["/a/docs", "/b/Docs", "/c/other"]);
    let hit = check_fav(&cv("DOCS"), &favs);
    assert_eq!(hit.map(|p| cs(&p)), Some("/a/docs".to_string()));
}

#[test]
fn no_match_yields_none() {
    let favs = favlist(&["/a/docs"]);
    assert!(check_fav(&cv("music"), &favs).is_none());
}

#[test]
fn fav_names_take_the_final_component_and_skip_nameless_entries() {
    let favs = favlist(&["/home/x/Projects", "/", "/var/log/", ".."]);
    assert_eq!(lines_of(&get_fav_names(&favs)), vec!["Projects", "log"]);
}

#[test]
fn completions_filter_by_case_insensitive_prefix() {
    let names = favlist(&["Projects", "prose", "music"]);
    assert_eq!(lines_of(&completions(&cv("PRO"), &names)), vec!["Projects", "prose"]);
    assert_eq!(lines_of(&completions(&cv(""), &names)), vec!["Projects", "prose", "music"]);
    assert_eq!(lines_of(&completions(&cv("z"), &names)).len(), 0);
}

#[test]
fn base_name_handles_edge_shapes() {
    assert_eq!(base_name(&cv("/a/b")).map(|b| cs(&b)), Some("b".to_string()));
    assert_eq!(base_name(&cv("/a/b/")).map(|b| cs(&b)), Some("b".to_string()));
    assert_eq!(base_name(&cv("name")).map(|b| cs(&b)), Some("name".to_string()));
    assert!(base_name(&cv("/")).is_none());
    assert!(base_name(&cv("")).is_none());
    assert!(base_name(&cv("..")).is_none());
}

#[test]
fn join_inserts_a_single_separator()
{
    assert_eq!(cs(&join_path(&cv("/home/u"), &cv("x.txt"))), "/home/u/x.txt");
    assert_eq!(cs(&join_path(&cv("/home/u/"), &cv("x.txt"))), "/home/u/x.txt");
    assert_eq!(cs(&join_path(&cv(""), &cv("x.txt"))), "x.txt");
}

#[test]
fn store_paths_sit_under_the_home_directory() {
    let home = cv("/home/u");
    assert_eq!(cs(&get_conf_dir(&home)), "/home/u/.config/crabwalker/fav.txt");
    assert_eq!(cs(&get_state_dir(&home)), "/home/u/.config/crabwalker/state.txt");
}

#[test]
fn fallback_home_is_built_from_the_user_name() {
    assert_eq!(cs(&home_fallback(&cv("alice"))), "/home/alice");
}

#[test]
fn favourites_store_parsing_skips_blank_lines() {
    let favs = parse_store(&cv("/a/one\n\n  \n/b/two\n"));
    assert_eq!(lines_of(&favs), vec!["/a/one", "/b/two"]);
}
