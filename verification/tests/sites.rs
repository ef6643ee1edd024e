use radarpro::sites::find_site_index;

fn icaos() -> Vec<String> {
    ["KFTG", "KTLX", "PHKI"].iter().map(|s| s.to_string()).collect()
}

#[test]
fn find_site_index_is_case_insensitive() {
    assert_eq!(find_site_index(&icaos(), "ktlx"), Some(1));
    assert_eq!(find_site_index(&icaos(), "KTLX"), Some(1));
    assert_eq!(find_site_index(&icaos(), "kFtG"), Some(0));
}

#[test]
fn find_site_index_returns_none_for_unknown_icao() {
    assert_eq!(find_site_index(&icaos(), "XXXX"), None);
    assert_eq!(find_site_index(&icaos(), "KTL"), None);
    assert_eq!(find_site_index(&Vec::new(), "KTLX"), None);
}

#[test]
fn find_site_index_takes_the_first_match() {
    let list: Vec<String> = vec!["ktlx".to_string(), "KTLX".to_string()];
    assert_eq!(find_site_index(&list, "KTLX"), Some(0));
}
