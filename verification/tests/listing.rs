use mirakc_webui::config::{
    flag_value, join, listing_sort, numeric_flag, parse_u64, AppState, ListingSort, SearchQuery,
};
use mirakc_webui::order::{order_by_count_desc, order_by_name_desc};
use mirakc_webui::recorded::{filter_by_query, position_of_id};
use mirakc_webui::trash::{
    days_remaining, download_disposition, info_file_name, is_expired, thumbnail_of_trashed,
    trash_thumbnail_url, trash_ttl_seconds,
};

fn strings(v: &[&str]) -> Vec<String> {
    v.iter().map(|s| s.to_string()).collect()
}

#[test]
fn names_sort_newest_first_and_stably() {
    let names = strings(&["b.ts", "c.ts", "a.ts", "c.ts"]);
    assert_eq!(order_by_name_desc(&names), vec![1, 3, 0, 2]);
    assert_eq!(order_by_name_desc(&strings(&["ab", "a", "abc"])), vec![2, 0, 1]);
}

#[test]
fn counts_sort_highest_first_and_stably() {
    assert_eq!(order_by_count_desc(&vec![3, 9, 3, 0, 9]), vec![1, 4, 0, 2, 3]);
    assert_eq!(order_by_count_desc(&vec![]), Vec::<usize>::new());
}

#[test]
fn find_first_id() {
    let ids = strings(&["a", "b", "b"]);
    assert_eq!(position_of_id(&ids, "b"), Some(1));
    assert_eq!(position_of_id(&ids, "z"), None);
}

#[test]
fn query_filter_matches_program_or_channel() {
    let programs = strings(&["ニュース", "Drama", "Quiz"]);
    let channels = strings(&["NHK", "TBS", "NHK E"]);
    assert_eq!(filter_by_query(&programs, &channels, "NHK"), vec![0, 2]);
    assert_eq!(filter_by_query(&programs, &channels, "ram"), vec![1]);
    assert_eq!(filter_by_query(&programs, &channels, ""), vec![0, 1, 2]);
    assert_eq!(filter_by_query(&programs, &channels, "zzz"), Vec::<usize>::new());
}

#[test]
fn sort_parameter() {
    let q = |s: Option<&str>| SearchQuery { q: None, sort: s.map(|x| x.to_string()) };
    assert_eq!(listing_sort(&q(Some("drops"))), ListingSort::ByDrops);
    assert_eq!(listing_sort(&q(Some("size"))), ListingSort::BySize);
    assert_eq!(listing_sort(&q(Some("name"))), ListingSort::Unchanged);
    assert_eq!(listing_sort(&q(None)), ListingSort::Unchanged);
}

#[test]
fn parse_numbers_like_std() {
    for s in ["0", "42", "+7", "18446744073709551615", "", "+", "-1", "1a", "18446744073709551616", " 1"] {
        assert_eq!(parse_u64(s), s.parse::<u64>().ok(), "input {:?}", s);
    }
}

#[test]
fn flags_take_the_first_match() {
    let args = strings(&["prog", "-s=abc", "-s=9", "-d=-d=/x", "-ttl=3"]);
    assert_eq!(flag_value(&args, "-d="), Some("/x".to_string()));
    assert_eq!(flag_value(&args, "-m="), None);
    assert_eq!(numeric_flag(&args, "-s=", 5), 5);
    assert_eq!(numeric_flag(&args, "-ttl=", 7), 3);
    assert_eq!(numeric_flag(&args, "-cleanup=", 3600), 3600);
}

#[test]
fn paths_join_like_pathbuf() {
    assert_eq!(join("/var/rec", ".trash"), "/var/rec/.trash");
    assert_eq!(join("/var/rec/", ".trash"), "/var/rec/.trash");
    assert_eq!(join("", ".trash"), ".trash");
}

#[test]
fn settings_from_arguments() {
    let s = AppState::from_args(&strings(&["prog"]));
    assert_eq!(s.recorded_dir, "/var/lib/mirakc/recorded");
    assert_eq!(s.thumbnails_dir, "/var/lib/mirakc/thumbnails");
    assert_eq!(s.mirakc_api, "http://localhost:40772");
    assert_eq!(s.ffmpeg_path, "/usr/bin/ffmpeg");
    assert_eq!(s.thumbnail_offset, 5);
    assert_eq!(s.trash_dir, "/var/lib/mirakc/recorded/.trash");
    assert_eq!(s.trash_thumb_dir, "/var/lib/mirakc/thumbnails/.trash");
    assert_eq!(s.trash_ttl_days, 7);
    assert_eq!(s.cleanup_interval_secs, 3600);
    let t = AppState::from_args(&strings(&["prog", "-d=/rec", "-tt=/tt", "-s=30", "-cleanup=60"]));
    assert_eq!(t.recorded_dir, "/rec");
    assert_eq!(t.trash_dir, "/rec/.trash");
    assert_eq!(t.trash_thumb_dir, "/tt");
    assert_eq!(t.thumbnail_offset, 30);
    assert_eq!(t.cleanup_interval_secs, 60);
}

#[test]
fn trash_expiry() {
    let ttl = trash_ttl_seconds(7);
    assert_eq!(ttl, 604800);
    assert!(!is_expired(1000, 1000, ttl));
    assert!(!is_expired(1000 + ttl, 1000, ttl));
    assert!(is_expired(1001 + ttl, 1000, ttl));
    assert_eq!(days_remaining(1000, 1000, ttl), 7);
    assert_eq!(days_remaining(1001, 1000, ttl), 6);
    assert_eq!(days_remaining(1000 + ttl, 1000, ttl), 0);
    assert_eq!(days_remaining(5000 + ttl, 1000, ttl), 0);
}

#[test]
fn trash_names() {
    assert_eq!(info_file_name("a_b.ts"), "a_b.ts.info");
    assert_eq!(trash_thumbnail_url("a_b.m2ts"), "/api/trash/thumbnails/a_b.jpg");
    assert_eq!(thumbnail_of_trashed("a_b.m2ts"), Some("a_b.jpg".to_string()));
    assert_eq!(thumbnail_of_trashed("a_b.mp4"), None);
    assert_eq!(download_disposition("a\"b\".ts"), "attachment; filename=\"ab.ts\"");
}
