use srtla_send::bind_map::ip::parse_ip;
use srtla_send::cli::{screen_source_ips, DEFAULT_STATS_FILE_INTERVAL_MS};

#[test]
fn usable_addresses_are_kept_and_bad_lines_are_numbered() {
    let text = "192.168.8.100\n\n  not-an-ip  \r\n10.0.0.1\n::1\n";
    let screen = screen_source_ips("ips.txt", text).unwrap();
    assert_eq!(
        screen.source_ips,
        vec![
            parse_ip("192.168.8.100").unwrap(),
            parse_ip("10.0.0.1").unwrap(),
            parse_ip("::1").unwrap()
        ]
    );
    assert_eq!(screen.invalid_lines, vec![(3, "not-an-ip".to_string())]);
}

#[test]
fn a_list_without_addresses_names_its_first_bad_line() {
    let err = screen_source_ips("/etc/ips", "\n300.1.1.1\nbogus\n").unwrap_err();
    assert_eq!(
        err,
        "no valid source IPs in /etc/ips: first invalid entry on line 2 ('300.1.1.1')"
    );
}

#[test]
fn an_empty_list_says_so() {
    let err = screen_source_ips("/etc/ips", "  \n\n").unwrap_err();
    assert_eq!(err, "no valid source IPs in /etc/ips: file is empty");
    assert_eq!(
        screen_source_ips("x", "").unwrap_err(),
        "no valid source IPs in x: file is empty"
    );
}

#[test]
fn the_default_stats_cadence_is_one_second() {
    assert_eq!(DEFAULT_STATS_FILE_INTERVAL_MS, 1000);
}
