use cfnat::args::{
    approximate_display_width, format_help_line, help_text, split_list, split_words, wants_help,
    Args, ArgsOutcome,
};
use cfnat::net::{IpAddr, SocketAddr};

fn strings(v: &[&str]) -> Vec<String> {
    v.iter().map(|s| s.to_string()).collect()
}

#[test]
fn pairs_skip_the_program_name_and_stray_words() {
    let pairs = Args::parse_args_to_vec(&strings(&["cfnat", "-f", "ip.txt", "stray", "--ips", "-n", "8"]));
    assert_eq!(pairs.len(), 3);
    assert_eq!(pairs[0], ("f".to_string(), Some("ip.txt".to_string())));
    assert_eq!(pairs[1], ("ips".to_string(), None));
    assert_eq!(pairs[2], ("n".to_string(), Some("8".to_string())));
}

#[test]
fn pairs_of_an_empty_command_line() {
    assert!(Args::parse_args_to_vec(&Vec::new()).is_empty());
    assert!(Args::parse_args_to_vec(&strings(&["cfnat"])).is_empty());
}

#[test]
fn settings_from_flags() {
    let p = Args::parse_from_iter(&strings(&[
        "cfnat", "-f", "list.txt", "-ips", "20", "-dl", "300", "-n", "64", "-tp", "8443", "-p", "8080",
        "-addr", "127.0.0.1:9000", "-u", "https://example.com/t",
    ]))
    .ok()
    .unwrap();
    assert_eq!(p.config.ip_file, "list.txt");
    assert_eq!(p.config.ips, 20);
    assert_eq!(p.config.delay_limit, 300);
    assert_eq!(p.config.threads, 64);
    assert_eq!(p.config.tls_port, 8443);
    assert_eq!(p.config.http_port, 8080);
    assert_eq!(p.config.http, "https://example.com/t");
    assert_eq!(p.config.listen_addr, SocketAddr { ip: IpAddr::V4(0x7f00_0001), port: 9000, scope_id: 0 });
    assert!(p.tlr_values.is_empty());
}

#[test]
fn numbers_are_clamped_and_bad_ones_ignored() {
    let p = Args::parse_from_iter(&strings(&["cfnat", "-dl", "5000", "-ips", "0", "-n", "abc", "-P", "0"]))
        .ok()
        .unwrap();
    assert_eq!(p.config.delay_limit, 2000);
    assert_eq!(p.config.ips, 1);
    assert_eq!(p.config.threads, 16);
    assert_eq!(p.config.http_port, 1);
    let q = Args::parse_from_iter(&strings(&["cfnat", "-tls-port", "+70000", "-i", "+7"])).ok().unwrap();
    assert_eq!(q.config.tls_port, 443);
    assert_eq!(q.config.ips, 7);
}

#[test]
fn later_flags_win() {
    let p = Args::parse_from_iter(&strings(&["cfnat", "-ips", "3", "-ips", "4", "-ips", "x"])).ok().unwrap();
    assert_eq!(p.config.ips, 4);
}

#[test]
fn loss_limits_are_handed_back_in_order() {
    let p = Args::parse_from_iter(&strings(&["cfnat", "-tlr", "0.2", "-l", "x", "-loss"])).ok().unwrap();
    assert_eq!(p.tlr_values, strings(&["0.2", "x"]));
}

#[test]
fn unknown_key_is_refused() {
    match Args::parse_from_iter(&strings(&["cfnat", "-ips", "3", "-zz", "1", "-f", "a"])) {
        Err(k) => assert_eq!(k, "zz"),
        Ok(_) => panic!("accepted an unknown key"),
    }
}

#[test]
fn colo_list_is_split_and_trimmed() {
    let p = Args::parse_from_iter(&strings(&["cfnat", "-colo", " HKG,,LAX , sjc"])).ok().unwrap();
    assert_eq!(p.config.colo, Some(strings(&["HKG", "LAX", "sjc"])));
    let q = Args::parse_from_iter(&strings(&["cfnat", "-colo", "HKG", "-c"])).ok().unwrap();
    assert_eq!(q.config.colo, None);
    assert_eq!(split_list(&" , ".to_string()), Vec::<String>::new());
}

#[test]
fn bad_address_keeps_the_default() {
    let p = Args::parse_from_iter(&strings(&["cfnat", "-a", "localhost:80", "-api", "[::1]:8080"])).ok().unwrap();
    assert_eq!(p.config.listen_addr, SocketAddr { ip: IpAddr::V4(0x7f06_0606), port: 1234, scope_id: 0 });
    assert_eq!(p.config.api_addr, SocketAddr { ip: IpAddr::V6(1), port: 8080, scope_id: 0 });
}

#[test]
fn outcome_of_the_program_command_line() {
    assert!(matches!(Args::parse_to_config(&strings(&["cfnat"])), ArgsOutcome::NoArgs));
    assert!(matches!(Args::parse_to_config(&strings(&["cfnat", "-zz", "--help"])), ArgsOutcome::Help));
    assert!(matches!(Args::parse_to_config(&strings(&["cfnat", "-h"])), ArgsOutcome::Help));
    match Args::parse_to_config(&strings(&["cfnat", "-bad"])) {
        ArgsOutcome::Invalid(k) => assert_eq!(k, "bad"),
        _ => panic!("expected an invalid key"),
    }
    match Args::parse_to_config(&strings(&["cfnat", "-ips", "12"])) {
        ArgsOutcome::Config(p) => assert_eq!(p.config.ips, 12),
        _ => panic!("expected settings"),
    }
    assert!(wants_help(&strings(&["x", "--help"])));
    assert!(!wants_help(&strings(&["x", "-help"])));
}

#[test]
fn line_of_words() {
    assert!(Args::parse_line_to_config("  \t ").is_none());
    let p = Args::parse_line_to_config("run  -ips\t9 -f a.txt").unwrap().ok().unwrap();
    assert_eq!(p.config.ips, 9);
    assert_eq!(p.config.ip_file, "a.txt");
    let q = Args::parse_line_to_config("-ips 9").unwrap().ok().unwrap();
    assert_eq!(q.config.ips, 9);
    let r = Args::parse_line_to_config("-ips 20 -dl 300").unwrap().ok().unwrap();
    assert_eq!(r.config.ips, 20);
    assert_eq!(r.config.delay_limit, 300);
    assert!(Args::parse_line_to_config("-nope 1").unwrap().is_err());
    assert_eq!(split_words(" a  b\u{3000}c "), strings(&["a", "b", "c"]));
}

#[test]
fn display_width_counts_wide_characters_twice_and_skips_escapes() {
    assert_eq!(approximate_display_width("abc"), 3);
    assert_eq!(approximate_display_width("中文"), 4);
    assert_eq!(approximate_display_width("\x1b[32m-f\x1b[0m"), 2);
    assert_eq!(approximate_display_width("\x1b[1;35mé\x1b[0m"), 2);
    assert_eq!(approximate_display_width(""), 0);
}

#[test]
fn escape_ends_at_a_letter() {
    assert_eq!(approximate_display_width("\x1b[2Kab"), 2);
    assert_eq!(approximate_display_width("\x1b[2中ab"), 2);
}

#[test]
fn help_line_is_padded_to_columns() {
    let line = format_help_line("-f", "从文件读取 IP 或 CIDR", "ip.txt");
    let expected = format!(
        " \x1b[32m-f\x1b[0m{}从文件读取 IP 或 CIDR{}\x1b[2mip.txt\x1b[0m{}\n",
        " ".repeat(9),
        " ".repeat(24),
        " ".repeat(9)
    );
    assert_eq!(line, expected);
}

#[test]
fn help_text_lists_every_flag() {
    let t = help_text();
    assert!(t.starts_with("\x1b[1;35m参数说明\x1b[0m\n\n"));
    assert_eq!(t.lines().filter(|l| l.starts_with(" \x1b[32m-")).count(), 11);
    assert!(t.contains("\x1b[32m-p\x1b[0m"));
    assert!(t.ends_with("\n"));
}

#[test]
fn no_flags_give_the_defaults() {
    let p = Args::parse_from_iter(&strings(&["cfnat"])).ok().unwrap();
    assert_eq!(p.config.ip_file, "ip.txt");
    assert_eq!(p.config.ips, 10);
    assert_eq!(p.config.delay_limit, 500);
    assert!(p.tlr_values.is_empty());
    let q = Args::parse_from_iter(&Vec::new()).ok().unwrap();
    assert_eq!(q.config.threads, 16);
}
