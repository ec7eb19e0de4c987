use subscan::domain::{is_label_character, is_valid_domain};
use subscan::endpoint::{IpAddress, ResolverEndpoint, DEFAULT_PORT};
use subscan::loader::{
    collect_resolvers, resolver_entries, resolver_entry, select_domains, split_on, CliError,
    Lookup,
};
use subscan::scanner::{keep_non_blank, resolver_address_text};
use subscan::text::{compose_name, contains_char, copy_texts, same_text, starts_with_char};

fn lines(texts: &[&str]) -> Vec<String> {
    texts.iter().map(|t| t.to_string()).collect()
}

#[test]
fn test_load_resolvers() {
    let file = lines(&["1.1.1.1", "8.8.8.8:53", "# Comment", "", "invalid.resolver"]);

    let entries = resolver_entries(&file);
    assert_eq!(entries, lines(&["1.1.1.1:53", "8.8.8.8:53", "invalid.resolver:53"]));

    let lookups = vec![
        Lookup::Found(ResolverEndpoint::v4(1, 1, 1, 1, 53)),
        Lookup::Found(ResolverEndpoint::v4(8, 8, 8, 8, 53)),
        Lookup::Failed,
    ];
    let resolvers = collect_resolvers(&lookups).unwrap();
    assert_eq!(resolvers.len(), 2);
    assert_eq!(resolvers[0].port(), 53);
    assert_eq!(resolvers[1].port(), 53);
}

#[test]
fn test_load_domains() {
    let file = lines(&["example.com", "sub.example.com", "# Comment", "", "invalid..domain"]);

    let domains = select_domains(&file).unwrap();
    assert_eq!(domains.len(), 2);
    assert_eq!(domains[0], "example.com");
    assert_eq!(domains[1], "sub.example.com");
}

#[test]
fn resolver_entry_trims_and_adds_the_default_port() {
    assert_eq!(resolver_entry("  9.9.9.9\t"), Some("9.9.9.9:53".to_string()));
    assert_eq!(resolver_entry(" 9.9.9.9:5353 "), Some("9.9.9.9:5353".to_string()));
    assert_eq!(resolver_entry("[::1]:53"), Some("[::1]:53".to_string()));
    assert_eq!(resolver_entry("\u{a0}ns.example\u{3000}"), Some("ns.example:53".to_string()));
}

#[test]
fn resolver_entry_passes_over_blanks_and_comments() {
    assert_eq!(resolver_entry(""), None);
    assert_eq!(resolver_entry("   \t "), None);
    assert_eq!(resolver_entry("# 1.1.1.1"), None);
    assert_eq!(resolver_entry("   #1.1.1.1"), None);
    assert_eq!(resolver_entry("1.1.1.1 # main"), Some("1.1.1.1 # main:53".to_string()));
}

#[test]
fn resolvers_without_any_found_are_refused_with_the_failures_counted() {
    assert_eq!(
        collect_resolvers(&vec![Lookup::Failed, Lookup::Empty, Lookup::Failed, Lookup::Failed]),
        Err(CliError::NoValidResolvers { invalid: 3 })
    );
    assert_eq!(collect_resolvers(&vec![]), Err(CliError::NoValidResolvers { invalid: 0 }));
}

#[test]
fn resolvers_keep_their_order() {
    let a = ResolverEndpoint::v4(10, 0, 0, 1, 53);
    let b = ResolverEndpoint::v6(1, 0, 5353);
    let c = ResolverEndpoint::v4(10, 0, 0, 2, 53);
    assert_eq!(
        collect_resolvers(&vec![Lookup::Found(a), Lookup::Empty, Lookup::Found(b), Lookup::Found(c)]),
        Ok(vec![a, b, c])
    );
}

#[test]
fn endpoint_holds_its_bytes_in_network_order() {
    let e = ResolverEndpoint::v4(1, 2, 3, 4, DEFAULT_PORT);
    assert_eq!(e.address, IpAddress::V4 { bits: 0x0102_0304 });
    assert_eq!(e.port(), 53);
    let top = ResolverEndpoint::v4(255, 255, 255, 255, 65535);
    assert_eq!(top.address, IpAddress::V4 { bits: u32::MAX });
    assert_eq!(top.port, 65535);
    assert_eq!(
        ResolverEndpoint::v6(7, 2, 53).address,
        IpAddress::V6 { bits: 7, scope_id: 2 }
    );
}

#[test]
fn domains_are_trimmed_and_lowered() {
    let domains = select_domains(&lines(&["  WWW.Example.COM ", "_dmarc.Example.com"])).unwrap();
    assert_eq!(domains, lines(&["www.example.com", "_dmarc.example.com"]));
}

#[test]
fn domains_without_any_accepted_are_refused_with_the_malformed_counted() {
    assert_eq!(
        select_domains(&lines(&["", "# only", "bad domain", ".lead", "trail.", "ok..no"])),
        Err(CliError::NoValidDomains { invalid: 4 })
    );
    assert_eq!(select_domains(&vec![]), Err(CliError::NoValidDomains { invalid: 0 }));
}

#[test]
fn domain_syntax_accepts_plain_names() {
    assert!(is_valid_domain("example.com"));
    assert!(is_valid_domain("a"));
    assert!(is_valid_domain("a-b_c.D9"));
    assert!(is_valid_domain("-.-"));
    assert!(is_valid_domain(""));
}

#[test]
fn domain_syntax_refuses_empty_labels_and_foreign_characters() {
    assert!(!is_valid_domain("."));
    assert!(!is_valid_domain(".example.com"));
    assert!(!is_valid_domain("example.com."));
    assert!(!is_valid_domain("invalid..domain"));
    assert!(!is_valid_domain("exa mple.com"));
    assert!(!is_valid_domain("exämple.com"));
    assert!(!is_valid_domain("a*b"));
    assert!(!is_valid_domain("a:53"));
}

#[test]
fn domain_syntax_bounds_labels_at_63() {
    let label63 = "a".repeat(63);
    let label64 = "a".repeat(64);
    assert!(is_valid_domain(&label63));
    assert!(!is_valid_domain(&label64));
    assert!(is_valid_domain(&format!("{}.{}", label63, label63)));
    assert!(!is_valid_domain(&format!("x.{}.y", label64)));
    assert!(!is_valid_domain(&format!("x.y.{}", label64)));
}

#[test]
fn domain_syntax_bounds_names_at_253() {
    let label = "a".repeat(63);
    let name253 = format!("{}.{}.{}.{}", label, label, label, "b".repeat(61));
    assert_eq!(name253.len(), 253);
    assert!(is_valid_domain(&name253));
    let name254 = format!("{}.{}.{}.{}", label, label, label, "b".repeat(62));
    assert_eq!(name254.len(), 254);
    assert!(!is_valid_domain(&name254));
}

#[test]
fn label_characters_are_letters_digits_hyphen_and_underscore() {
    for c in ['a', 'z', 'A', 'Z', '0', '9', '-', '_'] {
        assert!(is_label_character(c));
    }
    for c in ['.', ' ', '@', '[', '`', '{', '/', ':', 'é'] {
        assert!(!is_label_character(c));
    }
}

#[test]
fn split_gives_one_more_part_than_separators() {
    assert_eq!(split_on("A,AAAA,MX", ','), lines(&["A", "AAAA", "MX"]));
    assert_eq!(split_on("", ','), lines(&[""]));
    assert_eq!(split_on(",", ','), lines(&["", ""]));
    assert_eq!(split_on("a,,b,", ','), lines(&["a", "", "b", ""]));
    assert_eq!(split_on("né,ö", ','), lines(&["né", "ö"]));
    assert_eq!(split_on("abc", ','), lines(&["abc"]));
}

#[test]
fn scanner_address_text_keeps_lines_with_a_colon() {
    assert_eq!(resolver_address_text("1.1.1.1"), "1.1.1.1:53");
    assert_eq!(resolver_address_text("  1.1.1.1 "), "1.1.1.1:53");
    assert_eq!(resolver_address_text(" 1.1.1.1:53 "), " 1.1.1.1:53 ");
    assert_eq!(resolver_address_text(""), ":53");
}

#[test]
fn blank_lines_are_dropped_and_others_kept_as_they_are() {
    assert_eq!(
        keep_non_blank(lines(&["www", "", "  ", " mail ", "\t", "ftp"])),
        lines(&["www", " mail ", "ftp"])
    );
    assert_eq!(keep_non_blank(lines(&["", " "])), Vec::<String>::new());
}

#[test]
fn names_are_composed_with_a_dot_when_there_is_a_domain() {
    assert_eq!(compose_name("www", "example.com"), "www.example.com");
    assert_eq!(compose_name("a.example.com", ""), "a.example.com");
    assert_eq!(compose_name("", "example.com"), ".example.com");
}

#[test]
fn text_helpers_find_characters() {
    assert!(contains_char("a:b", ':'));
    assert!(!contains_char("ab", ':'));
    assert!(!contains_char("", ':'));
    assert!(contains_char("äö:", ':'));
    assert!(starts_with_char("#x", '#'));
    assert!(!starts_with_char(" #x", '#'));
    assert!(!starts_with_char("", '#'));
    assert!(same_text("abc", "abc"));
    assert!(!same_text("abc", "abd"));
    assert_eq!(copy_texts(&lines(&["x", "", "y z"])), lines(&["x", "", "y z"]));
}
