use subscan::dns::{is_queryable, DnsRecordType};
use subscan::endpoint::ResolverEndpoint;
use subscan::governor::Governor;
use subscan::model::Event;
use subscan::race::{assign, AssignmentPolicy, Race, Verdict};
use subscan::scan::{Admission, ConfigError, Job, RaceStep, Report, Scan};
use subscan::scanner::SubdomainScanner;

fn lines(texts: &[&str]) -> Vec<String> {
    texts.iter().map(|t| t.to_string()).collect()
}

fn pool(n: u8) -> Vec<ResolverEndpoint> {
    (0..n).map(|i| ResolverEndpoint::v4(10, 0, 0, i + 1, 53)).collect()
}

fn started(admission: Admission) -> Job {
    match admission {
        Admission::Started(job) => job,
        other => panic!("expected a started job, got {:?}", other),
    }
}

fn full_pool_scan(labels: &[&str], resolvers: usize, ceiling: usize) -> Scan {
    Scan::new(lines(labels), String::new(), resolvers, AssignmentPolicy::FullPool, ceiling, 2)
        .unwrap()
}

#[test]
fn example_scenario_two_resolvers_two_candidates() {
    let scanner = SubdomainScanner::new(
        pool(2),
        lines(&["a.example.com", "b.example.com"]),
        "",
        2,
        2,
    )
    .unwrap()
    .with_policy(AssignmentPolicy::FullPool);
    let mut scan = scanner.scan();

    let a = started(scan.admit_next());
    assert_eq!(a.candidate, 0);
    assert_eq!(a.name, "a.example.com");
    assert_eq!(a.resolvers, vec![0, 1]);
    assert_eq!(a.timeout_secs, 2);
    let b = started(scan.admit_next());
    assert_eq!(b.name, "b.example.com");
    assert_eq!(b.resolvers, vec![0, 1]);
    assert!(matches!(scan.admit_next(), Admission::Refused));
    assert_eq!(scan.report(), None);

    assert!(matches!(scan.on_answer(0, 0, false), RaceStep::Pending));
    assert!(matches!(scan.on_answer(1, 1, false), RaceStep::Pending));
    match scan.on_answer(0, 1, true) {
        RaceStep::Resolved { name, cancel } => {
            assert_eq!(name, "a.example.com");
            assert_eq!(cancel, Vec::<usize>::new());
        }
        other => panic!("expected a resolved candidate, got {:?}", other),
    }
    assert!(!scan.is_finished());
    assert!(matches!(scan.on_answer(1, 0, false), RaceStep::Unresolved));
    assert!(scan.is_finished());

    assert_eq!(
        scan.report(),
        Some(Report {
            resolved: vec!["a.example.com".to_string()],
            total_scanned: 2,
            resolvers_used: 2,
        })
    );
}

#[test]
fn labels_are_joined_with_the_base_domain() {
    let scanner = SubdomainScanner::new(pool(3), lines(&["www", "", "mail", "  "]), "example.com", 5, 8)
        .unwrap();
    assert_eq!(scanner.domain(), "example.com");
    assert_eq!(scanner.subdomains(), &lines(&["www", "mail"]));
    assert_eq!(scanner.resolvers(), &pool(3));
    assert_eq!(scanner.timeout_secs(), 5);
    assert_eq!(scanner.concurrency_limit(), 8);
    assert_eq!(scanner.policy(), AssignmentPolicy::RoundRobin);
    let mut scan = scanner.scan();
    assert_eq!(scan.candidates(), 2);
    assert_eq!(scan.pool_size(), 3);
    let www = started(scan.admit_next());
    assert_eq!(www.name, "www.example.com");
    assert_eq!(www.resolvers, vec![0]);
    assert_eq!(www.timeout_secs, 5);
    let mail = started(scan.admit_next());
    assert_eq!(mail.name, "mail.example.com");
    assert_eq!(mail.resolvers, vec![1]);
    assert_eq!(scan.name_of(1), "mail.example.com");
}

#[test]
fn scanner_refuses_an_empty_pool_first() {
    assert_eq!(
        SubdomainScanner::new(vec![], lines(&[]), "example.com", 2, 0).unwrap_err(),
        ConfigError::NoResolvers
    );
    assert_eq!(
        SubdomainScanner::new(vec![], lines(&["www"]), "example.com", 2, 4).unwrap_err(),
        ConfigError::NoResolvers
    );
}

#[test]
fn scanner_refuses_an_empty_label_list() {
    assert_eq!(
        SubdomainScanner::new(pool(1), lines(&[]), "example.com", 2, 4).unwrap_err(),
        ConfigError::NoCandidates
    );
    assert_eq!(
        SubdomainScanner::new(pool(1), lines(&["", " \t"]), "example.com", 2, 0).unwrap_err(),
        ConfigError::NoCandidates
    );
}

#[test]
fn scanner_refuses_a_limit_of_zero() {
    assert_eq!(
        SubdomainScanner::new(pool(1), lines(&["www"]), "example.com", 2, 0).unwrap_err(),
        ConfigError::ZeroCeiling
    );
}

#[test]
fn scan_refuses_empty_pool_empty_candidates_and_zero_ceiling() {
    let new = |labels: &[&str], resolvers: usize, ceiling: usize| {
        Scan::new(lines(labels), "x.org".to_string(), resolvers, AssignmentPolicy::RoundRobin, ceiling, 1)
            .map(|_| ())
    };
    assert_eq!(new(&["a"], 0, 1), Err(ConfigError::NoResolvers));
    assert_eq!(new(&[], 0, 0), Err(ConfigError::NoResolvers));
    assert_eq!(new(&[], 1, 1), Err(ConfigError::NoCandidates));
    assert_eq!(new(&[], 1, 0), Err(ConfigError::NoCandidates));
    assert_eq!(new(&["a"], 1, 0), Err(ConfigError::ZeroCeiling));
    assert_eq!(new(&["a"], 1, 1), Ok(()));
}

#[test]
fn single_positive_answer_resolves_once_in_any_timing() {
    for winner in 0..3usize {
        for first in 0..3usize {
            let mut scan = full_pool_scan(&["a.example.com"], 3, 1);
            started(scan.admit_checked(true));
            let mut order = vec![first];
            order.extend((0..3).filter(|r| *r != first));
            for r in order {
                let _ = scan.on_answer(0, r, r == winner);
            }
            assert!(scan.is_finished());
            let report = scan.report().unwrap();
            assert_eq!(report.resolved, lines(&["a.example.com"]));
            assert_eq!(report.total_scanned, 1);
            assert_eq!(report.resolvers_used, 3);
        }
    }
}

#[test]
fn all_negative_answers_leave_the_candidate_out_but_counted() {
    let mut scan = full_pool_scan(&["a.example.com", "b.example.com"], 3, 2);
    started(scan.admit_checked(true));
    started(scan.admit_checked(true));
    assert!(matches!(scan.on_answer(0, 2, false), RaceStep::Pending));
    assert!(matches!(scan.on_answer(0, 0, false), RaceStep::Pending));
    assert_eq!(scan.scanned(), 0);
    assert!(matches!(scan.on_answer(0, 1, false), RaceStep::Unresolved));
    assert_eq!(scan.scanned(), 1);
    assert_eq!(scan.in_flight(), 1);
    assert!(matches!(scan.on_answer(1, 1, true), RaceStep::Resolved { .. }));
    let report = scan.report().unwrap();
    assert_eq!(report.resolved, lines(&["b.example.com"]));
    assert_eq!(report.total_scanned, 2);
}

#[test]
fn second_positive_answer_is_discarded() {
    let mut scan = full_pool_scan(&["a.example.com"], 2, 1);
    started(scan.admit_checked(true));
    match scan.on_answer(0, 1, true) {
        RaceStep::Resolved { name, cancel } => {
            assert_eq!(name, "a.example.com");
            assert_eq!(cancel, vec![0]);
        }
        other => panic!("expected a resolved candidate, got {:?}", other),
    }
    assert!(matches!(scan.on_answer(0, 0, true), RaceStep::Discarded));
    assert!(matches!(scan.on_answer(0, 1, true), RaceStep::Discarded));
    let report = scan.report().unwrap();
    assert_eq!(report.resolved, lines(&["a.example.com"]));
    assert_eq!(report.total_scanned, 1);
}

#[test]
fn answers_for_unknown_jobs_and_resolvers_are_discarded() {
    let mut scan = full_pool_scan(&["a.example.com", "b.example.com"], 2, 1);
    assert!(matches!(scan.on_answer(0, 0, true), RaceStep::Discarded));
    started(scan.admit_checked(true));
    assert!(matches!(scan.on_answer(1, 0, true), RaceStep::Discarded));
    assert!(matches!(scan.on_answer(7, 0, true), RaceStep::Discarded));
    assert!(matches!(scan.on_answer(0, 2, true), RaceStep::Discarded));
    assert!(matches!(scan.on_answer(0, 0, false), RaceStep::Pending));
    assert!(matches!(scan.on_answer(0, 0, false), RaceStep::Discarded));
    assert!(matches!(scan.on_answer(0, 0, true), RaceStep::Discarded));
    assert_eq!(scan.in_flight(), 1);
    assert_eq!(scan.scanned(), 0);
}

#[test]
fn ceiling_is_never_exceeded() {
    let labels: Vec<String> = (0..10).map(|i| format!("h{}.example.com", i)).collect();
    let mut scan =
        Scan::new(labels, String::new(), 2, AssignmentPolicy::RoundRobin, 3, 1).unwrap();
    let mut running: Vec<Job> = Vec::new();
    let mut peak = 0;
    while !scan.is_finished() {
        loop {
            match scan.admit_checked(true) {
                Admission::Started(job) => running.push(job),
                Admission::Refused => break,
                Admission::Skipped { .. } => panic!("every name can be queried"),
            }
            assert!(scan.in_flight() <= 3);
        }
        peak = peak.max(scan.in_flight());
        assert_eq!(scan.in_flight(), running.len());
        let job = running.remove(0);
        assert_eq!(job.resolvers, vec![job.candidate % 2]);
        let positive = job.candidate % 3 == 0;
        let _ = scan.on_answer(job.candidate, job.resolvers[0], positive);
    }
    assert_eq!(peak, 3);
    let report = scan.report().unwrap();
    assert_eq!(report.total_scanned, 10);
    assert_eq!(
        report.resolved,
        lines(&["h0.example.com", "h3.example.com", "h6.example.com", "h9.example.com"])
    );
}

#[test]
fn resolved_names_come_in_the_order_of_winning() {
    let mut scan = full_pool_scan(&["a.org", "b.org", "c.org"], 1, 3);
    started(scan.admit_checked(true));
    started(scan.admit_checked(true));
    started(scan.admit_checked(true));
    assert!(matches!(scan.on_answer(2, 0, true), RaceStep::Resolved { .. }));
    assert!(matches!(scan.on_answer(0, 0, true), RaceStep::Resolved { .. }));
    assert!(matches!(scan.on_answer(1, 0, false), RaceStep::Unresolved));
    let report = scan.report().unwrap();
    assert_eq!(report.resolved, lines(&["c.org", "a.org"]));
    assert_eq!(report.total_scanned, 3);
    assert_eq!(report.resolvers_used, 1);
}

#[test]
fn a_name_that_cannot_be_queried_is_counted_unresolved() {
    let mut scan = full_pool_scan(&["bad name.example.com", "ok.example.com"], 2, 1);
    assert!(matches!(scan.admit_next(), Admission::Skipped { candidate: 0 }));
    assert_eq!(scan.scanned(), 1);
    assert_eq!(scan.in_flight(), 0);
    let job = started(scan.admit_next());
    assert_eq!(job.candidate, 1);
    assert!(matches!(scan.on_answer(1, 0, true), RaceStep::Resolved { .. }));
    let report = scan.report().unwrap();
    assert_eq!(report.resolved, lines(&["ok.example.com"]));
    assert_eq!(report.total_scanned, 2);
}

#[test]
fn a_skipped_candidate_still_waits_for_a_free_permit() {
    let mut scan = full_pool_scan(&["a.org", "b.org"], 1, 1);
    started(scan.admit_checked(true));
    assert!(matches!(scan.admit_checked(false), Admission::Refused));
    assert_eq!(scan.scanned(), 0);
    assert!(matches!(scan.on_answer(0, 0, false), RaceStep::Unresolved));
    assert!(matches!(scan.admit_checked(false), Admission::Skipped { candidate: 1 }));
    assert!(scan.is_finished());
    assert_eq!(scan.report().unwrap().resolved, Vec::<String>::new());
}

#[test]
fn queryable_names_are_those_the_parser_accepts() {
    assert!(is_queryable("a.example.com"));
    assert!(is_queryable("_sip._tcp.example.com"));
    assert!(!is_queryable("bad name.example.com"));
    assert!(!is_queryable("tab\there.example.com"));
    assert!(!is_queryable(&format!("{}.example.com", "a".repeat(64))));
}

#[test]
fn replay_applies_events_in_order() {
    let mut scan = full_pool_scan(&["a.org", "b.org", "c.org"], 2, 2);
    scan.replay(&vec![
        Event::Admit { queryable: true },
        Event::Admit { queryable: true },
        Event::Admit { queryable: true },
        Event::Answer { candidate: 1, resolver: 0, positive: true },
        Event::Answer { candidate: 1, resolver: 1, positive: true },
        Event::Admit { queryable: false },
        Event::Answer { candidate: 0, resolver: 1, positive: false },
        Event::Answer { candidate: 0, resolver: 0, positive: false },
    ]);
    assert!(scan.is_finished());
    assert_eq!(
        scan.report(),
        Some(Report { resolved: lines(&["b.org"]), total_scanned: 3, resolvers_used: 2 })
    );
}

#[test]
fn governor_hands_out_no_more_permits_than_it_holds() {
    assert!(Governor::new(0).is_none());
    let mut g = Governor::new(2).unwrap();
    assert_eq!(g.limit(), 2);
    assert_eq!(g.in_flight(), 0);
    assert!(g.try_acquire());
    assert!(g.try_acquire());
    assert!(!g.try_acquire());
    assert_eq!(g.in_flight(), 2);
    g.release();
    assert_eq!(g.in_flight(), 1);
    assert!(g.try_acquire());
    assert!(!g.try_acquire());
    let w = Governor::with_ceiling(1);
    assert_eq!(w.limit(), 1);
}

#[test]
fn resolvers_are_assigned_by_policy() {
    assert_eq!(assign(AssignmentPolicy::RoundRobin, 3, 0), vec![0]);
    assert_eq!(assign(AssignmentPolicy::RoundRobin, 3, 4), vec![1]);
    assert_eq!(assign(AssignmentPolicy::RoundRobin, 1, 9), vec![0]);
    assert_eq!(assign(AssignmentPolicy::FullPool, 3, 4), vec![0, 1, 2]);
    assert_eq!(assign(AssignmentPolicy::FullPool, 1, 0), vec![0]);
}

#[test]
fn race_verdicts_follow_the_answers() {
    let mut race = Race::start(AssignmentPolicy::FullPool, 3, 5);
    assert_eq!(race.candidate(), 5);
    assert_eq!(race.pending(), &vec![0, 1, 2]);
    assert_eq!(race.answer(3, true), Verdict::Discarded);
    assert_eq!(race.answer(1, false), Verdict::Running);
    assert_eq!(race.pending(), &vec![0, 2]);
    assert_eq!(race.answer(1, true), Verdict::Discarded);
    assert_eq!(race.answer(2, false), Verdict::Running);
    assert_eq!(race.answer(0, false), Verdict::Lost);
    assert_eq!(race.pending(), &Vec::<usize>::new());

    let mut race = Race::start(AssignmentPolicy::FullPool, 3, 0);
    assert_eq!(race.answer(1, true), Verdict::Won);
    assert_eq!(race.into_pending(), vec![0, 2]);
}

#[test]
fn jobs_carry_the_timeout_and_the_record_type() {
    let scanner = SubdomainScanner::new(pool(1), lines(&["www"]), "example.com", 9, 1).unwrap();
    assert_eq!(scanner.record_type(), DnsRecordType::A);
    let job = started(scanner.scan().admit_next());
    assert_eq!(job.timeout_secs, 9);
    assert_eq!(job.record_type, DnsRecordType::A);

    let scanner = scanner.with_record_type(DnsRecordType::AAAA);
    assert_eq!(scanner.record_type(), DnsRecordType::AAAA);
    let job = started(scanner.scan().admit_next());
    assert_eq!(job.record_type, DnsRecordType::AAAA);
    assert_eq!(job.name, "www.example.com");

    let mut scan = full_pool_scan(&["a.org"], 1, 1).with_record_type(DnsRecordType::TXT);
    let job = started(scan.admit_checked(true));
    assert_eq!(job.record_type, DnsRecordType::TXT);
    assert_eq!(job.timeout_secs, 2);
}
