use cl::count::{Count, CountTotal};
use cl::language::Language;
use cl::pipeline::{language_totals, next_action, Action, FileCount, Work, WorkError, Worker};
use cl::sort::Sort;

fn tally(code: u32, blank: u32, comments: u32, total: u32) -> Count {
    Count { code, blank, comments, total }
}

#[test]
fn merge_adds_fields() {
    let mut a = tally(1, 2, 3, 6);
    a.merge(&tally(10, 20, 30, 60));
    assert_eq!(a, tally(11, 22, 33, 66));
}

#[test]
fn merge_with_zero_is_identity() {
    let a = tally(4, 5, 6, 15);
    let mut b = a;
    b.merge(&Count::default());
    assert_eq!(b, a);
    let mut z = Count::default();
    z.merge(&a);
    assert_eq!(z, a);
}

#[test]
fn merge_is_commutative_and_associative() {
    let a = tally(1, 2, 3, 6);
    let b = tally(7, 0, 1, 8);
    let c = tally(0, 9, 9, 18);
    let mut ab = a;
    ab.merge(&b);
    let mut ba = b;
    ba.merge(&a);
    assert_eq!(ab, ba);
    let mut ab_c = ab;
    ab_c.merge(&c);
    let mut bc = b;
    bc.merge(&c);
    let mut a_bc = a;
    a_bc.merge(&bc);
    assert_eq!(ab_c, a_bc);
}

#[test]
fn actions_for_items() {
    assert_eq!(next_action(&Work::Quit), Action::Stop);
    assert_eq!(next_action(&Work::File("a/b.go".to_string())), Action::Scan(Language::Go));
    assert_eq!(next_action(&Work::File("a/b.xyz".to_string())), Action::Skip);
    assert_eq!(next_action(&Work::File("/".to_string())), Action::NoFileName);
}

fn contents(path: &str) -> &'static [u8] {
    if path.ends_with("Makefile") {
        b"all:\n\t# build\n"
    } else if path.ends_with(".go") {
        b"package main\n\n// entry\nfunc main() {}\n"
    } else {
        b"# Title\n\ntext\n"
    }
}

#[test]
fn directory_of_three_known_files() {
    let mut w = Worker::new();
    for p in ["proj/Makefile", "proj/main.go", "proj/README.md", "proj/LICENSE"] {
        let item = Work::File(p.to_string());
        let bytes = match next_action(&item) {
            Action::Scan(_) => Some(contents(p)),
            _ => None,
        };
        w.handle(item, bytes).unwrap();
    }
    assert!(!w.stopped);
    let langs: Vec<Language> = w.file_counts.iter().map(|f| f.language).collect();
    assert_eq!(langs, vec![Language::Makefile, Language::Go, Language::Markdown]);
    assert!(w.file_counts.iter().all(|f| f.language != Language::Unknown));
    assert_eq!(w.file_counts[0].count, tally(1, 0, 1, 2));
    assert_eq!(w.file_counts[1].count, tally(2, 1, 1, 4));
    assert_eq!(w.file_counts[2].count, tally(2, 1, 0, 3));
    assert_eq!(w.file_counts[1].path, "proj/main.go");
}

#[test]
fn unreadable_file_is_recorded_with_zero_tally() {
    let mut w = Worker::new();
    w.handle(Work::File("gone.c".to_string()), None).unwrap();
    assert_eq!(w.file_counts.len(), 1);
    assert_eq!(w.file_counts[0].count, Count::default());
}

#[test]
fn quit_stops_worker_and_keeps_records() {
    let mut w = Worker::new();
    w.handle(Work::File("a.c".to_string()), Some(&b"x;\n"[..])).unwrap();
    w.handle(Work::Quit, None).unwrap();
    assert!(w.stopped);
    assert_eq!(w.file_counts.len(), 1);
}

#[test]
fn queue_with_quit_per_worker_drains() {
    let mut queue: Vec<Work> = ["a.c", "b.rs", "c.unknown", "d.py", "e.md"]
        .iter()
        .map(|p| Work::File(p.to_string()))
        .collect();
    let workers_n = 3;
    for _ in 0..workers_n {
        queue.push(Work::Quit);
    }
    let mut workers: Vec<Worker> = (0..workers_n).map(|_| Worker::new()).collect();
    let mut turn = 0;
    for item in queue {
        while workers[turn % workers_n].stopped {
            turn += 1;
        }
        let bytes: Option<&[u8]> = match next_action(&item) {
            Action::Scan(_) => Some(&b"x\n"[..]),
            _ => None,
        };
        workers[turn % workers_n].handle(item, bytes).unwrap();
        turn += 1;
    }
    assert!(workers.iter().all(|w| w.stopped));
    let records: usize = workers.iter().map(|w| w.file_counts.len()).sum();
    assert_eq!(records, 4);
}

#[test]
fn totals_group_by_language() {
    let fcs = vec![
        FileCount { path: "a.c".to_string(), language: Language::C, count: tally(1, 1, 1, 3) },
        FileCount { path: "b.go".to_string(), language: Language::Go, count: tally(5, 0, 0, 5) },
        FileCount { path: "c.c".to_string(), language: Language::C, count: tally(2, 0, 4, 6) },
    ];
    let t = language_totals(&fcs).unwrap();
    assert_eq!(t.len(), 2);
    assert_eq!(t[0], (Language::C, CountTotal { files: 2, count: tally(3, 1, 5, 9) }));
    assert_eq!(t[1], (Language::Go, CountTotal { files: 1, count: tally(5, 0, 0, 5) }));
}

#[test]
fn totals_of_nothing_is_empty() {
    assert_eq!(language_totals(&Vec::new()).unwrap().len(), 0);
}

#[test]
fn totals_refuse_overflow() {
    let big = tally(u32::MAX, 0, 0, u32::MAX);
    let fcs = vec![
        FileCount { path: "a.c".to_string(), language: Language::C, count: big },
        FileCount { path: "b.c".to_string(), language: Language::C, count: tally(1, 0, 0, 1) },
    ];
    assert!(language_totals(&fcs).is_none());
}

#[test]
fn sort_names() {
    assert_eq!(Sort::from_name("code"), Some(Sort::Code));
    assert_eq!(Sort::from_name("Lines"), Some(Sort::Lines));
    assert_eq!(Sort::from_name("language"), Some(Sort::Language));
    assert_eq!(Sort::from_name("CODE"), None);
    assert_eq!(Sort::from_name(""), None);
}

#[test]
fn path_without_file_name_is_an_error() {
    let mut w = Worker::new();
    w.handle(Work::File("a.c".to_string()), Some(&b"x\n"[..])).unwrap();
    let r = w.handle(Work::File("src/..".to_string()), Some(&b"x\n"[..]));
    assert_eq!(r, Err(WorkError::NoFileName));
    assert_eq!(w.file_counts.len(), 1);
    assert!(!w.stopped);
}
