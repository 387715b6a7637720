use files_core::models::FileEntry;
use files_core::state::sorting::{key_precedes, sort_entries};

fn file(name: &str) -> FileEntry {
    FileEntry { name: name.into(), path: name.into(), is_dir: false }
}

fn dir(name: &str) -> FileEntry {
    FileEntry { name: name.into(), path: name.into(), is_dir: true }
}

fn names(entries: &[FileEntry]) -> Vec<String> {
    entries.iter().map(|e| e.name.clone()).collect()
}

#[test]
fn directories_come_before_files() {
    let mut entries = vec![
        FileEntry {
            name: "b.txt".into(),
            path: String::from("b.txt"),
            is_dir: false,
        },
        FileEntry {
            name: "a_dir".into(),
            path: String::from("a_dir"),
            is_dir: true,
        },
    ];

    sort_entries(&mut entries);

    assert!(entries[0].is_dir);
}

#[test]
fn case_insensitive_sorting() {
    let mut entries = vec![
        FileEntry {
            name: "b.txt".into(),
            path: String::from("b.txt"),
            is_dir: false,
        },
        FileEntry {
            name: "A.txt".into(),
            path: String::from("A.txt"),
            is_dir: false,
        },
    ];

    sort_entries(&mut entries);

    assert_eq!(entries[0].name, "A.txt");
}

#[test]
fn directory_with_later_name_still_comes_first() {
    let mut entries = vec![file("b.txt"), dir("A_dir")];

    sort_entries(&mut entries);

    assert_eq!(names(&entries), vec!["A_dir", "b.txt"]);
    assert!(entries[0].is_dir);
    assert!(!entries[1].is_dir);
}

#[test]
fn upper_case_name_sorts_by_its_folded_form() {
    // By code point "B.txt" is less than "a.txt"; folded, it is greater.
    let mut entries = vec![file("B.txt"), file("a.txt")];

    sort_entries(&mut entries);

    assert_eq!(names(&entries), vec!["a.txt", "B.txt"]);
}

#[test]
fn names_that_tie_keep_their_order() {
    let mut entries = vec![
        FileEntry { name: "README".into(), path: "first".into(), is_dir: false },
        FileEntry { name: "readme".into(), path: "second".into(), is_dir: false },
        FileEntry { name: "ReadMe".into(), path: "third".into(), is_dir: false },
        FileEntry { name: "alpha".into(), path: "fourth".into(), is_dir: false },
    ];

    sort_entries(&mut entries);

    assert_eq!(names(&entries), vec!["alpha", "README", "readme", "ReadMe"]);
    let paths: Vec<String> = entries.iter().map(|e| e.path.clone()).collect();
    assert_eq!(paths, vec!["fourth", "first", "second", "third"]);
}

#[test]
fn ties_in_reverse_keep_their_order() {
    let mut entries = vec![
        FileEntry { name: "readme".into(), path: "first".into(), is_dir: false },
        FileEntry { name: "README".into(), path: "second".into(), is_dir: false },
    ];

    sort_entries(&mut entries);

    assert_eq!(names(&entries), vec!["readme", "README"]);
}

#[test]
fn mixed_listing_is_grouped_and_ordered() {
    let mut entries = vec![
        file("zebra.txt"),
        dir("src"),
        file("Cargo.toml"),
        dir("Docs"),
        file("apple.rs"),
        dir("assets"),
        file("Banana"),
    ];

    sort_entries(&mut entries);

    assert_eq!(
        names(&entries),
        vec!["assets", "Docs", "src", "apple.rs", "Banana", "Cargo.toml", "zebra.txt"]
    );
    let kinds: Vec<bool> = entries.iter().map(|e| e.is_dir).collect();
    assert_eq!(kinds, vec![true, true, true, false, false, false, false]);
}

#[test]
fn sorting_keeps_every_entry() {
    let mut entries = vec![file("c"), file("a"), dir("c"), file("a"), file("b")];

    sort_entries(&mut entries);

    assert_eq!(entries.len(), 5);
    assert_eq!(names(&entries), vec!["c", "a", "a", "b", "c"]);
    assert!(entries[0].is_dir);
}

#[test]
fn sorting_nothing_and_one_entry() {
    let mut none: Vec<FileEntry> = vec![];
    sort_entries(&mut none);
    assert!(none.is_empty());

    let mut one = vec![file("only")];
    sort_entries(&mut one);
    assert_eq!(names(&one), vec!["only"]);
}

#[test]
fn sorted_listing_stays_as_it_is() {
    let mut entries = vec![dir("a"), dir("b"), file("a"), file("b")];

    sort_entries(&mut entries);

    assert_eq!(names(&entries), vec!["a", "b", "a", "b"]);
    assert!(entries[1].is_dir);
    assert!(!entries[2].is_dir);
}

#[test]
fn reversed_listing_is_put_in_order() {
    let mut entries = vec![file("e"), file("d"), file("c"), file("b"), file("a")];

    sort_entries(&mut entries);

    assert_eq!(names(&entries), vec!["a", "b", "c", "d", "e"]);
}

#[test]
fn shorter_name_comes_before_its_extension() {
    let mut entries = vec![file("notes.txt"), file("notes"), file("note")];

    sort_entries(&mut entries);

    assert_eq!(names(&entries), vec!["note", "notes", "notes.txt"]);
}

#[test]
fn names_beyond_ascii_fold_too() {
    let mut entries = vec![file("Éclair"), file("zoo"), file("école")];

    sort_entries(&mut entries);

    // 'é' (U+00E9) follows every ASCII letter; "éclair" < "école".
    assert_eq!(names(&entries), vec!["zoo", "Éclair", "école"]);
}

#[test]
fn key_precedes_puts_directories_first() {
    assert!(key_precedes(true, "zzz", false, "aaa"));
    assert!(!key_precedes(false, "aaa", true, "zzz"));
}

#[test]
fn key_precedes_compares_names_within_a_kind() {
    assert!(key_precedes(true, "a", true, "b"));
    assert!(!key_precedes(true, "b", true, "a"));
    assert!(key_precedes(false, "a", false, "b"));
    assert!(!key_precedes(false, "b", false, "a"));
    assert!(!key_precedes(false, "same", false, "same"));
    assert!(!key_precedes(true, "same", true, "same"));
}

#[test]
fn agrees_with_a_stable_sort_by_kind_and_folded_name() {
    let letters = ['a', 'A', 'b', 'B', 'c', 'é', 'É', 'z', '_', '1'];
    let mut seed: u64 = 0x2545_f491_4f6c_dd1d;
    let mut next = move || {
        seed = seed.wrapping_mul(6364136223846793005).wrapping_add(1442695040888963407);
        (seed >> 33) as usize
    };
    for round in 0..60 {
        let count = next() % 40;
        let mut entries = Vec::new();
        for place in 0..count {
            let length = next() % 4;
            let name: String = (0..length).map(|_| letters[next() % letters.len()]).collect();
            entries.push(FileEntry {
                name,
                path: format!("{}/{}", round, place),
                is_dir: next() % 3 == 0,
            });
        }
        let mut expected = entries.clone();
        expected.sort_by(|a, b| match (a.is_dir, b.is_dir) {
            (true, false) => std::cmp::Ordering::Less,
            (false, true) => std::cmp::Ordering::Greater,
            _ => a.name.to_lowercase().cmp(&b.name.to_lowercase()),
        });

        sort_entries(&mut entries);

        let got: Vec<&str> = entries.iter().map(|e| e.path.as_str()).collect();
        let want: Vec<&str> = expected.iter().map(|e| e.path.as_str()).collect();
        assert_eq!(got, want, "round {}", round);
    }
}

#[test]
fn a_long_listing_is_sorted() {
    let mut entries: Vec<FileEntry> = (0..2000)
        .map(|i| FileEntry {
            name: format!("entry{:04}", (i * 7919) % 2000),
            path: format!("{}", i),
            is_dir: i % 2 == 0,
        })
        .collect();

    sort_entries(&mut entries);

    assert_eq!(entries.len(), 2000);
    for pair in entries.windows(2) {
        let (a, b) = (&pair[0], &pair[1]);
        assert!(a.is_dir || !b.is_dir);
        if a.is_dir == b.is_dir {
            assert!(a.name <= b.name);
        }
    }
    assert_eq!(entries[0].name, "entry0000");
    assert!(entries[999].is_dir);
    assert!(!entries[1000].is_dir);
}
