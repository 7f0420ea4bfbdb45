use image_upload::decimal::decimal_string;
use image_upload::extension::Extension;
use image_upload::filename::{
    candidate_name, get_filename, is_listed, make_safe, resolve, stem_of, stem_or_empty_of,
};

fn listing(names: &[&str]) -> Vec<String> {
    names.iter().map(|n| n.to_string()).collect()
}

#[test]
fn decimal_of_small_and_large_numbers() {
    assert_eq!(decimal_string(0), "0");
    assert_eq!(decimal_string(7), "7");
    assert_eq!(decimal_string(9), "9");
    assert_eq!(decimal_string(10), "10");
    assert_eq!(decimal_string(99), "99");
    assert_eq!(decimal_string(100), "100");
    assert_eq!(decimal_string(1234567890), "1234567890");
    assert_eq!(decimal_string(u64::MAX), "18446744073709551615");
}

#[test]
fn decimal_agrees_with_the_standard_library() {
    let mut n: u64 = 0;
    while n < 5000 {
        assert_eq!(decimal_string(n), n.to_string());
        n += 1;
    }
}

#[test]
fn stem_is_what_stands_before_the_last_dot() {
    assert_eq!(stem_of("photo.jpeg"), Some("photo".to_string()));
    assert_eq!(stem_of("a.b.c"), Some("a.b".to_string()));
    assert_eq!(stem_of("a."), Some("a".to_string()));
    assert_eq!(stem_of("a.."), Some("a.".to_string()));
    assert_eq!(stem_of("..a"), Some(".".to_string()));
}

#[test]
fn stem_of_a_name_without_extension_is_the_name() {
    assert_eq!(stem_of("photo"), Some("photo".to_string()));
    assert_eq!(stem_of(".hidden"), Some(".hidden".to_string()));
    assert_eq!(stem_of("..."), Some("..".to_string()));
}

#[test]
fn what_is_no_file_name_has_no_stem() {
    assert_eq!(stem_of(""), None);
    assert_eq!(stem_of("."), None);
    assert_eq!(stem_of(".."), None);
}

#[test]
fn stem_counts_characters_not_bytes() {
    assert_eq!(stem_of("résumé.pdf"), Some("résumé".to_string()));
    assert_eq!(stem_of("日本語.png"), Some("日本語".to_string()));
    assert_eq!(stem_of("é."), Some("é".to_string()));
}

#[test]
fn stem_agrees_with_the_standard_library() {
    let names = [
        "", ".", "..", "a", "a.b", "a.b.c", ".a", "..a", "a.", "a..", ".a.", "...", "....", " ",
        "a b.c d", "x.tar.gz", "-", "a-1.png", ". ", " .", ".. ",
    ];
    for name in names {
        let expected = std::path::Path::new(name)
            .file_stem()
            .map(|s| s.to_str().unwrap().to_string());
        assert_eq!(stem_of(name), expected);
    }
}

#[test]
fn first_candidate_has_no_counter() {
    assert_eq!(candidate_name("a", Extension::Jpg, 0), "a.jpg");
    assert_eq!(candidate_name("a", Extension::Png, 0), "a.png");
    assert_eq!(candidate_name("", Extension::Png, 0), ".png");
}

#[test]
fn later_candidates_count_from_one() {
    assert_eq!(candidate_name("a", Extension::Png, 1), "a-1.png");
    assert_eq!(candidate_name("a", Extension::Png, 2), "a-2.png");
    assert_eq!(candidate_name("a", Extension::Jpg, 12), "a-12.jpg");
    assert_eq!(candidate_name("a-1", Extension::Jpg, 1), "a-1-1.jpg");
}

#[test]
fn the_counter_does_not_wrap() {
    assert_eq!(candidate_name("a", Extension::Png, 127), "a-127.png");
    assert_eq!(candidate_name("a", Extension::Png, 128), "a-128.png");
    assert_eq!(candidate_name("a", Extension::Png, 256), "a-256.png");
    assert_eq!(
        candidate_name("a", Extension::Png, u64::MAX),
        "a-18446744073709551615.png"
    );
}

#[test]
fn listing_is_searched_for_the_whole_name() {
    let existing = listing(&["a.png", "b.jpg"]);
    assert!(is_listed(&existing, &"a.png".to_string()));
    assert!(is_listed(&existing, &"b.jpg".to_string()));
    assert!(!is_listed(&existing, &"a.pn".to_string()));
    assert!(!is_listed(&existing, &"a.png ".to_string()));
    assert!(!is_listed(&existing, &"A.png".to_string()));
    assert!(!is_listed(&Vec::new(), &"a.png".to_string()));
}

#[test]
fn free_name_is_kept() {
    assert_eq!(resolve("a", Extension::Png, &Vec::new()), "a.png");
    assert_eq!(resolve("a", Extension::Png, &listing(&["b.png", "a.jpg", "a-1.png"])), "a.png");
}

#[test]
fn taken_name_gets_the_first_free_counter() {
    assert_eq!(resolve("a", Extension::Png, &listing(&["a.png"])), "a-1.png");
    assert_eq!(resolve("a", Extension::Png, &listing(&["a-1.png", "a.png"])), "a-2.png");
    assert_eq!(
        resolve("a", Extension::Png, &listing(&["a.png", "a-1.png", "a-3.png"])),
        "a-2.png"
    );
    assert_eq!(
        resolve("a", Extension::Png, &listing(&["a.png", "a.png", "a.png"])),
        "a-1.png"
    );
}

#[test]
fn counter_goes_past_the_range_of_a_byte() {
    let mut existing = vec!["a.png".to_string()];
    let mut n: u32 = 1;
    while n <= 300 {
        existing.push(format!("a-{}.png", n));
        n += 1;
    }
    assert_eq!(resolve("a", Extension::Png, &existing), "a-301.png");
}

#[test]
fn extension_is_replaced_by_the_accepted_one() {
    let none: Vec<String> = Vec::new();
    assert_eq!(get_filename("photo.jpeg", Extension::Jpg, false, &none), "photo.jpg");
    assert_eq!(get_filename("photo.gif", Extension::Png, false, &none), "photo.png");
    assert_eq!(get_filename("photo", Extension::Png, false, &none), "photo.png");
    assert_eq!(get_filename("archive.tar.gz", Extension::Png, false, &none), "archive.tar.png");
    assert_eq!(get_filename("résumé.jpeg", Extension::Jpg, false, &none), "résumé.jpg");
}

#[test]
fn separators_are_taken_out_of_the_name() {
    let none: Vec<String> = Vec::new();
    assert_eq!(get_filename("a/b\\c.jpg", Extension::Png, false, &none), "abc.png");
    assert_eq!(get_filename("/etc/passwd", Extension::Png, false, &none), "etcpasswd.png");
    assert_eq!(get_filename("C:\\temp\\x.png", Extension::Png, false, &none), "Ctempx.png");
}

#[test]
fn traversal_does_not_leave_the_directory() {
    let none: Vec<String> = Vec::new();
    let names = [
        "../../etc/passwd",
        "..\\..\\boot.ini",
        "../a.png",
        "./../x",
        "a/../../b.jpg",
        "/..//../c",
        "....//....//d.png",
    ];
    for name in names {
        for windows in [false, true] {
            let stored = get_filename(name, Extension::Png, windows, &none);
            assert!(!stored.contains('/'));
            assert!(!stored.contains('\\'));
            assert_ne!(stored, ".");
            assert_ne!(stored, "..");
            assert!(stored.ends_with(".png"));
            let joined = std::path::Path::new("/srv/images").join(&stored);
            assert_eq!(joined.parent(), Some(std::path::Path::new("/srv/images")));
        }
    }
    assert_eq!(get_filename("../../etc/passwd", Extension::Png, false, &none), "....png");
    assert_eq!(get_filename("../a.png", Extension::Png, false, &none), "..a.png");
}

#[test]
fn control_and_reserved_characters_are_taken_out() {
    let none: Vec<String> = Vec::new();
    assert_eq!(get_filename("a\u{0}b\nc.png", Extension::Png, false, &none), "abc.png");
    assert_eq!(get_filename("a\u{85}b.png", Extension::Png, false, &none), "ab.png");
    assert_eq!(get_filename("w?h<a>t:*|\".png", Extension::Png, false, &none), "what.png");
}

#[test]
fn long_name_is_cut_before_the_extension_is_added() {
    let none: Vec<String> = Vec::new();
    let long = "a".repeat(300) + ".png";
    let stored = get_filename(&long, Extension::Png, false, &none);
    assert_eq!(stored, "a".repeat(255) + ".png");
}

#[test]
fn windows_rules_apply_where_asked_for() {
    let none: Vec<String> = Vec::new();
    assert_eq!(get_filename("name .", Extension::Png, false, &none), "name .png");
    assert_eq!(get_filename("name .", Extension::Png, true, &none), "name.png");
    assert_eq!(get_filename("con.txt", Extension::Png, false, &none), "con.png");
    assert_eq!(get_filename("con.txt", Extension::Png, true, &none), ".png");
    assert_eq!(get_filename("nul", Extension::Jpg, true, &none), ".jpg");
}

#[test]
fn name_of_which_nothing_is_left_is_stored_under_the_empty_stem() {
    let none: Vec<String> = Vec::new();
    for name in ["", ".", "..", "...", "/", "//", "../", "?", "\u{1}", "::::"] {
        assert_eq!(get_filename(name, Extension::Png, false, &none), ".png");
        assert_eq!(get_filename(name, Extension::Jpg, true, &none), ".jpg");
    }
}

#[test]
fn parent_directory_in_an_empty_directory_is_stored_inside() {
    let stored = get_filename("..", Extension::Png, false, &Vec::new());
    assert!(stored.ends_with(".png"));
    assert!(!stored.contains('/'));
    assert!(!stored.contains('\\'));
    assert_ne!(stored, "..");
    assert_eq!(stored, ".png");
}

#[test]
fn empty_stem_is_counted_like_any_other() {
    let mut directory: Vec<String> = Vec::new();
    let first = get_filename("..", Extension::Png, false, &directory);
    directory.push(first.clone());
    let second = get_filename("/", Extension::Png, false, &directory);
    directory.push(second.clone());
    let third = get_filename("", Extension::Png, false, &directory);
    assert_eq!(first, ".png");
    assert_eq!(second, "-1.png");
    assert_eq!(third, "-2.png");
    assert_eq!(get_filename("..", Extension::Jpg, false, &directory), ".jpg");
}

#[test]
fn every_stored_name_is_a_direct_child_of_the_directory() {
    let names = [
        "", ".", "..", "../", "/", "?", "::::", "con", "nul.txt", "a/../b", "\u{0}", "\u{9f}",
        "\u{7f}", ".\u{7f}.", "a\u{7f}/\u{7f}b",
        "..\\..", "C:\\x", "a.png", " ", ". .",
    ];
    let existing = listing(&[".png", "a.png", "-1.png"]);
    for name in names {
        for windows in [false, true] {
            for ext in [Extension::Png, Extension::Jpg] {
                let stored = get_filename(name, ext, windows, &existing);
                assert!(!stored.is_empty());
                assert!(!stored.contains('/'));
                assert!(!stored.contains('\\'));
                assert!(!stored.contains(':'));
                assert!(!stored.chars().any(|c| (c as u32) < 0x20));
                assert!(!stored.contains('\u{7f}'));
                assert!(!stored.chars().any(|c| (0x80..=0x9f).contains(&(c as u32))));
                assert_ne!(stored, ".");
                assert_ne!(stored, "..");
                assert!(!existing.contains(&stored));
                let joined = std::path::Path::new("/srv/images").join(&stored);
                assert_eq!(joined.parent(), Some(std::path::Path::new("/srv/images")));
                assert_eq!(joined.file_name().and_then(|n| n.to_str()), Some(stored.as_str()));
            }
        }
    }
}

#[test]
fn stem_of_what_is_no_file_name_is_empty() {
    assert_eq!(stem_or_empty_of(""), "");
    assert_eq!(stem_or_empty_of("."), "");
    assert_eq!(stem_or_empty_of(".."), "");
    assert_eq!(stem_or_empty_of("a.b"), "a");
    assert_eq!(stem_or_empty_of(".a"), ".a");
    assert_eq!(stem_or_empty_of("..."), "..");
}

#[test]
fn name_of_which_something_is_left_is_stored() {
    let existing = listing(&["a.png"]);
    assert_eq!(get_filename("a.gif", Extension::Png, false, &existing), "a-1.png");
    assert_eq!(get_filename("/a", Extension::Jpg, false, &existing), "a.jpg");
}

#[test]
fn same_upload_twice_is_stored_under_two_names() {
    let mut directory: Vec<String> = Vec::new();
    let first = get_filename("a.png", Extension::Png, false, &directory);
    directory.push(first.clone());
    let second = get_filename("a.png", Extension::Png, false, &directory);
    directory.push(second.clone());
    let third = get_filename("a.png", Extension::Png, false, &directory);
    assert_eq!(first, "a.png");
    assert_eq!(second, "a-1.png");
    assert_eq!(third, "a-2.png");
}

#[test]
fn stored_name_is_never_one_of_the_listing() {
    let existing = listing(&["x.jpg", "x-1.jpg", "x-2.jpg", "x-4.jpg", "y.jpg"]);
    for name in ["x.png", "x", "x.jpg", "y.gif", "z", "x-1.bmp", "x-4"] {
        let stored = get_filename(name, Extension::Jpg, false, &existing);
        assert!(!existing.contains(&stored));
    }
    assert_eq!(get_filename("x-1.bmp", Extension::Jpg, false, &existing), "x-1-1.jpg");
}

#[test]
fn delete_character_is_taken_out_with_the_other_controls() {
    let none: Vec<String> = Vec::new();
    assert_eq!(make_safe("a\u{7f}b.png", false), "ab.png");
    assert_eq!(make_safe("\u{7f}", false), "");
    assert_eq!(make_safe("\u{7f}\u{7f}x\u{7f}", true), "x");
    assert_eq!(make_safe("a\u{7e}b", false), "a~b");
    assert_eq!(get_filename("a\u{7f}b.gif", Extension::Png, false, &none), "ab.png");
    assert_eq!(get_filename(".\u{7f}.", Extension::Png, false, &none), ".png");
    assert_eq!(get_filename("\u{7f}", Extension::Jpg, false, &none), ".jpg");
}

#[test]
fn safe_name_is_what_the_sanitizer_leaves() {
    assert_eq!(make_safe("a/b\\c?.png", false), "abc.png");
    assert_eq!(make_safe("..", false), "");
    assert_eq!(make_safe("name .", true), "name");
    assert_eq!(make_safe("name .", false), "name .");
    assert_eq!(make_safe("résumé.pdf", false), "résumé.pdf");
    assert_eq!(make_safe("日本語\u{7f}.png", false), "日本語.png");
}
