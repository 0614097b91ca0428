use silvus::text::chars_of;
use silvus::utils::{
    datetime_to_path_string, datetime_to_pretty_string, get_extension, get_filename, get_filestem,
    get_rel_path_string, split, DateTime,
};
use std::path::{Component, Path};

#[test]
fn filename_is_the_last_segment() {
    assert_eq!(get_filename("/lib/Show/S01E01.mkv"), "S01E01.mkv");
    assert_eq!(get_filename("S01E01.mkv"), "S01E01.mkv");
    assert_eq!(get_filename("/lib/Show/"), "Show");
    assert_eq!(get_filename("/lib/Show//"), "Show");
    assert_eq!(get_filename("C:\\lib\\Show\\a.mkv"), "a.mkv");
    assert_eq!(get_filename("/"), "");
    assert_eq!(get_filename(""), "");
}

#[test]
fn filename_leaves_out_what_stands_for_nothing() {
    assert_eq!(get_filename("/lib/F/."), "F");
    assert_eq!(get_filename("/lib/F/./"), "F");
    assert_eq!(get_filename("/lib/F/.."), "");
    assert_eq!(get_filename("/lib/F/../"), "");
    assert_eq!(get_filename("."), "");
    assert_eq!(get_filename(".."), "");
    assert_eq!(get_filename("a/./b"), "b");
    assert_eq!(get_filename("/lib/..."), "...");
    assert_eq!(get_filename("/lib/..a"), "..a");
    assert_eq!(get_filestem("/lib/F/.."), "");
    assert_eq!(get_extension("/lib/F/.."), "");
    assert_eq!(get_filestem("/lib/a.b/."), "a");
    assert_eq!(get_extension("/lib/a.B/."), "b");
}

#[test]
fn filename_is_what_std_takes_for_it() {
    for path in [
        "", "/", "a", "/a", "a/", "/a/b", "/a/b/", "/a//b", "/a/b/.", "/a/b/./", "/a/b/..", "..",
        ".", "/.", "/..", "a/./b", "/a/.b", "/a/b.c", "/a/...", "/a/..b", "//a", "/a/b//",
        "/a/./.", "/a/ b ",
    ] {
        let expected = Path::new(path).file_name().map(|n| n.to_str().unwrap()).unwrap_or("");
        assert_eq!(get_filename(path), expected, "{path:?}");
    }
}

#[test]
fn path_is_split_into_its_segments() {
    let text = |path: &str| -> Vec<String> {
        let chars = chars_of(path);
        split(&chars).iter().map(|&(from, to)| chars[from..to].iter().collect()).collect()
    };
    assert_eq!(text("/lib//Movie A/./movie.mkv/"), vec!["lib", "Movie A", "movie.mkv"]);
    assert_eq!(text("a\\b/..\\c"), vec!["a", "b", "..", "c"]);
    assert_eq!(text("./."), Vec::<String>::new());
    assert_eq!(text(""), Vec::<String>::new());
    assert_eq!(text("///"), Vec::<String>::new());
    assert_eq!(text(".a/b."), vec![".a", "b."]);
}

#[test]
fn filestem_is_the_name_without_its_extension() {
    assert_eq!(get_filestem("/lib/Show/S01E01.mkv"), "S01E01");
    assert_eq!(get_filestem("/lib/a.tar.gz"), "a.tar");
    assert_eq!(get_filestem("/lib/.title"), ".title");
    assert_eq!(get_filestem("/lib/.title.txt"), ".title");
    assert_eq!(get_filestem("/lib/Movie A"), "Movie A");
    assert_eq!(get_filestem("/lib/name."), "name");
    assert_eq!(get_filestem("/lib/the.matrix/"), "the");
    assert_eq!(get_filestem(""), "");
}

#[test]
fn extension_is_lower_cased() {
    assert_eq!(get_extension("/lib/Show/S01E01.MKV"), "mkv");
    assert_eq!(get_extension("/lib/Show/S01E01.Mp4"), "mp4");
    assert_eq!(get_extension("/lib/a.tar.gz"), "gz");
    assert_eq!(get_extension("/lib/.title"), "");
    assert_eq!(get_extension("/lib/.title.TXT"), "txt");
    assert_eq!(get_extension("/lib/noext"), "");
    assert_eq!(get_extension("/lib/name."), "");
    assert_eq!(get_extension("/lib.d/noext"), "");
    assert_eq!(get_extension("/lib/\u{c9}.\u{c9}X"), "\u{c9}x");
}

#[test]
fn relative_path_is_seen_from_the_base() {
    assert_eq!(get_rel_path_string("/lib/Movie A/movie.mkv", "/lib"), Some("Movie A/movie.mkv".to_string()));
    assert_eq!(get_rel_path_string("/lib/Movie A/movie.mkv", "/lib/"), Some("Movie A/movie.mkv".to_string()));
    assert_eq!(get_rel_path_string("/lib//a.mkv", "/lib"), Some("a.mkv".to_string()));
    assert_eq!(get_rel_path_string("/lib", "/lib"), Some(String::new()));
    assert_eq!(get_rel_path_string("a/b", ""), Some("a/b".to_string()));
    assert_eq!(get_rel_path_string("/a/b", "/"), Some("a/b".to_string()));
    assert_eq!(get_rel_path_string("/lib/a/b/c.mkv", "/lib/a"), Some("b/c.mkv".to_string()));
}

#[test]
fn base_is_taken_by_its_segments() {
    assert_eq!(get_rel_path_string("/lib/x", "/lib//"), Some("x".to_string()));
    assert_eq!(get_rel_path_string("/lib/x", "/lib/."), Some("x".to_string()));
    assert_eq!(get_rel_path_string("/lib/x", "//lib/./"), Some("x".to_string()));
    assert_eq!(get_rel_path_string("/lib/./x//y/.", "/lib"), Some("x/y".to_string()));
    assert_eq!(get_rel_path_string("/lib/../x", "/lib"), Some("../x".to_string()));
    assert_eq!(get_rel_path_string("lib/x", "./lib"), Some("x".to_string()));
    assert_eq!(get_rel_path_string("/lib/x/", "/lib/x"), Some(String::new()));
    assert_eq!(get_rel_path_string("/lib/x", "/lib/x/y"), None);
    assert_eq!(get_rel_path_string("/lib/xy", "/lib/x"), None);
    assert_eq!(get_rel_path_string("/a/b", ""), None);
    assert_eq!(get_rel_path_string("a/b", "/"), None);
    assert_eq!(get_rel_path_string("/lib/x", "/lib/.."), None);
}

#[test]
fn relative_path_is_what_std_strips() {
    let stripped = |path: &str, base: &str| -> Option<String> {
        let rest = Path::new(path).strip_prefix(base).ok()?;
        let parts: Vec<&str> = rest
            .components()
            .map(|part| match part {
                Component::Normal(name) => name.to_str().unwrap(),
                Component::ParentDir => "..",
                _ => unreachable!(),
            })
            .collect();
        Some(parts.join("/"))
    };
    let paths = [
        "/lib/x", "/lib/x/", "/lib//x", "/lib/./x", "/lib", "/lib/", "/library/x", "/lib/x/y.mkv",
        "lib/x", "x", "/", "/lib/../x", "/lib/x/.", "/lib/Movie A/movie.mkv",
    ];
    let bases = ["/lib", "/lib/", "/lib//", "/lib/.", "/lib/x", "/", "lib", "/li", "/lib/x/y"];
    for path in paths {
        for base in bases {
            assert_eq!(get_rel_path_string(path, base), stripped(path, base), "{path:?} {base:?}");
        }
    }
}

#[test]
fn relative_path_has_forward_slashes() {
    assert_eq!(
        get_rel_path_string("C:\\lib\\Show\\a.mkv", "C:\\lib"),
        Some("Show/a.mkv".to_string())
    );
    assert_eq!(get_rel_path_string("/lib/a\\b.mkv", "/lib"), Some("a/b.mkv".to_string()));
}

#[test]
fn path_outside_the_base_has_no_relative_path() {
    assert_eq!(get_rel_path_string("/library/a.mkv", "/lib"), None);
    assert_eq!(get_rel_path_string("/other/a.mkv", "/lib"), None);
    assert_eq!(get_rel_path_string("/li", "/lib"), None);
    assert_eq!(get_rel_path_string("lib/a.mkv", "/lib"), None);
    assert_eq!(get_rel_path_string("/LIB/a.mkv", "/lib"), None);
}

#[test]
fn datetime_as_shown() {
    let dt = DateTime { year: 2024, month: 9, day: 3, hour: 7, minute: 5, second: 0 };
    assert_eq!(datetime_to_pretty_string(&dt), "03/09/2024 - 07:05:00");
    let dt = DateTime { year: 987, month: 12, day: 31, hour: 23, minute: 59, second: 59 };
    assert_eq!(datetime_to_pretty_string(&dt), "31/12/0987 - 23:59:59");
    let dt = DateTime { year: -5, month: 1, day: 1, hour: 0, minute: 0, second: 0 };
    assert_eq!(datetime_to_pretty_string(&dt), format!("{:0>2}/{:0>2}/{:0>4} - {:0>2}:{:0>2}:{:0>2}", 1, 1, -5, 0, 0, 0));
}

#[test]
fn datetime_in_a_file_name() {
    let dt = DateTime { year: 2024, month: 9, day: 3, hour: 7, minute: 5, second: 0 };
    assert_eq!(datetime_to_path_string(&dt), "2024_09_03-07_05_00");
    let dt = DateTime { year: 12345, month: 10, day: 20, hour: 10, minute: 10, second: 10 };
    assert_eq!(datetime_to_path_string(&dt), "12345_10_20-10_10_10");
    let dt = DateTime { year: i32::MIN, month: 255, day: 0, hour: 0, minute: 0, second: 0 };
    assert_eq!(datetime_to_path_string(&dt), "-2147483648_255_00-00_00_00");
}
