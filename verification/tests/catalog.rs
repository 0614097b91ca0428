use silvus::card::cards::{Cards, Folder, LoadError, Skip};
use silvus::card::{file_kind, Card, CardError, FileKind, FileSize, FolderEntry, Passed};

fn file(path: &str, size: u64) -> FolderEntry {
    FolderEntry { path: path.to_string(), is_text: true, is_file: true, size: Some(size), text: None }
}

fn sidecar(path: &str, text: &str) -> FolderEntry {
    FolderEntry {
        path: path.to_string(),
        is_text: true, is_file: true,
        size: Some(text.len() as u64),
        text: Some(text.to_string()),
    }
}

fn folder(name: &str) -> Folder {
    Folder {
        path: format!("/lib/{name}"),
        is_dir: true,
        entries: Some(vec![file(&format!("/lib/{name}/a.mp4"), 1)]),
    }
}

fn titles(cards: &Cards) -> Vec<String> {
    cards.cards().iter().map(|c| c.get_title().to_string()).collect()
}

#[test]
fn stroke_color_change() {}

#[test]
fn file_size_counts_whole_megabytes() {
    assert_eq!(FileSize::from(2_500_000).0, 2);
    assert_eq!(FileSize::from(999_999).0, 0);
    assert_eq!(FileSize::from(1_000_000).0, 1);
    assert_eq!(FileSize::from(0).0, 0);
}

#[test]
fn file_size_saturates() {
    assert_eq!(FileSize::from(4_294_967_295_000_000).0, u32::MAX);
    assert_eq!(FileSize::from(4_294_967_294_999_999).0, u32::MAX - 1);
    assert_eq!(FileSize::from(4_294_967_296_000_000).0, u32::MAX);
    assert_eq!(FileSize::from(u64::MAX).0, u32::MAX);
}

#[test]
fn files_are_taken_by_extension_then_by_name() {
    assert_eq!(file_kind("/lib/a/film.mkv"), FileKind::Video);
    assert_eq!(file_kind("/lib/a/FILM.MP4"), FileKind::Video);
    assert_eq!(file_kind("/lib/a/.hidden.webm"), FileKind::Video);
    assert_eq!(file_kind("/lib/a/.title"), FileKind::Sidecar);
    assert_eq!(file_kind("/lib/a/.mkv"), FileKind::Sidecar);
    assert_eq!(file_kind("/lib/a/notes.txt"), FileKind::Other);
    assert_eq!(file_kind("/lib/a/film.move"), FileKind::Other);
    for extension in ["webm", "mkv", "vob", "ogg", "ogv", "avi", "mov", "qt", "m4v", "mp4"] {
        assert_eq!(file_kind(&format!("x.{extension}")), FileKind::Video);
    }
}

#[test]
fn title_falls_back_to_the_folder_name() {
    let entries = vec![file("/lib/the-matrix_1999/film.mkv", 5_000_000)];
    let card = Card::from_path("/lib", "/lib/the-matrix_1999", entries).unwrap();
    assert_eq!(card.get_title(), "the matrix 1999");
}

#[test]
fn title_keeps_the_dots_of_the_folder_name() {
    let entries = vec![file("/lib/Mr.Robot_S1/a.mkv", 1)];
    let card = Card::from_path("/lib", "/lib/Mr.Robot_S1", entries).unwrap();
    assert_eq!(card.get_title(), "Mr.Robot S1");
    let entries = vec![file("/lib/2001.A-Space_Odyssey/a.mkv", 1), file("/lib/x/S1E1.mkv", 1)];
    let card = Card::from_path("/lib", "/lib/2001.A-Space_Odyssey/", entries).unwrap();
    assert_eq!(card.get_title(), "2001.A Space Odyssey");
    let entries = vec![file("/lib/.hidden.show/a.mkv", 1)];
    let card = Card::from_path("/lib", "/lib/.hidden.show", entries).unwrap();
    assert_eq!(card.get_title(), ".hidden.show");
}

#[test]
fn empty_title_file_falls_back_to_the_folder_name() {
    let entries = vec![file("/lib/Up/film.mkv", 5_000_000), sidecar("/lib/Up/.title", "  \n")];
    let card = Card::from_path("/lib", "/lib/Up", entries).unwrap();
    assert_eq!(card.get_title(), "Up");
}

#[test]
fn folder_without_video_gives_no_card() {
    let entries = vec![file("/lib/docs/readme.txt", 10), sidecar("/lib/docs/.title", "Docs")];
    let r = Card::from_path("/lib", "/lib/docs", entries);
    assert_eq!(r.err(), Some(CardError::NoVideoFile));
    assert_eq!(Card::from_path("/lib", "/lib/none", Vec::new()).err(), Some(CardError::NoVideoFile));
}

#[test]
fn one_video_gives_a_movie() {
    let entries = vec![
        sidecar("/lib/Heat/.year", " 1995 "),
        sidecar("/lib/Heat/.description", "A heist.\n"),
        file("/lib/Heat/.thumbnail", 20_000),
        file("/lib/Heat/heat.mp4", 2_500_000),
        file("/lib/Heat/notes.txt", 12),
        FolderEntry { path: "/lib/Heat/extras".to_string(), is_text: true, is_file: false, size: None, text: None },
    ];
    match Card::from_path("/lib", "/lib/Heat", entries).unwrap() {
        Card::Movie(movie) => {
            assert_eq!(movie.title(), "Heat");
            assert_eq!(movie.year(), Some(1995));
            assert_eq!(movie.description(), Some("A heist."));
            assert_eq!(movie.thumbnail(), Some("Heat/.thumbnail"));
            assert_eq!(movie.filepath(), "Heat/heat.mp4");
            assert_eq!(movie.filesize().0, 2);
        }
        _ => panic!("not a movie"),
    }
}

#[test]
fn directory_named_like_a_video_is_passed_over() {
    let entries = vec![
        FolderEntry { path: "/lib/X/dir.mkv".to_string(), is_text: true, is_file: false, size: None, text: None },
        file("/lib/X/x.mkv", 1),
    ];
    assert!(matches!(Card::from_path("/lib", "/lib/X", entries), Ok(Card::Movie(_))));
}

#[test]
fn movie_needs_a_size_and_a_path_within_the_root() {
    let no_size =
        vec![FolderEntry { path: "/lib/M/m.mkv".to_string(), is_text: true, is_file: true, size: None, text: None }];
    assert_eq!(Card::from_path("/lib", "/lib/M", no_size).err(), Some(CardError::UnreadableSize));
    let outside = vec![file("/elsewhere/M/m.mkv", 1)];
    assert_eq!(Card::from_path("/lib", "/lib/M", outside).err(), Some(CardError::OutsideRoot));
    let both = vec![FolderEntry {
        path: "/elsewhere/M/m.mkv".to_string(),
        is_text: true, is_file: true,
        size: None,
        text: None,
    }];
    assert_eq!(Card::from_path("/lib", "/lib/M", both).err(), Some(CardError::UnreadableSize));
}

#[test]
fn invalid_year_leaves_the_year_absent() {
    for text in ["nineteen", "65536", "-5", "", "19 95", "1995a"] {
        let entries = vec![file("/lib/M/m.mkv", 1), sidecar("/lib/M/.year", text)];
        match Card::from_path("/lib", "/lib/M", entries).unwrap() {
            Card::Movie(movie) => assert_eq!(movie.year(), None),
            _ => panic!("not a movie"),
        }
    }
    let entries = vec![file("/lib/M/m.mkv", 1), sidecar("/lib/M/.year", "65535")];
    match Card::from_path("/lib", "/lib/M", entries).unwrap() {
        Card::Movie(movie) => assert_eq!(movie.year(), Some(65535)),
        _ => panic!("not a movie"),
    }
}

#[test]
fn later_sidecar_overrides_earlier() {
    let entries = vec![
        file("/lib/M/m.mkv", 1),
        sidecar("/lib/M/.title", "First"),
        sidecar("/lib/M/.title.bak", "Second"),
        sidecar("/lib/M/.descr", "short"),
        FolderEntry {
            path: "/lib/M/.description".to_string(),
            is_text: true, is_file: true,
            size: None,
            text: None,
        },
        sidecar("/lib/M/.Title", "Wrong case"),
        sidecar("/lib/M/.unknown", "ignored"),
    ];
    match Card::from_path("/lib", "/lib/M", entries).unwrap() {
        Card::Movie(movie) => {
            assert_eq!(movie.title(), "Second");
            assert_eq!(movie.description(), None);
        }
        _ => panic!("not a movie"),
    }
}

#[test]
fn unreadable_title_keeps_the_earlier_title() {
    let entries = vec![
        file("/lib/M/m.mkv", 1),
        sidecar("/lib/M/.title", "First"),
        FolderEntry { path: "/lib/M/.title.bak".to_string(), is_text: true, is_file: true, size: None, text: None },
    ];
    let card = Card::from_path("/lib", "/lib/M", entries).unwrap();
    assert_eq!(card.get_title(), "First");
}

#[test]
fn two_videos_give_a_show() {
    let entries = vec![
        file("/lib/Show/s02e01.mkv", 2_000_000),
        file("/lib/Show/S01E10.mkv", 3_000_000),
        sidecar("/lib/Show/.subtitle", "Director's cut"),
        file("/lib/Show/e03.mkv", 4_000_000),
        file("/lib/Show/extra.mkv", 5_000_000),
        file("/elsewhere/S01E01.mkv", 6_000_000),
        FolderEntry { path: "/lib/Show/S01E02.mkv".to_string(), is_text: true, is_file: true, size: None, text: None },
    ];
    match Card::from_path("/lib", "/lib/Show", entries).unwrap() {
        Card::Show(show) => {
            assert_eq!(show.title(), "Show");
            assert_eq!(show.subtitle(), Some("Director's cut"));
            assert_eq!(show.year(), None);
            assert_eq!(show.description(), None);
            assert_eq!(show.thumbnail(), None);
            let found: Vec<(u8, u8, &str, u32)> = show
                .episodes()
                .iter()
                .map(|e| (e.season, e.episode, e.filepath.as_str(), e.filesize.0))
                .collect();
            assert_eq!(
                found,
                vec![
                    (1, 3, "Show/e03.mkv", 4),
                    (1, 10, "Show/S01E10.mkv", 3),
                    (2, 1, "Show/s02e01.mkv", 2),
                ]
            );
        }
        _ => panic!("not a show"),
    }
}

#[test]
fn show_without_episodes_is_still_a_show() {
    let entries = vec![file("/lib/Show/one.mkv", 1), file("/lib/Show/two.mkv", 1)];
    match Card::from_path("/lib", "/lib/Show", entries).unwrap() {
        Card::Show(show) => assert!(show.episodes().is_empty()),
        _ => panic!("not a show"),
    }
}

#[test]
fn episodes_of_one_number_keep_their_order() {
    let entries = vec![
        file("/lib/Show/S01E02 b.mkv", 1),
        file("/lib/Show/S01E01.mkv", 1),
        file("/lib/Show/S01E02 a.mkv", 1),
    ];
    match Card::from_path("/lib", "/lib/Show", entries).unwrap() {
        Card::Show(show) => {
            let paths: Vec<&str> = show.episodes().iter().map(|e| e.filepath.as_str()).collect();
            assert_eq!(paths, vec!["Show/S01E01.mkv", "Show/S01E02 b.mkv", "Show/S01E02 a.mkv"]);
        }
        _ => panic!("not a show"),
    }
}

#[test]
fn catalog_is_sorted_by_title() {
    let cards =
        Cards::load(Some("/lib"), Some(vec![folder("Beta"), folder("alpha"), folder("Gamma")])).unwrap();
    assert_eq!(titles(&cards), vec!["Beta", "Gamma", "alpha"]);
}

#[test]
fn catalog_order_does_not_depend_on_the_order_of_the_scan() {
    let one = Cards::load(Some("/lib"), Some(vec![folder("b"), folder("a"), folder("B"), folder("ab")]))
        .unwrap();
    let two = Cards::load(Some("/lib"), Some(vec![folder("ab"), folder("B"), folder("a"), folder("b")]))
        .unwrap();
    assert_eq!(titles(&one), vec!["B", "a", "ab", "b"]);
    assert_eq!(titles(&one), titles(&two));
}

#[test]
fn same_scan_gives_the_same_page() {
    let scan = || vec![folder("Beta"), folder("alpha"), folder("Gamma")];
    let first = Cards::load(Some("/lib"), Some(scan())).unwrap().generate_static_html_page("s", "j");
    let second = Cards::load(Some("/lib"), Some(scan())).unwrap().generate_static_html_page("s", "j");
    assert_eq!(first, second);
}

#[test]
fn catalog_passes_over_what_gives_no_card() {
    let folders = vec![
        folder(".assets"),
        Folder { path: "/lib/file.mkv".to_string(), is_dir: false, entries: None },
        Folder { path: "/lib/locked".to_string(), is_dir: true, entries: None },
        Folder { path: "/lib/empty".to_string(), is_dir: true, entries: Some(Vec::new()) },
        folder("kept"),
    ];
    let cards = Cards::load(Some("/lib"), Some(folders)).unwrap();
    assert_eq!(titles(&cards), vec!["kept"]);
}

#[test]
fn catalog_needs_a_root_that_can_be_read() {
    assert_eq!(Cards::load(None, Some(Vec::new())).err(), Some(LoadError::NoTargetDir));
    assert_eq!(Cards::load(None, None).err(), Some(LoadError::NoTargetDir));
    assert_eq!(Cards::load(Some("/lib"), None).err(), Some(LoadError::UnreadableRoot));
    assert!(Cards::load(Some("/lib"), Some(Vec::new())).unwrap().cards().is_empty());
}

#[test]
fn errors_have_messages() {
    assert_eq!(LoadError::NoTargetDir.message(), "No target path set, use the init subcommand");
    assert_eq!(LoadError::UnreadableRoot.message(), "the target path cannot be read");
    assert_eq!(CardError::NoVideoFile.message(), "no video file in the folder");
    assert_eq!(CardError::UnreadableSize.message(), "the size of the video file cannot be read");
    assert_eq!(CardError::OutsideRoot.message(), "the video file is not within the library root");
}

#[test]
fn skipped_folders_come_with_their_reasons() {
    let folders = vec![
        folder(".assets"),
        Folder { path: "/lib/file.mkv".to_string(), is_dir: false, entries: None },
        folder("kept"),
        Folder { path: "/lib/locked".to_string(), is_dir: true, entries: None },
        Folder { path: "/lib/empty".to_string(), is_dir: true, entries: Some(Vec::new()) },
        Folder {
            path: "/lib/elsewhere".to_string(),
            is_dir: true,
            entries: Some(vec![file("/other/m.mkv", 1)]),
        },
        Folder {
            path: "/lib/unsized".to_string(),
            is_dir: true,
            entries: Some(vec![FolderEntry {
                path: "/lib/unsized/m.mkv".to_string(),
                is_text: true, is_file: true,
                size: None,
                text: None,
            }]),
        },
    ];
    let (cards, report) = Cards::load_reporting(Some("/lib"), Some(folders)).unwrap();
    assert_eq!(titles(&cards), vec!["kept"]);
    let skipped: Vec<(&str, Skip)> =
        report.skipped.iter().map(|s| (s.path.as_str(), s.reason)).collect();
    assert_eq!(
        skipped,
        vec![
            ("/lib/file.mkv", Skip::NotADirectory),
            ("/lib/locked", Skip::Unreadable),
            ("/lib/empty", Skip::NoCard(CardError::NoVideoFile)),
            ("/lib/elsewhere", Skip::NoCard(CardError::OutsideRoot)),
            ("/lib/unsized", Skip::NoCard(CardError::UnreadableSize)),
        ]
    );
    assert!(report.notes.is_empty());
}

#[test]
fn passed_over_children_are_noted() {
    let entries = vec![
        FolderEntry { path: "/lib/Show/extras".to_string(), is_text: true, is_file: false, size: None, text: None },
        file("/lib/Show/S01E01.mkv", 1),
        file("/lib/Show/trailer.mkv", 1),
        FolderEntry { path: "/lib/Show/S01E02.mkv".to_string(), is_text: true, is_file: true, size: None, text: None },
        file("/elsewhere/S01E03.mkv", 1),
        FolderEntry { path: "/lib/Show/more".to_string(), is_text: true, is_file: false, size: None, text: None },
    ];
    let (card, notes) = Card::from_path_noting("/lib", "/lib/Show", entries);
    assert!(matches!(card, Ok(Card::Show(_))));
    let noted: Vec<(&str, Passed)> = notes.iter().map(|n| (n.path.as_str(), n.reason)).collect();
    assert_eq!(
        noted,
        vec![
            ("/lib/Show/extras", Passed::NotAFile),
            ("/lib/Show/more", Passed::NotAFile),
            ("/lib/Show/trailer.mkv", Passed::NoEpisodeNumber),
            ("/lib/Show/S01E02.mkv", Passed::UnreadableSize),
            ("/elsewhere/S01E03.mkv", Passed::OutsideRoot),
        ]
    );
}

#[test]
fn movie_folders_note_only_what_is_no_file() {
    let entries = vec![
        file("/lib/M/trailer.mkv", 1),
        FolderEntry { path: "/lib/M/extras".to_string(), is_text: true, is_file: false, size: None, text: None },
    ];
    let (card, notes) = Card::from_path_noting("/lib", "/lib/M", entries);
    assert!(matches!(card, Ok(Card::Movie(_))));
    assert_eq!(notes.len(), 1);
    assert_eq!(notes[0].path, "/lib/M/extras");
    assert_eq!(notes[0].reason, Passed::NotAFile);
}

#[test]
fn notes_of_all_folders_are_gathered() {
    let folders = vec![
        Folder {
            path: "/lib/B".to_string(),
            is_dir: true,
            entries: Some(vec![file("/lib/B/one.mkv", 1), file("/lib/B/two.mkv", 1)]),
        },
        Folder {
            path: "/lib/.hidden".to_string(),
            is_dir: true,
            entries: Some(vec![FolderEntry {
                path: "/lib/.hidden/dir".to_string(),
                is_text: true, is_file: false,
                size: None,
                text: None,
            }]),
        },
        Folder {
            path: "/lib/A".to_string(),
            is_dir: true,
            entries: Some(vec![FolderEntry {
                path: "/lib/A/dir".to_string(),
                is_text: true, is_file: false,
                size: None,
                text: None,
            }]),
        },
    ];
    let (cards, report) = Cards::survey("/lib", folders);
    assert_eq!(titles(&cards), vec!["B"]);
    let noted: Vec<(&str, Passed)> =
        report.notes.iter().map(|n| (n.path.as_str(), n.reason)).collect();
    assert_eq!(
        noted,
        vec![
            ("/lib/B/one.mkv", Passed::NoEpisodeNumber),
            ("/lib/B/two.mkv", Passed::NoEpisodeNumber),
            ("/lib/A/dir", Passed::NotAFile),
        ]
    );
    assert_eq!(report.skipped.len(), 1);
    assert_eq!(report.skipped[0].reason, Skip::NoCard(CardError::NoVideoFile));
}

#[test]
fn reasons_have_messages() {
    assert_eq!(Skip::NotADirectory.message(), "not a directory");
    assert_eq!(Skip::Unreadable.message(), "the directory cannot be read");
    assert_eq!(Skip::NoCard(CardError::NoVideoFile).message(), "no video file in the folder");
    assert_eq!(Passed::NotAFile.message(), "Found sub-directory, will be ignored");
    assert_eq!(Passed::UnreadableSize.message(), "the size of the video file cannot be read");
    assert_eq!(Passed::OutsideRoot.message(), "the video file is not within the library root");
    assert_eq!(Passed::NoEpisodeNumber.message(), "Failed to match episode in filename");
}

#[test]
fn video_whose_path_is_no_text_still_counts() {
    let odd = |path: &str| FolderEntry {
        path: path.to_string(),
        is_text: false,
        is_file: true,
        size: Some(1),
        text: None,
    };
    let one = vec![odd("/lib/M/m\u{fffd}.mkv")];
    assert_eq!(Card::from_path("/lib", "/lib/M", one).err(), Some(CardError::OutsideRoot));
    let two = vec![odd("/lib/S/S01E01\u{fffd}.mkv"), file("/lib/S/S01E02.mkv", 1)];
    let (card, notes) = Card::from_path_noting("/lib", "/lib/S", two);
    match card.unwrap() {
        Card::Show(show) => {
            assert_eq!(show.episodes().len(), 1);
            assert_eq!(show.episodes()[0].filepath, "S/S01E02.mkv");
        }
        _ => panic!("not a show"),
    }
    assert_eq!(notes.len(), 1);
    assert_eq!(notes[0].reason, Passed::OutsideRoot);
}

#[test]
fn thumbnail_whose_path_is_no_text_is_absent() {
    let entries = vec![
        file("/lib/M/m.mkv", 1),
        FolderEntry {
            path: "/lib/M\u{fffd}/.thumbnail".to_string(),
            is_text: false,
            is_file: true,
            size: Some(1),
            text: None,
        },
    ];
    match Card::from_path("/lib", "/lib/M", entries).unwrap() {
        Card::Movie(movie) => assert_eq!(movie.thumbnail(), None),
        _ => panic!("not a movie"),
    }
}
