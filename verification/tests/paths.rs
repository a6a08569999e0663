use std::path::{Path, PathBuf};

use tff::app::{App, Mode, Request, TextTarget};
use tff::graph::wire::NodeId;
use tff::line::{Key, KeyCode};
use tff::paths::{
    clean_path_input, copy_path, expand_tilde, extension, suggestion_dir, suggestions_from,
    without_extension, DirEntry,
};

fn new_app() -> App {
    App::new(Vec::new(), Vec::new(), false)
}

fn entry(name: &str, is_dir: bool) -> DirEntry {
    DirEntry { name: name.to_string(), is_dir }
}

/// A directory in the order in which a file system might list it.
fn fixture() -> Vec<DirEntry> {
    vec![
        entry("subdir", true),
        entry("beta.mkv", false),
        entry(".hidden", false),
        entry("alpha2.txt", false),
        entry("alpha.mp4", false),
    ]
}

/// What a listing of a path's directory would find, for a file system that
/// holds the fixture under `/media` and an empty directory in it.
fn list(buffer: &str) -> Vec<String> {
    let entries = match suggestion_dir(buffer, None).as_str() {
        "/media/" => fixture(),
        _ => Vec::new(),
    };
    suggestions_from(buffer, &entries)
}

fn answer(app: &mut App, request: Request) {
    if let Request::ListPaths(buffer) = request {
        app.suggestions_listed(list(&buffer));
    } else {
        panic!("expected a listing to be asked for");
    }
}

fn type_char(app: &mut App, c: char) {
    let request = app.text_input_handle_key(Key { code: KeyCode::Char(c), modifiers: 0 });
    answer(app, request);
}

fn backspace(app: &mut App) {
    let request = app.text_input_handle_key(Key { code: KeyCode::Backspace, modifiers: 0 });
    answer(app, request);
}

/// An editor that asks for an input's path, with `/media/` typed.
fn app_with_fixture() -> App {
    let mut app = new_app();
    let request = app.start_add_input();
    answer(&mut app, request);
    for c in "/media/".chars() {
        type_char(&mut app, c);
    }
    app
}

fn offered(app: &App) -> Vec<String> {
    let Mode::TextInput { suggestions, .. } = &app.mode else { panic!("expected text input mode") };
    suggestions.clone()
}

fn chosen(app: &App) -> usize {
    let Mode::TextInput { selected, .. } = &app.mode else { panic!("expected text input mode") };
    *selected
}

#[test]
fn path_suggestions_lists_directory_sorted_with_dirs_marked() {
    let prefix = "/media/";
    let results = suggestions_from(prefix, &fixture());

    let expected = vec![
        format!("{prefix}alpha.mp4"),
        format!("{prefix}alpha2.txt"),
        format!("{prefix}beta.mkv"),
        format!("{prefix}subdir/"),
    ];
    assert_eq!(results, expected);
}

#[test]
fn path_suggestions_filters_by_prefix_after_last_slash() {
    let results = suggestions_from("/media/al", &fixture());

    assert_eq!(results, vec!["/media/alpha.mp4".to_string(), "/media/alpha2.txt".to_string()]);
}

#[test]
fn path_suggestions_hides_dotfiles_unless_prefix_starts_with_dot() {
    let plain = suggestions_from("/media/", &fixture());
    assert!(!plain.iter().any(|s| s.ends_with(".hidden")), "dotfile should be hidden by default: {plain:?}");

    let dotted = suggestions_from("/media/.", &fixture());
    assert!(dotted.iter().any(|s| s.ends_with(".hidden")), "dotfile should show once typing a dot: {dotted:?}");
}

#[test]
fn path_suggestions_returns_empty_for_nonexistent_directory() {
    let results = list("/this/path/does/not/exist/on/this/machine/");
    assert!(results.is_empty());
}

#[test]
fn text_input_accept_suggestion_drills_into_directories() {
    let mut app = app_with_fixture();
    let at = offered(&app)
        .iter()
        .position(|s| s.ends_with("subdir/"))
        .expect("subdir should be offered");
    app.text_input_move_suggestion(at as isize);

    let request = app.text_input_accept_suggestion();
    answer(&mut app, request);

    assert_eq!(app.typed_text().unwrap(), "/media/subdir/");
    assert_eq!(chosen(&app), 0, "selection should reset after accepting");
    assert!(offered(&app).is_empty(), "the fixture's subdir is empty");
}

#[test]
fn text_input_move_suggestion_wraps() {
    let mut app = app_with_fixture();
    let count = offered(&app).len();
    assert!(count >= 2, "fixture should offer several entries");

    app.text_input_move_suggestion(-1);
    assert_eq!(chosen(&app), count - 1, "moving back from 0 should wrap to the last entry");

    app.text_input_move_suggestion(1);
    assert_eq!(chosen(&app), 0, "moving forward should wrap back to the first entry");
}

#[test]
fn text_input_char_and_backspace_refresh_suggestions() {
    let mut app = app_with_fixture();

    for c in "al".chars() {
        type_char(&mut app, c);
    }
    assert_eq!(app.typed_text().unwrap(), "/media/al");
    assert_eq!(offered(&app).len(), 2, "should narrow to the two 'al*' entries");
    assert_eq!(chosen(&app), 0);

    // One backspace narrows "al" to "a" -- still just the two "al*" entries.
    backspace(&mut app);
    assert_eq!(offered(&app).len(), 2, "'a' should still match only the two 'al*' entries");

    // A second backspace clears the prefix entirely, widening to everything.
    backspace(&mut app);
    assert_eq!(offered(&app).len(), 4, "an empty prefix should widen the match to all four entries");
}

#[test]
fn directory_to_list_follows_what_was_typed() {
    assert_eq!(suggestion_dir("", None), ".");
    assert_eq!(suggestion_dir("al", None), ".");
    assert_eq!(suggestion_dir("films/al", None), "films/");
    assert_eq!(suggestion_dir("/", None), "/");
    assert_eq!(suggestion_dir("~", Some("/home/me")), "/home/me/");
    assert_eq!(suggestion_dir("~/films/al", Some("/home/me")), "/home/me/films/");
    assert_eq!(suggestion_dir("~/films/al", None), "~/films/");
    assert_eq!(suggestions_from("~al", &fixture()), vec!["~/alpha.mp4", "~/alpha2.txt"]);
}

#[test]
fn tilde_is_the_home_directory() {
    assert_eq!(expand_tilde("~", Some("/home/me")), "/home/me");
    assert_eq!(expand_tilde("~/a", Some("/home/me")), "/home/me/a");
    assert_eq!(expand_tilde("~a", Some("/home/me")), "~a");
    assert_eq!(expand_tilde("~/a", None), "~/a");
    assert_eq!(expand_tilde("a/~", Some("/home/me")), "a/~");
}

#[test]
fn typed_paths_are_cleaned() {
    assert_eq!(clean_path_input("  a b.mp4 ", None), "a b.mp4");
    assert_eq!(clean_path_input("'a b.mp4'", None), "a b.mp4");
    assert_eq!(clean_path_input(" \"~/a\" ", Some("/h")), "/h/a");
    assert_eq!(clean_path_input("'a\"", None), "'a\"");
    assert_eq!(clean_path_input("'", None), "'");
    assert_eq!(clean_path_input("''", None), "");
    assert_eq!(clean_path_input("\u{2003}é\u{a0}", None), "é");
}

#[test]
fn extensions_are_those_of_std() {
    for p in [
        "a.mkv",
        "/x/a.tar.gz",
        "a",
        ".hidden",
        "/x/.hidden",
        "..",
        "/x/..",
        ".",
        "/x/.",
        "/",
        "",
        "a.",
        "/x.y/a",
        "a.mkv/",
        "a.mkv//",
        "x/a.mkv/.",
        "x/a.mkv/./",
        "é.ü",
        "..a",
        "...",
        "a..b",
        "./a.b",
        "x/./a.b",
    ] {
        let path = Path::new(p);
        let std_ext = path.extension().map(|e| e.to_string_lossy().into_owned());
        assert_eq!(extension(p), std_ext, "extension of {p:?}");
        let mut stem = PathBuf::from(p);
        stem.set_extension("");
        assert_eq!(without_extension(p), stem.to_string_lossy(), "stem of {p:?}");
    }
}

#[test]
fn copies_take_the_first_free_name() {
    let none: Vec<String> = Vec::new();
    assert_eq!(copy_path("out.mkv", &none), "out-copy.mkv");
    let taken = vec!["out-copy.mkv".to_string(), "out-copy2.mkv".to_string()];
    assert_eq!(copy_path("out.mkv", &taken), "out-copy3.mkv");
    assert_eq!(copy_path("out", &none), "out-copy");
    assert_eq!(copy_path(".hidden", &none), ".hidden-copy");
}

/// Only the file name's extension counts, not a dot in a directory's name.
#[test]
fn copies_stay_in_their_directory() {
    let none: Vec<String> = Vec::new();
    assert_eq!(copy_path("my.dir/out", &none), "my.dir/out-copy");
    assert_eq!(copy_path("my.dir/out.mkv", &none), "my.dir/out-copy.mkv");
    assert_eq!(copy_path("my.dir/.hidden", &none), "my.dir/.hidden-copy");
    let taken = vec!["my.dir/out-copy".to_string()];
    assert_eq!(copy_path("my.dir/out", &taken), "my.dir/out-copy2");
}

#[test]
fn a_typed_path_is_probed() {
    let mut app = new_app();
    app.start_add_input();
    for c in " '~/in.mp4' ".chars() {
        app.text_input_handle_key(Key { code: KeyCode::Char(c), modifiers: 0 });
    }
    let request = app.confirm_text_input(Some("/home/me"), None);
    assert!(matches!(request, Request::Probe(p) if p == "/home/me/in.mp4"));
    assert!(matches!(app.mode, Mode::Normal));
}

#[test]
fn an_output_path_is_edited_in_place() {
    let mut app = new_app();
    let out: NodeId = app.graph.outputs[0].id;
    app.start_edit_output();
    assert!(matches!(
        &app.mode,
        Mode::TextInput { target: TextTarget::OutputPath(id), .. } if *id == out
    ));
    assert_eq!(app.typed_text().unwrap(), "output.mkv");
    for _ in 0..3 {
        app.text_input_handle_key(Key { code: KeyCode::Backspace, modifiers: 0 });
    }
    for c in "mp4".chars() {
        app.text_input_handle_key(Key { code: KeyCode::Char(c), modifiers: 0 });
    }
    app.confirm_text_input(None, None);
    assert_eq!(app.graph.outputs[0].path, "output.mp4");
}
