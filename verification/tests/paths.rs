use pak_extractor::paths::{resolve_output_path, split_components};

#[test]
fn archive_component_is_dropped_and_backslashes_become_separators() {
    let resolved = resolve_output_path(b"/tmp/Game.pak/out", b"data\\items.txt");
    assert_eq!(resolved, b"/tmp/out/Export/data/items.txt".to_vec());
}

#[test]
fn components_are_the_runs_between_separators() {
    let parts = split_components(b"//a\\b/c.pak//");
    assert_eq!(parts, vec![b"a".to_vec(), b"b".to_vec(), b"c.pak".to_vec()]);
}

#[test]
fn a_root_without_the_archive_name_is_kept() {
    assert_eq!(resolve_output_path(b"out", b"a.txt"), b"out/Export/a.txt".to_vec());
    assert_eq!(resolve_output_path(b"/out/", b"a.txt"), b"/out/Export/a.txt".to_vec());
    assert_eq!(resolve_output_path(b"./out", b"a\\b\\c"), b"./out/Export/a/b/c".to_vec());
}

#[test]
fn every_component_that_holds_the_archive_marker_is_dropped() {
    assert_eq!(
        resolve_output_path(b"/data/Game.pak/x.pak.d/out", b"a.txt"),
        b"/data/out/Export/a.txt".to_vec()
    );
    assert_eq!(resolve_output_path(b"Game.pak", b"a.txt"), b"Export/a.txt".to_vec());
    assert_eq!(resolve_output_path(b"/Game.pak", b"a.txt"), b"/Export/a.txt".to_vec());
    assert_eq!(resolve_output_path(b"/Game.PAK/out", b"a"), b"/Game.PAK/out/Export/a".to_vec());
}

#[test]
fn empty_inputs_resolve_to_the_export_directory() {
    assert_eq!(resolve_output_path(b"", b""), b"Export".to_vec());
    assert_eq!(resolve_output_path(b"/", b""), b"/Export".to_vec());
    assert_eq!(resolve_output_path(b"out", b"\\\\"), b"out/Export".to_vec());
}

#[test]
fn the_entry_path_keeps_its_components() {
    assert_eq!(
        resolve_output_path(b"C:\\out", b"resource\\Game.pak\\a.b.txt"),
        b"C:/out/Export/resource/Game.pak/a.b.txt".to_vec()
    );
    assert_eq!(resolve_output_path(b"out", b"/a//b\\"), b"out/Export/a/b".to_vec());
}

#[test]
fn a_path_without_separators_is_one_component() {
    assert_eq!(split_components(b"abc"), vec![b"abc".to_vec()]);
    assert_eq!(split_components(b""), Vec::<Vec<u8>>::new());
    assert_eq!(split_components(b"/\\/"), Vec::<Vec<u8>>::new());
}
