use ffplayout_core::filler::{fill_filler_list, FillerPath};
use ffplayout_core::folder::{storage_roots, ChannelManager, FolderSource};
use ffplayout_core::media::Media;

fn strings(v: &[&str]) -> Vec<String> {
    v.iter().map(|s| s.to_string()).collect()
}

#[test]
fn new_sorts_raw_and_indexes() {
    let files = strings(&["b2.mp4", "b10.mp4", "a1.mp4"]);
    let src = FolderSource::new(&files, ChannelManager::new(false));
    let got: Vec<(String, Option<usize>)> = src
        .manager
        .current_list
        .iter()
        .map(|m| (m.source.clone(), m.index))
        .collect();
    assert_eq!(
        got,
        vec![
            ("a1.mp4".to_string(), Some(0)),
            ("b10.mp4".to_string(), Some(1)),
            ("b2.mp4".to_string(), Some(2))
        ]
    );
}

#[test]
fn new_with_no_files_is_empty() {
    let src = FolderSource::new(&Vec::new(), ChannelManager::new(true));
    assert!(src.manager.current_list.is_empty());
}

#[test]
fn from_list_adopts_as_is() {
    let list = vec![Media::new(5, "z.mp4"), Media::new(7, "a.mp4")];
    let src = FolderSource::from_list(ChannelManager::new(false), list);
    assert_eq!(src.manager.current_list[0].source, "z.mp4");
    assert_eq!(src.manager.current_list[1].index, Some(7));
}

#[test]
fn next_runs_forever_and_wraps_once_per_round() {
    let list = vec![Media::new(0, "c"), Media::new(1, "a"), Media::new(2, "b")];
    let mut src = FolderSource::from_list(ChannelManager::new(false), list);
    let mut seen = Vec::new();
    for t in 0..3u64 {
        let m = src.next(100 + t);
        assert_eq!(m.begin, Some(100 + t));
        seen.push(m.source.clone());
        assert!(src.manager.current_index <= src.manager.current_list.len());
    }
    assert_eq!(seen, vec!["c", "a", "b"]);
    assert_eq!(src.manager.current_index, 3);
    let m = src.next(200);
    assert_eq!(m.source, "a");
    assert_eq!(m.index, Some(0));
    assert_eq!(src.manager.current_index, 1);
    assert_eq!(src.current_node.source, "a");
    let more: Vec<String> = (0..5).map(|t| src.next(300 + t).source).collect();
    assert_eq!(more, vec!["b", "c", "a", "b", "c"]);
}

#[test]
fn next_recovers_from_cursor_past_end() {
    let list = vec![Media::new(0, "b"), Media::new(1, "a")];
    let mut manager = ChannelManager::new(false);
    manager.current_index = 9;
    let mut src = FolderSource::from_list(manager, list);
    let m = src.next(1);
    assert_eq!(m.source, "a");
    assert_eq!(src.manager.current_index, 1);
}

#[test]
fn shuffled_rounds_keep_every_item() {
    let files = strings(&["1", "2", "3", "4", "5"]);
    let mut src = FolderSource::new(&files, ChannelManager::new(true));
    for _ in 0..4 {
        let mut round: Vec<String> = (0..5).map(|t| src.next(t).source).collect();
        round.sort();
        assert_eq!(round, files);
    }
}

#[test]
fn sort_and_shuffle_methods() {
    let files = strings(&["b", "c", "a"]);
    let mut src = FolderSource::new(&files, ChannelManager::new(true));
    src.sort();
    let got: Vec<String> = src.manager.current_list.iter().map(|m| m.source.clone()).collect();
    assert_eq!(got, strings(&["a", "b", "c"]));
    src.shuffle();
    let mut got: Vec<String> = src.manager.current_list.iter().map(|m| m.source.clone()).collect();
    got.sort();
    assert_eq!(got, strings(&["a", "b", "c"]));
}

#[test]
fn filler_directory_gives_indexed_items() {
    let list = fill_filler_list(&FillerPath::Directory(strings(&["f2.ts", "f1.ts"])), false);
    assert_eq!(list.len(), 2);
    assert_eq!(list[0].source, "f1.ts");
    assert_eq!(list[0].index, Some(0));
    assert_eq!(list[1].index, Some(1));
}

#[test]
fn filler_directory_uses_natural_order() {
    let list = fill_filler_list(
        &FillerPath::Directory(strings(&["b2.mp4", "b10.mp4", "a1.mp4"])),
        false,
    );
    let got: Vec<String> = list.iter().map(|m| m.source.clone()).collect();
    assert_eq!(got, strings(&["a1.mp4", "b2.mp4", "b10.mp4"]));
}

#[test]
fn filler_single_file() {
    let list = fill_filler_list(&FillerPath::File("/x/filler.mp4".to_string()), true);
    assert_eq!(list.len(), 1);
    assert_eq!(list[0].source, "/x/filler.mp4");
    assert_eq!(list[0].index, Some(0));
}

#[test]
fn filler_missing_is_empty() {
    let list = fill_filler_list(&FillerPath::Missing, false);
    assert!(list.is_empty());
}

#[test]
fn duplicate_copies_every_field() {
    let mut m = Media::new(3, "a.mp4");
    m.cmd = Some(strings(&["-i", "a.mp4"]));
    m.seek = 5;
    let d = m.duplicate();
    assert_eq!(d.source, "a.mp4");
    assert_eq!(d.index, Some(3));
    assert_eq!(d.seek, 5);
    assert_eq!(d.cmd, Some(strings(&["-i", "a.mp4"])));
    assert_eq!(d.filter, None);
}

#[test]
fn storage_roots_choice() {
    let paths = strings(&["/a", "/b"]);
    let global = "/g".to_string();
    assert_eq!(storage_roots(true, &paths, &global), paths);
    assert_eq!(storage_roots(false, &paths, &global), strings(&["/g"]));
    assert_eq!(storage_roots(true, &Vec::new(), &global), strings(&["/g"]));
}

#[test]
fn filler_items_are_fresh() {
    let list = fill_filler_list(&FillerPath::Directory(strings(&["f1.ts"])), true);
    assert_eq!(list[0].seek, 0);
    assert!(list[0].cmd.is_none());
    assert!(list[0].begin.is_none());
}
