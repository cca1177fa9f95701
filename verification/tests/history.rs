use video_downloader::history::{
    append_ffmpeg_command_history_item, delete_ffmpeg_command_history_by_ids, lex_less,
    sort_ffmpeg_command_history, FfmpegCommandHistoryInput, FfmpegCommandHistoryItem,
    FFMPEG_COMMAND_HISTORY_LIMIT,
};

fn item(id: &str, command: &str, created_at: &str) -> FfmpegCommandHistoryItem {
    FfmpegCommandHistoryItem {
        id: id.to_string(),
        preset_id: "convert-mp4".to_string(),
        input_path: "/in.mov".to_string(),
        secondary_input_path: None,
        output_dir: "/out".to_string(),
        audio_format: None,
        start_time: None,
        end_time: None,
        crf: Some(23),
        command: command.to_string(),
        working_dir: "/out".to_string(),
        output_path: "/out/in-converted.mp4".to_string(),
        created_at: created_at.to_string(),
    }
}

fn input(command: &str) -> FfmpegCommandHistoryInput {
    FfmpegCommandHistoryInput {
        preset_id: "extract-audio".to_string(),
        input_path: "/in.mov".to_string(),
        secondary_input_path: None,
        output_dir: "/out".to_string(),
        audio_format: Some("mp3".to_string()),
        start_time: None,
        end_time: None,
        crf: None,
        command: command.to_string(),
        working_dir: "/out".to_string(),
        output_path: "/out/in-audio.mp3".to_string(),
    }
}

fn ids(items: &[FfmpegCommandHistoryItem]) -> Vec<&str> {
    items.iter().map(|i| i.id.as_str()).collect()
}

#[test]
fn history_sorts_newest_first_and_keeps_ties_in_order() {
    let mut items = vec![
        item("a", "c1", "100"),
        item("b", "c2", "300"),
        item("c", "c3", "200"),
        item("d", "c4", "300"),
    ];
    sort_ffmpeg_command_history(&mut items);

    assert_eq!(ids(&items), vec!["b", "d", "c", "a"]);
}

#[test]
fn history_times_compare_as_text() {
    assert!(lex_less(&['9'], &['9', '0']));
    assert!(!lex_less(&['9'], &['1', '0']));
    let mut items = vec![item("short", "c1", "99"), item("long", "c2", "100")];
    sort_ffmpeg_command_history(&mut items);
    assert_eq!(ids(&items), vec!["short", "long"]);
}

#[test]
fn appending_replaces_drafts_of_the_same_command() {
    let items = vec![item("old", "ffmpeg -i a", "100"), item("other", "ffmpeg -i b", "200")];
    let result = append_ffmpeg_command_history_item(
        items,
        input("ffmpeg -i a"),
        "new".to_string(),
        "300".to_string(),
    );

    assert_eq!(ids(&result), vec!["new", "other"]);
    assert_eq!(result[0].preset_id, "extract-audio");
    assert_eq!(result[0].audio_format.as_deref(), Some("mp3"));
    assert_eq!(result[0].created_at, "300");
}

#[test]
fn appending_keeps_at_most_the_limit() {
    let items: Vec<FfmpegCommandHistoryItem> = (0..FFMPEG_COMMAND_HISTORY_LIMIT)
        .map(|index| item(&format!("i{index}"), &format!("cmd {index}"), &format!("{:04}", index)))
        .collect();
    let result = append_ffmpeg_command_history_item(
        items,
        input("cmd new"),
        "new".to_string(),
        "9999".to_string(),
    );

    assert_eq!(result.len(), FFMPEG_COMMAND_HISTORY_LIMIT);
    assert_eq!(result[0].id, "new");
    assert_eq!(result[FFMPEG_COMMAND_HISTORY_LIMIT - 1].id, "i1");
}

#[test]
fn deleting_by_ids_removes_only_listed_drafts() {
    let items = vec![item("a", "c1", "100"), item("b", "c2", "300"), item("c", "c3", "200")];
    let result = delete_ffmpeg_command_history_by_ids(items, &["b".to_string(), "zz".to_string()]);

    assert_eq!(ids(&result), vec!["c", "a"]);
}

#[test]
fn deleting_nothing_returns_the_sorted_history() {
    let items = vec![item("a", "c1", "100"), item("b", "c2", "300")];
    let result = delete_ffmpeg_command_history_by_ids(items, &[]);

    assert_eq!(ids(&result), vec!["b", "a"]);
}
