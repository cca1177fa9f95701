use video_downloader::ffmpeg::{
    extension_of, ffmpeg_command_args, ffmpeg_working_dir, parent_of, resolve_ffmpeg_working_dir,
    unique_ffmpeg_output_path, ffprobe_candidate, ffprobe_path_from_ffmpeg, ffmpeg_output_extension, ffmpeg_output_file_name,
    ffmpeg_preset_suffix, file_name_of, file_stem_of, normalized_audio_format, normalized_time,
    shell_command_line, shell_quote, validate_media_file, validate_time_value,
    FfmpegCommandRequest,
};

fn request(preset: &str) -> FfmpegCommandRequest {
    FfmpegCommandRequest {
        preset_id: preset.to_string(),
        input_path: "/videos/in.MOV".to_string(),
        secondary_input_path: None,
        output_dir: String::new(),
        audio_format: None,
        start_time: None,
        end_time: None,
        crf: None,
    }
}

fn strings(items: &[&str]) -> Vec<String> {
    items.iter().map(|s| s.to_string()).collect()
}

fn chars(s: &str) -> Vec<char> {
    s.chars().collect()
}

#[test]
fn presets_have_file_name_suffixes() {
    assert_eq!(ffmpeg_preset_suffix("compress"), Ok("compressed"));
    assert_eq!(ffmpeg_preset_suffix("trim"), Ok("clip"));
    assert_eq!(
        ffmpeg_preset_suffix("gif"),
        Err("不支持的 FFmpeg 预设：gif".to_string())
    );
}

#[test]
fn audio_formats_and_times_are_normalised() {
    assert_eq!(normalized_audio_format(None), Ok("mp3"));
    assert_eq!(normalized_audio_format(Some(" M4A ")), Ok("m4a"));
    assert_eq!(
        normalized_audio_format(Some(" FLAC ")),
        Err("不支持的音频格式：flac".to_string())
    );
    assert_eq!(normalized_time(Some("  00:01:02.5 ")), Some("00:01:02.5".to_string()));
    assert_eq!(normalized_time(Some("   ")), None);
    assert_eq!(validate_time_value("开始时间", "00:01:02.5"), Ok(()));
    assert_eq!(
        validate_time_value("开始时间", "1m"),
        Err("开始时间只能包含数字、冒号和小数点。".to_string())
    );
    assert!(validate_time_value("结束时间", "0000000000000000000000000").is_err());
}

#[test]
fn shell_words_are_quoted_only_when_needed() {
    assert_eq!(shell_quote("-c:v"), "-c:v");
    assert_eq!(shell_quote("/a/b_c.mp4"), "/a/b_c.mp4");
    assert_eq!(shell_quote(""), "''");
    assert_eq!(shell_quote("my file.mp4"), "'my file.mp4'");
    assert_eq!(shell_quote("it's"), "'it'\\''s'");
    assert_eq!(
        shell_command_line(&strings(&["ffmpeg", "-i", "a b.mp4"])),
        "ffmpeg -i 'a b.mp4'"
    );
    assert_eq!(shell_command_line(&Vec::new()), "");
    assert_eq!(
        shell_command_line(&strings(&["ffmpeg", "it's", "", "a\\b"])),
        "ffmpeg 'it'\\''s' '' 'a\\b'"
    );
}

#[test]
fn path_parts_follow_std_path() {
    assert_eq!(file_name_of(&chars("/a/b.tar.gz")), Some(chars("b.tar.gz")));
    assert_eq!(file_stem_of(&chars("/a/b.tar.gz")), Some(chars("b.tar")));
    assert_eq!(extension_of(&chars("/a/b.tar.gz")), Some(chars("gz")));
    assert_eq!(extension_of(&chars("/a/.profile")), None);
    assert_eq!(file_stem_of(&chars("/a/.profile")), Some(chars(".profile")));
    assert_eq!(file_name_of(&chars("/a/b/")), Some(chars("b")));
    assert_eq!(file_name_of(&chars("/")), None);
}

#[test]
fn output_names_carry_the_preset_and_an_index() {
    assert_eq!(
        ffmpeg_output_file_name("/videos/in.MOV", &request("convertMp4"), 1),
        Ok("in-converted.mp4".to_string())
    );
    assert_eq!(
        ffmpeg_output_file_name("/videos/in.MOV", &request("trim"), 3),
        Ok("in-clip-3.mov".to_string())
    );
    let mut audio = request("extractAudio");
    audio.audio_format = Some("m4a".to_string());
    assert_eq!(ffmpeg_output_extension("/videos/in.MOV", &audio), Ok("m4a".to_string()));
    assert_eq!(
        ffmpeg_output_file_name("/videos/ .mp4", &request("compress"), 1),
        Ok("video-compressed.mp4".to_string())
    );
    assert_eq!(ffmpeg_output_extension("/videos/noext", &request("trim")), Ok("mp4".to_string()));
}

#[test]
fn media_files_are_checked() {
    assert_eq!(validate_media_file("音频文件", " /a.m4a ", true), Ok("/a.m4a".to_string()));
    assert_eq!(
        validate_media_file("音频文件", " /a.m4a ", false),
        Err("音频文件不存在或不是文件：/a.m4a".to_string())
    );
}

#[test]
fn preset_argument_lists() {
    let args = ffmpeg_command_args("/bin/ffmpeg", "/in.mov", "/out.mp4", &request("convertMp4"), false).unwrap();
    assert_eq!(
        args,
        strings(&[
            "/bin/ffmpeg", "-hide_banner", "-n", "-i", "/in.mov", "-c:v", "libx264", "-preset",
            "medium", "-crf", "20", "-c:a", "aac", "-b:a", "192k", "-movflags", "+faststart",
            "/out.mp4",
        ])
    );

    let mut compress = request("compress");
    compress.crf = Some(50);
    let args = ffmpeg_command_args("ffmpeg", "/in.mov", "/out.mp4", &compress, false).unwrap();
    assert_eq!(args[10], "35");
    assert_eq!(args[14], "128k");
    compress.crf = None;
    let args = ffmpeg_command_args("ffmpeg", "/in.mov", "/out.mp4", &compress, false).unwrap();
    assert_eq!(args[10], "28");

    let args = ffmpeg_command_args("ffmpeg", "/in.mov", "/out.mp3", &request("extractAudio"), false).unwrap();
    assert_eq!(
        args,
        strings(&["ffmpeg", "-hide_banner", "-n", "-i", "/in.mov", "-vn", "-c:a", "libmp3lame", "-q:a", "2", "/out.mp3"])
    );
}

#[test]
fn trim_and_merge_arguments_and_errors() {
    let mut trim = request("trim");
    assert_eq!(
        ffmpeg_command_args("ffmpeg", "/in.mov", "/out.mov", &trim, false),
        Err("请填写截取开始时间。".to_string())
    );
    trim.start_time = Some(" 00:00:05 ".to_string());
    trim.end_time = Some("00:00:10".to_string());
    assert_eq!(
        ffmpeg_command_args("ffmpeg", "/in.mov", "/out.mov", &trim, false),
        Ok(strings(&[
            "ffmpeg", "-hide_banner", "-n", "-ss", "00:00:05", "-to", "00:00:10", "-i", "/in.mov",
            "-c", "copy", "/out.mov",
        ]))
    );
    trim.end_time = Some("later".to_string());
    assert_eq!(
        ffmpeg_command_args("ffmpeg", "/in.mov", "/out.mov", &trim, false),
        Err("结束时间只能包含数字、冒号和小数点。".to_string())
    );

    let mut merge = request("mergeAudioVideo");
    assert_eq!(
        ffmpeg_command_args("ffmpeg", "/in.mov", "/out.mp4", &merge, false),
        Err("请选择要合并的音频文件。".to_string())
    );
    merge.secondary_input_path = Some(" /a.m4a ".to_string());
    assert_eq!(
        ffmpeg_command_args("ffmpeg", "/in.mov", "/out.mp4", &merge, false),
        Err("音频文件不存在或不是文件：/a.m4a".to_string())
    );
    let args = ffmpeg_command_args("ffmpeg", "/in.mov", "/out.mp4", &merge, true).unwrap();
    assert_eq!(&args[5..7], &["-i".to_string(), "/a.m4a".to_string()]);
    assert_eq!(
        ffmpeg_command_args("ffmpeg", "/in.mov", "/out.mp4", &request("x"), true),
        Err("不支持的 FFmpeg 预设：x".to_string())
    );
}

#[test]
fn parents_follow_std_path() {
    assert_eq!(parent_of(&chars("/a/b.mp4")), Some(chars("/a")));
    assert_eq!(parent_of(&chars("/a/b/")), Some(chars("/a")));
    assert_eq!(parent_of(&chars("/a")), Some(chars("/")));
    assert_eq!(parent_of(&chars("a//b")), Some(chars("a")));
    assert_eq!(parent_of(&chars("./a")), Some(chars(".")));
    assert_eq!(parent_of(&chars("a")), Some(Vec::new()));
    assert_eq!(parent_of(&chars("/")), None);
    assert_eq!(parent_of(&chars("")), None);
}

#[test]
fn working_directory_defaults_to_the_input_directory() {
    assert_eq!(ffmpeg_working_dir("  /out  ", "/videos/in.mov"), "/out");
    assert_eq!(ffmpeg_working_dir("", "/videos/in.mov"), "/videos");
    assert_eq!(ffmpeg_working_dir(" ", "/"), ".");
    assert_eq!(resolve_ffmpeg_working_dir("", "/videos/in.mov", true), Ok("/videos".to_string()));
    assert_eq!(
        resolve_ffmpeg_working_dir("/missing", "/videos/in.mov", false),
        Err("输出目录不存在：/missing".to_string())
    );
}

#[test]
fn output_paths_skip_taken_names() {
    let taken = ["/out/in-converted.mp4", "/out/in-converted-2.mp4"];
    let path = unique_ffmpeg_output_path("/out", "/videos/in.MOV", &request("convertMp4"), |p: &str| {
        taken.contains(&p)
    });
    assert_eq!(path, Ok("/out/in-converted-3.mp4".to_string()));

    let path = unique_ffmpeg_output_path("/out/", "/videos/in.MOV", &request("convertMp4"), |_: &str| false);
    assert_eq!(path, Ok("/out/in-converted.mp4".to_string()));

    let path = unique_ffmpeg_output_path("/out", "/videos/in.MOV", &request("convertMp4"), |_: &str| true);
    assert_eq!(path, Err("无法生成未被占用的输出文件名。".to_string()));

    let path = unique_ffmpeg_output_path("/out", "/videos/in.MOV", &request("gif"), |_: &str| false);
    assert_eq!(path, Err("不支持的 FFmpeg 预设：gif".to_string()));
}

#[test]
fn ffprobe_is_looked_for_next_to_ffmpeg() {
    assert_eq!(ffprobe_candidate("/opt/bin/ffmpeg", "ffprobe").as_deref(), Some("/opt/bin/ffprobe"));
    assert_eq!(ffprobe_candidate("ffmpeg", "ffprobe").as_deref(), Some("ffprobe"));
    assert_eq!(ffprobe_path_from_ffmpeg("/opt/bin/ffmpeg", "ffprobe", true), "/opt/bin/ffprobe");
    assert_eq!(ffprobe_path_from_ffmpeg("/opt/bin/ffmpeg", "ffprobe", false), "ffprobe");
}
