use hibi_nuku::library::tracks::{is_image_subtitle, select_japanese};
use hibi_nuku::media::ffprobe::{stream_from_raw, stream_kind};
use hibi_nuku::media::remux::{remux_args, remuxed_path_for, up_to_date};
use hibi_nuku::media::stream::{AudioPlan, audio_plan, stream_args};
use hibi_nuku::media::{Probe, Stream, StreamKind};

fn s(idx: usize, kind: StreamKind, lang: Option<&str>, title: Option<&str>) -> Stream {
    Stream {
        index: idx,
        codec_type: kind,
        codec_name: "ass".into(),
        language: lang.map(str::to_string),
        title: title.map(str::to_string),
    }
}

#[test]
fn picks_first_jp_subtitle() {
    let streams = vec![
        s(0, StreamKind::Subtitle, Some("eng"), None),
        s(1, StreamKind::Subtitle, Some("jpn"), None),
        s(2, StreamKind::Subtitle, Some("jpn"), Some("signs/songs")),
    ];
    let sel = select_japanese(&streams);
    assert_eq!(sel.subtitle_idx, Some(1));
}

#[test]
fn skips_signs_when_dialogue_available() {
    let streams = vec![
        s(0, StreamKind::Subtitle, Some("jpn"), Some("Signs & Songs")),
        s(1, StreamKind::Subtitle, Some("jpn"), Some("Dialogue")),
    ];
    let sel = select_japanese(&streams);
    assert_eq!(sel.subtitle_idx, Some(1));
}

#[test]
fn falls_back_when_only_signs_present() {
    let streams = vec![s(0, StreamKind::Subtitle, Some("jpn"), Some("Signs & Songs"))];
    let sel = select_japanese(&streams);
    assert_eq!(sel.subtitle_idx, Some(0));
}

#[test]
fn flags_pgs_as_image() {
    assert!(is_image_subtitle("hdmv_pgs_subtitle"));
    assert!(!is_image_subtitle("ass"));
}

#[test]
fn selection_covers_audio_and_format() {
    let mut streams = vec![
        s(0, StreamKind::Video, None, None),
        s(1, StreamKind::Audio, Some("eng"), None),
        s(2, StreamKind::Audio, Some("ja"), Some("Commentary")),
        s(3, StreamKind::Audio, Some("jpn"), None),
        s(4, StreamKind::Subtitle, Some("jpn"), Some("Forced")),
    ];
    streams[4].codec_name = "subrip".into();
    let sel = select_japanese(&streams);
    assert_eq!(sel.audio_idx, Some(3));
    assert_eq!(sel.subtitle_idx, Some(4));
    assert_eq!(sel.subtitle_format.as_deref(), Some("subrip"));
}

#[test]
fn no_japanese_track_selects_nothing() {
    let streams = vec![s(0, StreamKind::Audio, Some("eng"), None), s(1, StreamKind::Subtitle, None, None)];
    let sel = select_japanese(&streams);
    assert_eq!(sel.audio_idx, None);
    assert_eq!(sel.subtitle_idx, None);
    assert_eq!(sel.subtitle_format, None);
}

#[test]
fn stream_kinds_and_raw_fields() {
    assert_eq!(stream_kind(Some("video")), StreamKind::Video);
    assert_eq!(stream_kind(Some("audio")), StreamKind::Audio);
    assert_eq!(stream_kind(Some("subtitle")), StreamKind::Subtitle);
    assert_eq!(stream_kind(Some("data")), StreamKind::Other);
    assert_eq!(stream_kind(None), StreamKind::Other);
    let st = stream_from_raw(3, Some("audio"), None, Some("jpn".into()), None);
    assert_eq!(st.codec_name, "");
    assert_eq!(st.codec_type, StreamKind::Audio);
}

#[test]
fn streams_of_keeps_order() {
    let probe = Probe {
        duration_ms: 1,
        streams: vec![
            s(0, StreamKind::Audio, None, None),
            s(1, StreamKind::Subtitle, None, None),
            s(2, StreamKind::Audio, None, None),
        ],
    };
    let audio: Vec<usize> = probe.streams_of(StreamKind::Audio).iter().map(|s| s.index).collect();
    assert_eq!(audio, vec![0, 2]);
    assert!(probe.streams_of(StreamKind::Video).is_empty());
}

#[test]
fn audio_plans() {
    assert_eq!(audio_plan("aac"), AudioPlan::Copy);
    assert_eq!(audio_plan("mp3"), AudioPlan::Copy);
    assert_eq!(audio_plan("alac"), AudioPlan::Copy);
    assert_eq!(audio_plan("flac"), AudioPlan::Aac);
    assert_eq!(audio_plan("eac3"), AudioPlan::Aac);
}

#[test]
fn remuxed_path_is_beside_the_source() {
    assert_eq!(remuxed_path_for("/lib/show/ep01.mkv"), "/lib/show/ep01.remuxed.mp4");
    assert_eq!(remuxed_path_for("ep02.mkv"), "ep02.remuxed.mp4");
}

#[test]
fn remux_command_line() {
    let args = remux_args("/a/in.mkv", Some(2), "eac3", "/a/out.mp4");
    let expected: Vec<&str> = vec![
        "-y", "-loglevel", "error", "-i", "/a/in.mkv", "-map", "0:v:0", "-map", "0:2", "-c:v", "copy",
        "-c:a", "aac", "-b:a", "160k", "-movflags", "+faststart", "-f", "mp4", "/a/out.mp4",
    ];
    assert_eq!(args, expected);
    let copy = remux_args("/a/in.mkv", None, "aac", "/a/out.mp4");
    assert_eq!(copy[8], "0:a:0?");
    assert_eq!(&copy[11..13], &["-c:a".to_string(), "copy".to_string()]);
}

#[test]
fn stream_command_line_with_seek() {
    let args = stream_args("/v.mkv", Some(-1), AudioPlan::Copy, Some("12.5"));
    let expected: Vec<&str> = vec![
        "-loglevel", "error", "-y", "-ss", "12.5", "-i", "/v.mkv", "-map", "0:v:0", "-map", "0:-1",
        "-c:v", "copy", "-c:a", "copy", "-movflags", "frag_keyframe+empty_moov+default_base_moof", "-f",
        "mp4", "pipe:1",
    ];
    assert_eq!(args, expected);
}

#[test]
fn remux_output_is_reused_only_when_newer_and_not_empty() {
    assert!(up_to_date(100, 100, 1));
    assert!(up_to_date(100, 200, 4096));
    assert!(!up_to_date(200, 100, 4096));
    assert!(!up_to_date(100, 200, 0));
}
