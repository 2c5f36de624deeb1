use hibi_nuku::library::model::VideoStatus;
use hibi_nuku::library::pipeline::{ImportError, check_parsed, import_source};

#[test]
fn status_names_round_trip() {
    let all = [
        VideoStatus::Probing,
        VideoStatus::Extracting,
        VideoStatus::Parsing,
        VideoStatus::Tokenizing,
        VideoStatus::Translating,
        VideoStatus::Remuxing,
        VideoStatus::Ready,
        VideoStatus::Error,
    ];
    for s in all {
        assert_eq!(VideoStatus::parse(s.as_str()), Some(s));
    }
    assert_eq!(VideoStatus::Ready.as_str(), "ready");
    assert_eq!(VideoStatus::parse("READY"), None);
}

#[test]
fn import_needs_a_text_subtitle_track() {
    assert!(matches!(import_source(None, Some("ass")), Err(ImportError::NoSubtitleTrack)));
    assert!(matches!(import_source(Some(2), None), Err(ImportError::NoSubtitleFormat)));
    let e = import_source(Some(2), Some("hdmv_pgs_subtitle")).unwrap_err();
    assert_eq!(e.message(), "image-based subtitles (hdmv_pgs_subtitle) not supported");
    assert_eq!(import_source(Some(2), Some("ass")).unwrap(), (2, "ass".to_string()));
    assert_eq!(check_parsed(0).unwrap_err().message(), "subtitle track has 0 dialogue lines");
    assert!(check_parsed(3).is_ok());
}
