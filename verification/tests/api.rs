use hibi_nuku::api::auth::{presented_token, require_bearer};
use hibi_nuku::api::hibi_proxy::{KnownCache, KnownWordsReply, known_words_reply};
use hibi_nuku::api::library::{check_patch, check_under_library, import_video};
use hibi_nuku::api::settings::wk_meta;
use hibi_nuku::api::upload::{
    CreateReq, insert_error, new_video, sanitize_filename, stored_upload_name, subtitle_format, track_json,
};
use hibi_nuku::api::videos::{pick_plan, thumbnail_content_type};
use hibi_nuku::config::{Config, ConfigError, EnvVars};
use hibi_nuku::error::AppError;
use hibi_nuku::hibi::model::KnownWord;
use hibi_nuku::library::model::VideoStatus;
use hibi_nuku::library::tracks::TrackSelection;
use hibi_nuku::media::stream::AudioPlan;
use hibi_nuku::media::{Stream, StreamKind};

#[test]
fn bearer_header_is_accepted() {
    assert!(require_bearer("s3cret", Some("Bearer s3cret"), None).is_ok());
    assert!(matches!(require_bearer("s3cret", Some("Bearer wrong"), None), Err(AppError::Unauthorised)));
}

#[test]
fn query_token_is_percent_decoded() {
    assert_eq!(presented_token(None, Some("a=1&token=ab%2Fc&b=2")).as_deref(), Some("ab/c"));
    assert!(require_bearer("ab/c", None, Some("token=ab%2Fc")).is_ok());
}

#[test]
fn header_wins_over_query() {
    assert_eq!(presented_token(Some("Bearer h"), Some("token=q")).as_deref(), Some("h"));
    assert_eq!(presented_token(Some("Basic h"), Some("token=q")).as_deref(), Some("q"));
}

#[test]
fn missing_token_is_unauthorised() {
    assert!(presented_token(None, Some("x=1")).is_none());
    assert!(matches!(require_bearer("t", None, None), Err(AppError::Unauthorised)));
}

#[test]
fn app_errors_map_to_statuses() {
    assert_eq!(AppError::NotFound.status(), 404);
    assert_eq!(AppError::BadRequest("x".into()).status(), 400);
    assert_eq!(AppError::Unauthorised.status(), 401);
    assert_eq!(AppError::Conflict("x".into()).status(), 409);
    assert_eq!(AppError::Other("boom".into()).status(), 500);
    assert_eq!(AppError::BadRequest("x".into()).message(), "bad request: x");
    assert_eq!(AppError::Conflict("dup".into()).message(), "conflict: dup");
    assert_eq!(AppError::NotFound.message(), "not found");
    assert_eq!(AppError::Other("boom".into()).message(), "boom");
    assert!(AppError::Other("boom".into()).is_server_error());
    assert!(!AppError::NotFound.is_server_error());
}

fn env(token: Option<&str>) -> EnvVars {
    EnvVars {
        nuku_host: None,
        nuku_port: None,
        nuku_db_path: None,
        nuku_library_dir: Some("/lib".into()),
        nuku_token: token.map(str::to_string),
        hibi_api_base: None,
        hibi_api_key: Some("hk".into()),
        openrouter_api_key: Some("ok".into()),
        nuku_llm_model: None,
        wanikani_api_key: Some("wk".into()),
    }
}

#[test]
fn config_defaults_and_required_values() {
    let c: Config = Config::from_env(&env(Some("t"))).unwrap();
    assert_eq!(c.host, "0.0.0.0");
    assert_eq!(c.port, 8787);
    assert_eq!(c.db_path, "backend/data/dev.db");
    assert_eq!(c.library_dir, "/lib");
    assert_eq!(c.token, "t");
    assert_eq!(c.hibi_base, "https://hibi-api.vercel.app");
    assert_eq!(c.llm_model, "openai/gpt-4o");
}

#[test]
fn config_blank_token_is_missing() {
    match Config::from_env(&env(Some("   "))) {
        Err(e @ ConfigError::MissingVar(_)) => assert_eq!(e.message(), "missing required env var: NUKU_TOKEN"),
        other => panic!("unexpected: {:?}", other.map(|c| c.port)),
    }
}

#[test]
fn config_bad_port_is_invalid() {
    let mut e = env(Some("t"));
    e.nuku_port = Some("99999".into());
    match Config::from_env(&e) {
        Err(err @ ConfigError::InvalidValue { .. }) => {
            assert_eq!(err.message(), "invalid value for NUKU_PORT: 99999")
        }
        other => panic!("unexpected: {:?}", other.map(|c| c.port)),
    }
    e.nuku_port = Some("9000".into());
    assert_eq!(Config::from_env(&e).unwrap().port, 9000);
}

#[test]
fn filenames_are_sanitised() {
    assert_eq!(sanitize_filename("../../etc/passwd"), "passwd");
    assert_eq!(sanitize_filename("my show (1).mkv"), "my_show__1_.mkv");
    assert_eq!(sanitize_filename("日本語.srt"), "日本語.srt");
    assert_eq!(sanitize_filename("/"), "upload.bin");
    assert_eq!(stored_upload_name("20250101-120000", Some("a b.ass"), "subs.srt"), "20250101-120000-a_b.ass");
    assert_eq!(stored_upload_name("t", None, "subs.srt"), "t-subs.srt");
}

#[test]
fn subtitle_formats_by_extension() {
    assert_eq!(subtitle_format("ep.SRT"), Some("srt"));
    assert_eq!(subtitle_format("ep.ass"), Some("ass"));
    assert_eq!(subtitle_format("ep.Ssa"), Some("ass"));
    assert_eq!(subtitle_format("ep.vtt"), Some("vtt"));
    assert_eq!(subtitle_format("ep.sub"), None);
}

fn stream(index: usize, kind: StreamKind, codec: &str) -> Stream {
    Stream { index, codec_type: kind, codec_name: codec.into(), language: Some("jpn".into()), title: None }
}

#[test]
fn track_summary_marks_images() {
    let t = track_json(&stream(4, StreamKind::Subtitle, "hdmv_pgs_subtitle"));
    assert_eq!(t.index, 4);
    assert!(t.is_image);
    assert_eq!(t.language.as_deref(), Some("jpn"));
    assert!(!track_json(&stream(5, StreamKind::Subtitle, "ass")).is_image);
}

#[test]
fn create_request_defaults_to_the_stem() {
    let req = CreateReq {
        path: "/lib/uploads/20250101-ep01.mkv".into(),
        title: None,
        source_tag: Some("Frieren".into()),
        jp_audio_idx: Some(1),
        jp_subtitle_idx: None,
        subtitle_format: Some("srt".into()),
        subtitle_sidecar_path: None,
    };
    let v = new_video(&req, 1234);
    assert_eq!(v.title, "20250101-ep01");
    assert_eq!(v.source_tag, "Frieren");
    assert_eq!(v.duration_ms, 1234);
    assert_eq!(v.status, VideoStatus::Probing);
    assert_eq!(v.subtitle_format.as_deref(), Some("srt"));
}

#[test]
fn duplicate_import_is_a_conflict() {
    assert_eq!(insert_error(true, "UNIQUE".into()).message(), "conflict: media already imported");
    assert_eq!(insert_error(false, "disk".into()).status(), 500);
}

#[test]
fn import_only_under_library_dir() {
    assert!(check_under_library("/srv/lib/a.mkv", "/srv/lib").is_ok());
    let e = check_under_library("/srv/library2/a.mkv", "/srv/lib").unwrap_err();
    assert_eq!(e.message(), "bad request: path must live under library dir /srv/lib");
}

#[test]
fn import_refuses_image_subtitles() {
    let sel = TrackSelection { audio_idx: Some(1), subtitle_idx: Some(2), subtitle_format: Some("dvd_subtitle".into()) };
    let e = import_video("/lib/a.mkv", None, None, 10, &sel).unwrap_err();
    assert_eq!(e.message(), "bad request: image-based subtitle (dvd_subtitle) not supported");
    let ok = TrackSelection { audio_idx: Some(1), subtitle_idx: Some(2), subtitle_format: Some("ass".into()) };
    let v = import_video("/lib/a.mkv", Some("T".into()), None, 10, &ok).unwrap();
    assert_eq!(v.title, "T");
    assert_eq!(v.source_tag, "a");
    assert_eq!(v.jp_subtitle_idx, Some(2));
}

#[test]
fn patch_needs_a_field() {
    assert!(check_patch(None, None).is_err());
    assert!(check_patch(Some("t"), None).is_ok());
    assert!(check_patch(None, Some("s")).is_ok());
}

#[test]
fn streaming_plan_follows_chosen_audio() {
    let streams = vec![stream(1, StreamKind::Audio, "flac"), stream(2, StreamKind::Audio, "aac")];
    assert_eq!(pick_plan(&streams, Some(2)), AudioPlan::Copy);
    assert_eq!(pick_plan(&streams, None), AudioPlan::Aac);
    assert_eq!(pick_plan(&streams, Some(9)), AudioPlan::Aac);
}

#[test]
fn thumbnail_types() {
    assert_eq!(thumbnail_content_type("/t/a.webp"), "image/webp");
    assert_eq!(thumbnail_content_type("/t/a.png"), "image/png");
    assert_eq!(thumbnail_content_type("/t/a.jpg"), "image/jpeg");
}

#[test]
fn wk_meta_rows() {
    let rows = vec![
        ("user_level".to_string(), "12".to_string()),
        ("username".to_string(), "kumo".to_string()),
        ("other".to_string(), "x".to_string()),
    ];
    assert_eq!(wk_meta(&rows), (Some(12), Some("kumo".to_string())));
    let bad = vec![("user_level".to_string(), "twelve".to_string())];
    assert_eq!(wk_meta(&bad), (None, None));
}

#[test]
fn known_words_cache_expires_and_invalidates() {
    let mut c = KnownCache::new();
    assert!(c.fresh(0).is_none());
    c.store(1_000, vec![KnownWord { lemma: "猫".into(), reading: "ねこ".into(), status: "known".into() }]);
    assert_eq!(c.fresh(60_999).unwrap().len(), 1);
    assert!(c.fresh(61_000).is_none());
    c.invalidate();
    assert!(c.fresh(1_001).is_none());
}

#[test]
fn known_words_soft_fails_on_server_errors() {
    assert_eq!(known_words_reply(200), KnownWordsReply::Decode);
    assert_eq!(known_words_reply(204), KnownWordsReply::Decode);
    assert_eq!(known_words_reply(500), KnownWordsReply::Empty);
    assert_eq!(known_words_reply(503), KnownWordsReply::Empty);
    assert_eq!(known_words_reply(404), KnownWordsReply::Fail);
    assert_eq!(known_words_reply(301), KnownWordsReply::Fail);
}
