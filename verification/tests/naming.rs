use mirakc_webui::mirakc::{
    extract_program_id_from_filename, program_info_from, service_id_of, program_url, programs_url,
    schedule_creation_error, schedule_deletion_error, schedule_url, schedules_url, service_url,
    services_url, Program, Service, ServiceChannel,
};
use mirakc_webui::recorded::{file_basename, is_recording_extension};
use mirakc_webui::thumbnail::{
    ffmpeg_args, ffmpeg_failure, thumbnail_file_name, thumbnail_path_url, thumbnail_url,
};

#[test]
fn program_id_is_before_the_last_underscore() {
    assert_eq!(
        extract_program_id_from_filename("123456789_news_night.m2ts"),
        Some("123456789_news".to_string())
    );
    assert_eq!(extract_program_id_from_filename("42_a.ts"), Some("42".to_string()));
    assert_eq!(extract_program_id_from_filename("plain.ts"), None);
    assert_eq!(extract_program_id_from_filename("_x.ts"), Some(String::new()));
    assert_eq!(extract_program_id_from_filename("a_b.ts.ts"), Some("a".to_string()));
}

#[test]
fn basename_drops_repeated_endings() {
    assert_eq!(file_basename("show.m2ts"), "show");
    assert_eq!(file_basename("show.ts.ts"), "show");
    assert_eq!(file_basename("show.ts.m2ts"), "show");
    assert_eq!(file_basename("show.m2ts.ts"), "show.m2ts");
    assert_eq!(file_basename("show.mp4"), "show.mp4");
}

#[test]
fn recording_extensions() {
    assert!(is_recording_extension("ts"));
    assert!(is_recording_extension("m2ts"));
    assert!(!is_recording_extension("mp4"));
    assert!(!is_recording_extension("TS"));
}

#[test]
fn thumbnail_names_and_urls() {
    assert_eq!(thumbnail_url("x_y.m2ts"), "/thumbnails/x_y.jpg");
    assert_eq!(thumbnail_file_name("x_y.ts"), "x_y.jpg");
    assert_eq!(thumbnail_path_url("x_y.jpg"), "/thumbnails/x_y.jpg");
    // the URL of a generated image is the URL of the recording's thumbnail
    let name = thumbnail_file_name("rec_1.m2ts");
    assert_eq!(thumbnail_path_url(&name), thumbnail_url("rec_1.m2ts"));
}

#[test]
fn ffmpeg_arguments() {
    let args = ffmpeg_args(5, "/in.ts", "/out.jpg");
    assert_eq!(
        args,
        vec!["-ss", "5", "-i", "/in.ts", "-vframes", "1", "-f", "image2", "-y", "/out.jpg"]
    );
    assert_eq!(ffmpeg_failure("boom"), "ffmpeg failed: boom");
}

#[test]
fn api_urls() {
    let base = "http://localhost:40772";
    assert_eq!(program_url(base, "123"), "http://localhost:40772/api/programs/123");
    assert_eq!(service_url(base, 3273601024), "http://localhost:40772/api/services/3273601024");
    assert_eq!(schedules_url(base), "http://localhost:40772/api/recording/schedules");
    assert_eq!(schedule_url(base, 7), "http://localhost:40772/api/recording/schedules/7");
    assert_eq!(programs_url(base, None, Some(2)), "http://localhost:40772/api/programs");
    assert_eq!(
        programs_url(base, Some(1), Some(2)),
        "http://localhost:40772/api/programs?startAt=1&endAt=2"
    );
    assert_eq!(services_url(base), "http://localhost:40772/api/services");
}

#[test]
fn schedule_errors() {
    assert_eq!(schedule_creation_error(409, "dup"), "schedule creation failed: 409 - dup");
    assert_eq!(schedule_deletion_error(404), "schedule deletion failed: 404");
}

fn program(name: Option<&str>) -> Program {
    Program {
        id: 321,
        event_id: 1,
        service_id: 2,
        network_id: 3,
        start_at: Some(-1),
        duration: Some(1800000),
        is_free: true,
        name: name.map(|s| s.to_string()),
        description: None,
        extended: None,
        video: None,
        audio: None,
        audios: Vec::new(),
        genres: None,
        series: None,
        related_items: Vec::new(),
    }
}

fn service() -> Service {
    Service {
        id: 9,
        service_id: 101,
        network_id: 4,
        service_type: 1,
        logo_id: 0,
        remote_control_key_id: 1,
        name: "NHK".to_string(),
        channel: ServiceChannel { channel_type: "GR".to_string(), channel: "27".to_string() },
        has_logo_data: false,
    }
}

#[test]
fn program_info_from_replies() {
    let info = program_info_from(program(Some("News")), service());
    assert_eq!(info.program_id, "321");
    assert_eq!(info.name, "News");
    assert_eq!(info.service_id, 9);
    assert_eq!(info.service_name, "NHK");
    assert_eq!(info.start_at, Some(u64::MAX));
    assert_eq!(info.duration, Some(1800000));
    assert_eq!(service_id_of(&program(None)), 3 * 100000 + 2);
    let unnamed = program_info_from(program(None), service());
    assert_eq!(unnamed.name, "不明");
}
