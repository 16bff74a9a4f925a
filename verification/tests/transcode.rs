use ic_oss_cli::transcode::ffmpeg::{build_ffmpeg_args, build_ffprobe_args};
use ic_oss_cli::transcode::labels::{bounded_error, output_extension, sanitize_label};
use ic_oss_cli::transcode::probe::{validate_probe, FfprobeFormat, FfprobeOutput, FfprobeStream};
use ic_oss_cli::transcode::types::{MediaVariantKind, MediaVariantSpec};

fn video_spec() -> MediaVariantSpec {
    MediaVariantSpec {
        label: "720p".into(),
        kind: MediaVariantKind::Transcode { profile: "h264-main".into() },
        content_type: "video/mp4".into(),
        codec: "avc1.4d401f,mp4a.40.2".into(),
        width: Some(1_280),
        height: Some(720),
        bitrate_bps: Some(3_000_000),
    }
}

fn valid_output() -> FfprobeOutput {
    FfprobeOutput {
        streams: vec![
            FfprobeStream {
                codec_type: "video".into(),
                codec_name: "h264".into(),
                profile: Some("Main".into()),
                level: Some(31),
                width: Some(1_280),
                height: Some(720),
                bit_rate: Some("2800000".into()),
            },
            FfprobeStream {
                codec_type: "audio".into(),
                codec_name: "aac".into(),
                profile: Some("LC".into()),
                level: None,
                width: None,
                height: None,
                bit_rate: Some("128000".into()),
            },
        ],
        format: FfprobeFormat { format_name: "mov,mp4,m4a,3gp,3g2,mj2".into() },
    }
}

#[test]
fn ffmpeg_plan_is_bounded_by_the_variant_contract() {
    let args = build_ffmpeg_args(Some("source.mov"), Some("output.mp4"), &video_spec()).unwrap();
    assert!(args.windows(2).any(|pair| pair == ["-c:v", "libx264"]));
    assert!(args.windows(2).any(|pair| pair == ["-profile:v", "main"]));
    assert!(args.windows(2).any(|pair| pair == ["-level:v", "3.1"]));
    assert!(args.windows(2).any(|pair| pair == ["-vf", "scale=1280:720"]));
    assert!(args.windows(2).any(|pair| pair == ["-maxrate", "3000000"]));
    assert!(args.windows(2).any(|pair| pair == ["-c:a", "aac"]));
    assert!(args.windows(2).any(|pair| pair == ["-force_key_frames", "expr:gte(t,n_forced*4)"]));
    assert!(args.iter().any(|argument| argument.contains("global_sidx")));
}

#[test]
fn every_argument_of_a_video_is_fixed() {
    let mut spec = video_spec();
    spec.codec = "avc1.64001e".into();
    spec.kind = MediaVariantKind::Transcode { profile: "h264-high".into() };
    spec.bitrate_bps = Some(u64::MAX);
    let args = build_ffmpeg_args(Some("in.mov"), Some("out.mp4"), &spec).unwrap();
    assert_eq!(
        args,
        [
            "-nostdin",
            "-hide_banner",
            "-loglevel",
            "error",
            "-y",
            "-i",
            "in.mov",
            "-map",
            "0:v:0",
            "-map",
            "0:a?",
            "-c:v",
            "libx264",
            "-profile:v",
            "high",
            "-level:v",
            "3.0",
            "-pix_fmt",
            "yuv420p",
            "-force_key_frames",
            "expr:gte(t,n_forced*4)",
            "-vf",
            "scale=1280:720",
            "-b:v",
            "18446744073709551615",
            "-maxrate",
            "18446744073709551615",
            "-bufsize",
            "18446744073709551615",
            "-an",
            "-movflags",
            "+frag_keyframe+empty_moov+default_base_moof+global_sidx+skip_trailer",
            "-frag_duration",
            "4000000",
            "out.mp4",
        ]
    );
}

#[test]
fn images_are_one_scaled_frame() {
    let spec = MediaVariantSpec {
        label: "poster".into(),
        kind: MediaVariantKind::Poster,
        content_type: "image/webp".into(),
        codec: "webp".into(),
        width: Some(640),
        height: Some(360),
        bitrate_bps: None,
    };
    let args = build_ffmpeg_args(Some("in.mov"), Some("out.webp"), &spec).unwrap();
    assert_eq!(
        args[7..],
        [
            "-frames:v",
            "1",
            "-an",
            "-vf",
            "thumbnail,scale=640:360",
            "-c:v",
            "libwebp",
            "out.webp"
        ]
    );
    let mut unscaled = spec.clone();
    unscaled.width = None;
    assert_eq!(
        build_ffmpeg_args(Some("a"), Some("b"), &unscaled).unwrap_err(),
        "variant dimensions are incomplete"
    );
    unscaled.height = None;
    let args = build_ffmpeg_args(Some("a"), Some("b"), &unscaled).unwrap();
    assert!(args.windows(2).any(|pair| pair == ["-vf", "thumbnail"]));
    let mut wrong = spec;
    wrong.codec = "png".into();
    assert_eq!(
        build_ffmpeg_args(Some("a"), Some("b"), &wrong).unwrap_err(),
        "variant poster uses an unsupported image contract"
    );
}

#[test]
fn video_contracts_are_checked() {
    let fault = |codec: &str, profile: &str| {
        let mut spec = video_spec();
        spec.codec = codec.into();
        spec.kind = MediaVariantKind::Transcode { profile: profile.into() };
        build_ffmpeg_args(Some("a"), Some("b"), &spec).unwrap_err()
    };
    assert_eq!(fault("vp09", "h264-main"), "variant 720p uses an unsupported video contract");
    assert_eq!(fault("avc1.4d40", "h264-main"), "variant 720p avc1 profile-level must contain six hex digits");
    assert_eq!(
        fault("avc1.4d40zz", "h264-main"),
        "variant 720p avc1 codec is invalid: Invalid character 'z' at position 4"
    );
    assert_eq!(fault("avc1.07401f", "h264-main"), "variant 720p uses unsupported H.264 profile id 0x7");
    assert_eq!(fault("avc1.f4401f", "h264-main"), "variant 720p uses unsupported H.264 profile id 0xf4");
    assert_eq!(fault("avc1.4d401f", "h264"), "variant 720p uses unsupported H.264 profile h264");
    assert_eq!(
        fault("avc1.4d401f", "h264-baseline"),
        "variant 720p profile baseline does not match codec avc1.4d401f"
    );
    assert_eq!(
        build_ffmpeg_args(None, Some("b"), &video_spec()).unwrap_err(),
        "source path is not valid UTF-8"
    );
    assert_eq!(
        build_ffmpeg_args(Some("a"), None, &video_spec()).unwrap_err(),
        "output path is not valid UTF-8"
    );
}

#[test]
fn inspections_ask_for_the_streams_as_json() {
    let args = build_ffprobe_args(Some("out.mp4")).unwrap();
    assert_eq!(args[0..2], ["-v", "error"]);
    assert_eq!(args[4..], ["-of", "json", "out.mp4"]);
    assert!(build_ffprobe_args(None).is_err());
}

#[test]
fn ffprobe_contract_rejects_wrong_codec_dimensions_and_bitrate() {
    let valid = valid_output();
    let probe = validate_probe(&video_spec(), &valid).unwrap();
    assert_eq!(probe.bitrate_bps, Some(2_800_000));

    let mut wrong_codec = valid;
    wrong_codec.streams[0].codec_name = "vp9".into();
    assert!(validate_probe(&video_spec(), &wrong_codec).is_err());
    wrong_codec.streams[0].codec_name = "h264".into();
    wrong_codec.streams[0].width = Some(640);
    assert!(validate_probe(&video_spec(), &wrong_codec).is_err());
    wrong_codec.streams[0].width = Some(1_280);
    wrong_codec.streams[0].bit_rate = Some("3000001".into());
    assert!(validate_probe(&video_spec(), &wrong_codec).is_err());
}

#[test]
fn inspection_faults_are_told_exactly() {
    let fault = |change: fn(&mut FfprobeOutput)| {
        let mut output = valid_output();
        change(&mut output);
        validate_probe(&video_spec(), &output).unwrap_err()
    };
    assert_eq!(
        fault(|output| output.streams[0].codec_type = "data".into()),
        "variant 720p has no video/image stream"
    );
    assert_eq!(
        fault(|output| output.streams[0].width = None),
        "variant 720p dimensions NonexSome(720) do not match Some(1280)xSome(720)"
    );
    assert_eq!(
        fault(|output| output.streams[0].codec_name = "vp9".into()),
        "variant 720p codec vp9 does not match h264"
    );
    assert_eq!(
        fault(|output| output.streams[0].level = Some(30)),
        "variant 720p H.264 profile/level Some(\"Main\")/Some(30) does not match Some(\"Main\")/Some(31)"
    );
    assert_eq!(
        fault(|output| output.format.format_name = "matroska,webm".into()),
        "variant 720p container matroska,webm is not mp4"
    );
    assert_eq!(
        fault(|output| output.streams[1].codec_name = "opus".into()),
        "variant 720p requires an AAC audio stream"
    );
    assert_eq!(fault(|output| output.streams[0].bit_rate = None), "variant 720p has no video bitrate");
    assert_eq!(
        fault(|output| output.streams[0].bit_rate = Some("fast".into())),
        "variant 720p bitrate is invalid: invalid digit found in string"
    );
    assert_eq!(
        fault(|output| output.streams[0].bit_rate = Some("0".into())),
        "variant 720p bitrate 0 exceeds contract maximum 3000000"
    );
    let mut output = valid_output();
    output.streams[0].profile = Some("mAIN".into());
    output.streams[0].bit_rate = Some("+3000000".into());
    let probe = validate_probe(&video_spec(), &output).unwrap();
    assert_eq!(probe.bitrate_bps, Some(3_000_000));
    assert_eq!(probe.observed_audio_codec.as_deref(), Some("aac"));
    assert_eq!(probe.observed_format, "mov,mp4,m4a,3gp,3g2,mj2");
}

#[test]
fn labels_and_extensions_cannot_escape_the_work_directory() {
    assert_eq!(sanitize_label("../../720 p"), "______720_p");
    assert_eq!(output_extension(&video_spec()).unwrap(), "mp4");
    let mut unsupported = video_spec();
    unsupported.content_type = "video/webm".into();
    assert!(output_extension(&unsupported).is_err());
}

#[test]
fn empty_labels_get_a_name() {
    assert_eq!(sanitize_label(""), "variant");
    assert_eq!(sanitize_label("a-Z_9"), "a-Z_9");
    assert_eq!(sanitize_label("ä/b"), "__b");
}

#[test]
fn worker_failure_is_bounded_on_utf8_boundaries() {
    let error = "错".repeat(400);
    let bounded = bounded_error(&error, 1_000);
    assert!(bounded.len() <= 1_000);
    assert!(!bounded.is_empty());
    assert_eq!(bounded_error("  ", 1_000), "transcode worker failed without an error message");
}

#[test]
fn bounded_messages_are_as_long_as_possible() {
    assert_eq!(bounded_error(&"错".repeat(400), 1_000), "错".repeat(333));
    assert_eq!(bounded_error(" abc ", 2), "ab");
    assert_eq!(bounded_error("错", 2), "transcode worker failed without an error message");
}
